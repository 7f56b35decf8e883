//! Factorials: the count of permutations of a given number of elements.

use vstd::prelude::*;

verus! {

/// Mathematical factorial: `fact(n) == 1 * 2 * ... * n`, with `fact(0) == 1`.
pub open spec fn fact(n: nat) -> nat
    decreases n,
{
    if n == 0 {
        1
    } else {
        n * fact((n - 1) as nat)
    }
}

/// Factorial is monotone: more elements never mean fewer permutations.
pub proof fn lemma_fact_monotone(m: nat, n: nat)
    requires
        m <= n,
    ensures
        fact(m) <= fact(n),
    decreases n,
{
    if m < n {
        lemma_fact_monotone(m, (n - 1) as nat);
        assert(fact(n) == n * fact((n - 1) as nat));
        assert(1 * fact((n - 1) as nat) <= n * fact((n - 1) as nat)) by (nonlinear_arith)
            requires
                n >= 1,
        ;
        assert(1 * fact((n - 1) as nat) == fact((n - 1) as nat));
    }
}

/// Factorials are at least one.
pub proof fn lemma_fact_pos(n: nat)
    ensures
        fact(n) >= 1,
{
    lemma_fact_monotone(0, n);
}

/// Number of permutations of `number` elements. Negative inputs have an
/// empty product and so give `1`, as does `0`. Bounded at `20` because
/// `fact(21)` no longer fits in an `i64`.
pub fn factorial(number: i64) -> (r: i64)
    requires
        number <= 20,
    ensures
        number >= 0 ==> r == fact(number as nat),
        number < 0 ==> r == 1,
{
    proof {
        reveal_with_fuel(fact, 21);
    }
    let mut acc: i64 = 1;
    let mut k: i64 = 1;
    while k <= number
        invariant
            number <= 20,
            1 <= k <= if number < 1 { 1int } else { number + 1 },
            acc == fact((k - 1) as nat),
            fact(20) == 2432902008176640000,
        decreases number + 1 - k,
    {
        proof {
            lemma_fact_pos((k - 1) as nat);
            lemma_fact_monotone(k as nat, 20);
            assert(fact(k as nat) == k * fact((k - 1) as nat));
            assert(acc * k == k * acc) by (nonlinear_arith);
        }
        acc = acc * k;
        k = k + 1;
    }
    acc
}

} // verus!
