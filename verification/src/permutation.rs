//! A minimal-change permutation generator (the iterative quickperm scheme):
//! starting from the input order it produces every permutation of an
//! `n`-element sequence exactly `n!` times in total, one at a time, each
//! differing from the one before it by a single swap of two positions.
//!
//! The control array `p` works as a mixed-radix countdown: between calls the
//! digits below the cursor `i` are full (`p[k] == k`) and the weighted digit
//! sum `wsum` measures, through `remaining`, exactly how many permutations
//! are still to come. Each step lowers that measure by one, and the stream
//! ends, with the measure at zero, after the `n!`-th permutation.

use vstd::prelude::*;

use crate::citykey::Location;
use crate::util::fact;
use crate::util::lemma_fact_pos;
use vstd::pervasive::VecAdditionalExecFns;

verus! {

broadcast use vstd::seq_lib::group_to_multiset_ensures, vstd::multiset::group_multiset_axioms;

/// `[0, 1, 2, ..., length]`: the control array a fresh generator starts from.
pub fn create_integer_array(length: usize) -> (r: Vec<usize>)
    requires
        length < usize::MAX,
    ensures
        r@.len() == length + 1,
        forall|k: int| 0 <= k <= length ==> r@[k] == k,
{
    let mut v: Vec<usize> = Vec::new();
    let mut k: usize = 0;
    while k <= length
        invariant
            length < usize::MAX,
            k <= length + 1,
            v@.len() == k,
            forall|j: int| 0 <= j < k ==> v@[j] == j,
        decreases length + 1 - k,
    {
        v.push(k);
        k = k + 1;
    }
    v
}

/// Whether `n` is odd.
pub fn odd(n: usize) -> (r: bool)
    ensures
        r == (n % 2 != 0),
{
    n % 2 != 0
}

/// The weighted digit sum of the control array: `sum of p[k] * k!` for `k`
/// from `1` to `m`. With digit `k` never above `k` this is a counter in the
/// factorial number system.
pub open spec fn wsum(p: Seq<usize>, m: int) -> int
    decreases m,
{
    if m <= 0 {
        0
    } else {
        wsum(p, m - 1) + (p[m] as int) * (fact(m as nat) as int)
    }
}

/// A weighted digit sum never shrinks as more digits are taken in.
pub proof fn lemma_wsum_mono(p: Seq<usize>, m1: int, m2: int)
    requires
        m1 <= m2,
    ensures
        wsum(p, m1) <= wsum(p, m2),
    decreases m2 - m1,
{
    if m1 < m2 {
        lemma_wsum_mono(p, m1, m2 - 1);
        if m2 > 0 {
            lemma_fact_pos(m2 as nat);
            assert((p[m2] as int) * (fact(m2 as nat) as int) >= 0) by (nonlinear_arith)
                requires
                    p[m2] as int >= 0,
                    fact(m2 as nat) as int >= 0,
            ;
        }
    }
}

/// When every digit up to `m` is full the counter reads `(m + 1)! - 1`.
pub proof fn lemma_wsum_full(p: Seq<usize>, m: int)
    requires
        forall|k: int| 0 <= k <= m ==> #[trigger] p[k] == k,
    ensures
        wsum(p, m) == fact(if m < 0 { 0nat } else { (m + 1) as nat }) - 1,
    decreases m,
{
    if m <= 0 {
        assert(fact(1) == 1 * fact(0));
    } else {
        lemma_wsum_full(p, m - 1);
        assert(fact((m + 1) as nat) == ((m + 1) as nat) * fact(m as nat));
        assert(
            (fact(m as nat) as int) - 1 + (m as int) * (fact(m as nat) as int)
                == ((m + 1) as int) * (fact(m as nat) as int) - 1) by (nonlinear_arith);
    }
}

/// Changing digit `k` moves the counter by the difference times `k!`;
/// digits outside `1..=m` do not move it at all.
pub proof fn lemma_wsum_update(p: Seq<usize>, k: int, v: usize, m: int)
    requires
        0 <= k < p.len(),
        m < p.len(),
    ensures
        wsum(p.update(k, v), m) == wsum(p, m) + if 1 <= k <= m {
            ((v as int) - (p[k] as int)) * (fact(k as nat) as int)
        } else {
            0
        },
    decreases m,
{
    if m <= 0 {
    } else {
        lemma_wsum_update(p, k, v, m - 1);
        if k == m {
            assert(
                (v as int) * (fact(m as nat) as int) - (p[m] as int) * (fact(m as nat) as int)
                    == ((v as int) - (p[m] as int)) * (fact(m as nat) as int)) by (nonlinear_arith);
        }
    }
}

/// Two sequences that differ by one swap of two distinct positions.
pub open spec fn is_transposition(s1: Seq<Location>, s2: Seq<Location>) -> bool {
    &&& s2.len() == s1.len()
    &&& exists|x: int, y: int|
        0 <= x < y < s1.len() && s2 == s1.update(x, s1[y]).update(y, s1[x])
}

/// The stateful generator: the working sequence `a`, the control array `p`,
/// the cursor `i`, and whether the untouched input has been handed out yet.
pub struct Permutations {
    a: Vec<Location>,
    n: usize,
    p: Vec<usize>,
    i: usize,
    initial_call: bool,
    initial: Ghost<Seq<Location>>,
}

impl Permutations {
    /// The input order the generator was seeded with.
    pub closed spec fn spec_initial(self) -> Seq<Location> {
        self.initial@
    }

    /// The working sequence: the permutation most recently handed out.
    pub closed spec fn spec_current(self) -> Seq<Location> {
        self.a@
    }

    /// Whether the first permutation (the input itself) is already out.
    pub closed spec fn started(self) -> bool {
        !self.initial_call
    }

    /// How many more permutations the generator will hand out. A fresh
    /// generator over `n` elements has `n!` to give; each call on a
    /// non-exhausted generator lowers this by exactly one.
    pub closed spec fn remaining(self) -> int {
        if self.initial_call {
            fact(self.a@.len() as nat) as int
        } else {
            wsum(self.p@, self.a@.len() - 1) - (fact(self.i as nat) as int) + 1
        }
    }

    /// The generator's internal invariant: the control array is a factorial
    /// counter whose digits below the cursor are full, and the working
    /// sequence is a rearrangement of the input.
    pub closed spec fn wf(self) -> bool {
        &&& self.n == self.a@.len()
        &&& self.p@.len() == self.n + 1
        &&& forall|k: int| 0 <= k <= self.n ==> #[trigger] self.p@[k] <= k
        &&& 1 <= self.i
        &&& self.i <= if self.n == 0 { 1int } else { self.n as int }
        &&& forall|k: int| 0 <= k < self.i ==> #[trigger] self.p@[k] == k
        &&& (self.n >= 1 ==> self.p@[self.n as int] == self.n)
        &&& (self.n >= 1 ==> self.p@[self.i as int] >= 1)
        &&& (self.initial_call ==> self.a@ == self.initial@ && self.i == 1 && forall|k: int|
            0 <= k <= self.n ==> #[trigger] self.p@[k] == k)
        &&& self.a@.to_multiset() == self.initial@.to_multiset()
    }

    /// A well-formed generator never owes a negative number of
    /// permutations.
    pub proof fn lemma_remaining_nonneg(self)
        requires
            self.wf(),
        ensures
            self.remaining() >= 0,
    {
        reveal_with_fuel(fact, 2);
        if !self.initial_call {
            let n = self.a@.len() as int;
            if n >= 1 {
                lemma_wsum_full(self.p@, self.i - 1);
                lemma_wsum_mono(self.p@, self.i - 1, n - 1);
            }
        }
    }

    /// A generator seeded with `a`, which will hand out the permutations of
    /// `a` starting with `a` itself.
    pub fn new(a: &[Location]) -> (r: Permutations)
        requires
            a@.len() < usize::MAX,
        ensures
            r.wf(),
            !r.started(),
            r.spec_initial() == a@,
            r.spec_current() == a@,
            r.remaining() == fact(a@.len() as nat),
    {
        let mut av: Vec<Location> = Vec::new();
        let mut k: usize = 0;
        while k < a.len()
            invariant
                k <= a@.len(),
                av@ == a@.subrange(0, k as int),
            decreases a@.len() - k,
        {
            av.push(a[k]);
            proof {
                assert(av@ =~= a@.subrange(0, k + 1));
            }
            k = k + 1;
        }
        proof {
            assert(av@ =~= a@);
        }
        let n = av.len();
        let p = create_integer_array(n);
        Permutations { a: av, n, p, i: 1, initial_call: true, initial: Ghost(a@) }
    }

    /// Hand out the next permutation, or `None` once all `n!` are out.
    ///
    /// The first call returns the input untouched; every later successful
    /// call returns the previous permutation with exactly one pair of
    /// positions swapped. Querying an exhausted generator is a no-op.
    pub fn next(&mut self) -> (r: Option<Vec<Location>>)
        requires
            old(self).wf(),
        ensures
            final(self).wf(),
            final(self).started(),
            final(self).spec_initial() == old(self).spec_initial(),
            r.is_some() <==> old(self).remaining() > 0,
            r.is_some() ==> final(self).remaining() == old(self).remaining() - 1,
            r.is_none() ==> *final(self) == *old(self) && old(self).remaining() == 0,
            match r {
                Some(v) => v@ == final(self).spec_current() && v@.to_multiset() == old(
                    self,
                ).spec_initial().to_multiset(),
                None => true,
            },
            !old(self).started() ==> r.is_some() && r.unwrap()@ == old(self).spec_initial(),
            old(self).started() && r.is_some() ==> is_transposition(
                old(self).spec_current(),
                r.unwrap()@,
            ),
    {
        proof {
            reveal_with_fuel(fact, 2);
        }
        if self.initial_call {
            self.initial_call = false;
            proof {
                lemma_wsum_full(self.p@, self.a@.len() - 1);
                lemma_fact_pos(self.a@.len() as nat);
            }
            Some(copy_locations(&self.a))
        } else if self.i < self.n {
            let ghost pre = *self;
            let i0 = self.i;
            let pi = self.p[i0] - 1;
            self.p.set(i0, pi);
            let j = if odd(i0) {
                pi
            } else {
                0
            };
            let ai = self.a[i0];
            let aj = self.a[j];
            self.a.set(i0, aj);
            self.a.set(j, ai);
            self.i = 1;
            proof {
                // One decrement of digit i0 lowers the counter by i0!.
                lemma_wsum_update(pre.p@, i0 as int, pi, pre.n - 1);
                assert(
                    ((pi as int) - (pre.p@[i0 as int] as int)) * (fact(i0 as nat) as int)
                        == -1 * (fact(i0 as nat) as int)) by (nonlinear_arith)
                    requires
                        (pi as int) - (pre.p@[i0 as int] as int) == -1,
                ;
                // The two writes are one swap of distinct positions j < i0.
                assert(self.a@ =~= pre.a@.update(j as int, pre.a@[i0 as int]).update(
                    i0 as int,
                    pre.a@[j as int],
                ));
                assert(self.a@.to_multiset() =~= pre.a@.to_multiset());
            }
            let ghost w1 = wsum(self.p@, self.n - 1);
            let ghost mid = *self;
            while self.p[self.i] == 0
                invariant
                    self.n == self.a@.len(),
                    self.p@.len() == self.n + 1,
                    self.n >= 1,
                    1 <= self.i <= self.n,
                    self.p@[self.n as int] == self.n,
                    forall|k: int| 0 <= k <= self.n ==> #[trigger] self.p@[k] <= k,
                    forall|k: int| 0 <= k < self.i ==> #[trigger] self.p@[k] == k,
                    wsum(self.p@, self.n - 1) == w1 + fact(self.i as nat) - 1,
                    self.a == mid.a,
                    self.n == mid.n,
                    self.initial == mid.initial,
                    self.initial_call == false,
                    fact(1) == 1,
                decreases self.n - self.i,
            {
                let ii = self.i;
                proof {
                    lemma_wsum_update(self.p@, ii as int, ii as usize, self.n - 1);
                    assert(((ii as int) - 0) * (fact(ii as nat) as int) == (ii as int) * (fact(
                        ii as nat,
                    ) as int));
                    assert(fact((ii + 1) as nat) == ((ii + 1) as nat) * fact(ii as nat));
                    assert(
                        (fact(ii as nat) as int) + (ii as int) * (fact(ii as nat) as int) == ((ii
                            + 1) as int) * (fact(ii as nat) as int)) by (nonlinear_arith);
                }
                self.p.set(ii, ii);
                self.i = ii + 1;
            }
            proof {
                // remaining went from w1 + 1 down to w1.
                lemma_wsum_mono(mid.p@, 0, mid.n - 1);
                assert(old(self).remaining() == w1 + 1);
                assert(self.remaining() == w1);
                // the transposition witness: positions j and i0 of the
                // previous permutation were exchanged.
                assert(0 <= j < i0 < pre.a@.len());
                assert(self.a@ == pre.a@.update(j as int, pre.a@[i0 as int]).update(
                    i0 as int,
                    pre.a@[j as int],
                ));
                assert(is_transposition(pre.a@, self.a@));
            }
            Some(copy_locations(&self.a))
        } else {
            proof {
                if self.n >= 1 {
                    lemma_wsum_full(self.p@, self.n - 1);
                }
            }
            None
        }
    }
}

/// A fresh copy of the working sequence, handed to the caller so the
/// generator may keep mutating its own array in place.
fn copy_locations(v: &Vec<Location>) -> (r: Vec<Location>)
    ensures
        r@ == v@,
{
    let mut r: Vec<Location> = Vec::new();
    let mut k: usize = 0;
    while k < v.len()
        invariant
            k <= v@.len(),
            r@ == v@.subrange(0, k as int),
        decreases v@.len() - k,
    {
        r.push(v[k]);
        proof {
            assert(r@ =~= v@.subrange(0, k + 1));
        }
        k = k + 1;
    }
    proof {
        assert(r@ =~= v@);
    }
    r
}

} // verus!
