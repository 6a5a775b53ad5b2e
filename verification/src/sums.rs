//! Finite sums.

use vstd::prelude::*;

verus! {

/// `f(lo) + f(lo + 1) + ... + f(hi - 1)`.
pub open spec fn sum(f: spec_fn(int) -> int, lo: int, hi: int) -> int
    decreases hi - lo,
{
    if hi <= lo {
        0
    } else {
        sum(f, lo, hi - 1) + f(hi - 1)
    }
}

/// A sum of terms between `a` and `b` lies between as many times `a` and `b`.
pub proof fn lemma_sum_bounds(f: spec_fn(int) -> int, lo: int, hi: int, a: int, b: int)
    requires
        forall|i: int| lo <= i < hi ==> a <= #[trigger] f(i) <= b,
        lo <= hi,
    ensures
        (hi - lo) * a <= sum(f, lo, hi) <= (hi - lo) * b,
    decreases hi - lo,
{
    if lo < hi {
        lemma_sum_bounds(f, lo, hi - 1, a, b);
        assert((hi - lo) * a == (hi - 1 - lo) * a + a) by (nonlinear_arith);
        assert((hi - lo) * b == (hi - 1 - lo) * b + b) by (nonlinear_arith);
    } else {
        assert((hi - lo) * a == 0 && (hi - lo) * b == 0) by (nonlinear_arith)
            requires
                hi == lo,
        ;
    }
}

/// A sum with one term that is not zero is that term.
pub proof fn lemma_sum_single(f: spec_fn(int) -> int, lo: int, hi: int, p: int)
    requires
        forall|i: int| lo <= i < hi && i != p ==> #[trigger] f(i) == 0,
    ensures
        sum(f, lo, hi) == if lo <= p < hi {
            f(p)
        } else {
            0
        },
    decreases hi - lo,
{
    if lo < hi {
        lemma_sum_single(f, lo, hi - 1, p);
    }
}

/// A sum adds one term for each place, and splits between any two.
pub proof fn law_sum_splits(f: spec_fn(int) -> int, lo: int, mid: int, hi: int)
    requires
        lo <= mid <= hi,
    ensures
        sum(f, lo, hi) == sum(f, lo, mid) + sum(f, mid, hi),
        sum(f, lo, lo) == 0,
        sum(f, lo, lo + 1) == f(lo),
    decreases hi - mid,
{
    reveal_with_fuel(sum, 3);
    if mid < hi {
        law_sum_splits(f, lo, mid, hi - 1);
    }
}

} // verus!
