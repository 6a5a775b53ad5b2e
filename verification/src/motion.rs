//! Motion between two frames: which correspondences are sampled, which estimate is
//! the best, and which estimates can be trusted.

use crate::double::Double;
use vstd::prelude::*;

verus! {

/// The state that every run starts from.
pub const SEED: u64 = 0x9e37_79b9_7f4a_7c15;

/// The factor of a step of the generator.
pub const FACTOR: u64 = 6364136223846793005;

/// The addend of a step of the generator.
pub const ADDEND: u64 = 1442695040888963407;

/// The number of iterations of an estimate.
pub const ITERATIONS: usize = 2000;

/// The bit pattern of 1.5: the reprojection error, in pixels, below which a
/// correspondence agrees with an estimate.
pub const MAX_ERROR: u64 = 0x3ff8_0000_0000_0000;

/// The correspondences that an estimate needs at least.
pub const MIN_CORRESPONDENCES: usize = 6;

/// The state after one step from `state`.
pub open spec fn next_state(state: u64) -> u64 {
    ((state * FACTOR + ADDEND) % 0x1_0000_0000_0000_0000) as u64
}

/// The state after `m` steps from `state`.
pub open spec fn state_after(state: u64, m: nat) -> u64
    decreases m,
{
    if m == 0 {
        state
    } else {
        next_state(state_after(state, (m - 1) as nat))
    }
}

/// The index below `n` that a state stands for.
pub open spec fn index_of(state: u64, n: int) -> int {
    (state as int / 0x2_0000_0000) % n
}

/// The three indices that the steps from `state` on give.
pub open spec fn triple_from(state: u64, n: int) -> (int, int, int) {
    (
        index_of(state_after(state, 1), n),
        index_of(state_after(state, 2), n),
        index_of(state_after(state, 3), n),
    )
}

/// Three different indices.
pub open spec fn distinct(t: (int, int, int)) -> bool {
    t.0 != t.1 && t.0 != t.2 && t.1 != t.2
}

/// The state at the start of the first of `left` iterations from `state` on that
/// samples three different indices, with the number of iterations left after it;
/// `None` when there is none.
pub open spec fn next_round(state: u64, n: int, left: nat) -> Option<(u64, nat)>
    decreases left,
{
    if left == 0 {
        None
    } else if distinct(triple_from(state, n)) {
        Some((state, (left - 1) as nat))
    } else {
        next_round(state_after(state, 3), n, (left - 1) as nat)
    }
}

fn step(state: u64) -> (r: u64)
    ensures
        r == next_state(state),
{
    proof {
        let p = state * FACTOR;
        assert((p % 0x1_0000_0000_0000_0000 + ADDEND) % 0x1_0000_0000_0000_0000 == (p + ADDEND)
            % 0x1_0000_0000_0000_0000) by (nonlinear_arith);
    }
    state.wrapping_mul(FACTOR).wrapping_add(ADDEND)
}

fn pick(state: u64, n: usize) -> (r: usize)
    requires
        n > 0,
    ensures
        r == index_of(state, n as int),
        r < n,
{
    let high: u64 = state / 0x2_0000_0000;
    assert(high < 0x8000_0000);
    (high % n as u64) as usize
}

/// The sampling of correspondences, three at a time, and the score of the best
/// estimate so far.
#[derive(Debug, Clone, Copy, PartialEq, Eq, Structural)]
pub struct Sampling {
    n: usize,
    state: u64,
    left: usize,
    best: Option<usize>,
}

impl Sampling {
    /// The number of correspondences.
    pub closed spec fn count(self) -> int {
        self.n as int
    }

    /// The state of the generator.
    pub closed spec fn generator(self) -> u64 {
        self.state
    }

    /// The number of iterations left.
    pub closed spec fn rounds_left(self) -> nat {
        self.left as nat
    }

    /// The score of the best estimate.
    pub closed spec fn best_score(self) -> Option<usize> {
        self.best
    }

    /// The start of `iterations` iterations over `n` correspondences; `None` when
    /// there are fewer than three.
    pub fn new(n: usize, iterations: usize) -> (r: Option<Sampling>)
        ensures
            r is Some <==> n >= 3,
            r matches Some(s) ==> {
                &&& s.count() == n
                &&& s.generator() == SEED
                &&& s.rounds_left() == iterations
                &&& s.best_score() is None
            },
    {
        if n < 3 {
            None
        } else {
            Some(Sampling { n, state: SEED, left: iterations, best: None })
        }
    }

    /// The next three different indices to estimate from; `None` when the
    /// iterations are used up. An iteration whose indices are not all different
    /// counts, and is passed over.
    pub fn next_sample(&mut self) -> (r: Option<(usize, usize, usize)>)
        requires
            old(self).count() > 0,
        ensures
            final(self).count() == old(self).count(),
            final(self).best_score() == old(self).best_score(),
            match (
                r,
                next_round(old(self).generator(), old(self).count(), old(self).rounds_left()),
            ) {
                (None, None) => final(self).rounds_left() == 0,
                (Some((i, j, k)), Some((state, left))) => {
                    let t = triple_from(state, old(self).count());
                    &&& i == t.0 && j == t.1 && k == t.2
                    &&& i < old(self).count() && j < old(self).count() && k < old(self).count()
                    &&& final(self).generator() == state_after(state, 3)
                    &&& final(self).rounds_left() == left
                },
                _ => false,
            },
    {
        let ghost (first, all) = (self.state, self.left as nat);
        while self.left > 0
            invariant
                self.n == old(self).n,
                self.n > 0,
                self.best == old(self).best,
                first == old(self).state,
                all == old(self).left,
                next_round(self.state, self.n as int, self.left as nat) == next_round(
                    first,
                    self.n as int,
                    all,
                ),
            decreases self.left,
        {
            let ghost start = self.state;
            let a: u64 = step(self.state);
            let b: u64 = step(a);
            let c: u64 = step(b);
            proof {
                reveal_with_fuel(state_after, 4);
                assert(state_after(start, 1) == a);
                assert(state_after(start, 2) == b);
                assert(state_after(start, 3) == c);
            }
            let i: usize = pick(a, self.n);
            let j: usize = pick(b, self.n);
            let k: usize = pick(c, self.n);
            self.state = c;
            self.left = self.left - 1;
            if i != j && i != k && j != k {
                return Some((i, j, k));
            }
        }
        None
    }

    /// Takes note of an estimate's score; `true` when it is the best so far.
    pub fn consider(&mut self, inliers: usize) -> (r: bool)
        ensures
            final(self).count() == old(self).count(),
            final(self).generator() == old(self).generator(),
            final(self).rounds_left() == old(self).rounds_left(),
            r == is_better(old(self).best_score(), inliers),
            final(self).best_score() == better_of(old(self).best_score(), inliers),
    {
        let better = match self.best {
            None => true,
            Some(b) => inliers > b,
        };
        if better {
            self.best = Some(inliers);
        }
        better
    }
}

/// A score is better than the best one so far: there is none, or it is greater.
pub open spec fn is_better(best: Option<usize>, score: usize) -> bool {
    match best {
        None => true,
        Some(b) => score > b,
    }
}

/// The better one of the best score so far and another.
pub open spec fn better_of(best: Option<usize>, score: usize) -> Option<usize> {
    if is_better(best, score) {
        Some(score)
    } else {
        best
    }
}

/// The best of the scores, noted one after the other.
pub open spec fn best_of(scores: Seq<usize>) -> Option<usize>
    decreases scores.len(),
{
    if scores.len() == 0 {
        None
    } else {
        better_of(best_of(scores.drop_last()), scores.last())
    }
}

/// The best of the scores is one of them, and none is greater.
pub proof fn law_best_is_maximum(scores: Seq<usize>)
    requires
        scores.len() > 0,
    ensures
        best_of(scores) matches Some(b) && scores.contains(b) && forall|i: int|
            0 <= i < scores.len() ==> #[trigger] scores[i] <= b,
    decreases scores.len(),
{
    let rest = scores.drop_last();
    assert(scores.contains(scores.last())) by {
        assert(scores[scores.len() - 1] == scores.last());
    }
    if rest.len() > 0 {
        law_best_is_maximum(rest);
        let b = best_of(rest)->0;
        let m = choose|m: int| 0 <= m < rest.len() && rest[m] == b;
        assert(scores[m] == b);
        assert forall|i: int| 0 <= i < scores.len() implies #[trigger] scores[i]
            <= best_of(scores)->0 by {
            if i < rest.len() {
                assert(rest[i] == scores[i]);
            }
        }
    }
}

/// The places of the errors below the threshold.
pub open spec fn are_inliers(r: Seq<usize>, errors: Seq<Double>, threshold: Double) -> bool {
    &&& forall|i: int, j: int| 0 <= i < j < r.len() ==> #[trigger] r[i] < #[trigger] r[j]
    &&& forall|i: int| 0 <= i < r.len() ==> #[trigger] r[i] < errors.len()
    &&& forall|m: int|
        0 <= m < errors.len() ==> (r.contains(m as usize) <==> (#[trigger] errors[m]).less(
            threshold,
        ))
}

/// The correspondences whose reprojection error is below the threshold, in order.
pub fn inliers(errors: &Vec<Double>, threshold: Double) -> (r: Vec<usize>)
    ensures
        are_inliers(r@, errors@, threshold),
{
    let mut out: Vec<usize> = Vec::new();
    let mut m: usize = 0;
    while m < errors.len()
        invariant
            m <= errors.len(),
            forall|i: int, j: int|
                0 <= i < j < out.len() ==> #[trigger] out@[i] < #[trigger] out@[j],
            forall|i: int| 0 <= i < out.len() ==> #[trigger] out@[i] < m,
            forall|e: int|
                0 <= e < m ==> (out@.contains(e as usize) <==> (#[trigger] errors@[e]).less(
                    threshold,
                )),
        decreases errors.len() - m,
    {
        let ghost done = out@;
        if errors[m].lt(threshold) {
            out.push(m);
        }
        proof {
            assert forall|e: int| 0 <= e < m + 1 implies (out@.contains(e as usize) <==> (
            #[trigger] errors@[e]).less(threshold)) by {
                if e == m {
                    if errors@[e].less(threshold) {
                        assert(out@[done.len() as int] == m);
                    }
                } else {
                    if done.contains(e as usize) {
                        let i = choose|i: int| 0 <= i < done.len() && done[i] == e as usize;
                        assert(out@[i] == e as usize);
                    }
                }
            }
        }
        m += 1;
    }
    out
}

/// A feature that can be used: it was followed, and has a depth in both frames.
pub open spec fn is_usable(ok: Seq<bool>, before: Seq<bool>, after: Seq<bool>, m: int) -> bool {
    ok[m] && before[m] && after[m]
}

/// The places of the features that can be used.
pub open spec fn are_usable(
    r: Seq<usize>,
    ok: Seq<bool>,
    before: Seq<bool>,
    after: Seq<bool>,
) -> bool {
    &&& forall|i: int, j: int| 0 <= i < j < r.len() ==> #[trigger] r[i] < #[trigger] r[j]
    &&& forall|i: int| 0 <= i < r.len() ==> #[trigger] r[i] < ok.len()
    &&& forall|m: int|
        0 <= m < ok.len() ==> (r.contains(m as usize) <==> #[trigger] is_usable(
            ok,
            before,
            after,
            m,
        ))
}

/// The features to estimate the motion from, in order: those that were followed and
/// have a depth in the frame before and in the one after. The others are passed
/// over.
pub fn usable(ok: &Vec<bool>, before: &Vec<bool>, after: &Vec<bool>) -> (r: Vec<usize>)
    requires
        before.len() == ok.len(),
        after.len() == ok.len(),
    ensures
        are_usable(r@, ok@, before@, after@),
{
    let mut out: Vec<usize> = Vec::new();
    let mut m: usize = 0;
    while m < ok.len()
        invariant
            m <= ok.len(),
            before.len() == ok.len(),
            after.len() == ok.len(),
            forall|i: int, j: int|
                0 <= i < j < out.len() ==> #[trigger] out@[i] < #[trigger] out@[j],
            forall|i: int| 0 <= i < out.len() ==> #[trigger] out@[i] < m,
            forall|e: int|
                0 <= e < m ==> (out@.contains(e as usize) <==> #[trigger] is_usable(
                    ok@,
                    before@,
                    after@,
                    e,
                )),
        decreases ok.len() - m,
    {
        let ghost done = out@;
        if ok[m] && before[m] && after[m] {
            out.push(m);
        }
        proof {
            assert forall|e: int| 0 <= e < m + 1 implies (out@.contains(e as usize)
                <==> #[trigger] is_usable(ok@, before@, after@, e)) by {
                if e == m {
                    if is_usable(ok@, before@, after@, e) {
                        assert(out@[done.len() as int] == m);
                    }
                } else if done.contains(e as usize) {
                    let i = choose|i: int| 0 <= i < done.len() && done[i] == e as usize;
                    assert(out@[i] == e as usize);
                }
            }
        }
        m += 1;
    }
    out
}

/// The inliers that an estimate from `total` correspondences needs: one in forty,
/// and twenty at least.
pub open spec fn inliers_needed(total: int) -> int {
    if total / 40 > 20 {
        total / 40
    } else {
        20
    }
}

/// The inliers that an estimate from `total` correspondences needs; `None` when
/// there are too few to estimate from.
pub fn min_inliers(total: usize) -> (r: Option<usize>)
    ensures
        r is Some <==> total >= MIN_CORRESPONDENCES,
        r matches Some(n) ==> n == inliers_needed(total as int),
{
    if total < MIN_CORRESPONDENCES {
        None
    } else if total / 40 > 20 {
        Some(total / 40)
    } else {
        Some(20)
    }
}

/// Whether an estimate with so many inliers can be trusted.
pub fn trusted(found: usize, needed: usize) -> (r: bool)
    ensures
        r == (found >= needed),
{
    found >= needed
}

/// The features to estimate from are those that were followed, have a depth in the
/// frame before and have a depth in the one after: all three, and no others. They
/// stand in order, each once.
pub proof fn law_usable_features_have_all_three(
    ok: Vec<bool>,
    before: Vec<bool>,
    after: Vec<bool>,
    r: Vec<usize>,
)
    requires
        before.len() == ok.len(),
        after.len() == ok.len(),
        call_ensures(usable, (&ok, &before, &after), r),
    ensures
        forall|m: usize|
            #[trigger] r@.contains(m) <==> m < ok.len() && ok@[m as int] && before@[m as int]
                && after@[m as int],
        forall|i: int, j: int| 0 <= i < j < r.len() ==> #[trigger] r@[i] < #[trigger] r@[j],
{
    assert forall|m: usize| #[trigger] r@.contains(m) <==> m < ok.len() && ok@[m as int]
        && before@[m as int] && after@[m as int] by {
        if m < ok.len() {
            assert(is_usable(ok@, before@, after@, m as int) == (ok@[m as int] && before@[m as int]
                && after@[m as int]));
            assert(r@.contains((m as int) as usize) <==> is_usable(ok@, before@, after@, m as int));
        }
    }
}

/// A correspondence is an inlier where its error is a number below the threshold,
/// and not where it equals it. Inliers stand in order, each once.
pub proof fn law_inliers_lie_below_threshold(
    errors: Vec<Double>,
    threshold: Double,
    r: Vec<usize>,
)
    requires
        call_ensures(inliers, (&errors, threshold), r),
    ensures
        forall|m: usize|
            #[trigger] r@.contains(m) <==> m < errors.len() && !errors@[m as int].nan()
                && !threshold.nan() && errors@[m as int].units() < threshold.units(),
        forall|i: int, j: int| 0 <= i < j < r.len() ==> #[trigger] r@[i] < #[trigger] r@[j],
{
    assert forall|m: usize| #[trigger] r@.contains(m) <==> m < errors.len()
        && !errors@[m as int].nan() && !threshold.nan() && errors@[m as int].units()
        < threshold.units() by {
        if m < errors.len() {
            assert(r@.contains((m as int) as usize) <==> errors@[m as int].less(threshold));
        }
    }
}

/// Six correspondences are enough to estimate from, and five are not. An estimate
/// needs twenty inliers, or as many as there are whole forties of correspondences
/// where these are more.
pub proof fn law_inliers_grow_with_correspondences(total: usize, r: Option<usize>)
    requires
        call_ensures(min_inliers, (total,), r),
    ensures
        r is Some <==> total >= 6,
        r matches Some(n) ==> {
            &&& n >= 20
            &&& total < 40 * (n + 1)
            &&& n > 20 ==> 40 * n <= total
        },
{
}

/// An estimate with just as many inliers as it needs is trusted, and so is one with
/// more; one with fewer is not.
pub proof fn law_enough_inliers_are_trusted(found: usize, needed: usize, r: bool)
    requires
        call_ensures(trusted, (found, needed), r),
    ensures
        found == needed ==> r,
        found > needed ==> r,
        found < needed ==> !r,
{
}

/// A step of the generator multiplies and adds, and keeps the low sixty-four bits.
pub proof fn law_generator_step(state: u64)
    ensures
        exists|q: int|
            next_state(state) + #[trigger] (q * 0x1_0000_0000_0000_0000) == state
                * 6364136223846793005 + 1442695040888963407,
{
    let total = state * FACTOR + ADDEND;
    let q = total / 0x1_0000_0000_0000_0000;
    assert(total == q * 0x1_0000_0000_0000_0000 + total % 0x1_0000_0000_0000_0000)
        by (nonlinear_arith)
        requires
            q == total / 0x1_0000_0000_0000_0000,
    ;
    assert(next_state(state) + q * 0x1_0000_0000_0000_0000 == total);
}

/// An iteration makes three steps of the generator, and each picks an index by its
/// high thirty-one bits. The first iteration that picks three different ones is the
/// sample; a sampler at an iteration that does not samples as one that has made
/// those steps already, with one iteration fewer.
pub proof fn law_sample_is_first_with_different_indices(
    s: &mut Sampling,
    later: &mut Sampling,
    r: Option<(usize, usize, usize)>,
    q: Option<(usize, usize, usize)>,
    a: u64,
    b: u64,
    c: u64,
)
    requires
        old(s).count() > 0,
        call_ensures(Sampling::next_sample, (s,), r),
        a == (old(s).generator() * 6364136223846793005 + 1442695040888963407)
            % 0x1_0000_0000_0000_0000,
        b == (a * 6364136223846793005 + 1442695040888963407) % 0x1_0000_0000_0000_0000,
        c == (b * 6364136223846793005 + 1442695040888963407) % 0x1_0000_0000_0000_0000,
        old(later).count() == old(s).count(),
        old(later).generator() == c,
        old(later).rounds_left() == old(s).rounds_left() - 1,
        call_ensures(Sampling::next_sample, (later,), q),
    ensures
        ({
            let n = old(s).count();
            let i = (a as int / 0x2_0000_0000) % n;
            let j = (b as int / 0x2_0000_0000) % n;
            let k = (c as int / 0x2_0000_0000) % n;
            if i != j && i != k && j != k {
                &&& r matches Some((x, y, z)) && x == i && y == j && z == k
                &&& final(s).generator() == c
                &&& final(s).rounds_left() == old(s).rounds_left() - 1
            } else {
                &&& r == q
                &&& r is Some ==> final(s).generator() == final(later).generator()
                &&& final(s).rounds_left() == final(later).rounds_left()
            }
        }),
{
    let g = old(s).generator();
    let n = old(s).count();
    reveal_with_fuel(state_after, 4);
    assert(state_after(g, 1) == a);
    assert(state_after(g, 2) == b);
    assert(state_after(g, 3) == c);
    assert(next_round(g, n, old(s).rounds_left()) == if distinct(triple_from(g, n)) {
        Some((g, (old(s).rounds_left() - 1) as nat))
    } else {
        next_round(c, n, old(later).rounds_left())
    });
}

/// A sample holds three different indices of correspondences, and uses up an
/// iteration at least; there is none only when the iterations are used up. Sampling
/// keeps the best score.
pub proof fn law_samples_are_different(s: &mut Sampling, r: Option<(usize, usize, usize)>)
    requires
        old(s).count() > 0,
        call_ensures(Sampling::next_sample, (s,), r),
    ensures
        r matches Some((i, j, k)) ==> {
            &&& i != j && i != k && j != k
            &&& i < old(s).count() && j < old(s).count() && k < old(s).count()
            &&& final(s).rounds_left() < old(s).rounds_left()
        },
        r is None ==> final(s).rounds_left() == 0,
        old(s).rounds_left() == 0 ==> r is None,
        final(s).count() == old(s).count(),
        final(s).best_score() == old(s).best_score(),
{
    lemma_round_is_distinct(old(s).generator(), old(s).count(), old(s).rounds_left());
}

proof fn lemma_round_is_distinct(state: u64, n: int, left: nat)
    ensures
        next_round(state, n, left) matches Some((g, l)) ==> l < left && distinct(triple_from(g, n)),
    decreases left,
{
    if left > 0 && !distinct(triple_from(state, n)) {
        lemma_round_is_distinct(state_after(state, 3), n, (left - 1) as nat);
    }
}

/// Sampling starts where there are three correspondences at least, always from the
/// same state, with all the iterations left and no estimate.
pub proof fn law_sampling_starts_alike(n: usize, iterations: usize, r: Option<Sampling>)
    requires
        call_ensures(Sampling::new, (n, iterations), r),
    ensures
        n < 3 ==> r is None,
        n >= 3 ==> r is Some,
        r matches Some(s) ==> {
            &&& s.count() == n
            &&& s.generator() == 0x9e37_79b9_7f4a_7c15
            &&& s.rounds_left() == iterations
            &&& s.best_score() is None
        },
{
}

/// The best score never falls, and is no less than the one considered; an estimate
/// replaces the best one only where it has more inliers.
pub proof fn law_best_score_never_falls(s: &mut Sampling, inliers: usize, r: bool)
    requires
        call_ensures(Sampling::consider, (s, inliers), r),
    ensures
        final(s).best_score() matches Some(b) && b >= inliers,
        old(s).best_score() matches Some(b) ==> {
            &&& final(s).best_score()->0 >= b
            &&& r <==> inliers > b
            &&& r ==> final(s).best_score()->0 == inliers
            &&& !r ==> final(s).best_score()->0 == b
        },
        old(s).best_score() is None ==> r && final(s).best_score() == Some(inliers),
{
}

/// An estimate takes two thousand iterations, and a correspondence agrees with it where
/// its error is below one and a half pixels.
pub proof fn law_estimate_allows_small_errors(
    n: usize,
    s: Option<Sampling>,
    errors: Vec<Double>,
    r: Vec<usize>,
    m: usize,
)
    requires
        call_ensures(Sampling::new, (n, ITERATIONS), s),
        call_ensures(inliers, (&errors, Double { bits: MAX_ERROR }), r),
        m < errors.len(),
        !errors@[m as int].sign(),
    ensures
        s matches Some(t) ==> t.rounds_left() == 2000,
        r@.contains(m) <==> errors@[m as int].bits < 0x3ff8_0000_0000_0000,
{
    law_inliers_lie_below_threshold(errors, Double { bits: MAX_ERROR }, r);
    crate::double::lemma_magnitude_units_order(errors@[m as int].magnitude(), MAX_ERROR as int);
}

} // verus!
