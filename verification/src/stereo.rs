//! Stereo matching on rectified images: a pixel of the left image is looked for on
//! the same row of the right one, by the squared differences of a window.

use crate::double::Double;
use crate::frame;
use crate::sums;
use vstd::prelude::*;

verus! {

/// Half the size of the tracker's matching window.
pub const WINDOW_HALF: i32 = 5;

/// The bit pattern of 0.5: the least depth that the tracker searches, in meters.
pub const MIN_DEPTH: u64 = 0x3fe0_0000_0000_0000;

/// The bit pattern of 10: the greatest depth that the tracker searches, in meters.
pub const MAX_DEPTH: u64 = 0x4024_0000_0000_0000;

/// The windows of half size `k` around the left pixel `(u, v)` and the right pixel
/// `(u - d, v)` lie inside images of `w` by `h` pixels.
pub open spec fn windows_fit(w: int, h: int, u: int, v: int, d: int, k: int) -> bool {
    k < 0 || (0 <= v - k && v + k < h && 0 <= u - k && u + k < w && 0 <= u - d - k && u - d + k < w)
}

/// The squared difference of the left pixel `(x, y)` and the right pixel
/// `(x - d, y)`.
pub open spec fn squared_difference(
    left: Seq<u8>,
    right: Seq<u8>,
    w: int,
    x: int,
    y: int,
    d: int,
) -> int {
    let e = left[frame::pixel_index(w, x, y)] - right[frame::pixel_index(w, x - d, y)];
    e * e
}

/// The squared differences along a row of the window, added up.
pub open spec fn row_cost(
    left: Seq<u8>,
    right: Seq<u8>,
    w: int,
    u: int,
    y: int,
    d: int,
    k: int,
) -> int {
    sums::sum(|i: int| squared_difference(left, right, w, u + i, y, d), -k, k + 1)
}

/// The squared differences over the window, added up.
pub open spec fn window_cost(
    left: Seq<u8>,
    right: Seq<u8>,
    w: int,
    u: int,
    v: int,
    d: int,
    k: int,
) -> int {
    sums::sum(|j: int| row_cost(left, right, w, u, v + j, d, k), -k, k + 1)
}

/// The cost of matching the left pixel `(u, v)` with the right pixel `(u - d, v)`;
/// `None` where a window leaves the image.
pub open spec fn match_cost(
    left: Seq<u8>,
    right: Seq<u8>,
    w: int,
    h: int,
    u: int,
    v: int,
    d: int,
    k: int,
) -> Option<int> {
    if windows_fit(w, h, u, v, d, k) {
        Some(window_cost(left, right, w, u, v, d, k))
    } else {
        None
    }
}

/// A cost that was computed is the cost.
pub open spec fn cost_is(r: Option<u128>, c: Option<int>) -> bool {
    match (r, c) {
        (Some(a), Some(b)) => a == b,
        (None, None) => true,
        _ => false,
    }
}

/// The pixels that the windows cover can be named by whole numbers of 32 bits.
pub open spec fn window_in_range(u: int, v: int, d: int, k: int) -> bool {
    &&& i32::MIN < k
    &&& i32::MIN <= v - k && v + k <= i32::MAX
    &&& i32::MIN <= u - k && u + k <= i32::MAX
    &&& i32::MIN <= u - d && u - d <= i32::MAX
    &&& i32::MIN <= u - d - k && u - d + k <= i32::MAX
}

fn row_ssd(left: &[u8], right: &[u8], w: i32, h: i32, u: i32, y: i32, d: i32, k: i32) -> (r: u128)
    requires
        left.len() >= w * h,
        right.len() >= w * h,
        0 <= y < h,
        0 <= k,
        0 <= u - k,
        u + k < w,
        0 <= u - d - k,
        u - d + k < w,
    ensures
        r == row_cost(left@, right@, w as int, u as int, y as int, d as int, k as int),
        r <= 65025 * (2 * k + 1),
{
    let ghost (wi, ui, yi, di, ki) = (w as int, u as int, y as int, d as int, k as int);
    let ghost cols = |i: int| squared_difference(left@, right@, wi, ui + i, yi, di);
    let mut sum: u128 = 0;
    let mut i: i32 = -k;
    while i <= k
        invariant
            left.len() >= w * h,
            right.len() >= w * h,
            0 <= y < h,
            0 <= k,
            0 <= u - k,
            u + k < w,
            0 <= u - d - k,
            u - d + k < w,
            -k <= i <= k + 1,
            wi == w,
            ui == u,
            yi == y,
            di == d,
            ki == k,
            cols == |i: int| squared_difference(left@, right@, wi, ui + i, yi, di),
            sum == sums::sum(cols, -ki, i as int),
            sum <= 65025 * (i + k),
        decreases k + 1 - i,
    {
        let lx: i32 = u + i;
        let rx: i32 = u - d + i;
        proof {
            frame::lemma_pixel_index_in_range(w as int, h as int, lx as int, y as int);
            frame::lemma_pixel_index_in_range(w as int, h as int, rx as int, y as int);
            assert(0 <= y * w) by (nonlinear_arith)
                requires
                    0 <= y,
                    0 <= w,
            ;
        }
        let a: i32 = left[y as usize * w as usize + lx as usize] as i32;
        let b: i32 = right[y as usize * w as usize + rx as usize] as i32;
        let e: i32 = a - b;
        assert(0 <= e * e <= 65025) by (nonlinear_arith)
            requires
                -255 <= e <= 255,
        ;
        assert(cols(i as int) == e * e);
        sum = sum + (e * e) as u128;
        i += 1;
    }
    sum
}

/// The cost of matching the left pixel `(u, v)` with the right pixel `(u - d, v)`;
/// `None` where a window leaves the image.
pub fn ssd(
    left: &[u8],
    right: &[u8],
    w: i32,
    h: i32,
    u: i32,
    v: i32,
    d: i32,
    window_half: i32,
) -> (r: Option<u128>)
    requires
        0 <= w,
        0 <= h,
        left.len() >= w * h,
        right.len() >= w * h,
        window_in_range(u as int, v as int, d as int, window_half as int),
    ensures
        cost_is(
            r,
            match_cost(
                left@,
                right@,
                w as int,
                h as int,
                u as int,
                v as int,
                d as int,
                window_half as int,
            ),
        ),
{
    let k: i32 = window_half;
    if k < 0 {
        return Some(0);
    }
    let r: i32 = u - d;
    if v - k < 0 || v + k >= h || u - k < 0 || u + k >= w || r - k < 0 || r + k >= w {
        return None;
    }
    let ghost (wi, ui, vi, di, ki) = (w as int, u as int, v as int, d as int, k as int);
    let ghost rows = |j: int| row_cost(left@, right@, wi, ui, vi + j, di, ki);
    let ghost span: int = 65025 * (2 * ki + 1);
    let mut sum: u128 = 0;
    let mut j: i32 = -k;
    assert(span * (j + ki) == 0) by (nonlinear_arith)
        requires
            j + ki == 0,
    ;
    while j <= k
        invariant
            left.len() >= w * h,
            right.len() >= w * h,
            0 <= k,
            0 <= v - k,
            v + k < h,
            0 <= u - k,
            u + k < w,
            0 <= u - d - k,
            u - d + k < w,
            -k <= j <= k + 1,
            wi == w,
            ui == u,
            vi == v,
            di == d,
            ki == k,
            rows == |j: int| row_cost(left@, right@, wi, ui, vi + j, di, ki),
            span == 65025 * (2 * ki + 1),
            sum == sums::sum(rows, -ki, j as int),
            sum <= span * (j + ki),
        decreases k + 1 - j,
    {
        let row: u128 = row_ssd(left, right, w, h, u, v + j, d, k);
        proof {
            let n = j + ki;
            assert(span * (n + 1) == span * n + span) by (nonlinear_arith);
            assert(span * n <= span * (2 * ki + 1)) by (nonlinear_arith)
                requires
                    0 <= n <= 2 * ki,
                    span >= 0,
            ;
            assert(span * (2 * ki + 1) <= 65025 * 0x1_0000_0000 * 0x1_0000_0000) by (
            nonlinear_arith)
                requires
                    0 <= ki <= 0x7fff_ffff,
                    span == 65025 * (2 * ki + 1),
            ;
        }
        sum = sum + row;
        j += 1;
    }
    Some(sum)
}

/// The best disparity of a pixel, its cost, and the costs of the disparities next
/// to it.
#[derive(Debug, Clone, Copy, PartialEq, Eq, Structural)]
pub struct Match {
    pub disparity: i32,
    pub cost: u128,
    pub below: Option<u128>,
    pub above: Option<u128>,
}

/// `d` is the best disparity from `lo` to `hi - 1`: none of them costs less, and
/// those before it cost more.
pub open spec fn is_best(
    left: Seq<u8>,
    right: Seq<u8>,
    w: int,
    h: int,
    u: int,
    v: int,
    k: int,
    lo: int,
    hi: int,
    d: int,
) -> bool {
    let cost = match_cost(left, right, w, h, u, v, d, k);
    &&& lo <= d < hi
    &&& cost is Some
    &&& forall|e: int|
        lo <= e < hi ==> match #[trigger] match_cost(left, right, w, h, u, v, e, k) {
            Some(c) => cost->0 <= c && (e < d ==> cost->0 < c),
            None => true,
        }
}

/// None of the disparities from `lo` to `hi - 1` can be tried.
pub open spec fn none_fits(w: int, h: int, u: int, v: int, k: int, lo: int, hi: int) -> bool {
    forall|e: int| lo <= e < hi ==> !(#[trigger] windows_fit(w, h, u, v, e, k))
}

/// Looks for the left pixel `(u, v)` in the right image, at the disparities from
/// `d_min` to `d_max`. Returns `None` when no window fits.
fn best_match(
    left: &[u8],
    right: &[u8],
    w: i32,
    h: i32,
    u: i32,
    v: i32,
    d_min: i32,
    d_max: i32,
    window_half: i32,
) -> (r: Option<Match>)
    requires
        images_fit(left@, right@, w, h),
        search_in_range(u, v, d_min, d_max, window_half),
    ensures
        is_match(r, left@, right@, w, h, u, v, d_min, d_max, window_half),
{
    let ghost (wi, hi, ui, vi, k) = (w as int, h as int, u as int, v as int, window_half as int);
    let mut best: Option<(i32, u128)> = None;
    let mut d: i32 = d_min;
    while d <= d_max
        invariant
            0 <= w,
            0 <= h,
            left.len() >= w * h,
            right.len() >= w * h,
            1 <= d_min,
            d_max < i32::MAX,
            d_min <= d,
            d <= d_max + 1 || d == d_min,
            forall|d: int|
                d_min - 1 <= d <= d_max + 1 ==> #[trigger] window_in_range(
                    u as int,
                    v as int,
                    d,
                    window_half as int,
                ),
            wi == w,
            hi == h,
            ui == u,
            vi == v,
            k == window_half,
            match best {
                None => none_fits(wi, hi, ui, vi, k, d_min as int, d as int),
                Some((b, c)) => {
                    &&& is_best(
                        left@,
                        right@,
                        wi,
                        hi,
                        ui,
                        vi,
                        k,
                        d_min as int,
                        d as int,
                        b as int,
                    )
                    &&& match_cost(left@, right@, wi, hi, ui, vi, b as int, k) == Some(c as int)
                },
            },
        decreases d_max + 1 - d,
    {
        assert(window_in_range(u as int, v as int, d as int, window_half as int));
        if let Some(cost) = ssd(left, right, w, h, u, v, d, window_half) {
            let better = match best {
                None => true,
                Some((_, c)) => cost < c,
            };
            if better {
                proof {
                    assert forall|e: int| d_min <= e < d implies match #[trigger] match_cost(
                        left@,
                        right@,
                        wi,
                        hi,
                        ui,
                        vi,
                        e,
                        k,
                    ) {
                        Some(c) => cost < c,
                        None => true,
                    } by {
                        if best is None {
                            assert(!windows_fit(wi, hi, ui, vi, e, k));
                        }
                    }
                }
                best = Some((d, cost));
            }
        }
        d += 1;
    }
    match best {
        None => {
            assert forall|e: int| d_min <= e < d_max + 1 implies !(#[trigger] windows_fit(
                wi,
                hi,
                ui,
                vi,
                e,
                k,
            )) by {}
            None
        },
        Some((b, cost)) => {
            assert(window_in_range(u as int, v as int, b - 1, window_half as int));
            assert(window_in_range(u as int, v as int, b + 1, window_half as int));
            let below = ssd(left, right, w, h, u, v, b - 1, window_half);
            let above = ssd(left, right, w, h, u, v, b + 1, window_half);
            Some(Match { disparity: b, cost, below, above })
        },
    }
}

/// Stereo matcher configuration.
#[derive(Debug, Clone, Copy, PartialEq, Eq, Structural)]
pub struct StereoMatcher {
    /// Half the size of the matching window, a patch of `2 * window_half + 1` pixels
    /// square.
    pub window_half: i32,
    /// The least depth that is searched, in meters.
    pub min_depth: Double,
    /// The greatest depth that is searched, in meters.
    pub max_depth: Double,
}

/// A pair of images of `w` by `h` pixels.
pub open spec fn images_fit(left: Seq<u8>, right: Seq<u8>, w: i32, h: i32) -> bool {
    0 <= w && 0 <= h && left.len() >= w * h && right.len() >= w * h
}

/// A range of disparities that can be searched around a pixel.
pub open spec fn search_in_range(u: i32, v: i32, d_min: i32, d_max: i32, k: i32) -> bool {
    &&& 1 <= d_min
    &&& d_max < i32::MAX
    &&& forall|d: int|
        d_min - 1 <= d <= d_max + 1 ==> #[trigger] window_in_range(
            u as int,
            v as int,
            d,
            k as int,
        )
}

/// What a search for the left pixel `(u, v)` at the disparities from `d_min` to
/// `d_max` returns: nothing where no window fits, else the best disparity, the
/// smaller one of two that cost the same.
pub open spec fn is_match(
    r: Option<Match>,
    left: Seq<u8>,
    right: Seq<u8>,
    w: i32,
    h: i32,
    u: i32,
    v: i32,
    d_min: i32,
    d_max: i32,
    k: i32,
) -> bool {
    let (wi, hi, ui, vi, ki) = (w as int, h as int, u as int, v as int, k as int);
    match r {
        None => none_fits(wi, hi, ui, vi, ki, d_min as int, d_max + 1),
        Some(m) => {
            let d = m.disparity as int;
            &&& is_best(left, right, wi, hi, ui, vi, ki, d_min as int, d_max + 1, d)
            &&& match_cost(left, right, wi, hi, ui, vi, d, ki) == Some(m.cost as int)
            &&& cost_is(m.below, match_cost(left, right, wi, hi, ui, vi, d - 1, ki))
            &&& cost_is(m.above, match_cost(left, right, wi, hi, ui, vi, d + 1, ki))
        },
    }
}

impl StereoMatcher {
    /// The matcher with this window and these depths.
    pub fn new(window_half: i32, min_depth: Double, max_depth: Double) -> (r: StereoMatcher)
        ensures
            r.window_half == window_half,
            r.min_depth == min_depth,
            r.max_depth == max_depth,
    {
        StereoMatcher { window_half, min_depth, max_depth }
    }

    /// Looks for the left pixel `(u, v)` in the right image, at the disparities from
    /// `d_min` to `d_max`.
    pub fn match_feature(
        &self,
        left: &[u8],
        right: &[u8],
        w: i32,
        h: i32,
        u: i32,
        v: i32,
        d_min: i32,
        d_max: i32,
    ) -> (r: Option<Match>)
        requires
            images_fit(left@, right@, w, h),
            search_in_range(u, v, d_min, d_max, self.window_half),
        ensures
            is_match(r, left@, right@, w, h, u, v, d_min, d_max, self.window_half),
    {
        best_match(left, right, w, h, u, v, d_min, d_max, self.window_half)
    }

    /// Looks for many pixels; the results stand in the order of the pixels.
    pub fn match_features(
        &self,
        left: &[u8],
        right: &[u8],
        w: i32,
        h: i32,
        pixels: &Vec<(i32, i32)>,
        d_min: i32,
        d_max: i32,
    ) -> (r: Vec<Option<Match>>)
        requires
            images_fit(left@, right@, w, h),
            forall|i: int|
                0 <= i < pixels.len() ==> search_in_range(
                    (#[trigger] pixels@[i]).0,
                    pixels@[i].1,
                    d_min,
                    d_max,
                    self.window_half,
                ),
        ensures
            r.len() == pixels.len(),
            forall|i: int|
                0 <= i < r.len() ==> is_match(
                    #[trigger] r@[i],
                    left@,
                    right@,
                    w,
                    h,
                    pixels@[i].0,
                    pixels@[i].1,
                    d_min,
                    d_max,
                    self.window_half,
                ),
    {
        let mut out: Vec<Option<Match>> = Vec::new();
        let mut i: usize = 0;
        while i < pixels.len()
            invariant
                i <= pixels.len(),
                out.len() == i,
                images_fit(left@, right@, w, h),
                forall|j: int|
                    0 <= j < pixels.len() ==> search_in_range(
                        (#[trigger] pixels@[j]).0,
                        pixels@[j].1,
                        d_min,
                        d_max,
                        self.window_half,
                    ),
                forall|j: int|
                    0 <= j < i ==> is_match(
                        #[trigger] out@[j],
                        left@,
                        right@,
                        w,
                        h,
                        pixels@[j].0,
                        pixels@[j].1,
                        d_min,
                        d_max,
                        self.window_half,
                    ),
            decreases pixels.len() - i,
        {
            let (u, v) = pixels[i];
            assert(search_in_range(
                pixels@[i as int].0,
                pixels@[i as int].1,
                d_min,
                d_max,
                self.window_half,
            ));
            let m = self.match_feature(left, right, w, h, u, v, d_min, d_max);
            out.push(m);
            i += 1;
        }
        out
    }

    /// Whether a point at depth `z` counts: within the depths that are searched.
    pub fn accepts_depth(&self, z: Double) -> (r: bool)
        ensures
            r == (self.min_depth.at_most(z) && z.at_most(self.max_depth)),
    {
        self.min_depth.le(z) && z.le(self.max_depth)
    }
}

/// Windows that hold the same gray levels cost nothing.
pub proof fn law_equal_windows_cost_nothing(
    left: Seq<u8>,
    right: Seq<u8>,
    w: int,
    u: int,
    v: int,
    d: int,
    k: int,
)
    requires
        0 <= k,
        forall|i: int, j: int|
            -k <= i <= k && -k <= j <= k ==> #[trigger] squared_difference(
                left,
                right,
                w,
                u + i,
                v + j,
                d,
            ) == 0,
    ensures
        window_cost(left, right, w, u, v, d, k) == 0,
{
    let rows = |j: int| row_cost(left, right, w, u, v + j, d, k);
    assert forall|j: int| -k <= j < k + 1 implies 0 <= #[trigger] rows(j) <= 0 by {
        let cols = |i: int| squared_difference(left, right, w, u + i, v + j, d);
        assert forall|i: int| -k <= i < k + 1 implies 0 <= #[trigger] cols(i) <= 0 by {
            assert(squared_difference(left, right, w, u + i, v + j, d) == 0);
        }
        sums::lemma_sum_bounds(cols, -k, k + 1, 0, 0);
    }
    sums::lemma_sum_bounds(rows, -k, k + 1, 0, 0);
}

/// A cost is had where both windows lie within the images, or are empty, and nowhere
/// else.
pub proof fn law_cost_is_had_inside(
    left: &[u8],
    right: &[u8],
    w: i32,
    h: i32,
    u: i32,
    v: i32,
    d: i32,
    k: i32,
    r: Option<u128>,
)
    requires
        call_ensures(ssd, (left, right, w, h, u, v, d, k), r),
    ensures
        k < 0 ==> r == Some(0u128),
        k >= 0 ==> (r is Some <==> {
            &&& k <= v < h - k
            &&& k <= u < w - k
            &&& k <= u - d < w - k
        }),
{
    if k < 0 {
        let rows = |j: int| row_cost(left@, right@, w as int, u as int, v + j, d as int, k as int);
        assert(sums::sum(rows, -k as int, k + 1) == 0);
    }
}

/// Where the windows differ at one pixel alone, the cost is the square of that
/// difference, wherever in the window it lies; the right window lies `d` columns
/// further left.
pub proof fn law_cost_of_lone_difference(
    left: &[u8],
    right: &[u8],
    w: i32,
    h: i32,
    u: i32,
    v: i32,
    d: i32,
    k: i32,
    r: Option<u128>,
    apart: spec_fn(int, int) -> int,
    p: int,
    q: int,
)
    requires
        call_ensures(ssd, (left, right, w, h, u, v, d, k), r),
        r is Some,
        0 <= k,
        forall|i: int, j: int|
            u - k <= i <= u + k && v - k <= j <= v + k ==> #[trigger] apart(i, j) == left@[j * w
                + i] - right@[j * w + i - d],
        u - k <= p <= u + k,
        v - k <= q <= v + k,
        forall|i: int, j: int|
            u - k <= i <= u + k && v - k <= j <= v + k && (i != p || j != q) ==> #[trigger] apart(
                i,
                j,
            ) == 0,
    ensures
        r->0 == apart(p, q) * apart(p, q),
{
    let (wi, ui, vi, di, ki) = (w as int, u as int, v as int, d as int, k as int);
    assert forall|i: int, j: int| u - k <= i <= u + k && v - k <= j <= v + k implies (
    #[trigger] squared_difference(left@, right@, wi, i, j, di)) == apart(i, j) * apart(i, j) by {
        assert(frame::pixel_index(wi, i - di, j) == j * w + i - d);
    }
    let rows = |j: int| row_cost(left@, right@, wi, ui, vi + j, di, ki);
    assert forall|j: int| -ki <= j < ki + 1 implies #[trigger] rows(j) == if j == q - vi {
        apart(p, q) * apart(p, q)
    } else {
        0
    } by {
        let cols = |i: int| squared_difference(left@, right@, wi, ui + i, vi + j, di);
        assert forall|i: int| -ki <= i < ki + 1 && (i != p - ui || j != q - vi) implies (
        #[trigger] cols(i)) == 0 by {
            assert(squared_difference(left@, right@, wi, ui + i, vi + j, di) == apart(
                ui + i,
                vi + j,
            ) * apart(ui + i, vi + j));
            assert(apart(ui + i, vi + j) == 0);
        }
        sums::lemma_sum_single(cols, -ki, ki + 1, p - ui);
        if j == q - vi {
            assert(cols(p - ui) == squared_difference(left@, right@, wi, p, q, di));
        } else {
            assert(cols(p - ui) == 0);
        }
    }
    sums::lemma_sum_single(rows, -ki, ki + 1, q - vi);
}

/// The match of a pixel is a disparity of the range that was searched. No disparity of
/// the range costs less, none before it costs as much, and the costs beside it are
/// those one pixel further to each side.
pub proof fn law_match_costs_least(
    s: StereoMatcher,
    left: &[u8],
    right: &[u8],
    w: i32,
    h: i32,
    u: i32,
    v: i32,
    d_min: i32,
    d_max: i32,
    m: Match,
    own: Option<u128>,
    below: Option<u128>,
    above: Option<u128>,
    e: i32,
    other: Option<u128>,
)
    requires
        d_max < i32::MAX,
        1 <= d_min,
        call_ensures(
            StereoMatcher::match_feature,
            (&s, left, right, w, h, u, v, d_min, d_max),
            Some(m),
        ),
        call_ensures(ssd, (left, right, w, h, u, v, m.disparity, s.window_half), own),
        call_ensures(ssd, (left, right, w, h, u, v, (m.disparity - 1) as i32, s.window_half), below),
        call_ensures(ssd, (left, right, w, h, u, v, (m.disparity + 1) as i32, s.window_half), above),
        d_min <= e <= d_max,
        call_ensures(ssd, (left, right, w, h, u, v, e, s.window_half), other),
    ensures
        d_min <= m.disparity <= d_max,
        own == Some(m.cost),
        below == m.below,
        above == m.above,
        other matches Some(c) ==> m.cost <= c && (e < m.disparity ==> m.cost < c),
{
}

/// A pixel without a match has no cost at any disparity of the range.
pub proof fn law_no_match_means_no_window(
    s: StereoMatcher,
    left: &[u8],
    right: &[u8],
    w: i32,
    h: i32,
    u: i32,
    v: i32,
    d_min: i32,
    d_max: i32,
    e: i32,
    cost: Option<u128>,
)
    requires
        call_ensures(
            StereoMatcher::match_feature,
            (&s, left, right, w, h, u, v, d_min, d_max),
            None::<Match>,
        ),
        d_min <= e <= d_max,
        call_ensures(ssd, (left, right, w, h, u, v, e, s.window_half), cost),
    ensures
        cost is None,
{
    assert(!windows_fit(w as int, h as int, u as int, v as int, e as int, s.window_half as int));
}

/// Looking for many pixels gives for each of them what looking for it alone gives.
pub proof fn law_pixels_match_alone(
    s: StereoMatcher,
    left: &[u8],
    right: &[u8],
    w: i32,
    h: i32,
    pixels: Vec<(i32, i32)>,
    d_min: i32,
    d_max: i32,
    r: Vec<Option<Match>>,
    i: int,
    alone: Option<Match>,
)
    requires
        call_ensures(
            StereoMatcher::match_features,
            (&s, left, right, w, h, &pixels, d_min, d_max),
            r,
        ),
        0 <= i < pixels.len(),
        call_ensures(
            StereoMatcher::match_feature,
            (&s, left, right, w, h, pixels@[i].0, pixels@[i].1, d_min, d_max),
            alone,
        ),
    ensures
        r.len() == pixels.len(),
        r@[i] == alone,
{
    let (wi, hi, k) = (w as int, h as int, s.window_half as int);
    let (u, v) = (pixels@[i].0 as int, pixels@[i].1 as int);
    assert(is_match(
        r@[i],
        left@,
        right@,
        w,
        h,
        pixels@[i].0,
        pixels@[i].1,
        d_min,
        d_max,
        s.window_half,
    ));
    match (r@[i], alone) {
        (Some(a), Some(b)) => {
            let (da, db) = (a.disparity as int, b.disparity as int);
            assert(match_cost(left@, right@, wi, hi, u, v, da, k) is Some);
            assert(match_cost(left@, right@, wi, hi, u, v, db, k) is Some);
        },
        (Some(a), None) => {
            assert(windows_fit(wi, hi, u, v, a.disparity as int, k));
        },
        (None, Some(b)) => {
            assert(windows_fit(wi, hi, u, v, b.disparity as int, k));
        },
        (None, None) => {},
    }
}

/// A matcher keeps its window and its depths, and accepts the depths from the least to
/// the greatest, both included.
pub proof fn law_depths_within_limits_count(
    window_half: i32,
    min_depth: Double,
    max_depth: Double,
    s: StereoMatcher,
    z: Double,
    r: bool,
)
    requires
        call_ensures(StereoMatcher::new, (window_half, min_depth, max_depth), s),
        call_ensures(StereoMatcher::accepts_depth, (&s, z), r),
    ensures
        s.window_half == window_half,
        r <==> !min_depth.nan() && !z.nan() && !max_depth.nan() && min_depth.units() <= z.units()
            <= max_depth.units(),
{
}

/// The tracker's matcher looks for patches of eleven pixels square, and counts the depths
/// from half a meter to ten.
pub proof fn law_tracker_counts_near_depths(s: StereoMatcher, z: Double, r: bool)
    requires
        call_ensures(
            StereoMatcher::new,
            (WINDOW_HALF, Double { bits: MIN_DEPTH }, Double { bits: MAX_DEPTH }),
            s,
        ),
        call_ensures(StereoMatcher::accepts_depth, (&s, z), r),
    ensures
        2 * s.window_half + 1 == 11,
        r <==> 0x3fe0_0000_0000_0000 <= z.bits <= 0x4024_0000_0000_0000,
{
    crate::double::lemma_magnitude_units_order(0, z.magnitude());
    crate::double::lemma_magnitude_units_order(0, MIN_DEPTH as int);
    crate::double::lemma_magnitude_units_order(0, MAX_DEPTH as int);
    crate::double::lemma_magnitude_units_order(z.magnitude(), MIN_DEPTH as int);
    crate::double::lemma_magnitude_units_order(z.magnitude(), MAX_DEPTH as int);
}

} // verus!
