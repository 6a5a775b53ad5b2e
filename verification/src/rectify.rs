//! Rectification: which pixels of the raw image a rectified pixel is mixed from.

use crate::double::Double;
use crate::frame;
use crate::klt;
use crate::tracker::BILLIONTH;
use vstd::prelude::*;

verus! {

/// The pixels that a sample is mixed from, and their gray levels: `a` and `b` are
/// the left and right ones of the upper row, `c` and `d` those of the lower row.
#[derive(Debug, Clone, Copy, PartialEq, Eq, Structural)]
pub struct Taps {
    pub x: i32,
    pub y: i32,
    pub a: u8,
    pub b: u8,
    pub c: u8,
    pub d: u8,
}

/// The pixels around a sample whose upper left neighbor is `(x, y)`; outside the
/// image the pixels at its edge stand in.
pub fn taps(img: &[u8], w: i32, h: i32, x: i32, y: i32) -> (r: Taps)
    requires
        1 <= w,
        1 <= h,
        w * h <= i32::MAX,
        img.len() >= w * h,
        x < i32::MAX,
        y < i32::MAX,
    ensures
        ({
            let (wi, hi, xi, yi) = (w as int, h as int, x as int, y as int);
            &&& r.x == klt::clamped(xi, 0, wi - 1)
            &&& r.y == klt::clamped(yi, 0, hi - 1)
            &&& r.a == klt::gray_clamped(img@, wi, hi, xi, yi)
            &&& r.b == klt::gray_clamped(img@, wi, hi, xi + 1, yi)
            &&& r.c == klt::gray_clamped(img@, wi, hi, xi, yi + 1)
            &&& r.d == klt::gray_clamped(img@, wi, hi, xi + 1, yi + 1)
        }),
{
    let x0: i32 = clamp(x, w);
    let y0: i32 = clamp(y, h);
    let x1: i32 = clamp(x + 1, w);
    let y1: i32 = clamp(y + 1, h);
    Taps {
        x: x0,
        y: y0,
        a: pixel(img, w, h, x0, y0),
        b: pixel(img, w, h, x1, y0),
        c: pixel(img, w, h, x0, y1),
        d: pixel(img, w, h, x1, y1),
    }
}

fn clamp(v: i32, n: i32) -> (r: i32)
    requires
        1 <= n,
    ensures
        r == klt::clamped(v as int, 0, n - 1),
{
    if v < 0 {
        0
    } else if v > n - 1 {
        n - 1
    } else {
        v
    }
}

fn pixel(img: &[u8], w: i32, h: i32, x: i32, y: i32) -> (r: u8)
    requires
        0 <= x < w,
        0 <= y < h,
        w * h <= i32::MAX,
        img.len() >= w * h,
    ensures
        r == img@[frame::pixel_index(w as int, x as int, y as int)],
{
    proof {
        frame::lemma_pixel_index_in_range(w as int, h as int, x as int, y as int);
        assert(0 <= y * w) by (nonlinear_arith)
            requires
                0 <= y,
                0 <= w,
        ;
    }
    img[(y * w + x) as usize]
}

/// Whether a ray with this depth misses the camera, which looks at what lies in front
/// of it.
pub fn misses(depth: Double) -> (r: bool)
    ensures
        r == depth.at_most(Double { bits: BILLIONTH }),
{
    depth.le(Double { bits: BILLIONTH })
}

/// Whether a rectified pixel stays black: its ray misses the camera, so that its sample
/// has no place. A sample outside the raw image has one, and takes the pixel at the
/// edge.
pub fn is_border(x: Double, y: Double) -> (r: bool)
    ensures
        r == (x.nan() || y.nan()),
{
    x.is_nan() || y.is_nan()
}

/// A sample that lies inside a raw image of this size.
pub open spec fn covered(x: Double, y: Double, width: Double, height: Double) -> bool {
    Double::zero().at_most(x) && x.less(width) && Double::zero().at_most(y) && y.less(height)
}

/// The number of the first `n` samples that lie inside the raw image.
pub open spec fn covered_among(
    xs: Seq<Double>,
    ys: Seq<Double>,
    width: Double,
    height: Double,
    n: int,
) -> int
    decreases n,
{
    if n <= 0 {
        0
    } else {
        covered_among(xs, ys, width, height, n - 1) + if covered(
            xs[n - 1],
            ys[n - 1],
            width,
            height,
        ) {
            1int
        } else {
            0
        }
    }
}

/// The number of samples that lie inside the raw image. Those of rays that miss the
/// camera have no place, and lie nowhere.
pub fn covered_count(xs: &Vec<Double>, ys: &Vec<Double>, width: Double, height: Double) -> (r:
    usize)
    requires
        xs.len() == ys.len(),
    ensures
        r == covered_among(xs@, ys@, width, height, xs.len() as int),
{
    let zero = Double { bits: 0 };
    let mut n: usize = 0;
    let mut i: usize = 0;
    while i < xs.len()
        invariant
            i <= xs.len(),
            xs.len() == ys.len(),
            zero == Double::zero(),
            n <= i,
            n == covered_among(xs@, ys@, width, height, i as int),
        decreases xs.len() - i,
    {
        if zero.le(xs[i]) && xs[i].lt(width) && zero.le(ys[i]) && ys[i].lt(height) {
            n += 1;
        }
        i += 1;
    }
    n
}

/// A sample inside the raw image is no border.
pub proof fn law_covered_is_no_border(x: Double, y: Double, width: Double, height: Double)
    requires
        covered(x, y, width, height),
    ensures
        !(x.nan() || y.nan()),
{
}

/// A sample is mixed from the pixel at its place and from those to the right, below,
/// and below to the right; a column or a row outside the image is the one at its edge.
pub proof fn law_taps_lie_around_sample(img: &[u8], w: i32, h: i32, x: i32, y: i32, r: Taps)
    requires
        1 <= w,
        1 <= h,
        x < i32::MAX,
        y < i32::MAX,
        call_ensures(taps, (img, w, h, x, y), r),
    ensures
        0 <= x < w ==> r.x == x,
        x < 0 ==> r.x == 0,
        x >= w ==> r.x == w - 1,
        0 <= y < h ==> r.y == y,
        y < 0 ==> r.y == 0,
        y >= h ==> r.y == h - 1,
        ({
            let right = if -1 <= x < w - 1 {
                x + 1
            } else {
                r.x as int
            };
            let below = if -1 <= y < h - 1 {
                y + 1
            } else {
                r.y as int
            };
            &&& r.a == img@[r.y * w + r.x]
            &&& r.b == img@[r.y * w + right]
            &&& r.c == img@[below * w + r.x]
            &&& r.d == img@[below * w + right]
        }),
{
}

/// A ray misses the camera where its depth is a number of at most a billionth: behind
/// the camera, and beside it.
pub proof fn law_rays_behind_miss(depth: Double, r: bool)
    requires
        call_ensures(misses, (depth,), r),
    ensures
        r <==> !depth.nan() && (depth.sign() || depth.bits <= 0x3e11_2e0b_e826_d695),
{
    crate::double::lemma_magnitude_units_order(0, depth.magnitude());
    crate::double::lemma_magnitude_units_order(0, BILLIONTH as int);
    crate::double::lemma_magnitude_units_order(depth.magnitude(), BILLIONTH as int);
}

/// A pixel stays black where one coordinate of its sample is not a number, and a sample
/// outside the raw image does not.
pub proof fn law_border_has_no_sample(x: Double, y: Double, r: bool)
    requires
        call_ensures(is_border, (x, y), r),
    ensures
        r ==> x.nan() || y.nan(),
        x.nan() ==> r,
        y.nan() ==> r,
{
}

/// Each further sample counts where it lies inside the raw image, from zero up to, but
/// not at, the width and the height.
pub proof fn law_samples_inside_count(
    xs: Vec<Double>,
    ys: Vec<Double>,
    width: Double,
    height: Double,
    n: usize,
    more_xs: Vec<Double>,
    more_ys: Vec<Double>,
    m: usize,
    x: Double,
    y: Double,
)
    requires
        xs.len() == ys.len(),
        call_ensures(covered_count, (&xs, &ys, width, height), n),
        more_xs@ == xs@.push(x),
        more_ys@ == ys@.push(y),
        call_ensures(covered_count, (&more_xs, &more_ys, width, height), m),
    ensures
        xs.len() == 0 ==> n == 0,
        ({
            let inside = !x.nan() && !y.nan() && !width.nan() && !height.nan() && 0 <= x.units()
                < width.units() && 0 <= y.units() < height.units();
            &&& inside ==> m == n + 1
            &&& !inside ==> m == n
        }),
{
    lemma_covered_prefix(xs@, ys@, more_xs@, more_ys@, width, height, xs.len() as int);
    crate::double::lemma_magnitude_units_order(0, x.magnitude());
}

proof fn lemma_covered_prefix(
    xs: Seq<Double>,
    ys: Seq<Double>,
    more_xs: Seq<Double>,
    more_ys: Seq<Double>,
    width: Double,
    height: Double,
    n: int,
)
    requires
        n <= xs.len() <= more_xs.len(),
        xs.len() == ys.len(),
        forall|i: int| 0 <= i < n ==> xs[i] == more_xs[i] && ys[i] == more_ys[i],
    ensures
        covered_among(xs, ys, width, height, n) == covered_among(
            more_xs,
            more_ys,
            width,
            height,
            n,
        ),
    decreases n,
{
    if n > 0 {
        lemma_covered_prefix(xs, ys, more_xs, more_ys, width, height, n - 1);
    }
}

} // verus!
