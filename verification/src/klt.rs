//! Optical flow: the whole-number part of a Lucas-Kanade step, and its verdicts.

use crate::double::Double;
use crate::frame;
use crate::sums;
use vstd::prelude::*;

verus! {

/// `v`, moved into the range from `lo` to `hi`.
pub open spec fn clamped(v: int, lo: int, hi: int) -> int {
    if v < lo {
        lo
    } else if v > hi {
        hi
    } else {
        v
    }
}

/// The gray level at column `x` of row `y`, with the edge repeated outside.
pub open spec fn gray_clamped(img: Seq<u8>, w: int, h: int, x: int, y: int) -> int {
    img[frame::pixel_index(w, clamped(x, 0, w - 1), clamped(y, 0, h - 1))] as int
}

/// The gray levels of the three pixels around column `x` of row `y`, added up.
pub open spec fn row_of_three(img: Seq<u8>, w: int, h: int, x: int, y: int) -> int {
    sums::sum(|dx: int| gray_clamped(img, w, h, x + dx, y), -1, 2)
}

/// The gray levels of the nine pixels around column `x` of row `y`, added up.
pub open spec fn block_of_nine(img: Seq<u8>, w: int, h: int, x: int, y: int) -> int {
    sums::sum(|dy: int| row_of_three(img, w, h, x, y + dy), -1, 2)
}

/// Half of an image side, at least one pixel.
pub open spec fn half(n: int) -> int {
    if n / 2 > 1 {
        n / 2
    } else {
        1
    }
}

fn clamp_index(v: i64, n: u32) -> (r: usize)
    requires
        n >= 1,
    ensures
        r == clamped(v as int, 0, n - 1),
{
    if v < 0 {
        0
    } else if v > n as i64 - 1 {
        (n - 1) as usize
    } else {
        v as usize
    }
}

fn average_of_nine(img: &[u8], w: u32, h: u32, x: u32, y: u32) -> (r: u8)
    requires
        1 <= w <= i32::MAX,
        1 <= h <= i32::MAX,
        img.len() >= w * h,
        x <= i32::MAX,
        y <= i32::MAX,
    ensures
        r == block_of_nine(img@, w as int, h as int, x as int, y as int) / 9,
{
    let ghost (wi, hi, xi, yi) = (w as int, h as int, x as int, y as int);
    let ghost rows = |dy: int| row_of_three(img@, wi, hi, xi, yi + dy);
    let mut acc: u32 = 0;
    let mut dy: i64 = -1;
    while dy <= 1
        invariant
            -1 <= dy <= 2,
            1 <= w <= i32::MAX,
            1 <= h <= i32::MAX,
            img.len() >= w * h,
            x <= i32::MAX,
            y <= i32::MAX,
            wi == w,
            hi == h,
            xi == x,
            yi == y,
            rows == |dy: int| row_of_three(img@, wi, hi, xi, yi + dy),
            acc == sums::sum(rows, -1, dy as int),
            acc <= 765 * (dy + 1),
        decreases 2 - dy,
    {
        let ghost cols = |dx: int| gray_clamped(img@, wi, hi, xi + dx, yi + dy);
        let ghost start = acc as int;
        let mut dx: i64 = -1;
        while dx <= 1
            invariant
                -1 <= dx <= 2,
                -1 <= dy <= 1,
                1 <= w <= i32::MAX,
                1 <= h <= i32::MAX,
                img.len() >= w * h,
                x <= i32::MAX,
                y <= i32::MAX,
                wi == w,
                hi == h,
                xi == x,
                yi == y,
                cols == |dx: int| gray_clamped(img@, wi, hi, xi + dx, yi + dy),
                acc == start + sums::sum(cols, -1, dx as int),
                start <= 765 * (dy + 1),
                acc <= start + 255 * (dx + 1),
            decreases 2 - dx,
        {
            let sx: usize = clamp_index(x as i64 + dx, w);
            let sy: usize = clamp_index(y as i64 + dy, h);
            proof {
                frame::lemma_pixel_index_in_range(wi, hi, sx as int, sy as int);
                assert(sy * wi <= frame::pixel_index(wi, sx as int, sy as int));
            }
            acc = acc + img[sy * w as usize + sx] as u32;
            dx += 1;
        }
        assert(rows(dy as int) == sums::sum(cols, -1, 2));
        dy += 1;
    }
    (acc / 9) as u8
}

/// A copy of the image at half its size: each pixel the average of the nine around
/// the pixel that it stands for.
pub fn box_blur_half(img: &[u8], w: u32, h: u32) -> (r: (Vec<u8>, u32, u32))
    requires
        1 <= w <= i32::MAX,
        1 <= h <= i32::MAX,
        img.len() >= w * h,
        half(w as int) * half(h as int) <= u32::MAX,
    ensures
        r.1 == half(w as int),
        r.2 == half(h as int),
        r.0.len() == r.1 * r.2,
        forall|x: int, y: int|
            0 <= x < r.1 && 0 <= y < r.2 ==> #[trigger] r.0@[frame::pixel_index(r.1 as int, x, y)]
                == block_of_nine(img@, w as int, h as int, 2 * x, 2 * y) / 9,
{
    let nw: u32 = if w / 2 > 1 {
        w / 2
    } else {
        1
    };
    let nh: u32 = if h / 2 > 1 {
        h / 2
    } else {
        1
    };
    let mut out: Vec<u8> = Vec::new();
    let mut y: u32 = 0;
    assert(0 * nw == 0) by (nonlinear_arith);
    while y < nh
        invariant
            y <= nh,
            nw == half(w as int),
            nh == half(h as int),
            1 <= w <= i32::MAX,
            1 <= h <= i32::MAX,
            img.len() >= w * h,
            out.len() == y * nw,
            forall|px: int, py: int|
                0 <= px < nw && 0 <= py < y ==> #[trigger] out@[frame::pixel_index(
                    nw as int,
                    px,
                    py,
                )] == block_of_nine(img@, w as int, h as int, 2 * px, 2 * py) / 9,
        decreases nh - y,
    {
        let mut x: u32 = 0;
        while x < nw
            invariant
                x <= nw,
                y < nh,
                nw == half(w as int),
                nh == half(h as int),
                1 <= w <= i32::MAX,
                1 <= h <= i32::MAX,
                img.len() >= w * h,
                out.len() == y * nw + x,
                forall|px: int, py: int|
                    0 <= px < nw && 0 <= py < y ==> #[trigger] out@[frame::pixel_index(
                        nw as int,
                        px,
                        py,
                    )] == block_of_nine(img@, w as int, h as int, 2 * px, 2 * py) / 9,
                forall|px: int|
                    0 <= px < x ==> #[trigger] out@[frame::pixel_index(nw as int, px, y as int)]
                        == block_of_nine(img@, w as int, h as int, 2 * px, 2 * y) / 9,
            decreases nw - x,
        {
            let ghost done = out@;
            let v = average_of_nine(img, w, h, 2 * x, 2 * y);
            out.push(v);
            proof {
                assert forall|px: int, py: int| 0 <= px < nw && 0 <= py < y implies
                    #[trigger] out@[frame::pixel_index(nw as int, px, py)] == block_of_nine(
                    img@,
                    w as int,
                    h as int,
                    2 * px,
                    2 * py,
                ) / 9 by {
                    frame::lemma_pixel_index_in_range(nw as int, y as int, px, py);
                    assert(y * nw == nw * y) by (nonlinear_arith);
                    assert(done[frame::pixel_index(nw as int, px, py)]
                        == out@[frame::pixel_index(nw as int, px, py)]);
                }
                assert forall|px: int| 0 <= px < x + 1 implies #[trigger] out@[frame::pixel_index(
                    nw as int,
                    px,
                    y as int,
                )] == block_of_nine(img@, w as int, h as int, 2 * px, 2 * y) / 9 by {
                    if px < x {
                        assert(done[frame::pixel_index(nw as int, px, y as int)]
                            == out@[frame::pixel_index(nw as int, px, y as int)]);
                    }
                }
            }
            x += 1;
        }
        proof {
            assert((y + 1) * nw == y * nw + nw) by (nonlinear_arith);
            assert forall|px: int, py: int| 0 <= px < nw && 0 <= py < y + 1 implies
                #[trigger] out@[frame::pixel_index(nw as int, px, py)] == block_of_nine(
                img@,
                w as int,
                h as int,
                2 * px,
                2 * py,
            ) / 9 by {
                if py == y {
                    assert(out@[frame::pixel_index(nw as int, px, y as int)] == block_of_nine(
                        img@,
                        w as int,
                        h as int,
                        2 * px,
                        2 * y,
                    ) / 9);
                }
            }
        }
        y += 1;
    }
    assert(nh * nw == nw * nh) by (nonlinear_arith);
    (out, nw, nh)
}

/// The gray level at column `x` of row `y`; zero outside the image.
pub open spec fn gray_or_zero(img: Seq<u8>, w: int, h: int, x: int, y: int) -> int {
    if 0 <= x < w && 0 <= y < h {
        img[frame::pixel_index(w, x, y)] as int
    } else {
        0
    }
}

/// The gray level at column `x` of row `y`; zero outside the image.
pub fn gray_at(img: &[u8], w: u32, h: u32, x: i32, y: i32) -> (r: u8)
    requires
        img.len() >= w * h,
    ensures
        r == gray_or_zero(img@, w as int, h as int, x as int, y as int),
{
    if x < 0 || y < 0 || x as i64 >= w as i64 || y as i64 >= h as i64 {
        return 0;
    }
    proof {
        frame::lemma_pixel_index_in_range(w as int, h as int, x as int, y as int);
        assert(0 <= y * w <= frame::pixel_index(w as int, x as int, y as int)) by (nonlinear_arith)
            requires
                0 <= y,
                0 <= w,
                0 <= x,
                frame::pixel_index(w as int, x as int, y as int) == y * w + x,
        ;
    }
    img[y as usize * w as usize + x as usize]
}

/// The difference across the pixel, right minus left.
pub open spec fn slope_x(img: Seq<u8>, w: int, h: int, x: int, y: int) -> int {
    gray_or_zero(img, w, h, x + 1, y) - gray_or_zero(img, w, h, x - 1, y)
}

/// The difference down the pixel, below minus above.
pub open spec fn slope_y(img: Seq<u8>, w: int, h: int, x: int, y: int) -> int {
    gray_or_zero(img, w, h, x, y + 1) - gray_or_zero(img, w, h, x, y - 1)
}

/// Twice the gradient at a pixel.
pub fn slopes(img: &[u8], w: u32, h: u32, x: i32, y: i32) -> (r: (i32, i32))
    requires
        img.len() >= w * h,
        i32::MIN < x < i32::MAX,
        i32::MIN < y < i32::MAX,
    ensures
        r.0 == slope_x(img@, w as int, h as int, x as int, y as int),
        r.1 == slope_y(img@, w as int, h as int, x as int, y as int),
        -255 <= r.0 <= 255,
        -255 <= r.1 <= 255,
{
    let right: i32 = gray_at(img, w, h, x + 1, y) as i32;
    let left: i32 = gray_at(img, w, h, x - 1, y) as i32;
    let below: i32 = gray_at(img, w, h, x, y + 1) as i32;
    let above: i32 = gray_at(img, w, h, x, y - 1) as i32;
    (right - left, below - above)
}

/// Products of the slopes at a pixel.
pub open spec fn slope_product(img: Seq<u8>, w: int, h: int, x: int, y: int, which: Entry) -> int {
    let (a, b) = (slope_x(img, w, h, x, y), slope_y(img, w, h, x, y));
    match which {
        Entry::Xx => a * a,
        Entry::Xy => a * b,
        Entry::Yy => b * b,
    }
}

/// An entry of the structure tensor.
#[derive(Debug, Clone, Copy, PartialEq, Eq, Structural)]
pub enum Entry {
    Xx,
    Xy,
    Yy,
}

/// A product of the slopes, added up over a row of the window.
pub open spec fn row_product(
    img: Seq<u8>,
    w: int,
    h: int,
    x: int,
    y: int,
    k: int,
    which: Entry,
) -> int {
    sums::sum(|dx: int| slope_product(img, w, h, x + dx, y, which), -k, k + 1)
}

/// A product of the slopes, added up over the window of `2 * k + 1` pixels square
/// around a pixel.
pub open spec fn window_product(
    img: Seq<u8>,
    w: int,
    h: int,
    x: int,
    y: int,
    k: int,
    which: Entry,
) -> int {
    sums::sum(|dy: int| row_product(img, w, h, x, y + dy, k, which), -k, k + 1)
}

/// The structure tensor of a window: the products of its slopes, added up. In
/// units of the gradient, which is half the slope, each entry counts a quarter.
#[derive(Debug, Clone, Copy, PartialEq, Eq, Structural)]
pub struct Tensor {
    pub xx: i128,
    pub xy: i128,
    pub yy: i128,
}

/// The structure tensor of the window of `2 * window_half + 1` pixels square around
/// a pixel; zero where the window is empty.
pub fn structure_tensor(img: &[u8], w: u32, h: u32, x: i32, y: i32, window_half: i32) -> (r: Tensor)
    requires
        img.len() >= w * h,
        i32::MIN < window_half,
        window_half >= 0 ==> i32::MIN < x - window_half && x + window_half < i32::MAX,
        window_half >= 0 ==> i32::MIN < y - window_half && y + window_half < i32::MAX,
    ensures
        ({
            let (wi, hi, xi, yi, k) = (
                w as int,
                h as int,
                x as int,
                y as int,
                window_half as int,
            );
            &&& r.xx == window_product(img@, wi, hi, xi, yi, k, Entry::Xx)
            &&& r.xy == window_product(img@, wi, hi, xi, yi, k, Entry::Xy)
            &&& r.yy == window_product(img@, wi, hi, xi, yi, k, Entry::Yy)
        }),
{
    let ghost (wi, hi, xi, yi, k) = (w as int, h as int, x as int, y as int, window_half as int);
    let mut xx: i128 = 0;
    let mut xy: i128 = 0;
    let mut yy: i128 = 0;
    if window_half < 0 {
        return Tensor { xx, xy, yy };
    }
    let ghost rows_xx = |dy: int| row_product(img@, wi, hi, xi, yi + dy, k, Entry::Xx);
    let ghost rows_xy = |dy: int| row_product(img@, wi, hi, xi, yi + dy, k, Entry::Xy);
    let ghost rows_yy = |dy: int| row_product(img@, wi, hi, xi, yi + dy, k, Entry::Yy);
    let ghost span: int = 65025 * (2 * k + 1);
    let mut dy: i32 = -window_half;
    assert(span * (dy + k) == 0) by (nonlinear_arith)
        requires
            dy + k == 0,
    ;
    while dy <= window_half
        invariant
            img.len() >= w * h,
            0 <= window_half,
            -window_half <= dy <= window_half + 1,
            i32::MIN < x - window_half,
            x + window_half < i32::MAX,
            i32::MIN < y - window_half,
            y + window_half < i32::MAX,
            wi == w,
            hi == h,
            xi == x,
            yi == y,
            k == window_half,
            span == 65025 * (2 * k + 1),
            rows_xx == |dy: int| row_product(img@, wi, hi, xi, yi + dy, k, Entry::Xx),
            rows_xy == |dy: int| row_product(img@, wi, hi, xi, yi + dy, k, Entry::Xy),
            rows_yy == |dy: int| row_product(img@, wi, hi, xi, yi + dy, k, Entry::Yy),
            xx == sums::sum(rows_xx, -k, dy as int),
            xy == sums::sum(rows_xy, -k, dy as int),
            yy == sums::sum(rows_yy, -k, dy as int),
            -span * (dy + k) <= xx <= span * (dy + k),
            -span * (dy + k) <= xy <= span * (dy + k),
            -span * (dy + k) <= yy <= span * (dy + k),
        decreases window_half + 1 - dy,
    {
        let row = row_sums(img, w, h, x, y + dy, window_half);
        proof {
            let n = dy + k;
            assert(span * (n + 1) == span * n + span) by (nonlinear_arith);
            assert(-span * (n + 1) == -span * n - span) by (nonlinear_arith);
            assert(0 <= span * n <= span * (2 * k + 1)) by (nonlinear_arith)
                requires
                    0 <= n <= 2 * k,
                    span >= 0,
            ;
            assert(-span * n == -(span * n)) by (nonlinear_arith);
            assert(span * (2 * k + 1) <= 65025 * 0x1_0000_0000 * 0x1_0000_0000) by (nonlinear_arith)
                requires
                    0 <= k <= 0x7fff_ffff,
                    span == 65025 * (2 * k + 1),
            ;
        }
        xx = xx + row.xx;
        xy = xy + row.xy;
        yy = yy + row.yy;
        dy += 1;
    }
    Tensor { xx, xy, yy }
}

fn row_sums(img: &[u8], w: u32, h: u32, x: i32, y: i32, window_half: i32) -> (r: Tensor)
    requires
        img.len() >= w * h,
        0 <= window_half,
        i32::MIN < x - window_half,
        x + window_half < i32::MAX,
        i32::MIN < y < i32::MAX,
    ensures
        ({
            let (wi, hi, xi, yi, k) = (
                w as int,
                h as int,
                x as int,
                y as int,
                window_half as int,
            );
            let span = 65025 * (2 * k + 1);
            &&& r.xx == row_product(img@, wi, hi, xi, yi, k, Entry::Xx)
            &&& r.xy == row_product(img@, wi, hi, xi, yi, k, Entry::Xy)
            &&& r.yy == row_product(img@, wi, hi, xi, yi, k, Entry::Yy)
            &&& -span <= r.xx <= span
            &&& -span <= r.xy <= span
            &&& -span <= r.yy <= span
        }),
{
    let ghost (wi, hi, xi, yi, k) = (w as int, h as int, x as int, y as int, window_half as int);
    let ghost cols_xx = |dx: int| slope_product(img@, wi, hi, xi + dx, yi, Entry::Xx);
    let ghost cols_xy = |dx: int| slope_product(img@, wi, hi, xi + dx, yi, Entry::Xy);
    let ghost cols_yy = |dx: int| slope_product(img@, wi, hi, xi + dx, yi, Entry::Yy);
    let mut xx: i128 = 0;
    let mut xy: i128 = 0;
    let mut yy: i128 = 0;
    let mut dx: i32 = -window_half;
    while dx <= window_half
        invariant
            img.len() >= w * h,
            0 <= window_half,
            -window_half <= dx <= window_half + 1,
            i32::MIN < x - window_half,
            x + window_half < i32::MAX,
            i32::MIN < y < i32::MAX,
            wi == w,
            hi == h,
            xi == x,
            yi == y,
            k == window_half,
            cols_xx == |dx: int| slope_product(img@, wi, hi, xi + dx, yi, Entry::Xx),
            cols_xy == |dx: int| slope_product(img@, wi, hi, xi + dx, yi, Entry::Xy),
            cols_yy == |dx: int| slope_product(img@, wi, hi, xi + dx, yi, Entry::Yy),
            xx == sums::sum(cols_xx, -k, dx as int),
            xy == sums::sum(cols_xy, -k, dx as int),
            yy == sums::sum(cols_yy, -k, dx as int),
            -65025 * (dx + k) <= xx <= 65025 * (dx + k),
            -65025 * (dx + k) <= xy <= 65025 * (dx + k),
            -65025 * (dx + k) <= yy <= 65025 * (dx + k),
        decreases window_half + 1 - dx,
    {
        let (a, b) = slopes(img, w, h, x + dx, y);
        proof {
            assert(-65025 <= a * a <= 65025 && -65025 <= a * b <= 65025 && -65025 <= b * b
                <= 65025) by (nonlinear_arith)
                requires
                    -255 <= a <= 255,
                    -255 <= b <= 255,
            ;
        }
        xx = xx + (a * a) as i128;
        xy = xy + (a * b) as i128;
        yy = yy + (b * b) as i128;
        dx += 1;
    }
    Tensor { xx, xy, yy }
}

/// A number without its sign.
pub open spec fn size(v: int) -> int {
    if v < 0 {
        -v
    } else {
        v
    }
}

fn size_of(v: i128) -> (r: u128)
    ensures
        r == size(v as int),
{
    if v < 0 {
        (-(v + 1)) as u128 + 1
    } else {
        v as u128
    }
}

/// The product of two numbers of 128 bits, as its high and its low half.
fn wide_product(a: u128, b: u128) -> (r: (u128, u128))
    ensures
        r.0 * 0x1_0000_0000_0000_0000_0000_0000_0000_0000 + r.1 == a * b,
{
    let base: u128 = 0x1_0000_0000_0000_0000;
    let (a1, a0): (u128, u128) = (a / base, a % base);
    let (b1, b0): (u128, u128) = (b / base, b % base);
    proof {
        lemma_half_product(a0 as int, b0 as int);
        lemma_half_product(a1 as int, b0 as int);
        lemma_half_product(a0 as int, b1 as int);
        lemma_half_product(a1 as int, b1 as int);
    }
    let low: u128 = a0 * b0;
    let mid: u128 = a1 * b0 + low / base;
    let mid2: u128 = a0 * b1 + mid % base;
    let high: u128 = a1 * b1 + mid / base + mid2 / base;
    let rest: u128 = (mid2 % base) * base + low % base;
    proof {
        let n = base as int;
        let (l1, d0) = ((low / base) as int, (low % base) as int);
        let (c1, d1) = ((mid / base) as int, (mid % base) as int);
        let (c2, d2) = ((mid2 / base) as int, (mid2 % base) as int);
        lemma_product_of_halves(a1 as int, a0 as int, b1 as int, b0 as int, n);
        lemma_carries(a1 * b1, a1 * b0, a0 * b1, l1, d0, c1, d1, c2, d2, n);
        assert(a == a1 * n + a0 && b == b1 * n + b0);
        assert(n * n == 0x1_0000_0000_0000_0000_0000_0000_0000_0000);
    }
    (high, rest)
}

proof fn lemma_product_of_halves(x1: int, x0: int, y1: int, y0: int, n: int)
    ensures
        (x1 * n + x0) * (y1 * n + y0) == (x1 * y1) * (n * n) + (x1 * y0 + x0 * y1) * n + x0 * y0,
{
    let (p, q) = (x1 * n, y1 * n);
    assert((p + x0) * (q + y0) == p * q + p * y0 + x0 * q + x0 * y0) by (nonlinear_arith);
    assert(p * q == (x1 * y1) * (n * n)) by (nonlinear_arith)
        requires
            p == x1 * n,
            q == y1 * n,
    ;
    assert(p * y0 == (x1 * y0) * n) by (nonlinear_arith)
        requires
            p == x1 * n,
    ;
    assert(x0 * q == (x0 * y1) * n) by (nonlinear_arith)
        requires
            q == y1 * n,
    ;
    assert((x1 * y0 + x0 * y1) * n == (x1 * y0) * n + (x0 * y1) * n) by (nonlinear_arith);
}

/// The digits of a product, with the carries that went from each to the next.
proof fn lemma_carries(
    p: int,
    u: int,
    v: int,
    l1: int,
    d0: int,
    c1: int,
    d1: int,
    c2: int,
    d2: int,
    n: int,
)
    requires
        u + l1 == c1 * n + d1,
        v + d1 == c2 * n + d2,
    ensures
        (p + c1 + c2) * (n * n) + (d2 * n + d0) == p * (n * n) + (u + v) * n + (l1 * n + d0),
{
    assert(u + v == c1 * n + c2 * n + d2 - l1);
    assert((c1 * n + c2 * n + d2 - l1) * n == c1 * (n * n) + c2 * (n * n) + d2 * n - l1 * n)
        by (nonlinear_arith);
    assert((p + c1 + c2) * (n * n) == p * (n * n) + c1 * (n * n) + c2 * (n * n))
        by (nonlinear_arith);
}

proof fn lemma_half_product(a: int, b: int)
    requires
        0 <= a < 0x1_0000_0000_0000_0000,
        0 <= b < 0x1_0000_0000_0000_0000,
    ensures
        0 <= a * b <= 0xffff_ffff_ffff_ffff * 0xffff_ffff_ffff_ffff,
{
    assert(0 <= a * b <= 0xffff_ffff_ffff_ffff * 0xffff_ffff_ffff_ffff) by (nonlinear_arith)
        requires
            0 <= a <= 0xffff_ffff_ffff_ffff,
            0 <= b <= 0xffff_ffff_ffff_ffff,
    ;
}

/// Whether a window has texture in two directions, so that a displacement can be told
/// from it: its structure tensor has a positive determinant.
pub fn has_texture(t: Tensor) -> (r: bool)
    ensures
        r == (t.xx * t.yy - t.xy * t.xy >= 1),
{
    let (a, b, c): (u128, u128, u128) = (size_of(t.xx), size_of(t.yy), size_of(t.xy));
    let (ph, pl): (u128, u128) = wide_product(a, b);
    let (qh, ql): (u128, u128) = wide_product(c, c);
    proof {
        let (x, y, z) = (t.xx as int, t.yy as int, t.xy as int);
        assert(size(z) * size(z) == z * z) by (nonlinear_arith)
            requires
                size(z) == z || size(z) == -z,
        ;
        assert(z * z >= 0) by (nonlinear_arith);
        assert((x < 0) == (y < 0) ==> size(x) * size(y) == x * y) by (nonlinear_arith)
            requires
                size(x) == if x < 0 { -x } else { x },
                size(y) == if y < 0 { -y } else { y },
        ;
        assert((x < 0) != (y < 0) ==> x * y <= 0) by (nonlinear_arith);
    }
    (t.xx < 0) == (t.yy < 0) && (ph > qh || (ph == qh && pl > ql))
}

/// What a step of the tracker leads to.
#[derive(Debug, Clone, Copy, PartialEq, Eq, Structural)]
pub enum Verdict {
    /// The point has come to rest.
    Converged,
    /// The point has left the image.
    Lost,
    /// Another step is needed.
    Continue,
}

/// The bit pattern of 0.01.
pub const HUNDREDTH: u64 = 0x3f84_7ae1_47ae_147b;

/// A number between minus and plus a hundredth.
pub open spec fn tiny(d: Double) -> bool {
    let limit = Double { bits: HUNDREDTH };
    d.less(limit) && limit.negated().less(d)
}

/// A point inside the image, whose last column and row are `last_x` and `last_y`.
pub open spec fn inside(px: Double, py: Double, last_x: Double, last_y: Double) -> bool {
    Double::zero().less(px) && Double::zero().less(py) && px.less(last_x) && py.less(last_y)
}

/// What the step by `dx` and `dy` to the point `px`, `py` leads to, in an image
/// whose last column and row are `last_x` and `last_y`.
pub fn step_verdict(
    dx: Double,
    dy: Double,
    px: Double,
    py: Double,
    last_x: Double,
    last_y: Double,
) -> (r: Verdict)
    ensures
        r == if tiny(dx) && tiny(dy) {
            Verdict::Converged
        } else if !inside(px, py, last_x, last_y) {
            Verdict::Lost
        } else {
            Verdict::Continue
        },
{
    let limit = Double { bits: HUNDREDTH };
    let low = limit.neg();
    if dx.lt(limit) && low.lt(dx) && dy.lt(limit) && low.lt(dy) {
        return Verdict::Converged;
    }
    let zero = Double { bits: 0 };
    if zero.lt(px) && zero.lt(py) && px.lt(last_x) && py.lt(last_y) {
        Verdict::Continue
    } else {
        Verdict::Lost
    }
}

/// Half the image has half as many columns and rows, rounded down, but one at least.
/// Each of its pixels is the average, rounded down, of the nine around the pixel in
/// twice its column of twice its row, where the edge is repeated outside the image.
pub proof fn law_half_image_averages_nine(
    img: &[u8],
    w: u32,
    h: u32,
    r: (Vec<u8>, u32, u32),
    x: int,
    y: int,
)
    requires
        1 <= w <= i32::MAX,
        1 <= h <= i32::MAX,
        img.len() >= w * h,
        call_ensures(box_blur_half, (img, w, h), r),
        0 <= x < r.1,
        0 <= y < r.2,
    ensures
        w == 1 ==> r.1 == 1,
        w > 1 ==> r.1 == w / 2,
        h == 1 ==> r.2 == 1,
        h > 1 ==> r.2 == h / 2,
        r.0.len() == r.1 * r.2,
        ({
            let (x0, x1, x2) = (
                if x == 0 {
                    0
                } else {
                    2 * x - 1
                },
                2 * x,
                if w == 1 {
                    0
                } else {
                    2 * x + 1
                },
            );
            let (y0, y1, y2) = (
                if y == 0 {
                    0
                } else {
                    2 * y - 1
                },
                2 * y,
                if h == 1 {
                    0
                } else {
                    2 * y + 1
                },
            );
            r.0@[y * r.1 + x] == (img@[y0 * w + x0] + img@[y0 * w + x1] + img@[y0 * w + x2]
                + img@[y1 * w + x0] + img@[y1 * w + x1] + img@[y1 * w + x2] + img@[y2 * w + x0]
                + img@[y2 * w + x1] + img@[y2 * w + x2]) / 9
        }),
{
    let (wi, hi) = (w as int, h as int);
    reveal_with_fuel(sums::sum, 4);
    assert(r.0@[frame::pixel_index(r.1 as int, x, y)] == block_of_nine(img@, wi, hi, 2 * x, 2 * y)
        / 9);
    let rows = |dy: int| row_of_three(img@, wi, hi, 2 * x, 2 * y + dy);
    assert(sums::sum(rows, -1, 2) == rows(-1) + rows(0) + rows(1));
    assert(block_of_nine(img@, wi, hi, 2 * x, 2 * y) == rows(-1) + rows(0) + rows(1));
    assert forall|v: int| #[trigger]
        row_of_three(img@, wi, hi, 2 * x, v) == gray_clamped(img@, wi, hi, 2 * x - 1, v)
            + gray_clamped(img@, wi, hi, 2 * x, v) + gray_clamped(img@, wi, hi, 2 * x + 1, v) by {
        let cols = |dx: int| gray_clamped(img@, wi, hi, 2 * x + dx, v);
        assert(sums::sum(cols, -1, 2) == cols(-1) + cols(0) + cols(1));
    }
}

/// The gray level at a pixel of the image is the one in its column of its row, and
/// outside the image it is zero.
pub proof fn law_gray_is_zero_outside(img: &[u8], w: u32, h: u32, x: i32, y: i32, r: u8)
    requires
        img.len() >= w * h,
        call_ensures(gray_at, (img, w, h, x, y), r),
    ensures
        0 <= x < w && 0 <= y < h ==> r == img@[y * w + x],
        !(0 <= x < w && 0 <= y < h) ==> r == 0,
{
}

/// The slopes at a pixel are the differences of the gray levels on its two sides: right
/// minus left, and below minus above.
pub proof fn law_slopes_are_differences(
    img: &[u8],
    w: u32,
    h: u32,
    x: i32,
    y: i32,
    r: (i32, i32),
    right: u8,
    left: u8,
    below: u8,
    above: u8,
)
    requires
        img.len() >= w * h,
        i32::MIN < x < i32::MAX,
        i32::MIN < y < i32::MAX,
        call_ensures(slopes, (img, w, h, x, y), r),
        call_ensures(gray_at, (img, w, h, (x + 1) as i32, y), right),
        call_ensures(gray_at, (img, w, h, (x - 1) as i32, y), left),
        call_ensures(gray_at, (img, w, h, x, (y + 1) as i32), below),
        call_ensures(gray_at, (img, w, h, x, (y - 1) as i32), above),
    ensures
        r.0 == right - left,
        r.1 == below - above,
{
}

proof fn lemma_window_single(
    img: Seq<u8>,
    w: int,
    h: int,
    x: int,
    y: int,
    k: int,
    p: int,
    q: int,
    which: Entry,
)
    requires
        x - k <= p <= x + k,
        y - k <= q <= y + k,
        forall|i: int, j: int|
            x - k <= i <= x + k && y - k <= j <= y + k && (i != p || j != q)
                ==> #[trigger] slope_product(img, w, h, i, j, which) == 0,
    ensures
        window_product(img, w, h, x, y, k, which) == slope_product(img, w, h, p, q, which),
{
    let rows = |dy: int| row_product(img, w, h, x, y + dy, k, which);
    assert forall|dy: int| -k <= dy < k + 1 implies #[trigger] rows(dy) == if dy == q - y {
        slope_product(img, w, h, p, q, which)
    } else {
        0
    } by {
        let cols = |dx: int| slope_product(img, w, h, x + dx, y + dy, which);
        assert forall|dx: int| -k <= dx < k + 1 && dx != p - x implies #[trigger] cols(dx)
            == 0 by {
            assert(slope_product(img, w, h, x + dx, y + dy, which) == 0);
        }
        sums::lemma_sum_single(cols, -k, k + 1, p - x);
        assert(cols(p - x) == slope_product(img, w, h, p, y + dy, which));
    }
    sums::lemma_sum_single(rows, -k, k + 1, q - y);
}

/// Where one pixel of the window has slopes and no other has any, the structure tensor
/// holds the products of the slopes of that one, wherever in the window it lies. Outside
/// the image everything is black.
pub proof fn law_tensor_of_lone_slope(
    img: &[u8],
    w: u32,
    h: u32,
    x: i32,
    y: i32,
    k: i32,
    r: Tensor,
    level: spec_fn(int, int) -> int,
    across: spec_fn(int, int) -> int,
    down: spec_fn(int, int) -> int,
    p: int,
    q: int,
)
    requires
        img.len() >= w * h,
        0 <= k,
        call_ensures(structure_tensor, (img, w, h, x, y, k), r),
        forall|i: int, j: int| #[trigger]
            level(i, j) == if 0 <= i < w && 0 <= j < h {
                img@[j * w + i] as int
            } else {
                0
            },
        forall|i: int, j: int| #[trigger] across(i, j) == level(i + 1, j) - level(i - 1, j),
        forall|i: int, j: int| #[trigger] down(i, j) == level(i, j + 1) - level(i, j - 1),
        x - k <= p <= x + k,
        y - k <= q <= y + k,
        forall|i: int, j: int|
            x - k <= i <= x + k && y - k <= j <= y + k && (i != p || j != q) ==> #[trigger] across(
                i,
                j,
            ) == 0,
        forall|i: int, j: int|
            x - k <= i <= x + k && y - k <= j <= y + k && (i != p || j != q) ==> #[trigger] down(
                i,
                j,
            ) == 0,
    ensures
        r.xx == across(p, q) * across(p, q),
        r.xy == across(p, q) * down(p, q),
        r.yy == down(p, q) * down(p, q),
{
    let (wi, hi, xi, yi, ki) = (w as int, h as int, x as int, y as int, k as int);
    assert forall|i: int, j: int| x - k <= i <= x + k && y - k <= j <= y + k implies (
    #[trigger] slope_x(img@, wi, hi, i, j)) == across(i, j) by {
        assert(level(i + 1, j) == gray_or_zero(img@, wi, hi, i + 1, j));
        assert(level(i - 1, j) == gray_or_zero(img@, wi, hi, i - 1, j));
    }
    assert forall|i: int, j: int| x - k <= i <= x + k && y - k <= j <= y + k implies (
    #[trigger] slope_y(img@, wi, hi, i, j)) == down(i, j) by {
        assert(level(i, j + 1) == gray_or_zero(img@, wi, hi, i, j + 1));
        assert(level(i, j - 1) == gray_or_zero(img@, wi, hi, i, j - 1));
    }
    assert forall|i: int, j: int, e: Entry|
        x - k <= i <= x + k && y - k <= j <= y + k && (i != p || j != q) implies #[trigger]
        slope_product(img@, wi, hi, i, j, e) == 0 by {
        assert(slope_x(img@, wi, hi, i, j) == across(i, j) && across(i, j) == 0);
        assert(slope_y(img@, wi, hi, i, j) == down(i, j) && down(i, j) == 0);
    }
    lemma_window_single(img@, wi, hi, xi, yi, ki, p, q, Entry::Xx);
    lemma_window_single(img@, wi, hi, xi, yi, ki, p, q, Entry::Xy);
    lemma_window_single(img@, wi, hi, xi, yi, ki, p, q, Entry::Yy);
    assert(slope_x(img@, wi, hi, p, q) == across(p, q));
    assert(slope_y(img@, wi, hi, p, q) == down(p, q));
}

/// A window has texture where the product of its two squares exceeds the square of its
/// mixed entry, and not where they are equal, as on a straight edge.
pub proof fn law_straight_edge_has_no_texture(t: Tensor, r: bool)
    requires
        call_ensures(has_texture, (t,), r),
    ensures
        r <==> t.xx * t.yy > t.xy * t.xy,
{
}

/// A step shorter than a hundredth of a pixel in both directions ends the search,
/// wherever it leads; a longer one goes on inside the image, off its border, and loses
/// the point elsewhere.
pub proof fn law_small_step_converges(
    dx: Double,
    dy: Double,
    px: Double,
    py: Double,
    last_x: Double,
    last_y: Double,
    r: Verdict,
)
    requires
        call_ensures(step_verdict, (dx, dy, px, py, last_x, last_y), r),
    ensures
        r is Converged <==> dx.magnitude() < 0x3f84_7ae1_47ae_147b && dy.magnitude()
            < 0x3f84_7ae1_47ae_147b,
        r is Continue ==> {
            &&& !px.nan() && !py.nan() && !last_x.nan() && !last_y.nan()
            &&& 0 < px.units() < last_x.units()
            &&& 0 < py.units() < last_y.units()
        },
        r is Lost ==> {
            ||| px.nan() || py.nan() || last_x.nan() || last_y.nan()
            ||| !(0 < px.units() < last_x.units())
            ||| !(0 < py.units() < last_y.units())
        },
{
    crate::double::lemma_magnitude_units_order(0, dx.magnitude());
    crate::double::lemma_magnitude_units_order(0, dy.magnitude());
    crate::double::lemma_magnitude_units_order(dx.magnitude(), HUNDREDTH as int);
    crate::double::lemma_magnitude_units_order(dy.magnitude(), HUNDREDTH as int);
}

/// An empty window has no structure.
pub proof fn law_empty_window_has_no_structure(
    img: &[u8],
    w: u32,
    h: u32,
    x: i32,
    y: i32,
    k: i32,
    r: Tensor,
)
    requires
        k < 0,
        call_ensures(structure_tensor, (img, w, h, x, y, k), r),
    ensures
        r.xx == 0 && r.xy == 0 && r.yy == 0,
{
}

} // verus!
