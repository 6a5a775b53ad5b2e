//! Images of the stereo cameras.

use vstd::prelude::*;

verus! {

/// The place of the pixel in column `x` of row `y` in a row-major image of width
/// `w`.
pub open spec fn pixel_index(w: int, x: int, y: int) -> int {
    y * w + x
}

/// A pixel within the image has its place within the buffer.
pub proof fn lemma_pixel_index_in_range(w: int, h: int, x: int, y: int)
    requires
        0 <= x < w,
        0 <= y < h,
    ensures
        0 <= pixel_index(w, x, y) < w * h,
{
    assert(0 <= y * w + x < w * h) by (nonlinear_arith)
        requires
            0 <= x < w,
            0 <= y < h,
    ;
}

/// Distinct pixels have distinct places.
pub proof fn lemma_pixel_index_injective(w: int, x1: int, y1: int, x2: int, y2: int)
    requires
        0 <= x1 < w,
        0 <= x2 < w,
        pixel_index(w, x1, y1) == pixel_index(w, x2, y2),
    ensures
        x1 == x2,
        y1 == y2,
{
    assert(y1 == y2 && x1 == x2) by (nonlinear_arith)
        requires
            0 <= x1 < w,
            0 <= x2 < w,
            y1 * w + x1 == y2 * w + x2,
    ;
}

/// A grayscale stereo pair, row by row, `width * height` pixels each.
#[derive(Debug, Clone, PartialEq)]
pub struct StereoFrame {
    pub width: u32,
    pub height: u32,
    pub left: Vec<u8>,
    pub right: Vec<u8>,
}

impl StereoFrame {
    /// Both images have the frame's size.
    pub open spec fn wf(&self) -> bool {
        &&& self.width * self.height <= u32::MAX
        &&& self.left.len() == self.width * self.height
        &&& self.right.len() == self.width * self.height
    }

    /// The pair of these images.
    pub fn new(width: u32, height: u32, left: Vec<u8>, right: Vec<u8>) -> (r: StereoFrame)
        requires
            width * height <= u32::MAX,
            left.len() == width * height,
            right.len() == width * height,
        ensures
            r.wf(),
            r.width == width,
            r.height == height,
            r.left == left,
            r.right == right,
    {
        StereoFrame { width, height, left, right }
    }

    /// The pixel at column `u` of row `v` of the left or right image.
    pub fn pixel(&self, left: bool, u: u32, v: u32) -> (r: u8)
        requires
            self.wf(),
            pixel_index(self.width as int, u as int, v as int) < self.width * self.height,
        ensures
            r == (if left {
                self.left@
            } else {
                self.right@
            })[pixel_index(self.width as int, u as int, v as int)],
    {
        assert(0 <= v * self.width) by (nonlinear_arith)
            requires
                0 <= v,
                0 <= self.width,
        ;
        let at: usize = (v * self.width + u) as usize;
        if left {
            self.left[at]
        } else {
            self.right[at]
        }
    }
}

/// A frame holds the images and the size that it was made of, and a pixel of it is the
/// one in its column of its row, of the image asked for.
pub proof fn law_pixel_is_in_its_row(
    width: u32,
    height: u32,
    left: Vec<u8>,
    right: Vec<u8>,
    f: StereoFrame,
    u: u32,
    v: u32,
    l: u8,
    r: u8,
)
    requires
        width * height <= u32::MAX,
        left.len() == width * height,
        right.len() == width * height,
        call_ensures(StereoFrame::new, (width, height, left, right), f),
        u < width,
        v < height,
        call_ensures(StereoFrame::pixel, (&f, true, u, v), l),
        call_ensures(StereoFrame::pixel, (&f, false, u, v), r),
    ensures
        f.width == width && f.height == height,
        l == left@[v * width + u],
        r == right@[v * width + u],
{
}

} // verus!
