//! Corner detection: a segment test on a circle of sixteen pixels, then
//! suppression of the corners next to a stronger one.

use crate::frame;
use vstd::prelude::*;

verus! {

/// Offsets of the circle of radius 3 around a pixel, from twelve o'clock on,
/// clockwise.
pub open spec fn circle(i: int) -> (int, int) {
    if i == 0 {
        (0, -3)
    } else if i == 1 {
        (1, -3)
    } else if i == 2 {
        (2, -2)
    } else if i == 3 {
        (3, -1)
    } else if i == 4 {
        (3, 0)
    } else if i == 5 {
        (3, 1)
    } else if i == 6 {
        (2, 2)
    } else if i == 7 {
        (1, 3)
    } else if i == 8 {
        (0, 3)
    } else if i == 9 {
        (-1, 3)
    } else if i == 10 {
        (-2, 2)
    } else if i == 11 {
        (-3, 1)
    } else if i == 12 {
        (-3, 0)
    } else if i == 13 {
        (-3, -1)
    } else if i == 14 {
        (-2, -2)
    } else {
        (-1, -3)
    }
}

fn circle_offset(i: usize) -> (r: (i32, i32))
    requires
        i < 16,
    ensures
        r.0 == circle(i as int).0,
        r.1 == circle(i as int).1,
        -3 <= r.0 <= 3,
        -3 <= r.1 <= 3,
{
    if i == 0 {
        (0, -3)
    } else if i == 1 {
        (1, -3)
    } else if i == 2 {
        (2, -2)
    } else if i == 3 {
        (3, -1)
    } else if i == 4 {
        (3, 0)
    } else if i == 5 {
        (3, 1)
    } else if i == 6 {
        (2, 2)
    } else if i == 7 {
        (1, 3)
    } else if i == 8 {
        (0, 3)
    } else if i == 9 {
        (-1, 3)
    } else if i == 10 {
        (-2, 2)
    } else if i == 11 {
        (-3, 1)
    } else if i == 12 {
        (-3, 0)
    } else if i == 13 {
        (-3, -1)
    } else if i == 14 {
        (-2, -2)
    } else {
        (-1, -3)
    }
}

/// On the circle, `k` hits in a row are true from the `s`th on.
pub open spec fn run_at(hits: Seq<bool>, s: int, k: int) -> bool {
    0 <= s < 16 && 0 <= k <= 16 && forall|j: int| s <= j < s + k ==> #[trigger] hits[j % 16]
}

/// The same on the circle gone through twice.
spec fn walk_at(hits: Seq<bool>, s: int, k: int) -> bool {
    0 <= s && 0 <= k && s + k <= 32 && forall|j: int| s <= j < s + k ==> #[trigger] hits[j % 16]
}

/// Length of the longest run of `true` on the circle, whose last hit is next to its
/// first.
pub fn longest_run(hits: [bool; 16]) -> (r: usize)
    ensures
        r <= 16,
        exists|s: int| run_at(hits@, s, r as int),
        forall|s: int, k: int| run_at(hits@, s, k) ==> k <= r,
{
    let mut best: usize = 0;
    let mut cur: usize = 0;
    let mut i: usize = 0;
    let ghost mut start: int = 0;
    assert(walk_at(hits@, 0, 0));
    while i < 32
        invariant
            i <= 32,
            cur <= i,
            cur <= best,
            best <= 32,
            walk_at(hits@, start, best as int),
            walk_at(hits@, i - cur, cur as int),
            cur < i ==> !hits@[(i - cur - 1) % 16],
            forall|s: int, k: int| #[trigger] walk_at(hits@, s, k) && s + k <= i ==> k <= best,
        decreases 32 - i,
    {
        let ghost before = cur;
        if hits[i % 16] {
            cur += 1;
            proof {
                assert(walk_at(hits@, i + 1 - cur, cur as int)) by {
                    assert forall|j: int| i + 1 - cur <= j < i + 1 implies #[trigger] hits@[j
                        % 16] by {
                        if j < i {
                        }
                    }
                }
                assert forall|s: int, k: int| #[trigger]
                    walk_at(hits@, s, k) && s + k <= i + 1 implies k <= best || k <= cur by {
                    if s + k == i + 1 && k > cur {
                        let gap = i - before - 1;
                        assert(s <= gap < s + k);
                        assert(hits@[gap % 16]);
                    }
                }
            }
            if cur > best {
                best = cur;
                proof {
                    start = i + 1 - cur;
                }
            }
        } else {
            cur = 0;
            proof {
                assert forall|s: int, k: int| #[trigger]
                    walk_at(hits@, s, k) && s + k <= i + 1 implies k <= best by {
                    if s + k == i + 1 && k > 0 {
                        assert(hits@[(i as int) % 16]);
                    }
                }
            }
        }
        i += 1;
    }
    let r: usize = if best < 16 {
        best
    } else {
        16
    };
    proof {
        let s = start % 16;
        assert(run_at(hits@, s, r as int)) by {
            assert forall|j: int| s <= j < s + r implies #[trigger] hits@[j % 16] by {
                let d = j - s;
                assert((start + d) % 16 == j % 16);
                assert(hits@[(start + d) % 16]);
            }
        }
        assert forall|s: int, k: int| run_at(hits@, s, k) implies k <= r by {
            assert(walk_at(hits@, s, k));
        }
    }
    r
}

/// The gray level of a pixel.
pub open spec fn gray(img: Seq<u8>, w: int, x: int, y: int) -> int {
    img[frame::pixel_index(w, x, y)] as int
}

/// The gray level of the `i`th pixel of the circle around a pixel.
pub open spec fn circle_gray(img: Seq<u8>, w: int, x: int, y: int, i: int) -> int {
    gray(img, w, x + circle(i).0, y + circle(i).1)
}

/// The `i`th pixel of the circle is brighter than the center by more than `t`.
pub open spec fn brighter(img: Seq<u8>, w: int, x: int, y: int, t: int, i: int) -> bool {
    circle_gray(img, w, x, y, i) > gray(img, w, x, y) + t
}

/// The `i`th pixel of the circle is darker than the center by more than `t`.
pub open spec fn darker(img: Seq<u8>, w: int, x: int, y: int, t: int, i: int) -> bool {
    circle_gray(img, w, x, y, i) < gray(img, w, x, y) - t
}

/// Nine pixels of the circle in a row, from the `s`th on, are brighter.
pub open spec fn bright_arc(img: Seq<u8>, w: int, x: int, y: int, t: int, s: int) -> bool {
    forall|k: int| 0 <= k < 9 ==> #[trigger] brighter(img, w, x, y, t, (s + k) % 16)
}

/// Nine pixels of the circle in a row, from the `s`th on, are darker.
pub open spec fn dark_arc(img: Seq<u8>, w: int, x: int, y: int, t: int, s: int) -> bool {
    forall|k: int| 0 <= k < 9 ==> #[trigger] darker(img, w, x, y, t, (s + k) % 16)
}

/// The segment test: nine pixels in a row on the circle are all brighter or all
/// darker than the center.
pub open spec fn passes(img: Seq<u8>, w: int, x: int, y: int, t: int) -> bool {
    ||| exists|s: int| 0 <= s < 16 && #[trigger] bright_arc(img, w, x, y, t, s)
    ||| exists|s: int| 0 <= s < 16 && #[trigger] dark_arc(img, w, x, y, t, s)
}

/// The difference of two gray levels, without its sign.
pub open spec fn difference(a: int, b: int) -> int {
    if a < b {
        b - a
    } else {
        a - b
    }
}

/// The differences between the center and the first `n` pixels of the circle,
/// added up.
pub open spec fn contrast(img: Seq<u8>, w: int, x: int, y: int, n: int) -> int
    decreases n,
{
    if n <= 0 {
        0
    } else {
        contrast(img, w, x, y, n - 1) + difference(
            circle_gray(img, w, x, y, n - 1),
            gray(img, w, x, y),
        )
    }
}

/// The strength of a corner: the contrast of the whole circle.
pub open spec fn strength(img: Seq<u8>, w: int, c: Corner) -> int {
    contrast(img, w, c.x as int, c.y as int, 16)
}

/// A corner, by its pixel.
#[derive(Debug, Clone, Copy, PartialEq, Eq, Structural)]
pub struct Corner {
    pub x: u32,
    pub y: u32,
}

/// A pixel at least three pixels inside the image that passes the segment test.
pub open spec fn is_candidate(img: Seq<u8>, w: int, h: int, t: int, c: Corner) -> bool {
    &&& 3 <= c.x < w - 3
    &&& 3 <= c.y < h - 3
    &&& passes(img, w, c.x as int, c.y as int, t)
}

/// `a` comes before `b` when the image is read row by row.
pub open spec fn reads_before(a: Corner, b: Corner) -> bool {
    a.y < b.y || (a.y == b.y && a.x < b.x)
}

/// `a` is stronger than `b`, or as strong and read before it.
pub open spec fn stronger(img: Seq<u8>, w: int, a: Corner, b: Corner) -> bool {
    let (sa, sb) = (strength(img, w, a), strength(img, w, b));
    sa > sb || (sa == sb && reads_before(a, b))
}

/// Two pixels within one of each other, across and down.
pub open spec fn touching(a: Corner, b: Corner) -> bool {
    -1 <= a.x - b.x <= 1 && -1 <= a.y - b.y <= 1
}

/// A stronger corner among `r` touches `c`.
pub open spec fn beaten(img: Seq<u8>, w: int, r: Seq<Corner>, c: Corner) -> bool {
    exists|i: int| 0 <= i < r.len() && stronger(img, w, #[trigger] r[i], c) && touching(r[i], c)
}

/// The corners `r` are those of the image: candidates only, the strongest first,
/// and of the candidates exactly those that no stronger corner of `r` touches.
pub open spec fn are_corners(img: Seq<u8>, w: int, h: int, t: int, r: Seq<Corner>) -> bool {
    &&& forall|i: int| 0 <= i < r.len() ==> is_candidate(img, w, h, t, #[trigger] r[i])
    &&& forall|i: int, j: int|
        0 <= i < j < r.len() ==> stronger(img, w, #[trigger] r[i], #[trigger] r[j])
    &&& forall|c: Corner|
        is_candidate(img, w, h, t, c) ==> (#[trigger] r.contains(c) <==> !beaten(img, w, r, c))
}

/// A candidate with its strength.
#[derive(Debug, Clone, Copy, PartialEq, Eq, Structural)]
struct Scored {
    at: Corner,
    score: u16,
}

spec fn precedes(a: Scored, b: Scored) -> bool {
    a.score > b.score || (a.score == b.score && reads_before(a.at, b.at))
}

spec fn in_order(v: Seq<Scored>) -> bool {
    forall|i: int, j: int| 0 <= i < j < v.len() ==> precedes(#[trigger] v[i], #[trigger] v[j])
}

spec fn apart(v: Seq<Scored>) -> bool {
    forall|i: int, j: int| 0 <= i < j < v.len() ==> (#[trigger] v[i]).at != (#[trigger] v[j]).at
}

fn comes_first(a: &Scored, b: &Scored) -> (r: bool)
    ensures
        r == precedes(*a, *b),
{
    a.score > b.score || (a.score == b.score && (a.at.y < b.at.y || (a.at.y == b.at.y && a.at.x
        < b.at.x)))
}

/// Merges two ordered lists.
fn merge(a: &Vec<Scored>, b: &Vec<Scored>) -> (r: Vec<Scored>)
    requires
        in_order(a@),
        in_order(b@),
        forall|i: int, j: int|
            0 <= i < a.len() && 0 <= j < b.len() ==> (#[trigger] a@[i]).at != (
            #[trigger] b@[j]).at,
    ensures
        in_order(r@),
        forall|s: Scored| #[trigger] r@.contains(s) <==> a@.contains(s) || b@.contains(s),
{
    let mut out: Vec<Scored> = Vec::new();
    let mut i: usize = 0;
    let mut j: usize = 0;
    while i < a.len() || j < b.len()
        invariant
            i <= a.len(),
            j <= b.len(),
            in_order(a@),
            in_order(b@),
            forall|i: int, j: int|
                0 <= i < a.len() && 0 <= j < b.len() ==> (#[trigger] a@[i]).at != (
                #[trigger] b@[j]).at,
            in_order(out@),
            forall|k: int, m: int|
                0 <= k < out.len() && i <= m < a.len() ==> precedes(
                    #[trigger] out@[k],
                    #[trigger] a@[m],
                ),
            forall|k: int, m: int|
                0 <= k < out.len() && j <= m < b.len() ==> precedes(
                    #[trigger] out@[k],
                    #[trigger] b@[m],
                ),
            forall|m: int| 0 <= m < i ==> out@.contains(#[trigger] a@[m]),
            forall|m: int| 0 <= m < j ==> out@.contains(#[trigger] b@[m]),
            forall|k: int|
                0 <= k < out.len() ==> a@.contains(#[trigger] out@[k]) || b@.contains(out@[k]),
        decreases a.len() - i + b.len() - j,
    {
        let ghost done = out@;
        let from_a = if i < a.len() {
            if j < b.len() {
                comes_first(&a[i], &b[j])
            } else {
                true
            }
        } else {
            false
        };
        if from_a {
            out.push(a[i]);
            proof {
                assert(out@.last() == a@[i as int]);
                assert forall|m: int| j <= m < b.len() implies precedes(
                    a@[i as int],
                    #[trigger] b@[m],
                ) by {
                    if m > j {
                        assert(precedes(b@[j as int], b@[m]));
                    }
                }
            }
            i += 1;
        } else {
            out.push(b[j]);
            proof {
                assert(out@.last() == b@[j as int]);
                assert forall|m: int| i <= m < a.len() implies precedes(
                    b@[j as int],
                    #[trigger] a@[m],
                ) by {
                    assert(a@[i as int].at != b@[j as int].at);
                    assert(precedes(b@[j as int], a@[i as int]));
                    if m > i {
                        assert(precedes(a@[i as int], a@[m]));
                    }
                }
            }
            j += 1;
        }
        proof {
            assert forall|s: Scored| done.contains(s) implies out@.contains(s) by {
                let k = choose|k: int| 0 <= k < done.len() && done[k] == s;
                assert(out@[k] == s);
            }
            assert(out@.contains(out@.last())) by {
                assert(out@[out.len() - 1] == out@.last());
            }
        }
    }
    proof {
        assert forall|s: Scored| #[trigger] out@.contains(s) <==> a@.contains(s) || b@.contains(
            s,
        ) by {
            if a@.contains(s) {
                let m = choose|m: int| 0 <= m < a.len() && a@[m] == s;
                assert(out@.contains(a@[m]));
            }
            if b@.contains(s) {
                let m = choose|m: int| 0 <= m < b.len() && b@[m] == s;
                assert(out@.contains(b@[m]));
            }
        }
    }
    out
}

/// The candidates in order.
fn sort(v: Vec<Scored>) -> (r: Vec<Scored>)
    requires
        apart(v@),
    ensures
        in_order(r@),
        forall|s: Scored| #[trigger] r@.contains(s) <==> v@.contains(s),
    decreases v.len(),
{
    if v.len() <= 1 {
        return v;
    }
    let ghost all = v@;
    let mut left = v;
    let mid: usize = left.len() / 2;
    let right = left.split_off(mid);
    proof {
        assert(left@ =~= all.subrange(0, mid as int));
        assert(right@ =~= all.subrange(mid as int, all.len() as int));
    }
    let ghost (l, r) = (left@, right@);
    let a = sort(left);
    let b = sort(right);
    proof {
        assert forall|i: int, j: int| 0 <= i < a.len() && 0 <= j < b.len() implies (
        #[trigger] a@[i]).at != (#[trigger] b@[j]).at by {
            assert(a@.contains(a@[i]) && b@.contains(b@[j]));
            let p = choose|p: int| 0 <= p < l.len() && l[p] == a@[i];
            let q = choose|q: int| 0 <= q < r.len() && r[q] == b@[j];
            assert(all[p] == a@[i] && all[mid + q] == b@[j]);
        }
    }
    let out = merge(&a, &b);
    proof {
        assert forall|s: Scored| #[trigger] out@.contains(s) <==> all.contains(s) by {
            if l.contains(s) {
                let p = choose|p: int| 0 <= p < l.len() && l[p] == s;
                assert(all[p] == s);
            }
            if r.contains(s) {
                let q = choose|q: int| 0 <= q < r.len() && r[q] == s;
                assert(all[mid + q] == s);
            }
            if all.contains(s) {
                let p = choose|p: int| 0 <= p < all.len() && all[p] == s;
                if p < mid {
                    assert(l[p] == s);
                } else {
                    assert(r[p - mid] == s);
                }
            }
            assert(out@.contains(s) <==> a@.contains(s) || b@.contains(s));
        }
    }
    out
}

proof fn lemma_contrast_range(img: Seq<u8>, w: int, x: int, y: int, n: int)
    requires
        0 <= n,
    ensures
        0 <= contrast(img, w, x, y, n) <= 255 * n,
    decreases n,
{
    if n > 0 {
        lemma_contrast_range(img, w, x, y, n - 1);
    }
}

spec fn nine_from(hits: Seq<bool>, s: int) -> bool {
    forall|k: int| 0 <= k < 9 ==> #[trigger] hits[(s + k) % 16]
}

proof fn lemma_arc(hits: Seq<bool>, r: int)
    requires
        hits.len() == 16,
        exists|s: int| run_at(hits, s, r),
        forall|s: int, k: int| run_at(hits, s, k) ==> k <= r,
    ensures
        r >= 9 <==> exists|s: int| 0 <= s < 16 && #[trigger] nine_from(hits, s),
{
    if r >= 9 {
        let s = choose|s: int| run_at(hits, s, r);
        let s0 = s % 16;
        assert forall|k: int| 0 <= k < 9 implies #[trigger] hits[(s0 + k) % 16] by {
            assert((s0 + k) % 16 == (s + k) % 16);
            assert(hits[(s + k) % 16]);
        }
        assert(nine_from(hits, s0));
    }
    if exists|s: int| 0 <= s < 16 && #[trigger] nine_from(hits, s) {
        let s = choose|s: int| 0 <= s < 16 && #[trigger] nine_from(hits, s);
        assert(run_at(hits, s, 9)) by {
            assert forall|j: int| s <= j < s + 9 implies #[trigger] hits[j % 16] by {
                let k = j - s;
                assert((s + k) % 16 == j % 16);
                assert(hits[(s + k) % 16]);
            }
        }
    }
}

/// Whether the pixel passes the segment test, and its contrast.
fn examine(img: &[u8], w: usize, h: usize, x: usize, y: usize, t: u8) -> (r: (bool, u16))
    requires
        img.len() == w * h,
        w * h <= i32::MAX,
        3 <= x < w - 3,
        3 <= y < h - 3,
    ensures
        r.0 == passes(img@, w as int, x as int, y as int, t as int),
        r.1 == contrast(img@, w as int, x as int, y as int, 16),
{
    let mut bright: [bool; 16] = [false; 16];
    let mut dark: [bool; 16] = [false; 16];
    let mut score: u16 = 0;
    proof {
        frame::lemma_pixel_index_in_range(w as int, h as int, x as int, y as int);
    }
    let c: i32 = img[y * w + x] as i32;
    let limit: i32 = t as i32;
    let mut i: usize = 0;
    while i < 16
        invariant
            i <= 16,
            img.len() == w * h,
            w * h <= i32::MAX,
            3 <= x < w - 3,
            3 <= y < h - 3,
            c == gray(img@, w as int, x as int, y as int),
            limit == t,
            score == contrast(img@, w as int, x as int, y as int, i as int),
            forall|k: int|
                0 <= k < i ==> #[trigger] bright@[k] == brighter(
                    img@,
                    w as int,
                    x as int,
                    y as int,
                    t as int,
                    k,
                ),
            forall|k: int|
                0 <= k < i ==> #[trigger] dark@[k] == darker(
                    img@,
                    w as int,
                    x as int,
                    y as int,
                    t as int,
                    k,
                ),
        decreases 16 - i,
    {
        let (dx, dy) = circle_offset(i);
        proof {
            frame::lemma_pixel_index_in_range(w as int, h as int, x + dx, y + dy);
            assert(w <= w * h && h <= w * h) by (nonlinear_arith)
                requires
                    w > 0,
                    h > 0,
            ;
            lemma_contrast_range(img@, w as int, x as int, y as int, i as int);
        }
        let px: usize = (x as i32 + dx) as usize;
        let py: usize = (y as i32 + dy) as usize;
        let v: i32 = img[py * w + px] as i32;
        let d: i32 = if v < c {
            c - v
        } else {
            v - c
        };
        score = score + d as u16;
        bright[i] = v > c + limit;
        dark[i] = v < c - limit;
        i += 1;
    }
    let rb: usize = longest_run(bright);
    let rd: usize = longest_run(dark);
    proof {
        let (wi, xi, yi, ti) = (w as int, x as int, y as int, t as int);
        lemma_arc(bright@, rb as int);
        lemma_arc(dark@, rd as int);
        assert forall|s: int| 0 <= s < 16 implies (#[trigger] bright_arc(img@, wi, xi, yi, ti, s)
            <==> nine_from(bright@, s)) by {
            if bright_arc(img@, wi, xi, yi, ti, s) {
                assert forall|k: int| 0 <= k < 9 implies #[trigger] bright@[(s + k) % 16] by {
                    assert(brighter(img@, wi, xi, yi, ti, (s + k) % 16));
                }
            } else {
                let k = choose|k: int|
                    0 <= k < 9 && !(#[trigger] brighter(img@, wi, xi, yi, ti, (s + k) % 16));
                assert(!bright@[(s + k) % 16]);
            }
        }
        assert forall|s: int| 0 <= s < 16 implies (#[trigger] dark_arc(img@, wi, xi, yi, ti, s)
            <==> nine_from(dark@, s)) by {
            if dark_arc(img@, wi, xi, yi, ti, s) {
                assert forall|k: int| 0 <= k < 9 implies #[trigger] dark@[(s + k) % 16] by {
                    assert(darker(img@, wi, xi, yi, ti, (s + k) % 16));
                }
            } else {
                let k = choose|k: int|
                    0 <= k < 9 && !(#[trigger] darker(img@, wi, xi, yi, ti, (s + k) % 16));
                assert(!dark@[(s + k) % 16]);
            }
        }
        if rb >= 9 {
            let s = choose|s: int| 0 <= s < 16 && #[trigger] nine_from(bright@, s);
            assert(bright_arc(img@, wi, xi, yi, ti, s));
        }
        if rd >= 9 {
            let s = choose|s: int| 0 <= s < 16 && #[trigger] nine_from(dark@, s);
            assert(dark_arc(img@, wi, xi, yi, ti, s));
        }
    }
    (rb >= 9 || rd >= 9, score)
}

/// The candidates of the image, row by row.
fn candidates(img: &[u8], w: usize, h: usize, t: u8) -> (r: Vec<Scored>)
    requires
        img.len() == w * h,
        w * h <= i32::MAX,
        w <= u32::MAX,
        h <= u32::MAX,
    ensures
        apart(r@),
        forall|i: int|
            0 <= i < r.len() ==> {
                &&& is_candidate(img@, w as int, h as int, t as int, (#[trigger] r@[i]).at)
                &&& r@[i].score == strength(img@, w as int, r@[i].at)
            },
        forall|c: Corner|
            is_candidate(img@, w as int, h as int, t as int, c) ==> exists|i: int|
                0 <= i < r.len() && (#[trigger] r@[i]).at == c,
{
    let mut out: Vec<Scored> = Vec::new();
    if w < 7 || h < 7 {
        return out;
    }
    let mut y: usize = 3;
    while y < h - 3
        invariant
            img.len() == w * h,
            w * h <= i32::MAX,
            7 <= w <= u32::MAX,
            7 <= h <= u32::MAX,
            3 <= y <= h - 3,
            apart(out@),
            forall|i: int|
                0 <= i < out.len() ==> {
                    &&& is_candidate(img@, w as int, h as int, t as int, (#[trigger] out@[i]).at)
                    &&& out@[i].score == strength(img@, w as int, out@[i].at)
                    &&& out@[i].at.y < y
                },
            forall|c: Corner|
                is_candidate(img@, w as int, h as int, t as int, c) && c.y < y ==> exists|i: int|
                    0 <= i < out.len() && (#[trigger] out@[i]).at == c,
        decreases h - y,
    {
        let mut x: usize = 3;
        while x < w - 3
            invariant
                img.len() == w * h,
                w * h <= i32::MAX,
                7 <= w <= u32::MAX,
                7 <= h <= u32::MAX,
                3 <= y < h - 3,
                3 <= x <= w - 3,
                apart(out@),
                forall|i: int|
                    0 <= i < out.len() ==> {
                        &&& is_candidate(
                            img@,
                            w as int,
                            h as int,
                            t as int,
                            (#[trigger] out@[i]).at,
                        )
                        &&& out@[i].score == strength(img@, w as int, out@[i].at)
                        &&& out@[i].at.y < y || (out@[i].at.y == y && out@[i].at.x < x)
                    },
                forall|c: Corner|
                    is_candidate(img@, w as int, h as int, t as int, c) && (c.y < y || (c.y == y
                        && c.x < x)) ==> exists|i: int|
                        0 <= i < out.len() && (#[trigger] out@[i]).at == c,
            decreases w - x,
        {
            let (hit, score) = examine(img, w, h, x, y, t);
            let ghost done = out@;
            if hit {
                out.push(Scored { at: Corner { x: x as u32, y: y as u32 }, score });
                assert(out@.last().at == Corner { x: x as u32, y: y as u32 });
            }
            proof {
                assert forall|c: Corner|
                    is_candidate(img@, w as int, h as int, t as int, c) && (c.y < y || (c.y == y
                        && c.x < x + 1)) implies exists|i: int|
                    0 <= i < out.len() && (#[trigger] out@[i]).at == c by {
                    if c.y == y && c.x == x {
                        assert(out@[out.len() - 1].at == c);
                    } else {
                        let i = choose|i: int| 0 <= i < done.len() && (#[trigger] done[i]).at == c;
                        assert(out@[i].at == c);
                    }
                }
            }
            x += 1;
        }
        y += 1;
    }
    out
}

/// Whether a pixel is taken that touches this one, which lies inside the image.
fn occupied(taken: &Vec<bool>, w: usize, h: usize, x: usize, y: usize) -> (r: bool)
    requires
        taken.len() == w * h,
        w * h <= i32::MAX,
        1 <= x < w - 1,
        1 <= y < h - 1,
    ensures
        r == exists|dx: int, dy: int|
            -1 <= dx <= 1 && -1 <= dy <= 1 && #[trigger] taken@[frame::pixel_index(
                w as int,
                x + dx,
                y + dy,
            )],
{
    let mut yy: usize = y - 1;
    while yy <= y + 1
        invariant
            taken.len() == w * h,
            w * h <= i32::MAX,
            1 <= x < w - 1,
            1 <= y < h - 1,
            y - 1 <= yy <= y + 2,
            forall|dx: int, dy: int|
                -1 <= dx <= 1 && -1 <= dy < yy - y ==> !(#[trigger] taken@[frame::pixel_index(
                    w as int,
                    x + dx,
                    y + dy,
                )]),
        decreases y + 2 - yy,
    {
        let mut xx: usize = x - 1;
        while xx <= x + 1
            invariant
                taken.len() == w * h,
                w * h <= i32::MAX,
                1 <= x < w - 1,
                1 <= y < h - 1,
                y - 1 <= yy <= y + 1,
                x - 1 <= xx <= x + 2,
                forall|dx: int, dy: int|
                    -1 <= dx <= 1 && -1 <= dy < yy - y ==> !(#[trigger] taken@[frame::pixel_index(
                        w as int,
                        x + dx,
                        y + dy,
                    )]),
                forall|dx: int|
                    -1 <= dx < xx - x ==> !(#[trigger] taken@[frame::pixel_index(
                        w as int,
                        x + dx,
                        yy as int,
                    )]),
            decreases x + 2 - xx,
        {
            proof {
                frame::lemma_pixel_index_in_range(w as int, h as int, xx as int, yy as int);
            }
            if taken[yy * w + xx] {
                proof {
                    let (dx, dy) = (xx - x, yy - y);
                    assert(taken@[frame::pixel_index(w as int, x + dx, y + dy)]);
                }
                return true;
            }
            xx += 1;
        }
        proof {
            assert forall|dx: int, dy: int| -1 <= dx <= 1 && -1 <= dy < yy + 1 - y implies !(
            #[trigger] taken@[frame::pixel_index(w as int, x + dx, y + dy)]) by {
                if dy == yy - y {
                    assert(!taken@[frame::pixel_index(w as int, x + dx, yy as int)]);
                }
            }
        }
        yy += 1;
    }
    false
}

/// Detects the corners of a grayscale image: the pixels with nine neighbors in a
/// row on the circle around them that are all brighter or all darker by more than
/// `threshold`, the strongest first, without those that touch a stronger one.
pub fn detect_corners_fast(img: &[u8], width: u32, height: u32, threshold: u8) -> (r: Vec<
    Corner,
>)
    requires
        width * height <= i32::MAX,
        img.len() == width * height,
    ensures
        are_corners(img@, width as int, height as int, threshold as int, r@),
{
    let w: usize = width as usize;
    let h: usize = height as usize;
    let found = candidates(img, w, h, threshold);
    let ghost raw = found@;
    let sorted = sort(found);
    let ghost (wi, hi, ti) = (w as int, h as int, threshold as int);
    proof {
        assert forall|i: int| 0 <= i < sorted.len() implies {
            &&& is_candidate(img@, wi, hi, ti, (#[trigger] sorted@[i]).at)
            &&& sorted@[i].score == strength(img@, wi, sorted@[i].at)
        } by {
            assert(sorted@.contains(sorted@[i]));
            let m = choose|m: int| 0 <= m < raw.len() && raw[m] == sorted@[i];
            assert(raw[m].at == sorted@[i].at);
        }
        assert forall|c: Corner| is_candidate(img@, wi, hi, ti, c) implies exists|i: int|
            0 <= i < sorted.len() && (#[trigger] sorted@[i]).at == c by {
            let m = choose|m: int| 0 <= m < raw.len() && (#[trigger] raw[m]).at == c;
            assert(raw.contains(raw[m]));
            assert(sorted@.contains(raw[m]));
            let i = choose|i: int| 0 <= i < sorted.len() && sorted@[i] == raw[m];
            assert(sorted@[i].at == c);
        }
    }
    let mut kept: Vec<Corner> = Vec::new();
    let mut taken: Vec<bool> = vec![false; img.len()];
    proof {
        assert forall|c: Corner| c.x < w && c.y < h implies !(#[trigger] taken@[frame::pixel_index(
            wi,
            c.x as int,
            c.y as int,
        )]) by {
            frame::lemma_pixel_index_in_range(wi, hi, c.x as int, c.y as int);
        }
    }
    let mut k: usize = 0;
    while k < sorted.len()
        invariant
            k <= sorted.len(),
            w == width,
            h == height,
            wi == w,
            hi == h,
            ti == threshold,
            w * h <= i32::MAX,
            taken.len() == w * h,
            in_order(sorted@),
            forall|i: int|
                0 <= i < sorted.len() ==> {
                    &&& is_candidate(img@, wi, hi, ti, (#[trigger] sorted@[i]).at)
                    &&& sorted@[i].score == strength(img@, wi, sorted@[i].at)
                },
            forall|c: Corner|
                c.x < w && c.y < h ==> (#[trigger] taken@[frame::pixel_index(
                    wi,
                    c.x as int,
                    c.y as int,
                )] <==> kept@.contains(c)),
            forall|i: int|
                0 <= i < kept.len() ==> exists|m: int|
                    0 <= m < k && (#[trigger] sorted@[m]).at == #[trigger] kept@[i],
            forall|i: int, j: int|
                0 <= i < j < kept.len() ==> stronger(
                    img@,
                    wi,
                    #[trigger] kept@[i],
                    #[trigger] kept@[j],
                ),
            forall|m: int|
                0 <= m < k ==> (kept@.contains((#[trigger] sorted@[m]).at) <==> !beaten(
                    img@,
                    wi,
                    kept@,
                    sorted@[m].at,
                )),
        decreases sorted.len() - k,
    {
        let c = sorted[k].at;
        let ghost before = kept@;
        assert(is_candidate(img@, wi, hi, ti, sorted@[k as int].at));
        let x: usize = c.x as usize;
        let y: usize = c.y as usize;
        let blocked = occupied(&taken, w, h, x, y);
        proof {
            assert forall|i: int| 0 <= i < kept.len() implies stronger(
                img@,
                wi,
                #[trigger] kept@[i],
                c,
            ) by {
                let m = choose|m: int|
                    0 <= m < k && (#[trigger] sorted@[m]).at == #[trigger] kept@[i];
                assert(precedes(sorted@[m], sorted@[k as int]));
            }
            if blocked {
                let (dx, dy) = choose|dx: int, dy: int|
                    -1 <= dx <= 1 && -1 <= dy <= 1 && #[trigger] taken@[frame::pixel_index(
                        wi,
                        x + dx,
                        y + dy,
                    )];
                let d = Corner { x: (x + dx) as u32, y: (y + dy) as u32 };
                assert(taken@[frame::pixel_index(wi, d.x as int, d.y as int)]);
                let i = choose|i: int| 0 <= i < kept.len() && kept@[i] == d;
                assert(touching(kept@[i], c));
                assert(beaten(img@, wi, kept@, c));
            } else {
                assert forall|i: int| 0 <= i < kept.len() implies !touching(
                    #[trigger] kept@[i],
                    c,
                ) by {
                    let d = kept@[i];
                    if touching(d, c) {
                        let (dx, dy) = (d.x - c.x, d.y - c.y);
                        assert(kept@.contains(d));
                        assert(taken@[frame::pixel_index(wi, d.x as int, d.y as int)]);
                        assert(taken@[frame::pixel_index(wi, x + dx, y + dy)]);
                    }
                }
                assert(!beaten(img@, wi, kept@, c));
            }
        }
        if !blocked {
            proof {
                frame::lemma_pixel_index_in_range(wi, hi, c.x as int, c.y as int);
            }
            taken[y * w + x] = true;
            kept.push(c);
            proof {
                lemma_keep(img@, wi, before, c);
                assert forall|d: Corner| d.x < w && d.y < h implies (
                #[trigger] taken@[frame::pixel_index(wi, d.x as int, d.y as int)]
                    <==> kept@.contains(d)) by {
                    frame::lemma_pixel_index_in_range(wi, hi, d.x as int, d.y as int);
                    if frame::pixel_index(wi, d.x as int, d.y as int) == frame::pixel_index(
                        wi,
                        c.x as int,
                        c.y as int,
                    ) {
                        frame::lemma_pixel_index_injective(
                            wi,
                            d.x as int,
                            d.y as int,
                            c.x as int,
                            c.y as int,
                        );
                    }
                    assert(before.contains(d) ==> kept@.contains(d));
                }
                assert forall|m: int| 0 <= m < k implies (kept@.contains((#[trigger] sorted@[m]).at)
                    <==> !beaten(img@, wi, kept@, sorted@[m].at)) by {
                    let d = sorted@[m].at;
                    assert(precedes(sorted@[m], sorted@[k as int]));
                    assert(stronger(img@, wi, d, c));
                    assert(before.contains(d) <==> !beaten(img@, wi, before, d));
                }
                assert(kept@[kept.len() - 1] == sorted@[k as int].at);
            }
        }
        k += 1;
    }
    proof {
        assert forall|c: Corner| is_candidate(img@, wi, hi, ti, c) implies (kept@.contains(c)
            <==> !beaten(img@, wi, kept@, c)) by {
            let m = choose|m: int| 0 <= m < sorted.len() && (#[trigger] sorted@[m]).at == c;
            assert(kept@.contains(sorted@[m].at) <==> !beaten(img@, wi, kept@, c));
        }
    }
    kept
}

proof fn lemma_keep(img: Seq<u8>, w: int, kept: Seq<Corner>, c: Corner)
    ensures
        kept.push(c).contains(c),
        forall|d: Corner| #[trigger] kept.contains(d) ==> kept.push(c).contains(d),
        forall|d: Corner| #[trigger] kept.push(c).contains(d) ==> d == c || kept.contains(d),
        forall|d: Corner|
            !stronger(img, w, c, d) ==> (#[trigger] beaten(img, w, kept.push(c), d) <==> beaten(
                img,
                w,
                kept,
                d,
            )),
{
    let more = kept.push(c);
    assert(more[kept.len() as int] == c);
    assert forall|d: Corner| #[trigger] kept.contains(d) implies more.contains(d) by {
        let i = choose|i: int| 0 <= i < kept.len() && kept[i] == d;
        assert(more[i] == d);
    }
    assert forall|d: Corner| !stronger(img, w, c, d) implies (#[trigger] beaten(img, w, more, d)
        <==> beaten(img, w, kept, d)) by {
        if beaten(img, w, more, d) {
            let i = choose|i: int|
                0 <= i < more.len() && stronger(img, w, #[trigger] more[i], d) && touching(
                    more[i],
                    d,
                );
            assert(i < kept.len());
            assert(stronger(img, w, kept[i], d));
        }
        if beaten(img, w, kept, d) {
            let i = choose|i: int|
                0 <= i < kept.len() && stronger(img, w, #[trigger] kept[i], d) && touching(
                    kept[i],
                    d,
                );
            assert(more[i] == kept[i]);
        }
    }
}

/// No two corners of an image touch.
pub proof fn law_corners_do_not_touch(
    img: Seq<u8>,
    w: int,
    h: int,
    t: int,
    r: Seq<Corner>,
    i: int,
    j: int,
)
    requires
        are_corners(img, w, h, t, r),
        0 <= i < r.len(),
        0 <= j < r.len(),
        i != j,
    ensures
        !touching(r[i], r[j]),
{
    let (a, b) = if i < j {
        (i, j)
    } else {
        (j, i)
    };
    assert(stronger(img, w, r[a], r[b]));
    assert(is_candidate(img, w, h, t, r[b]));
    assert(r.contains(r[b]));
    assert(!beaten(img, w, r, r[b]));
}

/// An image has one list of corners.
pub proof fn law_corners_are_determined(
    img: Seq<u8>,
    w: int,
    h: int,
    t: int,
    r1: Seq<Corner>,
    r2: Seq<Corner>,
)
    requires
        are_corners(img, w, h, t, r1),
        are_corners(img, w, h, t, r2),
    ensures
        r1 == r2,
{
    if r1.len() <= r2.len() {
        lemma_same_prefix(img, w, h, t, r1, r2, r1.len() as int);
        if r1.len() < r2.len() {
            lemma_next_is_shared(img, w, h, t, r2, r1, r1.len() as int);
        }
    } else {
        lemma_same_prefix(img, w, h, t, r1, r2, r2.len() as int);
        lemma_next_is_shared(img, w, h, t, r1, r2, r2.len() as int);
    }
    assert(r1 =~= r2);
}

/// Where the first `n` corners agree, the next one of `r1` stands in `r2` too.
proof fn lemma_next_is_shared(
    img: Seq<u8>,
    w: int,
    h: int,
    t: int,
    r1: Seq<Corner>,
    r2: Seq<Corner>,
    n: int,
)
    requires
        are_corners(img, w, h, t, r1),
        are_corners(img, w, h, t, r2),
        0 <= n < r1.len(),
        n <= r2.len(),
        forall|i: int| 0 <= i < n ==> r1[i] == r2[i],
    ensures
        exists|i: int| n <= i < r2.len() && r2[i] == r1[n],
{
    let c = r1[n];
    assert(is_candidate(img, w, h, t, c));
    assert(r1.contains(c));
    if beaten(img, w, r2, c) {
        let i = choose|i: int|
            0 <= i < r2.len() && stronger(img, w, #[trigger] r2[i], c) && touching(r2[i], c);
        let d = r2[i];
        assert(is_candidate(img, w, h, t, d));
        assert(r2.contains(d));
        if r1.contains(d) {
            let j = choose|j: int| 0 <= j < r1.len() && r1[j] == d;
            assert(beaten(img, w, r1, c));
        } else {
            let j = choose|j: int|
                0 <= j < r1.len() && stronger(img, w, #[trigger] r1[j], d) && touching(r1[j], d);
            assert(stronger(img, w, r1[j], c));
            if j >= n {
                assert(j == n || stronger(img, w, r1[n], r1[j]));
            }
            assert(r2[j] == r1[j]);
            assert(beaten(img, w, r2, d));
        }
    }
    assert(r2.contains(c));
    let i = choose|i: int| 0 <= i < r2.len() && r2[i] == c;
    if i < n {
        assert(r1[i] == r1[n]);
        assert(stronger(img, w, r1[i], r1[n]));
    }
}

proof fn lemma_same_prefix(
    img: Seq<u8>,
    w: int,
    h: int,
    t: int,
    r1: Seq<Corner>,
    r2: Seq<Corner>,
    n: int,
)
    requires
        are_corners(img, w, h, t, r1),
        are_corners(img, w, h, t, r2),
        0 <= n <= r1.len(),
        n <= r2.len(),
    ensures
        forall|i: int| 0 <= i < n ==> r1[i] == r2[i],
    decreases n,
{
    if n > 0 {
        let m = n - 1;
        lemma_same_prefix(img, w, h, t, r1, r2, m);
        lemma_next_is_shared(img, w, h, t, r1, r2, m);
        lemma_next_is_shared(img, w, h, t, r2, r1, m);
        let i = choose|i: int| m <= i < r2.len() && r2[i] == r1[m];
        let j = choose|j: int| m <= j < r1.len() && r1[j] == r2[m];
        if i > m {
            assert(stronger(img, w, r2[m], r2[i]));
            if j > m {
                assert(stronger(img, w, r1[m], r1[j]));
            }
        }
    }
}

/// The sixteen pixels of the circle around a pixel, clockwise from the one three rows
/// above it.
pub open spec fn ring(img: Seq<u8>, w: int, x: int, y: int) -> Seq<u8> {
    seq![
        img[(y - 3) * w + x],
        img[(y - 3) * w + x + 1],
        img[(y - 2) * w + x + 2],
        img[(y - 1) * w + x + 3],
        img[y * w + x + 3],
        img[(y + 1) * w + x + 3],
        img[(y + 2) * w + x + 2],
        img[(y + 3) * w + x + 1],
        img[(y + 3) * w + x],
        img[(y + 3) * w + x - 1],
        img[(y + 2) * w + x - 2],
        img[(y + 1) * w + x - 3],
        img[y * w + x - 3],
        img[(y - 1) * w + x - 3],
        img[(y - 2) * w + x - 2],
        img[(y - 3) * w + x - 1],
    ]
}

proof fn lemma_ring(img: Seq<u8>, w: int, x: int, y: int)
    ensures
        forall|i: int| 0 <= i < 16 ==> #[trigger] ring(img, w, x, y)[i] == circle_gray(img, w, x, y, i),
{
    assert(circle_gray(img, w, x, y, 0) == img[(y - 3) * w + x]);
    assert(circle_gray(img, w, x, y, 1) == img[(y - 3) * w + x + 1]);
    assert(circle_gray(img, w, x, y, 2) == img[(y - 2) * w + x + 2]);
    assert(circle_gray(img, w, x, y, 3) == img[(y - 1) * w + x + 3]);
    assert(circle_gray(img, w, x, y, 4) == img[y * w + x + 3]);
    assert(circle_gray(img, w, x, y, 5) == img[(y + 1) * w + x + 3]);
    assert(circle_gray(img, w, x, y, 6) == img[(y + 2) * w + x + 2]);
    assert(circle_gray(img, w, x, y, 7) == img[(y + 3) * w + x + 1]);
    assert(circle_gray(img, w, x, y, 8) == img[(y + 3) * w + x]);
    assert(circle_gray(img, w, x, y, 9) == img[(y + 3) * w + x - 1]);
    assert(circle_gray(img, w, x, y, 10) == img[(y + 2) * w + x - 2]);
    assert(circle_gray(img, w, x, y, 11) == img[(y + 1) * w + x - 3]);
    assert(circle_gray(img, w, x, y, 12) == img[y * w + x - 3]);
    assert(circle_gray(img, w, x, y, 13) == img[(y - 1) * w + x - 3]);
    assert(circle_gray(img, w, x, y, 14) == img[(y - 2) * w + x - 2]);
    assert(circle_gray(img, w, x, y, 15) == img[(y - 3) * w + x - 1]);
}

/// The circle is round: its pixels lie about three pixels from the center, each next
/// to the one before, opposite ones are each other's mirror images, and a quarter of
/// the circle is a quarter turn. It starts above the center and goes to the right.
pub proof fn law_circle_is_round(i: int)
    requires
        0 <= i < 16,
    ensures
        ({
            let (x, y) = circle(i);
            let (x1, y1) = circle((i + 1) % 16);
            let (x4, y4) = circle((i + 4) % 16);
            let (x8, y8) = circle((i + 8) % 16);
            &&& 8 <= x * x + y * y <= 10
            &&& -1 <= x1 - x <= 1 && -1 <= y1 - y <= 1 && (x1 != x || y1 != y)
            &&& x4 == -y && y4 == x
            &&& x8 == -x && y8 == -y
            &&& i == 0 ==> x == 0 && y == -3 && x1 == 1
        }),
{
    let (x, y) = circle(i);
    lemma_small_square(x);
    lemma_small_square(y);
}

proof fn lemma_small_square(v: int)
    by (nonlinear_arith)
    requires
        -3 <= v <= 3,
    ensures
        v * v == if v == 0 {
            0int
        } else if v == 1 || v == -1 {
            1
        } else if v == 2 || v == -2 {
            4
        } else {
            9
        },
{
}

/// The sixteen differences between a pixel and its circle, without their signs, added
/// up.
pub open spec fn total_difference(img: Seq<u8>, w: int, x: int, y: int) -> nat {
    let at = ring(img, w, x, y);
    let c = img[y * w + x];
    vstd::math::abs(at[0] - c)
        + vstd::math::abs(at[1] - c)
        + vstd::math::abs(at[2] - c)
        + vstd::math::abs(at[3] - c)
        + vstd::math::abs(at[4] - c)
        + vstd::math::abs(at[5] - c)
        + vstd::math::abs(at[6] - c)
        + vstd::math::abs(at[7] - c)
        + vstd::math::abs(at[8] - c)
        + vstd::math::abs(at[9] - c)
        + vstd::math::abs(at[10] - c)
        + vstd::math::abs(at[11] - c)
        + vstd::math::abs(at[12] - c)
        + vstd::math::abs(at[13] - c)
        + vstd::math::abs(at[14] - c)
        + vstd::math::abs(at[15] - c)
}

/// Nine in a row on a circle, from the `s`th on, lie above a limit.
pub open spec fn nine_above(at: Seq<u8>, limit: int, s: int) -> bool {
    forall|k: int| s <= k < s + 9 ==> #[trigger] at[k % 16] > limit
}

/// Nine in a row on a circle, from the `s`th on, lie below a limit.
pub open spec fn nine_below(at: Seq<u8>, limit: int, s: int) -> bool {
    forall|k: int| s <= k < s + 9 ==> #[trigger] at[k % 16] < limit
}

/// The strength of a corner is how much its circle differs from it, all around.
pub proof fn law_strength_adds_differences(img: Seq<u8>, w: int, c: Corner)
    ensures
        strength(img, w, c) == total_difference(img, w, c.x as int, c.y as int),
{
    let (x, y) = (c.x as int, c.y as int);
    lemma_ring(img, w, x, y);
    let at = ring(img, w, x, y);
    reveal_with_fuel(contrast, 17);
    assert forall|i: int| 0 <= i < 16 implies difference(
        #[trigger] circle_gray(img, w, x, y, i),
        gray(img, w, x, y),
    ) == vstd::math::abs(at[i] - gray(img, w, x, y)) by {
        assert(at[i] == circle_gray(img, w, x, y, i));
    }
}

/// Nine pixels in a row on the circle around a pixel are all brighter than it by more
/// than `t`, or all darker.
pub open spec fn stands_out(img: Seq<u8>, w: int, x: int, y: int, t: int) -> bool {
    let at = ring(img, w, x, y);
    let center = img[y * w + x];
    ||| exists|s: int| 0 <= s < 16 && #[trigger] nine_above(at, center + t, s)
    ||| exists|s: int| 0 <= s < 16 && #[trigger] nine_below(at, center - t, s)
}

/// A corner right beside `c` differs more from its circle, or as much and is read
/// before it.
pub open spec fn outshone(img: Seq<u8>, w: int, r: Seq<Corner>, c: Corner) -> bool {
    exists|i: int|
        0 <= i < r.len() && -1 <= (#[trigger] r[i]).x - c.x <= 1 && -1 <= r[i].y - c.y <= 1 && {
            let other = total_difference(img, w, r[i].x as int, r[i].y as int);
            let own = total_difference(img, w, c.x as int, c.y as int);
            other > own || other == own && (r[i].y < c.y || r[i].y == c.y && r[i].x < c.x)
        }
}

proof fn lemma_segment_test(img: Seq<u8>, w: int, x: int, y: int, t: int)
    ensures
        passes(img, w, x, y, t) == stands_out(img, w, x, y, t),
{
    let at = ring(img, w, x, y);
    let c = img[y * w + x];
    lemma_ring(img, w, x, y);
    assert forall|s: int| 0 <= s < 16 implies #[trigger] bright_arc(img, w, x, y, t, s)
        == nine_above(at, c + t, s) by {
        if nine_above(at, c + t, s) {
            assert forall|k: int| 0 <= k < 9 implies #[trigger] brighter(
                img,
                w,
                x,
                y,
                t,
                (s + k) % 16,
            ) by {
                assert(at[(s + k) % 16] > c + t);
            }
        }
        if bright_arc(img, w, x, y, t, s) {
            assert forall|k: int| s <= k < s + 9 implies #[trigger] at[k % 16] > c + t by {
                assert(brighter(img, w, x, y, t, (s + (k - s)) % 16));
            }
        }
    }
    assert forall|s: int| 0 <= s < 16 implies #[trigger] dark_arc(img, w, x, y, t, s)
        == nine_below(at, c - t, s) by {
        if nine_below(at, c - t, s) {
            assert forall|k: int| 0 <= k < 9 implies #[trigger] darker(
                img,
                w,
                x,
                y,
                t,
                (s + k) % 16,
            ) by {
                assert(at[(s + k) % 16] < c - t);
            }
        }
        if dark_arc(img, w, x, y, t, s) {
            assert forall|k: int| s <= k < s + 9 implies #[trigger] at[k % 16] < c - t by {
                assert(darker(img, w, x, y, t, (s + (k - s)) % 16));
            }
        }
    }
    if passes(img, w, x, y, t) {
        if exists|s: int| 0 <= s < 16 && #[trigger] bright_arc(img, w, x, y, t, s) {
            let s = choose|s: int| 0 <= s < 16 && #[trigger] bright_arc(img, w, x, y, t, s);
            assert(nine_above(at, c + t, s));
        } else {
            let s = choose|s: int| 0 <= s < 16 && #[trigger] dark_arc(img, w, x, y, t, s);
            assert(nine_below(at, c - t, s));
        }
    }
    if exists|s: int| 0 <= s < 16 && #[trigger] nine_above(at, c + t, s) {
        let s = choose|s: int| 0 <= s < 16 && #[trigger] nine_above(at, c + t, s);
        assert(bright_arc(img, w, x, y, t, s));
    }
    if exists|s: int| 0 <= s < 16 && #[trigger] nine_below(at, c - t, s) {
        let s = choose|s: int| 0 <= s < 16 && #[trigger] nine_below(at, c - t, s);
        assert(dark_arc(img, w, x, y, t, s));
    }
}

/// A pixel three or more pixels inside the image, with nine pixels in a row on its
/// circle that are all brighter than it by more than the threshold, or all darker, is
/// a corner, unless a corner right beside it differs more from its circle, or as much
/// and is read before it. No other pixel is a corner.
pub proof fn law_nine_in_a_row_make_a_corner(
    img: &[u8],
    width: u32,
    height: u32,
    threshold: u8,
    r: Vec<Corner>,
    c: Corner,
)
    requires
        width * height <= i32::MAX,
        img.len() == width * height,
        call_ensures(detect_corners_fast, (img, width, height, threshold), r),
    ensures
        r@.contains(c) <==> {
            &&& 3 <= c.x < width - 3
            &&& 3 <= c.y < height - 3
            &&& stands_out(img@, width as int, c.x as int, c.y as int, threshold as int)
            &&& !outshone(img@, width as int, r@, c)
        },
{
    let (w, h, t) = (width as int, height as int, threshold as int);
    lemma_segment_test(img@, w, c.x as int, c.y as int, t);
    law_strength_adds_differences(img@, w, c);
    assert forall|i: int| 0 <= i < r.len() implies strength(img@, w, #[trigger] r@[i])
        == total_difference(img@, w, r@[i].x as int, r@[i].y as int) by {
        law_strength_adds_differences(img@, w, r@[i]);
    }
    assert(outshone(img@, w, r@, c) <==> beaten(img@, w, r@, c)) by {
        if beaten(img@, w, r@, c) {
            let i = choose|i: int|
                0 <= i < r.len() && stronger(img@, w, #[trigger] r@[i], c) && touching(r@[i], c);
            assert(-1 <= r@[i].x - c.x <= 1);
        }
        if outshone(img@, w, r@, c) {
            let i = choose|i: int|
                0 <= i < r.len() && -1 <= (#[trigger] r@[i]).x - c.x <= 1 && -1 <= r@[i].y - c.y
                    <= 1 && {
                    let other = total_difference(img@, w, r@[i].x as int, r@[i].y as int);
                    let own = total_difference(img@, w, c.x as int, c.y as int);
                    other > own || other == own && (r@[i].y < c.y || r@[i].y == c.y && r@[i].x
                        < c.x)
                };
            assert(stronger(img@, w, r@[i], c) && touching(r@[i], c));
        }
    }
    if r@.contains(c) {
        let m = choose|m: int| 0 <= m < r.len() && r@[m] == c;
        assert(is_candidate(img@, w, h, t, r@[m]));
    }
    assert(is_candidate(img@, w, h, t, c) ==> (r@.contains(c) <==> !beaten(img@, w, r@, c)));
}

/// Nine pixels in a row that are all brighter, or all darker, put a corner on the
/// pixel or right beside it.
pub proof fn law_arc_puts_corner_nearby(
    img: &[u8],
    width: u32,
    height: u32,
    threshold: u8,
    r: Vec<Corner>,
    c: Corner,
    s: int,
)
    requires
        width * height <= i32::MAX,
        img.len() == width * height,
        call_ensures(detect_corners_fast, (img, width, height, threshold), r),
        3 <= c.x < width - 3,
        3 <= c.y < height - 3,
        0 <= s < 16,
        ({
            let at = ring(img@, width as int, c.x as int, c.y as int);
            let center = img@[c.y * width + c.x];
            ||| forall|k: int| 0 <= k < 9 ==> #[trigger] at[(s + k) % 16] > center + threshold
            ||| forall|k: int| 0 <= k < 9 ==> #[trigger] at[(s + k) % 16] < center - threshold
        }),
    ensures
        exists|i: int|
            0 <= i < r.len() && -1 <= (#[trigger] r@[i]).x - c.x <= 1 && -1 <= r@[i].y - c.y <= 1,
{
    let (w, h, t) = (width as int, height as int, threshold as int);
    let at = ring(img@, w, c.x as int, c.y as int);
    let center = img@[c.y * width + c.x];
    assert(forall|k: int| s <= k < s + 9 ==> #[trigger] at[k % 16] == at[(s + (k - s)) % 16]);
    if forall|k: int| 0 <= k < 9 ==> #[trigger] at[(s + k) % 16] > center + threshold {
        assert forall|k: int| s <= k < s + 9 implies #[trigger] at[k % 16] > center + t by {
            assert(at[(s + (k - s)) % 16] > center + threshold);
        }
        assert(nine_above(at, center + t, s));
    } else {
        assert forall|k: int| s <= k < s + 9 implies #[trigger] at[k % 16] < center - t by {
            assert(at[(s + (k - s)) % 16] < center - threshold);
        }
        assert(nine_below(at, center - t, s));
    }
    lemma_segment_test(img@, w, c.x as int, c.y as int, t);
    assert(is_candidate(img@, w, h, t, c));
    if r@.contains(c) {
        let i = choose|i: int| 0 <= i < r.len() && r@[i] == c;
        assert(r@[i].x - c.x == 0);
    } else {
        let i = choose|i: int|
            0 <= i < r.len() && stronger(img@, w, #[trigger] r@[i], c) && touching(r@[i], c);
        assert(touching(r@[i], c));
    }
}

/// Corners stand in the order of how much they differ from their circles, most first,
/// and as the image is read where they differ as much.
pub proof fn law_corners_stand_in_order(
    img: &[u8],
    width: u32,
    height: u32,
    threshold: u8,
    r: Vec<Corner>,
    i: int,
    j: int,
)
    requires
        width * height <= i32::MAX,
        img.len() == width * height,
        call_ensures(detect_corners_fast, (img, width, height, threshold), r),
        0 <= i < j < r.len(),
    ensures
        ({
            let (a, b) = (r@[i], r@[j]);
            let first = total_difference(img@, width as int, a.x as int, a.y as int);
            let second = total_difference(img@, width as int, b.x as int, b.y as int);
            first > second || first == second && (a.y < b.y || a.y == b.y && a.x < b.x)
        }),
{
    law_strength_adds_differences(img@, width as int, r@[i]);
    law_strength_adds_differences(img@, width as int, r@[j]);
    assert(stronger(img@, width as int, r@[i], r@[j]));
}

/// The longest run is at least as long as any run on the circle, and shorter than `k`
/// where `k` places in a row always hold a gap.
pub proof fn law_no_run_is_longer(
    hits: [bool; 16],
    r: usize,
    s: int,
    k: int,
    n: int,
    gaps: Seq<int>,
)
    requires
        call_ensures(longest_run, (hits,), r),
        0 <= s < 16,
        0 <= k <= 16,
        forall|j: int| s <= j < s + k ==> #[trigger] hits@[j % 16],
        forall|p: int|
            0 <= p < 16 ==> p <= #[trigger] gaps[p] < p + n && !hits@[gaps[p] % 16],
    ensures
        k <= r < n,
        r <= 16,
{
    assert(run_at(hits@, s, k));
    let p = choose|p: int| run_at(hits@, p, r as int);
    assert(p <= gaps[p] < p + n);
    if r >= n {
        assert(hits@[gaps[p] % 16]);
    }
}

/// All sixteen hits make a run of sixteen.
pub proof fn law_full_circle_is_one_run(hits: [bool; 16], r: usize)
    requires
        call_ensures(longest_run, (hits,), r),
        forall|j: int| 0 <= j < 16 ==> #[trigger] hits@[j],
    ensures
        r == 16,
{
    assert(run_at(hits@, 0, 16));
}

/// Where any nine pixels in a row on the circle hold one that is not brighter, and one
/// that is not darker, there is no corner: eight in a row are not enough.
pub proof fn law_shorter_arc_is_no_corner(
    img: &[u8],
    width: u32,
    height: u32,
    threshold: u8,
    r: Vec<Corner>,
    c: Corner,
    not_brighter: Seq<int>,
    not_darker: Seq<int>,
)
    requires
        width * height <= i32::MAX,
        img.len() == width * height,
        call_ensures(detect_corners_fast, (img, width, height, threshold), r),
        forall|s: int|
            0 <= s < 16 ==> s <= #[trigger] not_brighter[s] < s + 9 && ring(
                img@,
                width as int,
                c.x as int,
                c.y as int,
            )[not_brighter[s] % 16] <= img@[c.y * width + c.x] + threshold,
        forall|s: int|
            0 <= s < 16 ==> s <= #[trigger] not_darker[s] < s + 9 && ring(
                img@,
                width as int,
                c.x as int,
                c.y as int,
            )[not_darker[s] % 16] >= img@[c.y * width + c.x] - threshold,
    ensures
        !r@.contains(c),
{
    let (w, x, y, t) = (width as int, c.x as int, c.y as int, threshold as int);
    let at = ring(img@, w, x, y);
    let center = img@[y * w + x];
    law_nine_in_a_row_make_a_corner(img, width, height, threshold, r, c);
    assert forall|s: int| 0 <= s < 16 implies !(#[trigger] nine_above(at, center + t, s)) by {
        let k = not_brighter[s];
        assert(at[k % 16] <= center + t);
    }
    assert forall|s: int| 0 <= s < 16 implies !(#[trigger] nine_below(at, center - t, s)) by {
        let k = not_darker[s];
        assert(at[k % 16] >= center - t);
    }
}

/// An image turned into its negative has the same corners.
pub proof fn law_negative_has_same_corners(
    img: &[u8],
    negative: &[u8],
    width: u32,
    height: u32,
    threshold: u8,
    r: Vec<Corner>,
    n: Vec<Corner>,
)
    requires
        width * height <= i32::MAX,
        img.len() == width * height,
        negative.len() == img.len(),
        forall|i: int| 0 <= i < img.len() ==> #[trigger] negative@[i] == 255 - img@[i],
        call_ensures(detect_corners_fast, (img, width, height, threshold), r),
        call_ensures(detect_corners_fast, (negative, width, height, threshold), n),
    ensures
        r@ == n@,
{
    let (w, h, t) = (width as int, height as int, threshold as int);
    assert forall|c: Corner|
        3 <= c.x < w - 3 && 3 <= c.y < h - 3 implies #[trigger] passes(
        negative@,
        w,
        c.x as int,
        c.y as int,
        t,
    ) == passes(img@, w, c.x as int, c.y as int, t) && strength(negative@, w, c) == strength(
        img@,
        w,
        c,
    ) by {
        lemma_negative_pixel(img@, negative@, w, h, t, c);
    }
    assert(are_corners(img@, w, h, t, n@)) by {
        assert forall|i: int| 0 <= i < n.len() implies is_candidate(
            img@,
            w,
            h,
            t,
            #[trigger] n@[i],
        ) by {
            assert(is_candidate(negative@, w, h, t, n@[i]));
            let c = n@[i];
            assert(passes(negative@, w, c.x as int, c.y as int, t));
        }
        assert forall|i: int, j: int| 0 <= i < j < n.len() implies stronger(
            img@,
            w,
            #[trigger] n@[i],
            #[trigger] n@[j],
        ) by {
            assert(stronger(negative@, w, n@[i], n@[j]));
            let (a, b) = (n@[i], n@[j]);
            assert(is_candidate(negative@, w, h, t, a) && is_candidate(negative@, w, h, t, b));
            assert(passes(negative@, w, a.x as int, a.y as int, t));
            assert(passes(negative@, w, b.x as int, b.y as int, t));
        }
        assert forall|c: Corner| is_candidate(img@, w, h, t, c) implies (#[trigger] n@.contains(c)
            <==> !beaten(img@, w, n@, c)) by {
            assert(passes(negative@, w, c.x as int, c.y as int, t) == passes(
                img@,
                w,
                c.x as int,
                c.y as int,
                t,
            ));
            assert(is_candidate(negative@, w, h, t, c));
            assert(n@.contains(c) <==> !beaten(negative@, w, n@, c));
            assert forall|i: int| 0 <= i < n.len() implies stronger(negative@, w, #[trigger] n@[i], c)
                == stronger(img@, w, n@[i], c) by {
                let a = n@[i];
                assert(is_candidate(negative@, w, h, t, a));
                assert(passes(negative@, w, a.x as int, a.y as int, t));
            }
            if beaten(img@, w, n@, c) {
                let i = choose|i: int|
                    0 <= i < n.len() && stronger(img@, w, #[trigger] n@[i], c) && touching(n@[i], c);
                assert(stronger(negative@, w, n@[i], c));
            }
            if beaten(negative@, w, n@, c) {
                let i = choose|i: int|
                    0 <= i < n.len() && stronger(negative@, w, #[trigger] n@[i], c) && touching(
                        n@[i],
                        c,
                    );
                assert(stronger(img@, w, n@[i], c));
            }
        }
    }
    law_corners_are_determined(img@, w, h, t, r@, n@);
}

proof fn lemma_negative_pixel(
    img: Seq<u8>,
    negative: Seq<u8>,
    w: int,
    h: int,
    t: int,
    c: Corner,
)
    requires
        img.len() == w * h,
        negative.len() == img.len(),
        forall|i: int| 0 <= i < img.len() ==> #[trigger] negative[i] == 255 - img[i],
        3 <= c.x < w - 3,
        3 <= c.y < h - 3,
    ensures
        passes(negative, w, c.x as int, c.y as int, t) == passes(
            img,
            w,
            c.x as int,
            c.y as int,
            t,
        ),
        strength(negative, w, c) == strength(img, w, c),
{
    let (x, y) = (c.x as int, c.y as int);
    frame::lemma_pixel_index_in_range(w, h, x, y);
    assert forall|i: int| 0 <= i < 16 implies #[trigger] circle_gray(negative, w, x, y, i) == 255
        - circle_gray(img, w, x, y, i) by {
        let (dx, dy) = circle(i);
        assert(-3 <= dx <= 3 && -3 <= dy <= 3);
        frame::lemma_pixel_index_in_range(w, h, x + dx, y + dy);
    }
    assert forall|s: int| 0 <= s < 16 implies #[trigger] bright_arc(negative, w, x, y, t, s)
        == dark_arc(img, w, x, y, t, s) by {
        assert forall|k: int| 0 <= k < 9 implies #[trigger] brighter(
            negative,
            w,
            x,
            y,
            t,
            (s + k) % 16,
        ) == darker(img, w, x, y, t, (s + k) % 16) by {
            assert(circle_gray(negative, w, x, y, (s + k) % 16) == 255 - circle_gray(
                img,
                w,
                x,
                y,
                (s + k) % 16,
            ));
        }
        if bright_arc(negative, w, x, y, t, s) {
            assert forall|k: int| 0 <= k < 9 implies #[trigger] darker(
                img,
                w,
                x,
                y,
                t,
                (s + k) % 16,
            ) by {
                assert(brighter(negative, w, x, y, t, (s + k) % 16));
            }
        }
    }
    assert forall|s: int| 0 <= s < 16 implies #[trigger] dark_arc(negative, w, x, y, t, s)
        == bright_arc(img, w, x, y, t, s) by {
        assert forall|k: int| 0 <= k < 9 implies #[trigger] darker(
            negative,
            w,
            x,
            y,
            t,
            (s + k) % 16,
        ) == brighter(img, w, x, y, t, (s + k) % 16) by {
            assert(circle_gray(negative, w, x, y, (s + k) % 16) == 255 - circle_gray(
                img,
                w,
                x,
                y,
                (s + k) % 16,
            ));
        }
        if dark_arc(negative, w, x, y, t, s) {
            assert forall|k: int| 0 <= k < 9 implies #[trigger] brighter(
                img,
                w,
                x,
                y,
                t,
                (s + k) % 16,
            ) by {
                assert(darker(negative, w, x, y, t, (s + k) % 16));
            }
        }
    }
    if passes(img, w, x, y, t) {
        if exists|s: int| 0 <= s < 16 && #[trigger] bright_arc(img, w, x, y, t, s) {
            let s = choose|s: int| 0 <= s < 16 && #[trigger] bright_arc(img, w, x, y, t, s);
            assert(dark_arc(negative, w, x, y, t, s));
        } else {
            let s = choose|s: int| 0 <= s < 16 && #[trigger] dark_arc(img, w, x, y, t, s);
            assert(bright_arc(negative, w, x, y, t, s));
        }
    }
    if passes(negative, w, x, y, t) {
        if exists|s: int| 0 <= s < 16 && #[trigger] bright_arc(negative, w, x, y, t, s) {
            let s = choose|s: int| 0 <= s < 16 && #[trigger] bright_arc(negative, w, x, y, t, s);
            assert(dark_arc(img, w, x, y, t, s));
        } else {
            let s = choose|s: int| 0 <= s < 16 && #[trigger] dark_arc(negative, w, x, y, t, s);
            assert(bright_arc(img, w, x, y, t, s));
        }
    }
    lemma_negative_contrast(img, negative, w, x, y, 16);
}

proof fn lemma_negative_contrast(
    img: Seq<u8>,
    negative: Seq<u8>,
    w: int,
    x: int,
    y: int,
    n: int,
)
    requires
        0 <= n <= 16,
        gray(negative, w, x, y) == 255 - gray(img, w, x, y),
        forall|i: int|
            0 <= i < 16 ==> #[trigger] circle_gray(negative, w, x, y, i) == 255 - circle_gray(
                img,
                w,
                x,
                y,
                i,
            ),
    ensures
        contrast(negative, w, x, y, n) == contrast(img, w, x, y, n),
    decreases n,
{
    if n > 0 {
        lemma_negative_contrast(img, negative, w, x, y, n - 1);
        assert(circle_gray(negative, w, x, y, n - 1) == 255 - circle_gray(img, w, x, y, n - 1));
    }
}

} // verus!
