//! The state of frame-to-frame visual odometry: the frame that the next one is
//! tracked against, and what a new frame leads to.

use crate::features;
use crate::features::{detect_corners_fast, Corner};
use vstd::prelude::*;

verus! {

/// Threshold of the corner detection, in gray levels.
pub const FAST_THRESHOLD: u8 = 20;

/// The number of corners that a frame keeps at most.
pub const MAX_FEATURES: usize = 1500;

/// The corners of an image.
pub open spec fn corners_of(img: Seq<u8>, w: int, h: int) -> Seq<Corner> {
    choose|r: Seq<Corner>| features::are_corners(img, w, h, FAST_THRESHOLD as int, r)
}

/// The strongest corners of an image, as many as a frame keeps.
pub open spec fn kept_corners(img: Seq<u8>, w: int, h: int) -> Seq<Corner> {
    let all = corners_of(img, w, h);
    if all.len() > MAX_FEATURES {
        all.subrange(0, MAX_FEATURES as int)
    } else {
        all
    }
}

/// The frame that the next one is tracked against.
#[derive(Debug, Clone)]
pub struct KeyFrame {
    pub left: Vec<u8>,
    pub right: Vec<u8>,
    pub features: Vec<Corner>,
}

impl KeyFrame {
    /// The frame of these images, with the strongest corners of the left one.
    pub open spec fn holds(&self, left: Seq<u8>, right: Seq<u8>, w: int, h: int) -> bool {
        &&& self.left@ == left
        &&& self.right@ == right
        &&& self.features@ == kept_corners(left, w, h)
    }
}

/// What a frame leads to.
#[derive(Debug, Clone, Copy, PartialEq, Eq, Structural)]
pub enum Outcome {
    /// The first frame: its pose is the origin.
    Origin,
    /// The motion since the last frame is to be added to the pose.
    Moved,
    /// No motion was found: the pose is held, and the frame has none.
    Held,
}

/// Frame-to-frame visual odometry.
#[derive(Debug, Clone)]
pub struct VoPipeline {
    width: u32,
    height: u32,
    prev: Option<KeyFrame>,
    frames: u64,
}

impl VoPipeline {
    /// The width of the frames.
    pub closed spec fn frame_width(&self) -> int {
        self.width as int
    }

    /// The height of the frames.
    pub closed spec fn frame_height(&self) -> int {
        self.height as int
    }

    /// The frame that the next one is tracked against.
    pub closed spec fn last_frame(&self) -> Option<KeyFrame> {
        self.prev
    }

    /// The number of frames with a pose.
    pub closed spec fn posed(&self) -> nat {
        self.frames as nat
    }

    /// No frame yet, for frames of this size.
    pub fn new(width: u32, height: u32) -> (r: VoPipeline)
        ensures
            r.frame_width() == width,
            r.frame_height() == height,
            r.last_frame() is None,
            r.posed() == 0,
    {
        VoPipeline { width, height, prev: None, frames: 0 }
    }

    /// The frame that the next one is tracked against.
    pub fn keyframe(&self) -> (r: Option<&KeyFrame>)
        ensures
            match (r, self.last_frame()) {
                (Some(a), Some(b)) => *a == b,
                (None, None) => true,
                _ => false,
            },
    {
        match &self.prev {
            Some(k) => Some(k),
            None => None,
        }
    }

    /// Takes in a frame, after the motion since the last one was looked for.
    /// Whether or not it was found, the next frame is tracked against this one.
    pub fn process(&mut self, left: Vec<u8>, right: Vec<u8>, found: bool) -> (r: Outcome)
        requires
            old(self).frame_width() * old(self).frame_height() <= i32::MAX,
            left.len() == old(self).frame_width() * old(self).frame_height(),
            old(self).posed() < u64::MAX,
        ensures
            steps(*old(self), left@, right@, found, *final(self), r),
    {
        let mut corners = detect_corners_fast(
            left.as_slice(),
            self.width,
            self.height,
            FAST_THRESHOLD,
        );
        proof {
            let (w, h) = (self.width as int, self.height as int);
            let chosen = corners_of(left@, w, h);
            assert(features::are_corners(left@, w, h, FAST_THRESHOLD as int, corners@));
            features::law_corners_are_determined(
                left@,
                w,
                h,
                FAST_THRESHOLD as int,
                corners@,
                chosen,
            );
        }
        let ghost all = corners@;
        if corners.len() > MAX_FEATURES {
            corners.truncate(MAX_FEATURES);
            assert(corners@ =~= all.subrange(0, MAX_FEATURES as int));
        }
        let first = self.prev.is_none();
        self.prev = Some(KeyFrame { left, right, features: corners });
        if first || found {
            self.frames = self.frames + 1;
        }
        if first {
            Outcome::Origin
        } else if found {
            Outcome::Moved
        } else {
            Outcome::Held
        }
    }

    /// The number of frames with a pose.
    pub fn frames(&self) -> (r: u64)
        ensures
            r == self.posed(),
    {
        self.frames
    }

    /// Forgets all frames.
    pub fn reset(&mut self)
        ensures
            final(self).frame_width() == old(self).frame_width(),
            final(self).frame_height() == old(self).frame_height(),
            final(self).last_frame() is None,
            final(self).posed() == 0,
    {
        self.prev = None;
        self.frames = 0;
    }
}

/// From `before`, the frame of these images leads to `after` and to the outcome `r`,
/// where `found` says whether the motion since the last frame was found. Whether or not
/// it was, the next frame is tracked against this one; the frame counts unless it is
/// held.
pub open spec fn steps(
    before: VoPipeline,
    left: Seq<u8>,
    right: Seq<u8>,
    found: bool,
    after: VoPipeline,
    r: Outcome,
) -> bool {
    &&& after.frame_width() == before.frame_width()
    &&& after.frame_height() == before.frame_height()
    &&& after.last_frame() matches Some(k) && k.holds(
        left,
        right,
        before.frame_width(),
        before.frame_height(),
    )
    &&& r == if before.last_frame() is None {
        Outcome::Origin
    } else if found {
        Outcome::Moved
    } else {
        Outcome::Held
    }
    &&& after.posed() == if r is Held {
        before.posed()
    } else {
        before.posed() + 1
    }
}

/// The first frame is the origin, and counts as the first with a pose.
pub proof fn law_first_frame_is_origin(
    start: VoPipeline,
    left: Seq<u8>,
    right: Seq<u8>,
    found: bool,
    after: VoPipeline,
    r: Outcome,
)
    requires
        start.last_frame() is None,
        start.posed() == 0,
        steps(start, left, right, found, after, r),
    ensures
        r is Origin,
        after.posed() == 1,
{
}

/// A frame whose motion was not found holds back its pose alone: the next frame is
/// tracked against it as by a pipeline that began with it, and leads to a motion or to
/// none as it would there.
pub proof fn law_held_frame_is_tracked_against(
    before: VoPipeline,
    left: Seq<u8>,
    right: Seq<u8>,
    held: VoPipeline,
    start: VoPipeline,
    fresh: VoPipeline,
    outcome: Outcome,
    next_left: Seq<u8>,
    next_right: Seq<u8>,
    found: bool,
    after_held: VoPipeline,
    after_fresh: VoPipeline,
    r_held: Outcome,
    r_fresh: Outcome,
)
    requires
        before.last_frame() is Some,
        steps(before, left, right, false, held, Outcome::Held),
        start.last_frame() is None,
        start.frame_width() == before.frame_width(),
        start.frame_height() == before.frame_height(),
        steps(start, left, right, false, fresh, outcome),
        steps(held, next_left, next_right, found, after_held, r_held),
        steps(fresh, next_left, next_right, found, after_fresh, r_fresh),
    ensures
        held.posed() == before.posed(),
        held.last_frame() matches Some(a) && fresh.last_frame() matches Some(b) && a.left@ == b.left@
            && a.right@ == b.right@ && a.features@ == b.features@,
        r_held == r_fresh,
        r_held == if found {
            Outcome::Moved
        } else {
            Outcome::Held
        },
{
}

/// The next frame is tracked against this one: its two images, and the fifteen hundred
/// strongest of the corners that the left one has at a threshold of twenty, or all of
/// them where there are fewer.
pub proof fn law_frame_keeps_strongest_corners(
    p: &mut VoPipeline,
    left: Vec<u8>,
    right: Vec<u8>,
    found: bool,
    r: Outcome,
    img: &[u8],
    width: u32,
    height: u32,
    all: Vec<Corner>,
    next: Option<&KeyFrame>,
)
    requires
        old(p).frame_width() == width,
        old(p).frame_height() == height,
        call_ensures(VoPipeline::process, (p, left, right, found), r),
        img@ == left@,
        call_ensures(detect_corners_fast, (img, width, height, 20u8), all),
        call_ensures(VoPipeline::keyframe, (final(p),), next),
    ensures
        next matches Some(k) && {
            &&& k.left@ == left@
            &&& k.right@ == right@
            &&& all.len() <= 1500 ==> k.features@ == all@
            &&& all.len() > 1500 ==> k.features@ == all@.subrange(0, 1500)
        },
{
    let (w, h) = (width as int, height as int);
    features::law_corners_are_determined(
        left@,
        w,
        h,
        FAST_THRESHOLD as int,
        all@,
        corners_of(left@, w, h),
    );
}

/// The first frame is the origin; each other one is a motion where one was found and
/// held where none was. Every frame but a held one counts, and no frame changes the
/// size.
pub proof fn law_outcome_follows_motion(
    p: &mut VoPipeline,
    left: Vec<u8>,
    right: Vec<u8>,
    found: bool,
    r: Outcome,
    last: Option<&KeyFrame>,
    before: u64,
    after: u64,
)
    requires
        call_ensures(VoPipeline::keyframe, (old(p),), last),
        call_ensures(VoPipeline::frames, (old(p),), before),
        call_ensures(VoPipeline::process, (p, left, right, found), r),
        call_ensures(VoPipeline::frames, (final(p),), after),
    ensures
        last is None ==> r is Origin,
        last is Some && found ==> r is Moved,
        last is Some && !found ==> r is Held,
        r is Held ==> after == before,
        !(r is Held) ==> after == before + 1,
        final(p).frame_width() == old(p).frame_width(),
        final(p).frame_height() == old(p).frame_height(),
{
}

/// A pipeline that was reset is like a new one for frames of the same size.
pub proof fn law_reset_is_a_new_start(
    p: &mut VoPipeline,
    width: u32,
    height: u32,
    fresh: VoPipeline,
    last: Option<&KeyFrame>,
    count: u64,
)
    requires
        old(p).frame_width() == width,
        old(p).frame_height() == height,
        call_ensures(VoPipeline::reset, (p,), ()),
        call_ensures(VoPipeline::new, (width, height), fresh),
        call_ensures(VoPipeline::keyframe, (final(p),), last),
        call_ensures(VoPipeline::frames, (final(p),), count),
    ensures
        last is None,
        count == 0,
        final(p).frame_width() == width && final(p).frame_height() == height,
        fresh.frame_width() == width && fresh.frame_height() == height,
        fresh.last_frame() is None && fresh.posed() == 0,
{
}

} // verus!
