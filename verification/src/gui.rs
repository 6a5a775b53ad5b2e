//! The state of the window: what the tracker last reported, and the zero that the
//! angles are shown against.

use crate::double::Double;
use crate::text;
use crate::text::pad;
use crate::tracker::{Pose, Quat};
use vstd::prelude::*;

verus! {

/// A report of the tracker.
#[derive(Debug, Clone)]
pub enum ImuMsg {
    Pose(Pose),
    Rate(Double),
    Calibrating(bool),
    Error(String),
}

/// What the tracker last reported.
#[derive(Debug, Clone)]
pub struct LiveState {
    pub pose: Option<Pose>,
    pub rate_hz: Double,
    pub calibrating: bool,
    pub error: Option<String>,
}

impl Default for LiveState {
    fn default() -> (r: Self)
        ensures
            r == (LiveState {
                pose: None,
                rate_hz: Double::zero(),
                calibrating: false,
                error: None,
            }),
    {
        LiveState { pose: None, rate_hz: Double { bits: 0 }, calibrating: false, error: None }
    }
}

impl LiveState {
    /// The state after a report.
    pub open spec fn after(self, msg: ImuMsg) -> LiveState {
        match msg {
            ImuMsg::Pose(p) => LiveState { pose: Some(p), ..self },
            ImuMsg::Rate(r) => LiveState { rate_hz: r, ..self },
            ImuMsg::Calibrating(c) => LiveState { calibrating: c, ..self },
            ImuMsg::Error(e) => LiveState { error: Some(e), ..self },
        }
    }

    /// Takes in a report.
    pub fn apply(&mut self, msg: ImuMsg)
        ensures
            *final(self) == old(self).after(msg),
    {
        match msg {
            ImuMsg::Pose(p) => {
                self.pose = Some(p);
            },
            ImuMsg::Rate(r) => {
                self.rate_hz = r;
            },
            ImuMsg::Calibrating(c) => {
                self.calibrating = c;
            },
            ImuMsg::Error(e) => {
                self.error = Some(e);
            },
        }
    }
}

/// The orientation that counts as zero, once one was chosen.
#[derive(Debug, Clone, Copy, PartialEq, Eq, Structural)]
pub struct ZeroReference {
    pub zero: Option<Quat>,
}

impl ZeroReference {
    /// No zero was chosen.
    pub fn new() -> (r: ZeroReference)
        ensures
            r.zero is None,
    {
        ZeroReference { zero: None }
    }

    /// Makes the last pose the zero; `false` when there is none, and the zero stays.
    pub fn reset(&mut self, live: &LiveState) -> (r: bool)
        ensures
            r == live.pose is Some,
            final(self).zero == match live.pose {
                Some(p) => Some(p.q),
                None => old(self).zero,
            },
    {
        match live.pose {
            Some(p) => {
                self.zero = Some(p.q);
                true
            },
            None => false,
        }
    }

    /// What an orientation is to be multiplied by, from the left, to stand against
    /// the zero.
    pub fn correction(&self) -> (r: Option<Quat>)
        ensures
            r == match self.zero {
                Some(z) => Some(z.conjugated()),
                None => None,
            },
    {
        match self.zero {
            Some(z) => Some(z.conjugate()),
            None => None,
        }
    }
}

/// A sign of life, written once in two seconds. Times are in milliseconds.
#[derive(Debug, Clone, Copy, PartialEq, Eq, Structural)]
pub struct Heartbeat {
    pub last: u64,
}

/// The time between two signs of life, in milliseconds.
pub const HEARTBEAT: u64 = 2000;

impl Heartbeat {
    /// No sign of life yet.
    pub fn new() -> (r: Heartbeat)
        ensures
            r.last == 0,
    {
        Heartbeat { last: 0 }
    }

    /// Whether to write a sign of life at `now`.
    pub fn beat(&mut self, now: u64) -> (r: bool)
        ensures
            r == (now - old(self).last >= HEARTBEAT),
            final(self).last == if r {
                now
            } else {
                old(self).last
            },
    {
        if now >= self.last && now - self.last >= HEARTBEAT {
            self.last = now;
            true
        } else {
            false
        }
    }
}

/// What to note down about a pose.
#[derive(Debug, Clone, Copy, PartialEq, Eq, Structural)]
pub enum PoseNote {
    /// It is the first one.
    First,
    /// It is the last one of another five hundred; so many there are.
    Count(u32),
    /// Nothing.
    Quiet,
}

/// The number of poses so far.
#[derive(Debug, Clone, Copy, PartialEq, Eq, Structural)]
pub struct PoseCounter {
    pub poses: u32,
}

impl PoseCounter {
    /// No pose yet.
    pub fn new() -> (r: PoseCounter)
        ensures
            r.poses == 0,
    {
        PoseCounter { poses: 0 }
    }

    /// Counts a pose, and says what to note down about it.
    pub fn count(&mut self) -> (r: PoseNote)
        requires
            old(self).poses < u32::MAX,
        ensures
            final(self).poses == old(self).poses + 1,
            r == if final(self).poses == 1 {
                PoseNote::First
            } else if final(self).poses % 500 == 0 {
                PoseNote::Count(final(self).poses)
            } else {
                PoseNote::Quiet
            },
    {
        self.poses = self.poses + 1;
        if self.poses == 1 {
            PoseNote::First
        } else if self.poses % 500 == 0 {
            PoseNote::Count(self.poses)
        } else {
            PoseNote::Quiet
        }
    }
}

/// Whether to report the end of the calibration: one was asked for, and it no longer
/// runs.
pub fn calibration_over(asked: bool, running: bool) -> (r: bool)
    ensures
        r == (asked && !running),
{
    asked && !running
}

/// The text of an angle in a column of eight characters, with its unit.
pub open spec fn angle_with_unit(s: Seq<char>, rad: bool) -> Seq<char> {
    text::padded(s, ' ', 8) + if rad {
        " rad"@
    } else {
        " °"@
    }
}

/// The label with the angles.
pub open spec fn angles_label(a: Seq<Seq<char>>, rad: bool) -> Seq<char> {
    "YAW "@ + angle_with_unit(a[0], rad) + "   PITCH "@ + angle_with_unit(a[1], rad) + "   ROLL "@
        + angle_with_unit(a[2], rad)
}

fn with_unit(s: &str, rad: bool) -> (r: String)
    ensures
        r@ == angle_with_unit(s@, rad),
{
    let mut m = pad(s, ' ', 8);
    m.append(
        if rad {
            " rad"
        } else {
            " °"
        },
    );
    m
}

/// The label with the angles, from their texts to three decimals.
pub fn angle_label(angles: &[String; 3], rad: bool) -> (r: String)
    ensures
        r@ == angles_label(text::texts(angles@), rad),
{
    let mut m = "YAW ".to_owned();
    m.append(with_unit(angles[0].as_str(), rad).as_str());
    m.append("   PITCH ");
    m.append(with_unit(angles[1].as_str(), rad).as_str());
    m.append("   ROLL ");
    m.append(with_unit(angles[2].as_str(), rad).as_str());
    m
}

/// The note after the settings were saved to `place`, or were not.
pub fn save_note(saved: bool, place: &str) -> (r: String)
    ensures
        r@ == if saved {
            "settings saved to "@ + place@
        } else {
            "settings save failed: "@ + place@
        },
{
    let mut m = if saved {
        "settings saved to ".to_owned()
    } else {
        "settings save failed: ".to_owned()
    };
    m.append(place);
    m
}

/// A corner of the cube, by its number: the four of the back face, then the four of
/// the front face, each around the face.
pub open spec fn corner(i: int) -> (int, int, int) {
    let j = i % 4;
    (
        if j == 1 || j == 2 {
            1
        } else {
            -1
        },
        if j >= 2 {
            1
        } else {
            -1
        },
        if i >= 4 {
            1
        } else {
            -1
        },
    )
}

/// An edge of the cube, by its number: around the back face, around the front face,
/// then from one to the other.
pub open spec fn edge(i: int) -> (int, int) {
    if i < 4 {
        (i, (i + 1) % 4)
    } else if i < 8 {
        (i, 4 + (i - 3) % 4)
    } else {
        (i - 8, i - 4)
    }
}

/// The corner of that number.
pub fn cube_corner(i: usize) -> (r: (i32, i32, i32))
    requires
        i < 8,
    ensures
        r.0 == corner(i as int).0,
        r.1 == corner(i as int).1,
        r.2 == corner(i as int).2,
{
    let j: usize = i % 4;
    let x: i32 = if j == 1 || j == 2 {
        1
    } else {
        -1
    };
    let y: i32 = if j >= 2 {
        1
    } else {
        -1
    };
    let z: i32 = if i >= 4 {
        1
    } else {
        -1
    };
    (x, y, z)
}

/// The corners that the edge of that number joins.
pub fn cube_edge(i: usize) -> (r: (usize, usize))
    requires
        i < 12,
    ensures
        r.0 == edge(i as int).0,
        r.1 == edge(i as int).1,
        r.0 < 8,
        r.1 < 8,
{
    if i < 4 {
        (i, (i + 1) % 4)
    } else if i < 8 {
        (i, 4 + (i - 3) % 4)
    } else {
        (i - 8, i - 4)
    }
}

/// Whether the edge of that number lies on the far side of the cube, and is drawn
/// dimmer: the middle between its ends lies behind the center.
pub fn is_far_edge(i: usize) -> (r: bool)
    requires
        i < 12,
    ensures
        r == (corner(edge(i as int).0).2 + corner(edge(i as int).1).2 < 0),
{
    let (a, b) = cube_edge(i);
    let (za, zb): (i32, i32) = (cube_corner(a).2, cube_corner(b).2);
    za + zb < 0
}

/// Each edge joins two corners that differ along one axis only.
pub proof fn law_edges_follow_axes(i: int)
    requires
        0 <= i < 12,
    ensures
        ({
            let (a, b) = (corner(edge(i).0), corner(edge(i).1));
            ||| a.0 != b.0 && a.1 == b.1 && a.2 == b.2
            ||| a.0 == b.0 && a.1 != b.1 && a.2 == b.2
            ||| a.0 == b.0 && a.1 == b.1 && a.2 != b.2
        }),
{
}

/// A report changes what it reports of, and leaves all else as it was.
pub proof fn law_report_changes_its_part(live: &mut LiveState, msg: ImuMsg)
    requires
        call_ensures(LiveState::apply, (live, msg), ()),
    ensures
        msg matches ImuMsg::Pose(p) ==> final(live).pose == Some(p),
        !(msg is Pose) ==> final(live).pose == old(live).pose,
        msg matches ImuMsg::Rate(r) ==> final(live).rate_hz == r,
        !(msg is Rate) ==> final(live).rate_hz == old(live).rate_hz,
        msg matches ImuMsg::Calibrating(c) ==> final(live).calibrating == c,
        !(msg is Calibrating) ==> final(live).calibrating == old(live).calibrating,
        msg matches ImuMsg::Error(e) ==> final(live).error == Some(e),
        !(msg is Error) ==> final(live).error == old(live).error,
{
}

/// Before the first report there is no pose, no rate, no calibration and no error.
pub proof fn law_nothing_is_reported_at_first(live: LiveState)
    requires
        call_ensures(LiveState::default, (), live),
    ensures
        live.pose is None,
        live.rate_hz.bits == 0,
        !live.calibrating,
        live.error is None,
{
}

/// The last pose becomes the zero where there is one, and then an orientation is
/// corrected by the opposite of it: the same scalar part, and the others turned.
pub proof fn law_zero_is_last_pose(
    fresh: ZeroReference,
    z: &mut ZeroReference,
    live: LiveState,
    r: bool,
    c: Option<Quat>,
)
    requires
        call_ensures(ZeroReference::new, (), fresh),
        call_ensures(ZeroReference::reset, (z, &live), r),
        call_ensures(ZeroReference::correction, (final(z),), c),
    ensures
        fresh.zero is None,
        r <==> live.pose is Some,
        live.pose matches Some(p) ==> final(z).zero == Some(p.q),
        live.pose is None ==> final(z).zero == old(z).zero,
        c is Some <==> final(z).zero is Some,
        c matches Some(q) ==> {
            let zero = final(z).zero->0;
            &&& q.w == zero.w
            &&& q.x.units() == -zero.x.units() && q.x.sign() != zero.x.sign()
            &&& q.y.units() == -zero.y.units() && q.y.sign() != zero.y.sign()
            &&& q.z.units() == -zero.z.units() && q.z.sign() != zero.z.sign()
        },
{
}

/// A sign of life comes two seconds after the last, and not before.
pub proof fn law_heart_beats_every_two_seconds(
    fresh: Heartbeat,
    h: &mut Heartbeat,
    now: u64,
    r: bool,
)
    requires
        call_ensures(Heartbeat::new, (), fresh),
        call_ensures(Heartbeat::beat, (h, now), r),
    ensures
        fresh.last == 0,
        r <==> now >= old(h).last + 2000,
        r ==> final(h).last == now,
        !r ==> final(h).last == old(h).last,
{
}

/// Poses are counted one by one; the first is noted down, and every five-hundredth.
pub proof fn law_poses_are_counted(fresh: PoseCounter, c: &mut PoseCounter, r: PoseNote)
    requires
        call_ensures(PoseCounter::new, (), fresh),
        call_ensures(PoseCounter::count, (c,), r),
    ensures
        fresh.poses == 0,
        final(c).poses == old(c).poses + 1,
        r is First <==> old(c).poses == 0,
        r is Count <==> final(c).poses % 500 == 0,
        r matches PoseNote::Count(n) ==> n == final(c).poses,
{
}

/// The end of the calibration is told of where one was asked for and none runs.
pub proof fn law_calibration_end_is_told(asked: bool, running: bool, r: bool)
    requires
        call_ensures(calibration_over, (asked, running), r),
    ensures
        r ==> asked,
        r ==> !running,
        asked && !running ==> r,
{
}

/// The label names the angles in the order yaw, pitch and roll, each in a column of
/// eight characters, with its unit.
pub proof fn law_label_names_angles(angles: [String; 3], deg: String, rad: String)
    requires
        call_ensures(angle_label, (&angles, false), deg),
        call_ensures(angle_label, (&angles, true), rad),
    ensures
        deg@ == "YAW "@ + text::padded(angles@[0]@, ' ', 8) + " °"@ + "   PITCH "@ + text::padded(
            angles@[1]@,
            ' ',
            8,
        ) + " °"@ + "   ROLL "@ + text::padded(angles@[2]@, ' ', 8) + " °"@,
        rad@ == "YAW "@ + text::padded(angles@[0]@, ' ', 8) + " rad"@ + "   PITCH "@ + text::padded(
            angles@[1]@,
            ' ',
            8,
        ) + " rad"@ + "   ROLL "@ + text::padded(angles@[2]@, ' ', 8) + " rad"@,
{
}

/// The note says where the settings were saved, or that they were not.
pub proof fn law_note_says_where(place: &str, saved: String, failed: String)
    requires
        call_ensures(save_note, (true, place), saved),
        call_ensures(save_note, (false, place), failed),
    ensures
        saved@ == "settings saved to "@ + place@,
        failed@ == "settings save failed: "@ + place@,
{
}

/// The corners of the cube lie at plus and minus one along each axis, one at each such
/// place, the first four on the back face; each follows the one before around its face,
/// and the one across lies four further on.
pub proof fn law_cube_has_eight_corners(
    i: usize,
    a: (i32, i32, i32),
    j: usize,
    b: (i32, i32, i32),
)
    requires
        i < 8,
        j < 8,
        call_ensures(cube_corner, (i,), a),
        call_ensures(cube_corner, (j,), b),
    ensures
        (a.0 == 1 || a.0 == -1) && (a.1 == 1 || a.1 == -1),
        a.2 == -1 <==> i < 4,
        a.2 == 1 <==> i >= 4,
        i != j ==> a != b,
        j == i + 4 ==> a.0 == b.0 && a.1 == b.1,
        i == 0 ==> a.0 == -1 && a.1 == -1,
        i == 1 ==> a.0 == 1 && a.1 == -1,
        i == 2 ==> a.0 == 1 && a.1 == 1,
        i == 3 ==> a.0 == -1 && a.1 == 1,
{
}

/// The edges of the cube join two corners each, no two of them the same: the first four
/// go around the back face, the next four around the front face, and the last four from
/// one to the other. Just those of the back face are drawn as far ones.
pub proof fn law_cube_has_twelve_edges(
    i: usize,
    e: (usize, usize),
    j: usize,
    f: (usize, usize),
    far: bool,
)
    requires
        i < 12,
        j < 12,
        call_ensures(cube_edge, (i,), e),
        call_ensures(cube_edge, (j,), f),
        call_ensures(is_far_edge, (i,), far),
    ensures
        e.0 < 8 && e.1 < 8 && e.0 != e.1,
        i < 4 ==> e.0 == i && e.1 == if i == 3 {
            0
        } else {
            i + 1
        },
        4 <= i < 8 ==> e.0 == i && e.1 == if i == 7 {
            4
        } else {
            i + 1
        },
        i >= 8 ==> e.0 == i - 8 && e.1 == e.0 + 4,
        i != j ==> e != f && !(e.0 == f.1 && e.1 == f.0),
        far <==> i < 4,
{
}

} // verus!
