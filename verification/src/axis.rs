//! Mapping of the axes: the signs and the scale of the angles, before any output.

use crate::double;
use crate::double::Double;
use vstd::prelude::*;

verus! {

/// Which angles are inverted, and what all are multiplied by.
#[derive(Debug, Clone, Copy, PartialEq, Eq, Structural)]
pub struct AxisMap {
    pub invert_yaw: bool,
    pub invert_pitch: bool,
    pub invert_roll: bool,
    pub sensitivity: Double,
}

impl Default for AxisMap {
    fn default() -> (r: Self)
        ensures
            r == (AxisMap {
                invert_yaw: false,
                invert_pitch: false,
                invert_roll: false,
                sensitivity: Double::one(),
            }),
    {
        AxisMap {
            invert_yaw: false,
            invert_pitch: false,
            invert_roll: false,
            sensitivity: Double { bits: double::ONE },
        }
    }
}

/// `v`, with its sign flipped where `invert` says so.
pub open spec fn flipped(v: Double, invert: bool) -> Double {
    if invert {
        v.negated()
    } else {
        v
    }
}

impl AxisMap {
    /// The angles with their signs as the map has them.
    pub open spec fn inverted(self, ypr: Seq<Double>) -> Seq<Double> {
        seq![
            flipped(ypr[0], self.invert_yaw),
            flipped(ypr[1], self.invert_pitch),
            flipped(ypr[2], self.invert_roll),
        ]
    }

    /// Inverts the angles in place, and returns what they are then to be
    /// multiplied by, unless that is one.
    pub fn apply(&self, ypr: &mut [Double; 3]) -> (r: Option<Double>)
        ensures
            final(ypr)@ == self.inverted(old(ypr)@),
            final(ypr)@[0] == if self.invert_yaw {
                old(ypr)@[0].negated()
            } else {
                old(ypr)@[0]
            },
            final(ypr)@[1] == if self.invert_pitch {
                old(ypr)@[1].negated()
            } else {
                old(ypr)@[1]
            },
            final(ypr)@[2] == if self.invert_roll {
                old(ypr)@[2].negated()
            } else {
                old(ypr)@[2]
            },
            r == if self.sensitivity == Double::one() {
                None
            } else {
                Some(self.sensitivity)
            },
    {
        if self.invert_yaw {
            ypr[0] = ypr[0].neg();
        }
        if self.invert_pitch {
            ypr[1] = ypr[1].neg();
        }
        if self.invert_roll {
            ypr[2] = ypr[2].neg();
        }
        assert(ypr@ =~= self.inverted(old(ypr)@));
        if self.sensitivity.bits == double::ONE {
            None
        } else {
            Some(self.sensitivity)
        }
    }
}

/// Each angle goes by its own switch: where that is set the sign bit of the angle is
/// turned, and nothing else of it, and where it is not the angle stays as it is.
pub proof fn law_each_switch_turns_its_angle(m: AxisMap, ypr: Seq<Double>, i: int)
    requires
        ypr.len() == 3,
        0 <= i < 3,
    ensures
        ({
            let r = m.inverted(ypr);
            let on = seq![m.invert_yaw, m.invert_pitch, m.invert_roll][i];
            &&& r.len() == 3
            &&& on && ypr[i].bits < 0x8000_0000_0000_0000 ==> r[i].bits == ypr[i].bits
                + 0x8000_0000_0000_0000
            &&& on && ypr[i].bits >= 0x8000_0000_0000_0000 ==> r[i].bits == ypr[i].bits
                - 0x8000_0000_0000_0000
            &&& on ==> r[i].units() == -ypr[i].units()
            &&& !on ==> r[i] == ypr[i]
        }),
{
}

/// Inverting twice gives the angles back.
pub proof fn law_inversion_is_its_own_inverse(m: AxisMap, ypr: Seq<Double>)
    requires
        ypr.len() == 3,
    ensures
        m.inverted(m.inverted(ypr)) == ypr,
{
    assert(m.inverted(m.inverted(ypr)) =~= ypr);
}

/// Applying a map changes each angle by the switch of that angle alone, and hands the
/// sensitivity on unless it is one.
pub proof fn law_map_applies_its_switches(m: AxisMap, ypr: &mut [Double; 3], r: Option<Double>)
    requires
        call_ensures(AxisMap::apply, (&m, ypr), r),
    ensures
        m.invert_yaw ==> final(ypr)@[0].sign() != old(ypr)@[0].sign(),
        !m.invert_yaw ==> final(ypr)@[0] == old(ypr)@[0],
        m.invert_pitch ==> final(ypr)@[1].sign() != old(ypr)@[1].sign(),
        !m.invert_pitch ==> final(ypr)@[1] == old(ypr)@[1],
        m.invert_roll ==> final(ypr)@[2].sign() != old(ypr)@[2].sign(),
        !m.invert_roll ==> final(ypr)@[2] == old(ypr)@[2],
        forall|i: int|
            0 <= i < 3 ==> (#[trigger] final(ypr)@[i]).magnitude() == old(ypr)@[i].magnitude(),
        forall|i: int|
            0 <= i < 3 ==> {
                ||| #[trigger] final(ypr)@[i] == old(ypr)@[i]
                ||| final(ypr)@[i].bits - old(ypr)@[i].bits == 0x8000_0000_0000_0000
                ||| old(ypr)@[i].bits - final(ypr)@[i].bits == 0x8000_0000_0000_0000
            },
        m.sensitivity.bits == 0x3ff0_0000_0000_0000 ==> r is None,
        m.sensitivity.bits != 0x3ff0_0000_0000_0000 ==> r == Some(m.sensitivity),
{
}

/// The map that is there unless another is asked for changes nothing.
pub proof fn law_default_map_changes_nothing(
    m: AxisMap,
    ypr: &mut [Double; 3],
    r: Option<Double>,
)
    requires
        call_ensures(AxisMap::default, (), m),
        call_ensures(AxisMap::apply, (&m, ypr), r),
    ensures
        final(ypr)@ == old(ypr)@,
        r is None,
{
    assert(final(ypr)@ =~= old(ypr)@);
}

} // verus!
