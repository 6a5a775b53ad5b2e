//! The tracker without a settings file: its calibration at startup.

use crate::calib;
use crate::calib::{STILL_ACCEL_MAX, STILL_ACCEL_MIN, STILL_GYRO};
use crate::double::Double;
use crate::tracker;
use vstd::prelude::*;

verus! {

/// The calibration at startup: the samples at rest within a window of time, by the same
/// detection as [`calib::GyroCalibrator`].
#[derive(Debug, Clone, Copy, PartialEq, Eq, Structural)]
pub struct Calibrator {
    pub core: tracker::Calibrator,
}

impl Calibrator {
    /// A calibration over so many seconds.
    pub fn new(window_seconds: Double) -> (r: Calibrator)
        ensures
            r.core == (tracker::Calibrator {
                window_seconds,
                start_t: None,
                samples: 0,
                done: false,
            }),
    {
        Calibrator { core: tracker::Calibrator::new(window_seconds) }
    }

    /// Takes note of the time of a sample, and returns that of the first one;
    /// `None` when the calibration is over.
    pub fn begin(&mut self, t: Double) -> (r: Option<Double>)
        ensures
            final(self).core == old(self).core.begun(t),
            r == if old(self).core.done {
                None
            } else {
                final(self).core.start_t
            },
    {
        let mut core = self.core;
        let r = core.begin(t);
        self.core = core;
        r
    }

    /// Whether a sample counts as still.
    pub fn still(acc_norm: Double, gyro_norm: Double) -> (r: bool)
        ensures
            r == calib::at_rest(acc_norm, gyro_norm, STILL_ACCEL_MIN, STILL_ACCEL_MAX, STILL_GYRO),
    {
        calib::rests(acc_norm, gyro_norm, STILL_ACCEL_MIN, STILL_ACCEL_MAX, STILL_GYRO)
    }

    /// Takes in a sample `elapsed` seconds after the first one. When the window is
    /// over, returns what the readings at rest are to be divided by.
    pub fn push(&mut self, still: bool, elapsed: Double) -> (r: Option<u64>)
        requires
            old(self).core.samples < u64::MAX,
        ensures
            (final(self).core, r) == old(self).core.pushed(still, elapsed),
    {
        let mut core = self.core;
        let r = core.push(still, elapsed);
        self.core = core;
        r
    }
}

/// A sample counts as still between eight and twelve tenths of gravity, and below a
/// turning rate of 0.15 rad/s.
pub proof fn law_still_means_nearly_gravity(acc_norm: Double, gyro_norm: Double, r: bool)
    requires
        call_ensures(Calibrator::still, (acc_norm, gyro_norm), r),
        !acc_norm.sign(),
        !gyro_norm.sign(),
    ensures
        r <==> 0x401f_645a_1cac_0832 < acc_norm.bits < 0x4027_8b43_9581_0625 && gyro_norm.bits
            < 0x3fc3_3333_3333_3333,
{
    crate::double::lemma_magnitude_units_order(STILL_ACCEL_MIN as int, acc_norm.magnitude());
    crate::double::lemma_magnitude_units_order(acc_norm.magnitude(), STILL_ACCEL_MAX as int);
    crate::double::lemma_magnitude_units_order(gyro_norm.magnitude(), STILL_GYRO as int);
}

/// The calibration waits for its first sample, and takes its time as the start.
pub proof fn law_first_sample_sets_start(
    window: Double,
    fresh: Calibrator,
    c: &mut Calibrator,
    t: Double,
    r: Option<Double>,
)
    requires
        call_ensures(Calibrator::new, (window,), fresh),
        call_ensures(Calibrator::begin, (c, t), r),
    ensures
        fresh.core.window_seconds == window && fresh.core.start_t is None,
        fresh.core.samples == 0 && !fresh.core.done,
        old(c).core.done ==> r is None && *final(c) == *old(c),
        !old(c).core.done ==> {
            &&& old(c).core.start_t is None ==> r == Some(t)
            &&& old(c).core.start_t is Some ==> r == old(c).core.start_t
            &&& final(c).core.start_t == r
        },
        final(c).core.samples == old(c).core.samples && final(c).core.done == old(c).core.done,
        final(c).core.window_seconds == old(c).core.window_seconds,
{
}

/// A sample at rest is counted, and no other. When the window is over the calibration
/// ends, and returns the number of samples, or one where there are none.
pub proof fn law_calibration_ends_with_window(
    c: &mut Calibrator,
    still: bool,
    elapsed: Double,
    r: Option<u64>,
)
    requires
        old(c).core.samples < u64::MAX,
        call_ensures(Calibrator::push, (c, still, elapsed), r),
    ensures
        old(c).core.done ==> r is None && *final(c) == *old(c),
        !old(c).core.done ==> {
            &&& still ==> final(c).core.samples == old(c).core.samples + 1
            &&& !still ==> final(c).core.samples == old(c).core.samples
            &&& r is Some <==> !elapsed.nan() && !old(c).core.window_seconds.nan() && elapsed.units()
                >= old(c).core.window_seconds.units()
            &&& final(c).core.done <==> r is Some
            &&& r matches Some(n) ==> n >= 1 && (final(c).core.samples >= 1 ==> n
                == final(c).core.samples) && (final(c).core.samples == 0 ==> n == 1)
        },
        final(c).core.start_t == old(c).core.start_t,
        final(c).core.window_seconds == old(c).core.window_seconds,
{
}

} // verus!
