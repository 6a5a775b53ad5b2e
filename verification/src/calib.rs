//! Gyro calibration, at startup and while the tracker runs: while the device lies
//! still, the mean gyro reading is the bias. Here stands which samples count, and
//! when a calibration is over.

use crate::double::Double;
use crate::settings;
use vstd::prelude::*;

verus! {

/// The bit pattern of 0.15: the turning rate, in rad/s, below which a sample counts
/// as still.
pub const STILL_GYRO: u64 = 0x3fc3_3333_3333_3333;

/// The bit pattern of eight tenths of gravity, in m/s².
pub const STILL_ACCEL_MIN: u64 = 0x401f_645a_1cac_0832;

/// The bit pattern of twelve tenths of gravity, in m/s².
pub const STILL_ACCEL_MAX: u64 = 0x4027_8b43_9581_0625;

/// A sample taken at rest: its acceleration lies strictly between `low` and `high`,
/// and it turns more slowly than `gyro`.
pub open spec fn at_rest(
    acc_norm: Double,
    gyro_norm: Double,
    low: u64,
    high: u64,
    gyro: u64,
) -> bool {
    &&& (Double { bits: low }).less(acc_norm)
    &&& acc_norm.less(Double { bits: high })
    &&& gyro_norm.less(Double { bits: gyro })
}

/// Whether a sample was taken at rest, within the given limits.
pub fn rests(acc_norm: Double, gyro_norm: Double, low: u64, high: u64, gyro: u64) -> (r: bool)
    ensures
        r == at_rest(acc_norm, gyro_norm, low, high, gyro),
{
    (Double { bits: low }).lt(acc_norm) && acc_norm.lt(Double { bits: high }) && gyro_norm.lt(
        Double { bits: gyro },
    )
}

/// What the readings at rest are to be divided by for the bias; nothing, and the bias is
/// zero, when there are none.
pub open spec fn divisor_of(end: CalibEnd) -> Option<u64> {
    if end.samples > 0 {
        Some(end.samples)
    } else {
        None
    }
}

/// What the readings at rest are to be divided by for the bias; `None`, for a bias of
/// zero, when there are none.
pub fn bias_divisor(end: CalibEnd) -> (r: Option<u64>)
    ensures
        r == divisor_of(end),
{
    if end.samples > 0 {
        Some(end.samples)
    } else {
        None
    }
}

/// What the squares of the readings are to be divided by for their deviation; `None`,
/// for a deviation of zero, when there are fewer than two.
pub fn deviation_divisor(end: CalibEnd) -> (r: Option<u64>)
    ensures
        r == if end.samples > 1 {
            Some(end.samples)
        } else {
            None
        },
{
    if end.samples > 1 {
        Some(end.samples)
    } else {
        None
    }
}

/// Where a sample stands in the stream: the time of the first sample, and of the
/// one before.
#[derive(Debug, Clone, Copy, PartialEq, Eq, Structural)]
pub struct Moment {
    pub start: Double,
    pub previous: Option<Double>,
}

/// How a calibration ended.
#[derive(Debug, Clone, Copy, PartialEq, Eq, Structural)]
pub struct CalibEnd {
    /// The samples at rest that were added up.
    pub samples: u64,
    /// The whole window was spent at rest; else the wait was given up.
    pub complete: bool,
}

/// Collects samples while the device lies still. The times are those of the
/// samples.
#[derive(Debug, Clone, Copy, PartialEq, Eq, Structural)]
pub struct GyroCalibrator {
    pub window: Double,
    pub start_t: Option<Double>,
    pub prev_t: Option<Double>,
    pub count: u64,
    pub done: bool,
}

/// A sample as a calibration takes it in: its time, whether it was taken at rest, the
/// time spent at rest so far and the time since the first sample.
#[derive(Debug, Clone, Copy, PartialEq, Eq, Structural)]
pub struct CalibSample {
    pub t: Double,
    pub still: bool,
    pub valid: Double,
    pub elapsed: Double,
}

/// The number of samples at rest.
pub open spec fn still_count(samples: Seq<CalibSample>) -> nat
    decreases samples.len(),
{
    if samples.len() == 0 {
        0
    } else {
        still_count(samples.drop_last()) + if samples.last().still {
            1nat
        } else {
            0
        }
    }
}

/// The window of a calibration: a tenth of a second at least.
pub open spec fn window_of(seconds: Double) -> Double {
    let least = Double { bits: settings::TENTH };
    if seconds.nan() || seconds.less(least) {
        least
    } else {
        seconds
    }
}

impl GyroCalibrator {
    /// Where a sample of the time `t` stands in the stream; nowhere when the calibration
    /// is over.
    pub open spec fn moment(self, t: Double) -> Option<Moment> {
        if self.done {
            None
        } else {
            Some(
                Moment {
                    start: match self.start_t {
                        Some(s) => s,
                        None => t,
                    },
                    previous: self.prev_t,
                },
            )
        }
    }

    /// The calibration after it took note of the time of a sample.
    pub open spec fn begun(self, t: Double) -> GyroCalibrator {
        if self.done {
            self
        } else {
            GyroCalibrator {
                start_t: match self.start_t {
                    Some(s) => Some(s),
                    None => Some(t),
                },
                prev_t: Some(t),
                ..self
            }
        }
    }

    /// The calibration after it took in a sample, and how it ended, once it has.
    pub open spec fn pushed(
        self,
        still: bool,
        valid: Double,
        needed: Double,
        elapsed: Double,
        max_wait: Double,
    ) -> (GyroCalibrator, Option<CalibEnd>) {
        if self.done {
            (self, None)
        } else {
            let count = if still {
                (self.count + 1) as u64
            } else {
                self.count
            };
            let complete = needed.at_most(valid);
            let over = complete || max_wait.at_most(elapsed);
            (
                GyroCalibrator { count, done: over, ..self },
                if over {
                    Some(CalibEnd { samples: count, complete })
                } else {
                    None
                },
            )
        }
    }

    /// The calibration after it took in these samples, one after the other.
    pub open spec fn after(
        self,
        samples: Seq<CalibSample>,
        needed: Double,
        max_wait: Double,
    ) -> GyroCalibrator
        decreases samples.len(),
    {
        if samples.len() == 0 {
            self
        } else {
            let s = samples.last();
            self.after(samples.drop_last(), needed, max_wait).begun(s.t).pushed(
                s.still,
                s.valid,
                needed,
                s.elapsed,
                max_wait,
            ).0
        }
    }

    /// What the `i`th of these samples returns.
    pub open spec fn answer(
        self,
        samples: Seq<CalibSample>,
        needed: Double,
        max_wait: Double,
        i: int,
    ) -> Option<CalibEnd> {
        let s = samples[i];
        self.after(samples.subrange(0, i), needed, max_wait).begun(s.t).pushed(
            s.still,
            s.valid,
            needed,
            s.elapsed,
            max_wait,
        ).1
    }

    /// A calibration over so many seconds at rest.
    pub fn new(window_seconds: Double) -> (r: GyroCalibrator)
        ensures
            r.window == window_of(window_seconds),
            r.start_t is None,
            r.prev_t is None,
            r.count == 0,
            !r.done,
    {
        let least = Double { bits: settings::TENTH };
        let window = if window_seconds.is_nan() || window_seconds.lt(least) {
            least
        } else {
            window_seconds
        };
        GyroCalibrator { window, start_t: None, prev_t: None, count: 0, done: false }
    }

    /// Takes note of the time of a sample; `None` when the calibration is over.
    pub fn begin(&mut self, t: Double) -> (r: Option<Moment>)
        ensures
            *final(self) == old(self).begun(t),
            r == old(self).moment(t),
    {
        if self.done {
            return None;
        }
        let start = match self.start_t {
            Some(s) => s,
            None => t,
        };
        let previous = self.prev_t;
        self.start_t = Some(start);
        self.prev_t = Some(t);
        Some(Moment { start, previous })
    }

    /// Whether a sample counts as still.
    pub fn still(acc_norm: Double, gyro_norm: Double) -> (r: bool)
        ensures
            r == at_rest(acc_norm, gyro_norm, STILL_ACCEL_MIN, STILL_ACCEL_MAX, STILL_GYRO),
    {
        rests(acc_norm, gyro_norm, STILL_ACCEL_MIN, STILL_ACCEL_MAX, STILL_GYRO)
    }

    /// Takes in a sample. `valid` is the time spent at rest and `needed` the time
    /// that is asked for; `elapsed` is the time since the first sample and
    /// `max_wait` the longest that is waited. Returns how the calibration ended,
    /// once it has.
    pub fn push(
        &mut self,
        still: bool,
        valid: Double,
        needed: Double,
        elapsed: Double,
        max_wait: Double,
    ) -> (r: Option<CalibEnd>)
        requires
            old(self).count < u64::MAX,
        ensures
            (*final(self), r) == old(self).pushed(still, valid, needed, elapsed, max_wait),
    {
        if self.done {
            return None;
        }
        if still {
            self.count = self.count + 1;
        }
        let complete = needed.le(valid);
        if !complete && !max_wait.le(elapsed) {
            return None;
        }
        self.done = true;
        Some(CalibEnd { samples: self.count, complete })
    }
}

proof fn lemma_still_count_bound(samples: Seq<CalibSample>)
    ensures
        still_count(samples) <= samples.len(),
    decreases samples.len(),
{
    if samples.len() > 0 {
        lemma_still_count_bound(samples.drop_last());
    }
}

proof fn lemma_running(
    start: GyroCalibrator,
    samples: Seq<CalibSample>,
    needed: Double,
    max_wait: Double,
)
    requires
        start.start_t is None,
        start.count == 0,
        samples.len() <= u64::MAX,
        !start.after(samples, needed, max_wait).done,
    ensures
        start.after(samples, needed, max_wait).count == still_count(samples),
        start.after(samples, needed, max_wait).start_t == if samples.len() == 0 {
            None
        } else {
            Some(samples.first().t)
        },
        start.after(samples, needed, max_wait).prev_t == if samples.len() == 0 {
            start.prev_t
        } else {
            Some(samples.last().t)
        },
    decreases samples.len(),
{
    if samples.len() > 0 {
        lemma_running(start, samples.drop_last(), needed, max_wait);
        lemma_still_count_bound(samples);
        if samples.len() > 1 {
            assert(samples.drop_last().first() == samples.first());
        }
    }
}

/// What a calibration returns rests on the samples at rest alone: it counts all of them,
/// from the first sample on, and no other. Their readings are divided by their number,
/// and the bias is zero just when there are none. It is complete just when the time at
/// rest has reached the time that is asked for, and each time is taken from the first
/// sample, and from the one before.
pub proof fn law_calibration_counts_samples_at_rest(
    start: GyroCalibrator,
    samples: Seq<CalibSample>,
    needed: Double,
    max_wait: Double,
    i: int,
)
    requires
        start.start_t is None,
        start.count == 0,
        0 <= i < samples.len(),
        samples.len() <= u64::MAX,
    ensures
        start.answer(samples, needed, max_wait, i) matches Some(end) ==> {
            &&& end.samples == still_count(samples.subrange(0, i + 1))
            &&& divisor_of(end) == if still_count(samples.subrange(0, i + 1)) == 0 {
                None
            } else {
                Some(end.samples)
            }
            &&& end.complete == needed.at_most(samples[i].valid)
            &&& end.complete || max_wait.at_most(samples[i].elapsed)
            &&& start.after(samples.subrange(0, i), needed, max_wait).moment(samples[i].t) == Some(
                Moment {
                    start: samples.first().t,
                    previous: if i == 0 {
                        start.prev_t
                    } else {
                        Some(samples[i - 1].t)
                    },
                },
            )
        },
{
    let before = samples.subrange(0, i);
    let upto = samples.subrange(0, i + 1);
    assert(upto.drop_last() =~= before);
    lemma_still_count_bound(upto);
    if start.answer(samples, needed, max_wait, i) is Some {
        lemma_running(start, before, needed, max_wait);
    }
}

proof fn lemma_done_stays(
    start: GyroCalibrator,
    samples: Seq<CalibSample>,
    needed: Double,
    max_wait: Double,
    i: int,
    j: int,
)
    requires
        0 <= i <= j <= samples.len(),
        start.after(samples.subrange(0, i), needed, max_wait).done,
    ensures
        start.after(samples.subrange(0, j), needed, max_wait).done,
    decreases j - i,
{
    if i < j {
        lemma_done_stays(start, samples, needed, max_wait, i, j - 1);
        assert(samples.subrange(0, j).drop_last() =~= samples.subrange(0, j - 1));
    }
}

/// A calibration returns a result at most once.
pub proof fn law_calibration_ends_once(
    start: GyroCalibrator,
    samples: Seq<CalibSample>,
    needed: Double,
    max_wait: Double,
    i: int,
    j: int,
)
    requires
        0 <= i < j < samples.len(),
        start.answer(samples, needed, max_wait, i) is Some,
    ensures
        start.answer(samples, needed, max_wait, j) is None,
{
    assert(samples.subrange(0, i + 1).drop_last() =~= samples.subrange(0, i));
    lemma_done_stays(start, samples, needed, max_wait, i + 1, j);
}

/// A calibration has returned a result by the first sample at which the wait is over, or
/// the time at rest is reached.
pub proof fn law_calibration_ends_in_time(
    start: GyroCalibrator,
    samples: Seq<CalibSample>,
    needed: Double,
    max_wait: Double,
    i: int,
)
    requires
        !start.done,
        0 <= i < samples.len(),
        max_wait.at_most(samples[i].elapsed) || needed.at_most(samples[i].valid),
    ensures
        exists|k: int| 0 <= k <= i && start.answer(samples, needed, max_wait, k) is Some,
{
    lemma_done_was_answered(start, samples, needed, max_wait, i);
}

proof fn lemma_done_was_answered(
    start: GyroCalibrator,
    samples: Seq<CalibSample>,
    needed: Double,
    max_wait: Double,
    i: int,
)
    requires
        !start.done,
        0 <= i < samples.len(),
        start.after(samples.subrange(0, i), needed, max_wait).done || max_wait.at_most(
            samples[i].elapsed,
        ) || needed.at_most(samples[i].valid),
    ensures
        exists|k: int| 0 <= k <= i && start.answer(samples, needed, max_wait, k) is Some,
    decreases i,
{
    let before = samples.subrange(0, i);
    if start.after(before, needed, max_wait).done {
        assert(i > 0);
        assert(before.drop_last() =~= samples.subrange(0, i - 1));
        if start.after(samples.subrange(0, i - 1), needed, max_wait).done {
            lemma_done_was_answered(start, samples, needed, max_wait, i - 1);
        } else {
            assert(start.answer(samples, needed, max_wait, i - 1) is Some);
        }
    } else {
        assert(start.answer(samples, needed, max_wait, i) is Some);
    }
}

/// Measures the bias again while the tracker runs: whenever the device has lain still
/// for the whole window, without a break.
#[derive(Debug, Clone, Copy, PartialEq, Eq, Structural)]
pub struct BiasRefresher {
    pub window: Double,
    /// The time of the first sample of the rest; none while the device moves.
    pub rest_t: Option<Double>,
    /// The samples of the rest.
    pub count: u64,
}

impl BiasRefresher {
    /// The refresher after it took note of a sample of the time `t`: one at rest goes
    /// on with the rest or begins it, one in motion ends it.
    pub open spec fn noted(self, t: Double, still: bool) -> BiasRefresher {
        if still {
            let begin = match self.rest_t {
                Some(b) => b,
                None => t,
            };
            BiasRefresher { rest_t: Some(begin), count: (self.count + 1) as u64, ..self }
        } else {
            BiasRefresher { rest_t: None, count: 0, ..self }
        }
    }

    /// The refresher after it took note of these samples, times and whether at rest.
    pub open spec fn noted_all(self, samples: Seq<(Double, bool)>) -> BiasRefresher
        decreases samples.len(),
    {
        if samples.len() == 0 {
            self
        } else {
            self.noted_all(samples.drop_last()).noted(samples.last().0, samples.last().1)
        }
    }

    /// Nothing collected yet, for a window of so many seconds.
    pub fn new(window_seconds: Double) -> (r: BiasRefresher)
        ensures
            r == (BiasRefresher { window: window_of(window_seconds), rest_t: None, count: 0 }),
    {
        BiasRefresher {
            window: GyroCalibrator::new(window_seconds).window,
            rest_t: None,
            count: 0,
        }
    }

    /// Takes note of a sample. Returns when the rest that it belongs to began; a
    /// sample in motion belongs to none, and what was collected before it is dropped.
    pub fn rest(&mut self, t: Double, still: bool) -> (r: Option<Double>)
        requires
            old(self).count < u64::MAX,
        ensures
            *final(self) == old(self).noted(t, still),
            r == final(self).rest_t,
    {
        if !still {
            self.rest_t = None;
            self.count = 0;
            return None;
        }
        let begin = match self.rest_t {
            Some(b) => b,
            None => t,
        };
        self.rest_t = Some(begin);
        self.count = self.count + 1;
        Some(begin)
    }

    /// Whether the rest, which has lasted for `elapsed`, gives a new bias; `needed` is
    /// the time that is asked for. Returns the number of its samples, and begins with
    /// a new window.
    pub fn feed(&mut self, elapsed: Double, needed: Double) -> (r: Option<u64>)
        ensures
            if old(self).rest_t is Some && needed.at_most(elapsed) {
                &&& r == Some(old(self).count)
                &&& *final(self) == (BiasRefresher { rest_t: None, count: 0, ..*old(self) })
            } else {
                r is None && *final(self) == *old(self)
            },
    {
        if self.rest_t.is_none() || !needed.le(elapsed) {
            return None;
        }
        let count = self.count;
        self.rest_t = None;
        self.count = 0;
        Some(count)
    }
}

/// The number of samples at rest since the last one in motion.
pub open spec fn still_since(samples: Seq<(Double, bool)>) -> nat
    decreases samples.len(),
{
    if samples.len() == 0 || !samples.last().1 {
        0
    } else {
        still_since(samples.drop_last()) + 1
    }
}

/// A bias is measured over an unbroken rest: from the start on, the rest counts the
/// samples since the last one in motion, and began with the first of them.
pub proof fn law_rest_is_unbroken(start: BiasRefresher, samples: Seq<(Double, bool)>)
    requires
        start.rest_t is None,
        start.count == 0,
        samples.len() <= u64::MAX,
    ensures
        still_since(samples) <= samples.len(),
        start.noted_all(samples) == (BiasRefresher {
            rest_t: if still_since(samples) == 0 {
                None
            } else {
                Some(samples[samples.len() - still_since(samples)].0)
            },
            count: still_since(samples) as u64,
            ..start
        }),
    decreases samples.len(),
{
    if samples.len() > 0 {
        law_rest_is_unbroken(start, samples.drop_last());
    }
}

/// A sample is at rest where its acceleration lies between the two limits and its
/// turning rate below the third, the limits themselves left out.
pub proof fn law_rest_lies_within_limits(
    acc_norm: Double,
    gyro_norm: Double,
    low: u64,
    high: u64,
    gyro: u64,
    r: bool,
)
    requires
        call_ensures(rests, (acc_norm, gyro_norm, low, high, gyro), r),
        low <= 0x7ff0_0000_0000_0000,
        high <= 0x7ff0_0000_0000_0000,
        gyro <= 0x7ff0_0000_0000_0000,
    ensures
        acc_norm.nan() || gyro_norm.nan() ==> !r,
        acc_norm.sign() ==> !r,
        !acc_norm.sign() && !gyro_norm.sign() ==> (r <==> low < acc_norm.bits < high
            && gyro_norm.bits < gyro),
        !acc_norm.sign() && gyro_norm.sign() && !gyro_norm.nan() && gyro > 0 ==> (r <==> low
            < acc_norm.bits < high),
{
    crate::double::lemma_magnitude_units_order(0, gyro_norm.magnitude());
    crate::double::lemma_magnitude_units_order(0, gyro as int);
    crate::double::lemma_magnitude_units_order(low as int, acc_norm.magnitude());
    crate::double::lemma_magnitude_units_order(acc_norm.magnitude(), high as int);
    crate::double::lemma_magnitude_units_order(gyro_norm.magnitude(), gyro as int);
    crate::double::lemma_magnitude_units_order(0, acc_norm.magnitude());
    crate::double::lemma_magnitude_units_order(0, low as int);
}

/// A sample counts as still between eight and twelve tenths of gravity, and below a
/// turning rate of 0.15 rad/s.
pub proof fn law_still_means_nearly_gravity(acc_norm: Double, gyro_norm: Double, r: bool)
    requires
        call_ensures(GyroCalibrator::still, (acc_norm, gyro_norm), r),
        !acc_norm.sign(),
        !gyro_norm.sign(),
    ensures
        r <==> 0x401f_645a_1cac_0832 < acc_norm.bits < 0x4027_8b43_9581_0625 && gyro_norm.bits
            < 0x3fc3_3333_3333_3333,
{
    crate::double::lemma_magnitude_units_order(STILL_ACCEL_MIN as int, acc_norm.magnitude());
    crate::double::lemma_magnitude_units_order(acc_norm.magnitude(), STILL_ACCEL_MAX as int);
    crate::double::lemma_magnitude_units_order(gyro_norm.magnitude(), STILL_GYRO as int);
}

/// Sums are divided by the number of samples: for the bias where there is one, for the
/// deviation where there are two.
pub proof fn law_sums_are_divided_by_samples(end: CalibEnd, bias: Option<u64>, dev: Option<u64>)
    requires
        call_ensures(bias_divisor, (end,), bias),
        call_ensures(deviation_divisor, (end,), dev),
    ensures
        end.samples == 0 ==> bias is None && dev is None,
        end.samples == 1 ==> bias == Some(1u64) && dev is None,
        end.samples >= 2 ==> bias == Some(end.samples) && dev == Some(end.samples),
{
}

/// A window lasts as long as was asked for, and a tenth of a second where that is less,
/// or no number.
pub proof fn law_window_lasts_a_tenth(seconds: Double, c: GyroCalibrator, b: BiasRefresher)
    requires
        call_ensures(GyroCalibrator::new, (seconds,), c),
        call_ensures(BiasRefresher::new, (seconds,), b),
    ensures
        seconds.nan() || seconds.sign() || seconds.bits < 0x3fb9_9999_9999_999a
            ==> c.window.bits == 0x3fb9_9999_9999_999a,
        !seconds.nan() && !seconds.sign() && seconds.bits >= 0x3fb9_9999_9999_999a ==> c.window
            == seconds,
        b.window == c.window,
        c.start_t is None && c.prev_t is None && c.count == 0 && !c.done,
        b.rest_t is None && b.count == 0,
{
    crate::double::lemma_magnitude_units_order(seconds.magnitude(), settings::TENTH as int);
    crate::double::lemma_magnitude_units_order(0, seconds.magnitude());
    crate::double::lemma_magnitude_units_order(0, settings::TENTH as int);
}

/// The first sample sets the start, and each is the one before the next. What is over
/// takes note of nothing.
pub proof fn law_first_sample_sets_start(c: &mut GyroCalibrator, t: Double, r: Option<Moment>)
    requires
        call_ensures(GyroCalibrator::begin, (c, t), r),
    ensures
        old(c).done ==> r is None && *final(c) == *old(c),
        !old(c).done ==> {
            &&& r matches Some(m) && m.previous == old(c).prev_t && final(c).start_t == Some(m.start)
            &&& old(c).start_t is None ==> final(c).start_t == Some(t)
            &&& old(c).start_t is Some ==> final(c).start_t == old(c).start_t
            &&& final(c).prev_t == Some(t)
        },
        final(c).window == old(c).window && final(c).count == old(c).count,
        final(c).done == old(c).done,
{
}

/// A sample at rest is counted, and no other. The calibration ends with the sample that
/// fills the time at rest, and then is complete; or with the first at the end of the
/// wait, and then is not. It ends once.
pub proof fn law_calibration_ends_when_filled(
    c: &mut GyroCalibrator,
    still: bool,
    valid: Double,
    needed: Double,
    elapsed: Double,
    max_wait: Double,
    r: Option<CalibEnd>,
)
    requires
        old(c).count < u64::MAX,
        call_ensures(GyroCalibrator::push, (c, still, valid, needed, elapsed, max_wait), r),
    ensures
        old(c).done ==> r is None && *final(c) == *old(c),
        !old(c).done ==> {
            let filled = !valid.nan() && !needed.nan() && valid.units() >= needed.units();
            let late = !elapsed.nan() && !max_wait.nan() && elapsed.units() >= max_wait.units();
            &&& still ==> final(c).count == old(c).count + 1
            &&& !still ==> final(c).count == old(c).count
            &&& r is Some <==> filled || late
            &&& final(c).done <==> r is Some
            &&& r matches Some(end) ==> end.samples == final(c).count && (end.complete <==> filled)
        },
        final(c).window == old(c).window,
        final(c).start_t == old(c).start_t && final(c).prev_t == old(c).prev_t,
{
}

/// A rest goes on from its first sample until one in motion ends it.
pub proof fn law_motion_ends_rest(b: &mut BiasRefresher, t: Double, still: bool, r: Option<Double>)
    requires
        old(b).count < u64::MAX,
        call_ensures(BiasRefresher::rest, (b, t, still), r),
    ensures
        r == final(b).rest_t,
        !still ==> r is None && final(b).count == 0,
        still && old(b).rest_t is None ==> r == Some(t),
        still && old(b).rest_t is Some ==> r == old(b).rest_t,
        still ==> final(b).count == old(b).count + 1,
        final(b).window == old(b).window,
{
}

/// A rest that has lasted long enough gives its number of samples, and a new one
/// begins; another goes on.
pub proof fn law_long_rest_gives_bias(
    b: &mut BiasRefresher,
    elapsed: Double,
    needed: Double,
    r: Option<u64>,
)
    requires
        call_ensures(BiasRefresher::feed, (b, elapsed, needed), r),
    ensures
        r is Some <==> old(b).rest_t is Some && !elapsed.nan() && !needed.nan() && elapsed.units()
            >= needed.units(),
        r matches Some(n) ==> n == old(b).count && final(b).rest_t is None && final(b).count == 0,
        r is None ==> *final(b) == *old(b),
        final(b).window == old(b).window,
{
}

} // verus!
