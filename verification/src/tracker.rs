//! The inertial tracker: what each sample and each pose leads to.

use crate::calib;
use crate::double;
use crate::double::Double;
use crate::imu::ImuError;
use crate::settings::Settings;
use crate::text;
use crate::text::pad;
use vstd::prelude::*;

verus! {

/// An orientation as a quaternion.
#[derive(Debug, Clone, Copy, PartialEq, Eq, Structural)]
pub struct Quat {
    pub w: Double,
    pub x: Double,
    pub y: Double,
    pub z: Double,
}

impl Quat {
    /// The conjugate: the opposite rotation, for a unit quaternion.
    pub open spec fn conjugated(self) -> Quat {
        Quat { w: self.w, x: self.x.negated(), y: self.y.negated(), z: self.z.negated() }
    }

    /// The quaternion with all its parts negated: the same rotation.
    pub open spec fn negated(self) -> Quat {
        Quat {
            w: self.w.negated(),
            x: self.x.negated(),
            y: self.y.negated(),
            z: self.z.negated(),
        }
    }

    /// The quaternion with these parts.
    pub fn new(w: Double, x: Double, y: Double, z: Double) -> (r: Quat)
        ensures
            r == (Quat { w, x, y, z }),
    {
        Quat { w, x, y, z }
    }

    /// The conjugate: the opposite rotation, for a unit quaternion.
    pub fn conjugate(self) -> (r: Quat)
        ensures
            r == self.conjugated(),
    {
        Quat { w: self.w, x: self.x.neg(), y: self.y.neg(), z: self.z.neg() }
    }
}

/// Conjugating twice gives the quaternion back.
pub proof fn law_conjugate_is_its_own_inverse(q: Quat)
    ensures
        q.conjugated().conjugated() == q,
{
}

/// A filtered pose: the time, yaw, pitch and roll in radians, and the orientation.
#[derive(Debug, Clone, Copy, PartialEq, Eq)]
pub struct Pose {
    pub t: Double,
    pub ypr_rad: [Double; 3],
    pub q: Quat,
}

/// The last instant that the clock can name, in nanoseconds.
pub const LAST_INSTANT: u128 = 9_223_372_036_854_775_807_999_999_999;

/// Rate gate with a fixed next opening. Times are in nanoseconds.
#[derive(Debug, Clone, Copy, PartialEq, Eq, Structural)]
pub struct RateGate {
    pub interval: u128,
    pub next: u128,
}

impl RateGate {
    /// An action is let through at `now`.
    pub open spec fn opens_at(self, now: u128) -> bool {
        now >= self.next
    }

    /// The limiter after it let an action through at `now`.
    pub open spec fn passed(self, now: u128) -> RateGate {
        RateGate { interval: self.interval, next: (now + self.interval) as u128 }
    }

    /// A gate that opens at `now`, and then once in `interval`.
    pub fn new(interval: u128, now: u128) -> (r: RateGate)
        ensures
            r.interval == interval,
            r.next == now,
    {
        RateGate { interval, next: now }
    }

    /// Whether an action is let through at `now`; if so, the next one can be an
    /// interval later.
    pub fn allow(&mut self, now: u128) -> (r: bool)
        requires
            old(self).opens_at(now) ==> now + old(self).interval <= LAST_INSTANT,
        ensures
            r == old(self).opens_at(now),
            *final(self) == if r {
                old(self).passed(now)
            } else {
                *old(self)
            },
    {
        if now >= self.next {
            self.next = now + self.interval;
            true
        } else {
            false
        }
    }
}

/// After an action was let through, the next one has to wait for an interval.
pub proof fn law_gate_keeps_interval(g: RateGate, first: u128, later: u128)
    requires
        g.opens_at(first),
        first + g.interval <= LAST_INSTANT,
        g.passed(first).opens_at(later),
    ensures
        later - first >= g.interval,
{
}

/// The bit pattern of half of gravity, in m/s².
pub const REST_ACCEL_MIN: u64 = 0x4013_9eb8_51eb_851f;

/// The bit pattern of one and a half times gravity, in m/s².
pub const REST_ACCEL_MAX: u64 = 0x402d_6e14_7ae1_47ae;

/// The bit pattern of 0.05 rad/s.
pub const REST_GYRO: u64 = 0x3fa9_9999_9999_999a;

/// The bit pattern of a billionth.
pub const BILLIONTH: u64 = 0x3e11_2e0b_e826_d695;

/// The calibration at startup: the samples at rest within a window of time.
#[derive(Debug, Clone, Copy, PartialEq, Eq, Structural)]
pub struct Calibrator {
    pub window_seconds: Double,
    pub start_t: Option<Double>,
    pub samples: u64,
    pub done: bool,
}

impl Calibrator {
    /// The calibration after it took note of the time of a sample: the first one begins
    /// it.
    pub open spec fn begun(self, t: Double) -> Calibrator {
        if self.done || self.start_t is Some {
            self
        } else {
            Calibrator { start_t: Some(t), ..self }
        }
    }

    /// The calibration after it took in a sample, and what it returns.
    pub open spec fn pushed(self, still: bool, elapsed: Double) -> (Calibrator, Option<u64>) {
        if self.done {
            (self, None)
        } else {
            let samples = if still {
                (self.samples + 1) as u64
            } else {
                self.samples
            };
            let over = self.window_seconds.at_most(elapsed);
            (
                Calibrator { samples, done: over, ..self },
                if !over {
                    None
                } else if samples == 0 {
                    Some(1)
                } else {
                    Some(samples)
                },
            )
        }
    }

    /// A calibration over so many seconds.
    pub fn new(window_seconds: Double) -> (r: Calibrator)
        ensures
            r == (Calibrator { window_seconds, start_t: None, samples: 0, done: false }),
    {
        Calibrator { window_seconds, start_t: None, samples: 0, done: false }
    }

    /// Takes note of the time of a sample, and returns that of the first one;
    /// `None` when the calibration is over.
    pub fn begin(&mut self, t: Double) -> (r: Option<Double>)
        ensures
            *final(self) == old(self).begun(t),
            r == if old(self).done {
                None
            } else {
                final(self).start_t
            },
    {
        if self.done {
            return None;
        }
        let start = match self.start_t {
            Some(s) => s,
            None => t,
        };
        self.start_t = Some(start);
        Some(start)
    }

    /// Whether a sample counts as still.
    pub fn still(acc_norm: Double, gyro_norm: Double) -> (r: bool)
        ensures
            r == calib::at_rest(acc_norm, gyro_norm, REST_ACCEL_MIN, REST_ACCEL_MAX, REST_GYRO),
    {
        calib::rests(acc_norm, gyro_norm, REST_ACCEL_MIN, REST_ACCEL_MAX, REST_GYRO)
    }

    /// Takes in a sample `elapsed` seconds after the first one. When the window is
    /// over, returns what the readings at rest are to be divided by.
    pub fn push(&mut self, still: bool, elapsed: Double) -> (r: Option<u64>)
        requires
            old(self).samples < u64::MAX,
        ensures
            (*final(self), r) == old(self).pushed(still, elapsed),
    {
        if self.done {
            return None;
        }
        if still {
            self.samples = self.samples + 1;
        }
        if !self.window_seconds.le(elapsed) {
            return None;
        }
        self.done = true;
        if self.samples == 0 {
            Some(1)
        } else {
            Some(self.samples)
        }
    }
}

/// `v`, moved into the range from 0 to 1.
pub open spec fn unit_clamped(v: Double) -> Double {
    if v.less(Double::zero()) {
        Double::zero()
    } else if Double::one().less(v) {
        Double::one()
    } else {
        v
    }
}

/// `v`, moved into the range from 0 to 1.
pub fn clamp_unit(v: Double) -> (r: Double)
    ensures
        r == unit_clamped(v),
{
    let zero = Double { bits: 0 };
    let one = Double { bits: crate::double::ONE };
    if v.lt(zero) {
        zero
    } else if one.lt(v) {
        one
    } else {
        v
    }
}

/// How a fresh orientation is smoothed.
#[derive(Debug, Clone, Copy, PartialEq, Eq, Structural)]
pub enum Blend {
    /// It is taken as it is.
    Fresh,
    /// The previous one stays.
    Previous,
    /// It is mixed in with this weight.
    Mix(Double),
}

/// How a fresh orientation is smoothed with the weight `alpha`.
pub open spec fn blended(has_previous: bool, alpha: Double) -> Blend {
    let a = unit_clamped(alpha);
    if !has_previous || Double::one().at_most(a) {
        Blend::Fresh
    } else if a.at_most(Double::zero()) {
        Blend::Previous
    } else {
        Blend::Mix(a)
    }
}

/// The first orientation is taken as it is; then a weight of one or more takes the fresh
/// one, and a weight of zero or less keeps the previous.
pub proof fn law_extreme_weights_do_not_mix(alpha: Double)
    ensures
        blended(false, alpha) == Blend::Fresh,
        Double::one().at_most(alpha) ==> blended(true, alpha) == Blend::Fresh,
        alpha.at_most(Double::zero()) ==> blended(true, alpha) == Blend::Previous,
        Double::zero().less(alpha) && alpha.less(Double::one()) ==> blended(true, alpha)
            == Blend::Mix(alpha),
{
    double::lemma_magnitude_units_order(0, double::ONE as int);
}

/// Of `q` and its negative, the one on the side of the orientation that it is mixed
/// with, where `dot` is the scalar product of the two.
pub open spec fn nearer_of(q: Quat, dot: Double) -> Quat {
    if dot.less(Double::zero()) {
        q.negated()
    } else {
        q
    }
}

/// Of `q` and its negative, the one on the side of the orientation that it is mixed
/// with, where `dot` is the scalar product of the two. Mixed with the other one, they
/// could cancel out.
pub fn nearer(q: Quat, dot: Double) -> (r: Quat)
    ensures
        r == nearer_of(q, dot),
{
    if dot.lt(Double { bits: 0 }) {
        Quat { w: q.w.neg(), x: q.x.neg(), y: q.y.neg(), z: q.z.neg() }
    } else {
        q
    }
}

/// The scalar product of the orientation that is mixed in.
pub open spec fn nearer_product(dot: Double) -> Double {
    if dot.less(Double::zero()) {
        dot.negated()
    } else {
        dot
    }
}

/// The smoothing takes an orientation and its negative, which are the same rotation, for
/// the same: whichever is given, the same one is mixed in, the one that does not point
/// away. So long as the scalar product is a number other than zero, its sign tells them
/// apart.
pub proof fn law_smoothing_ignores_sign(q: Quat, dot: Double)
    requires
        dot.less(Double::zero()) || Double::zero().less(dot),
    ensures
        nearer_of(q.negated(), dot.negated()) == nearer_of(q, dot),
        Double::zero().less(nearer_product(dot)),
{
    double::law_negation_is_its_own_inverse(q.w);
    double::law_negation_is_its_own_inverse(q.x);
    double::law_negation_is_its_own_inverse(q.y);
    double::law_negation_is_its_own_inverse(q.z);
    double::law_negation_is_its_own_inverse(dot);
    double::lemma_magnitude_units_order(0, 0);
}

/// How a fresh orientation is smoothed with the weight `alpha`, given whether there
/// is one to smooth it with.
pub fn ema_blend(has_previous: bool, alpha: Double) -> (r: Blend)
    ensures
        r == blended(has_previous, alpha),
{
    if !has_previous {
        return Blend::Fresh;
    }
    let a = clamp_unit(alpha);
    if (Double { bits: crate::double::ONE }).le(a) {
        Blend::Fresh
    } else if a.le(Double { bits: 0 }) {
        Blend::Previous
    } else {
        Blend::Mix(a)
    }
}

/// What is to be done with a sample.
#[derive(Debug, Clone, Copy, PartialEq, Eq, Structural)]
pub enum Use {
    /// It goes to the calibration, whose first sample has this time.
    Calibrate { start: Double },
    /// It goes to the filter; the sample before it has this time.
    Filter { previous: Option<Double> },
}

/// The state of the inertial tracker, apart from its filter.
#[derive(Debug, Clone, Copy, PartialEq, Eq, Structural)]
pub struct ImuTracker {
    pub calib: Option<Calibrator>,
    pub prev_t: Option<Double>,
    /// The weight of a fresh sample; zero is off.
    pub jitter_alpha: Double,
    /// There is a smoothed orientation.
    pub smoothed: bool,
}

impl ImuTracker {
    /// A tracker that was not configured.
    pub fn open() -> (r: ImuTracker)
        ensures
            r == (ImuTracker {
                calib: None,
                prev_t: None,
                jitter_alpha: Double::zero(),
                smoothed: false,
            }),
    {
        ImuTracker { calib: None, prev_t: None, jitter_alpha: Double { bits: 0 }, smoothed: false }
    }

    /// Starts over with these settings.
    pub fn configure(&mut self, settings: &Settings)
        ensures
            *final(self) == (ImuTracker {
                calib: if Double::zero().less(settings.gyro_calib) {
                    Some(
                        Calibrator {
                            window_seconds: settings.gyro_calib,
                            start_t: None,
                            samples: 0,
                            done: false,
                        },
                    )
                } else {
                    None
                },
                prev_t: None,
                jitter_alpha: if settings.jitter_filter {
                    settings.jitter_alpha
                } else {
                    Double::zero()
                },
                smoothed: false,
            }),
    {
        let zero = Double { bits: 0 };
        self.calib = if zero.lt(settings.gyro_calib) {
            Some(Calibrator::new(settings.gyro_calib))
        } else {
            None
        };
        self.prev_t = None;
        self.jitter_alpha = if settings.jitter_filter {
            settings.jitter_alpha
        } else {
            zero
        };
        self.smoothed = false;
    }

    /// Turns the smoothing on, with this weight, or off.
    pub fn set_jitter_filter(&mut self, enabled: bool, alpha: Double)
        ensures
            *final(self) == (ImuTracker {
                jitter_alpha: if enabled {
                    unit_clamped(alpha)
                } else {
                    Double::zero()
                },
                ..*old(self)
            }),
    {
        self.jitter_alpha = if enabled {
            clamp_unit(alpha)
        } else {
            Double { bits: 0 }
        };
    }

    /// Whether the calibration is still running.
    pub fn calibrating(&self) -> (r: bool)
        ensures
            r == self.calib is Some,
    {
        self.calib.is_some()
    }

    /// What is to be done with a sample of the time `t`. While the calibration runs
    /// it takes the samples; a calibration that has ended takes none.
    pub fn next_pose(&mut self, t: Double) -> (r: Use)
        requires
            old(self).calib matches Some(c) ==> !c.done,
        ensures
            match old(self).calib {
                Some(c) => {
                    let start = match c.start_t {
                        Some(s) => s,
                        None => t,
                    };
                    &&& r == (Use::Calibrate { start })
                    &&& *final(self) == (ImuTracker {
                        calib: Some(Calibrator { start_t: Some(start), ..c }),
                        ..*old(self)
                    })
                },
                None => {
                    &&& r == (Use::Filter { previous: old(self).prev_t })
                    &&& *final(self) == (ImuTracker { prev_t: Some(t), ..*old(self) })
                },
            },
    {
        if let Some(c) = self.calib {
            let start = match c.start_t {
                Some(s) => s,
                None => t,
            };
            self.calib =
            Some(
                Calibrator {
                    window_seconds: c.window_seconds,
                    start_t: Some(start),
                    samples: c.samples,
                    done: c.done,
                },
            );
            return Use::Calibrate { start };
        }
        let previous = self.prev_t;
        self.prev_t = Some(t);
        Use::Filter { previous }
    }

    /// Hands a sample of the time `t` to the calibration, `elapsed` seconds after
    /// its first one. When the window is over the calibration ends, the filter
    /// starts at `t`, and what the readings at rest are to be divided by is
    /// returned.
    pub fn calibrate(&mut self, t: Double, still: bool, elapsed: Double) -> (r: Option<u64>)
        requires
            old(self).calib matches Some(c) && !c.done && c.samples < u64::MAX,
        ensures
            ({
                let c = old(self).calib->0;
                let samples = if still {
                    (c.samples + 1) as u64
                } else {
                    c.samples
                };
                if c.window_seconds.at_most(elapsed) {
                    &&& r == if samples == 0 {
                        Some(1u64)
                    } else {
                        Some(samples)
                    }
                    &&& *final(self) == (ImuTracker {
                        calib: None,
                        prev_t: Some(t),
                        ..*old(self)
                    })
                } else {
                    &&& r is None
                    &&& *final(self) == (ImuTracker {
                        calib: Some(Calibrator { samples, ..c }),
                        ..*old(self)
                    })
                }
            }),
    {
        let mut c = match self.calib {
            Some(c) => c,
            None => {
                return None;
            },
        };
        let over = c.push(still, elapsed);
        if over.is_some() {
            self.calib = None;
            self.prev_t = Some(t);
        } else {
            self.calib = Some(c);
        }
        over
    }

    /// How a fresh orientation is smoothed; `None` when the smoothing is off.
    /// Whatever comes out is there to smooth the next one with.
    pub fn smooth(&mut self) -> (r: Option<Blend>)
        ensures
            if Double::zero().less(old(self).jitter_alpha) {
                &&& r == Some(blended(old(self).smoothed, old(self).jitter_alpha))
                &&& *final(self) == (ImuTracker { smoothed: true, ..*old(self) })
            } else {
                r is None && *final(self) == *old(self)
            },
    {
        if !(Double { bits: 0 }).lt(self.jitter_alpha) {
            return None;
        }
        let blend = ema_blend(self.smoothed, self.jitter_alpha);
        self.smoothed = true;
        Some(blend)
    }
}

/// Whether a time step is long enough to take a rate from.
pub fn gives_rate(dt: Double) -> (r: bool)
    ensures
        r == (Double { bits: BILLIONTH }).less(dt),
{
    (Double { bits: BILLIONTH }).lt(dt)
}

/// The number of samples after which the rate is reported.
pub const RATE_SAMPLES: u64 = 30;

/// Whether to report the rate: once, with the sample of that number.
pub fn rate_due(reported: bool, samples: u64) -> (r: bool)
    ensures
        r == (!reported && samples == RATE_SAMPLES),
{
    !reported && samples == RATE_SAMPLES
}

/// Whether the readout is due: it is on, and a period has passed since the last.
pub fn hud_due(hud_rate: Double, elapsed: Double, period: Double) -> (r: bool)
    ensures
        r == (Double::zero().less(hud_rate) && period.at_most(elapsed)),
{
    (Double { bits: 0 }).lt(hud_rate) && period.le(elapsed)
}

/// The text of an angle in a column of seven characters.
pub open spec fn wide_column(s: Seq<char>) -> Seq<char> {
    text::padded(s, ' ', 7)
}

/// The readout of the angles, in radians or degrees.
pub open spec fn angles_line(a: Seq<Seq<char>>, rad: bool) -> Seq<char> {
    if rad {
        "YAW "@ + wide_column(a[0]) + "  PITCH "@ + wide_column(a[1]) + "  ROLL "@ + wide_column(
            a[2],
        ) + " rad"@
    } else {
        "YAW "@ + wide_column(a[0]) + "°  PITCH "@ + wide_column(a[1]) + "°  ROLL "@ + wide_column(
            a[2],
        ) + "°"@
    }
}

/// The readout of the angles, from their texts.
pub fn hud_line(angles: &[String; 3], rad: bool) -> (r: String)
    ensures
        r@ == angles_line(text::texts(angles@), rad),
{
    let mut m = "YAW ".to_owned();
    m.append(pad(angles[0].as_str(), ' ', 7).as_str());
    m.append(
        if rad {
            "  PITCH "
        } else {
            "°  PITCH "
        },
    );
    m.append(pad(angles[1].as_str(), ' ', 7).as_str());
    m.append(
        if rad {
            "  ROLL "
        } else {
            "°  ROLL "
        },
    );
    m.append(pad(angles[2].as_str(), ' ', 7).as_str());
    m.append(
        if rad {
            " rad"
        } else {
            "°"
        },
    );
    m
}

/// How the program ends.
#[derive(Debug, Clone, Copy, PartialEq, Eq, Structural)]
pub enum Ending {
    /// It was asked to stop, or had nothing more to do.
    Clean,
    /// The device could not be opened, or the settings not be written.
    Setup,
    /// The command line could not be understood.
    Usage,
    /// The device was unplugged.
    Unplugged,
}

/// The exit code of an ending.
pub fn exit_code(ending: Ending) -> (r: u8)
    ensures
        r == match ending {
            Ending::Clean => 0u8,
            Ending::Setup => 1,
            Ending::Usage => 2,
            Ending::Unplugged => 3,
        },
{
    match ending {
        Ending::Clean => 0,
        Ending::Setup => 1,
        Ending::Usage => 2,
        Ending::Unplugged => 3,
    }
}

/// How the program ends on an error of its input: cleanly at the end of a recorded log,
/// and when it was interrupted while the device was read.
pub fn on_imu_error(e: &ImuError, interrupted: bool) -> (r: Ending)
    ensures
        r == match *e {
            ImuError::Eof => Ending::Clean,
            ImuError::Io(_) => Ending::Setup,
            ImuError::Unplugged(_) => if interrupted {
                Ending::Clean
            } else {
                Ending::Unplugged
            },
        },
{
    match e {
        ImuError::Eof => Ending::Clean,
        ImuError::Io(_) => Ending::Setup,
        ImuError::Unplugged(_) => on_read_failure(interrupted),
    }
}

/// How the program ends when a sample cannot be read: cleanly when it was
/// interrupted, else because the device is gone.
pub fn on_read_failure(interrupted: bool) -> (r: Ending)
    ensures
        r == if interrupted {
            Ending::Clean
        } else {
            Ending::Unplugged
        },
{
    if interrupted {
        Ending::Clean
    } else {
        Ending::Unplugged
    }
}

/// What the main loop has announced.
#[derive(Debug, Clone, Copy, PartialEq, Eq, Structural)]
pub struct Announcements {
    pub was_calibrating: bool,
    pub rate_reported: bool,
}

impl Announcements {
    /// Nothing announced; `calibrating` says whether a calibration is to end.
    pub fn new(calibrating: bool) -> (r: Announcements)
        ensures
            r == (Announcements { was_calibrating: calibrating, rate_reported: false }),
    {
        Announcements { was_calibrating: calibrating, rate_reported: false }
    }

    /// Whether to announce the end of the calibration: once, when it has ended.
    pub fn on_no_pose(&mut self, calibrating: bool) -> (r: bool)
        ensures
            r == (old(self).was_calibrating && !calibrating),
            *final(self) == (Announcements {
                was_calibrating: old(self).was_calibrating && calibrating,
                ..*old(self)
            }),
    {
        if self.was_calibrating && !calibrating {
            self.was_calibrating = false;
            true
        } else {
            false
        }
    }

    /// Whether to report the rate: with the first pose.
    pub fn on_pose(&mut self) -> (r: bool)
        ensures
            r == !old(self).rate_reported,
            *final(self) == (Announcements { rate_reported: true, ..*old(self) }),
    {
        let first = !self.rate_reported;
        self.rate_reported = true;
        first
    }
}

/// The conjugate keeps the scalar part, and turns the sign of each of the other three.
pub proof fn law_conjugate_turns_vector_part(
    w: Double,
    x: Double,
    y: Double,
    z: Double,
    q: Quat,
    r: Quat,
)
    requires
        call_ensures(Quat::new, (w, x, y, z), q),
        call_ensures(Quat::conjugate, (q,), r),
    ensures
        r.w == w,
        r.x.units() == -x.units() && r.x.sign() != x.sign() && r.x.magnitude() == x.magnitude(),
        r.y.units() == -y.units() && r.y.sign() != y.sign() && r.y.magnitude() == y.magnitude(),
        r.z.units() == -z.units() && r.z.sign() != z.sign() && r.z.magnitude() == z.magnitude(),
{
}

/// An orientation that points away is replaced by its negative, all four parts of it,
/// and another stays as it is.
pub proof fn law_nearer_turns_all_parts(q: Quat, dot: Double, r: Quat)
    requires
        call_ensures(nearer, (q, dot), r),
    ensures
        !dot.nan() && dot.units() < 0 ==> {
            &&& r.w.sign() != q.w.sign() && r.w.magnitude() == q.w.magnitude()
            &&& r.x.sign() != q.x.sign() && r.x.magnitude() == q.x.magnitude()
            &&& r.y.sign() != q.y.sign() && r.y.magnitude() == q.y.magnitude()
            &&& r.z.sign() != q.z.sign() && r.z.magnitude() == q.z.magnitude()
        },
        dot.nan() || dot.units() >= 0 ==> r == q,
{
    double::lemma_magnitude_units_order(0, 0);
}

/// A gate opens from its next opening on, and then not before an interval has passed.
pub proof fn law_gate_opens_from_next_on(
    interval: u128,
    start: u128,
    fresh: RateGate,
    g: &mut RateGate,
    now: u128,
    r: bool,
)
    requires
        call_ensures(RateGate::new, (interval, start), fresh),
        now + old(g).interval <= u128::MAX,
        call_ensures(RateGate::allow, (g, now), r),
    ensures
        fresh.interval == interval && fresh.next == start,
        r <==> now >= old(g).next,
        r ==> final(g).next == now + old(g).interval,
        !r ==> final(g).next == old(g).next,
        final(g).interval == old(g).interval,
{
}

/// A sample counts as still between half of gravity and one and a half times it, and
/// below a turning rate of 0.05 rad/s.
pub proof fn law_still_means_about_gravity(acc_norm: Double, gyro_norm: Double, r: bool)
    requires
        call_ensures(Calibrator::still, (acc_norm, gyro_norm), r),
        !acc_norm.sign(),
        !gyro_norm.sign(),
    ensures
        r <==> 0x4013_9eb8_51eb_851f < acc_norm.bits < 0x402d_6e14_7ae1_47ae && gyro_norm.bits
            < 0x3fa9_9999_9999_999a,
{
    double::lemma_magnitude_units_order(REST_ACCEL_MIN as int, acc_norm.magnitude());
    double::lemma_magnitude_units_order(acc_norm.magnitude(), REST_ACCEL_MAX as int);
    double::lemma_magnitude_units_order(gyro_norm.magnitude(), REST_GYRO as int);
}

/// The calibration waits for its first sample, and takes its time as the start.
pub proof fn law_first_sample_sets_start(
    window: Double,
    fresh: Calibrator,
    c: &mut Calibrator,
    t: Double,
    r: Option<Double>,
)
    requires
        call_ensures(Calibrator::new, (window,), fresh),
        call_ensures(Calibrator::begin, (c, t), r),
    ensures
        fresh.window_seconds == window && fresh.start_t is None,
        fresh.samples == 0 && !fresh.done,
        old(c).done ==> r is None && *final(c) == *old(c),
        !old(c).done ==> {
            &&& old(c).start_t is None ==> r == Some(t)
            &&& old(c).start_t is Some ==> r == old(c).start_t
            &&& final(c).start_t == r
        },
        final(c).samples == old(c).samples && final(c).done == old(c).done,
        final(c).window_seconds == old(c).window_seconds,
{
}

/// A sample at rest is counted, and no other. When the window is over the calibration
/// ends, and returns the number of samples, or one where there are none.
pub proof fn law_calibration_ends_with_window(
    c: &mut Calibrator,
    still: bool,
    elapsed: Double,
    r: Option<u64>,
)
    requires
        old(c).samples < u64::MAX,
        call_ensures(Calibrator::push, (c, still, elapsed), r),
    ensures
        old(c).done ==> r is None && *final(c) == *old(c),
        !old(c).done ==> {
            &&& still ==> final(c).samples == old(c).samples + 1
            &&& !still ==> final(c).samples == old(c).samples
            &&& r is Some <==> !elapsed.nan() && !old(c).window_seconds.nan() && elapsed.units()
                >= old(c).window_seconds.units()
            &&& final(c).done <==> r is Some
            &&& r matches Some(n) ==> n >= 1 && (final(c).samples >= 1 ==> n == final(c).samples)
                && (final(c).samples == 0 ==> n == 1)
        },
        final(c).start_t == old(c).start_t,
        final(c).window_seconds == old(c).window_seconds,
{
}

/// A number between zero and one stays, and one beyond them becomes the nearer of the
/// two.
pub proof fn law_unit_range_is_kept(v: Double, r: Double)
    requires
        call_ensures(clamp_unit, (v,), r),
    ensures
        v.bits <= 0x3ff0_0000_0000_0000 ==> r == v,
        0x3ff0_0000_0000_0000 < v.bits <= 0x7ff0_0000_0000_0000 ==> r.bits
            == 0x3ff0_0000_0000_0000,
        0x8000_0000_0000_0000 < v.bits <= 0xfff0_0000_0000_0000 ==> r.bits == 0,
        v.nan() ==> r == v,
{
    double::lemma_magnitude_units_order(0, v.magnitude());
    double::lemma_magnitude_units_order(v.magnitude(), double::ONE as int);
    double::lemma_magnitude_units_order(0, double::ONE as int);
}

/// The first orientation is taken as it is. Then a weight of one or more takes the fresh
/// one, a weight of zero or less keeps the previous, and a weight between mixes them by
/// itself.
pub proof fn law_weight_mixes(alpha: Double, first: Blend, later: Blend)
    requires
        call_ensures(ema_blend, (false, alpha), first),
        call_ensures(ema_blend, (true, alpha), later),
    ensures
        first is Fresh,
        0x3ff0_0000_0000_0000 <= alpha.bits <= 0x7ff0_0000_0000_0000 ==> later is Fresh,
        alpha.bits == 0 || 0x8000_0000_0000_0000 <= alpha.bits <= 0xfff0_0000_0000_0000
            ==> later is Previous,
        0 < alpha.bits < 0x3ff0_0000_0000_0000 ==> later == Blend::Mix(alpha),
{
    double::lemma_magnitude_units_order(0, alpha.magnitude());
    double::lemma_magnitude_units_order(alpha.magnitude(), double::ONE as int);
    double::lemma_magnitude_units_order(0, double::ONE as int);
}

/// A tracker that was just opened calibrates nothing and smooths nothing.
pub proof fn law_open_tracker_is_idle(k: ImuTracker, calibrating: bool)
    requires
        call_ensures(ImuTracker::open, (), k),
        call_ensures(ImuTracker::calibrating, (&k,), calibrating),
    ensures
        !calibrating,
        k.prev_t is None && !k.smoothed && k.jitter_alpha.bits == 0,
{
}

/// The settings decide whether there is a calibration, for how long, and how much is
/// smoothed; all else starts over.
pub proof fn law_settings_configure_tracker(k: &mut ImuTracker, s: Settings)
    requires
        call_ensures(ImuTracker::configure, (k, &s), ()),
    ensures
        final(k).calib is Some <==> !s.gyro_calib.nan() && s.gyro_calib.units() > 0,
        final(k).calib matches Some(c) ==> c.window_seconds == s.gyro_calib && c.start_t is None
            && c.samples == 0 && !c.done,
        s.jitter_filter ==> final(k).jitter_alpha == s.jitter_alpha,
        !s.jitter_filter ==> final(k).jitter_alpha.bits == 0,
        final(k).prev_t is None,
        !final(k).smoothed,
{
    double::lemma_magnitude_units_order(0, 0);
}

/// Turning the smoothing on takes a weight between zero and one as it is; turning it
/// off leaves none. Nothing else changes.
pub proof fn law_smoothing_is_switched(k: &mut ImuTracker, enabled: bool, alpha: Double)
    requires
        call_ensures(ImuTracker::set_jitter_filter, (k, enabled, alpha), ()),
    ensures
        !enabled ==> final(k).jitter_alpha.bits == 0,
        enabled && alpha.bits <= 0x3ff0_0000_0000_0000 ==> final(k).jitter_alpha == alpha,
        enabled && 0x3ff0_0000_0000_0000 < alpha.bits <= 0x7ff0_0000_0000_0000 ==> final(k).jitter_alpha.bits == 0x3ff0_0000_0000_0000,
        enabled && 0x8000_0000_0000_0000 < alpha.bits <= 0xfff0_0000_0000_0000 ==> final(k).jitter_alpha.bits == 0,
        final(k).calib == old(k).calib,
        final(k).prev_t == old(k).prev_t,
        final(k).smoothed == old(k).smoothed,
{
    double::lemma_magnitude_units_order(0, alpha.magnitude());
    double::lemma_magnitude_units_order(alpha.magnitude(), double::ONE as int);
    double::lemma_magnitude_units_order(0, double::ONE as int);
}

/// While the calibration runs it takes the samples, from the first one on; then the
/// filter does, and each is the one before the next.
pub proof fn law_calibration_takes_samples_first(k: &mut ImuTracker, t: Double, r: Use)
    requires
        old(k).calib matches Some(c) ==> !c.done,
        call_ensures(ImuTracker::next_pose, (k, t), r),
    ensures
        r is Calibrate <==> old(k).calib is Some,
        old(k).calib matches Some(c) ==> {
            &&& c.start_t is None ==> r == (Use::Calibrate { start: t })
            &&& c.start_t matches Some(s) ==> r == (Use::Calibrate { start: s })
            &&& final(k).calib matches Some(d) && d.start_t == Some(r->start) && d.samples
                == c.samples && d.window_seconds == c.window_seconds && !d.done
            &&& final(k).prev_t == old(k).prev_t
        },
        old(k).calib is None ==> {
            &&& r == (Use::Filter { previous: old(k).prev_t })
            &&& final(k).prev_t == Some(t)
            &&& final(k).calib is None
        },
        final(k).smoothed == old(k).smoothed && final(k).jitter_alpha == old(k).jitter_alpha,
{
}

/// The calibration runs until its window is over. Then it is gone, the filter starts at
/// the sample that ended it, and the number of samples at rest comes out.
pub proof fn law_calibration_gives_way_to_filter(
    k: &mut ImuTracker,
    t: Double,
    still: bool,
    elapsed: Double,
    r: Option<u64>,
)
    requires
        old(k).calib matches Some(c) && !c.done && c.samples < u64::MAX,
        call_ensures(ImuTracker::calibrate, (k, t, still, elapsed), r),
    ensures
        ({
            let c = old(k).calib->0;
            let n = if still {
                c.samples + 1
            } else {
                c.samples as int
            };
            &&& r is Some <==> !elapsed.nan() && !c.window_seconds.nan() && elapsed.units()
                >= c.window_seconds.units()
            &&& r is Some <==> final(k).calib is None
            &&& r matches Some(d) ==> final(k).prev_t == Some(t) && d >= 1 && (n >= 1 ==> d == n)
                && (n == 0 ==> d == 1)
            &&& final(k).calib matches Some(d) ==> d.samples == n && d.start_t == c.start_t
                && d.window_seconds == c.window_seconds && !d.done && final(k).prev_t == old(k).prev_t
        }),
        final(k).smoothed == old(k).smoothed && final(k).jitter_alpha == old(k).jitter_alpha,
{
}

/// Without a weight above zero nothing is smoothed; with one, the first orientation is
/// taken as it is, and those after it are mixed by the weight.
pub proof fn law_smoothing_starts_fresh(k: &mut ImuTracker, r: Option<Blend>)
    requires
        call_ensures(ImuTracker::smooth, (k,), r),
    ensures
        r is Some <==> !old(k).jitter_alpha.nan() && old(k).jitter_alpha.units() > 0,
        r is Some ==> final(k).smoothed,
        r is None ==> final(k).smoothed == old(k).smoothed,
        r is Some && !old(k).smoothed ==> r == Some(Blend::Fresh),
        r is Some && old(k).smoothed && old(k).jitter_alpha.bits >= 0x3ff0_0000_0000_0000 ==> r
            == Some(Blend::Fresh),
        r is Some && old(k).smoothed && old(k).jitter_alpha.bits < 0x3ff0_0000_0000_0000 ==> r
            == Some(Blend::Mix(old(k).jitter_alpha)),
        final(k).calib == old(k).calib && final(k).prev_t == old(k).prev_t,
        final(k).jitter_alpha == old(k).jitter_alpha,
{
    let a = old(k).jitter_alpha;
    double::lemma_magnitude_units_order(0, a.magnitude());
    double::lemma_magnitude_units_order(a.magnitude(), double::ONE as int);
    double::lemma_magnitude_units_order(0, double::ONE as int);
}

/// A rate is taken from steps longer than a billionth of a second, and told of once,
/// with the thirtieth sample.
pub proof fn law_rate_is_told_once(dt: Double, gives: bool, reported: bool, samples: u64, due: bool)
    requires
        call_ensures(gives_rate, (dt,), gives),
        call_ensures(rate_due, (reported, samples), due),
    ensures
        gives <==> 0x3e11_2e0b_e826_d695 < dt.bits <= 0x7ff0_0000_0000_0000,
        due <==> !reported && samples == 30,
{
    double::lemma_magnitude_units_order(0, dt.magnitude());
    double::lemma_magnitude_units_order(0, BILLIONTH as int);
    double::lemma_magnitude_units_order(dt.magnitude(), BILLIONTH as int);
}

/// The readout is due where it is on at all, and at the end of a period.
pub proof fn law_readout_waits_for_period(rate: Double, elapsed: Double, period: Double, r: bool)
    requires
        call_ensures(hud_due, (rate, elapsed, period), r),
    ensures
        r <==> {
            &&& !rate.nan() && rate.units() > 0
            &&& !elapsed.nan() && !period.nan() && elapsed.units() >= period.units()
        },
{
    double::lemma_magnitude_units_order(0, 0);
}

/// The readout names the angles in the order yaw, pitch and roll, each in a column of
/// seven characters, with their unit.
pub proof fn law_readout_names_angles(angles: [String; 3], deg: String, rad: String)
    requires
        call_ensures(hud_line, (&angles, false), deg),
        call_ensures(hud_line, (&angles, true), rad),
    ensures
        deg@ == "YAW "@ + text::padded(angles@[0]@, ' ', 7) + "°  PITCH "@ + text::padded(
            angles@[1]@,
            ' ',
            7,
        ) + "°  ROLL "@ + text::padded(angles@[2]@, ' ', 7) + "°"@,
        rad@ == "YAW "@ + text::padded(angles@[0]@, ' ', 7) + "  PITCH "@ + text::padded(
            angles@[1]@,
            ' ',
            7,
        ) + "  ROLL "@ + text::padded(angles@[2]@, ' ', 7) + " rad"@,
{
}

/// Every ending has an exit code of its own, and only a clean one is zero.
pub proof fn law_exit_codes_differ(a: Ending, b: Ending, x: u8, y: u8)
    requires
        call_ensures(exit_code, (a,), x),
        call_ensures(exit_code, (b,), y),
    ensures
        a != b ==> x != y,
        a is Clean <==> x == 0,
        a is Setup <==> x == 1,
        a is Usage <==> x == 2,
        a is Unplugged <==> x == 3,
{
}

/// A log that ends is a clean ending, and so is a device that cannot be read after an
/// interrupt; a device that cannot be read otherwise was unplugged, and what could not
/// be opened at all is a failed setup.
pub proof fn law_errors_end_the_program(e: ImuError, interrupted: bool, r: Ending, read: Ending)
    requires
        call_ensures(on_imu_error, (&e, interrupted), r),
        call_ensures(on_read_failure, (interrupted,), read),
    ensures
        e is Eof ==> r is Clean,
        e is Io ==> r is Setup,
        e is Unplugged ==> r == read,
        interrupted ==> read is Clean,
        !interrupted ==> read is Unplugged,
{
}

/// The end of the calibration is announced once, and only where there was one; the rate
/// is announced with the first pose, and never again.
pub proof fn law_announcements_come_once(
    calibrating: bool,
    fresh: Announcements,
    a: &mut Announcements,
    still: bool,
    ended: bool,
    p: &mut Announcements,
    first: bool,
)
    requires
        call_ensures(Announcements::new, (calibrating,), fresh),
        call_ensures(Announcements::on_no_pose, (a, still), ended),
        call_ensures(Announcements::on_pose, (p,), first),
    ensures
        fresh.was_calibrating == calibrating && !fresh.rate_reported,
        ended <==> old(a).was_calibrating && !still,
        ended ==> !final(a).was_calibrating,
        !ended ==> final(a).was_calibrating == old(a).was_calibrating,
        final(a).rate_reported == old(a).rate_reported,
        first <==> !old(p).rate_reported,
        final(p).rate_reported,
        final(p).was_calibrating == old(p).was_calibrating,
{
}

} // verus!
