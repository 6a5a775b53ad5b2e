//! Outputs: how often they are written, and what is written.

use crate::cli::{Protocol, Units};
use crate::double;
use crate::double::Double;
use crate::log::{enabled, Level};
use crate::text;
use crate::text::{decimal_text, pad};
use vstd::prelude::*;

verus! {

/// One filtered pose for the outputs: the time in seconds, yaw, pitch and roll in
/// degrees after the axis mapping, and the position in meters.
#[derive(Debug, Clone, Copy, PartialEq, Eq)]
pub struct Frame {
    pub t: Double,
    pub ypr_deg: [Double; 3],
    pub position: [Double; 3],
}

impl Frame {
    /// A frame without a position: it stands at the origin.
    pub fn new_3dof(t: Double, ypr_deg: [Double; 3]) -> (r: Frame)
        ensures
            r.t == t,
            r.ypr_deg == ypr_deg,
            r.position@ == seq![Double::zero(), Double::zero(), Double::zero()],
    {
        let zero = Double { bits: 0 };
        Frame { t, ypr_deg, position: [zero, zero, zero] }
    }
}

/// Rate gate: lets an action through at most once in `interval`. The first one
/// passes. Times are in nanoseconds.
#[derive(Debug, Clone, Copy, PartialEq, Eq, Structural)]
pub struct RateGate {
    pub interval: u128,
    pub last: Option<u128>,
}

/// The time from `earlier` to `later`; zero where they stand the other way round.
pub open spec fn time_since(later: u128, earlier: u128) -> int {
    if later >= earlier {
        later - earlier
    } else {
        0
    }
}

fn elapsed(later: u128, earlier: u128) -> (r: u128)
    ensures
        r == time_since(later, earlier),
{
    if later >= earlier {
        later - earlier
    } else {
        0
    }
}

impl RateGate {
    /// An action is let through at `now`.
    pub open spec fn opens_at(self, now: u128) -> bool {
        match self.last {
            None => true,
            Some(prev) => time_since(now, prev) >= self.interval,
        }
    }

    /// A gate that opens once in `interval` nanoseconds.
    pub fn new(interval: u128) -> (r: RateGate)
        ensures
            r.interval == interval,
            r.last is None,
    {
        RateGate { interval, last: None }
    }

    /// Whether an action is let through at `now`; if so, it is the last one that
    /// was.
    pub fn due(&mut self, now: u128) -> (r: bool)
        ensures
            r == old(self).opens_at(now),
            *final(self) == old(self).asked(now),
    {
        let open = match self.last {
            None => true,
            Some(prev) => elapsed(now, prev) >= self.interval,
        };
        if open {
            self.last = Some(now);
        }
        open
    }
}

impl RateGate {
    /// The limiter after it was asked at `now`.
    pub open spec fn asked(self, now: u128) -> RateGate {
        if self.opens_at(now) {
            RateGate { interval: self.interval, last: Some(now) }
        } else {
            self
        }
    }

    /// The limiter after it was asked at these times.
    pub open spec fn asked_all(self, times: Seq<u128>) -> RateGate
        decreases times.len(),
    {
        if times.len() == 0 {
            self
        } else {
            self.asked_all(times.drop_last()).asked(times.last())
        }
    }

    /// Those of the times at which an action is let through.
    pub open spec fn passed(self, times: Seq<u128>) -> Seq<u128>
        decreases times.len(),
    {
        if times.len() == 0 {
            Seq::empty()
        } else {
            let before = self.passed(times.drop_last());
            if self.asked_all(times.drop_last()).opens_at(times.last()) {
                before.push(times.last())
            } else {
                before
            }
        }
    }
}

/// Times that do not go back.
pub open spec fn in_order(times: Seq<u128>) -> bool {
    forall|i: int, j: int| 0 <= i <= j < times.len() ==> #[trigger] times[i] <= #[trigger] times[j]
}

/// A gate keeps its rate: of the actions that it lets through, any two lie apart by
/// an interval for each step from one to the other, however often it is asked.
pub proof fn law_gate_keeps_rate(interval: u128, times: Seq<u128>, i: int, j: int)
    requires
        in_order(times),
        0 <= i <= j < (RateGate { interval, last: None }).passed(times).len(),
    ensures
        ({
            let passed = (RateGate { interval, last: None }).passed(times);
            passed[j] - passed[i] >= (j - i) * interval
        }),
    decreases times.len(),
{
    let g = RateGate { interval, last: None };
    let rest = times.drop_last();
    let passed = g.passed(times);
    let before = g.passed(rest);
    assert(in_order(rest));
    lemma_gate_state(interval, rest);
    if j < before.len() {
        law_gate_keeps_rate(interval, rest, i, j);
    } else if i == j {
        assert((j - i) * interval == 0) by (nonlinear_arith)
            requires
                i == j,
        ;
    } else {
        law_gate_keeps_rate(interval, rest, i, j - 1);
        assert(passed[j - 1] == before.last());
        assert(rest[rest.len() - 1] <= times.last());
        assert((j - i) * interval == (j - 1 - i) * interval + interval) by (nonlinear_arith);
    }
}

proof fn lemma_gate_state(interval: u128, times: Seq<u128>)
    requires
        in_order(times),
    ensures
        ({
            let g = RateGate { interval, last: None };
            let passed = g.passed(times);
            &&& g.asked_all(times).interval == interval
            &&& g.asked_all(times).last == if passed.len() == 0 {
                None
            } else {
                Some(passed.last())
            }
            &&& passed.len() > 0 ==> times.len() > 0 && passed.last() <= times.last()
        }),
    decreases times.len(),
{
    if times.len() > 0 {
        let rest = times.drop_last();
        assert(in_order(rest));
        lemma_gate_state(interval, rest);
        if rest.len() > 0 {
            assert(times[rest.len() - 1] <= times[times.len() - 1]);
        }
    }
}

/// The value on the wire: degrees or radians.
pub fn wire_value(degrees: Double, radians: Double, units: Units) -> (r: Double)
    ensures
        r == match units {
            Units::Deg => degrees,
            Units::Rad => radians,
        },
{
    match units {
        Units::Deg => degrees,
        Units::Rad => radians,
    }
}

/// The order of the bytes of a number.
#[derive(Debug, Clone, Copy, PartialEq, Eq, Structural)]
pub enum ByteOrder {
    Little,
    Big,
}

/// The `k`th byte of a number, counted from its low end.
pub open spec fn low_byte(v: int, k: int) -> int
    decreases k,
{
    if k <= 0 {
        v % 256
    } else {
        low_byte(v / 256, k - 1)
    }
}

/// The byte at place `k` of the eight bytes of a number.
pub open spec fn byte_at(v: u64, k: int, order: ByteOrder) -> int {
    match order {
        ByteOrder::Little => low_byte(v as int, k),
        ByteOrder::Big => low_byte(v as int, 7 - k),
    }
}

/// The ten values of a datagram: translation in centimeters, angles in wire units,
/// one for a valid pose, and three that are reserved.
pub open spec fn wire_values(translation: Seq<Double>, angles: Seq<Double>) -> Seq<Double> {
    seq![
        translation[0],
        translation[1],
        translation[2],
        angles[0],
        angles[1],
        angles[2],
        Double::one(),
        Double::zero(),
        Double::zero(),
        Double::zero(),
    ]
}

/// The number of values of a datagram.
pub open spec fn value_count(protocol: Protocol) -> int {
    match protocol {
        Protocol::Classic => 6,
        Protocol::Extended => 10,
    }
}

/// The bytes of the first `n` values.
pub open spec fn value_bytes(values: Seq<Double>, order: ByteOrder, n: int) -> Seq<u8> {
    Seq::new((8 * n) as nat, |i: int| byte_at(values[i / 8].bits, i % 8, order) as u8)
}

fn nth_byte(v: u64, k: usize) -> (r: u8)
    requires
        k < 8,
    ensures
        r == low_byte(v as int, k as int),
{
    let mut x: u64 = v;
    let mut i: usize = 0;
    while i < k
        invariant
            i <= k,
            low_byte(x as int, k - i) == low_byte(v as int, k as int),
        decreases k - i,
    {
        x = x / 256;
        i += 1;
    }
    (x % 256) as u8
}

/// The datagram of a pose and its length: the bytes behind that length are zero.
pub fn payload(
    translation: &[Double; 3],
    angles: &[Double; 3],
    protocol: Protocol,
    order: ByteOrder,
) -> (r: ([u8; 80], usize))
    ensures
        r.1 == 8 * value_count(protocol),
        r.0@.subrange(0, r.1 as int) == value_bytes(
            wire_values(translation@, angles@),
            order,
            value_count(protocol),
        ),
        forall|i: int| r.1 <= i < 80 ==> #[trigger] r.0@[i] == 0,
{
    let mut buf: [u8; 80] = [0; 80];
    let zero = Double { bits: 0 };
    let values: [Double; 10] = [
        translation[0],
        translation[1],
        translation[2],
        angles[0],
        angles[1],
        angles[2],
        Double { bits: double::ONE },
        zero,
        zero,
        zero,
    ];
    let ghost vs = wire_values(translation@, angles@);
    assert(values@ =~= vs);
    let n: usize = match protocol {
        Protocol::Classic => 6,
        Protocol::Extended => 10,
    };
    let mut i: usize = 0;
    while i < 8 * n
        invariant
            n == 6 || n == 10,
            i <= 8 * n,
            values@ == vs,
            forall|j: int|
                0 <= j < i ==> #[trigger] buf@[j] == byte_at(vs[j / 8].bits, j % 8, order) as u8,
            forall|j: int| i <= j < 80 ==> #[trigger] buf@[j] == 0,
        decreases 8 * n - i,
    {
        let v: u64 = values[i / 8].bits;
        let k: usize = i % 8;
        let place: usize = match order {
            ByteOrder::Little => k,
            ByteOrder::Big => 7 - k,
        };
        buf[i] = nth_byte(v, place);
        i += 1;
    }
    assert(buf@.subrange(0, 8 * n) =~= value_bytes(vs, order, n as int));
    (buf, 8 * n)
}

/// The number whose bytes, from the low end on, are these.
pub open spec fn from_low_bytes(s: Seq<u8>) -> int
    decreases s.len(),
{
    if s.len() == 0 {
        0
    } else {
        s.first() + 256 * from_low_bytes(s.drop_first())
    }
}

/// The number whose eight bytes these are.
pub open spec fn from_bytes(s: Seq<u8>, order: ByteOrder) -> int {
    match order {
        ByteOrder::Little => from_low_bytes(s),
        ByteOrder::Big => from_low_bytes(s.reverse()),
    }
}

/// `256` to the power `n`.
spec fn power(n: int) -> int
    decreases n,
{
    if n <= 0 {
        1
    } else {
        256 * power(n - 1)
    }
}

proof fn lemma_low_bytes(v: int, n: int)
    requires
        0 <= n,
        0 <= v < power(n),
    ensures
        from_low_bytes(Seq::new(n as nat, |k: int| low_byte(v, k) as u8)) == v,
    decreases n,
{
    let s = Seq::new(n as nat, |k: int| low_byte(v, k) as u8);
    if n > 0 {
        let rest = Seq::new((n - 1) as nat, |k: int| low_byte(v / 256, k) as u8);
        assert(v / 256 < power(n - 1));
        lemma_low_bytes(v / 256, n - 1);
        assert(s.drop_first() =~= rest);
        assert(s.first() == v % 256);
    }
}

/// The values of a datagram can be read back from its bytes, at the place and in
/// the order in which they were put there.
pub proof fn law_payload_reads_back(values: Seq<Double>, order: ByteOrder, n: int, i: int)
    requires
        0 <= i < n,
        n <= values.len(),
    ensures
        from_bytes(value_bytes(values, order, n).subrange(8 * i, 8 * i + 8), order)
            == values[i].bits,
{
    let v = values[i].bits;
    let part = value_bytes(values, order, n).subrange(8 * i, 8 * i + 8);
    let low = Seq::new(8, |k: int| low_byte(v as int, k) as u8);
    assert forall|k: int| 0 <= k < 8 implies #[trigger] part[k] == byte_at(v, k, order) as u8 by {
        assert((8 * i + k) / 8 == i);
        assert((8 * i + k) % 8 == k);
    }
    match order {
        ByteOrder::Little => {
            assert(part =~= low);
        },
        ByteOrder::Big => {
            assert(part.reverse() =~= low);
        },
    }
    reveal_with_fuel(power, 9);
    lemma_low_bytes(v as int, 8);
}

/// How often a failing output warns at most, in nanoseconds.
pub const WARN_INTERVAL: u128 = 5_000_000_000;

/// When a failing output last warned.
#[derive(Debug, Clone, Copy, PartialEq, Eq, Structural)]
pub struct UdpReports {
    pub last_warn: Option<u128>,
}

/// The message about every failure.
pub open spec fn failure_detail(dest: Seq<char>, reason: Seq<char>) -> Seq<char> {
    "udp send to "@ + dest + " failed: "@ + reason
}

/// The warning about failures, which is not repeated for a while.
pub open spec fn failure_warning(dest: Seq<char>, port: u16, reason: Seq<char>) -> Seq<char> {
    "UDP send to "@ + dest + " failed: "@ + reason + " (is Opentrack listening on port "@
        + text::digits_of(port as nat) + "?) — further warnings throttled to once/5s"@
}

impl UdpReports {
    /// No warning yet.
    pub fn new() -> (r: UdpReports)
        ensures
            r.last_warn is None,
    {
        UdpReports { last_warn: None }
    }

    /// A warning is in place at `now`.
    pub open spec fn may_warn(self, now: u128) -> bool {
        match self.last_warn {
            None => true,
            Some(prev) => time_since(now, prev) >= WARN_INTERVAL,
        }
    }

    /// What to print about a failure: every one where debug messages show, one in
    /// five seconds where only warnings do, else none.
    pub fn on_failure(
        &mut self,
        current: Level,
        now: u128,
        dest: &str,
        port: u16,
        reason: &str,
    ) -> (r: Option<String>)
        ensures
            if current is Debug {
                &&& r matches Some(m) && m@ == failure_detail(dest@, reason@)
                &&& *final(self) == *old(self)
            } else if Level::Warn.rank() <= current.rank() && old(self).may_warn(now) {
                &&& r matches Some(m) && m@ == failure_warning(dest@, port, reason@)
                &&& final(self).last_warn == Some(now)
            } else {
                r is None && *final(self) == *old(self)
            },
    {
        if enabled(current, Level::Debug) {
            let mut m = "udp send to ".to_owned();
            m.append(dest);
            m.append(" failed: ");
            m.append(reason);
            return Some(m);
        }
        if !enabled(current, Level::Warn) {
            return None;
        }
        let warn = match self.last_warn {
            None => true,
            Some(prev) => elapsed(now, prev) >= WARN_INTERVAL,
        };
        if !warn {
            return None;
        }
        self.last_warn = Some(now);
        let mut m = "UDP send to ".to_owned();
        m.append(dest);
        m.append(" failed: ");
        m.append(reason);
        m.append(" (is Opentrack listening on port ");
        m.append(decimal_text(port as u64).as_str());
        m.append("?) — further warnings throttled to once/5s");
        Some(m)
    }
}

/// A number that is not zero, of either sign.
pub open spec fn nonzero(v: Double) -> bool {
    v.magnitude() != 0
}

/// A position away from the origin.
pub open spec fn has_position(p: Seq<Double>) -> bool {
    nonzero(p[0]) || nonzero(p[1]) || nonzero(p[2])
}

fn is_nonzero(v: Double) -> (r: bool)
    ensures
        r == nonzero(v),
{
    v.bits != 0 && v.bits != double::SIGN
}

/// The text of a number in a column of six characters.
pub open spec fn column(s: Seq<char>) -> Seq<char> {
    text::padded(s, ' ', 6)
}

/// The readout of the angles.
pub open spec fn angle_readout(a: Seq<Seq<char>>) -> Seq<char> {
    "YAW "@ + column(a[0]) + "°  PITCH "@ + column(a[1]) + "°  ROLL "@ + column(a[2]) + "°"@
}

/// The readout of the position.
pub open spec fn position_readout(p: Seq<Seq<char>>) -> Seq<char> {
    "  X "@ + column(p[0]) + "m  Y "@ + column(p[1]) + "m  Z "@ + column(p[2]) + "m"@
}

/// The readout of a frame: its angles, its position where it has one, and the
/// character that ends it.
pub open spec fn readout(
    angles: Seq<Seq<char>>,
    position: Seq<Seq<char>>,
    with_position: bool,
    tty: bool,
) -> Seq<char> {
    let end = if tty {
        "\r"@
    } else {
        "\n"@
    };
    if with_position {
        angle_readout(angles) + position_readout(position) + end
    } else {
        angle_readout(angles) + end
    }
}

/// The readout on the screen: redrawn in place on a terminal, else line by line.
#[derive(Debug, Clone, Copy, PartialEq, Eq, Structural)]
pub struct HudSink {
    pub tty: bool,
    pub gate: RateGate,
}

impl HudSink {
    /// A readout that is written once in `interval` nanoseconds.
    pub fn new(tty: bool, interval: u128) -> (r: HudSink)
        ensures
            r.tty == tty,
            r.gate.interval == interval,
            r.gate.last is None,
    {
        HudSink { tty, gate: RateGate::new(interval) }
    }

    /// What to write for a frame at `now`, given the texts of its angles (to one
    /// decimal) and of its position (to two); `None` when it is too early.
    pub fn write(
        &mut self,
        now: u128,
        frame: &Frame,
        angles: &[String; 3],
        position: &[String; 3],
    ) -> (r: Option<String>)
        ensures
            final(self).tty == old(self).tty,
            final(self).gate.interval == old(self).gate.interval,
            if old(self).gate.opens_at(now) {
                &&& final(self).gate.last == Some(now)
                &&& r matches Some(m) && m@ == readout(
                    text::texts(angles@),
                    text::texts(position@),
                    has_position(frame.position@),
                    old(self).tty,
                )
            } else {
                r is None && *final(self) == *old(self)
            },
    {
        if !self.gate.due(now) {
            return None;
        }
        let mut m = "YAW ".to_owned();
        m.append(pad(angles[0].as_str(), ' ', 6).as_str());
        m.append("°  PITCH ");
        m.append(pad(angles[1].as_str(), ' ', 6).as_str());
        m.append("°  ROLL ");
        m.append(pad(angles[2].as_str(), ' ', 6).as_str());
        m.append("°");
        assert(m@ == angle_readout(text::texts(angles@)));
        if is_nonzero(frame.position[0]) || is_nonzero(frame.position[1]) || is_nonzero(
            frame.position[2],
        ) {
            let mut p = "  X ".to_owned();
            p.append(pad(position[0].as_str(), ' ', 6).as_str());
            p.append("m  Y ");
            p.append(pad(position[1].as_str(), ' ', 6).as_str());
            p.append("m  Z ");
            p.append(pad(position[2].as_str(), ' ', 6).as_str());
            p.append("m");
            m.append(p.as_str());
        }
        if self.tty {
            m.append("\r");
        } else {
            m.append("\n");
        }
        Some(m)
    }
}

/// A log that is given up after the first line that could not be written.
#[derive(Debug, Clone, Copy, PartialEq, Eq, Structural)]
pub struct LogSink {
    pub failing: bool,
}

impl LogSink {
    /// A log that is written.
    pub fn new() -> (r: LogSink)
        ensures
            !r.failing,
    {
        LogSink { failing: false }
    }

    /// Whether lines are still written.
    pub fn active(&self) -> (r: bool)
        ensures
            r == !self.failing,
    {
        !self.failing
    }

    /// Gives the log `name` up, and returns the warning to print.
    pub fn on_failure(&mut self, name: &str, reason: &str) -> (r: String)
        ensures
            final(self).failing,
            r@ == name@ + " log write failed, disabled: "@ + reason@,
    {
        self.failing = true;
        let mut m = name.to_owned();
        m.append(" log write failed, disabled: ");
        m.append(reason);
        m
    }
}

/// The number whose eight bytes stand at place `at`, written out by the weight of
/// each byte.
pub open spec fn number_at(s: Seq<u8>, at: int, order: ByteOrder) -> int {
    match order {
        ByteOrder::Little => s[at] + 0x100 * s[at + 1] + 0x1_0000 * s[at + 2] + 0x100_0000 * s[at
            + 3] + 0x1_0000_0000 * s[at + 4] + 0x100_0000_0000 * s[at + 5] + 0x1_0000_0000_0000
            * s[at + 6] + 0x100_0000_0000_0000 * s[at + 7],
        ByteOrder::Big => s[at + 7] + 0x100 * s[at + 6] + 0x1_0000 * s[at + 5] + 0x100_0000 * s[at
            + 4] + 0x1_0000_0000 * s[at + 3] + 0x100_0000_0000 * s[at + 2] + 0x1_0000_0000_0000
            * s[at + 1] + 0x100_0000_0000_0000 * s[at],
    }
}

proof fn lemma_number_at(s: Seq<u8>, at: int, order: ByteOrder)
    requires
        0 <= at,
        at + 8 <= s.len(),
    ensures
        number_at(s, at, order) == from_bytes(s.subrange(at, at + 8), order),
{
    let p = s.subrange(at, at + 8);
    let q = match order {
        ByteOrder::Little => p,
        ByteOrder::Big => p.reverse(),
    };
    reveal_with_fuel(from_low_bytes, 9);
    let q1 = q.drop_first();
    let q2 = q1.drop_first();
    let q3 = q2.drop_first();
    let q4 = q3.drop_first();
    let q5 = q4.drop_first();
    let q6 = q5.drop_first();
    let q7 = q6.drop_first();
    let q8 = q7.drop_first();
    assert(q8.len() == 0);
    assert(from_low_bytes(q7) == q[7]);
    assert(from_low_bytes(q6) == q[6] + 0x100 * q[7]);
    assert(from_low_bytes(q5) == q[5] + 0x100 * q[6] + 0x1_0000 * q[7]);
    assert(from_low_bytes(q4) == q[4] + 0x100 * q[5] + 0x1_0000 * q[6] + 0x100_0000 * q[7]);
    assert(from_low_bytes(q3) == q[3] + 0x100 * from_low_bytes(q4));
    assert(from_low_bytes(q2) == q[2] + 0x100 * from_low_bytes(q3));
    assert(from_low_bytes(q1) == q[1] + 0x100 * from_low_bytes(q2));
    assert(from_low_bytes(q) == q[0] + 0x100 * from_low_bytes(q1));
}

/// A datagram holds the translation, then the angles, eight bytes each in the order
/// of bytes asked for, and nothing behind them; a long one holds a one and three
/// zeros more.
pub proof fn law_datagram_holds_pose(
    translation: [Double; 3],
    angles: [Double; 3],
    protocol: Protocol,
    order: ByteOrder,
    r: ([u8; 80], usize),
)
    requires
        call_ensures(payload, (&translation, &angles, protocol, order), r),
    ensures
        protocol is Classic ==> r.1 == 48,
        protocol is Extended ==> r.1 == 80,
        forall|i: int|
            0 <= i < 3 ==> number_at(r.0@, 8 * i, order) == (#[trigger] translation@[i]).bits,
        forall|i: int|
            0 <= i < 3 ==> number_at(r.0@, 24 + 8 * i, order) == (#[trigger] angles@[i]).bits,
        protocol is Extended ==> number_at(r.0@, 48, order) == 0x3ff0_0000_0000_0000,
        protocol is Extended ==> number_at(r.0@, 56, order) == 0,
        protocol is Extended ==> number_at(r.0@, 64, order) == 0,
        protocol is Extended ==> number_at(r.0@, 72, order) == 0,
        protocol is Classic ==> forall|k: int| 48 <= k < 80 ==> #[trigger] r.0@[k] == 0,
{
    let vs = wire_values(translation@, angles@);
    let n = value_count(protocol);
    let all = r.0@.subrange(0, 8 * n);
    assert forall|i: int| 0 <= i < n implies #[trigger] number_at(r.0@, 8 * i, order)
        == vs[i].bits by {
        lemma_number_at(r.0@, 8 * i, order);
        law_payload_reads_back(vs, order, n, i);
        assert(all.subrange(8 * i, 8 * i + 8) =~= r.0@.subrange(8 * i, 8 * i + 8));
    }
    assert forall|i: int| 0 <= i < 3 implies number_at(r.0@, 8 * i, order) == (
    #[trigger] translation@[i]).bits by {
        assert(number_at(r.0@, 8 * i, order) == vs[i].bits);
    }
    assert forall|i: int| 0 <= i < 3 implies number_at(r.0@, 24 + 8 * i, order) == (
    #[trigger] angles@[i]).bits by {
        assert(24 + 8 * i == 8 * (3 + i));
        assert(number_at(r.0@, 8 * (3 + i), order) == vs[3 + i].bits);
    }
    if protocol is Extended {
        assert(number_at(r.0@, 8 * 6int, order) == vs[6].bits);
        assert(number_at(r.0@, 8 * 7int, order) == vs[7].bits);
        assert(number_at(r.0@, 8 * 8int, order) == vs[8].bits);
        assert(number_at(r.0@, 8 * 9int, order) == vs[9].bits);
    }
}

/// The two orders of bytes give the same datagram but for the turned bytes of each
/// number, and the short datagram is the start of the long one.
pub proof fn law_orders_mirror_each_other(
    translation: [Double; 3],
    angles: [Double; 3],
    protocol: Protocol,
    little: ([u8; 80], usize),
    big: ([u8; 80], usize),
    long: ([u8; 80], usize),
    i: int,
    k: int,
)
    requires
        call_ensures(payload, (&translation, &angles, protocol, ByteOrder::Little), little),
        call_ensures(payload, (&translation, &angles, protocol, ByteOrder::Big), big),
        call_ensures(payload, (&translation, &angles, Protocol::Extended, ByteOrder::Big), long),
        0 <= i < 6,
        0 <= k < 8,
    ensures
        little.0@[8 * i + k] == big.0@[8 * i + 7 - k],
        long.0@[8 * i + k] == big.0@[8 * i + k],
{
    let vs = wire_values(translation@, angles@);
    let n = value_count(protocol);
    let j = 8 * i + k;
    let m = 8 * i + 7 - k;
    assert(j / 8 == i && j % 8 == k && m / 8 == i && m % 8 == 7 - k);
    assert(little.0@.subrange(0, 8 * n)[j] == little.0@[j]);
    assert(big.0@.subrange(0, 8 * n)[m] == big.0@[m]);
    assert(big.0@.subrange(0, 8 * n)[j] == big.0@[j]);
    assert(long.0@.subrange(0, 80)[j] == long.0@[j]);
    assert(value_bytes(vs, ByteOrder::Little, n)[j] == byte_at(
        vs[i].bits,
        k,
        ByteOrder::Little,
    ) as u8);
    assert(value_bytes(vs, ByteOrder::Big, n)[m] == byte_at(
        vs[i].bits,
        7 - k,
        ByteOrder::Big,
    ) as u8);
}

/// The number goes out in the unit that was asked for.
pub proof fn law_wire_value_is_in_its_unit(degrees: Double, radians: Double, units: Units, r: Double)
    requires
        call_ensures(wire_value, (degrees, radians, units), r),
    ensures
        units is Deg ==> r == degrees,
        units is Rad ==> r == radians,
{
}

/// A gate lets the first action through, and then each that comes an interval or more
/// after the last one that it let through; it takes note of those, and of no others.
pub proof fn law_gate_waits_for_interval(g: &mut RateGate, now: u128, r: bool)
    requires
        call_ensures(RateGate::due, (g, now), r),
    ensures
        old(g).last is None ==> r,
        old(g).last matches Some(prev) ==> (r <==> old(g).interval == 0 || now >= prev
            + old(g).interval),
        r ==> final(g).last == Some(now),
        !r ==> final(g).last == old(g).last,
        final(g).interval == old(g).interval,
{
}

/// A gate starts with its interval, and with nothing let through.
pub proof fn law_gate_starts_open(interval: u128, g: RateGate)
    requires
        call_ensures(RateGate::new, (interval,), g),
    ensures
        g.interval == interval,
        g.last is None,
{
}

/// A frame without a position keeps its time and its angles, and stands at the
/// origin.
pub proof fn law_frame_without_position_is_at_origin(t: Double, ypr: [Double; 3], r: Frame)
    requires
        call_ensures(Frame::new_3dof, (t, ypr), r),
    ensures
        r.t == t,
        r.ypr_deg@ == ypr@,
        forall|i: int| 0 <= i < 3 ==> (#[trigger] r.position@[i]).bits == 0,
{
}

/// A failed datagram is told of every time where debug messages show, at most once in
/// five seconds where only warnings do, and never where only errors do.
pub proof fn law_failures_are_told_of(
    u: &mut UdpReports,
    current: Level,
    now: u128,
    dest: &str,
    port: u16,
    reason: &str,
    r: Option<String>,
)
    requires
        call_ensures(UdpReports::on_failure, (u, current, now, dest, port, reason), r),
    ensures
        current is Debug ==> r is Some && *final(u) == *old(u),
        current is Error ==> r is None && *final(u) == *old(u),
        (current is Warn || current is Info) ==> {
            &&& old(u).last_warn is None ==> r is Some
            &&& old(u).last_warn matches Some(prev) ==> (r is Some <==> now >= prev
                + 5_000_000_000)
            &&& r is Some ==> final(u).last_warn == Some(now)
            &&& r is None ==> *final(u) == *old(u)
        },
        r matches Some(m) ==> if current is Debug {
            m@ == "udp send to "@ + dest@ + " failed: "@ + reason@
        } else {
            m@ == "UDP send to "@ + dest@ + " failed: "@ + reason@
                + " (is Opentrack listening on port "@ + text::digits_of(port as nat)
                + "?) — further warnings throttled to once/5s"@
        },
{
}

/// The first failure is told of at any level that shows warnings.
pub proof fn law_reports_start_silent(u: UdpReports)
    requires
        call_ensures(UdpReports::new, (), u),
    ensures
        u.last_warn is None,
{
}

/// The readout shows each angle behind its name, in the order yaw, pitch and roll, and
/// the position only where some coordinate is not zero; it ends with a carriage return
/// on a terminal and with a new line elsewhere. It is written as often as its gate
/// lets it.
pub proof fn law_readout_shows_frame(
    h: &mut HudSink,
    now: u128,
    frame: Frame,
    angles: [String; 3],
    position: [String; 3],
    r: Option<String>,
)
    requires
        call_ensures(HudSink::write, (h, now, &frame, &angles, &position), r),
    ensures
        old(h).gate.last is None ==> r is Some,
        old(h).gate.last matches Some(prev) ==> (r is Some <==> old(h).gate.interval == 0 || now
            >= prev + old(h).gate.interval),
        r is Some ==> final(h).gate.last == Some(now),
        r is None ==> *final(h) == *old(h),
        final(h).tty == old(h).tty && final(h).gate.interval == old(h).gate.interval,
        r matches Some(m) ==> {
            let head = "YAW "@ + text::padded(angles@[0]@, ' ', 6) + "°  PITCH "@ + text::padded(
                angles@[1]@,
                ' ',
                6,
            ) + "°  ROLL "@ + text::padded(angles@[2]@, ' ', 6) + "°"@;
            let place = "  X "@ + text::padded(position@[0]@, ' ', 6) + "m  Y "@ + text::padded(
                position@[1]@,
                ' ',
                6,
            ) + "m  Z "@ + text::padded(position@[2]@, ' ', 6) + "m"@;
            let end = if old(h).tty {
                "\r"@
            } else {
                "\n"@
            };
            let away = frame.position@[0].units() != 0 || frame.position@[1].units() != 0
                || frame.position@[2].units() != 0;
            &&& away ==> m@ == head + place + end
            &&& !away ==> m@ == head + end
        },
{
    double::lemma_magnitude_units_order(0, frame.position@[0].magnitude());
    double::lemma_magnitude_units_order(0, frame.position@[1].magnitude());
    double::lemma_magnitude_units_order(0, frame.position@[2].magnitude());
}

/// A readout starts on the screen that it was made for, with nothing written yet.
pub proof fn law_readout_starts_open(tty: bool, interval: u128, h: HudSink)
    requires
        call_ensures(HudSink::new, (tty, interval), h),
    ensures
        h.tty == tty,
        h.gate.interval == interval,
        h.gate.last is None,
{
}

/// A log is written until a line fails, and never again after that.
pub proof fn law_failing_log_is_given_up(
    fresh: LogSink,
    l: &mut LogSink,
    name: &str,
    reason: &str,
    warning: String,
    before: bool,
    after: bool,
)
    requires
        call_ensures(LogSink::new, (), fresh),
        call_ensures(LogSink::active, (&fresh,), before),
        call_ensures(LogSink::on_failure, (l, name, reason), warning),
        call_ensures(LogSink::active, (&*final(l),), after),
    ensures
        before,
        !after,
        warning@ == name@ + " log write failed, disabled: "@ + reason@,
{
}

/// In a datagram with its low bytes first, each byte of a number weighs 256 times the one
/// before it.
pub proof fn law_little_datagram_ascends(
    translation: [Double; 3],
    angles: [Double; 3],
    protocol: Protocol,
    r: ([u8; 80], usize),
    i: int,
)
    requires
        call_ensures(payload, (&translation, &angles, protocol, ByteOrder::Little), r),
        0 <= i < 3,
    ensures
        ({
            let b = r.0@;
            let (p, q) = (8 * i, 24 + 8 * i);
            &&& translation@[i].bits == b[p] + 0x100 * b[p + 1] + 0x1_0000 * b[p + 2] + 0x100_0000
                * b[p + 3] + 0x1_0000_0000 * b[p + 4] + 0x100_0000_0000 * b[p + 5]
                + 0x1_0000_0000_0000 * b[p + 6] + 0x100_0000_0000_0000 * b[p + 7]
            &&& angles@[i].bits == b[q] + 0x100 * b[q + 1] + 0x1_0000 * b[q + 2] + 0x100_0000 * b[q
                + 3] + 0x1_0000_0000 * b[q + 4] + 0x100_0000_0000 * b[q + 5] + 0x1_0000_0000_0000
                * b[q + 6] + 0x100_0000_0000_0000 * b[q + 7]
        }),
{
    law_datagram_holds_pose(translation, angles, protocol, ByteOrder::Little, r);
    assert(translation@[i].bits == number_at(r.0@, 8 * i, ByteOrder::Little));
    assert(angles@[i].bits == number_at(r.0@, 24 + 8 * i, ByteOrder::Little));
}

/// In a datagram with its high bytes first, each byte of a number weighs 256 times the one
/// behind it.
pub proof fn law_big_datagram_descends(
    translation: [Double; 3],
    angles: [Double; 3],
    protocol: Protocol,
    r: ([u8; 80], usize),
    i: int,
)
    requires
        call_ensures(payload, (&translation, &angles, protocol, ByteOrder::Big), r),
        0 <= i < 3,
    ensures
        ({
            let b = r.0@;
            let (p, q) = (8 * i, 24 + 8 * i);
            &&& translation@[i].bits == 0x100_0000_0000_0000 * b[p] + 0x1_0000_0000_0000 * b[p + 1]
                + 0x100_0000_0000 * b[p + 2] + 0x1_0000_0000 * b[p + 3] + 0x100_0000 * b[p + 4]
                + 0x1_0000 * b[p + 5] + 0x100 * b[p + 6] + b[p + 7]
            &&& angles@[i].bits == 0x100_0000_0000_0000 * b[q] + 0x1_0000_0000_0000 * b[q + 1]
                + 0x100_0000_0000 * b[q + 2] + 0x1_0000_0000 * b[q + 3] + 0x100_0000 * b[q + 4]
                + 0x1_0000 * b[q + 5] + 0x100 * b[q + 6] + b[q + 7]
        }),
{
    law_datagram_holds_pose(translation, angles, protocol, ByteOrder::Big, r);
    assert(translation@[i].bits == number_at(r.0@, 8 * i, ByteOrder::Big));
    assert(angles@[i].bits == number_at(r.0@, 24 + 8 * i, ByteOrder::Big));
}

} // verus!
