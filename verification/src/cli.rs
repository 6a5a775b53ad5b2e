//! The command line of the tracker.
//!
//! Options are read from left to right. `--flag=value` carries its value with it;
//! `--flag value` takes the next argument, unless that one begins with a dash. An
//! option that takes no value refuses one.

use crate::double::Double;
use crate::log::Level;
use crate::text;
use crate::text::{decimal_text, quoted, same, split_once, starts_with, to_lower, trim};
use vstd::prelude::*;

verus! {

/// Variant of the Opentrack UDP protocol.
#[derive(Debug, Clone, Copy, PartialEq, Eq, Structural)]
pub enum Protocol {
    /// 48 bytes: `[TX, TY, TZ, Yaw, Pitch, Roll]` as doubles.
    Classic,
    /// 80 bytes: the six pose doubles and four reserved ones.
    Extended,
}

/// Units of the angles on the wire and in the pose log.
#[derive(Debug, Clone, Copy, PartialEq, Eq, Structural)]
pub enum Units {
    Deg,
    Rad,
}

/// Where the pose comes from.
#[derive(Debug, Clone, Copy, PartialEq, Eq, Structural)]
pub enum Input {
    /// The inertial sensors: orientation only.
    Imu,
    /// The stereo cameras: orientation and position.
    Visual,
}

/// The configuration that the tracker runs with.
#[derive(Debug, Clone)]
pub struct Config {
    pub host: String,
    pub port: u16,
    pub no_udp: bool,
    pub hud: bool,
    pub hud_rate: Double,
    pub kp: Double,
    pub ki: Double,
    pub invert_yaw: bool,
    pub invert_pitch: bool,
    pub invert_roll: bool,
    pub sensitivity: Double,
    pub log_imu: Option<String>,
    pub log_pose: Option<String>,
    pub protocol: Protocol,
    pub udp_rate: Double,
    pub units: Units,
    /// Reads the inertial samples from a JSONL file in place of the device.
    pub replay: Option<String>,
    pub log_level: Level,
    /// Length of the gyro calibration at startup, in seconds; zero is off.
    pub gyro_calib: Double,
    pub input: Input,
    /// Reads stereo frames from a directory in place of the cameras.
    pub replay_visual: Option<String>,
    /// Writes the stereo frames into a directory.
    pub record_visual: Option<String>,
}

/// What a [`Config`] holds, with its texts as character sequences.
pub struct ConfigView {
    pub host: Seq<char>,
    pub port: u16,
    pub no_udp: bool,
    pub hud: bool,
    pub hud_rate: Double,
    pub kp: Double,
    pub ki: Double,
    pub invert_yaw: bool,
    pub invert_pitch: bool,
    pub invert_roll: bool,
    pub sensitivity: Double,
    pub log_imu: Option<Seq<char>>,
    pub log_pose: Option<Seq<char>>,
    pub protocol: Protocol,
    pub udp_rate: Double,
    pub units: Units,
    pub replay: Option<Seq<char>>,
    pub log_level: Level,
    pub gyro_calib: Double,
    pub input: Input,
    pub replay_visual: Option<Seq<char>>,
    pub record_visual: Option<Seq<char>>,
}

/// The characters of an optional text.
pub open spec fn optional_text(s: Option<String>) -> Option<Seq<char>> {
    match s {
        Some(t) => Some(t@),
        None => None,
    }
}

impl View for Config {
    type V = ConfigView;

    open spec fn view(&self) -> ConfigView {
        ConfigView {
            host: self.host@,
            port: self.port,
            no_udp: self.no_udp,
            hud: self.hud,
            hud_rate: self.hud_rate,
            kp: self.kp,
            ki: self.ki,
            invert_yaw: self.invert_yaw,
            invert_pitch: self.invert_pitch,
            invert_roll: self.invert_roll,
            sensitivity: self.sensitivity,
            log_imu: optional_text(self.log_imu),
            log_pose: optional_text(self.log_pose),
            protocol: self.protocol,
            udp_rate: self.udp_rate,
            units: self.units,
            replay: optional_text(self.replay),
            log_level: self.log_level,
            gyro_calib: self.gyro_calib,
            input: self.input,
            replay_visual: optional_text(self.replay_visual),
            record_visual: optional_text(self.record_visual),
        }
    }
}

/// The bit pattern of 2.0.
pub const TWO: u64 = 0x4000_0000_0000_0000;

/// The bit pattern of 0.005.
pub const FIVE_THOUSANDTHS: u64 = 0x3f74_7ae1_47ae_147b;

/// The bit pattern of 60.0.
pub const SIXTY: u64 = 0x404e_0000_0000_0000;

/// The configuration of a command line without arguments.
pub open spec fn default_config() -> ConfigView {
    ConfigView {
        host: "127.0.0.1"@,
        port: 4242,
        no_udp: false,
        hud: false,
        hud_rate: Double { bits: TWO },
        kp: Double::one(),
        ki: Double { bits: FIVE_THOUSANDTHS },
        invert_yaw: false,
        invert_pitch: false,
        invert_roll: false,
        sensitivity: Double::one(),
        log_imu: None,
        log_pose: None,
        protocol: Protocol::Classic,
        udp_rate: Double { bits: SIXTY },
        units: Units::Deg,
        replay: None,
        log_level: Level::Error,
        gyro_calib: Double { bits: TWO },
        input: Input::Imu,
        replay_visual: None,
        record_visual: None,
    }
}

impl Default for Config {
    fn default() -> (r: Self)
        ensures
            r@ == default_config(),
    {
        Config {
            host: "127.0.0.1".to_owned(),
            port: 4242,
            no_udp: false,
            hud: false,
            hud_rate: Double { bits: TWO },
            kp: Double { bits: crate::double::ONE },
            ki: Double { bits: FIVE_THOUSANDTHS },
            invert_yaw: false,
            invert_pitch: false,
            invert_roll: false,
            sensitivity: Double { bits: crate::double::ONE },
            log_imu: None,
            log_pose: None,
            protocol: Protocol::Classic,
            udp_rate: Double { bits: SIXTY },
            units: Units::Deg,
            replay: None,
            log_level: Level::Error,
            gyro_calib: Double { bits: TWO },
            input: Input::Imu,
            replay_visual: None,
            record_visual: None,
        }
    }
}

/// Result of a successful parse.
pub enum ParseOutcome {
    Run(Config),
    Help,
    Version,
}

/// What a [`ParseOutcome`] holds.
pub enum OutcomeView {
    Run(ConfigView),
    Help,
    Version,
}

impl View for ParseOutcome {
    type V = OutcomeView;

    open spec fn view(&self) -> OutcomeView {
        match *self {
            ParseOutcome::Run(c) => OutcomeView::Run(c@),
            ParseOutcome::Help => OutcomeView::Help,
            ParseOutcome::Version => OutcomeView::Version,
        }
    }
}

/// One argument: its text, the number that the whole text reads as, and the
/// number that the part after its first `=` reads as. White space around a
/// number does not count.
#[derive(Debug, Clone)]
pub struct Arg {
    pub text: String,
    pub whole: Option<Double>,
    pub inline: Option<Double>,
}

/// What an option does.
#[derive(Debug, Clone, Copy, PartialEq, Eq, Structural)]
pub enum Flag {
    NoUdp,
    Hud,
    InvertYaw,
    InvertPitch,
    InvertRoll,
    Help,
    Version,
    Host,
    Port,
    HudRate,
    Kp,
    Ki,
    Sensitivity,
    LogImu,
    LogPose,
    Protocol,
    UdpRate,
    Units,
    Replay,
    LogLevel,
    GyroCalib,
    Input,
    ReplayVisual,
    RecordVisual,
}

/// The option of that name.
#[verifier::opaque]
pub open spec fn flag_named(name: Seq<char>) -> Option<Flag> {
    if name == "--no-udp"@ {
        Some(Flag::NoUdp)
    } else if name == "--hud"@ {
        Some(Flag::Hud)
    } else if name == "--invert-yaw"@ {
        Some(Flag::InvertYaw)
    } else if name == "--invert-pitch"@ {
        Some(Flag::InvertPitch)
    } else if name == "--invert-roll"@ {
        Some(Flag::InvertRoll)
    } else if name == "-h"@ || name == "--help"@ {
        Some(Flag::Help)
    } else if name == "-V"@ || name == "--version"@ {
        Some(Flag::Version)
    } else if name == "--host"@ {
        Some(Flag::Host)
    } else if name == "--port"@ {
        Some(Flag::Port)
    } else if name == "--hud-rate"@ {
        Some(Flag::HudRate)
    } else if name == "--kp"@ {
        Some(Flag::Kp)
    } else if name == "--ki"@ {
        Some(Flag::Ki)
    } else if name == "--sensitivity"@ {
        Some(Flag::Sensitivity)
    } else if name == "--log-imu"@ {
        Some(Flag::LogImu)
    } else if name == "--log-pose"@ {
        Some(Flag::LogPose)
    } else if name == "--protocol"@ {
        Some(Flag::Protocol)
    } else if name == "--udp-rate"@ {
        Some(Flag::UdpRate)
    } else if name == "--units"@ {
        Some(Flag::Units)
    } else if name == "--replay"@ {
        Some(Flag::Replay)
    } else if name == "--log-level"@ {
        Some(Flag::LogLevel)
    } else if name == "--gyro-calib"@ {
        Some(Flag::GyroCalib)
    } else if name == "--input"@ {
        Some(Flag::Input)
    } else if name == "--replay-visual"@ {
        Some(Flag::ReplayVisual)
    } else if name == "--record-visual"@ {
        Some(Flag::RecordVisual)
    } else {
        None
    }
}

fn flag_of(name: &str) -> (r: Option<Flag>)
    ensures
        r == flag_named(name@),
{
    reveal(flag_named);
    if same(name, "--no-udp") {
        Some(Flag::NoUdp)
    } else if same(name, "--hud") {
        Some(Flag::Hud)
    } else if same(name, "--invert-yaw") {
        Some(Flag::InvertYaw)
    } else if same(name, "--invert-pitch") {
        Some(Flag::InvertPitch)
    } else if same(name, "--invert-roll") {
        Some(Flag::InvertRoll)
    } else if same(name, "-h") || same(name, "--help") {
        Some(Flag::Help)
    } else if same(name, "-V") || same(name, "--version") {
        Some(Flag::Version)
    } else if same(name, "--host") {
        Some(Flag::Host)
    } else if same(name, "--port") {
        Some(Flag::Port)
    } else if same(name, "--hud-rate") {
        Some(Flag::HudRate)
    } else if same(name, "--kp") {
        Some(Flag::Kp)
    } else if same(name, "--ki") {
        Some(Flag::Ki)
    } else if same(name, "--sensitivity") {
        Some(Flag::Sensitivity)
    } else if same(name, "--log-imu") {
        Some(Flag::LogImu)
    } else if same(name, "--log-pose") {
        Some(Flag::LogPose)
    } else if same(name, "--protocol") {
        Some(Flag::Protocol)
    } else if same(name, "--udp-rate") {
        Some(Flag::UdpRate)
    } else if same(name, "--units") {
        Some(Flag::Units)
    } else if same(name, "--replay") {
        Some(Flag::Replay)
    } else if same(name, "--log-level") {
        Some(Flag::LogLevel)
    } else if same(name, "--gyro-calib") {
        Some(Flag::GyroCalib)
    } else if same(name, "--input") {
        Some(Flag::Input)
    } else if same(name, "--replay-visual") {
        Some(Flag::ReplayVisual)
    } else if same(name, "--record-visual") {
        Some(Flag::RecordVisual)
    } else {
        None
    }
}

/// The complaint about the value `raw` of the option `name`.
pub open spec fn invalid_value(name: Seq<char>, raw: Seq<char>) -> Seq<char> {
    "invalid value for "@ + name + ": "@ + text::debug_text(raw)
}

fn invalid(name: &str, raw: &str, reason: &str) -> (r: String)
    ensures
        r@ == invalid_value(name@, raw@) + reason@,
{
    let mut m = "invalid value for ".to_owned();
    m.append(name);
    m.append(": ");
    m.append(quoted(raw).as_str());
    m.append(reason);
    m
}

/// The finite number that `raw` reads as.
pub open spec fn finite_number(
    raw: Seq<char>,
    reading: Option<Double>,
    name: Seq<char>,
) -> Result<Double, Seq<char>> {
    match reading {
        None => Err(invalid_value(name, raw)),
        Some(v) => if v.finite() {
            Ok(v)
        } else {
            Err(invalid_value(name, raw) + " (must be finite)"@)
        },
    }
}

/// The number that `raw` reads as, if it is not negative.
pub open spec fn nonnegative_number(
    raw: Seq<char>,
    reading: Option<Double>,
    name: Seq<char>,
) -> Result<Double, Seq<char>> {
    match finite_number(raw, reading, name) {
        Err(m) => Err(m),
        Ok(v) => if v.less(Double::zero()) {
            Err(invalid_value(name, raw) + " (must be ≥ 0)"@)
        } else {
            Ok(v)
        },
    }
}

/// The number that `raw` reads as, if it is positive.
pub open spec fn positive_number(
    raw: Seq<char>,
    reading: Option<Double>,
    name: Seq<char>,
) -> Result<Double, Seq<char>> {
    match finite_number(raw, reading, name) {
        Err(m) => Err(m),
        Ok(v) => if v.at_most(Double::zero()) {
            Err(invalid_value(name, raw) + " (must be > 0)"@)
        } else {
            Ok(v)
        },
    }
}

/// A result and the value it stands for agree.
pub open spec fn agrees<T>(r: Result<T, String>, v: Result<T, Seq<char>>) -> bool {
    match (r, v) {
        (Ok(a), Ok(b)) => a == b,
        (Err(m), Err(n)) => m@ == n,
        _ => false,
    }
}

fn parse_double(raw: &str, reading: Option<Double>, name: &str) -> (r: Result<Double, String>)
    ensures
        agrees(r, finite_number(raw@, reading, name@)),
{
    match reading {
        None => {
            let m = invalid(name, raw, "");
            proof {
                reveal_strlit("");
                assert(invalid_value(name@, raw@) + ""@ =~= invalid_value(name@, raw@));
            }
            Err(m)
        },
        Some(v) => if v.is_finite() {
            Ok(v)
        } else {
            Err(invalid(name, raw, " (must be finite)"))
        },
    }
}

fn parse_nonneg(raw: &str, reading: Option<Double>, name: &str) -> (r: Result<Double, String>)
    ensures
        agrees(r, nonnegative_number(raw@, reading, name@)),
{
    match parse_double(raw, reading, name) {
        Err(m) => Err(m),
        Ok(v) => if v.lt(Double { bits: 0 }) {
            Err(invalid(name, raw, " (must be ≥ 0)"))
        } else {
            Ok(v)
        },
    }
}

fn parse_pos(raw: &str, reading: Option<Double>, name: &str) -> (r: Result<Double, String>)
    ensures
        agrees(r, positive_number(raw@, reading, name@)),
{
    match parse_double(raw, reading, name) {
        Err(m) => Err(m),
        Ok(v) => if v.le(Double { bits: 0 }) {
            Err(invalid(name, raw, " (must be > 0)"))
        } else {
            Ok(v)
        },
    }
}

/// The protocol that a word names.
pub open spec fn protocol_named(word: Seq<char>) -> Option<Protocol> {
    if word == "classic"@ || word == "6x64"@ || word == "6xf64"@ {
        Some(Protocol::Classic)
    } else if word == "extended"@ || word == "10d"@ || word == "10-double"@ || word == "10xf64"@ {
        Some(Protocol::Extended)
    } else {
        None
    }
}

/// The units that a word names.
pub open spec fn units_named(word: Seq<char>) -> Option<Units> {
    if word == "deg"@ || word == "degree"@ || word == "degrees"@ {
        Some(Units::Deg)
    } else if word == "rad"@ || word == "radian"@ || word == "radians"@ {
        Some(Units::Rad)
    } else {
        None
    }
}

/// The input that a word names.
pub open spec fn input_named(word: Seq<char>) -> Option<Input> {
    if word == "imu"@ {
        Some(Input::Imu)
    } else if word == "visual"@ {
        Some(Input::Visual)
    } else {
        None
    }
}

/// A word as the options compare it.
pub open spec fn word_of(raw: Seq<char>) -> Seq<char> {
    text::lowered(text::trimmed(raw))
}

/// `cfg` with the value-less option `flag` applied.
pub open spec fn switched(cfg: ConfigView, flag: Flag) -> ConfigView {
    match flag {
        Flag::NoUdp => ConfigView { no_udp: true, ..cfg },
        Flag::Hud => ConfigView { hud: true, ..cfg },
        Flag::InvertYaw => ConfigView { invert_yaw: true, ..cfg },
        Flag::InvertPitch => ConfigView { invert_pitch: true, ..cfg },
        Flag::InvertRoll => ConfigView { invert_roll: true, ..cfg },
        _ => cfg,
    }
}

/// The option takes no value.
pub open spec fn is_switch(flag: Flag) -> bool {
    flag is NoUdp || flag is Hud || flag is InvertYaw || flag is InvertPitch || flag is InvertRoll
}

/// `cfg` with the option `flag` set to the value `raw`, which reads as the number
/// `reading`; or the complaint about the value.
#[verifier::opaque]
pub open spec fn assigned(
    cfg: ConfigView,
    flag: Flag,
    name: Seq<char>,
    raw: Seq<char>,
    reading: Option<Double>,
) -> Result<ConfigView, Seq<char>> {
    let word = word_of(raw);
    match flag {
        Flag::Host => Ok(ConfigView { host: raw, ..cfg }),
        Flag::Port => match text::u16_named(text::trimmed(raw)) {
            None => Err(invalid_value(name, raw) + " (1-65535)"@),
            Some(port) => if port == 0 {
                Err("invalid value for --port: must be 1-65535"@)
            } else {
                Ok(ConfigView { port, ..cfg })
            },
        },
        Flag::HudRate => match positive_number(raw, reading, name) {
            Ok(v) => Ok(ConfigView { hud_rate: v, ..cfg }),
            Err(m) => Err(m),
        },
        Flag::Kp => match nonnegative_number(raw, reading, name) {
            Ok(v) => Ok(ConfigView { kp: v, ..cfg }),
            Err(m) => Err(m),
        },
        Flag::Ki => match nonnegative_number(raw, reading, name) {
            Ok(v) => Ok(ConfigView { ki: v, ..cfg }),
            Err(m) => Err(m),
        },
        Flag::Sensitivity => match nonnegative_number(raw, reading, name) {
            Ok(v) => Ok(ConfigView { sensitivity: v, ..cfg }),
            Err(m) => Err(m),
        },
        Flag::UdpRate => match positive_number(raw, reading, name) {
            Ok(v) => Ok(ConfigView { udp_rate: v, ..cfg }),
            Err(m) => Err(m),
        },
        Flag::GyroCalib => match nonnegative_number(raw, reading, name) {
            Ok(v) => Ok(ConfigView { gyro_calib: v, ..cfg }),
            Err(m) => Err(m),
        },
        Flag::LogImu => Ok(ConfigView { log_imu: Some(raw), ..cfg }),
        Flag::LogPose => Ok(ConfigView { log_pose: Some(raw), ..cfg }),
        Flag::Replay => Ok(ConfigView { replay: Some(raw), ..cfg }),
        Flag::ReplayVisual => Ok(ConfigView { replay_visual: Some(raw), ..cfg }),
        Flag::RecordVisual => Ok(ConfigView { record_visual: Some(raw), ..cfg }),
        Flag::Protocol => match protocol_named(word) {
            Some(protocol) => Ok(ConfigView { protocol, ..cfg }),
            None => Err(invalid_value(name, word) + " (classic|extended)"@),
        },
        Flag::Units => match units_named(word) {
            Some(units) => Ok(ConfigView { units, ..cfg }),
            None => Err(invalid_value(name, word) + " (deg|rad)"@),
        },
        Flag::Input => match input_named(word) {
            Some(input) => Ok(ConfigView { input, ..cfg }),
            None => Err(invalid_value(name, word) + " (imu|visual)"@),
        },
        Flag::LogLevel => match Level::named(word) {
            Some(log_level) => Ok(ConfigView { log_level, ..cfg }),
            None => Err(invalid_value(name, word) + " (error|warn|info|debug)"@),
        },
        _ => Ok(switched(cfg, flag)),
    }
}

/// The name of an argument's option and the value that it carries with it.
pub open spec fn flag_and_inline(arg: Arg) -> (Seq<char>, Option<(Seq<char>, Option<Double>)>) {
    match text::split_first(arg.text@, '=') {
        Some((name, value)) => (name, Some((value, arg.inline))),
        None => (arg.text@, None),
    }
}

/// The value of the option `name`, its reading, and the arguments left after it:
/// the value it carries, or else the next argument.
pub open spec fn value_taken(
    inline: Option<(Seq<char>, Option<Double>)>,
    rest: Seq<Arg>,
    name: Seq<char>,
) -> Result<((Seq<char>, Option<Double>), Seq<Arg>), Seq<char>> {
    match inline {
        Some(v) => Ok((v, rest)),
        None => if rest.len() == 0 {
            Err("option "@ + name + " requires a value"@)
        } else {
            let next = rest.first();
            if text::begins_with(next.text@, "-"@) {
                Err(
                    "option "@ + name + " requires a value (got "@ + text::debug_text(next.text@)
                        + ")"@,
                )
            } else {
                Ok(((next.text@, next.whole), rest.drop_first()))
            }
        },
    }
}

/// What the arguments `args` make of the configuration `cfg`.
pub open spec fn parsed(args: Seq<Arg>, cfg: ConfigView) -> Result<OutcomeView, Seq<char>>
    decreases args.len(),
{
    if args.len() == 0 {
        Ok(OutcomeView::Run(cfg))
    } else {
        let (name, inline) = flag_and_inline(args.first());
        let rest = args.drop_first();
        match flag_named(name) {
            None => Err("unknown option: "@ + name),
            Some(Flag::Help) => Ok(OutcomeView::Help),
            Some(Flag::Version) => Ok(OutcomeView::Version),
            Some(flag) => if is_switch(flag) {
                if inline is Some {
                    Err("option "@ + name + " takes no value"@)
                } else {
                    parsed(rest, switched(cfg, flag))
                }
            } else {
                match value_taken(inline, rest, name) {
                    Err(m) => Err(m),
                    Ok(((raw, reading), left)) => match assigned(cfg, flag, name, raw, reading) {
                        Err(m) => Err(m),
                        Ok(next) => parsed(left, next),
                    },
                }
            },
        }
    }
}

/// A value of an option and the number that it reads as.
struct Value {
    text: String,
    number: Option<Double>,
}

impl Value {
    spec fn parts(self) -> (Seq<char>, Option<Double>) {
        (self.text@, self.number)
    }
}

/// The arguments that are left, and the value that the last one carried with it
/// (`--flag=value`), which the next `take` consumes.
struct ArgIter {
    args: Vec<Arg>,
    pos: usize,
    pending: Option<Value>,
}

spec fn parts_of(v: Option<Value>) -> Option<(Seq<char>, Option<Double>)> {
    match v {
        Some(v) => Some(v.parts()),
        None => None,
    }
}

impl ArgIter {
    spec fn wf(self) -> bool {
        self.pos <= self.args.len()
    }

    /// The arguments that are left.
    spec fn rest(self) -> Seq<Arg> {
        self.args@.subrange(self.pos as int, self.args.len() as int)
    }

    fn new(args: Vec<Arg>) -> (r: ArgIter)
        ensures
            r.wf(),
            r.rest() == args@,
            r.pending is None,
    {
        let it = ArgIter { args, pos: 0, pending: None };
        assert(it.rest() =~= args@);
        it
    }

    /// The name of the next option; the value it carries is parked.
    fn next_flag(&mut self) -> (r: Option<String>)
        requires
            old(self).wf(),
            old(self).pending is None,
        ensures
            final(self).wf(),
            match r {
                None => old(self).rest().len() == 0 && *final(self) == *old(self),
                Some(name) => {
                    let (flag, inline) = flag_and_inline(old(self).rest().first());
                    &&& old(self).rest().len() > 0
                    &&& final(self).rest() == old(self).rest().drop_first()
                    &&& name@ == flag
                    &&& parts_of(final(self).pending) == inline
                },
            },
    {
        if self.pos >= self.args.len() {
            return None;
        }
        let arg = &self.args[self.pos];
        assert(*arg == self.rest().first());
        let (name, pending) = match split_once(arg.text.as_str(), '=') {
            Some((f, v)) => {
                (f.to_owned(), Some(Value { text: v.to_owned(), number: arg.inline }))
            },
            None => (arg.text.as_str().to_owned(), None),
        };
        self.pos = self.pos + 1;
        self.pending = pending;
        assert(self.rest() =~= old(self).rest().drop_first());
        Some(name)
    }

    /// The value of the option `name`: the parked one, or else the next argument.
    fn take(&mut self, name: &str) -> (r: Result<Value, String>)
        requires
            old(self).wf(),
        ensures
            match (r, value_taken(parts_of(old(self).pending), old(self).rest(), name@)) {
                (Ok(v), Ok((w, left))) => {
                    &&& v.parts() == w
                    &&& final(self).wf()
                    &&& final(self).rest() == left
                    &&& final(self).pending is None
                },
                (Err(m), Err(n)) => m@ == n,
                _ => false,
            },
    {
        if let Some(v) = self.pending.take() {
            return Ok(v);
        }
        if self.pos >= self.args.len() {
            let mut m = "option ".to_owned();
            m.append(name);
            m.append(" requires a value");
            return Err(m);
        }
        let arg = &self.args[self.pos];
        assert(*arg == self.rest().first());
        if starts_with(arg.text.as_str(), "-") {
            let mut m = "option ".to_owned();
            m.append(name);
            m.append(" requires a value (got ");
            m.append(quoted(arg.text.as_str()).as_str());
            m.append(")");
            return Err(m);
        }
        let v = Value { text: arg.text.as_str().to_owned(), number: arg.whole };
        self.pos = self.pos + 1;
        assert(self.rest() =~= old(self).rest().drop_first());
        Ok(v)
    }
}

fn parse_protocol(word: &str) -> (r: Option<Protocol>)
    ensures
        r == protocol_named(word@),
{
    if same(word, "classic") || same(word, "6x64") || same(word, "6xf64") {
        Some(Protocol::Classic)
    } else if same(word, "extended") || same(word, "10d") || same(word, "10-double") || same(
        word,
        "10xf64",
    ) {
        Some(Protocol::Extended)
    } else {
        None
    }
}

fn parse_units(word: &str) -> (r: Option<Units>)
    ensures
        r == units_named(word@),
{
    if same(word, "deg") || same(word, "degree") || same(word, "degrees") {
        Some(Units::Deg)
    } else if same(word, "rad") || same(word, "radian") || same(word, "radians") {
        Some(Units::Rad)
    } else {
        None
    }
}

fn parse_input(word: &str) -> (r: Option<Input>)
    ensures
        r == input_named(word@),
{
    if same(word, "imu") {
        Some(Input::Imu)
    } else if same(word, "visual") {
        Some(Input::Visual)
    } else {
        None
    }
}

/// Applies an option to the configuration.
fn assign(cfg: &mut Config, flag: Flag, name: &str, raw: &str, reading: Option<Double>) -> (r:
    Result<(), String>)
    ensures
        match (r, assigned(old(cfg)@, flag, name@, raw@, reading)) {
            (Ok(_), Ok(next)) => final(cfg)@ == next,
            (Err(m), Err(n)) => m@ == n,
            _ => false,
        },
{
    reveal(assigned);
    match flag {
        Flag::NoUdp => {
            cfg.no_udp = true;
        },
        Flag::Hud => {
            cfg.hud = true;
        },
        Flag::InvertYaw => {
            cfg.invert_yaw = true;
        },
        Flag::InvertPitch => {
            cfg.invert_pitch = true;
        },
        Flag::InvertRoll => {
            cfg.invert_roll = true;
        },
        Flag::Help | Flag::Version => {},
        Flag::Host => {
            cfg.host = raw.to_owned();
        },
        Flag::Port => match text::parse_u16(trim(raw)) {
            None => {
                return Err(invalid(name, raw, " (1-65535)"));
            },
            Some(port) => {
                if port == 0 {
                    return Err("invalid value for --port: must be 1-65535".to_owned());
                }
                cfg.port = port;
            },
        },
        Flag::HudRate => match parse_pos(raw, reading, name) {
            Ok(v) => {
                cfg.hud_rate = v;
            },
            Err(m) => {
                return Err(m);
            },
        },
        Flag::UdpRate => match parse_pos(raw, reading, name) {
            Ok(v) => {
                cfg.udp_rate = v;
            },
            Err(m) => {
                return Err(m);
            },
        },
        Flag::Kp => match parse_nonneg(raw, reading, name) {
            Ok(v) => {
                cfg.kp = v;
            },
            Err(m) => {
                return Err(m);
            },
        },
        Flag::Ki => match parse_nonneg(raw, reading, name) {
            Ok(v) => {
                cfg.ki = v;
            },
            Err(m) => {
                return Err(m);
            },
        },
        Flag::Sensitivity => match parse_nonneg(raw, reading, name) {
            Ok(v) => {
                cfg.sensitivity = v;
            },
            Err(m) => {
                return Err(m);
            },
        },
        Flag::GyroCalib => match parse_nonneg(raw, reading, name) {
            Ok(v) => {
                cfg.gyro_calib = v;
            },
            Err(m) => {
                return Err(m);
            },
        },
        Flag::LogImu => {
            cfg.log_imu = Some(raw.to_owned());
        },
        Flag::LogPose => {
            cfg.log_pose = Some(raw.to_owned());
        },
        Flag::Replay => {
            cfg.replay = Some(raw.to_owned());
        },
        Flag::ReplayVisual => {
            cfg.replay_visual = Some(raw.to_owned());
        },
        Flag::RecordVisual => {
            cfg.record_visual = Some(raw.to_owned());
        },
        Flag::Protocol => {
            let word = to_lower(trim(raw));
            match parse_protocol(word.as_str()) {
                Some(protocol) => {
                    cfg.protocol = protocol;
                },
                None => {
                    return Err(invalid(name, word.as_str(), " (classic|extended)"));
                },
            }
        },
        Flag::Units => {
            let word = to_lower(trim(raw));
            match parse_units(word.as_str()) {
                Some(units) => {
                    cfg.units = units;
                },
                None => {
                    return Err(invalid(name, word.as_str(), " (deg|rad)"));
                },
            }
        },
        Flag::Input => {
            let word = to_lower(trim(raw));
            match parse_input(word.as_str()) {
                Some(input) => {
                    cfg.input = input;
                },
                None => {
                    return Err(invalid(name, word.as_str(), " (imu|visual)"));
                },
            }
        },
        Flag::LogLevel => match Level::parse(raw) {
            Some(level) => {
                cfg.log_level = level;
            },
            None => {
                let word = to_lower(trim(raw));
                return Err(invalid(name, word.as_str(), " (error|warn|info|debug)"));
            },
        },
    }
    Ok(())
}

/// The bounds that a configuration keeps: a port that is not zero, rates that are
/// finite and positive, gains that are finite and not negative.
pub open spec fn in_bounds(cfg: ConfigView) -> bool {
    &&& cfg.port != 0
    &&& cfg.hud_rate.finite() && Double::zero().less(cfg.hud_rate)
    &&& cfg.udp_rate.finite() && Double::zero().less(cfg.udp_rate)
    &&& cfg.kp.finite() && Double::zero().at_most(cfg.kp)
    &&& cfg.ki.finite() && Double::zero().at_most(cfg.ki)
    &&& cfg.sensitivity.finite() && Double::zero().at_most(cfg.sensitivity)
    &&& cfg.gyro_calib.finite() && Double::zero().at_most(cfg.gyro_calib)
}

/// The defaults are within their bounds.
pub proof fn law_defaults_in_bounds()
    ensures
        in_bounds(default_config()),
{
    crate::double::lemma_magnitude_units_order(0, TWO as int);
    crate::double::lemma_magnitude_units_order(0, SIXTY as int);
    crate::double::lemma_magnitude_units_order(0, FIVE_THOUSANDTHS as int);
    crate::double::lemma_magnitude_units_order(0, crate::double::ONE as int);
}

proof fn lemma_assigned_in_bounds(
    cfg: ConfigView,
    flag: Flag,
    name: Seq<char>,
    raw: Seq<char>,
    reading: Option<Double>,
)
    requires
        in_bounds(cfg),
    ensures
        assigned(cfg, flag, name, raw, reading) matches Ok(next) ==> in_bounds(next),
        is_switch(flag) ==> assigned(cfg, flag, name, raw, reading) == Ok::<_, Seq<char>>(
            switched(cfg, flag),
        ),
{
    reveal(assigned);
}

/// Whatever the arguments are, a configuration that is accepted is within its
/// bounds.
pub proof fn law_accepted_config_in_bounds(args: Seq<Arg>, cfg: ConfigView)
    requires
        in_bounds(cfg),
    ensures
        parsed(args, cfg) matches Ok(OutcomeView::Run(c)) ==> in_bounds(c),
    decreases args.len(),
{
    if args.len() > 0 {
        let (name, inline) = flag_and_inline(args.first());
        let rest = args.drop_first();
        if let Some(flag) = flag_named(name) {
            if is_switch(flag) {
                lemma_assigned_in_bounds(cfg, flag, name, name, None);
                law_accepted_config_in_bounds(rest, switched(cfg, flag));
            } else if let Ok(((raw, reading), left)) = value_taken(inline, rest, name) {
                if let Ok(next) = assigned(cfg, flag, name, raw, reading) {
                    lemma_assigned_in_bounds(cfg, flag, name, raw, reading);
                    law_accepted_config_in_bounds(left, next);
                }
            }
        }
    }
}

/// The same configuration or answer, or a complaint in both cases.
pub open spec fn same_outcome(
    a: Result<OutcomeView, Seq<char>>,
    b: Result<OutcomeView, Seq<char>>,
) -> bool {
    match (a, b) {
        (Ok(x), Ok(y)) => x == y,
        (Err(_), Err(_)) => true,
        _ => false,
    }
}

proof fn lemma_options_begin_with_dash(name: Seq<char>)
    requires
        flag_named(name) is Some,
    ensures
        name.len() > 0,
        name[0] == '-',
{
    reveal(flag_named);
    reveal_strlit("--no-udp");
    reveal_strlit("--hud");
    reveal_strlit("--invert-yaw");
    reveal_strlit("--invert-pitch");
    reveal_strlit("--invert-roll");
    reveal_strlit("-h");
    reveal_strlit("--help");
    reveal_strlit("-V");
    reveal_strlit("--version");
    reveal_strlit("--host");
    reveal_strlit("--port");
    reveal_strlit("--hud-rate");
    reveal_strlit("--kp");
    reveal_strlit("--ki");
    reveal_strlit("--sensitivity");
    reveal_strlit("--log-imu");
    reveal_strlit("--log-pose");
    reveal_strlit("--protocol");
    reveal_strlit("--udp-rate");
    reveal_strlit("--units");
    reveal_strlit("--replay");
    reveal_strlit("--log-level");
    reveal_strlit("--gyro-calib");
    reveal_strlit("--input");
    reveal_strlit("--replay-visual");
    reveal_strlit("--record-visual");
}

/// `--flag=value` means what `--flag value` means, wherever it stands, for a value that
/// could stand alone. Behind an option that lacks its value both are refused, each with
/// its own text in the complaint.
pub proof fn law_inline_value_is_next_argument(
    before: Seq<Arg>,
    joined: Arg,
    flag: Arg,
    value: Arg,
    rest: Seq<Arg>,
    cfg: ConfigView,
)
    requires
        text::split_first(joined.text@, '=') == Some((flag.text@, value.text@)),
        text::split_first(flag.text@, '=') is None,
        joined.inline == value.whole,
        !text::begins_with(value.text@, "-"@),
        flag_named(flag.text@) matches Some(f) && !is_switch(f),
    ensures
        same_outcome(
            parsed(before + seq![joined] + rest, cfg),
            parsed(before + seq![flag, value] + rest, cfg),
        ),
        before.len() == 0 ==> parsed(before + seq![joined] + rest, cfg) == parsed(
            before + seq![flag, value] + rest,
            cfg,
        ),
    decreases before.len(),
{
    let a = before + seq![joined] + rest;
    let b = before + seq![flag, value] + rest;
    if before.len() == 0 {
        assert(a.drop_first() =~= rest);
        assert(b.drop_first() =~= seq![value] + rest);
        assert(b.drop_first().drop_first() =~= rest);
    } else {
        let tail = before.drop_first();
        assert(a.first() == before.first() && b.first() == before.first());
        assert(a.drop_first() =~= tail + seq![joined] + rest);
        assert(b.drop_first() =~= tail + seq![flag, value] + rest);
        let (name, inline) = flag_and_inline(before.first());
        if let Some(f) = flag_named(name) {
            if is_switch(f) {
                law_inline_value_is_next_argument(
                    tail,
                    joined,
                    flag,
                    value,
                    rest,
                    switched(cfg, f),
                );
            } else if let Some((raw, reading)) = inline {
                if let Ok(next) = assigned(cfg, f, name, raw, reading) {
                    law_inline_value_is_next_argument(tail, joined, flag, value, rest, next);
                }
            } else if tail.len() == 0 {
                lemma_options_begin_with_dash(flag.text@);
                text::lemma_split_first_parts(joined.text@, '=');
                reveal_strlit("-");
                assert(a.drop_first().first() == joined && b.drop_first().first() == flag);
                assert(joined.text@[0] == flag.text@[0]);
                assert(joined.text@.subrange(0, 1) =~= "-"@);
                assert(flag.text@.subrange(0, 1) =~= "-"@);
            } else {
                let left = tail.drop_first();
                assert(a.drop_first().first() == tail.first());
                assert(b.drop_first().first() == tail.first());
                assert(a.drop_first().drop_first() =~= left + seq![joined] + rest);
                assert(b.drop_first().drop_first() =~= left + seq![flag, value] + rest);
                let word = tail.first();
                if !text::begins_with(word.text@, "-"@) {
                    if let Ok(next) = assigned(cfg, f, name, word.text@, word.whole) {
                        law_inline_value_is_next_argument(left, joined, flag, value, rest, next);
                    }
                }
            }
        }
    }
}

/// A value-less option that carries a value is refused: the value never goes to a
/// later option.
pub proof fn law_switch_refuses_value(args: Seq<Arg>, cfg: ConfigView)
    requires
        args.len() > 0,
        flag_and_inline(args.first()).1 is Some,
        flag_named(flag_and_inline(args.first()).0) matches Some(f) && is_switch(f),
    ensures
        parsed(args, cfg) == Err::<OutcomeView, Seq<char>>(
            "option "@ + flag_and_inline(args.first()).0 + " takes no value"@,
        ),
{
}

/// Takes the value of the option `flag` from the arguments and applies it.
fn apply_valued(it: &mut ArgIter, cfg: &mut Config, flag: Flag, name: &str) -> (r: Result<
    (),
    String,
>)
    requires
        old(it).wf(),
    ensures
        match value_taken(parts_of(old(it).pending), old(it).rest(), name@) {
            Err(n) => r matches Err(m) && m@ == n,
            Ok(((raw, reading), left)) => match (
                r,
                assigned(old(cfg)@, flag, name@, raw, reading),
            ) {
                (Ok(_), Ok(next)) => {
                    &&& final(cfg)@ == next
                    &&& final(it).wf()
                    &&& final(it).rest() == left
                    &&& final(it).pending is None
                },
                (Err(m), Err(n)) => m@ == n,
                _ => false,
            },
        },
{
    let value = match it.take(name) {
        Ok(value) => value,
        Err(m) => {
            return Err(m);
        },
    };
    assign(cfg, flag, name, value.text.as_str(), value.number)
}

/// Deals with the next option: `Ok(None)` when there is more to do.
fn parse_one(it: &mut ArgIter, cfg: &mut Config) -> (r: Result<Option<ParseOutcome>, String>)
    requires
        old(it).wf(),
        old(it).pending is None,
        old(it).rest().len() > 0,
    ensures
        match r {
            Ok(None) => {
                &&& final(it).wf()
                &&& final(it).pending is None
                &&& final(it).rest().len() < old(it).rest().len()
                &&& parsed(old(it).rest(), old(cfg)@) == parsed(final(it).rest(), final(cfg)@)
            },
            Ok(Some(o)) => parsed(old(it).rest(), old(cfg)@) == Ok::<_, Seq<char>>(o@),
            Err(m) => parsed(old(it).rest(), old(cfg)@) == Err::<OutcomeView, _>(m@),
        },
{
    let name = match it.next_flag() {
        Some(name) => name,
        None => {
            return Ok(None);
        },
    };
    let flag = match flag_of(name.as_str()) {
        Some(flag) => flag,
        None => {
            let mut m = "unknown option: ".to_owned();
            m.append(name.as_str());
            return Err(m);
        },
    };
    match flag {
        Flag::Help => {
            return Ok(Some(ParseOutcome::Help));
        },
        Flag::Version => {
            return Ok(Some(ParseOutcome::Version));
        },
        Flag::NoUdp | Flag::Hud | Flag::InvertYaw | Flag::InvertPitch | Flag::InvertRoll => {
            if it.pending.is_some() {
                let mut m = "option ".to_owned();
                m.append(name.as_str());
                m.append(" takes no value");
                return Err(m);
            }
            reveal(assigned);
            let done = assign(cfg, flag, name.as_str(), "", None);
            assert(done is Ok);
        },
        _ => {
            if let Err(m) = apply_valued(it, cfg, flag, name.as_str()) {
                return Err(m);
            }
        },
    }
    Ok(None)
}

/// Parses the arguments (without the program's name).
pub fn parse(args: Vec<Arg>) -> (r: Result<ParseOutcome, String>)
    ensures
        match (r, parsed(args@, default_config())) {
            (Ok(a), Ok(b)) => a@ == b,
            (Err(m), Err(n)) => m@ == n,
            _ => false,
        },
        r matches Ok(ParseOutcome::Run(c)) ==> in_bounds(c@),
{
    let ghost all = args@;
    proof {
        law_defaults_in_bounds();
        law_accepted_config_in_bounds(all, default_config());
    }
    let mut cfg = Config::default();
    let mut it = ArgIter::new(args);
    while it.pos < it.args.len()
        invariant
            all == args@,
            it.wf(),
            it.pending is None,
            parsed(it.rest(), cfg@) == parsed(all, default_config()),
            parsed(all, default_config()) matches Ok(OutcomeView::Run(c)) ==> in_bounds(c),
        decreases it.rest().len(),
    {
        match parse_one(&mut it, &mut cfg) {
            Ok(None) => {},
            Ok(Some(o)) => {
                return Ok(o);
            },
            Err(m) => {
                return Err(m);
            },
        }
    }
    Ok(ParseOutcome::Run(cfg))
}

/// What stands above the options in the help text.
pub const USAGE_HEAD: &'static str = "neuromancer-tracker — Nreal Light head tracker (Phase 1: 3-DoF)\n\nUSAGE:\n    neuromancer-tracker [OPTIONS]\n\nOPTIONS:\n";

/// The number of options in the help text.
pub const OPTION_COUNT: usize = 24;

/// The name of the `i`th option of the help text, and what stands behind it.
#[verifier::opaque]
pub open spec fn option_text(i: int) -> (Seq<char>, Seq<char>) {
    if i == 0 {
        ("--host"@, " <IP>          Opentrack host (default 127.0.0.1)\n"@)
    } else if i == 1 {
        ("--port"@, " <PORT>        Opentrack UDP port (default 4242)\n"@)
    } else if i == 2 {
        ("--no-udp"@, "             Disable UDP output (HUD-only mode)\n"@)
    } else if i == 3 {
        ("--protocol"@, " <P>       UDP protocol variant: classic|extended (default classic)\n"@)
    } else if i == 4 {
        ("--udp-rate"@, " <HZ>      UDP output rate (default 60)\n"@)
    } else if i == 5 {
        ("--units"@, " <U>          Wire units for UDP + pose log: deg|rad (default deg)\n"@)
    } else if i == 6 {
        ("--hud"@, "                Enable 2 Hz on-screen orientation readout\n"@)
    } else if i == 7 {
        ("--hud-rate"@, " <HZ>      HUD update rate (default 2)\n"@)
    } else if i == 8 {
        ("--kp"@, " <FLOAT>         Mahony proportional gain (default 1.0)\n"@)
    } else if i == 9 {
        ("--ki"@, " <FLOAT>         Mahony integral gain (default 0.005)\n"@)
    } else if i == 10 {
        ("--invert-yaw"@, "         Invert yaw axis\n"@)
    } else if i == 11 {
        ("--invert-pitch"@, "       Invert pitch axis\n"@)
    } else if i == 12 {
        ("--invert-roll"@, "        Invert roll axis\n"@)
    } else if i == 13 {
        ("--sensitivity"@, " <F>    Output sensitivity multiplier (default 1.0)\n"@)
    } else if i == 14 {
        ("--log-imu"@, " <PATH>     Append raw IMU samples to file (JSONL)\n"@)
    } else if i == 15 {
        ("--log-pose"@, " <PATH>    Append filtered pose to file (JSONL)\n"@)
    } else if i == 16 {
        ("--replay"@, " <PATH>      Dev/testing: read IMU from a JSONL file instead of USB\n"@)
    } else if i == 17 {
        ("--log-level"@, " <LEVEL>  error|warn|info|debug (default error — warnings hidden)\n"@)
    } else if i == 18 {
        ("--gyro-calib"@, " <SEC>   Startup gyro-bias calibration window (default 2.0, 0=off)\n"@)
    } else if i == 19 {
        ("--input"@, " <SOURCE>     imu|visual (default imu; visual = 6-DoF, IMU off)\n"@)
    } else if i == 20 {
        ("--replay-visual"@, " <DIR> Dev/testing: read stereo frames from a directory\n"@)
    } else if i == 21 {
        ("--record-visual"@, " <DIR> Write the stereo frames into a directory\n"@)
    } else if i == 22 {
        ("--version"@, "            Print version and exit\n"@)
    } else {
        ("--help"@, "               Print help and exit\n"@)
    }
}

fn option_line(i: usize) -> (r: (&'static str, &'static str))
    requires
        i < OPTION_COUNT,
    ensures
        (r.0@, r.1@) == option_text(i as int),
{
    reveal(option_text);
    if i == 0 {
        ("--host", " <IP>          Opentrack host (default 127.0.0.1)\n")
    } else if i == 1 {
        ("--port", " <PORT>        Opentrack UDP port (default 4242)\n")
    } else if i == 2 {
        ("--no-udp", "             Disable UDP output (HUD-only mode)\n")
    } else if i == 3 {
        ("--protocol", " <P>       UDP protocol variant: classic|extended (default classic)\n")
    } else if i == 4 {
        ("--udp-rate", " <HZ>      UDP output rate (default 60)\n")
    } else if i == 5 {
        ("--units", " <U>          Wire units for UDP + pose log: deg|rad (default deg)\n")
    } else if i == 6 {
        ("--hud", "                Enable 2 Hz on-screen orientation readout\n")
    } else if i == 7 {
        ("--hud-rate", " <HZ>      HUD update rate (default 2)\n")
    } else if i == 8 {
        ("--kp", " <FLOAT>         Mahony proportional gain (default 1.0)\n")
    } else if i == 9 {
        ("--ki", " <FLOAT>         Mahony integral gain (default 0.005)\n")
    } else if i == 10 {
        ("--invert-yaw", "         Invert yaw axis\n")
    } else if i == 11 {
        ("--invert-pitch", "       Invert pitch axis\n")
    } else if i == 12 {
        ("--invert-roll", "        Invert roll axis\n")
    } else if i == 13 {
        ("--sensitivity", " <F>    Output sensitivity multiplier (default 1.0)\n")
    } else if i == 14 {
        ("--log-imu", " <PATH>     Append raw IMU samples to file (JSONL)\n")
    } else if i == 15 {
        ("--log-pose", " <PATH>    Append filtered pose to file (JSONL)\n")
    } else if i == 16 {
        ("--replay", " <PATH>      Dev/testing: read IMU from a JSONL file instead of USB\n")
    } else if i == 17 {
        ("--log-level", " <LEVEL>  error|warn|info|debug (default error — warnings hidden)\n")
    } else if i == 18 {
        ("--gyro-calib", " <SEC>   Startup gyro-bias calibration window (default 2.0, 0=off)\n")
    } else if i == 19 {
        ("--input", " <SOURCE>     imu|visual (default imu; visual = 6-DoF, IMU off)\n")
    } else if i == 20 {
        ("--replay-visual", " <DIR> Dev/testing: read stereo frames from a directory\n")
    } else if i == 21 {
        ("--record-visual", " <DIR> Write the stereo frames into a directory\n")
    } else if i == 22 {
        ("--version", "            Print version and exit\n")
    } else {
        ("--help", "               Print help and exit\n")
    }
}

/// The help text as far as its first `n` options.
pub open spec fn usage_upto(n: int) -> Seq<char>
    decreases n,
{
    if n <= 0 {
        USAGE_HEAD@
    } else {
        usage_upto(n - 1) + "    "@ + option_text(n - 1).0 + option_text(n - 1).1
    }
}

/// The help text.
pub fn usage() -> (r: String)
    ensures
        r@ == usage_upto(OPTION_COUNT as int),
{
    let mut m = USAGE_HEAD.to_owned();
    let mut i: usize = 0;
    while i < OPTION_COUNT
        invariant
            i <= OPTION_COUNT,
            m@ == usage_upto(i as int),
        decreases OPTION_COUNT - i,
    {
        let (name, help) = option_line(i);
        m.append("    ");
        m.append(name);
        m.append(help);
        i += 1;
    }
    m
}

/// A character that the name of an option can hold.
pub open spec fn option_char(c: char) -> bool {
    'a' <= c <= 'z' || c == '-'
}

/// A text that could name an option: two dashes, then small letters and dashes.
pub open spec fn long_name(name: Seq<char>) -> bool {
    &&& name.len() > 2
    &&& name[0] == '-'
    &&& name[1] == '-'
    &&& forall|i: int| 0 <= i < name.len() ==> option_char(#[trigger] name[i])
}

/// The word `name` stands in the text `s` from its `i`th character on.
pub open spec fn listed_at(s: Seq<char>, i: int, name: Seq<char>) -> bool {
    &&& 0 <= i
    &&& i + name.len() <= s.len()
    &&& s.subrange(i, i + name.len()) == name
    &&& i + name.len() < s.len() ==> !option_char(s[i + name.len()])
}

/// Two dashes stand in `s` from its `i`th character on.
spec fn dashes_at(s: Seq<char>, i: int) -> bool {
    0 <= i && i + 1 < s.len() && s[i] == '-' && s[i + 1] == '-'
}

/// The first `n` characters are those of a name, with no two dashes in a row behind the
/// first.
spec fn proper_name(name: Seq<char>, n: int) -> bool
    decreases n,
{
    if n <= 2 {
        name.len() > 2 && name[0] == '-' && name[1] == '-'
    } else {
        proper_name(name, n - 1) && option_char(name[n - 1]) && !(name[n - 1] == '-' && name[n - 2]
            == '-')
    }
}

/// No two of the first `n` characters are dashes in a row.
spec fn single_dashes(s: Seq<char>, n: int) -> bool
    decreases n,
{
    n <= 1 || (single_dashes(s, n - 1) && !(s[n - 1] == '-' && s[n - 2] == '-'))
}

spec fn option_is_proper(i: int) -> bool {
    let (name, help) = option_text(i);
    &&& flag_named(name) is Some
    &&& proper_name(name, name.len() as int)
    &&& help.len() > 0
    &&& help.first() == ' '
    &&& help.last() == '\n'
    &&& single_dashes(help, help.len() as int)
}

proof fn lemma_option_texts_a(i: int)
    requires
        0 <= i < 6,
    ensures
        option_is_proper(i),
{
    reveal(option_text);
    reveal(flag_named);
    reveal_with_fuel(proper_name, 18);
    reveal_with_fuel(single_dashes, 80);
    if i == 0 {
        reveal_strlit("--host");
        reveal_strlit(" <IP>          Opentrack host (default 127.0.0.1)\n");
        assert(proper_name("--host"@, 6));
        assert(single_dashes(" <IP>          Opentrack host (default 127.0.0.1)\n"@, 50));
    }
    if i == 1 {
        reveal_strlit("--port");
        reveal_strlit(" <PORT>        Opentrack UDP port (default 4242)\n");
        assert(proper_name("--port"@, 6));
        assert(single_dashes(" <PORT>        Opentrack UDP port (default 4242)\n"@, 49));
    }
    if i == 2 {
        reveal_strlit("--no-udp");
        reveal_strlit("             Disable UDP output (HUD-only mode)\n");
        assert(proper_name("--no-udp"@, 8));
        assert(single_dashes("             Disable UDP output (HUD-only mode)\n"@, 48));
    }
    if i == 3 {
        reveal_strlit("--protocol");
        reveal_strlit(" <P>       UDP protocol variant: classic|extended (default classic)\n");
        assert(proper_name("--protocol"@, 10));
        assert(single_dashes(" <P>       UDP protocol variant: classic|extended (default classic)\n"@, 68));
    }
    if i == 4 {
        reveal_strlit("--udp-rate");
        reveal_strlit(" <HZ>      UDP output rate (default 60)\n");
        assert(proper_name("--udp-rate"@, 10));
        assert(single_dashes(" <HZ>      UDP output rate (default 60)\n"@, 40));
    }
    if i == 5 {
        reveal_strlit("--units");
        reveal_strlit(" <U>          Wire units for UDP + pose log: deg|rad (default deg)\n");
        assert(proper_name("--units"@, 7));
        assert(single_dashes(" <U>          Wire units for UDP + pose log: deg|rad (default deg)\n"@, 67));
    }
}

proof fn lemma_option_texts_b(i: int)
    requires
        6 <= i < 12,
    ensures
        option_is_proper(i),
{
    reveal(option_text);
    reveal(flag_named);
    reveal_with_fuel(proper_name, 18);
    reveal_with_fuel(single_dashes, 80);
    if i == 6 {
        reveal_strlit("--hud");
        reveal_strlit("                Enable 2 Hz on-screen orientation readout\n");
        assert(proper_name("--hud"@, 5));
        assert(single_dashes("                Enable 2 Hz on-screen orientation readout\n"@, 58));
    }
    if i == 7 {
        reveal_strlit("--hud-rate");
        reveal_strlit(" <HZ>      HUD update rate (default 2)\n");
        assert(proper_name("--hud-rate"@, 10));
        assert(single_dashes(" <HZ>      HUD update rate (default 2)\n"@, 39));
    }
    if i == 8 {
        reveal_strlit("--kp");
        reveal_strlit(" <FLOAT>         Mahony proportional gain (default 1.0)\n");
        assert(proper_name("--kp"@, 4));
        assert(single_dashes(" <FLOAT>         Mahony proportional gain (default 1.0)\n"@, 56));
    }
    if i == 9 {
        reveal_strlit("--ki");
        reveal_strlit(" <FLOAT>         Mahony integral gain (default 0.005)\n");
        assert(proper_name("--ki"@, 4));
        assert(single_dashes(" <FLOAT>         Mahony integral gain (default 0.005)\n"@, 54));
    }
    if i == 10 {
        reveal_strlit("--invert-yaw");
        reveal_strlit("         Invert yaw axis\n");
        assert(proper_name("--invert-yaw"@, 12));
        assert(single_dashes("         Invert yaw axis\n"@, 25));
    }
    if i == 11 {
        reveal_strlit("--invert-pitch");
        reveal_strlit("       Invert pitch axis\n");
        assert(proper_name("--invert-pitch"@, 14));
        assert(single_dashes("       Invert pitch axis\n"@, 25));
    }
}

proof fn lemma_option_texts_c(i: int)
    requires
        12 <= i < 18,
    ensures
        option_is_proper(i),
{
    reveal(option_text);
    reveal(flag_named);
    reveal_with_fuel(proper_name, 18);
    reveal_with_fuel(single_dashes, 80);
    if i == 12 {
        reveal_strlit("--invert-roll");
        reveal_strlit("        Invert roll axis\n");
        assert(proper_name("--invert-roll"@, 13));
        assert(single_dashes("        Invert roll axis\n"@, 25));
    }
    if i == 13 {
        reveal_strlit("--sensitivity");
        reveal_strlit(" <F>    Output sensitivity multiplier (default 1.0)\n");
        assert(proper_name("--sensitivity"@, 13));
        assert(single_dashes(" <F>    Output sensitivity multiplier (default 1.0)\n"@, 52));
    }
    if i == 14 {
        reveal_strlit("--log-imu");
        reveal_strlit(" <PATH>     Append raw IMU samples to file (JSONL)\n");
        assert(proper_name("--log-imu"@, 9));
        assert(single_dashes(" <PATH>     Append raw IMU samples to file (JSONL)\n"@, 51));
    }
    if i == 15 {
        reveal_strlit("--log-pose");
        reveal_strlit(" <PATH>    Append filtered pose to file (JSONL)\n");
        assert(proper_name("--log-pose"@, 10));
        assert(single_dashes(" <PATH>    Append filtered pose to file (JSONL)\n"@, 48));
    }
    if i == 16 {
        reveal_strlit("--replay");
        reveal_strlit(" <PATH>      Dev/testing: read IMU from a JSONL file instead of USB\n");
        assert(proper_name("--replay"@, 8));
        assert(single_dashes(" <PATH>      Dev/testing: read IMU from a JSONL file instead of USB\n"@, 68));
    }
    if i == 17 {
        reveal_strlit("--log-level");
        reveal_strlit(" <LEVEL>  error|warn|info|debug (default error — warnings hidden)\n");
        assert(proper_name("--log-level"@, 11));
        assert(single_dashes(" <LEVEL>  error|warn|info|debug (default error — warnings hidden)\n"@, 66));
    }
}

proof fn lemma_option_texts_d(i: int)
    requires
        18 <= i < 24,
    ensures
        option_is_proper(i),
{
    reveal(option_text);
    reveal(flag_named);
    reveal_with_fuel(proper_name, 18);
    reveal_with_fuel(single_dashes, 80);
    if i == 18 {
        reveal_strlit("--gyro-calib");
        reveal_strlit(" <SEC>   Startup gyro-bias calibration window (default 2.0, 0=off)\n");
        assert(proper_name("--gyro-calib"@, 12));
        assert(single_dashes(" <SEC>   Startup gyro-bias calibration window (default 2.0, 0=off)\n"@, 67));
    }
    if i == 19 {
        reveal_strlit("--input");
        reveal_strlit(" <SOURCE>     imu|visual (default imu; visual = 6-DoF, IMU off)\n");
        assert(proper_name("--input"@, 7));
        assert(single_dashes(" <SOURCE>     imu|visual (default imu; visual = 6-DoF, IMU off)\n"@, 64));
    }
    if i == 20 {
        reveal_strlit("--replay-visual");
        reveal_strlit(" <DIR> Dev/testing: read stereo frames from a directory\n");
        assert(proper_name("--replay-visual"@, 15));
        assert(single_dashes(" <DIR> Dev/testing: read stereo frames from a directory\n"@, 56));
    }
    if i == 21 {
        reveal_strlit("--record-visual");
        reveal_strlit(" <DIR> Write the stereo frames into a directory\n");
        assert(proper_name("--record-visual"@, 15));
        assert(single_dashes(" <DIR> Write the stereo frames into a directory\n"@, 48));
    }
    if i == 22 {
        reveal_strlit("--version");
        reveal_strlit("            Print version and exit\n");
        assert(proper_name("--version"@, 9));
        assert(single_dashes("            Print version and exit\n"@, 35));
    }
    if i == 23 {
        reveal_strlit("--help");
        reveal_strlit("               Print help and exit\n");
        assert(proper_name("--help"@, 6));
        assert(single_dashes("               Print help and exit\n"@, 35));
    }
}

proof fn lemma_option_is_proper(i: int)
    requires
        0 <= i < OPTION_COUNT,
    ensures
        option_is_proper(i),
{
    if i < 6 {
        lemma_option_texts_a(i);
    } else if i < 12 {
        lemma_option_texts_b(i);
    } else if i < 18 {
        lemma_option_texts_c(i);
    } else {
        lemma_option_texts_d(i);
    }
}

proof fn lemma_head()
    ensures
        USAGE_HEAD@.len() > 0,
        USAGE_HEAD@.last() == '\n',
        single_dashes(USAGE_HEAD@, USAGE_HEAD@.len() as int),
{
    reveal_strlit(
        "neuromancer-tracker — Nreal Light head tracker (Phase 1: 3-DoF)\n\nUSAGE:\n    neuromancer-tracker [OPTIONS]\n\nOPTIONS:\n",
    );
    reveal_with_fuel(single_dashes, 42);
    assert(single_dashes(USAGE_HEAD@, 40));
    assert(single_dashes(USAGE_HEAD@, 80));
    assert(single_dashes(USAGE_HEAD@, 116));
}

proof fn lemma_name_has_no_dashes_behind(name: Seq<char>, n: int, i: int)
    requires
        2 <= n <= name.len(),
        proper_name(name, n),
    ensures
        name.len() > 2,
        name[0] == '-' && name[1] == '-',
        0 <= i < n ==> option_char(name[i]),
        1 <= i && i + 1 < n ==> !dashes_at(name, i),
    decreases n,
{
    if n > 2 {
        lemma_name_has_no_dashes_behind(name, n - 1, i);
    }
}

proof fn lemma_text_has_no_dashes(s: Seq<char>, n: int, i: int)
    requires
        0 <= i,
        i + 1 < n <= s.len(),
        single_dashes(s, n),
    ensures
        !dashes_at(s, i),
    decreases n,
{
    if i + 2 < n {
        lemma_text_has_no_dashes(s, n - 1, i);
    }
}

/// The place of the `k`th option in the help text.
spec fn option_place(k: int) -> int {
    usage_upto(k).len() as int + 4
}

proof fn lemma_dashes_are_options(n: int, i: int)
    requires
        0 <= n <= OPTION_COUNT,
        dashes_at(usage_upto(n), i),
    ensures
        exists|k: int| 0 <= k < n && i == #[trigger] option_place(k),
    decreases n,
{
    lemma_head();
    if n == 0 {
        lemma_text_has_no_dashes(USAGE_HEAD@, USAGE_HEAD@.len() as int, i);
    } else {
        reveal_strlit("    ");
        lemma_option_is_proper(n - 1);
        lemma_ends_a_line(n - 1);
        let before = usage_upto(n - 1);
        let (name, help) = option_text(n - 1);
        let at = option_place(n - 1);
        let s = usage_upto(n);
        if i + 1 < before.len() {
            assert(s[i] == before[i] && s[i + 1] == before[i + 1]);
            lemma_dashes_are_options(n - 1, i);
        } else if i < at {
            if i < before.len() {
                assert(s[i] == before.last());
            } else {
                assert(s[i] == "    "@[i - before.len()]);
            }
        } else if i < at + name.len() {
            let j = i - at;
            assert(s[i] == name[j]);
            if j + 1 < name.len() {
                assert(s[i + 1] == name[j + 1]);
                lemma_name_has_no_dashes_behind(name, name.len() as int, j);
            } else {
                assert(s[i + 1] == help[0]);
            }
        } else {
            let j = i - at - name.len();
            assert(s[i] == help[j] && s[i + 1] == help[j + 1]);
            lemma_text_has_no_dashes(help, help.len() as int, j);
        }
    }
}

proof fn lemma_ends_a_line(n: int)
    requires
        0 <= n <= OPTION_COUNT,
    ensures
        usage_upto(n).len() > 0,
        usage_upto(n).last() == '\n',
{
    lemma_head();
    if n > 0 {
        lemma_option_is_proper(n - 1);
        assert(usage_upto(n).last() == option_text(n - 1).1.last());
    }
}

proof fn lemma_usage_grows(k: int, n: int, i: int)
    requires
        0 <= k <= n <= OPTION_COUNT,
        0 <= i < usage_upto(k).len(),
    ensures
        usage_upto(k).len() <= usage_upto(n).len(),
        usage_upto(n)[i] == usage_upto(k)[i],
    decreases n - k,
{
    if k < n {
        lemma_usage_grows(k, n - 1, i);
    }
}

proof fn lemma_option_is_listed(k: int)
    requires
        0 <= k < OPTION_COUNT,
    ensures
        listed_at(usage_upto(OPTION_COUNT as int), option_place(k), option_text(k).0),
        long_name(option_text(k).0),
        ({
            let end = option_place(k) + option_text(k).0.len();
            end < usage_upto(OPTION_COUNT as int).len() && usage_upto(OPTION_COUNT as int)[end]
                == ' '
        }),
{
    reveal_strlit("    ");
    lemma_option_is_proper(k);
    lemma_ends_a_line(k);
    let (name, help) = option_text(k);
    let part = usage_upto(k + 1);
    let all = usage_upto(OPTION_COUNT as int);
    let at = option_place(k);
    lemma_name_has_no_dashes_behind(name, name.len() as int, 0);
    assert forall|j: int| 0 <= j < name.len() implies option_char(#[trigger] name[j]) by {
        lemma_name_has_no_dashes_behind(name, name.len() as int, j);
    }
    assert forall|j: int| 0 <= j <= name.len() implies all[#[trigger] (at + j)] == part[at + j]
        && at + j < all.len() by {
        lemma_usage_grows(k + 1, OPTION_COUNT as int, at + j);
    }
    assert(part[at + name.len()] == help[0]);
    assert(all.subrange(at, at + name.len()) =~= name) by {
        assert forall|j: int| 0 <= j < name.len() implies all[at + j] == name[j] by {
            assert(part[at + j] == name[j]);
        }
    }
}

proof fn lemma_long_option_has_line(name: Seq<char>)
    requires
        flag_named(name) is Some,
        long_name(name),
    ensures
        exists|k: int| 0 <= k < OPTION_COUNT && (#[trigger] option_text(k)).0 == name,
{
    reveal(flag_named);
    reveal(option_text);
    reveal_strlit("-h");
    reveal_strlit("-V");
    assert(option_text(0).0 == "--host"@);
    assert(option_text(1).0 == "--port"@);
    assert(option_text(2).0 == "--no-udp"@);
    assert(option_text(3).0 == "--protocol"@);
    assert(option_text(4).0 == "--udp-rate"@);
    assert(option_text(5).0 == "--units"@);
    assert(option_text(6).0 == "--hud"@);
    assert(option_text(7).0 == "--hud-rate"@);
    assert(option_text(8).0 == "--kp"@);
    assert(option_text(9).0 == "--ki"@);
    assert(option_text(10).0 == "--invert-yaw"@);
    assert(option_text(11).0 == "--invert-pitch"@);
    assert(option_text(12).0 == "--invert-roll"@);
    assert(option_text(13).0 == "--sensitivity"@);
    assert(option_text(14).0 == "--log-imu"@);
    assert(option_text(15).0 == "--log-pose"@);
    assert(option_text(16).0 == "--replay"@);
    assert(option_text(17).0 == "--log-level"@);
    assert(option_text(18).0 == "--gyro-calib"@);
    assert(option_text(19).0 == "--input"@);
    assert(option_text(20).0 == "--replay-visual"@);
    assert(option_text(21).0 == "--record-visual"@);
    assert(option_text(22).0 == "--version"@);
    assert(option_text(23).0 == "--help"@);
}

/// Every long option that is accepted stands in the help text.
pub proof fn law_usage_lists_options(name: Seq<char>)
    requires
        flag_named(name) is Some,
        long_name(name),
    ensures
        exists|i: int| listed_at(usage_upto(OPTION_COUNT as int), i, name),
{
    lemma_long_option_has_line(name);
    let k = choose|k: int| 0 <= k < OPTION_COUNT && (#[trigger] option_text(k)).0 == name;
    lemma_option_is_listed(k);
}

/// No option stands in the help text that is not accepted.
pub proof fn law_usage_lists_no_other(name: Seq<char>, i: int)
    requires
        long_name(name),
        listed_at(usage_upto(OPTION_COUNT as int), i, name),
    ensures
        flag_named(name) is Some,
{
    let all = usage_upto(OPTION_COUNT as int);
    let word = all.subrange(i, i + name.len());
    assert(all[i] == word[0] && all[i + 1] == word[1]);
    lemma_dashes_are_options(OPTION_COUNT as int, i);
    let k = choose|k: int| 0 <= k < OPTION_COUNT && i == #[trigger] option_place(k);
    let option = option_text(k).0;
    lemma_option_is_listed(k);
    lemma_option_is_proper(k);
    let listed = all.subrange(i, i + option.len());
    if name.len() < option.len() {
        assert(all[i + name.len()] == listed[name.len() as int]);
    } else if name.len() > option.len() {
        assert(all[i + option.len()] == word[option.len() as int]);
    }
}

/// The startup line: the device and the settings in effect, with the texts of the gains
/// `kp` and `ki`, of the output rate and of the length of the calibration.
pub open spec fn startup_text(
    c: ConfigView,
    device: Seq<char>,
    kp: Seq<char>,
    ki: Seq<char>,
    udp_rate: Seq<char>,
    gyro_calib: Seq<char>,
) -> Seq<char> {
    "device="@ + device + " kp="@ + kp + " ki="@ + ki + " out="@ + (if c.no_udp {
        "disabled"@
    } else {
        c.host + ":"@ + text::digits_of(c.port as nat)
    }) + " protocol="@ + (match c.protocol {
        Protocol::Classic => "classic"@,
        Protocol::Extended => "extended"@,
    }) + " units="@ + (match c.units {
        Units::Deg => "deg"@,
        Units::Rad => "rad"@,
    }) + " udp_rate="@ + udp_rate + "Hz hud="@ + (if c.hud {
        "on"@
    } else {
        "off"@
    }) + " calib="@ + gyro_calib + "s input="@ + (match c.input {
        Input::Imu => "imu"@,
        Input::Visual => "visual"@,
    })
}

/// The startup line, from the texts of the numbers in it.
pub fn startup_line(
    config: &Config,
    device: &str,
    kp: &str,
    ki: &str,
    udp_rate: &str,
    gyro_calib: &str,
) -> (r: String)
    ensures
        r@ == startup_text(config@, device@, kp@, ki@, udp_rate@, gyro_calib@),
{
    let mut m = "device=".to_owned();
    m.append(device);
    m.append(" kp=");
    m.append(kp);
    m.append(" ki=");
    m.append(ki);
    m.append(" out=");
    let mut out = String::new();
    if config.no_udp {
        out.append("disabled");
    } else {
        out.append(config.host.as_str());
        out.append(":");
        out.append(decimal_text(config.port as u64).as_str());
    }
    assert(out@ =~= if config.no_udp {
        "disabled"@
    } else {
        config.host@ + ":"@ + text::digits_of(config.port as nat)
    });
    m.append(out.as_str());
    m.append(" protocol=");
    m.append(
        match config.protocol {
            Protocol::Classic => "classic",
            Protocol::Extended => "extended",
        },
    );
    m.append(" units=");
    m.append(
        match config.units {
            Units::Deg => "deg",
            Units::Rad => "rad",
        },
    );
    m.append(" udp_rate=");
    m.append(udp_rate);
    m.append("Hz hud=");
    m.append(
        if config.hud {
            "on"
        } else {
            "off"
        },
    );
    m.append(" calib=");
    m.append(gyro_calib);
    m.append("s input=");
    m.append(
        match config.input {
            Input::Imu => "imu",
            Input::Visual => "visual",
        },
    );
    m
}

/// Every option goes by its own name, and help and version by a short one too.
pub proof fn law_options_go_by_their_names()
    ensures
        flag_named("--no-udp"@) == Some(Flag::NoUdp),
        flag_named("--hud"@) == Some(Flag::Hud),
        flag_named("--invert-yaw"@) == Some(Flag::InvertYaw),
        flag_named("--invert-pitch"@) == Some(Flag::InvertPitch),
        flag_named("--invert-roll"@) == Some(Flag::InvertRoll),
        flag_named("-h"@) == Some(Flag::Help),
        flag_named("--help"@) == Some(Flag::Help),
        flag_named("-V"@) == Some(Flag::Version),
        flag_named("--version"@) == Some(Flag::Version),
        flag_named("--host"@) == Some(Flag::Host),
        flag_named("--port"@) == Some(Flag::Port),
        flag_named("--hud-rate"@) == Some(Flag::HudRate),
        flag_named("--kp"@) == Some(Flag::Kp),
        flag_named("--ki"@) == Some(Flag::Ki),
        flag_named("--sensitivity"@) == Some(Flag::Sensitivity),
        flag_named("--log-imu"@) == Some(Flag::LogImu),
        flag_named("--log-pose"@) == Some(Flag::LogPose),
        flag_named("--protocol"@) == Some(Flag::Protocol),
        flag_named("--udp-rate"@) == Some(Flag::UdpRate),
        flag_named("--units"@) == Some(Flag::Units),
        flag_named("--replay"@) == Some(Flag::Replay),
        flag_named("--log-level"@) == Some(Flag::LogLevel),
        flag_named("--gyro-calib"@) == Some(Flag::GyroCalib),
        flag_named("--input"@) == Some(Flag::Input),
        flag_named("--replay-visual"@) == Some(Flag::ReplayVisual),
        flag_named("--record-visual"@) == Some(Flag::RecordVisual),
{
    reveal(flag_named);
    reveal_strlit("--no-udp");
    reveal_strlit("--hud");
    reveal_strlit("--invert-yaw");
    reveal_strlit("--invert-pitch");
    reveal_strlit("--invert-roll");
    reveal_strlit("-h");
    reveal_strlit("--help");
    reveal_strlit("-V");
    reveal_strlit("--version");
    reveal_strlit("--host");
    reveal_strlit("--port");
    reveal_strlit("--hud-rate");
    reveal_strlit("--kp");
    reveal_strlit("--ki");
    reveal_strlit("--sensitivity");
    reveal_strlit("--log-imu");
    reveal_strlit("--log-pose");
    reveal_strlit("--protocol");
    reveal_strlit("--udp-rate");
    reveal_strlit("--units");
    reveal_strlit("--replay");
    reveal_strlit("--log-level");
    reveal_strlit("--gyro-calib");
    reveal_strlit("--input");
    reveal_strlit("--replay-visual");
    reveal_strlit("--record-visual");
    assert("--no-udp"@.len() == 8);
    assert("--hud"@.len() == 5);
    assert("--invert-yaw"@.len() == 12);
    assert("--invert-pitch"@.len() == 14);
    assert("--invert-roll"@.len() == 13);
    assert("-h"@.len() == 2);
    assert("--help"@.len() == 6);
    assert("-V"@.len() == 2);
    assert("--version"@.len() == 9);
    assert("--host"@.len() == 6);
    assert("--port"@.len() == 6);
    assert("--hud-rate"@.len() == 10);
    assert("--kp"@.len() == 4);
    assert("--ki"@.len() == 4);
    assert("--sensitivity"@.len() == 13);
    assert("--log-imu"@.len() == 9);
    assert("--log-pose"@.len() == 10);
    assert("--protocol"@.len() == 10);
    assert("--udp-rate"@.len() == 10);
    assert("--units"@.len() == 7);
    assert("--replay"@.len() == 8);
    assert("--log-level"@.len() == 11);
    assert("--gyro-calib"@.len() == 12);
    assert("--input"@.len() == 7);
    assert("--replay-visual"@.len() == 15);
    assert("--record-visual"@.len() == 15);
    assert("--no-udp"@[2] == 'n' && "--replay"@[2] == 'r');
    assert("--invert-yaw"@[2] == 'i' && "--gyro-calib"@[2] == 'g');
    assert("--invert-roll"@[2] == 'i' && "--sensitivity"@[2] == 's');
    assert("-h"@[1] == 'h' && "-V"@[1] == 'V');
    assert("--help"@[3] == 'e' && "--host"@[3] == 'o');
    assert("--help"@[2] == 'h' && "--port"@[2] == 'p');
    assert("--host"@[2] == 'h' && "--port"@[2] == 'p');
    assert("--version"@[2] == 'v' && "--log-imu"@[2] == 'l');
    assert("--hud-rate"@[2] == 'h' && "--log-pose"@[2] == 'l');
    assert("--hud-rate"@[2] == 'h' && "--protocol"@[2] == 'p');
    assert("--log-pose"@[2] == 'l' && "--protocol"@[2] == 'p');
    assert("--hud-rate"@[2] == 'h' && "--udp-rate"@[2] == 'u');
    assert("--log-pose"@[2] == 'l' && "--udp-rate"@[2] == 'u');
    assert("--protocol"@[2] == 'p' && "--udp-rate"@[2] == 'u');
    assert("--kp"@[3] == 'p' && "--ki"@[3] == 'i');
    assert("--units"@[2] == 'u' && "--input"@[2] == 'i');
    assert("--replay-visual"@[4] == 'p' && "--record-visual"@[4] == 'c');
}

/// Nothing goes by a name but the options, each by its own.
pub proof fn law_names_stand_for_options(name: Seq<char>, flag: Flag)
    requires
        flag_named(name) == Some(flag),
    ensures
        match flag {
            Flag::NoUdp => name == "--no-udp"@,
            Flag::Hud => name == "--hud"@,
            Flag::InvertYaw => name == "--invert-yaw"@,
            Flag::InvertPitch => name == "--invert-pitch"@,
            Flag::InvertRoll => name == "--invert-roll"@,
            Flag::Help => name == "-h"@ || name == "--help"@,
            Flag::Version => name == "-V"@ || name == "--version"@,
            Flag::Host => name == "--host"@,
            Flag::Port => name == "--port"@,
            Flag::HudRate => name == "--hud-rate"@,
            Flag::Kp => name == "--kp"@,
            Flag::Ki => name == "--ki"@,
            Flag::Sensitivity => name == "--sensitivity"@,
            Flag::LogImu => name == "--log-imu"@,
            Flag::LogPose => name == "--log-pose"@,
            Flag::Protocol => name == "--protocol"@,
            Flag::UdpRate => name == "--udp-rate"@,
            Flag::Units => name == "--units"@,
            Flag::Replay => name == "--replay"@,
            Flag::LogLevel => name == "--log-level"@,
            Flag::GyroCalib => name == "--gyro-calib"@,
            Flag::Input => name == "--input"@,
            Flag::ReplayVisual => name == "--replay-visual"@,
            Flag::RecordVisual => name == "--record-visual"@,
        },
{
    reveal(flag_named);
}

proof fn lemma_parsed_goes_on(args: Seq<Arg>, tail: Seq<Arg>, cfg: ConfigView, c: ConfigView)
    requires
        parsed(args, cfg) == Ok::<OutcomeView, Seq<char>>(OutcomeView::Run(c)),
    ensures
        parsed(args + tail, cfg) == parsed(tail, c),
    decreases args.len(),
{
    let all = args + tail;
    if args.len() == 0 {
        assert(all =~= tail);
    } else {
        assert(all.first() == args.first());
        let rest = args.drop_first();
        assert(all.drop_first() =~= rest + tail);
        let (name, inline) = flag_and_inline(args.first());
        let flag = flag_named(name)->0;
        if is_switch(flag) {
            lemma_parsed_goes_on(rest, tail, switched(cfg, flag), c);
        } else if let Some((raw, reading)) = inline {
            lemma_parsed_goes_on(rest, tail, assigned(cfg, flag, name, raw, reading)->Ok_0, c);
        } else {
            let next = rest.first();
            assert((rest + tail).first() == next);
            assert((rest + tail).drop_first() =~= rest.drop_first() + tail);
            lemma_parsed_goes_on(
                rest.drop_first(),
                tail,
                assigned(cfg, flag, name, next.text@, next.whole)->Ok_0,
                c,
            );
        }
    }
}

/// Without arguments the tracker runs on the inertial sensors, with UDP to port 4242 of
/// this machine sixty times a second in degrees, no readout, and two seconds of
/// calibration.
pub proof fn law_no_arguments_mean_defaults(
    args: Vec<Arg>,
    r: Result<ParseOutcome, String>,
    plain: Config,
)
    requires
        args.len() == 0,
        call_ensures(parse, (args,), r),
        call_ensures(Config::default, (), plain),
    ensures
        r matches Ok(ParseOutcome::Run(c)) && c@ == plain@,
        plain.host@ == "127.0.0.1"@ && plain.port == 4242 && !plain.no_udp,
        !plain.hud && plain.hud_rate.bits == 0x4000_0000_0000_0000,
        plain.kp.bits == 0x3ff0_0000_0000_0000 && plain.ki.bits == 0x3f74_7ae1_47ae_147b,
        !plain.invert_yaw && !plain.invert_pitch && !plain.invert_roll,
        plain.sensitivity.bits == 0x3ff0_0000_0000_0000,
        plain.log_imu is None && plain.log_pose is None && plain.replay is None,
        plain.replay_visual is None && plain.record_visual is None,
        plain.protocol is Classic && plain.units is Deg && plain.input is Imu,
        plain.udp_rate.bits == 0x404e_0000_0000_0000,
        plain.gyro_calib.bits == 0x4000_0000_0000_0000,
        plain.log_level is Error,
{
    let v = plain@;
    assert(v == default_config());
    assert(v.host == plain.host@ && v.port == plain.port && v.no_udp == plain.no_udp);
    assert(optional_text(plain.log_imu) is None);
}

/// A switch behind other arguments turns its own setting on, and changes no other. Help and
/// version end the parse; an option that lacks its value, and what is no option, are
/// complained about.
pub proof fn law_last_argument_counts(
    args: Vec<Arg>,
    c: Config,
    more: Vec<Arg>,
    last: Arg,
    r: Result<ParseOutcome, String>,
)
    requires
        call_ensures(parse, (args,), Ok::<ParseOutcome, String>(ParseOutcome::Run(c))),
        more@ == args@.push(last),
        !last.text@.contains('='),
        call_ensures(parse, (more,), r),
    ensures
        ({
            let f = last.text@;
            let switch = f == "--no-udp"@ || f == "--hud"@ || f == "--invert-yaw"@ || f
                == "--invert-pitch"@ || f == "--invert-roll"@;
            &&& r is Ok && r->Ok_0 is Run <==> switch
            &&& r is Ok && r->Ok_0 is Help <==> f == "-h"@ || f == "--help"@
            &&& r is Ok && r->Ok_0 is Version <==> f == "-V"@ || f == "--version"@
            &&& r is Err ==> r->Err_0@ == if flag_named(f) is Some {
                "option "@ + f + " requires a value"@
            } else {
                "unknown option: "@ + f
            }
            &&& switch ==> r->Ok_0->Run_0@ == (ConfigView {
                no_udp: c.no_udp || f == "--no-udp"@,
                hud: c.hud || f == "--hud"@,
                invert_yaw: c.invert_yaw || f == "--invert-yaw"@,
                invert_pitch: c.invert_pitch || f == "--invert-pitch"@,
                invert_roll: c.invert_roll || f == "--invert-roll"@,
                ..c@
            })
        }),
{
    let f = last.text@;
    let tail = seq![last];
    assert(more@ =~= args@ + tail);
    assert(parsed(args@, default_config()) == Ok::<OutcomeView, Seq<char>>(
        OutcomeView::Run(c@),
    ));
    lemma_parsed_goes_on(args@, tail, default_config(), c@);
    text::lemma_split_first_parts(f, '=');
    if let Some((a, b)) = text::split_first(f, '=') {
        assert((a + seq!['='] + b)[a.len() as int] == '=');
    }
    law_options_go_by_their_names();
    if let Some(flag) = flag_named(f) {
        law_names_stand_for_options(f, flag);
    }
    assert(tail.drop_first() =~= Seq::empty());
    reveal_with_fuel(parsed, 3);
}

proof fn lemma_valued_option(
    args: Vec<Arg>,
    c: Config,
    more: Vec<Arg>,
    option: Arg,
    value: Arg,
    r: Result<ParseOutcome, String>,
    flag: Flag,
)
    requires
        call_ensures(parse, (args,), Ok::<ParseOutcome, String>(ParseOutcome::Run(c))),
        more@ == args@.push(option).push(value),
        !option.text@.contains('='),
        value.text@.len() > 0 ==> value.text@[0] != '-',
        call_ensures(parse, (more,), r),
        flag_named(option.text@) == Some(flag),
        !is_switch(flag),
        !(flag is Help) && !(flag is Version),
    ensures
        match (r, assigned(c@, flag, option.text@, value.text@, value.whole)) {
            (Ok(ParseOutcome::Run(d)), Ok(v)) => d@ == v,
            (Err(m), Err(n)) => m@ == n,
            _ => false,
        },
{
    let f = option.text@;
    let tail = seq![option, value];
    assert(more@ =~= args@ + tail);
    assert(parsed(args@, default_config()) == Ok::<OutcomeView, Seq<char>>(
        OutcomeView::Run(c@),
    ));
    lemma_parsed_goes_on(args@, tail, default_config(), c@);
    text::lemma_split_first_parts(f, '=');
    if let Some((a, b)) = text::split_first(f, '=') {
        assert((a + seq!['='] + b)[a.len() as int] == '=');
    }
    reveal_strlit("-");
    if text::begins_with(value.text@, "-"@) {
        assert(value.text@.subrange(0, 1)[0] == '-');
    }
    assert(tail.drop_first() =~= seq![value]);
    assert(seq![value].drop_first() =~= Seq::empty());
    reveal_with_fuel(parsed, 3);
}

/// A host, a file or a directory behind other arguments is taken as it stands, and changes
/// no other setting.
pub proof fn law_text_option_sets_its_own(
    args: Vec<Arg>,
    c: Config,
    more: Vec<Arg>,
    option: Arg,
    value: Arg,
    r: Result<ParseOutcome, String>,
)
    requires
        call_ensures(parse, (args,), Ok::<ParseOutcome, String>(ParseOutcome::Run(c))),
        more@ == args@.push(option).push(value),
        !option.text@.contains('='),
        value.text@.len() > 0 ==> value.text@[0] != '-',
        call_ensures(parse, (more,), r),
    ensures
        ({
            let (f, raw) = (option.text@, value.text@);
            &&& f == "--host"@ ==> r is Ok && r->Ok_0 is Run && r->Ok_0->Run_0@ == (ConfigView {
                host: raw,
                ..c@
            })
            &&& f == "--log-imu"@ ==> r is Ok && r->Ok_0 is Run && r->Ok_0->Run_0@ == (ConfigView {
                log_imu: Some(raw),
                ..c@
            })
            &&& f == "--log-pose"@ ==> r is Ok && r->Ok_0 is Run && r->Ok_0->Run_0@ == (ConfigView {
                log_pose: Some(raw),
                ..c@
            })
            &&& f == "--replay"@ ==> r is Ok && r->Ok_0 is Run && r->Ok_0->Run_0@ == (ConfigView {
                replay: Some(raw),
                ..c@
            })
            &&& f == "--replay-visual"@ ==> r is Ok && r->Ok_0 is Run && r->Ok_0->Run_0@ == (ConfigView {
                replay_visual: Some(raw),
                ..c@
            })
            &&& f == "--record-visual"@ ==> r is Ok && r->Ok_0 is Run && r->Ok_0->Run_0@ == (ConfigView {
                record_visual: Some(raw),
                ..c@
            })
        }),
{
    law_options_go_by_their_names();
    reveal(assigned);
    let f = option.text@;
    if f == "--host"@ || f == "--log-imu"@ || f == "--log-pose"@ || f == "--replay"@ || f == "--replay-visual"@ || f == "--record-visual"@ {
        lemma_valued_option(args, c, more, option, value, r, flag_named(f)->0);
    }
}

/// A number behind other arguments goes into its own setting, and changes no other: a rate
/// must be finite and above zero, a gain or a length of time finite and not below it.
pub proof fn law_number_option_sets_its_own(
    args: Vec<Arg>,
    c: Config,
    more: Vec<Arg>,
    option: Arg,
    value: Arg,
    r: Result<ParseOutcome, String>,
)
    requires
        call_ensures(parse, (args,), Ok::<ParseOutcome, String>(ParseOutcome::Run(c))),
        more@ == args@.push(option).push(value),
        !option.text@.contains('='),
        value.text@.len() > 0 ==> value.text@[0] != '-',
        call_ensures(parse, (more,), r),
    ensures
        ({
            let (f, raw) = (option.text@, value.text@);
            let rate = f == "--hud-rate"@ || f == "--udp-rate"@;
            let gain = f == "--kp"@ || f == "--ki"@ || f == "--sensitivity"@ || f == "--gyro-calib"@;
            let unread = "invalid value for "@ + f + ": "@ + text::debug_text(raw);
            &&& rate || gain ==> (value.whole is None ==> r is Err && r->Err_0@ == unread)
            &&& rate || gain ==> (value.whole matches Some(v) ==> {
                &&& r is Ok <==> v.finite() && (v.units() > 0 || gain && v.units() == 0)
                &&& !v.finite() ==> r->Err_0@ == unread + " (must be finite)"@
                &&& v.finite() && rate && r is Err ==> r->Err_0@ == unread + " (must be > 0)"@
                &&& v.finite() && gain && r is Err ==> r->Err_0@ == unread + " (must be ≥ 0)"@
                &&& r is Ok ==> r->Ok_0 is Run
                &&& f == "--kp"@ && r is Ok ==> r->Ok_0->Run_0@ == (ConfigView { kp: v, ..c@ })
                &&& f == "--ki"@ && r is Ok ==> r->Ok_0->Run_0@ == (ConfigView { ki: v, ..c@ })
                &&& f == "--sensitivity"@ && r is Ok ==> r->Ok_0->Run_0@ == (ConfigView { sensitivity: v, ..c@ })
                &&& f == "--gyro-calib"@ && r is Ok ==> r->Ok_0->Run_0@ == (ConfigView { gyro_calib: v, ..c@ })
                &&& f == "--hud-rate"@ && r is Ok ==> r->Ok_0->Run_0@ == (ConfigView { hud_rate: v, ..c@ })
                &&& f == "--udp-rate"@ && r is Ok ==> r->Ok_0->Run_0@ == (ConfigView { udp_rate: v, ..c@ })
            })
        }),
{
    law_options_go_by_their_names();
    reveal(assigned);
    let f = option.text@;
    crate::double::lemma_magnitude_units_order(0, 0);
    if f == "--kp"@ || f == "--ki"@ || f == "--sensitivity"@ || f == "--gyro-calib"@ || f == "--hud-rate"@ || f == "--udp-rate"@ {
        lemma_valued_option(args, c, more, option, value, r, flag_named(f)->0);
        assert(invalid_value(f, value.text@) == "invalid value for "@ + f + ": "@
            + text::debug_text(value.text@));
    }
}

/// A port behind other arguments is a number from 1 to 65535, with white space around it or
/// without, and changes no other setting.
pub proof fn law_port_option_sets_its_own(
    args: Vec<Arg>,
    c: Config,
    more: Vec<Arg>,
    option: Arg,
    value: Arg,
    r: Result<ParseOutcome, String>,
)
    requires
        call_ensures(parse, (args,), Ok::<ParseOutcome, String>(ParseOutcome::Run(c))),
        more@ == args@.push(option).push(value),
        !option.text@.contains('='),
        value.text@.len() > 0 ==> value.text@[0] != '-',
        call_ensures(parse, (more,), r),
        option.text@ == "--port"@,
    ensures
        ({
            let raw = value.text@;
            let port = text::u16_named(text::trimmed(raw));
            &&& r is Ok <==> port is Some && port != Some(0u16)
            &&& r is Ok ==> r->Ok_0 is Run && r->Ok_0->Run_0@ == (ConfigView { port: port->0, ..c@ })
            &&& port is None ==> r->Err_0@ == "invalid value for "@ + "--port"@ + ": "@
                + text::debug_text(raw) + " (1-65535)"@
            &&& port == Some(0u16) ==> r->Err_0@ == "invalid value for --port: must be 1-65535"@
        }),
{
    law_options_go_by_their_names();
    reveal(assigned);
    lemma_valued_option(args, c, more, option, value, r, Flag::Port);
}

/// A word behind other arguments, whatever its case and the white space around it, chooses
/// the protocol, the units, the input or the level that it names, and changes no other
/// setting.
pub proof fn law_word_option_sets_its_own(
    args: Vec<Arg>,
    c: Config,
    more: Vec<Arg>,
    option: Arg,
    value: Arg,
    r: Result<ParseOutcome, String>,
)
    requires
        call_ensures(parse, (args,), Ok::<ParseOutcome, String>(ParseOutcome::Run(c))),
        more@ == args@.push(option).push(value),
        !option.text@.contains('='),
        value.text@.len() > 0 ==> value.text@[0] != '-',
        call_ensures(parse, (more,), r),
    ensures
        ({
            let (f, raw) = (option.text@, value.text@);
            let word = text::lowered(text::trimmed(raw));
            let unread = "invalid value for "@ + f + ": "@ + text::debug_text(word);
            let run = r->Ok_0->Run_0@;
            let classic = word == "classic"@ || word == "6x64"@ || word == "6xf64"@;
            let extended = word == "extended"@ || word == "10d"@ || word == "10-double"@ || word
                == "10xf64"@;
            let deg = word == "deg"@ || word == "degree"@ || word == "degrees"@;
            let rad = word == "rad"@ || word == "radian"@ || word == "radians"@;
            let level = word == "error"@ || word == "warn"@ || word == "warning"@ || word == "info"@
                || word == "debug"@;
            let known = f == "--protocol"@ || f == "--units"@ || f == "--input"@ || f
                == "--log-level"@;
            &&& known && r is Ok ==> r->Ok_0 is Run
            &&& f == "--protocol"@ ==> {
                &&& r is Ok <==> classic || extended
                &&& classic ==> run == (ConfigView { protocol: Protocol::Classic, ..c@ })
                &&& extended ==> run == (ConfigView { protocol: Protocol::Extended, ..c@ })
                &&& r is Err ==> r->Err_0@ == unread + " (classic|extended)"@
            }
            &&& f == "--units"@ ==> {
                &&& r is Ok <==> deg || rad
                &&& deg ==> run == (ConfigView { units: Units::Deg, ..c@ })
                &&& rad ==> run == (ConfigView { units: Units::Rad, ..c@ })
                &&& r is Err ==> r->Err_0@ == unread + " (deg|rad)"@
            }
            &&& f == "--input"@ ==> {
                &&& r is Ok <==> word == "imu"@ || word == "visual"@
                &&& word == "imu"@ ==> run == (ConfigView { input: Input::Imu, ..c@ })
                &&& word == "visual"@ ==> run == (ConfigView { input: Input::Visual, ..c@ })
                &&& r is Err ==> r->Err_0@ == unread + " (imu|visual)"@
            }
            &&& f == "--log-level"@ ==> {
                &&& r is Ok <==> level
                &&& word == "error"@ ==> run == (ConfigView { log_level: Level::Error, ..c@ })
                &&& word == "warn"@ ==> run == (ConfigView { log_level: Level::Warn, ..c@ })
                &&& word == "warning"@ ==> run == (ConfigView { log_level: Level::Warn, ..c@ })
                &&& word == "info"@ ==> run == (ConfigView { log_level: Level::Info, ..c@ })
                &&& word == "debug"@ ==> run == (ConfigView { log_level: Level::Debug, ..c@ })
                &&& r is Err ==> r->Err_0@ == unread + " (error|warn|info|debug)"@
            }
        }),
{
    law_options_go_by_their_names();
    reveal(assigned);
    lemma_words_differ();
    let f = option.text@;
    if f == "--protocol"@ || f == "--units"@ || f == "--input"@ || f == "--log-level"@ {
        lemma_valued_option(args, c, more, option, value, r, flag_named(f)->0);
        let word = text::lowered(text::trimmed(value.text@));
        assert(invalid_value(f, word) == "invalid value for "@ + f + ": "@ + text::debug_text(word));
    }
}

proof fn lemma_words_differ()
    ensures
        "classic"@ != "extended"@,
        "classic"@ != "10d"@,
        "classic"@ != "10-double"@,
        "classic"@ != "10xf64"@,
        "6x64"@ != "extended"@,
        "6x64"@ != "10d"@,
        "6x64"@ != "10-double"@,
        "6x64"@ != "10xf64"@,
        "6xf64"@ != "extended"@,
        "6xf64"@ != "10d"@,
        "6xf64"@ != "10-double"@,
        "6xf64"@ != "10xf64"@,
        "deg"@ != "rad"@,
        "deg"@ != "radian"@,
        "deg"@ != "radians"@,
        "degree"@ != "rad"@,
        "degree"@ != "radian"@,
        "degree"@ != "radians"@,
        "degrees"@ != "rad"@,
        "degrees"@ != "radian"@,
        "degrees"@ != "radians"@,
        "imu"@ != "visual"@,
        "error"@ != "warn"@,
        "error"@ != "warning"@,
        "warn"@ != "warning"@,
        "error"@ != "info"@,
        "warn"@ != "info"@,
        "warning"@ != "info"@,
        "error"@ != "debug"@,
        "warn"@ != "debug"@,
        "warning"@ != "debug"@,
        "info"@ != "debug"@,
{
    reveal_strlit("classic");
    reveal_strlit("6x64");
    reveal_strlit("6xf64");
    reveal_strlit("extended");
    reveal_strlit("10d");
    reveal_strlit("10-double");
    reveal_strlit("10xf64");
    reveal_strlit("deg");
    reveal_strlit("degree");
    reveal_strlit("degrees");
    reveal_strlit("rad");
    reveal_strlit("radian");
    reveal_strlit("radians");
    reveal_strlit("imu");
    reveal_strlit("visual");
    reveal_strlit("error");
    reveal_strlit("warn");
    reveal_strlit("warning");
    reveal_strlit("info");
    reveal_strlit("debug");
    assert("classic"@.len() == 7);
    assert("6x64"@.len() == 4);
    assert("6xf64"@.len() == 5);
    assert("extended"@.len() == 8);
    assert("10d"@.len() == 3);
    assert("10-double"@.len() == 9);
    assert("10xf64"@.len() == 6);
    assert("deg"@.len() == 3);
    assert("degree"@.len() == 6);
    assert("degrees"@.len() == 7);
    assert("rad"@.len() == 3);
    assert("radian"@.len() == 6);
    assert("radians"@.len() == 7);
    assert("imu"@.len() == 3);
    assert("visual"@.len() == 6);
    assert("error"@.len() == 5);
    assert("warn"@.len() == 4);
    assert("warning"@.len() == 7);
    assert("info"@.len() == 4);
    assert("debug"@.len() == 5);
    assert("deg"@[0] == 'd' && "rad"@[0] == 'r');
    assert("degree"@[0] == 'd' && "radian"@[0] == 'r');
    assert("degrees"@[0] == 'd' && "radians"@[0] == 'r');
    assert("warn"@[0] == 'w' && "info"@[0] == 'i');
    assert("error"@[0] == 'e' && "debug"@[0] == 'd');
}

/// An option takes the next argument for its value, but not one that begins with a dash.
pub proof fn law_dash_is_no_value(
    args: Vec<Arg>,
    c: Config,
    more: Vec<Arg>,
    option: Arg,
    value: Arg,
    flag: Flag,
    r: Result<ParseOutcome, String>,
)
    requires
        call_ensures(parse, (args,), Ok::<ParseOutcome, String>(ParseOutcome::Run(c))),
        more@ == args@.push(option).push(value),
        !option.text@.contains('='),
        flag_named(option.text@) == Some(flag),
        !is_switch(flag),
        !(flag is Help) && !(flag is Version),
        value.text@.len() > 0,
        value.text@[0] == '-',
        call_ensures(parse, (more,), r),
    ensures
        r is Err,
        r->Err_0@ == "option "@ + option.text@ + " requires a value (got "@ + text::debug_text(
            value.text@,
        ) + ")"@,
{
    let f = option.text@;
    let tail = seq![option, value];
    assert(more@ =~= args@ + tail);
    assert(parsed(args@, default_config()) == Ok::<OutcomeView, Seq<char>>(
        OutcomeView::Run(c@),
    ));
    lemma_parsed_goes_on(args@, tail, default_config(), c@);
    text::lemma_split_first_parts(f, '=');
    if let Some((a, b)) = text::split_first(f, '=') {
        assert((a + seq!['='] + b)[a.len() as int] == '=');
    }
    reveal_strlit("-");
    assert(value.text@.subrange(0, 1) =~= "-"@);
    assert(tail.drop_first() =~= seq![value]);
}

/// A switch that carries a value behind other arguments is refused.
pub proof fn law_switch_with_value_is_refused(
    args: Vec<Arg>,
    c: Config,
    more: Vec<Arg>,
    last: Arg,
    name: Seq<char>,
    value: Seq<char>,
    r: Result<ParseOutcome, String>,
)
    requires
        call_ensures(parse, (args,), Ok::<ParseOutcome, String>(ParseOutcome::Run(c))),
        more@ == args@.push(last),
        last.text@ == name.push('=') + value,
        name == "--no-udp"@ || name == "--hud"@ || name == "--invert-yaw"@ || name
            == "--invert-pitch"@ || name == "--invert-roll"@,
        call_ensures(parse, (more,), r),
    ensures
        r is Err,
        r->Err_0@ == "option "@ + name + " takes no value"@,
{
    let tail = seq![last];
    assert(more@ =~= args@ + tail);
    assert(parsed(args@, default_config()) == Ok::<OutcomeView, Seq<char>>(
        OutcomeView::Run(c@),
    ));
    lemma_parsed_goes_on(args@, tail, default_config(), c@);
    law_options_go_by_their_names();
    reveal_strlit("--no-udp");
    reveal_strlit("--hud");
    reveal_strlit("--invert-yaw");
    reveal_strlit("--invert-pitch");
    reveal_strlit("--invert-roll");
    assert(last.text@ =~= name + seq!['='] + value);
    assert(!name.contains('='));
    text::lemma_split_first_of_parts(name, value, '=');
}

/// Help and version end the parse wherever they stand: what follows them does not matter.
pub proof fn law_help_ends_parse(
    args: Vec<Arg>,
    c: Config,
    more: Vec<Arg>,
    option: Arg,
    rest: Seq<Arg>,
    r: Result<ParseOutcome, String>,
)
    requires
        call_ensures(parse, (args,), Ok::<ParseOutcome, String>(ParseOutcome::Run(c))),
        more@ == args@ + (seq![option] + rest),
        !option.text@.contains('='),
        call_ensures(parse, (more,), r),
    ensures
        option.text@ == "-h"@ || option.text@ == "--help"@ ==> r is Ok && r->Ok_0 is Help,
        option.text@ == "-V"@ || option.text@ == "--version"@ ==> r is Ok && r->Ok_0 is Version,
{
    let f = option.text@;
    let tail = seq![option] + rest;
    assert(parsed(args@, default_config()) == Ok::<OutcomeView, Seq<char>>(
        OutcomeView::Run(c@),
    ));
    lemma_parsed_goes_on(args@, tail, default_config(), c@);
    text::lemma_split_first_parts(f, '=');
    if let Some((a, b)) = text::split_first(f, '=') {
        assert((a + seq!['='] + b)[a.len() as int] == '=');
    }
    law_options_go_by_their_names();
    assert(tail.first() == option);
}

/// The startup line names the device and each setting in effect, in this order.
pub proof fn law_startup_line_names_settings(
    c: Config,
    device: &str,
    kp: &str,
    ki: &str,
    udp_rate: &str,
    gyro_calib: &str,
    r: String,
    out: Seq<char>,
    protocol: Seq<char>,
    units: Seq<char>,
    hud: Seq<char>,
    input: Seq<char>,
)
    requires
        call_ensures(startup_line, (&c, device, kp, ki, udp_rate, gyro_calib), r),
        c.no_udp ==> out == "disabled"@,
        !c.no_udp ==> out == c.host@ + ":"@ + text::digits_of(c.port as nat),
        c.protocol is Classic ==> protocol == "classic"@,
        c.protocol is Extended ==> protocol == "extended"@,
        c.units is Deg ==> units == "deg"@,
        c.units is Rad ==> units == "rad"@,
        c.hud ==> hud == "on"@,
        !c.hud ==> hud == "off"@,
        c.input is Imu ==> input == "imu"@,
        c.input is Visual ==> input == "visual"@,
    ensures
        r@ == "device="@ + device@ + " kp="@ + kp@ + " ki="@ + ki@ + " out="@ + out + " protocol="@
            + protocol + " units="@ + units + " udp_rate="@ + udp_rate@ + "Hz hud="@ + hud
            + " calib="@ + gyro_calib@ + "s input="@ + input,
{
    assert(c@.host == c.host@);
}

/// The help text starts with the name of the program and how it is called, and describes
/// each option in a line of its own, with its default where it has one.
pub proof fn law_usage_describes_options(r: String, line: Seq<char>)
    requires
        call_ensures(usage, (), r),
        ({
            ||| line == "--host"@ + " <IP>          Opentrack host (default 127.0.0.1)\n"@
            ||| line == "--port"@ + " <PORT>        Opentrack UDP port (default 4242)\n"@
            ||| line == "--no-udp"@ + "             Disable UDP output (HUD-only mode)\n"@
            ||| line == "--protocol"@ + " <P>       UDP protocol variant: classic|extended (default classic)\n"@
            ||| line == "--udp-rate"@ + " <HZ>      UDP output rate (default 60)\n"@
            ||| line == "--units"@ + " <U>          Wire units for UDP + pose log: deg|rad (default deg)\n"@
            ||| line == "--hud"@ + "                Enable 2 Hz on-screen orientation readout\n"@
            ||| line == "--hud-rate"@ + " <HZ>      HUD update rate (default 2)\n"@
            ||| line == "--kp"@ + " <FLOAT>         Mahony proportional gain (default 1.0)\n"@
            ||| line == "--ki"@ + " <FLOAT>         Mahony integral gain (default 0.005)\n"@
            ||| line == "--invert-yaw"@ + "         Invert yaw axis\n"@
            ||| line == "--invert-pitch"@ + "       Invert pitch axis\n"@
            ||| line == "--invert-roll"@ + "        Invert roll axis\n"@
            ||| line == "--sensitivity"@ + " <F>    Output sensitivity multiplier (default 1.0)\n"@
            ||| line == "--log-imu"@ + " <PATH>     Append raw IMU samples to file (JSONL)\n"@
            ||| line == "--log-pose"@ + " <PATH>    Append filtered pose to file (JSONL)\n"@
            ||| line == "--replay"@ + " <PATH>      Dev/testing: read IMU from a JSONL file instead of USB\n"@
            ||| line == "--log-level"@ + " <LEVEL>  error|warn|info|debug (default error — warnings hidden)\n"@
            ||| line == "--gyro-calib"@ + " <SEC>   Startup gyro-bias calibration window (default 2.0, 0=off)\n"@
            ||| line == "--input"@ + " <SOURCE>     imu|visual (default imu; visual = 6-DoF, IMU off)\n"@
            ||| line == "--replay-visual"@ + " <DIR> Dev/testing: read stereo frames from a directory\n"@
            ||| line == "--record-visual"@ + " <DIR> Write the stereo frames into a directory\n"@
            ||| line == "--version"@ + "            Print version and exit\n"@
            ||| line == "--help"@ + "               Print help and exit\n"@
        }),
    ensures
        r@.subrange(0, USAGE_HEAD@.len() as int) == "neuromancer-tracker — Nreal Light head tracker (Phase 1: 3-DoF)\n\nUSAGE:\n    neuromancer-tracker [OPTIONS]\n\nOPTIONS:\n"@,
        exists|i: int|
            0 <= i && i + line.len() <= r@.len() && #[trigger] r@.subrange(i, i + line.len())
                == line,
{
    reveal(option_text);
    assert(option_text(0) == ("--host"@, " <IP>          Opentrack host (default 127.0.0.1)\n"@));
    assert(option_text(1) == ("--port"@, " <PORT>        Opentrack UDP port (default 4242)\n"@));
    assert(option_text(2) == ("--no-udp"@, "             Disable UDP output (HUD-only mode)\n"@));
    assert(option_text(3) == ("--protocol"@, " <P>       UDP protocol variant: classic|extended (default classic)\n"@));
    assert(option_text(4) == ("--udp-rate"@, " <HZ>      UDP output rate (default 60)\n"@));
    assert(option_text(5) == ("--units"@, " <U>          Wire units for UDP + pose log: deg|rad (default deg)\n"@));
    assert(option_text(6) == ("--hud"@, "                Enable 2 Hz on-screen orientation readout\n"@));
    assert(option_text(7) == ("--hud-rate"@, " <HZ>      HUD update rate (default 2)\n"@));
    assert(option_text(8) == ("--kp"@, " <FLOAT>         Mahony proportional gain (default 1.0)\n"@));
    assert(option_text(9) == ("--ki"@, " <FLOAT>         Mahony integral gain (default 0.005)\n"@));
    assert(option_text(10) == ("--invert-yaw"@, "         Invert yaw axis\n"@));
    assert(option_text(11) == ("--invert-pitch"@, "       Invert pitch axis\n"@));
    assert(option_text(12) == ("--invert-roll"@, "        Invert roll axis\n"@));
    assert(option_text(13) == ("--sensitivity"@, " <F>    Output sensitivity multiplier (default 1.0)\n"@));
    assert(option_text(14) == ("--log-imu"@, " <PATH>     Append raw IMU samples to file (JSONL)\n"@));
    assert(option_text(15) == ("--log-pose"@, " <PATH>    Append filtered pose to file (JSONL)\n"@));
    assert(option_text(16) == ("--replay"@, " <PATH>      Dev/testing: read IMU from a JSONL file instead of USB\n"@));
    assert(option_text(17) == ("--log-level"@, " <LEVEL>  error|warn|info|debug (default error — warnings hidden)\n"@));
    assert(option_text(18) == ("--gyro-calib"@, " <SEC>   Startup gyro-bias calibration window (default 2.0, 0=off)\n"@));
    assert(option_text(19) == ("--input"@, " <SOURCE>     imu|visual (default imu; visual = 6-DoF, IMU off)\n"@));
    assert(option_text(20) == ("--replay-visual"@, " <DIR> Dev/testing: read stereo frames from a directory\n"@));
    assert(option_text(21) == ("--record-visual"@, " <DIR> Write the stereo frames into a directory\n"@));
    assert(option_text(22) == ("--version"@, "            Print version and exit\n"@));
    assert(option_text(23) == ("--help"@, "               Print help and exit\n"@));
    let k = choose|k: int| 0 <= k < 24 && line == (#[trigger] option_text(k)).0 + option_text(k).1;
    assert(0 <= k < 24 && line == option_text(k).0 + option_text(k).1);
    lemma_line_stands(k);
    lemma_head_stands();
}

proof fn lemma_line_stands(k: int)
    requires
        0 <= k < OPTION_COUNT,
    ensures
        ({
            let all = usage_upto(OPTION_COUNT as int);
            let line = option_text(k).0 + option_text(k).1;
            let at = option_place(k);
            0 <= at && at + line.len() <= all.len() && all.subrange(at, at + line.len()) == line
        }),
{
    reveal_strlit("    ");
    let all = usage_upto(OPTION_COUNT as int);
    let part = usage_upto(k + 1);
    let (name, help) = option_text(k);
    let line = name + help;
    let at = option_place(k);
    lemma_ends_a_line(k);
    lemma_option_is_proper(k);
    assert(part =~= usage_upto(k) + "    "@ + line);
    assert forall|j: int| 0 <= j < line.len() implies all[#[trigger] (at + j)] == line[j] && at + j
        < all.len() by {
        lemma_usage_grows(k + 1, OPTION_COUNT as int, at + j);
        assert(part[at + j] == line[j]);
    }
    assert(at + (line.len() - 1) < all.len());
    assert(all.subrange(at, at + line.len()) =~= line) by {
        assert forall|j: int| 0 <= j < line.len() implies all.subrange(at, at + line.len())[j]
            == line[j] by {
            assert(all[at + j] == line[j]);
        }
    }
}

proof fn lemma_head_stands()
    ensures
        usage_upto(OPTION_COUNT as int).subrange(0, USAGE_HEAD@.len() as int) == USAGE_HEAD@,
{
    let all = usage_upto(OPTION_COUNT as int);
    let n = USAGE_HEAD@.len() as int;
    lemma_head();
    assert forall|j: int| 0 <= j < n implies #[trigger] all[j] == USAGE_HEAD@[j] by {
        lemma_usage_grows(0, OPTION_COUNT as int, j);
    }
    lemma_usage_grows(0, OPTION_COUNT as int, 0);
    assert(all.subrange(0, n) =~= USAGE_HEAD@);
}

/// The view of a configuration shows each setting under its own name.
pub proof fn law_view_shows_settings(c: Config)
    ensures
        c@.host == c.host@ && c@.port == c.port && c@.no_udp == c.no_udp,
        c@.hud == c.hud && c@.hud_rate == c.hud_rate && c@.kp == c.kp && c@.ki == c.ki,
        c@.invert_yaw == c.invert_yaw && c@.invert_pitch == c.invert_pitch,
        c@.invert_roll == c.invert_roll && c@.sensitivity == c.sensitivity,
        c@.protocol == c.protocol && c@.udp_rate == c.udp_rate && c@.units == c.units,
        c@.log_level == c.log_level && c@.gyro_calib == c.gyro_calib && c@.input == c.input,
        c.log_imu is None <==> c@.log_imu is None,
        c.log_imu matches Some(p) ==> c@.log_imu == Some(p@),
        c.log_pose is None <==> c@.log_pose is None,
        c.log_pose matches Some(p) ==> c@.log_pose == Some(p@),
        c.replay is None <==> c@.replay is None,
        c.replay matches Some(p) ==> c@.replay == Some(p@),
        c.replay_visual is None <==> c@.replay_visual is None,
        c.replay_visual matches Some(p) ==> c@.replay_visual == Some(p@),
        c.record_visual is None <==> c@.record_visual is None,
        c.record_visual matches Some(p) ==> c@.record_visual == Some(p@),
{
}

/// A value that an option carries with it counts as the next argument would, behind other
/// arguments as well.
pub proof fn law_carried_value_counts_alike(
    args: Vec<Arg>,
    c: Config,
    one: Vec<Arg>,
    two: Vec<Arg>,
    joined: Arg,
    option: Arg,
    value: Arg,
    r: Result<ParseOutcome, String>,
    q: Result<ParseOutcome, String>,
    flag: Flag,
)
    requires
        call_ensures(parse, (args,), Ok::<ParseOutcome, String>(ParseOutcome::Run(c))),
        one@ == args@.push(joined),
        two@ == args@.push(option).push(value),
        joined.text@ == option.text@.push('=') + value.text@,
        joined.inline == value.whole,
        !option.text@.contains('='),
        value.text@.len() > 0 ==> value.text@[0] != '-',
        flag_named(option.text@) == Some(flag),
        !is_switch(flag),
        call_ensures(parse, (one,), r),
        call_ensures(parse, (two,), q),
    ensures
        r is Ok <==> q is Ok,
        r is Ok ==> r->Ok_0@ == q->Ok_0@,
        r is Err ==> r->Err_0@ == q->Err_0@,
{
    assert(one@ =~= args@ + seq![joined]);
    assert(two@ =~= args@ + seq![option, value]);
    assert(parsed(args@, default_config()) == Ok::<OutcomeView, Seq<char>>(
        OutcomeView::Run(c@),
    ));
    lemma_parsed_goes_on(args@, seq![joined], default_config(), c@);
    lemma_parsed_goes_on(args@, seq![option, value], default_config(), c@);
    assert(joined.text@ =~= option.text@ + seq!['='] + value.text@);
    text::lemma_split_first_of_parts(option.text@, value.text@, '=');
    text::lemma_split_first_parts(option.text@, '=');
    if let Some((a, b)) = text::split_first(option.text@, '=') {
        assert((a + seq!['='] + b)[a.len() as int] == '=');
    }
    reveal_strlit("-");
    if text::begins_with(value.text@, "-"@) {
        assert(value.text@.subrange(0, 1)[0] == '-');
    }
    let none = Seq::<Arg>::empty();
    law_inline_value_is_next_argument(none, joined, option, value, none, c@);
    assert(none + seq![joined] + none =~= seq![joined]);
    assert(none + seq![option, value] + none =~= seq![option, value]);
}

/// The first option that is not known is complained about, whatever follows it.
pub proof fn law_unknown_option_ends_parse(
    args: Vec<Arg>,
    c: Config,
    more: Vec<Arg>,
    option: Arg,
    rest: Seq<Arg>,
    r: Result<ParseOutcome, String>,
)
    requires
        call_ensures(parse, (args,), Ok::<ParseOutcome, String>(ParseOutcome::Run(c))),
        more@ == args@ + (seq![option] + rest),
        !option.text@.contains('='),
        flag_named(option.text@) is None,
        call_ensures(parse, (more,), r),
    ensures
        r is Err,
        r->Err_0@ == "unknown option: "@ + option.text@,
{
    let f = option.text@;
    let tail = seq![option] + rest;
    assert(parsed(args@, default_config()) == Ok::<OutcomeView, Seq<char>>(
        OutcomeView::Run(c@),
    ));
    lemma_parsed_goes_on(args@, tail, default_config(), c@);
    text::lemma_split_first_parts(f, '=');
    if let Some((a, b)) = text::split_first(f, '=') {
        assert((a + seq!['='] + b)[a.len() as int] == '=');
    }
    assert(tail.first() == option);
}

} // verus!
