//! The settings of the head tracker: one field for each command-line switch and
//! for each entry of the settings menu.

use crate::cli;
use crate::double;
use crate::double::Double;
use crate::text;
use crate::text::{parse_u16, quoted, same, starts_with};
use vstd::prelude::*;

verus! {

/// Tracker settings. `Default` is the configuration out of the box.
#[derive(Debug, Clone)]
pub struct Settings {
    /// Disables UDP output.
    pub no_udp: bool,
    /// UDP destination host.
    pub host: String,
    /// UDP destination port.
    pub port: u16,
    /// UDP send rate, in Hz.
    pub udp_rate: Double,
    /// Readout refresh rate, in Hz; zero is off.
    pub hud_rate: Double,
    /// Length of the gyro calibration at startup, in seconds; zero skips it.
    pub gyro_calib: Double,
    /// Proportional gain of the orientation filter.
    pub kp: Double,
    /// Integral gain of the orientation filter.
    pub ki: Double,
    /// Output in radians, not degrees.
    pub rad: bool,
    /// Shows the cube.
    pub show_cube: bool,
    /// Smooths the orientation.
    pub jitter_filter: bool,
    /// Weight of a fresh sample in the smoothing, from 0 to 1.
    pub jitter_alpha: Double,
}

/// What [`Settings`] hold, with the host as a character sequence.
pub struct SettingsView {
    pub no_udp: bool,
    pub host: Seq<char>,
    pub port: u16,
    pub udp_rate: Double,
    pub hud_rate: Double,
    pub gyro_calib: Double,
    pub kp: Double,
    pub ki: Double,
    pub rad: bool,
    pub show_cube: bool,
    pub jitter_filter: bool,
    pub jitter_alpha: Double,
}

impl View for Settings {
    type V = SettingsView;

    open spec fn view(&self) -> SettingsView {
        SettingsView {
            no_udp: self.no_udp,
            host: self.host@,
            port: self.port,
            udp_rate: self.udp_rate,
            hud_rate: self.hud_rate,
            gyro_calib: self.gyro_calib,
            kp: self.kp,
            ki: self.ki,
            rad: self.rad,
            show_cube: self.show_cube,
            jitter_filter: self.jitter_filter,
            jitter_alpha: self.jitter_alpha,
        }
    }
}

/// The bit pattern of 0.1.
pub const TENTH: u64 = 0x3fb9_9999_9999_999a;

/// The settings out of the box.
pub open spec fn default_settings() -> SettingsView {
    SettingsView {
        no_udp: false,
        host: "127.0.0.1"@,
        port: 4242,
        udp_rate: Double { bits: cli::SIXTY },
        hud_rate: Double { bits: cli::TWO },
        gyro_calib: Double { bits: cli::TWO },
        kp: Double::one(),
        ki: Double { bits: cli::FIVE_THOUSANDTHS },
        rad: false,
        show_cube: true,
        jitter_filter: false,
        jitter_alpha: Double { bits: TENTH },
    }
}

impl Default for Settings {
    fn default() -> (r: Self)
        ensures
            r@ == default_settings(),
    {
        Settings {
            no_udp: false,
            host: "127.0.0.1".to_owned(),
            port: 4242,
            udp_rate: Double { bits: cli::SIXTY },
            hud_rate: Double { bits: cli::TWO },
            gyro_calib: Double { bits: cli::TWO },
            kp: Double { bits: double::ONE },
            ki: Double { bits: cli::FIVE_THOUSANDTHS },
            rad: false,
            show_cube: true,
            jitter_filter: false,
            jitter_alpha: Double { bits: TENTH },
        }
    }
}

/// The number that the value `raw` of `flag` reads as, unless it is below zero.
pub open spec fn nonnegative_setting(
    flag: Seq<char>,
    raw: Seq<char>,
    number: Option<Double>,
) -> Result<Double, Seq<char>> {
    match number {
        None => Err(cli::invalid_value(flag, raw)),
        Some(v) => if v.less(Double::zero()) {
            Err(flag + " must be >= 0: "@ + raw)
        } else {
            Ok(v)
        },
    }
}

/// The number that the value `raw` of `flag` reads as, if it lies from 0 to 1.
pub open spec fn unit_setting(
    flag: Seq<char>,
    raw: Seq<char>,
    number: Option<Double>,
) -> Result<Double, Seq<char>> {
    match number {
        None => Err(cli::invalid_value(flag, raw)),
        Some(v) => if Double::zero().at_most(v) && v.at_most(Double::one()) {
            Ok(v)
        } else {
            Err(flag + " must be in [0, 1]: "@ + raw)
        },
    }
}

/// The settings after `flag` with `value`, which reads as `number`; `None` for a
/// flag that is not known, or the complaint about the value.
pub open spec fn applied(
    s: SettingsView,
    flag: Seq<char>,
    value: Option<Seq<char>>,
    number: Option<Double>,
) -> Result<Option<SettingsView>, Seq<char>> {
    if flag == "--no-udp"@ {
        Ok(Some(SettingsView { no_udp: true, ..s }))
    } else if flag == "--jitter-filter"@ {
        match value {
            None => Ok(Some(SettingsView { jitter_filter: true, ..s })),
            Some(raw) => match unit_setting(flag, raw, number) {
                Ok(v) => Ok(Some(SettingsView { jitter_alpha: v, jitter_filter: true, ..s })),
                Err(m) => Err(m),
            },
        }
    } else if takes_value(flag) {
        match value {
            None => Err(flag + " needs a value"@),
            Some(raw) => match set(s, flag, raw, number) {
                Ok(next) => Ok(Some(next)),
                Err(m) => Err(m),
            },
        }
    } else {
        Ok(None)
    }
}

/// The flags that come with a value.
pub open spec fn takes_value(flag: Seq<char>) -> bool {
    flag == "--host"@ || flag == "--port"@ || flag == "--units"@ || flag == "--jitter-alpha"@
        || is_rate_or_gain(flag)
}

/// The flags whose value is a number that is not negative.
pub open spec fn is_rate_or_gain(flag: Seq<char>) -> bool {
    flag == "--udp-rate"@ || flag == "--hud-rate"@ || flag == "--gyro-calib"@ || flag == "--kp"@
        || flag == "--ki"@
}

/// The settings with the value `raw` of `flag` put in. A destination or a rate of
/// the UDP output turns that output on.
pub open spec fn set(
    s: SettingsView,
    flag: Seq<char>,
    raw: Seq<char>,
    number: Option<Double>,
) -> Result<SettingsView, Seq<char>> {
    if flag == "--host"@ {
        Ok(SettingsView { host: raw, no_udp: false, ..s })
    } else if flag == "--port"@ {
        match text::u16_named(raw) {
            Some(port) => Ok(SettingsView { port, no_udp: false, ..s }),
            None => Err("invalid port: "@ + text::debug_text(raw)),
        }
    } else if flag == "--units"@ {
        if raw == "deg"@ {
            Ok(SettingsView { rad: false, ..s })
        } else if raw == "rad"@ {
            Ok(SettingsView { rad: true, ..s })
        } else {
            Err("--units must be deg|rad, got "@ + text::debug_text(raw))
        }
    } else if flag == "--jitter-alpha"@ {
        match unit_setting(flag, raw, number) {
            Ok(v) => Ok(
                SettingsView { jitter_alpha: v, jitter_filter: Double::zero().less(v), ..s },
            ),
            Err(m) => Err(m),
        }
    } else {
        match nonnegative_setting(flag, raw, number) {
            Err(m) => Err(m),
            Ok(v) => if flag == "--udp-rate"@ {
                Ok(SettingsView { udp_rate: v, no_udp: false, ..s })
            } else if flag == "--hud-rate"@ {
                Ok(SettingsView { hud_rate: v, ..s })
            } else if flag == "--gyro-calib"@ {
                Ok(SettingsView { gyro_calib: v, ..s })
            } else if flag == "--kp"@ {
                Ok(SettingsView { kp: v, ..s })
            } else {
                Ok(SettingsView { ki: v, ..s })
            },
        }
    }
}

fn unreadable(flag: &str, raw: &str) -> (r: String)
    ensures
        r@ == cli::invalid_value(flag@, raw@),
{
    let mut m = "invalid value for ".to_owned();
    m.append(flag);
    m.append(": ");
    m.append(quoted(raw).as_str());
    m
}

pub(crate) fn parse_nonneg(raw: &str, number: Option<Double>, flag: &str) -> (r: Result<Double, String>)
    ensures
        cli::agrees(r, nonnegative_setting(flag@, raw@, number)),
{
    match number {
        None => Err(unreadable(flag, raw)),
        Some(v) => if v.lt(Double { bits: 0 }) {
            let mut m = flag.to_owned();
            m.append(" must be >= 0: ");
            m.append(raw);
            Err(m)
        } else {
            Ok(v)
        },
    }
}

fn parse_unit(raw: &str, number: Option<Double>, flag: &str) -> (r: Result<Double, String>)
    ensures
        cli::agrees(r, unit_setting(flag@, raw@, number)),
{
    match number {
        None => Err(unreadable(flag, raw)),
        Some(v) => if (Double { bits: 0 }).le(v) && v.le(Double { bits: double::ONE }) {
            Ok(v)
        } else {
            let mut m = flag.to_owned();
            m.append(" must be in [0, 1]: ");
            m.append(raw);
            Err(m)
        },
    }
}

impl Settings {
    fn set_value(&mut self, flag: &str, raw: &str, number: Option<Double>) -> (r: Result<
        (),
        String,
    >)
        requires
            takes_value(flag@),
        ensures
            match (r, set(old(self)@, flag@, raw@, number)) {
                (Ok(_), Ok(next)) => final(self)@ == next,
                (Err(m), Err(n)) => m@ == n && *final(self) == *old(self),
                _ => false,
            },
    {
        if same(flag, "--host") {
            self.host = raw.to_owned();
            self.no_udp = false;
        } else if same(flag, "--port") {
            match parse_u16(raw) {
                Some(port) => {
                    self.port = port;
                    self.no_udp = false;
                },
                None => {
                    let mut m = "invalid port: ".to_owned();
                    m.append(quoted(raw).as_str());
                    return Err(m);
                },
            }
        } else if same(flag, "--units") {
            if same(raw, "deg") {
                self.rad = false;
            } else if same(raw, "rad") {
                self.rad = true;
            } else {
                let mut m = "--units must be deg|rad, got ".to_owned();
                m.append(quoted(raw).as_str());
                return Err(m);
            }
        } else if same(flag, "--jitter-alpha") {
            match parse_unit(raw, number, flag) {
                Ok(v) => {
                    self.jitter_alpha = v;
                    self.jitter_filter = (Double { bits: 0 }).lt(v);
                },
                Err(m) => {
                    return Err(m);
                },
            }
        } else {
            match parse_nonneg(raw, number, flag) {
                Ok(v) => {
                    if same(flag, "--udp-rate") {
                        self.udp_rate = v;
                        self.no_udp = false;
                    } else if same(flag, "--hud-rate") {
                        self.hud_rate = v;
                    } else if same(flag, "--gyro-calib") {
                        self.gyro_calib = v;
                    } else if same(flag, "--kp") {
                        self.kp = v;
                    } else {
                        self.ki = v;
                    }
                },
                Err(m) => {
                    return Err(m);
                },
            }
        }
        Ok(())
    }

    /// Applies a `--flag value` or `--flag` pair, where the value reads as
    /// `number`. Returns `Ok(false)` for a flag that is not known. Unless a flag
    /// was applied, the settings stay as they are.
    pub fn apply_cli(&mut self, flag: &str, value: Option<&str>, number: Option<Double>) -> (r:
        Result<bool, String>)
        ensures
            match (r, applied(old(self)@, flag@, text::characters(value), number)) {
                (Ok(true), Ok(Some(next))) => final(self)@ == next,
                (Ok(false), Ok(None)) => *final(self) == *old(self),
                (Err(m), Err(n)) => m@ == n && *final(self) == *old(self),
                _ => false,
            },
    {
        if same(flag, "--no-udp") {
            self.no_udp = true;
            return Ok(true);
        }
        if same(flag, "--jitter-filter") {
            if let Some(raw) = value {
                match parse_unit(raw, number, flag) {
                    Ok(v) => {
                        self.jitter_alpha = v;
                    },
                    Err(m) => {
                        return Err(m);
                    },
                }
            }
            self.jitter_filter = true;
            return Ok(true);
        }
        let valued = same(flag, "--host") || same(flag, "--port") || same(flag, "--units") || same(
            flag,
            "--jitter-alpha",
        ) || same(flag, "--udp-rate") || same(flag, "--hud-rate") || same(flag, "--gyro-calib")
            || same(flag, "--kp") || same(flag, "--ki");
        if !valued {
            return Ok(false);
        }
        match value {
            None => {
                let mut m = flag.to_owned();
                m.append(" needs a value");
                Err(m)
            },
            Some(raw) => match self.set_value(flag, raw, number) {
                Ok(_) => Ok(true),
                Err(m) => Err(m),
            },
        }
    }
}

/// An argument and the number that its text, as it stands, reads as.
#[derive(Debug, Clone)]
pub struct Word {
    pub text: String,
    pub number: Option<Double>,
}

/// One thing that the command line asks for.
#[derive(Debug, Clone)]
pub enum Step {
    /// Load the settings from this file.
    Config(String),
    /// `--config` at the end of the line, without a file.
    ConfigMissing,
    /// Write the settings to the settings file, and stop.
    SaveConfig,
    /// Apply a flag, with its value and the number that the value reads as.
    Apply { flag: String, value: Option<String>, number: Option<Double> },
}

/// What a [`Step`] holds.
pub enum StepView {
    Config(Seq<char>),
    ConfigMissing,
    SaveConfig,
    Apply { flag: Seq<char>, value: Option<Seq<char>>, number: Option<Double> },
}

impl View for Step {
    type V = StepView;

    open spec fn view(&self) -> StepView {
        match *self {
            Step::Config(p) => StepView::Config(p@),
            Step::ConfigMissing => StepView::ConfigMissing,
            Step::SaveConfig => StepView::SaveConfig,
            Step::Apply { flag, value, number } => StepView::Apply {
                flag: flag@,
                value: cli::optional_text(value),
                number,
            },
        }
    }
}

/// What each of the steps holds.
pub open spec fn step_views(steps: Seq<Step>) -> Seq<StepView> {
    steps.map_values(|s: Step| s@)
}

/// The first thing that `args` ask for, and how many arguments it takes up. A
/// flag takes the next argument as its value unless that begins with two dashes.
pub open spec fn first_step(args: Seq<Word>) -> (StepView, int)
    recommends
        args.len() > 0,
{
    let flag = args[0].text@;
    if flag == "--config"@ {
        if args.len() > 1 {
            (StepView::Config(args[1].text@), 2)
        } else {
            (StepView::ConfigMissing, 1)
        }
    } else if flag == "--save-config"@ {
        (StepView::SaveConfig, 1)
    } else if args.len() > 1 && !text::begins_with(args[1].text@, "--"@) {
        (StepView::Apply { flag, value: Some(args[1].text@), number: args[1].number }, 2)
    } else {
        (StepView::Apply { flag, value: None, number: None }, 1)
    }
}

/// All that `args` ask for, in order.
pub open spec fn planned(args: Seq<Word>) -> Seq<StepView>
    decreases args.len(),
{
    if args.len() == 0 {
        Seq::empty()
    } else {
        let (step, n) = first_step(args);
        seq![step] + planned(args.subrange(n, args.len() as int))
    }
}

/// Splits the command line into what it asks for.
pub fn plan(args: &Vec<Word>) -> (r: Vec<Step>)
    ensures
        step_views(r@) == planned(args@),
{
    let mut out: Vec<Step> = Vec::new();
    let mut i: usize = 0;
    proof {
        assert(args@.subrange(0, args.len() as int) =~= args@);
        assert(step_views(out@) + planned(args@) =~= planned(args@));
    }
    while i < args.len()
        invariant
            i <= args.len(),
            step_views(out@) + planned(args@.subrange(i as int, args.len() as int)) == planned(
                args@,
            ),
        decreases args.len() - i,
    {
        let ghost rest = args@.subrange(i as int, args.len() as int);
        let ghost done = out@;
        let flag = args[i].text.as_str();
        let start: usize = i;
        let step;
        i += 1;
        if same(flag, "--config") {
            if i < args.len() {
                step = Step::Config(args[i].text.as_str().to_owned());
                i += 1;
            } else {
                step = Step::ConfigMissing;
            }
        } else if same(flag, "--save-config") {
            step = Step::SaveConfig;
        } else if i < args.len() && !starts_with(args[i].text.as_str(), "--") {
            step =
            Step::Apply {
                flag: flag.to_owned(),
                value: Some(args[i].text.as_str().to_owned()),
                number: args[i].number,
            };
            i += 1;
        } else {
            step = Step::Apply { flag: flag.to_owned(), value: None, number: None };
        }
        out.push(step);
        proof {
            let (first, n) = first_step(rest);
            assert(first == step@ && n == i - start);
            assert(rest.subrange(n, rest.len() as int) =~= args@.subrange(
                i as int,
                args.len() as int,
            ));
            assert(step_views(out@) =~= step_views(done) + seq![first]);
            let tail = planned(args@.subrange(i as int, args.len() as int));
            assert(step_views(done) + (seq![first] + tail) =~= step_views(out@) + tail);
        }
    }
    proof {
        assert(args@.subrange(i as int, args.len() as int) =~= Seq::empty());
        assert(step_views(out@) + Seq::empty() =~= step_views(out@));
    }
    out
}

/// The bounds that the settings keep: no rate, window or gain is below zero, and
/// the smoothing weight lies from 0 to 1.
pub open spec fn in_bounds(s: SettingsView) -> bool {
    &&& !s.udp_rate.less(Double::zero())
    &&& !s.hud_rate.less(Double::zero())
    &&& !s.gyro_calib.less(Double::zero())
    &&& !s.kp.less(Double::zero())
    &&& !s.ki.less(Double::zero())
    &&& Double::zero().at_most(s.jitter_alpha) && s.jitter_alpha.at_most(Double::one())
}

/// The settings out of the box are within their bounds.
pub proof fn law_defaults_in_bounds()
    ensures
        in_bounds(default_settings()),
{
    double::lemma_magnitude_units_order(0, cli::TWO as int);
    double::lemma_magnitude_units_order(0, cli::SIXTY as int);
    double::lemma_magnitude_units_order(0, cli::FIVE_THOUSANDTHS as int);
    double::lemma_magnitude_units_order(0, double::ONE as int);
    double::lemma_magnitude_units_order(0, TENTH as int);
    double::lemma_magnitude_units_order(TENTH as int, double::ONE as int);
}

/// No flag takes the settings out of their bounds.
pub proof fn law_flags_keep_bounds(
    s: SettingsView,
    flag: Seq<char>,
    value: Option<Seq<char>>,
    number: Option<Double>,
)
    requires
        in_bounds(s),
    ensures
        applied(s, flag, value, number) matches Ok(Some(next)) ==> in_bounds(next),
{
}

/// A flag that names the UDP destination or rate turns the UDP output on.
pub proof fn law_udp_flags_enable_udp(
    s: SettingsView,
    flag: Seq<char>,
    value: Option<Seq<char>>,
    number: Option<Double>,
)
    requires
        flag == "--host"@ || flag == "--port"@ || flag == "--udp-rate"@,
    ensures
        applied(s, flag, value, number) matches Ok(Some(next)) ==> !next.no_udp,
{
    reveal_strlit("--host");
    reveal_strlit("--port");
    reveal_strlit("--udp-rate");
    reveal_strlit("--no-udp");
    reveal_strlit("--jitter-filter");
    reveal_strlit("--units");
    reveal_strlit("--jitter-alpha");
    assert("--host"@[2] == 'h' && "--port"@[2] == 'p' && "--udp-rate"@[2] == 'u');
    assert("--no-udp"@[2] == 'n' && "--jitter-filter"@[2] == 'j' && "--jitter-alpha"@[2] == 'j');
    assert("--units"@[3] == 'n' && "--udp-rate"@[3] == 'd');
}

/// What became of reading a settings file.
#[derive(Debug, Clone)]
pub enum SettingsFile {
    /// The file could not be read.
    Missing,
    /// The file does not hold settings, for this reason.
    Unreadable(String),
    /// The settings in the file.
    Parsed(Settings),
}

/// `first`, `path`, ` unreadable (`, `reason` and the rest of the warning.
pub open spec fn unreadable_warning(first: Seq<char>, path: Seq<char>, reason: Seq<char>) -> Seq<
    char,
> {
    first + path + " unreadable ("@ + reason + ") — using defaults"@
}

fn warn_unreadable(first: &str, path: &str, reason: &str) -> (r: String)
    ensures
        r@ == unreadable_warning(first@, path@, reason@),
{
    let mut m = first.to_owned();
    m.append(path);
    m.append(" unreadable (");
    m.append(reason);
    m.append(") — using defaults");
    m
}

impl Settings {
    /// The components of the path of the settings file: under the configuration
    /// directory where there is one, else under `.config` in the home directory,
    /// else here.
    pub fn config_path(config_home: Option<&str>, home: Option<&str>) -> (r: Vec<String>)
        ensures
            r@.map_values(|s: String| s@) == config_components(
                text::characters(config_home),
                text::characters(home),
            ),
    {
        let mut parts: Vec<String> = Vec::new();
        match config_home {
            Some(base) => {
                parts.push(base.to_owned());
            },
            None => match home {
                Some(h) => {
                    parts.push(h.to_owned());
                    parts.push(".config".to_owned());
                },
                None => {
                    parts.push(".".to_owned());
                },
            },
        }
        parts.push("neuromancer-tracker".to_owned());
        parts.push("settings.toml".to_owned());
        assert(parts@.map_values(|s: String| s@) =~= config_components(
            text::characters(config_home),
            text::characters(home),
        ));
        parts
    }

    /// The settings to start with, and the warning to print: those of the file,
    /// or the defaults where there is none or it cannot be understood.
    pub fn load(path: &str, file: SettingsFile) -> (r: (Settings, Option<String>))
        ensures
            match file {
                SettingsFile::Missing => r.0@ == default_settings() && r.1 is None,
                SettingsFile::Unreadable(reason) => {
                    &&& r.0@ == default_settings()
                    &&& r.1 matches Some(w) && w@ == unreadable_warning(
                        "warning: settings file "@,
                        path@,
                        reason@,
                    )
                },
                SettingsFile::Parsed(s) => r.0 == s && r.1 is None,
            },
    {
        match file {
            SettingsFile::Missing => (Settings::default(), None),
            SettingsFile::Unreadable(reason) => (
                Settings::default(),
                Some(warn_unreadable("warning: settings file ", path, reason.as_str())),
            ),
            SettingsFile::Parsed(s) => (s, None),
        }
    }

    /// Puts the settings of the file that `--config` names in place of these, and
    /// returns the warning to print. Where the file cannot be read these stay.
    pub fn load_config(&mut self, path: &str, file: SettingsFile) -> (r: Option<String>)
        ensures
            match file {
                SettingsFile::Missing => {
                    &&& *final(self) == *old(self)
                    &&& r matches Some(w) && w@ == "warning: config "@ + path@
                        + " not found — using defaults"@
                },
                SettingsFile::Unreadable(reason) => {
                    &&& final(self)@ == default_settings()
                    &&& r matches Some(w) && w@ == unreadable_warning(
                        "warning: config "@,
                        path@,
                        reason@,
                    )
                },
                SettingsFile::Parsed(s) => *final(self) == s && r is None,
            },
    {
        match file {
            SettingsFile::Missing => {
                let mut m = "warning: config ".to_owned();
                m.append(path);
                m.append(" not found — using defaults");
                Some(m)
            },
            SettingsFile::Unreadable(reason) => {
                *self = Settings::default();
                Some(warn_unreadable("warning: config ", path, reason.as_str()))
            },
            SettingsFile::Parsed(s) => {
                *self = s;
                None
            },
        }
    }
}

/// The components of the path of the settings file.
pub open spec fn config_components(config_home: Option<Seq<char>>, home: Option<Seq<char>>) -> Seq<
    Seq<char>,
> {
    let base = match config_home {
        Some(base) => seq![base],
        None => match home {
            Some(h) => seq![h, ".config"@],
            None => seq!["."@],
        },
    };
    base + seq!["neuromancer-tracker"@, "settings.toml"@]
}

/// The settings out of the box: UDP to port 4242 of this machine sixty times a second, the
/// readout twice a second, two seconds of calibration, degrees, the cube shown and nothing
/// smoothed.
pub proof fn law_settings_out_of_the_box(s: Settings)
    requires
        call_ensures(Settings::default, (), s),
    ensures
        !s.no_udp && s.host@ == "127.0.0.1"@ && s.port == 4242,
        s.udp_rate.bits == 0x404e_0000_0000_0000,
        s.hud_rate.bits == 0x4000_0000_0000_0000,
        s.gyro_calib.bits == 0x4000_0000_0000_0000,
        s.kp.bits == 0x3ff0_0000_0000_0000,
        s.ki.bits == 0x3f74_7ae1_47ae_147b,
        !s.rad && s.show_cube && !s.jitter_filter,
        s.jitter_alpha.bits == 0x3fb9_9999_9999_999a,
{
    assert(s@.host == "127.0.0.1"@);
}

/// The flags are different words.
pub proof fn lemma_flags_differ()
    ensures
        "--no-udp"@.len() == 8 && "--jitter-filter"@.len() == 15 && "--host"@.len() == 6,
        "--port"@.len() == 6 && "--units"@.len() == 7 && "--jitter-alpha"@.len() == 14,
        "--udp-rate"@.len() == 10 && "--hud-rate"@.len() == 10 && "--gyro-calib"@.len() == 12,
        "--kp"@.len() == 4 && "--ki"@.len() == 4,
        "--host"@ != "--port"@,
        "--udp-rate"@ != "--hud-rate"@,
        "--kp"@ != "--ki"@,
{
    reveal_strlit("--no-udp");
    reveal_strlit("--jitter-filter");
    reveal_strlit("--host");
    reveal_strlit("--port");
    reveal_strlit("--units");
    reveal_strlit("--jitter-alpha");
    reveal_strlit("--udp-rate");
    reveal_strlit("--hud-rate");
    reveal_strlit("--gyro-calib");
    reveal_strlit("--kp");
    reveal_strlit("--ki");
    assert("--host"@[2] == 'h' && "--port"@[2] == 'p');
    assert("--udp-rate"@[2] == 'u' && "--hud-rate"@[2] == 'h');
    assert("--kp"@[3] == 'p' && "--ki"@[3] == 'i');
}

/// Every setting is changed by its own flag alone; the UDP output is switched by the flag
/// that turns it off and by those that say where and how often it goes, and the smoothing
/// by its two flags. A flag that was not applied changes nothing.
pub proof fn law_settings_change_by_own_flag(
    s: &mut Settings,
    flag: &str,
    value: Option<&str>,
    number: Option<Double>,
    r: Result<bool, String>,
)
    requires
        call_ensures(Settings::apply_cli, (s, flag, value, number), r),
    ensures
        r != Ok::<bool, String>(true) ==> final(s)@ == old(s)@,
        final(s).host@ != old(s).host@ ==> flag@ == "--host"@,
        final(s).port != old(s).port ==> flag@ == "--port"@,
        final(s).udp_rate != old(s).udp_rate ==> flag@ == "--udp-rate"@,
        final(s).hud_rate != old(s).hud_rate ==> flag@ == "--hud-rate"@,
        final(s).gyro_calib != old(s).gyro_calib ==> flag@ == "--gyro-calib"@,
        final(s).kp != old(s).kp ==> flag@ == "--kp"@,
        final(s).ki != old(s).ki ==> flag@ == "--ki"@,
        final(s).rad != old(s).rad ==> flag@ == "--units"@,
        final(s).show_cube == old(s).show_cube,
        final(s).jitter_alpha != old(s).jitter_alpha ==> flag@ == "--jitter-alpha"@ || flag@
            == "--jitter-filter"@,
        final(s).jitter_filter != old(s).jitter_filter ==> flag@ == "--jitter-alpha"@ || flag@
            == "--jitter-filter"@,
        final(s).no_udp != old(s).no_udp ==> flag@ == "--no-udp"@ || flag@ == "--host"@ || flag@
            == "--port"@ || flag@ == "--udp-rate"@,
{
    let (a, b) = (old(s)@, final(s)@);
    assert(a.host == old(s).host@ && b.host == final(s).host@);
    assert(a.port == old(s).port && b.port == final(s).port);
    lemma_flags_differ();
}

/// A flag that was applied has put its value into its setting.
pub proof fn law_flag_puts_its_value(
    s: &mut Settings,
    flag: &str,
    raw: &str,
    number: Option<Double>,
    r: Result<bool, String>,
)
    requires
        call_ensures(Settings::apply_cli, (s, flag, Some(raw), number), r),
        r == Ok::<bool, String>(true),
    ensures
        flag@ == "--no-udp"@ ==> final(s).no_udp,
        flag@ == "--host"@ ==> final(s).host@ == raw@ && !final(s).no_udp,
        flag@ == "--port"@ ==> Some(final(s).port) == text::u16_named(raw@) && !final(s).no_udp,
        flag@ == "--udp-rate"@ ==> Some(final(s).udp_rate) == number && !final(s).no_udp,
        flag@ == "--hud-rate"@ ==> Some(final(s).hud_rate) == number,
        flag@ == "--gyro-calib"@ ==> Some(final(s).gyro_calib) == number,
        flag@ == "--kp"@ ==> Some(final(s).kp) == number,
        flag@ == "--ki"@ ==> Some(final(s).ki) == number,
        flag@ == "--units"@ ==> (final(s).rad <==> raw@ == "rad"@) && (!final(s).rad <==> raw@
            == "deg"@),
        flag@ == "--jitter-filter"@ ==> Some(final(s).jitter_alpha) == number && final(
            s).jitter_filter,
        flag@ == "--jitter-alpha"@ ==> Some(final(s).jitter_alpha) == number && (final(
            s).jitter_filter <==> number->0.units() > 0),
{
    let b = final(s)@;
    assert(b.host == final(s).host@);
    lemma_flags_differ();
    reveal_strlit("deg");
    reveal_strlit("rad");
    assert("deg"@[0] == 'd' && "rad"@[0] == 'r');
    double::lemma_magnitude_units_order(0, 0);
}

/// The flags that are known, and just these: a flag that is not known is told of as such.
/// All but two of them need a value.
pub proof fn law_known_flags_need_values(
    s: &mut Settings,
    flag: &str,
    value: Option<&str>,
    number: Option<Double>,
    r: Result<bool, String>,
)
    requires
        call_ensures(Settings::apply_cli, (s, flag, value, number), r),
    ensures
        ({
            let valued = flag@ == "--host"@ || flag@ == "--port"@ || flag@ == "--units"@ || flag@
                == "--udp-rate"@ || flag@ == "--hud-rate"@ || flag@ == "--gyro-calib"@ || flag@
                == "--kp"@ || flag@ == "--ki"@ || flag@ == "--jitter-alpha"@;
            let switch = flag@ == "--no-udp"@ || flag@ == "--jitter-filter"@;
            &&& r == Ok::<bool, String>(false) <==> !valued && !switch
            &&& switch && value is None ==> r == Ok::<bool, String>(true)
            &&& flag@ == "--no-udp"@ ==> r == Ok::<bool, String>(true) && final(s).no_udp
            &&& flag@ == "--jitter-filter"@ && value is None ==> final(s).jitter_filter
                && final(s).jitter_alpha == old(s).jitter_alpha
            &&& valued && value is None ==> r is Err && r->Err_0@ == flag@ + " needs a value"@
        }),
{
    lemma_flags_differ();
}

/// Which values are accepted, and what is said of the others: a rate, a window or a gain
/// must read as a number and not lie below zero, a weight must lie from zero to one, a port
/// must be a number of sixteen bits, and a unit one of the two.
pub proof fn law_values_are_checked(
    s: &mut Settings,
    flag: &str,
    raw: &str,
    number: Option<Double>,
    r: Result<bool, String>,
)
    requires
        call_ensures(Settings::apply_cli, (s, flag, Some(raw), number), r),
    ensures
        ({
            let unreadable = "invalid value for "@ + flag@ + ": "@ + text::debug_text(raw@);
            let gain = flag@ == "--udp-rate"@ || flag@ == "--hud-rate"@ || flag@ == "--gyro-calib"@
                || flag@ == "--kp"@ || flag@ == "--ki"@;
            let weight = flag@ == "--jitter-alpha"@ || flag@ == "--jitter-filter"@;
            &&& flag@ == "--host"@ ==> r == Ok::<bool, String>(true)
            &&& flag@ == "--port"@ ==> (r is Ok <==> text::u16_named(raw@) is Some)
            &&& flag@ == "--port"@ && r is Err ==> r->Err_0@ == "invalid port: "@
                + text::debug_text(raw@)
            &&& flag@ == "--units"@ ==> (r is Ok <==> raw@ == "deg"@ || raw@ == "rad"@)
            &&& flag@ == "--units"@ && r is Err ==> r->Err_0@ == "--units must be deg|rad, got "@
                + text::debug_text(raw@)
            &&& gain || weight ==> (number is None ==> r is Err && r->Err_0@ == unreadable)
            &&& gain && number is Some ==> {
                let v = number->0;
                &&& r is Err <==> !v.nan() && v.units() < 0
                &&& r is Err ==> r->Err_0@ == flag@ + " must be >= 0: "@ + raw@
            }
            &&& weight && number is Some ==> {
                let v = number->0;
                &&& r is Ok <==> !v.nan() && 0 <= v.units() <= Double::one().units()
                &&& r is Err ==> r->Err_0@ == flag@ + " must be in [0, 1]: "@ + raw@
            }
        }),
{
    lemma_flags_differ();
    double::lemma_magnitude_units_order(0, 0);
    assert("invalid value for "@ + flag@ + ": "@ + text::debug_text(raw@) == cli::invalid_value(
        flag@,
        raw@,
    ));
}

/// The command line is gone through from its start: each flag stands for one step, which
/// takes the next argument as well where that does not begin with two dashes, or where the
/// flag asks for a file; the rest stands for what it stands for alone.
pub proof fn law_plan_goes_step_by_step(
    args: Vec<Word>,
    r: Vec<Step>,
    n: int,
    rest: Vec<Word>,
    later: Vec<Step>,
)
    requires
        call_ensures(plan, (&args,), r),
        args.len() > 0,
        n == if args@[0].text@ == "--config"@ {
            if args.len() > 1 {
                2int
            } else {
                1
            }
        } else if args@[0].text@ == "--save-config"@ || args.len() == 1 {
            1
        } else {
            let next = args@[1].text@;
            if next.len() >= 2 && next[0] == '-' && next[1] == '-' {
                1
            } else {
                2
            }
        },
        rest@ == args@.subrange(n, args.len() as int),
        call_ensures(plan, (&rest,), later),
    ensures
        r.len() == later.len() + 1,
        forall|i: int| 0 <= i < later.len() ==> (#[trigger] later@[i])@ == r@[i + 1]@,
        ({
            let flag = args@[0].text@;
            &&& flag == "--config"@ && n == 2 ==> r@[0]@ == StepView::Config(args@[1].text@)
            &&& flag == "--config"@ && n == 1 ==> r@[0]@ is ConfigMissing
            &&& flag == "--save-config"@ ==> r@[0]@ is SaveConfig
            &&& flag != "--config"@ && flag != "--save-config"@ ==> {
                &&& n == 2 ==> r@[0]@ == (StepView::Apply {
                    flag,
                    value: Some(args@[1].text@),
                    number: args@[1].number,
                })
                &&& n == 1 ==> r@[0]@ == (StepView::Apply { flag, value: None, number: None })
            }
        }),
{
    reveal_strlit("--");
    reveal_strlit("--config");
    reveal_strlit("--save-config");
    assert("--config"@.len() == 8 && "--save-config"@.len() == 13);
    if args.len() > 1 {
        let next = args@[1].text@;
        if next.len() >= 2 {
            let start = next.subrange(0, 2);
            assert(start[0] == next[0] && start[1] == next[1]);
            if next[0] == '-' && next[1] == '-' {
                assert(start =~= "--"@);
            }
        }
        assert(text::begins_with(next, "--"@) <==> next.len() >= 2 && next[0] == '-' && next[1]
            == '-');
    }
    let (step, m) = first_step(args@);
    assert(m == n);
    assert(planned(args@) == seq![step] + planned(rest@));
    let (a, b) = (step_views(r@), step_views(later@));
    assert(a.len() == r.len() && b.len() == later.len());
    assert(a[0] == r@[0]@);
    assert forall|i: int| 0 <= i < later.len() implies (#[trigger] later@[i])@ == r@[i + 1]@ by {
        assert(b[i] == later@[i]@);
        assert(a[i + 1] == r@[i + 1]@);
    }
}

/// An empty command line asks for nothing.
pub proof fn law_empty_line_asks_nothing(args: Vec<Word>, r: Vec<Step>)
    requires
        call_ensures(plan, (&args,), r),
        args.len() == 0,
    ensures
        r.len() == 0,
{
    assert(step_views(r@).len() == r.len());
}

/// The settings file lies in a directory of its own: under the configuration directory
/// where there is one, else under that of the home directory, else here.
pub proof fn law_settings_have_their_place(
    config_home: Option<&str>,
    home: Option<&str>,
    r: Vec<String>,
)
    requires
        call_ensures(Settings::config_path, (config_home, home), r),
    ensures
        ({
            let n = r.len() as int;
            &&& config_home matches Some(base) ==> n == 3 && r@[0]@ == base@
            &&& config_home is None && home is Some ==> n == 4 && r@[0]@ == home->0@ && r@[1]@
                == ".config"@
            &&& config_home is None && home is None ==> n == 3 && r@[0]@ == "."@
            &&& r@[n - 2]@ == "neuromancer-tracker"@
            &&& r@[n - 1]@ == "settings.toml"@
        }),
{
    let v = r@.map_values(|s: String| s@);
    let n = r.len() as int;
    assert(v.len() == n);
    assert(v[0] == r@[0]@);
    assert(v[1] == r@[1]@);
    assert(v[n - 2] == r@[n - 2]@);
    assert(v[n - 1] == r@[n - 1]@);
}

/// The tracker starts with the settings of the file, and with those out of the box where
/// there is none or it cannot be understood, which alone is warned of.
pub proof fn law_file_gives_settings(
    path: &str,
    file: SettingsFile,
    r: (Settings, Option<String>),
    plain: Settings,
)
    requires
        call_ensures(Settings::load, (path, file), r),
        call_ensures(Settings::default, (), plain),
    ensures
        file matches SettingsFile::Parsed(s) ==> r.0 == s,
        !(file is Parsed) ==> r.0@ == plain@,
        r.1 is Some <==> file is Unreadable,
        file matches SettingsFile::Unreadable(reason) ==> r.1->0@ == "warning: settings file "@
            + path@ + " unreadable ("@ + reason@ + ") — using defaults"@,
{
}

/// A file that was asked for replaces the settings; one that is not there leaves them as
/// they are, and one that cannot be understood leaves those out of the box. Both are
/// warned of.
pub proof fn law_named_file_replaces_settings(
    s: &mut Settings,
    path: &str,
    file: SettingsFile,
    r: Option<String>,
    plain: Settings,
)
    requires
        call_ensures(Settings::load_config, (s, path, file), r),
        call_ensures(Settings::default, (), plain),
    ensures
        file matches SettingsFile::Parsed(p) ==> *final(s) == p && r is None,
        file is Missing ==> final(s)@ == old(s)@ && r is Some && r->0@ == "warning: config "@ + path@
            + " not found — using defaults"@,
        file matches SettingsFile::Unreadable(reason) ==> final(s)@ == plain@ && r is Some && r->0@
            == "warning: config "@ + path@ + " unreadable ("@ + reason@ + ") — using defaults"@,
{
}

/// The view of the settings shows each of them under its own name.
pub proof fn law_view_shows_settings(s: Settings)
    ensures
        s@.no_udp == s.no_udp && s@.host == s.host@ && s@.port == s.port && s@.rad == s.rad,
        s@.udp_rate == s.udp_rate && s@.hud_rate == s.hud_rate && s@.gyro_calib == s.gyro_calib,
        s@.kp == s.kp && s@.ki == s.ki && s@.show_cube == s.show_cube,
        s@.jitter_filter == s.jitter_filter && s@.jitter_alpha == s.jitter_alpha,
{
}

} // verus!
