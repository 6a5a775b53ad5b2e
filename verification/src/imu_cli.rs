//! The command line of the inertial-only tracker: flags with the next argument,
//! whatever it is, as their value.

use crate::cli;
use crate::double;
use crate::double::Double;
use crate::settings;
use crate::settings::{parse_nonneg, Word};
use crate::text;
use crate::text::{parse_u16, quoted, same};
use vstd::prelude::*;

verus! {

/// The configuration of the inertial-only tracker.
#[derive(Debug, Clone)]
pub struct Cli {
    pub no_udp: bool,
    pub host: String,
    pub port: u16,
    pub udp_rate: Double,
    pub hud_rate: Double,
    pub gyro_calib: Double,
    pub kp: Double,
    pub ki: Double,
    pub rad: bool,
}

/// What a [`Cli`] holds.
pub struct CliView {
    pub no_udp: bool,
    pub host: Seq<char>,
    pub port: u16,
    pub udp_rate: Double,
    pub hud_rate: Double,
    pub gyro_calib: Double,
    pub kp: Double,
    pub ki: Double,
    pub rad: bool,
}

impl View for Cli {
    type V = CliView;

    open spec fn view(&self) -> CliView {
        CliView {
            no_udp: self.no_udp,
            host: self.host@,
            port: self.port,
            udp_rate: self.udp_rate,
            hud_rate: self.hud_rate,
            gyro_calib: self.gyro_calib,
            kp: self.kp,
            ki: self.ki,
            rad: self.rad,
        }
    }
}

/// The configuration of a command line without arguments.
pub open spec fn default_cli() -> CliView {
    CliView {
        no_udp: false,
        host: "127.0.0.1"@,
        port: 4242,
        udp_rate: Double { bits: cli::SIXTY },
        hud_rate: Double { bits: cli::TWO },
        gyro_calib: Double { bits: cli::TWO },
        kp: Double::one(),
        ki: Double { bits: cli::FIVE_THOUSANDTHS },
        rad: false,
    }
}

impl Default for Cli {
    fn default() -> (r: Self)
        ensures
            r@ == default_cli(),
    {
        Cli {
            no_udp: false,
            host: "127.0.0.1".to_owned(),
            port: 4242,
            udp_rate: Double { bits: cli::SIXTY },
            hud_rate: Double { bits: cli::TWO },
            gyro_calib: Double { bits: cli::TWO },
            kp: Double { bits: double::ONE },
            ki: Double { bits: cli::FIVE_THOUSANDTHS },
            rad: false,
        }
    }
}

/// The flags that take a value.
pub open spec fn takes_value(flag: Seq<char>) -> bool {
    flag == "--host"@ || flag == "--port"@ || flag == "--units"@ || settings::is_rate_or_gain(flag)
}

/// `c` with the value `word` of `flag` put in.
pub open spec fn set(c: CliView, flag: Seq<char>, word: Word) -> Result<CliView, Seq<char>> {
    let raw = word.text@;
    if flag == "--host"@ {
        Ok(CliView { host: raw, ..c })
    } else if flag == "--port"@ {
        match text::u16_named(raw) {
            Some(port) => Ok(CliView { port, ..c }),
            None => Err("invalid port: "@ + text::debug_text(raw)),
        }
    } else if flag == "--units"@ {
        if raw == "deg"@ {
            Ok(CliView { rad: false, ..c })
        } else if raw == "rad"@ {
            Ok(CliView { rad: true, ..c })
        } else {
            Err("--units must be deg|rad, got "@ + text::debug_text(raw))
        }
    } else {
        match settings::nonnegative_setting(flag, raw, word.number) {
            Err(m) => Err(m),
            Ok(v) => if flag == "--udp-rate"@ {
                Ok(CliView { udp_rate: v, ..c })
            } else if flag == "--hud-rate"@ {
                Ok(CliView { hud_rate: v, ..c })
            } else if flag == "--gyro-calib"@ {
                Ok(CliView { gyro_calib: v, ..c })
            } else if flag == "--kp"@ {
                Ok(CliView { kp: v, ..c })
            } else {
                Ok(CliView { ki: v, ..c })
            },
        }
    }
}

/// What the arguments make of the configuration `c`.
pub open spec fn parsed(args: Seq<Word>, c: CliView) -> Result<CliView, Seq<char>>
    decreases args.len(),
{
    if args.len() == 0 {
        Ok(c)
    } else {
        let flag = args[0].text@;
        if flag == "--no-udp"@ {
            parsed(args.subrange(1, args.len() as int), CliView { no_udp: true, ..c })
        } else if !takes_value(flag) {
            Err("unknown flag: "@ + flag)
        } else if args.len() == 1 {
            Err(flag + " needs a value"@)
        } else {
            match set(c, flag, args[1]) {
                Ok(next) => parsed(args.subrange(2, args.len() as int), next),
                Err(m) => Err(m),
            }
        }
    }
}

fn set_value(c: &mut Cli, flag: &str, word: &Word) -> (r: Result<(), String>)
    requires
        takes_value(flag@),
    ensures
        match (r, set(old(c)@, flag@, *word)) {
            (Ok(_), Ok(next)) => final(c)@ == next,
            (Err(m), Err(n)) => m@ == n,
            _ => false,
        },
{
    let raw = word.text.as_str();
    if same(flag, "--host") {
        c.host = raw.to_owned();
    } else if same(flag, "--port") {
        match parse_u16(raw) {
            Some(port) => {
                c.port = port;
            },
            None => {
                let mut m = "invalid port: ".to_owned();
                m.append(quoted(raw).as_str());
                return Err(m);
            },
        }
    } else if same(flag, "--units") {
        if same(raw, "deg") {
            c.rad = false;
        } else if same(raw, "rad") {
            c.rad = true;
        } else {
            let mut m = "--units must be deg|rad, got ".to_owned();
            m.append(quoted(raw).as_str());
            return Err(m);
        }
    } else {
        match parse_nonneg(raw, word.number, flag) {
            Err(m) => {
                return Err(m);
            },
            Ok(v) => {
                if same(flag, "--udp-rate") {
                    c.udp_rate = v;
                } else if same(flag, "--hud-rate") {
                    c.hud_rate = v;
                } else if same(flag, "--gyro-calib") {
                    c.gyro_calib = v;
                } else if same(flag, "--kp") {
                    c.kp = v;
                } else {
                    c.ki = v;
                }
            },
        }
    }
    Ok(())
}

/// Parses the arguments (without the program's name).
pub fn parse_args(args: &Vec<Word>) -> (r: Result<Cli, String>)
    ensures
        match (r, parsed(args@, default_cli())) {
            (Ok(c), Ok(v)) => c@ == v,
            (Err(m), Err(n)) => m@ == n,
            _ => false,
        },
{
    let mut c = Cli::default();
    let mut i: usize = 0;
    assert(args@.subrange(0, args.len() as int) =~= args@);
    while i < args.len()
        invariant
            i <= args.len(),
            parsed(args@.subrange(i as int, args.len() as int), c@) == parsed(
                args@,
                default_cli(),
            ),
        decreases args.len() - i,
    {
        let ghost rest = args@.subrange(i as int, args.len() as int);
        let flag = args[i].text.as_str();
        assert(rest[0] == args@[i as int]);
        if same(flag, "--no-udp") {
            c.no_udp = true;
            assert(rest.subrange(1, rest.len() as int) =~= args@.subrange(
                i + 1,
                args.len() as int,
            ));
            i += 1;
        } else if !(same(flag, "--host") || same(flag, "--port") || same(flag, "--units") || same(
            flag,
            "--udp-rate",
        ) || same(flag, "--hud-rate") || same(flag, "--gyro-calib") || same(flag, "--kp") || same(
            flag,
            "--ki",
        )) {
            let mut m = "unknown flag: ".to_owned();
            m.append(flag);
            return Err(m);
        } else if i + 1 >= args.len() {
            let mut m = flag.to_owned();
            m.append(" needs a value");
            return Err(m);
        } else {
            assert(rest[1] == args@[i + 1]);
            if let Err(m) = set_value(&mut c, flag, &args[i + 1]) {
                return Err(m);
            }
            assert(rest.subrange(2, rest.len() as int) =~= args@.subrange(
                i + 2,
                args.len() as int,
            ));
            i += 2;
        }
    }
    assert(args@.subrange(i as int, args.len() as int) =~= Seq::empty());
    Ok(c)
}

/// No rate, window or gain that is accepted is below zero.
pub open spec fn in_bounds(c: CliView) -> bool {
    &&& !c.udp_rate.less(Double::zero())
    &&& !c.hud_rate.less(Double::zero())
    &&& !c.gyro_calib.less(Double::zero())
    &&& !c.kp.less(Double::zero())
    &&& !c.ki.less(Double::zero())
}

/// Whatever the arguments are, what is accepted is within its bounds.
pub proof fn law_accepted_in_bounds(args: Seq<Word>, c: CliView)
    requires
        in_bounds(c),
    ensures
        parsed(args, c) matches Ok(d) ==> in_bounds(d),
    decreases args.len(),
{
    if args.len() > 0 {
        let flag = args[0].text@;
        if flag == "--no-udp"@ {
            law_accepted_in_bounds(
                args.subrange(1, args.len() as int),
                CliView { no_udp: true, ..c },
            );
        } else if args.len() > 1 {
            if let Ok(next) = set(c, flag, args[1]) {
                law_accepted_in_bounds(args.subrange(2, args.len() as int), next);
            }
        }
    }
}

proof fn lemma_parsed_goes_on(args: Seq<Word>, tail: Seq<Word>, c: CliView)
    requires
        parsed(args, c) is Ok,
    ensures
        parsed(args + tail, c) == parsed(tail, parsed(args, c)->Ok_0),
    decreases args.len(),
{
    let all = args + tail;
    if args.len() == 0 {
        assert(all =~= tail);
    } else {
        let flag = args[0].text@;
        assert(all[0] == args[0]);
        if flag == "--no-udp"@ {
            let rest = args.subrange(1, args.len() as int);
            assert(all.subrange(1, all.len() as int) =~= rest + tail);
            lemma_parsed_goes_on(rest, tail, CliView { no_udp: true, ..c });
        } else {
            let rest = args.subrange(2, args.len() as int);
            assert(all[1] == args[1]);
            assert(all.subrange(2, all.len() as int) =~= rest + tail);
            lemma_parsed_goes_on(rest, tail, set(c, flag, args[1])->Ok_0);
        }
    }
}

/// Without arguments: UDP to port 4242 of this machine sixty times a second, the readout
/// twice a second, two seconds of calibration, and degrees.
pub proof fn law_no_arguments_mean_defaults(args: Vec<Word>, r: Result<Cli, String>, plain: Cli)
    requires
        args.len() == 0,
        call_ensures(parse_args, (&args,), r),
        call_ensures(Cli::default, (), plain),
    ensures
        r is Ok,
        r->Ok_0@ == plain@,
        ({
            let c = r->Ok_0;
            &&& !c.no_udp && c.host@ == "127.0.0.1"@ && c.port == 4242 && !c.rad
            &&& c.udp_rate.bits == 0x404e_0000_0000_0000
            &&& c.hud_rate.bits == 0x4000_0000_0000_0000
            &&& c.gyro_calib.bits == 0x4000_0000_0000_0000
            &&& c.kp.bits == 0x3ff0_0000_0000_0000
            &&& c.ki.bits == 0x3f74_7ae1_47ae_147b
        }),
{
    assert(r->Ok_0@ == default_cli());
    assert(r->Ok_0@.host == r->Ok_0.host@);
}

/// A flag with its value behind other arguments puts the value into its own setting, and
/// changes no other; what is no value for it is complained about.
pub proof fn law_flag_behind_others_sets_its_own(
    args: Vec<Word>,
    c: Cli,
    more: Vec<Word>,
    flag: Word,
    value: Word,
    r: Result<Cli, String>,
)
    requires
        call_ensures(parse_args, (&args,), Ok::<Cli, String>(c)),
        more@ == args@.push(flag).push(value),
        call_ensures(parse_args, (&more,), r),
        flag.text@ != "--no-udp"@,
    ensures
        ({
            let (f, raw) = (flag.text@, value.text@);
            let gain = f == "--udp-rate"@ || f == "--hud-rate"@ || f == "--gyro-calib"@ || f
                == "--kp"@ || f == "--ki"@;
            &&& r is Ok ==> {
                let d = r->Ok_0;
                &&& f == "--host"@ || gain || f == "--port"@ || f == "--units"@
                &&& d.host@ == if f == "--host"@ {
                    raw
                } else {
                    c.host@
                }
                &&& f == "--port"@ ==> Some(d.port) == text::u16_named(raw)
                &&& f != "--port"@ ==> d.port == c.port
                &&& f == "--units"@ ==> (d.rad <==> raw == "rad"@) && (!d.rad <==> raw == "deg"@)
                &&& f != "--units"@ ==> d.rad == c.rad
                &&& f == "--udp-rate"@ ==> Some(d.udp_rate) == value.number
                &&& f != "--udp-rate"@ ==> d.udp_rate == c.udp_rate
                &&& f == "--hud-rate"@ ==> Some(d.hud_rate) == value.number
                &&& f != "--hud-rate"@ ==> d.hud_rate == c.hud_rate
                &&& f == "--gyro-calib"@ ==> Some(d.gyro_calib) == value.number
                &&& f != "--gyro-calib"@ ==> d.gyro_calib == c.gyro_calib
                &&& f == "--kp"@ ==> Some(d.kp) == value.number
                &&& f != "--kp"@ ==> d.kp == c.kp
                &&& f == "--ki"@ ==> Some(d.ki) == value.number
                &&& f != "--ki"@ ==> d.ki == c.ki
                &&& d.no_udp == c.no_udp
            }
            &&& f == "--host"@ ==> r is Ok
            &&& f == "--port"@ ==> (r is Ok <==> text::u16_named(raw) is Some)
            &&& f == "--port"@ && r is Err ==> r->Err_0@ == "invalid port: "@ + text::debug_text(raw)
            &&& f == "--units"@ ==> (r is Ok <==> raw == "deg"@ || raw == "rad"@)
            &&& f == "--units"@ && r is Err ==> r->Err_0@ == "--units must be deg|rad, got "@
                + text::debug_text(raw)
            &&& gain && value.number is None ==> r is Err && r->Err_0@ == "invalid value for "@ + f
                + ": "@ + text::debug_text(raw)
            &&& gain && value.number is Some ==> {
                let v = value.number->0;
                &&& r is Err <==> !v.nan() && v.units() < 0
                &&& r is Err ==> r->Err_0@ == f + " must be >= 0: "@ + raw
            }
            &&& !gain && f != "--host"@ && f != "--port"@ && f != "--units"@ ==> r is Err
                && r->Err_0@ == "unknown flag: "@ + f
        }),
{
    let tail = seq![flag, value];
    assert(more@ =~= args@ + tail);
    lemma_parsed_goes_on(args@, tail, default_cli());
    assert(parsed(args@, default_cli()) == Ok::<CliView, Seq<char>>(c@));
    settings::lemma_flags_differ();
    reveal_strlit("deg");
    reveal_strlit("rad");
    assert("deg"@[0] == 'd' && "rad"@[0] == 'r');
    double::lemma_magnitude_units_order(0, 0);
    assert(tail.subrange(2, 2) =~= Seq::empty());
    reveal_with_fuel(parsed, 3);
    if r is Ok {
        let d = r->Ok_0;
        assert(d@.host == d.host@ && c@.host == c.host@);
        assert(d@ == set(c@, flag.text@, value)->Ok_0);
    }
}

/// The switch behind other arguments turns the UDP output off, and changes nothing else;
/// a flag that lacks its value, and one that is not known, are complained about.
pub proof fn law_last_argument_counts(
    args: Vec<Word>,
    c: Cli,
    more: Vec<Word>,
    last: Word,
    r: Result<Cli, String>,
)
    requires
        call_ensures(parse_args, (&args,), Ok::<Cli, String>(c)),
        more@ == args@.push(last),
        call_ensures(parse_args, (&more,), r),
    ensures
        ({
            let f = last.text@;
            let valued = f == "--host"@ || f == "--port"@ || f == "--units"@ || f == "--udp-rate"@ || f
                == "--hud-rate"@ || f == "--gyro-calib"@ || f == "--kp"@ || f == "--ki"@;
            &&& r is Ok <==> f == "--no-udp"@
            &&& r is Ok ==> r->Ok_0.no_udp && r->Ok_0@ == (CliView { no_udp: true, ..c@ })
            &&& valued ==> r->Err_0@ == f + " needs a value"@
            &&& !valued && f != "--no-udp"@ ==> r->Err_0@ == "unknown flag: "@ + f
        }),
{
    let tail = seq![last];
    assert(more@ =~= args@ + tail);
    lemma_parsed_goes_on(args@, tail, default_cli());
    assert(parsed(args@, default_cli()) == Ok::<CliView, Seq<char>>(c@));
    settings::lemma_flags_differ();
    assert(tail.subrange(1, 1) =~= Seq::empty());
    reveal_with_fuel(parsed, 3);
    if r is Ok {
        assert(r->Ok_0@.no_udp == r->Ok_0.no_udp);
    }
}

/// The view of the configuration shows each setting under its own name.
pub proof fn law_view_shows_settings(c: Cli)
    ensures
        c@.no_udp == c.no_udp && c@.host == c.host@ && c@.port == c.port && c@.rad == c.rad,
        c@.udp_rate == c.udp_rate && c@.hud_rate == c.hud_rate,
        c@.gyro_calib == c.gyro_calib && c@.kp == c.kp && c@.ki == c.ki,
{
}

} // verus!
