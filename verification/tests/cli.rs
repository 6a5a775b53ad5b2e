use neuromancer::cli::{
    parse, startup_line, usage, Arg, Config, Input, ParseOutcome, Protocol, Units,
};
use neuromancer::double::Double;
use neuromancer::log::Level;

fn read(text: &str) -> Option<Double> {
    text.trim().parse::<f64>().ok().map(|v| Double::from_bits(v.to_bits()))
}

fn arg(text: &str) -> Arg {
    Arg {
        text: text.to_string(),
        whole: read(text),
        inline: text.split_once('=').and_then(|(_, v)| read(v)),
    }
}

fn run(args: &[&str]) -> Result<ParseOutcome, String> {
    parse(args.iter().map(|s| arg(s)).collect())
}

fn config(args: &[&str]) -> Config {
    match run(args) {
        Ok(ParseOutcome::Run(c)) => c,
        Ok(_) => panic!("expected config"),
        Err(m) => panic!("{}", m),
    }
}

fn complaint(args: &[&str]) -> String {
    match run(args) {
        Ok(_) => panic!("expected a complaint"),
        Err(m) => m,
    }
}

fn value(d: Double) -> f64 {
    f64::from_bits(d.to_bits())
}

#[test]
fn defaults() {
    let c = config(&[]);
    assert_eq!(c.host, "127.0.0.1");
    assert_eq!(c.port, 4242);
    assert!(!c.no_udp);
    assert!(!c.hud);
    assert_eq!(value(c.hud_rate), 2.0);
    assert_eq!(value(c.kp), 1.0);
    assert_eq!(value(c.ki), 0.005);
    assert_eq!(value(c.sensitivity), 1.0);
    assert_eq!(c.protocol, Protocol::Classic);
    assert_eq!(value(c.udp_rate), 60.0);
    assert_eq!(c.units, Units::Deg);
    assert!(c.replay.is_none());
}

#[test]
fn defaults_of_the_documented_switches() {
    let c = config(&[]);
    assert_eq!(c.log_level, Level::Error);
    assert_eq!(value(c.gyro_calib), 2.0);
    assert_eq!(c.input, Input::Imu);
    assert!(c.replay_visual.is_none() && c.record_visual.is_none());
}

#[test]
fn full_flag_set() {
    let c = config(&[
        "--host", "192.168.0.10", "--port", "5555", "--protocol=extended", "--udp-rate", "90",
        "--units", "rad", "--hud", "--hud-rate", "4", "--kp", "0.5", "--ki", "0.01",
        "--invert-yaw", "--invert-roll", "--sensitivity", "1.5", "--log-imu", "/tmp/i.jsonl",
        "--log-pose", "/tmp/p.jsonl", "--replay", "/tmp/r.jsonl", "--no-udp",
    ]);
    assert_eq!(c.host, "192.168.0.10");
    assert_eq!(c.port, 5555);
    assert_eq!(c.protocol, Protocol::Extended);
    assert_eq!(value(c.udp_rate), 90.0);
    assert_eq!(c.units, Units::Rad);
    assert!(c.hud);
    assert_eq!(value(c.hud_rate), 4.0);
    assert_eq!(value(c.kp), 0.5);
    assert_eq!(value(c.ki), 0.01);
    assert!(c.invert_yaw);
    assert!(!c.invert_pitch);
    assert!(c.invert_roll);
    assert_eq!(value(c.sensitivity), 1.5);
    assert_eq!(c.log_imu.as_deref(), Some("/tmp/i.jsonl"));
    assert_eq!(c.log_pose.as_deref(), Some("/tmp/p.jsonl"));
    assert!(c.replay.is_some());
    assert!(c.no_udp);
}

#[test]
fn documented_switches() {
    let c = config(&[
        "--log-level", "Warning", "--gyro-calib=0", "--input", "visual", "--replay-visual", "in",
        "--record-visual", "out",
    ]);
    assert_eq!(c.log_level, Level::Warn);
    assert_eq!(value(c.gyro_calib), 0.0);
    assert_eq!(c.input, Input::Visual);
    assert_eq!(c.replay_visual.as_deref(), Some("in"));
    assert_eq!(c.record_visual.as_deref(), Some("out"));
    assert!(run(&["--log-level", "loud"]).is_err());
    assert!(run(&["--gyro-calib=-1"]).is_err());
    assert!(run(&["--input", "radar"]).is_err());
}

#[test]
fn help_and_version() {
    assert!(matches!(run(&["--help"]), Ok(ParseOutcome::Help)));
    assert!(matches!(run(&["-h"]), Ok(ParseOutcome::Help)));
    assert!(matches!(run(&["--version"]), Ok(ParseOutcome::Version)));
}

#[test]
fn help_comes_before_what_follows_it() {
    assert!(matches!(run(&["-V"]), Ok(ParseOutcome::Version)));
    assert!(matches!(run(&["--help=1", "--bogus"]), Ok(ParseOutcome::Help)));
    assert!(run(&["--bogus", "--help"]).is_err());
}

#[test]
fn rejects_inline_value_on_value_less_flags() {
    for f in ["--hud", "--no-udp", "--invert-yaw", "--invert-pitch", "--invert-roll"] {
        assert!(run(&[&format!("{f}=1")]).is_err(), "{f}=1 must error");
    }
    // The parked inline value must never be stolen by the next flag.
    assert!(run(&["--hud=1", "--host", "x"]).is_err());
    assert_eq!(complaint(&["--hud=1", "--host", "x"]), "option --hud takes no value");
}

#[test]
fn rejects_flag_as_value() {
    assert!(run(&["--host", "--hud"]).is_err());
    assert!(run(&["--port", "--no-udp"]).is_err());
    assert!(run(&["--kp", "--invert-roll"]).is_err());
    assert_eq!(complaint(&["--host", "--hud"]), "option --host requires a value (got \"--hud\")");
}

#[test]
fn rejects_unknown_flag() {
    assert!(run(&["--bogus"]).is_err());
    assert_eq!(complaint(&["--bogus"]), "unknown option: --bogus");
    assert_eq!(complaint(&["--bogus=3"]), "unknown option: --bogus");
}

#[test]
fn rejects_bad_values() {
    assert!(run(&["--port", "0"]).is_err());
    assert!(run(&["--port", "70000"]).is_err());
    assert!(run(&["--port", "abc"]).is_err());
    assert!(run(&["--udp-rate", "0"]).is_err());
    assert!(run(&["--udp-rate", "-5"]).is_err());
    assert!(run(&["--hud-rate", "0"]).is_err());
    assert!(run(&["--kp", "-1"]).is_err());
    assert!(run(&["--ki", "nan"]).is_err());
    assert!(run(&["--protocol", "bogus"]).is_err());
    assert!(run(&["--units", "bogus"]).is_err());
    assert!(run(&["--host"]).is_err()); // missing value
}

#[test]
fn complaints_about_values() {
    assert_eq!(complaint(&["--host"]), "option --host requires a value");
    assert_eq!(complaint(&["--port", "0"]), "invalid value for --port: must be 1-65535");
    assert_eq!(complaint(&["--port", "70000"]), "invalid value for --port: \"70000\" (1-65535)");
    assert_eq!(complaint(&["--kp", "x\n"]), "invalid value for --kp: \"x\\n\"");
    assert_eq!(complaint(&["--kp=inf"]), "invalid value for --kp: \"inf\" (must be finite)");
    assert_eq!(complaint(&["--kp=-1"]), "invalid value for --kp: \"-1\" (must be ≥ 0)");
    assert_eq!(complaint(&["--udp-rate=0"]), "invalid value for --udp-rate: \"0\" (must be > 0)");
    assert_eq!(
        complaint(&["--protocol", " BOGUS"]),
        "invalid value for --protocol: \"bogus\" (classic|extended)"
    );
    assert_eq!(complaint(&["--units=x"]), "invalid value for --units: \"x\" (deg|rad)");
}

#[test]
fn ports_with_sign_and_zeros() {
    assert_eq!(config(&["--port", " +00080 "]).port, 80);
    assert_eq!(config(&["--port", "65535"]).port, 65535);
    assert!(run(&["--port", "65536"]).is_err());
    assert!(run(&["--port", "+"]).is_err());
    assert!(run(&["--port", "٣"]).is_err());
}

#[test]
fn negative_zero_is_a_gain_but_no_rate() {
    assert_eq!(config(&["--kp=-0.0"]).kp.to_bits(), (-0.0f64).to_bits());
    assert!(run(&["--hud-rate=-0.0"]).is_err());
    assert!(run(&["--hud-rate=1e-320"]).is_ok());
}

#[test]
fn inline_and_separate_values_agree() {
    let a = config(&["--kp=0.25", "--host=h", "--port=7"]);
    let b = config(&["--kp", "0.25", "--host", "h", "--port", "7"]);
    assert_eq!(a.kp, b.kp);
    assert_eq!(a.host, b.host);
    assert_eq!(a.port, b.port);
    // The rest of a value may hold the separator.
    assert_eq!(config(&["--host=a=b"]).host, "a=b");
    assert_eq!(config(&["--host", "a=b"]).host, "a=b");
    assert!(run(&["--kp", "x=1"]).is_err());
}

#[test]
fn protocol_aliases() {
    for alias in ["classic", "6x64", "6xf64", "CLASSIC"] {
        assert_eq!(config(&["--protocol", alias]).protocol, Protocol::Classic);
    }
    for alias in ["extended", "10d", "10-double", "10xf64"] {
        assert_eq!(config(&["--protocol", alias]).protocol, Protocol::Extended);
    }
}

#[test]
fn integration_cli_parse_integration() {
    let c = config(&["--hud", "--protocol=extended", "--units", "rad"]);
    assert!(c.hud);
    assert_eq!(c.protocol, Protocol::Extended);
    assert_eq!(c.units, Units::Rad);
}

#[test]
fn usage_names_the_switches() {
    let text = usage();
    assert!(text.starts_with("neuromancer-tracker"));
    for flag in ["--host", "--units", "--log-level", "--gyro-calib", "--input", "--help"] {
        assert!(text.contains(flag), "{flag}");
    }
}

#[test]
fn usage_lists_the_accepted_options_and_no_other() {
    let text = usage();
    let listed: Vec<&str> =
        text.split_whitespace().filter(|w| w.starts_with("--")).collect();
    assert_eq!(listed.len(), 24);
    for name in &listed {
        // An option that is known can lack its value, but is never called unknown.
        if let Err(m) = run(&[name]) {
            assert!(!m.starts_with("unknown option"), "{name}: {m}");
        }
    }
    for name in [
        "--host", "--port", "--no-udp", "--protocol", "--udp-rate", "--units", "--hud",
        "--hud-rate", "--kp", "--ki", "--invert-yaw", "--invert-pitch", "--invert-roll",
        "--sensitivity", "--log-imu", "--log-pose", "--replay", "--version", "--help",
    ] {
        assert!(listed.contains(&name), "{name}");
    }
    assert!(text.starts_with("neuromancer-tracker — Nreal Light head tracker"));
    assert!(text.contains("\n    --host <IP>          Opentrack host (default 127.0.0.1)\n"));
    assert!(text.ends_with("\n    --help               Print help and exit\n"));
}

#[test]
fn inline_values_agree_anywhere() {
    let joined = config(&["--hud", "--kp=2", "--ki", "0.5"]);
    let apart = config(&["--hud", "--kp", "2", "--ki", "0.5"]);
    assert_eq!((joined.hud, joined.kp, joined.ki), (apart.hud, apart.kp, apart.ki));
    assert!(run(&["--host", "--kp=2"]).is_err());
    assert!(run(&["--host", "--kp", "2"]).is_err());
}

#[test]
fn startup_line_names_the_settings() {
    assert_eq!(
        startup_line(&config(&[]), "Nreal Light", "1", "0.005", "60", "2"),
        "device=Nreal Light kp=1 ki=0.005 out=127.0.0.1:4242 protocol=classic units=deg \
udp_rate=60Hz hud=off calib=2s input=imu"
    );
    let args = ["--no-udp", "--hud", "--units=rad", "--protocol=extended", "--input=visual"];
    assert_eq!(
        startup_line(&config(&args), "replay(x)", "1", "0", "5", "0"),
        "device=replay(x) kp=1 ki=0 out=disabled protocol=extended units=rad \
udp_rate=5Hz hud=on calib=0s input=visual"
    );
}
