use neuromancer::double::Double;
use neuromancer::imu_cli::parse_args;
use neuromancer::settings::{plan, Settings, SettingsFile, Step, Word};

fn read(text: &str) -> Option<Double> {
    text.parse::<f64>().ok().map(|v| Double::from_bits(v.to_bits()))
}

fn value(d: Double) -> f64 {
    f64::from_bits(d.to_bits())
}

fn apply(s: &mut Settings, flag: &str, value: Option<&str>) -> Result<bool, String> {
    s.apply_cli(flag, value, value.and_then(read))
}

fn words(args: &[&str]) -> Vec<Word> {
    args.iter().map(|a| Word { text: a.to_string(), number: read(a) }).collect()
}

#[test]
fn jitter_filter_cli_flags() {
    let mut s = Settings::default();
    assert!(apply(&mut s, "--jitter-filter", None).unwrap());
    assert!(s.jitter_filter);
    assert!((value(s.jitter_alpha) - 0.1).abs() < 1e-12);

    let mut s = Settings::default();
    assert!(apply(&mut s, "--jitter-filter", Some("0.3")).unwrap());
    assert!((value(s.jitter_alpha) - 0.3).abs() < 1e-12);

    let mut s = Settings::default();
    assert!(apply(&mut s, "--jitter-alpha", Some("0.05")).unwrap());
    assert!(s.jitter_filter);
    assert!((value(s.jitter_alpha) - 0.05).abs() < 1e-12);

    let mut s = Settings::default();
    assert!(apply(&mut s, "--jitter-alpha", Some("1.5")).is_err(), ">1 must error");
    assert!(apply(&mut s, "--jitter-alpha", Some("-1")).is_err(), "<0 must error");
}

#[test]
fn jitter_alpha_of_zero_turns_the_filter_off() {
    let mut s = Settings::default();
    assert!(apply(&mut s, "--jitter-filter", None).unwrap());
    assert!(apply(&mut s, "--jitter-alpha", Some("0")).unwrap());
    assert!(!s.jitter_filter);
    assert_eq!(
        apply(&mut s, "--jitter-alpha", Some("nan")),
        Err("--jitter-alpha must be in [0, 1]: nan".to_string())
    );
    assert_eq!(value(s.jitter_alpha), 0.0);
}

#[test]
fn udp_flags_turn_udp_on() {
    for (flag, v) in [("--host", "h"), ("--port", "9"), ("--udp-rate", "30")] {
        let mut s = Settings::default();
        assert!(apply(&mut s, "--no-udp", None).unwrap());
        assert!(s.no_udp);
        assert!(apply(&mut s, flag, Some(v)).unwrap());
        assert!(!s.no_udp, "{flag}");
    }
    let mut s = Settings::default();
    assert!(apply(&mut s, "--no-udp", None).unwrap());
    assert!(apply(&mut s, "--hud-rate", Some("5")).unwrap());
    assert!(s.no_udp);
    assert_eq!(value(s.hud_rate), 5.0);
}

#[test]
fn complaints_leave_the_settings_alone() {
    let mut s = Settings::default();
    assert!(apply(&mut s, "--no-udp", None).unwrap());
    assert_eq!(apply(&mut s, "--port", Some("x")), Err("invalid port: \"x\"".to_string()));
    assert_eq!(apply(&mut s, "--port", Some(" 1")), Err("invalid port: \" 1\"".to_string()));
    assert_eq!(apply(&mut s, "--host", None), Err("--host needs a value".to_string()));
    assert_eq!(apply(&mut s, "--kp", Some("x")), Err("invalid value for --kp: \"x\"".to_string()));
    assert_eq!(apply(&mut s, "--kp", Some("-2")), Err("--kp must be >= 0: -2".to_string()));
    assert_eq!(
        apply(&mut s, "--units", Some("mil")),
        Err("--units must be deg|rad, got \"mil\"".to_string())
    );
    assert_eq!(apply(&mut s, "--bogus", Some("1")), Ok(false));
    assert!(s.no_udp);
    assert_eq!(s.port, 4242);
    assert_eq!(value(s.kp), 1.0);
    assert!(!s.rad);
}

#[test]
fn every_number_has_its_field() {
    let mut s = Settings::default();
    for (flag, v) in
        [("--udp-rate", "1"), ("--hud-rate", "2.5"), ("--gyro-calib", "3"), ("--kp", "4"), ("--ki", "5")]
    {
        assert!(apply(&mut s, flag, Some(v)).unwrap());
    }
    assert!(apply(&mut s, "--units", Some("rad")).unwrap());
    assert!(apply(&mut s, "--host", Some("example")).unwrap());
    assert!(apply(&mut s, "--port", Some("0")).unwrap());
    assert_eq!(value(s.udp_rate), 1.0);
    assert_eq!(value(s.hud_rate), 2.5);
    assert_eq!(value(s.gyro_calib), 3.0);
    assert_eq!(value(s.kp), 4.0);
    assert_eq!(value(s.ki), 5.0);
    assert!(s.rad);
    assert_eq!(s.host, "example");
    assert_eq!(s.port, 0);
    assert!(apply(&mut s, "--units", Some("deg")).unwrap());
    assert!(!s.rad);
}

#[test]
fn plan_pairs_flags_with_values() {
    let steps = plan(&words(&["--no-udp", "--kp", "-1", "--config", "--x", "--save-config", "--ki"]));
    assert_eq!(steps.len(), 5);
    assert!(matches!(&steps[0], Step::Apply { flag, value: None, number: None } if flag == "--no-udp"));
    match &steps[1] {
        Step::Apply { flag, value: Some(v), number: Some(n) } => {
            assert_eq!(flag, "--kp");
            assert_eq!(v, "-1");
            assert_eq!(value(*n), -1.0);
        }
        other => panic!("{:?}", other),
    }
    assert!(matches!(&steps[2], Step::Config(p) if p == "--x"));
    assert!(matches!(&steps[3], Step::SaveConfig));
    assert!(matches!(&steps[4], Step::Apply { flag, value: None, .. } if flag == "--ki"));
    assert!(matches!(plan(&words(&["--config"]))[0], Step::ConfigMissing));
    assert!(plan(&words(&[])).is_empty());
}

#[test]
fn settings_path_has_fallbacks() {
    assert_eq!(
        Settings::config_path(Some("/x"), Some("/h")),
        ["/x", "neuromancer-tracker", "settings.toml"]
    );
    assert_eq!(
        Settings::config_path(None, Some("/h")),
        ["/h", ".config", "neuromancer-tracker", "settings.toml"]
    );
    assert_eq!(Settings::config_path(None, None), [".", "neuromancer-tracker", "settings.toml"]);
}

#[test]
fn settings_files() {
    let (s, w) = Settings::load("p", SettingsFile::Missing);
    assert_eq!(s.port, 4242);
    assert!(w.is_none());
    let (s, w) = Settings::load("p", SettingsFile::Unreadable("bad".to_string()));
    assert_eq!(s.host, "127.0.0.1");
    assert_eq!(w.unwrap(), "warning: settings file p unreadable (bad) — using defaults");
    let mut mine = Settings::default();
    mine.port = 7;
    let (s, w) = Settings::load("p", SettingsFile::Parsed(mine.clone()));
    assert_eq!(s.port, 7);
    assert!(w.is_none());

    let mut now = mine.clone();
    assert_eq!(
        now.load_config("q", SettingsFile::Missing).unwrap(),
        "warning: config q not found — using defaults"
    );
    assert_eq!(now.port, 7);
    assert_eq!(
        now.load_config("q", SettingsFile::Unreadable("bad".to_string())).unwrap(),
        "warning: config q unreadable (bad) — using defaults"
    );
    assert_eq!(now.port, 4242);
    assert!(now.load_config("q", SettingsFile::Parsed(mine)).is_none());
    assert_eq!(now.port, 7);
}

#[test]
fn inertial_command_line() {
    let c = parse_args(&words(&[
        "--no-udp", "--host", "--odd", "--port", "99", "--udp-rate", "10", "--hud-rate", "0",
        "--gyro-calib", "1.5", "--kp", "2", "--ki", "0.1", "--units", "rad",
    ]))
    .unwrap();
    assert!(c.no_udp);
    assert_eq!(c.host, "--odd");
    assert_eq!(c.port, 99);
    assert_eq!(value(c.udp_rate), 10.0);
    assert_eq!(value(c.hud_rate), 0.0);
    assert_eq!(value(c.gyro_calib), 1.5);
    assert_eq!(value(c.kp), 2.0);
    assert_eq!(value(c.ki), 0.1);
    assert!(c.rad);
    let d = parse_args(&words(&[])).unwrap();
    assert_eq!(d.host, "127.0.0.1");
    assert_eq!(value(d.ki), 0.005);
}

#[test]
fn inertial_command_line_complaints() {
    let complaint = |args: &[&str]| parse_args(&words(args)).err().unwrap();
    assert_eq!(complaint(&["--ki"]), "--ki needs a value");
    assert_eq!(complaint(&["--bogus"]), "unknown flag: --bogus");
    assert_eq!(complaint(&["--port", "-1"]), "invalid port: \"-1\"");
    assert_eq!(complaint(&["--kp", "-1"]), "--kp must be >= 0: -1");
    assert_eq!(complaint(&["--kp", "--ki"]), "invalid value for --kp: \"--ki\"");
    assert_eq!(complaint(&["--units", "x"]), "--units must be deg|rad, got \"x\"");
}
