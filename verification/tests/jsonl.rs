use neuromancer::double::Double;
use neuromancer::imu::{ImuError, Line, ReplaySource, Replayed};
use neuromancer::jsonl::{parse_imu_line, value_texts, write_imu, write_pose, ImuSample};

fn double(v: f64) -> Double {
    Double::from_bits(v.to_bits())
}

fn numbers(line: &str) -> Vec<Option<Double>> {
    value_texts(line).iter().map(|t| t.parse::<f64>().ok().map(double)).collect()
}

fn parse(line: &str) -> Result<Option<ImuSample>, String> {
    parse_imu_line(line, &numbers(line))
}

fn written(v: [f64; 7]) -> String {
    write_imu(&v.map(|x| format!("{:.6}", x)))
}

fn six(v: f64) -> String {
    format!("{:.6}", v)
}

#[test]
fn imu_roundtrip() {
    let s = ImuSample {
        t: double(1.5),
        ax: double(0.02),
        ay: double(-9.81),
        az: double(0.05),
        gx: double(0.001),
        gy: double(-0.002),
        gz: double(0.0005),
    };
    let line = written([1.5, 0.02, -9.81, 0.05, 0.001, -0.002, 0.0005]);
    assert!(line.starts_with("{\"t\":"));
    assert!(line.ends_with("}\n"));
    let parsed = parse(&line).unwrap().unwrap();
    assert_eq!(parsed, s);
}

#[test]
fn written_sample_line() {
    assert_eq!(
        written([1.5, 0.02, -9.81, 0.05, 0.001, -0.002, 0.0005]),
        "{\"t\": 1.500000, \"ax\": 0.020000, \"ay\": -9.810000, \"az\": 0.050000, \
         \"gx\": 0.001000, \"gy\": -0.002000, \"gz\": 0.000500}\n"
    );
}

#[test]
fn parse_skips_blank_and_tolerates_extra_keys() {
    assert!(parse("").unwrap().is_none());
    assert!(parse("  \n").unwrap().is_none());
    let line = r#"{"t": 1.0, "ax": 0.1, "ay": 0.2, "az": 0.3, "gx": 0.4, "gy": 0.5, "gz": 0.6, "extra": 99}"#;
    let s = parse(line).unwrap().unwrap();
    assert_eq!(s.gx, double(0.4));
}

#[test]
fn parse_rejects_malformed() {
    assert!(parse("not json").is_err());
    assert!(parse(r#"{"t": 1.0, "ax": nope}"#).is_err());
    assert!(parse(r#"{"t": 1.0}"#).is_err()); // missing fields
}

#[test]
fn complaints_about_lines() {
    assert_eq!(parse("not json").unwrap_err(), "line is not a JSON object");
    assert_eq!(parse("{").unwrap_err(), "line is not a JSON object");
    assert_eq!(parse("{}").unwrap_err(), "malformed key/value pair: \"\"");
    assert_eq!(
        parse(r#"{"t": 1.0, "ax": nope, 7}"#).unwrap_err(),
        "invalid number for \"ax\": \" nope\""
    );
    assert_eq!(parse(r#"{"t": 1, x, "ax": y}"#).unwrap_err(), "malformed key/value pair: \" x\"");
    assert_eq!(parse(r#"{"odd": z}"#).unwrap_err(), "invalid number for \"odd\": \" z\"");
    assert_eq!(
        parse(r#"{"gz": 1, "t": 1, "ay": 2, "ax": 3}"#).unwrap_err(),
        "missing field \"az\""
    );
}

#[test]
fn the_last_of_equal_keys_counts() {
    let line = r#" { t : 1, "ax": 2, 'ay': 0, "ay": 3, "az": 4, "gx": 5, "gy": 6, "gz": 7, "t": 8 } "#;
    // A key in single quotes is another key.
    let s = parse(line).unwrap().unwrap();
    assert_eq!(s.t, double(8.0));
    assert_eq!(s.ay, double(3.0));
}

#[test]
fn pose_roundtrip() {
    let line = write_pose(&six(12.5), &[six(0.21), six(-0.07), six(0.01)], None);
    assert!(line.contains("\"yaw\": 0.210000"));
    assert!(line.contains("\"roll\": 0.010000"));
    assert!(!line.contains("\"x\""));
}

#[test]
fn pose_log_includes_position() {
    let line = write_pose(
        &six(0.0),
        &[six(0.0), six(0.0), six(0.0)],
        Some(&[six(0.1), six(0.0), six(0.25)]),
    );
    assert!(line.contains("\"x\": 0.1000"), "got {line}");
    assert!(line.contains("\"z\": 0.2500"));
    assert!(line.ends_with("\"z\": 0.250000}\n"));
}

#[test]
fn pose_log_uses_wire_units() {
    let angles = [180.0f64, -90.0, 45.0].map(|v| six(v.to_radians()));
    let content = write_pose(&six(1.0), &angles, Some(&[six(0.0), six(0.0), six(0.0)]));
    assert!(content.contains("\"yaw\": 3.141593"), "got {content}");
    assert!(content.contains("\"roll\": 0.785398"));
}

fn text(line: &str) -> Line {
    Line::Text { line: line.to_string(), numbers: numbers(line) }
}

#[test]
fn replay_counts_lines_and_stays_at_the_end() {
    let mut r = ReplaySource::open("rec.jsonl");
    assert_eq!(r.name(), "replay(rec.jsonl)");
    let first = written([0.5, 0.0, 9.81, 0.0, 0.0, 0.0, 0.0]);
    match r.next_sample(&text(&first)) {
        Replayed::Sample { sample, previous } => {
            assert_eq!(sample.t, double(0.5));
            assert!(previous.is_none());
        }
        other => panic!("{:?}", other),
    }
    assert!(matches!(r.next_sample(&text("\n")), Replayed::Skip));
    match r.next_sample(&text(&written([0.75, 0.0, 9.81, 0.0, 0.0, 0.0, 0.0]))) {
        Replayed::Sample { previous, .. } => assert_eq!(previous, Some(double(0.5))),
        other => panic!("{:?}", other),
    }
    match r.next_sample(&text("junk")) {
        Replayed::Stop(e) => {
            assert_eq!(e.message(), "I/O error: rec.jsonl:4: line is not a JSON object")
        }
        other => panic!("{:?}", other),
    }
    match r.next_sample(&Line::Failed("gone".to_string())) {
        Replayed::Stop(e) => assert_eq!(e.message(), "I/O error: read rec.jsonl: gone"),
        other => panic!("{:?}", other),
    }
    assert!(matches!(r.next_sample(&Line::End), Replayed::Stop(ImuError::Eof)));
    assert!(matches!(r.next_sample(&text(&first)), Replayed::Stop(ImuError::Eof)));
}

#[test]
fn error_texts() {
    assert_eq!(ImuError::Eof.message(), "end of input");
    assert_eq!(ImuError::Unplugged("x".to_string()).message(), "device error: x");
    assert_eq!(ImuError::Io("y".to_string()).message(), "I/O error: y");
}

#[test]
fn values_that_are_not_finite_are_rejected() {
    let line = |v: &str| {
        format!(
            "{{\"t\": 1.0, \"ax\": {v}, \"ay\": 0.2, \"az\": 0.3, \"gx\": 0.4, \"gy\": 0.5, \"gz\": 0.6}}"
        )
    };
    for v in ["NaN", "inf", "-inf", "infinity", "1e999"] {
        let m = parse(&line(v)).unwrap_err();
        assert_eq!(m, format!("invalid number for \"ax\": \" {v}\""));
    }
    assert!(parse(&line("1e300")).unwrap().is_some());
    let extra = line("0.1").replace('}', ", \"temp\": NaN}");
    assert!(parse(&extra).unwrap_err().starts_with("invalid number for \"temp\""));
}

#[test]
fn log_replays_line_by_line() {
    let good = |t: f64| written([t, 0.0, 9.81, 0.0, 0.0, 0.0, 0.0]);
    let lines = [good(1.0), "  \n".to_string(), "bad\n".to_string(), good(2.0)];
    let mut s = ReplaySource::open("log");
    let mut got = Vec::new();
    for l in &lines {
        match s.next_sample(&Line::Text { line: l.clone(), numbers: numbers(l) }) {
            Replayed::Sample { sample, previous } => {
                got.push(format!("{} {}", f64::from_bits(sample.t.to_bits()), previous.is_some()));
            }
            Replayed::Skip => {}
            Replayed::Stop(e) => got.push(e.message()),
        }
    }
    assert_eq!(
        got,
        ["1 false", "I/O error: log:3: line is not a JSON object", "2 true"]
    );
    for _ in 0..2 {
        assert!(matches!(s.next_sample(&Line::End), Replayed::Stop(ImuError::Eof)));
    }
}
