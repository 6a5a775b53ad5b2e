use neuromancer::cli::{Protocol, Units};
use neuromancer::double::Double;
use neuromancer::log::Level;
use neuromancer::output::{
    payload, wire_value, ByteOrder, Frame, HudSink, LogSink, RateGate, UdpReports,
};
use neuromancer::tracker;
use std::time::Duration;

fn double(v: f64) -> Double {
    Double::from_bits(v.to_bits())
}

fn doubles(v: [f64; 3]) -> [Double; 3] {
    v.map(double)
}

fn interval(hz: f64) -> u128 {
    Duration::from_secs_f64(1.0 / hz.max(1e-9)).as_nanos()
}

fn native() -> ByteOrder {
    if 1u16.to_ne_bytes()[0] == 1 {
        ByteOrder::Little
    } else {
        ByteOrder::Big
    }
}

fn wire(v: f64, units: Units) -> Double {
    wire_value(double(v), double(v.to_radians()), units)
}

fn datagram(frame: &Frame, protocol: Protocol, units: Units) -> ([u8; 80], usize) {
    let cm = frame.position.map(|p| double(f64::from_bits(p.to_bits()) * 100.0));
    let angles = frame.ypr_deg.map(|a| wire(f64::from_bits(a.to_bits()), units));
    payload(&cm, &angles, protocol, native())
}

/// Read an n-double native-endian payload from a byte slice.
fn read_f64s(buf: &[u8]) -> Vec<f64> {
    buf.chunks_exact(8).map(|c| f64::from_ne_bytes(c.try_into().unwrap())).collect()
}

fn frame(yaw: f64, pitch: f64, roll: f64) -> Frame {
    Frame::new_3dof(double(1.0), doubles([yaw, pitch, roll]))
}

fn write(hud: &mut HudSink, now: u128, frame: &Frame) -> Option<String> {
    let angles = frame.ypr_deg.map(|a| format!("{:.1}", f64::from_bits(a.to_bits())));
    let position = frame.position.map(|p| format!("{:.2}", f64::from_bits(p.to_bits())));
    hud.write(now, frame, &angles, &position)
}

#[test]
fn rate_gate_decimates() {
    let mut g = RateGate::new(interval(4.0)); // 250 ms interval
    let t0: u128 = 12_345_678;
    assert!(g.due(t0));
    assert!(!g.due(t0 + Duration::from_millis(100).as_nanos()));
    assert!(g.due(t0 + Duration::from_millis(250).as_nanos()));
    assert!(!g.due(t0 + Duration::from_millis(300).as_nanos()));
    assert!(g.due(t0 + Duration::from_millis(500).as_nanos()));
}

#[test]
fn gate_of_sixty_hertz_lets_every_fourth_sample_through() {
    let mut g = RateGate::new(interval(60.0));
    let passed: Vec<u32> =
        (0..200u32).filter(|i| g.due(*i as u128 * 5_000_000)).collect();
    assert_eq!(passed.len(), 50);
    assert_eq!(passed[..4], [0, 4, 8, 12]);
}

#[test]
fn gate_stays_shut_when_time_goes_back() {
    let mut g = RateGate::new(10);
    assert!(g.due(100));
    assert!(!g.due(50));
    assert!(g.due(110));
    let mut always = RateGate::new(0);
    assert!(always.due(100));
    assert!(always.due(50));
}

#[test]
fn gate_with_next_opening() {
    let mut g = tracker::RateGate::new(10, 100);
    assert!(!g.allow(99));
    assert!(g.allow(105));
    assert!(!g.allow(114));
    assert!(g.allow(115));
}

#[test]
fn udp_classic_payload_bytes() {
    let (buf, len) = datagram(&frame(30.0, -10.0, 5.0), Protocol::Classic, Units::Deg);
    assert_eq!(len, 48);
    let vals = read_f64s(&buf[..len]);
    assert_eq!(vals.len(), 6);
    assert_eq!(vals[0..3], [0.0, 0.0, 0.0]); // 3-DoF: translation fixed at 0
    assert_eq!(vals[3], 30.0);
    assert_eq!(vals[4], -10.0);
    assert_eq!(vals[5], 5.0);
    assert!(buf[48..].iter().all(|b| *b == 0));
}

#[test]
fn udp_extended_payload_bytes_and_radians() {
    let (buf, len) = datagram(&frame(180.0, 0.0, 0.0), Protocol::Extended, Units::Rad);
    assert_eq!(len, 80);
    let vals = read_f64s(&buf[..len]);
    assert_eq!(vals.len(), 10);
    assert!((vals[3] - std::f64::consts::PI).abs() < 1e-9);
    assert_eq!(vals[6], 1.0); // pose-valid/confidence default
    assert_eq!(vals[7..10], [0.0, 0.0, 0.0]); // reserved
}

#[test]
fn udp_position_is_centimeters() {
    let f = Frame {
        t: double(0.0),
        ypr_deg: doubles([0.0; 3]),
        position: doubles([0.1, 0.0, 0.25]),
    };
    let (buf, len) = datagram(&f, Protocol::Classic, Units::Deg);
    let vals = read_f64s(&buf[..len]);
    assert_eq!(vals[0], 10.0);
    assert_eq!(vals[1], 0.0);
    assert_eq!(vals[2], 25.0);
}

#[test]
fn bytes_in_both_orders() {
    let v = [Double::from_bits(0x0102_0304_0506_0708), double(0.0), double(0.0)];
    let a = doubles([1.0, 2.0, -3.5]);
    let (little, n) = payload(&v, &a, Protocol::Classic, ByteOrder::Little);
    assert_eq!(n, 48);
    assert_eq!(little[..8], [8, 7, 6, 5, 4, 3, 2, 1]);
    let (big, _) = payload(&v, &a, Protocol::Classic, ByteOrder::Big);
    assert_eq!(big[..8], [1, 2, 3, 4, 5, 6, 7, 8]);
    assert_eq!(f64::from_le_bytes(little[40..48].try_into().unwrap()), -3.5);
    assert_eq!(f64::from_be_bytes(big[40..48].try_into().unwrap()), -3.5);
}

#[test]
fn hud_appends_position_when_nonzero() {
    let mut hud = HudSink::new(false, interval(60.0));
    let s = write(
        &mut hud,
        0,
        &Frame {
            t: double(0.0),
            ypr_deg: doubles([1.0, 2.0, 3.0]),
            position: doubles([0.12, -0.03, 0.5]),
        },
    )
    .unwrap();
    assert!(s.contains("X   0.12m  Y  -0.03m  Z   0.50m"), "got {s:?}");
    assert!(s.ends_with('\n'));

    // Zero position (3-DoF): no X/Y/Z.
    let mut hud = HudSink::new(false, interval(60.0));
    let s = write(&mut hud, 0, &Frame::new_3dof(double(0.0), doubles([1.0, 2.0, 3.0]))).unwrap();
    assert!(!s.contains("X "), "got {s:?}");
    assert_eq!(s, "YAW    1.0°  PITCH    2.0°  ROLL    3.0°\n");
}

#[test]
fn hud_takes_negative_zero_for_zero() {
    let f = Frame {
        t: double(0.0),
        ypr_deg: doubles([1.0, 2.0, 3.0]),
        position: doubles([-0.0, 0.0, -0.0]),
    };
    let s = write(&mut HudSink::new(false, 0), 0, &f).unwrap();
    assert!(!s.contains("X "));
    let g = Frame { position: doubles([0.0, f64::NAN, 0.0]), ..f };
    assert!(write(&mut HudSink::new(false, 0), 0, &g).unwrap().contains("X "));
}

#[test]
fn hud_format_tty_and_pipe() {
    // Piped (non-TTY): newline-terminated, readable line.
    let mut hud = HudSink::new(false, interval(60.0));
    let s = write(&mut hud, 0, &frame(12.3, -4.1, 0.8)).unwrap();
    assert!(s.contains("YAW") && s.contains("PITCH") && s.contains("ROLL"));
    assert!(s.contains("12.3") && s.contains("-4.1") && s.contains("0.8"));
    assert!(s.contains('°'));
    assert!(s.ends_with('\n'));

    // TTY: carriage-return redraw in place.
    let mut hud = HudSink::new(true, interval(60.0));
    let s = write(&mut hud, 0, &frame(1.0, 2.0, 3.0)).unwrap();
    assert!(s.ends_with('\r'));
}

#[test]
fn integration_hud_formats_degrees_line() {
    let mut hud = HudSink::new(false, interval(60.0));
    let s = write(&mut hud, 0, &frame(12.3, -4.1, 0.8)).unwrap();
    assert!(s.contains("YAW") && s.contains("PITCH") && s.contains("ROLL"));
    assert!(s.contains('°'));
    assert!(s.ends_with('\n'));
}

#[test]
fn hud_keeps_its_rate() {
    let mut hud = HudSink::new(false, 500);
    assert!(write(&mut hud, 0, &frame(1.0, 2.0, 3.0)).is_some());
    assert!(write(&mut hud, 499, &frame(1.0, 2.0, 3.0)).is_none());
    assert!(write(&mut hud, 500, &frame(1.0, 2.0, 3.0)).is_some());
}

#[test]
fn udp_failures_are_reported_by_level() {
    let second = 1_000_000_000u128;
    let mut r = UdpReports::new();
    assert!(r.on_failure(Level::Error, 0, "h:9", 9, "refused").is_none());
    assert!(r.on_failure(Level::Info, second, "h:9", 9, "refused").is_some());
    assert!(r.on_failure(Level::Warn, 5 * second, "h:9", 9, "refused").is_none());
    assert_eq!(
        r.on_failure(Level::Warn, 6 * second, "h:4242", 4242, "refused").unwrap(),
        "UDP send to h:4242 failed: refused (is Opentrack listening on port 4242?) — further \
         warnings throttled to once/5s"
    );
    for _ in 0..3 {
        assert_eq!(
            r.on_failure(Level::Debug, 6 * second, "h:9", 9, "refused").unwrap(),
            "udp send to h:9 failed: refused"
        );
    }
}

#[test]
fn failing_log_is_given_up() {
    let mut log = LogSink::new();
    assert!(log.active());
    assert_eq!(log.on_failure("pose", "disk full"), "pose log write failed, disabled: disk full");
    assert!(!log.active());
}
