use neuromancer::axis::AxisMap;
use neuromancer::calib::{
    bias_divisor, deviation_divisor, BiasRefresher, CalibEnd, GyroCalibrator,
};
use neuromancer::double::Double;
use neuromancer::gui::{
    angle_label, calibration_over, cube_corner, cube_edge, is_far_edge, save_note, Heartbeat, ImuMsg,
    LiveState, PoseCounter, PoseNote, ZeroReference,
};
use neuromancer::imu::ImuError;
use neuromancer::inertial;
use neuromancer::settings::Settings;
use neuromancer::text::{decimal_text, pad, parse_u16, split, trim};
use neuromancer::tracker::{
    ema_blend, exit_code, gives_rate, nearer, rate_due, hud_due, hud_line, on_imu_error, on_read_failure, Announcements,
    Blend, Calibrator, Ending, ImuTracker, Pose, Quat, Use,
};

const G: f64 = 9.81;

fn double(v: f64) -> Double {
    Double::from_bits(v.to_bits())
}

fn value(d: Double) -> f64 {
    f64::from_bits(d.to_bits())
}

/// Inverts with the map, then multiplies by what it asks for.
fn apply(m: &AxisMap, ypr: &mut [f64; 3]) {
    let mut angles = ypr.map(double);
    let factor = m.apply(&mut angles);
    *ypr = angles.map(value);
    if let Some(f) = factor {
        *ypr = ypr.map(|v| v * value(f));
    }
}

#[test]
fn identity_map_leaves_angles_untouched() {
    let m = AxisMap::default();
    let mut ypr = [10.0, -20.0, 30.0];
    apply(&m, &mut ypr);
    assert_eq!(ypr, [10.0, -20.0, 30.0]);
}

#[test]
fn inversion_flips_signs() {
    let m = AxisMap {
        invert_yaw: true,
        invert_pitch: false,
        invert_roll: true,
        sensitivity: double(1.0),
    };
    let mut ypr = [10.0, -20.0, 30.0];
    apply(&m, &mut ypr);
    assert_eq!(ypr, [-10.0, -20.0, -30.0]);
    apply(&m, &mut ypr);
    assert_eq!(ypr, [10.0, -20.0, 30.0]);
}

#[test]
fn sensitivity_scales_all_axes() {
    let m = AxisMap { sensitivity: double(2.0), ..Default::default() };
    let mut ypr = [10.0, -20.0, 30.0];
    apply(&m, &mut ypr);
    assert_eq!(ypr, [20.0, -40.0, 60.0]);
}

#[test]
fn order_of_doubles() {
    let values = [
        f64::NEG_INFINITY, -1e300, -1.0, -f64::MIN_POSITIVE, -5e-324, -0.0, 0.0, 5e-324, 1e-310,
        f64::MIN_POSITIVE, 0.1, 1.0, 1.0000000000000002, 2.0, f64::MAX, f64::INFINITY, f64::NAN,
        -f64::NAN,
    ];
    for a in values {
        assert_eq!(double(a).is_nan(), a.is_nan());
        assert_eq!(double(a).is_finite(), a.is_finite());
        assert_eq!(double(a).neg().to_bits(), (-a).to_bits());
        for b in values {
            assert_eq!(double(a).lt(double(b)), a < b, "{a} < {b}");
            assert_eq!(double(a).le(double(b)), a <= b, "{a} <= {b}");
        }
    }
}

/// A calibration with the sums that it decides on.
struct Calibration {
    core: GyroCalibrator,
    valid: f64,
    sum: [f64; 3],
}

struct Finished {
    bias: [f64; 3],
    samples: u64,
    complete: bool,
}

impl Calibration {
    fn new(window: f64) -> Calibration {
        Calibration { core: GyroCalibrator::new(double(window)), valid: 0.0, sum: [0.0; 3] }
    }

    fn push(&mut self, t: f64, gyro: [f64; 3], accel: [f64; 3]) -> Option<Finished> {
        let m = self.core.begin(double(t))?;
        let dt = match m.previous {
            Some(p) => (t - value(p)).clamp(0.0, 0.1),
            None => 0.0,
        };
        let norm = |v: [f64; 3]| (v[0] * v[0] + v[1] * v[1] + v[2] * v[2]).sqrt();
        let still = GyroCalibrator::still(double(norm(accel)), double(norm(gyro)));
        if still {
            for k in 0..3 {
                self.sum[k] += gyro[k];
            }
            self.valid += dt;
        }
        let window = value(self.core.window);
        let end: CalibEnd = self.core.push(
            still,
            double(self.valid),
            double(window - 1e-6),
            double(t - value(m.start)),
            double(window * 5.0),
        )?;
        let bias =
            if end.samples > 0 { self.sum.map(|s| s / end.samples as f64) } else { [0.0; 3] };
        Some(Finished { bias, samples: end.samples, complete: end.complete })
    }
}

/// 2 s @ 200 Hz of constant bias + white-ish noise → bias recovered.
#[test]
fn recovers_constant_bias() {
    let mut c = Calibration::new(2.0);
    let bias = 0.00436; // ≈ 0.25°/s
    let mut result = None;
    for i in 0..450 {
        let t = i as f64 * 0.005;
        let noise = (i as f64 * 12.9898).sin() * 0.005;
        if let Some(r) = c.push(t, [noise, bias + noise, -noise], [0.0, G, 0.0]) {
            result = Some(r);
            break;
        }
    }
    let r = result.expect("calibration should finish");
    assert!(r.complete);
    assert!(r.samples >= 300, "samples {}", r.samples);
    assert!((r.bias[1] - bias).abs() < 0.002, "bias {:?}", r.bias);
    assert!(r.bias[0].abs() < 0.002 && r.bias[2].abs() < 0.002);
    assert!(c.push(9.0, [0.0; 3], [0.0, G, 0.0]).is_none());
}

/// Moving samples do not count; calibration waits for stillness.
#[test]
fn ignores_motion_until_still() {
    let mut c = Calibration::new(1.0);
    let bias = 0.01;
    for i in 0..200 {
        assert!(c.push(i as f64 * 0.005, [2.0, 0.5, -1.0], [0.0, G, 0.0]).is_none());
    }
    let mut result = None;
    for i in 200..440 {
        if let Some(r) = c.push(i as f64 * 0.005, [bias, 0.0, 0.0], [0.0, G, 0.0]) {
            result = Some(r);
            break;
        }
    }
    let r = result.expect("should finish after stillness");
    assert!(r.complete);
    assert!((r.bias[0] - bias).abs() < 0.002, "bias {:?}", r.bias);
}

/// Never still → gives up at max_wait with zero samples (caller warns).
#[test]
fn gives_up_when_never_still() {
    let mut c = Calibration::new(0.2); // max_wait = 1.0 s
    let mut result = None;
    for i in 0..500 {
        if let Some(r) = c.push(i as f64 * 0.005, [3.0, -2.0, 1.0], [0.0, G, 0.0]) {
            result = Some(r);
            break;
        }
    }
    let r = result.expect("must give up eventually");
    assert!(!r.complete);
    assert_eq!(r.samples, 0);
    assert_eq!(r.bias, [0.0; 3]);
}

#[test]
fn calibration_limits() {
    assert_eq!(value(GyroCalibrator::new(double(0.0)).window), 0.1);
    assert_eq!(value(GyroCalibrator::new(double(f64::NAN)).window), 0.1);
    assert_eq!(value(GyroCalibrator::new(double(3.0)).window), 3.0);
    let still = |a: f64, g: f64| GyroCalibrator::still(double(a), double(g));
    assert!(still(G, 0.1) && still(0.81 * G, 0.0) && still(1.19 * G, 0.0));
    assert!(!still(0.8 * G, 0.0) && !still(1.2 * G, 0.0) && !still(G, 0.15));
    let still = |a: f64, g: f64| Calibrator::still(double(a), double(g));
    assert!(still(0.51 * G, 0.0) && still(1.49 * G, 0.04));
    assert!(!still(0.5 * G, 0.0) && !still(1.5 * G, 0.0) && !still(G, 0.05));
}

/// Mahony filter, as the tracker runs it.
struct Mahony {
    q: [f64; 4],
    integral: [f64; 3],
}

fn mul(a: [f64; 4], b: [f64; 4]) -> [f64; 4] {
    [
        a[0] * b[0] - a[1] * b[1] - a[2] * b[2] - a[3] * b[3],
        a[0] * b[1] + a[1] * b[0] + a[2] * b[3] - a[3] * b[2],
        a[0] * b[2] - a[1] * b[3] + a[2] * b[0] + a[3] * b[1],
        a[0] * b[3] + a[1] * b[2] - a[2] * b[1] + a[3] * b[0],
    ]
}

impl Mahony {
    fn new() -> Mahony {
        Mahony { q: [1.0, 0.0, 0.0, 0.0], integral: [0.0; 3] }
    }

    fn update(&mut self, accel: [f64; 3], gyro: [f64; 3], dt: f64) {
        let q = self.q;
        let up = mul(mul(q, [0.0, 0.0, 1.0, 0.0]), [q[0], -q[1], -q[2], -q[3]]);
        let v = [up[1], up[2], up[3]];
        let n = (accel[0] * accel[0] + accel[1] * accel[1] + accel[2] * accel[2]).sqrt();
        let a = accel.map(|x| x / n);
        let e = [v[1] * a[2] - v[2] * a[1], v[2] * a[0] - v[0] * a[2], v[0] * a[1] - v[1] * a[0]];
        let mut w = [0.0; 3];
        for k in 0..3 {
            self.integral[k] += 0.005 * e[k] * dt;
            w[k] = gyro[k] + e[k] + self.integral[k];
        }
        let dot = mul(q, [0.0, w[0], w[1], w[2]]);
        let mut next = [0.0; 4];
        for k in 0..4 {
            next[k] = q[k] + 0.5 * dot[k] * dt;
        }
        let len = next.iter().map(|x| x * x).sum::<f64>().sqrt();
        self.q = next.map(|x| x / len);
    }

    fn ypr_deg(&self) -> [f64; 3] {
        let [w, x, y, z] = self.q;
        let yaw = (2.0 * (w * y - x * z)).atan2(1.0 - 2.0 * (x * x + y * y));
        let pitch = (2.0 * (y * z + w * x)).clamp(-1.0, 1.0).asin();
        let roll = (2.0 * (w * z - x * y)).atan2(1.0 - 2.0 * (x * x + z * z));
        [yaw, pitch, roll].map(f64::to_degrees)
    }
}

fn yaw_after(samples: &[(f64, [f64; 3])], bias: [f64; 3]) -> [f64; 3] {
    let mut mahony = Mahony::new();
    let mut prev: Option<f64> = None;
    for (t, g) in samples {
        let dt = prev.map_or(0.0, |p| (t - p).clamp(0.0, 0.1));
        prev = Some(*t);
        mahony.update([0.0, G, 0.0], [g[0] - bias[0], g[1] - bias[1], g[2] - bias[2]], dt);
    }
    mahony.ypr_deg()
}

#[test]
fn integration_gyro_bias_drift_and_calibration() {
    let bias = 0.25f64.to_radians();
    let noise = |i: usize, phase: f64| (i as f64 * 12.9898 + phase * 97.0).sin() * 0.005;
    let calib_samples = 2 * 200 + 20;
    let n_total = calib_samples + 60 * 200;
    let samples: Vec<(f64, [f64; 3])> = (0..n_total)
        .map(|i| (i as f64 * 0.005, [noise(i, 1.0), bias + noise(i, 2.0), noise(i, 3.0)]))
        .collect();

    let [uncalibrated, ..] = yaw_after(&samples[calib_samples..], [0.0; 3]);
    assert!(
        (uncalibrated - 15.0).abs() < 1.5,
        "uncalibrated drift {uncalibrated}° (expected ≈15°)"
    );

    let mut cal = Calibration::new(2.0);
    let mut bias_est = [0.0; 3];
    for (t, g) in samples.iter().take(calib_samples) {
        if let Some(res) = cal.push(*t, *g, [0.0, G, 0.0]) {
            bias_est = res.bias;
        }
    }
    assert!((bias_est[1] - bias).abs() < 0.002, "bias est {bias_est:?}");
    let [calibrated, ..] = yaw_after(&samples[calib_samples..], bias_est);
    assert!(calibrated.abs() < 2.5, "calibrated drift {calibrated}° (expected ≈0)");
}

/// A refresher with the sums that go with it.
struct Refresh {
    core: BiasRefresher,
    sum: [f64; 3],
    bias: [f64; 3],
}

impl Refresh {
    fn new(window: f64, bias: [f64; 3]) -> Refresh {
        Refresh { core: BiasRefresher::new(double(window)), sum: [0.0; 3], bias }
    }

    fn feed(&mut self, t: f64, gyro: [f64; 3]) -> Option<[f64; 3]> {
        let norm = (gyro[0] * gyro[0] + gyro[1] * gyro[1] + gyro[2] * gyro[2]).sqrt();
        let still = GyroCalibrator::still(double(G), double(norm));
        let Some(begin) = self.core.rest(double(t), still) else {
            self.sum = [0.0; 3];
            return None;
        };
        for k in 0..3 {
            self.sum[k] += gyro[k];
        }
        let needed = double(value(self.core.window) - 1e-6);
        let n = self.core.feed(double(t - value(begin)), needed)?;
        self.bias = self.sum.map(|s| s / n as f64);
        self.sum = [0.0; 3];
        Some(self.bias)
    }
}

#[test]
fn in_run_recalibration_stops_drift_after_bias_change() {
    let b1 = 0.25f64.to_radians();
    let b2 = 0.5f64.to_radians();
    let motion = 20f64.to_radians();
    let noise = |i: usize, phase: f64| (i as f64 * 12.9898 + phase * 97.0).sin() * 0.005;
    let n = 10 * 200;
    let samples: Vec<(f64, [f64; 3])> = (0..n)
        .map(|i| {
            let t = i as f64 * 0.005;
            let bias = if t < 4.0 { b1 } else { b2 };
            let moving = if (2.0..4.0).contains(&t) { motion } else { 0.0 };
            (t, [noise(i, 1.0), bias + moving + noise(i, 2.0), noise(i, 3.0)])
        })
        .collect();

    let mut cal = Calibration::new(2.0);
    let mut bias_est = [0.0; 3];
    let mut start_idx = samples.len();
    for (i, (t, g)) in samples.iter().enumerate() {
        if let Some(res) = cal.push(*t, *g, [0.0, G, 0.0]) {
            bias_est = res.bias;
            start_idx = i + 1;
            break;
        }
    }
    assert!(start_idx < samples.len(), "startup calibration never finished");

    let run = |refresh: bool| -> f64 {
        let mut mahony = Mahony::new();
        let mut refresher = Refresh::new(2.0, bias_est);
        let mut prev: Option<f64> = None;
        let mut yaw_at_7s: Option<f64> = None;
        let mut final_yaw = 0.0;
        for (t, g) in &samples[start_idx..] {
            if refresh {
                let _ = refresher.feed(*t, *g);
            }
            let bias = refresher.bias;
            let dt = prev.map_or(0.0, |p| (t - p).clamp(0.0, 0.1));
            prev = Some(*t);
            mahony.update([0.0, G, 0.0], [g[0] - bias[0], g[1] - bias[1], g[2] - bias[2]], dt);
            let yaw = mahony.ypr_deg()[0];
            if *t >= 7.0 && yaw_at_7s.is_none() {
                yaw_at_7s = Some(yaw);
            }
            final_yaw = yaw;
        }
        final_yaw - yaw_at_7s.unwrap_or(0.0)
    };

    let drift_no_refresh = run(false);
    let drift_with_refresh = run(true);
    assert!(
        drift_no_refresh > 0.4,
        "without refresh the drifted bias should integrate (got {drift_no_refresh}°)"
    );
    assert!(
        drift_with_refresh.abs() < 0.4,
        "with refresh the bias is re-centered (got {drift_with_refresh}°)"
    );
}

#[test]
fn refresh_needs_an_unbroken_rest() {
    let mut r = BiasRefresher::new(double(2.0));
    assert_eq!(r.rest(double(1.0), true), Some(double(1.0)));
    assert_eq!(r.feed(double(0.0), double(2.0)), None);
    assert_eq!(r.rest(double(2.0), false), None);
    assert_eq!(r.feed(double(9.0), double(2.0)), None);
    assert_eq!(r.rest(double(3.0), true), Some(double(3.0)));
    assert_eq!(r.rest(double(5.0), true), Some(double(3.0)));
    assert_eq!(r.feed(double(2.0), double(2.0)), Some(2));
    assert_eq!(r.rest(double(6.0), true), Some(double(6.0)));
    assert_eq!(value(BiasRefresher::new(double(0.0)).window), 0.1);
}

#[test]
fn integration_axis_mapping_applies_to_live_pipeline() {
    let omega = 30.0f64.to_radians();
    let samples: Vec<(f64, [f64; 3])> =
        (0..200).map(|i| (i as f64 * 0.005, [0.0, omega, 0.0])).collect();
    let map = AxisMap { invert_yaw: true, sensitivity: double(2.0), ..Default::default() };
    let mut ypr = yaw_after(&samples, [0.0; 3]);
    apply(&map, &mut ypr);
    // 30°/s * 1 s = +30° → inverted → -30° → sensitivity ×2 → -60°.
    assert!((ypr[0] - -60.0).abs() < 4.0, "yaw {}° (expected ≈-60°)", ypr[0]);
}

/// What comes out of the smoothing of one number.
fn ema(prev: Option<f64>, q: f64, alpha: f64) -> f64 {
    match ema_blend(prev.is_some(), double(alpha)) {
        Blend::Fresh => q,
        Blend::Previous => prev.unwrap(),
        Blend::Mix(a) => prev.unwrap() + value(a) * (q - prev.unwrap()),
    }
}

#[test]
fn ema_first_sample_returns_raw() {
    assert_eq!(ema(None, 10.0, 0.1), 10.0);
}

#[test]
fn ema_alpha_1_is_raw() {
    assert_eq!(ema(Some(0.0), 10.0, 1.0), 10.0);
    assert_eq!(ema(Some(0.0), 10.0, 1.5), 10.0);
}

#[test]
fn ema_alpha_0_keeps_previous() {
    assert_eq!(ema(Some(0.0), 10.0, 0.0), 0.0);
    assert_eq!(ema(Some(0.0), 10.0, -2.0), 0.0);
    assert_eq!(ema(Some(0.0), 10.0, 0.5), 5.0);
}

#[test]
fn tracker_calibrates_then_filters() {
    let mut s = Settings::default();
    s.jitter_filter = true;
    let mut t = ImuTracker::open();
    assert!(!t.calibrating());
    t.configure(&s);
    assert!(t.calibrating());
    assert_eq!(t.next_pose(double(10.0)), Use::Calibrate { start: double(10.0) });
    assert_eq!(t.calibrate(double(10.0), true, double(0.0)), None);
    assert_eq!(t.next_pose(double(11.0)), Use::Calibrate { start: double(10.0) });
    assert_eq!(t.calibrate(double(11.0), true, double(1.0)), None);
    assert_eq!(t.next_pose(double(12.0)), Use::Calibrate { start: double(10.0) });
    assert_eq!(t.calibrate(double(12.0), false, double(2.0)), Some(2));
    assert!(!t.calibrating());
    assert_eq!(t.next_pose(double(12.5)), Use::Filter { previous: Some(double(12.0)) });
    assert_eq!(t.next_pose(double(13.0)), Use::Filter { previous: Some(double(12.5)) });
    assert_eq!(t.smooth(), Some(Blend::Fresh));
    assert_eq!(t.smooth(), Some(Blend::Mix(double(0.1))));
    t.set_jitter_filter(true, double(7.0));
    assert_eq!(t.smooth(), Some(Blend::Fresh));
    t.set_jitter_filter(false, double(0.5));
    assert_eq!(t.smooth(), None);
    s.gyro_calib = double(0.0);
    t.configure(&s);
    assert!(!t.calibrating());
    assert_eq!(t.next_pose(double(1.0)), Use::Filter { previous: None });
}

#[test]
fn calibration_without_rest_divides_by_one() {
    let mut c = Calibrator::new(double(1.0));
    assert_eq!(c.begin(double(5.0)), Some(double(5.0)));
    assert_eq!(c.push(false, double(0.0)), None);
    assert_eq!(c.begin(double(6.0)), Some(double(5.0)));
    assert_eq!(c.push(false, double(1.0)), Some(1));
    assert_eq!(c.begin(double(7.0)), None);
    assert_eq!(c.push(true, double(2.0)), None);
}

#[test]
fn quaternion_conjugate() {
    let q = Quat::new(double(0.5), double(-0.5), double(0.25), double(0.0));
    let c = q.conjugate();
    assert_eq!([c.w, c.x, c.y].map(value), [0.5, 0.5, -0.25]);
    assert_eq!(c.z.to_bits(), (-0.0f64).to_bits());
    assert_eq!(c.conjugate(), q);
}

#[test]
fn readout_lines() {
    let texts = |v: [f64; 3], n: usize| v.map(|x| format!("{:.*}", n, x));
    let v = [1.25, -123.456, 0.0];
    assert_eq!(
        hud_line(&texts(v, 3), true),
        format!("YAW {:7.3}  PITCH {:7.3}  ROLL {:7.3} rad", v[0], v[1], v[2])
    );
    assert_eq!(
        hud_line(&texts(v, 1), false),
        format!("YAW {:7.1}°  PITCH {:7.1}°  ROLL {:7.1}°", v[0], v[1], v[2])
    );
    for (rad, unit) in [(true, "rad"), (false, "°")] {
        assert_eq!(
            angle_label(&texts(v, 3), rad),
            format!(
                "YAW {:8.3} {unit}   PITCH {:8.3} {unit}   ROLL {:8.3} {unit}",
                v[0], v[1], v[2]
            )
        );
    }
}

#[test]
fn main_loop_announcements() {
    let mut a = Announcements::new(true);
    assert!(!a.on_no_pose(true));
    assert!(a.on_no_pose(false));
    assert!(!a.on_no_pose(false));
    assert!(a.on_pose());
    assert!(!a.on_pose());
    assert!(hud_due(double(2.0), double(0.5), double(0.5)));
    assert!(!hud_due(double(2.0), double(0.49), double(0.5)));
    assert!(!hud_due(double(0.0), double(9.0), double(0.5)));
    assert!(gives_rate(double(1e-8)) && !gives_rate(double(1e-9)));
}

#[test]
fn exit_codes() {
    assert_eq!(exit_code(Ending::Clean), 0);
    assert_eq!(exit_code(Ending::Setup), 1);
    assert_eq!(exit_code(Ending::Usage), 2);
    assert_eq!(exit_code(Ending::Unplugged), 3);
    assert_eq!(on_read_failure(true), Ending::Clean);
    assert_eq!(on_read_failure(false), Ending::Unplugged);
}

fn pose(w: f64) -> Pose {
    Pose {
        t: double(0.0),
        ypr_rad: [double(0.0); 3],
        q: Quat::new(double(w), double(0.5), double(0.0), double(0.0)),
    }
}

#[test]
fn live_state_keeps_the_last_reports() {
    let mut live = LiveState::default();
    assert!(live.pose.is_none() && live.error.is_none() && !live.calibrating);
    live.apply(ImuMsg::Calibrating(true));
    live.apply(ImuMsg::Pose(pose(0.25)));
    live.apply(ImuMsg::Pose(pose(0.75)));
    live.apply(ImuMsg::Rate(double(1000.0)));
    live.apply(ImuMsg::Error("gone".to_string()));
    assert_eq!(live.pose, Some(pose(0.75)));
    assert_eq!(value(live.rate_hz), 1000.0);
    assert!(live.calibrating);
    assert_eq!(live.error.as_deref(), Some("gone"));
}

#[test]
fn zero_is_the_last_pose() {
    let mut zero = ZeroReference::new();
    let mut live = LiveState::default();
    assert!(!zero.reset(&live));
    assert!(zero.correction().is_none());
    live.apply(ImuMsg::Pose(pose(0.25)));
    assert!(zero.reset(&live));
    assert_eq!(zero.correction(), Some(pose(0.25).q.conjugate()));
}

#[test]
fn signs_of_life_and_poses() {
    let mut h = Heartbeat::new();
    assert!(!h.beat(1999));
    assert!(h.beat(2000));
    assert!(!h.beat(3999));
    assert!(!h.beat(10));
    assert!(h.beat(4000));
    let mut c = PoseCounter::new();
    assert_eq!(c.count(), PoseNote::First);
    for _ in 2..500 {
        assert_eq!(c.count(), PoseNote::Quiet);
    }
    assert_eq!(c.count(), PoseNote::Count(500));
    assert!(calibration_over(true, false));
    assert!(!calibration_over(true, true) && !calibration_over(false, false));
    assert_eq!(save_note(true, "/p"), "settings saved to /p");
    assert_eq!(save_note(false, "why"), "settings save failed: why");
}

#[test]
fn cube_geometry() {
    let corners = [
        (-1, -1, -1), (1, -1, -1), (1, 1, -1), (-1, 1, -1),
        (-1, -1, 1), (1, -1, 1), (1, 1, 1), (-1, 1, 1),
    ];
    for (i, c) in corners.iter().enumerate() {
        assert_eq!(cube_corner(i), *c);
    }
    let edges = [
        (0, 1), (1, 2), (2, 3), (3, 0),
        (4, 5), (5, 6), (6, 7), (7, 4),
        (0, 4), (1, 5), (2, 6), (3, 7),
    ];
    for (i, e) in edges.iter().enumerate() {
        assert_eq!(cube_edge(i), *e);
        assert_eq!(is_far_edge(i), i < 4);
    }
}

#[test]
fn texts_and_numbers() {
    assert_eq!(decimal_text(0), "0");
    assert_eq!(decimal_text(u64::MAX), "18446744073709551615");
    assert_eq!(pad("12", '0', 4), "0012");
    assert_eq!(pad("12345", '0', 4), "12345");
    assert_eq!(parse_u16("00042"), Some(42));
    assert_eq!(parse_u16("99999999999999999999999"), None);
    assert_eq!(parse_u16("-1"), None);
    assert_eq!(parse_u16(""), None);
    assert_eq!(split("a,,b,", ','), ["a", "", "b", ""]);
    assert_eq!(split("", ','), [""]);
    assert_eq!(trim(" \u{2003}x y\u{85}\n"), "x y");
    for c in (0u32..0x3100).filter_map(char::from_u32) {
        let s = c.to_string();
        assert_eq!(trim(&s), s.trim(), "{:?}", c);
    }
}

#[test]
fn inertial_calibration_shares_the_detection() {
    let still = |a: f64, g: f64| inertial::Calibrator::still(double(a), double(g));
    assert!(still(G, 0.1) && still(0.81 * G, 0.0) && still(1.19 * G, 0.14));
    assert!(!still(0.8 * G, 0.0) && !still(1.2 * G, 0.0) && !still(G, 0.15));
    let mut c = inertial::Calibrator::new(double(1.0));
    assert_eq!(c.begin(double(0.0)), Some(double(0.0)));
    assert_eq!(c.push(still(G, 0.1), double(0.0)), None);
    assert_eq!(c.begin(double(1.0)), Some(double(0.0)));
    let n = c.push(still(G, 0.1), double(1.0)).unwrap();
    assert_eq!((0.1 + 0.1) / n as f64, 0.1);
    assert_eq!(c.begin(double(2.0)), None);
    assert_eq!(c.push(true, double(2.0)), None);
}

#[test]
fn calibration_ends_once_and_in_time() {
    let mut c = GyroCalibrator::new(double(1.0));
    let mut ends = Vec::new();
    for i in 0..20 {
        let t = i as f64 * 0.5;
        if c.begin(double(t)).is_none() {
            assert_eq!(c.push(true, double(9.0), double(1.0), double(t), double(5.0)), None);
            continue;
        }
        let still = i % 3 == 0;
        let end = c.push(still, double(0.0), double(1.0), double(t), double(5.0));
        if let Some(e) = end {
            ends.push((i, e));
        }
    }
    assert_eq!(ends, vec![(10, CalibEnd { samples: 4, complete: false })]);
}

#[test]
fn endings_of_the_input() {
    let io = ImuError::Io("x".to_string());
    let gone = ImuError::Unplugged("x".to_string());
    assert_eq!(on_imu_error(&ImuError::Eof, false), Ending::Clean);
    assert_eq!(on_imu_error(&io, true), Ending::Setup);
    assert_eq!(on_imu_error(&gone, false), Ending::Unplugged);
    assert_eq!(on_imu_error(&gone, true), Ending::Clean);
}

#[test]
fn smoothing_takes_the_nearer_sign() {
    let q = Quat::new(double(0.5), double(-0.5), double(0.0), double(0.25));
    let minus = Quat::new(double(-0.5), double(0.5), double(-0.0), double(-0.25));
    assert_eq!(nearer(q, double(0.3)), q);
    assert_eq!(nearer(q, double(0.0)), q);
    assert_eq!(nearer(q, double(-0.3)), minus);
    assert_eq!(nearer(minus, double(-0.3)), nearer(q, double(0.3)));
    assert_eq!(nearer(minus, double(0.3)), nearer(q, double(-0.3)));
}

#[test]
fn rate_is_reported_once_after_thirty_samples() {
    assert!(!rate_due(false, 29) && !rate_due(false, 31));
    assert!(rate_due(false, 30) && !rate_due(true, 30));
}

#[test]
fn calibration_without_samples_has_no_bias() {
    let end = |samples: u64| CalibEnd { samples, complete: false };
    assert_eq!(bias_divisor(end(0)), None);
    assert_eq!(bias_divisor(end(7)), Some(7));
    assert_eq!((deviation_divisor(end(1)), deviation_divisor(end(2))), (None, Some(2)));
}
