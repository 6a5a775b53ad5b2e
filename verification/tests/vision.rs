use neuromancer::double::Double;
use neuromancer::features::{detect_corners_fast, longest_run, Corner};
use neuromancer::frame::StereoFrame;
use neuromancer::klt::{
    box_blur_half, gray_at, has_texture, slopes, step_verdict, structure_tensor, Tensor, Verdict,
};
use neuromancer::motion::{inliers, min_inliers, trusted, usable, Sampling, MAX_ERROR};
use neuromancer::pipeline::{Outcome, VoPipeline};
use neuromancer::rectify::{covered_count, is_border, misses, taps};
use neuromancer::stereo::{StereoMatcher, MAX_DEPTH, MIN_DEPTH, WINDOW_HALF};
use neuromancer::visual::{frame_file_name, replay_visual_frames, slam_cameras, ReplayVisualSource, Side};

const FX: f64 = 500.0;
const CX: f64 = 320.0;
const CY: f64 = 240.0;
const BASELINE: f64 = 0.12;

fn double(v: f64) -> Double {
    Double::from_bits(v.to_bits())
}

fn hash2(x: f64, y: f64) -> f64 {
    let s = (x * 12.9898 + y * 78.233).sin() * 43758.5453;
    s - s.floor()
}

fn value_noise(x: f64, y: f64) -> f64 {
    let (xi, yi) = (x.floor(), y.floor());
    let smooth = |t: f64| t * t * (3.0 - 2.0 * t);
    let (u, v) = (smooth(x - xi), smooth(y - yi));
    let (a, b) = (hash2(xi, yi), hash2(xi + 1.0, yi));
    let (c, d) = (hash2(xi, yi + 1.0), hash2(xi + 1.0, yi + 1.0));
    let ab = a + (b - a) * u;
    let cd = c + (d - c) * u;
    ab + (cd - ab) * v
}

fn texture(x: f64, y: f64) -> u8 {
    let n1 = value_noise(x / 0.03, y / 0.03);
    let n2 = value_noise(x / 0.12, y / 0.12);
    let hard = (value_noise(x / 0.02, y / 0.02) * 5.0).floor() / 5.0;
    ((n1 * 0.3 + n2 * 0.2 + hard * 0.5) * 255.0).clamp(0.0, 255.0) as u8
}

/// A textured plane at depth `z`, seen by both cameras.
fn render(z: f64) -> StereoFrame {
    let (w, h) = (640usize, 480usize);
    let mut left = vec![0u8; w * h];
    let mut right = vec![0u8; w * h];
    for v in 0..h {
        for u in 0..w {
            let (x, y) = ((u as f64 - CX) / FX * z, (v as f64 - CY) / FX * z);
            let color = texture(x, y);
            left[v * w + u] = color;
            let ru = (FX * (x - BASELINE) / z + CX).round() as i64;
            if ru >= 0 && ru < w as i64 {
                right[v * w + ru as usize] = color;
            }
        }
    }
    StereoFrame::new(640, 480, left, right)
}

#[test]
fn finds_many_corners_on_textured_plane() {
    let frame = render(1.5);
    let corners = detect_corners_fast(&frame.left, 640, 480, 20);
    assert!(corners.len() > 200, "only {} corners", corners.len());
    for c in corners.iter().take(20) {
        assert!(c.x < 640 && c.y < 480);
    }
}

#[test]
fn finds_none_on_blank_and_flat_gradient() {
    let blank = vec![128u8; 640 * 480];
    assert!(detect_corners_fast(&blank, 640, 480, 20).is_empty());

    // A gentle linear gradient has no corner structure.
    let grad: Vec<u8> = (0..640 * 480).map(|i| (i % 640) as u8 / 2).collect();
    assert!(detect_corners_fast(&grad, 640, 480, 20).is_empty());
}

#[test]
fn high_threshold_reduces_count() {
    let frame = render(1.5);
    let low = detect_corners_fast(&frame.left, 640, 480, 10).len();
    let high = detect_corners_fast(&frame.left, 640, 480, 60).len();
    assert!(high < low, "threshold 60 gave {high} ≥ {low} (threshold 10)");
}

#[test]
fn corners_of_small_images() {
    assert!(detect_corners_fast(&[], 0, 0, 20).is_empty());
    assert!(detect_corners_fast(&[], 0, 7, 20).is_empty());
    assert!(detect_corners_fast(&[9; 36], 6, 6, 20).is_empty());
    // One dark pixel on a bright ground, just inside the border.
    let mut img = vec![200u8; 49];
    img[3 * 7 + 3] = 10;
    assert_eq!(detect_corners_fast(&img, 7, 7, 20), [Corner { x: 3, y: 3 }]);
    assert!(detect_corners_fast(&img, 7, 7, 190).is_empty());
    assert_eq!(detect_corners_fast(&img, 7, 7, 189).len(), 1);
}

#[test]
fn corners_come_strongest_first_and_apart() {
    let w = 40usize;
    let mut img = vec![100u8; w * 20];
    img[8 * w + 8] = 200;
    img[8 * w + 20] = 250;
    img[8 * w + 32] = 200;
    // A weaker dot next to the strongest one.
    img[9 * w + 21] = 240;
    let corners = detect_corners_fast(&img, 40, 20, 20);
    assert_eq!(
        corners,
        [Corner { x: 20, y: 8 }, Corner { x: 8, y: 8 }, Corner { x: 32, y: 8 }]
    );
}

#[test]
fn textured_corners_do_not_touch() {
    let frame = render(1.5);
    let corners = detect_corners_fast(&frame.left, 640, 480, 20);
    let mut taken = vec![false; 640 * 480];
    for c in &corners {
        for y in c.y - 1..=c.y + 1 {
            for x in c.x - 1..=c.x + 1 {
                assert!(!taken[(y * 640 + x) as usize]);
            }
        }
        taken[(c.y * 640 + c.x) as usize] = true;
    }
}

#[test]
fn runs_go_around_the_seam() {
    let mut hits = [false; 16];
    assert_eq!(longest_run(hits), 0);
    for i in [13, 14, 15, 0, 1, 2, 3, 4, 5] {
        hits[i] = true;
    }
    assert_eq!(longest_run(hits), 9);
    hits[5] = false;
    hits[9] = true;
    assert_eq!(longest_run(hits), 8);
    assert_eq!(longest_run([true; 16]), 16);
    hits = [true; 16];
    hits[7] = false;
    assert_eq!(longest_run(hits), 15);
}

#[test]
fn pixels_of_a_pair() {
    let f = StereoFrame::new(2, 2, vec![1, 2, 3, 4], vec![5, 6, 7, 8]);
    assert_eq!(f.pixel(true, 1, 0), 2);
    assert_eq!(f.pixel(true, 0, 1), 3);
    assert_eq!(f.pixel(false, 1, 1), 8);
}

#[test]
fn half_size_image() {
    let img: Vec<u8> = (0..16).map(|i| i * 10).collect();
    let (out, w, h) = box_blur_half(&img, 4, 4);
    assert_eq!((w, h), (2, 2));
    // The first three repeat pixels of the edge; the last one lies inside.
    assert_eq!(out, [16, 33, 83, 100]);
    let (one, w, h) = box_blur_half(&[77], 1, 1);
    assert_eq!((one, w, h), (vec![77], 1, 1));
}

#[test]
fn slopes_and_tensor() {
    // Columns 0, 10, 20, 30.
    let img: Vec<u8> = (0..16).map(|i| (i % 4) as u8 * 10).collect();
    assert_eq!(gray_at(&img, 4, 4, 2, 1), 20);
    assert_eq!(gray_at(&img, 4, 4, -1, 1), 0);
    assert_eq!(gray_at(&img, 4, 4, 2, 4), 0);
    assert_eq!(slopes(&img, 4, 4, 1, 1), (20, 0));
    assert_eq!(slopes(&img, 4, 4, 3, 1), (-20, 0));
    assert_eq!(slopes(&img, 4, 4, 2, 0), (20, 20));
    let t = structure_tensor(&img, 4, 4, 1, 1, 0);
    assert_eq!((t.xx, t.xy, t.yy), (400, 0, 0));
    let t = structure_tensor(&img, 4, 4, 1, 1, 1);
    assert_eq!(t.xx, 3 * (100 + 400 + 400));
    assert_eq!(t.yy, 100 + 400);
    assert_eq!(t.xy, 20 * 10 + 20 * 20);
    let t = structure_tensor(&img, 4, 4, 1, 1, -1);
    assert_eq!((t.xx, t.xy, t.yy), (0, 0, 0));
}

#[test]
fn verdicts_of_a_step() {
    let verdict = |dx: f64, dy: f64, px: f64, py: f64| {
        step_verdict(double(dx), double(dy), double(px), double(py), double(639.0), double(479.0))
    };
    assert_eq!(verdict(0.009, -0.009, -5.0, 3.0), Verdict::Converged);
    assert_eq!(verdict(0.01, 0.0, 5.0, 3.0), Verdict::Continue);
    assert_eq!(verdict(0.5, 0.0, 0.0, 3.0), Verdict::Lost);
    assert_eq!(verdict(0.5, 0.0, 639.0, 3.0), Verdict::Lost);
    assert_eq!(verdict(f64::NAN, 0.0, f64::NAN, 3.0), Verdict::Lost);
    assert_eq!(verdict(f64::NAN, 0.0, 5.0, 3.0), Verdict::Continue);
}

/// Disparity with the parabola through the costs around it.
fn refined(m: neuromancer::stereo::Match) -> f64 {
    let cost = |c: Option<u128>| c.map_or(f64::INFINITY, |v| v as f64);
    let (c0, cm, cp) = (m.cost as f64, cost(m.below), cost(m.above));
    let denom = cm - 2.0 * c0 + cp;
    let sub = if denom.abs() > 1e-12 { (cm - cp) / (2.0 * denom) } else { 0.0 };
    m.disparity as f64 + sub.clamp(-0.5, 0.5)
}

/// Matched depth must match the depth of the plane.
#[test]
fn stereo_depth_matches_ground_truth() {
    let frame = render(1.5);
    let matcher = StereoMatcher::new(5, double(0.5), double(10.0));
    let fxb = FX * BASELINE;
    let d_max = (fxb / 0.5).ceil().max(1.0) as i32;
    let d_min = (fxb / 10.0).floor().max(1.0) as i32;
    let corners = detect_corners_fast(&frame.left, 640, 480, 20);
    assert!(corners.len() > 200, "{} corners", corners.len());

    let pixels: Vec<(i32, i32)> = corners.iter().map(|c| (c.x as i32, c.y as i32)).collect();
    let found =
        matcher.match_features(&frame.left, &frame.right, 640, 480, &pixels, d_min, d_max);
    let mut rel_errs: Vec<f64> = Vec::new();
    for m in found.into_iter().flatten() {
        let z = fxb / refined(m);
        if matcher.accepts_depth(double(z)) {
            rel_errs.push((z - 1.5).abs() / 1.5);
        }
    }
    assert!(rel_errs.len() > 200, "only {} matched", rel_errs.len());
    rel_errs.sort_by(|a, b| a.partial_cmp(b).unwrap());
    let median = rel_errs[rel_errs.len() / 2];
    let inliers = rel_errs.iter().filter(|e| **e < 0.05).count();
    assert!(median < 0.02, "median relative depth error {:.3} ({} matches)", median, rel_errs.len());
    assert!(inliers * 10 >= rel_errs.len() * 9, "only {inliers}/{} within 5%", rel_errs.len());
}

#[test]
fn shifted_row_is_found() {
    // The right image is the left one, shifted by three pixels.
    let left: Vec<u8> = (0..20 * 3).map(|i| ((i % 20) * (i % 20) % 97) as u8).collect();
    let mut right = vec![0u8; 60];
    for y in 0..3 {
        for x in 3..20 {
            right[y * 20 + x - 3] = left[y * 20 + x];
        }
    }
    let matcher = StereoMatcher::new(1, double(0.5), double(10.0));
    let m = matcher.match_feature(&left, &right, 20, 3, 10, 1, 1, 6).unwrap();
    assert_eq!((m.disparity, m.cost), (3, 0));
    assert!(m.below.unwrap() > 0 && m.above.unwrap() > 0);
    // The window leaves the image.
    assert!(matcher.match_feature(&left, &right, 20, 3, 10, 0, 1, 6).is_none());
    assert!(matcher.match_feature(&left, &right, 20, 3, 2, 1, 3, 6).is_none());
    let m = matcher.match_feature(&left, &right, 20, 3, 10, 1, 9, 12).unwrap();
    assert_eq!((m.disparity, m.above), (9, None));
    // Of equal costs the first counts.
    let flat = vec![7u8; 60];
    let m = matcher.match_feature(&flat, &flat, 20, 3, 10, 1, 2, 6).unwrap();
    assert_eq!((m.disparity, m.cost, m.below, m.above), (2, 0, Some(0), Some(0)));
}

#[test]
fn depths_have_bounds() {
    let matcher = StereoMatcher::new(5, double(0.5), double(10.0));
    assert!(matcher.accepts_depth(double(0.5)));
    assert!(matcher.accepts_depth(double(10.0)));
    assert!(!matcher.accepts_depth(double(10.000001)));
    assert!(!matcher.accepts_depth(double(0.499)));
    assert!(!matcher.accepts_depth(double(f64::NAN)));
    assert!(!matcher.accepts_depth(double(f64::INFINITY)));
}

#[test]
fn samples_follow_the_generator() {
    assert!(Sampling::new(2, 2000).is_none());
    let n = 57usize;
    let mut s = Sampling::new(n, 2000).unwrap();
    let mut state = 0x9E3779B97F4A7C15u64;
    let mut rand = move || {
        state = state.wrapping_mul(6364136223846793005).wrapping_add(1442695040888963407);
        (state >> 33) as usize % n
    };
    let mut expected = Vec::new();
    for _ in 0..2000 {
        let (i, j, k) = (rand(), rand(), rand());
        if i == j || i == k || j == k {
            continue;
        }
        expected.push((i, j, k));
    }
    let mut got = Vec::new();
    while let Some(t) = s.next_sample() {
        got.push(t);
    }
    assert_eq!(got, expected);
    assert!(s.next_sample().is_none());
}

#[test]
fn only_a_greater_score_is_better() {
    let mut s = Sampling::new(3, 1).unwrap();
    let better: Vec<bool> = [4, 4, 3, 9, 9, 10].into_iter().map(|c| s.consider(c)).collect();
    assert_eq!(better, [true, false, false, true, false, true]);
}

#[test]
fn inliers_lie_below_the_threshold() {
    let errors: Vec<Double> =
        [0.0, 1.5, 1.4999, f64::INFINITY, f64::NAN, 0.3].into_iter().map(double).collect();
    assert_eq!(inliers(&errors, double(1.5)), [0, 2, 5]);
    assert!(inliers(&vec![], double(1.5)).is_empty());
}

#[test]
fn inlier_gate() {
    assert_eq!(min_inliers(5), None);
    assert_eq!(min_inliers(6), Some(20));
    assert_eq!(min_inliers(839), Some(20));
    assert_eq!(min_inliers(840), Some(21));
    assert!(trusted(21, 21) && !trusted(20, 21));
    assert_eq!(
        usable(
            &vec![true, true, false, true],
            &vec![true, false, true, true],
            &vec![true, true, true, true]
        ),
        [0, 3]
    );
}

#[test]
fn keyframe_always_advances() {
    let image = |v: u8| {
        let mut img = vec![100u8; 49];
        img[3 * 7 + 3] = v;
        img
    };
    let mut vo = VoPipeline::new(7, 7);
    assert!(vo.keyframe().is_none());
    assert_eq!(vo.process(image(250), image(1), false), Outcome::Origin);
    assert_eq!(vo.frames(), 1);
    assert_eq!(vo.keyframe().unwrap().features, [Corner { x: 3, y: 3 }]);
    assert_eq!(vo.process(image(240), image(2), true), Outcome::Moved);
    assert_eq!(vo.frames(), 2);
    assert_eq!(vo.process(image(105), image(3), false), Outcome::Held);
    assert_eq!(vo.frames(), 2);
    assert_eq!(vo.keyframe().unwrap().left, image(105));
    assert_eq!(vo.keyframe().unwrap().right, image(3));
    assert!(vo.keyframe().unwrap().features.is_empty());
    vo.reset();
    assert_eq!(vo.frames(), 0);
    assert_eq!(vo.process(image(250), image(1), true), Outcome::Origin);
}

#[test]
fn keyframe_keeps_the_strongest_corners() {
    let frame = render(1.5);
    let all = detect_corners_fast(&frame.left, 640, 480, 20);
    assert!(all.len() > 1500);
    let mut vo = VoPipeline::new(640, 480);
    vo.process(frame.left.clone(), frame.right.clone(), false);
    assert_eq!(vo.keyframe().unwrap().features[..], all[..1500]);
}

#[test]
fn taps_repeat_the_edge() {
    let img = [1u8, 2, 3, 4, 5, 6];
    let t = taps(&img, 3, 2, 0, 0);
    assert_eq!((t.x, t.y, t.a, t.b, t.c, t.d), (0, 0, 1, 2, 4, 5));
    let t = taps(&img, 3, 2, 2, 1);
    assert_eq!((t.x, t.y, t.a, t.b, t.c, t.d), (2, 1, 6, 6, 6, 6));
    let t = taps(&img, 3, 2, 100, -5);
    assert_eq!((t.x, t.y, t.a, t.b, t.c, t.d), (2, 0, 3, 3, 3, 3));
}

#[test]
fn border_and_coverage() {
    assert!(is_border(double(f64::NAN), double(3.0)));
    assert!(is_border(double(3.0), double(f64::NAN)));
    assert!(!is_border(double(-5.0), double(0.0)));
    assert!(!is_border(double(3.0), double(-0.5)));
    assert!(misses(double(0.0)) && misses(double(-1.0)) && misses(double(1e-9)));
    assert!(!misses(double(1.0)));
    let xs = [0.0, -1.0, 5.0, f64::NAN, 5.5, 6.0, 3.0, 3.0];
    let ys = [0.0, 2.0, 7.0, 1.0, 7.5, 1.0, 8.0, -0.5];
    let xs: Vec<Double> = xs.into_iter().map(double).collect();
    let ys: Vec<Double> = ys.into_iter().map(double).collect();
    assert_eq!(covered_count(&xs, &ys, double(6.0), double(8.0)), 3);
}

#[test]
fn visual_replay_of_a_directory() {
    assert_eq!(
        ReplayVisualSource::open("/x", false, 2, 2).err().unwrap(),
        "replay-visual path is not a directory: /x"
    );
    let mut s = ReplayVisualSource::open("/x", true, 2, 2).unwrap();
    assert_eq!(s.name(), "replay-visual(/x)");
    assert_eq!(s.size(), (2, 2));
    assert_eq!(ReplayVisualSource::open("/x", true, 640, 480).unwrap().size(), (640, 480));
    assert_eq!(s.file_name(Side::Left), "left_0000.raw");
    assert_eq!(s.file_name(Side::Right), "right_0000.raw");
    assert_eq!(
        s.load("/x/a", Err("no".to_string())).unwrap_err(),
        "cannot read /x/a: no"
    );
    assert_eq!(
        s.load("/x/a", Ok(vec![1, 2, 3])).unwrap_err(),
        "/x/a: expected 4 bytes, got 3"
    );
    let image = s.load("/x/a", Ok(vec![1, 2, 3, 4])).unwrap();
    assert_eq!(image, [1, 2, 3, 4]);
    let gone = || Err("gone".to_string());
    assert_eq!(s.next_frame(gone(), gone()).unwrap_err(), "gone");
    let pair = s.next_frame(Ok(image.clone()), Ok(vec![5, 6, 7, 8])).unwrap();
    assert_eq!(pair, (vec![1, 2, 3, 4], vec![5, 6, 7, 8]));
    assert_eq!(s.file_name(Side::Left), "left_0001.raw");
    assert_eq!(s.next_frame(Ok(image), Err("right".to_string())).unwrap_err(), "right");
    assert_eq!(s.next_frame(gone(), gone()).unwrap_err(), "end of visual replay");
    assert_eq!(s.file_name(Side::Left), "left_0001.raw");
}

#[test]
fn frames_of_a_directory() {
    let names: Vec<String> = ["left_0000.raw", "right_0000.raw", "left_1.raw", "left_.txt", "xleft_.raw"]
        .iter()
        .map(|s| s.to_string())
        .collect();
    assert_eq!(replay_visual_frames(&names), 2);
}

#[test]
fn cameras_are_found_by_name() {
    let names = |n: &[&str]| n.iter().map(|s| s.to_string()).collect::<Vec<String>>();
    assert_eq!(
        slam_cameras(&names(&["RGB", "Nreal Light SLAM right", "Nreal Light SLAM left"])),
        Some((2, 1))
    );
    assert_eq!(slam_cameras(&names(&["Nreal Light SLAM left"])), None);
}

#[test]
fn frame_files_have_names_of_their_own() {
    assert_eq!(frame_file_name(Side::Left, 7), "left_0007.raw");
    assert_eq!(frame_file_name(Side::Right, 7), "right_0007.raw");
    assert_eq!(frame_file_name(Side::Left, 70), "left_0070.raw");
    assert_eq!(frame_file_name(Side::Left, 12345), "left_12345.raw");
    assert_ne!(frame_file_name(Side::Left, 1), frame_file_name(Side::Left, 10));
}

#[test]
fn texture_needs_two_directions() {
    let t = |xx: i128, xy: i128, yy: i128| has_texture(Tensor { xx, xy, yy });
    assert!(t(2, 1, 1));
    assert!(!t(1, 1, 1));
    assert!(!t(0, 0, 0));
    assert!(!t(5, 0, 0));
    assert!(!t(-2, 1, 3));
    assert!(t(-2, 1, -3));
    assert!(t(i128::MAX, i128::MAX - 1, i128::MAX));
    assert!(!t(i128::MAX, i128::MIN, i128::MAX));
    assert!(t(i128::MIN, i128::MAX, i128::MIN));
    let wide = 1i128 << 80;
    assert!(t(wide + 1, wide, wide));
    assert!(!t(wide + 1, wide + 1, wide));
}

#[test]
fn tracker_limits() {
    assert_eq!(f64::from_bits(MAX_ERROR), 1.5);
    assert_eq!(f64::from_bits(MIN_DEPTH), 0.5);
    assert_eq!(f64::from_bits(MAX_DEPTH), 10.0);
    assert_eq!(WINDOW_HALF, 5);
}

#[test]
fn samples_beyond_the_edge_take_the_edge_pixel() {
    let img = vec![200u8; 16];
    let xs: Vec<i32> = (-5..21).collect();
    for x in xs {
        assert!(!is_border(double(x as f64), double(0.0)));
        let t = taps(&img, 16, 1, x, 0);
        assert_eq!((t.a, t.b, t.c, t.d), (200, 200, 200, 200));
    }
}

#[test]
fn frame_after_a_held_one_is_tracked_against_it() {
    let (a, b, c) = (vec![10u8; 64], vec![20u8; 64], vec![30u8; 64]);
    let mut vo = VoPipeline::new(8, 8);
    assert_eq!(vo.process(a.clone(), a.clone(), false), Outcome::Origin);
    assert_eq!(vo.process(b.clone(), b.clone(), false), Outcome::Held);
    assert_eq!(vo.frames(), 1);
    let mut fresh = VoPipeline::new(8, 8);
    assert_eq!(fresh.process(b.clone(), b.clone(), false), Outcome::Origin);
    assert_eq!(vo.keyframe().unwrap().left, fresh.keyframe().unwrap().left);
    assert_eq!(vo.keyframe().unwrap().features, fresh.keyframe().unwrap().features);
    assert_eq!(vo.process(c.clone(), c.clone(), true), Outcome::Moved);
    assert_eq!(fresh.process(c.clone(), c.clone(), true), Outcome::Moved);
    assert_eq!(vo.frames(), 2);
}
