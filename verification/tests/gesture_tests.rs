//! Tests of the gesture classifier, the motion tracker, the crop
//! transform, the queue discipline and the textual helpers.

use gesture_universe::crop::{crop_from_palm, estimate_orientation, prepare_rotated_crop, sample_rgb, CropTransform};
use gesture_universe::download::{
    default_handpose_estimator_model_path, default_palm_detector_model_path, model_label,
    progress_bar_string, DownloadState, ModelDownloadEvent, ModelKind,
};
use gesture_universe::fixed::UNIT;
use gesture_universe::gesture::{
    classify_finger, classify_thumb, handedness_from_score, normalize_for_model,
    normalize_landmarks, projected_span, GestureClassifier, MotionTracker, MIN_CONFIDENCE,
};
use gesture_universe::handpose::{combine_confidence, decode_landmarks, HandposeOutput, LandmarkError};
use gesture_universe::pipeline::{
    build_gesture_result, classify_brightness, latest_frame, BoundedQueue, RecognizerBackend,
};
use gesture_universe::skeleton::{draw_palm_regions, put_pixel_safe};
use gesture_universe::text::u64_to_string;
use gesture_universe::types::{
    FingerState, Frame, GestureKind, GestureMotion, GestureResult, Handedness, PalmRegion,
};

fn open_hand() -> Vec<[i64; 3]> {
    // A synthetic upright open hand in fixed-point model pixels: wrist at
    // the bottom, five straight fingers fanning upwards.
    let mut lms: Vec<[i64; 3]> = Vec::new();
    let px = |x: i64, y: i64| -> [i64; 3] { [x * UNIT, y * UNIT, 0] };
    lms.push(px(100, 200));  // 0 wrist
    lms.push(px(80, 185));  // 1 thumb cmc
    lms.push(px(65, 170));  // 2 thumb mcp
    lms.push(px(50, 155));  // 3 thumb ip
    lms.push(px(35, 140));  // 4 thumb tip
    lms.push(px(80, 140));  // 5 index mcp
    lms.push(px(76, 115));  // 6
    lms.push(px(72, 90));  // 7
    lms.push(px(68, 65));  // 8 index tip
    lms.push(px(95, 135));  // 9 middle mcp
    lms.push(px(94, 105));  // 10
    lms.push(px(93, 75));  // 11
    lms.push(px(92, 45));  // 12 middle tip
    lms.push(px(110, 138));  // 13 ring mcp
    lms.push(px(112, 110));  // 14
    lms.push(px(114, 82));  // 15
    lms.push(px(116, 55));  // 16 ring tip
    lms.push(px(125, 145));  // 17 pinky mcp
    lms.push(px(129, 122));  // 18
    lms.push(px(133, 100));  // 19
    lms.push(px(137, 78));  // 20 pinky tip
    lms
}

fn projected_of(lms: &Vec<[i64; 3]>) -> Vec<(i64, i64)> {
    lms.iter().map(|p| (p[0], p[1])).collect()
}

#[test]
fn open_hand_fingers_are_extended() {
    let (normalized, _span) = normalize_landmarks(&open_hand());
    assert_eq!(classify_finger(&normalized, [5, 6, 7, 8]), FingerState::Extended);
    assert_eq!(classify_finger(&normalized, [9, 10, 11, 12]), FingerState::Extended);
    assert_eq!(classify_finger(&normalized, [13, 14, 15, 16]), FingerState::Extended);
    assert_eq!(classify_finger(&normalized, [17, 18, 19, 20]), FingerState::Extended);
    assert_eq!(classify_thumb(&normalized), FingerState::Extended);
}

#[test]
fn finger_states_invariant_under_translation() {
    let base = open_hand();
    let moved: Vec<[i64; 3]> = base.iter().map(|p| [p[0] + 37 * UNIT, p[1] - 11 * UNIT, p[2]]).collect();

    let mut c1 = GestureClassifier::new();
    let mut c2 = GestureClassifier::new();
    let d1 = c1
        .classify(&base, &projected_of(&base), 900, 700, 0, GestureKind::Palm)
        .unwrap();
    let d2 = c2
        .classify(&moved, &projected_of(&moved), 900, 700, 0, GestureKind::Palm)
        .unwrap();
    assert_eq!(d1.finger_states, d2.finger_states);
}

#[test]
fn low_confidence_yields_no_gesture() {
    let mut c = GestureClassifier::new();
    let lms = open_hand();
    let res = c.classify(&lms, &projected_of(&lms), MIN_CONFIDENCE - 1, 700, 0, GestureKind::Palm);
    assert!(res.is_none());
    let res = c.classify(&vec![[0, 0, 0]; 5], &projected_of(&lms), 900, 700, 0, GestureKind::Palm);
    assert!(res.is_none());
}

#[test]
fn classify_fills_every_field() {
    let mut c = GestureClassifier::new();
    let lms = open_hand();
    let d = c
        .classify(&lms, &projected_of(&lms), 900, 700, 0, GestureKind::Peace)
        .unwrap();
    assert_eq!(d.primary, GestureKind::Peace);
    assert!(d.secondary.is_none());
    assert_eq!(d.handedness, Handedness::Right);
    assert_eq!(d.motion, GestureMotion::Steady);
}

#[test]
fn handedness_thresholds() {
    assert_eq!(handedness_from_score(500), Handedness::Right);
    assert_eq!(handedness_from_score(499), Handedness::Left);
    assert_eq!(handedness_from_score(1), Handedness::Left);
    assert_eq!(handedness_from_score(0), Handedness::Unknown);
    assert_eq!(handedness_from_score(-5), Handedness::Unknown);
}

#[test]
fn motion_tracker_steady_under_three_samples() {
    let mut t = MotionTracker::new();
    assert_eq!(t.update((10 * UNIT, 10 * UNIT), 5 * UNIT, 0, GestureKind::Palm), GestureMotion::Steady);
    assert_eq!(t.update((90 * UNIT, 10 * UNIT), 5 * UNIT, 100, GestureKind::Palm), GestureMotion::Steady);
}

#[test]
fn motion_tracker_steady_for_stationary_point() {
    let mut t = MotionTracker::new();
    let mut last = GestureMotion::Steady;
    for i in 0..6u64 {
        // The same point every sample, with wildly varying spans.
        last = t.update((42 * UNIT, 17 * UNIT), (1 + i as i64 * 50) * UNIT, i * 100, GestureKind::Palm);
    }
    assert_eq!(last, GestureMotion::Steady);
}

#[test]
fn motion_tracker_detects_fanning() {
    let mut t = MotionTracker::new();
    let span = 10 * UNIT;
    let xs = [0i64, 100, 0, 100, 0, 100];
    let mut last = GestureMotion::Steady;
    for (i, x) in xs.iter().enumerate() {
        last = t.update((x * UNIT, 0), span, i as u64 * 100, GestureKind::Palm);
    }
    assert_eq!(last, GestureMotion::Fanning);
}

#[test]
fn motion_tracker_evicts_old_samples() {
    let mut t = MotionTracker::new();
    t.update((0, 0), UNIT, 0, GestureKind::Palm);
    t.update((90 * UNIT, 0), UNIT, 10, GestureKind::Palm);
    // Two seconds later both old samples fall out of the window: a fresh
    // single-sample window is Steady.
    let m = t.update((0, 0), UNIT, 2500, GestureKind::Palm);
    assert_eq!(m, GestureMotion::Steady);
}

#[test]
fn model_normalization_needs_nonzero_scale() {
    assert!(normalize_for_model(&vec![[0, 0, 0]; 20]).is_none());
    assert!(normalize_for_model(&vec![[0, 0, 0]; 21]).is_none());
    let v = normalize_for_model(&open_hand()).unwrap();
    assert_eq!(v.len(), 42);
    // The wrist lands at the origin.
    assert_eq!(v[0], 0);
    assert_eq!(v[1], 0);
}

#[test]
fn logits_argmax_maps_through_table() {
    let c = GestureClassifier::new();
    let mut logits = vec![0i64; 34];
    logits[16] = 900;
    assert_eq!(c.detect_gesture_from_logits(&logits), GestureKind::Palm);
    // Out-of-range arg-max gives Unknown.
    let mut long = vec![0i64; 40];
    long[39] = 5;
    assert_eq!(c.detect_gesture_from_logits(&long), GestureKind::Unknown);
    // Ties break to the later class.
    let tie = vec![7i64; 34];
    assert_eq!(c.detect_gesture_from_logits(&tie), GestureKind::XSign);
}

#[test]
fn decode_landmarks_needs_63_values() {
    assert_eq!(decode_landmarks(&vec![0i64; 62]).unwrap_err(), LandmarkError::TooShort);
    let mut flat = vec![0i64; 63];
    flat[3] = 7;
    flat[62] = 9;
    let lms = decode_landmarks(&flat).unwrap();
    assert_eq!(lms.len(), 21);
    assert_eq!(lms[1][0], 7);
    assert_eq!(lms[20][2], 9);
}

#[test]
fn confidence_combines_multiplicatively_and_clamps() {
    assert_eq!(combine_confidence(800, 900), 720);
    assert_eq!(combine_confidence(1000, 1000), 1000);
    assert_eq!(combine_confidence(2000, 1000), 1000);
    assert_eq!(combine_confidence(-500, 1000), 0);
}

#[test]
fn crop_center_and_side_from_region() {
    let region = PalmRegion {
        bbox: [10 * UNIT, 10 * UNIT, 20 * UNIT, 20 * UNIT],
        landmarks: vec![(10 * UNIT, 10 * UNIT), (20 * UNIT, 20 * UNIT)],
        score: 900,
    };
    let (center, side, _rot) = crop_from_palm(&region);
    assert_eq!(center, (15 * UNIT, 15 * UNIT));
    // All extents are below the 80-pixel floor: side = 80 * 2.4 = 192.
    assert_eq!(side, 192 * UNIT);
}

#[test]
fn orientation_of_horizontal_scatter_points_down() {
    // Keypoints spread along x only: the principal axis is the x axis and
    // the quarter-turn leaves rotation (0, -1).
    let region = PalmRegion {
        bbox: [0, 0, UNIT, UNIT],
        landmarks: vec![(0, 0), (100 * UNIT, 0)],
        score: 500,
    };
    let rot = estimate_orientation(&region);
    // The eigenvector branch requires an off-diagonal covariance; a pure
    // axis scatter falls back by comparing the variances.
    assert_eq!(rot, (0, -UNIT));
}

#[test]
fn project_center_is_identity() {
    let t = CropTransform {
        center: (96 * UNIT, 96 * UNIT),
        side: 224 * UNIT,
        rot_cos: 600,
        rot_sin: 800,
        output_size: 224,
        orig_w: 192,
        orig_h: 192,
    };
    let model_center = 224 * UNIT / 2;
    assert_eq!(t.project(model_center, model_center), (96 * UNIT, 96 * UNIT));
}

#[test]
fn rotated_crop_of_uniform_frame_is_uniform() {
    let mut frame = Frame { rgba: vec![90u8; 8 * 8 * 4], width: 8, height: 8, timestamp_ms: 0 };
    for px in frame.rgba.chunks_mut(4) {
        px[3] = 255;
    }
    let (data, t) = prepare_rotated_crop(&frame, (4 * UNIT, 4 * UNIT), 4 * UNIT, (600, 800), 4)
        .unwrap();
    assert_eq!(data.len(), 4 * 4 * 3);
    assert_eq!(t.output_size, 4);
    for b in data {
        assert_eq!(b, 90);
    }
    let bad = Frame { rgba: vec![0u8; 7], width: 8, height: 8, timestamp_ms: 0 };
    assert!(prepare_rotated_crop(&bad, (0, 0), UNIT, (UNIT, 0), 4).is_err());
}

#[test]
fn bilinear_sample_blends_neighbors() {
    // 2x1 frame, left pixel 0, right pixel 200: halfway reads 100.
    let rgba = vec![0, 0, 0, 255, 200, 200, 200, 255];
    let frame = Frame { rgba, width: 2, height: 1, timestamp_ms: 0 };
    let rgb = sample_rgb(&frame, UNIT / 2, 0);
    assert_eq!(rgb, [100, 100, 100]);
    // Far outside the frame everything is black.
    let rgb = sample_rgb(&frame, -50 * UNIT, 0);
    assert_eq!(rgb, [0, 0, 0]);
}

#[test]
fn queue_drops_new_item_when_full() {
    let mut q: BoundedQueue<u32> = BoundedQueue::new(1);
    assert!(q.try_send(1));
    assert!(!q.try_send(2));
    assert_eq!(q.recv_latest(), Some(1));
    assert_eq!(q.recv_latest(), None);
}

#[test]
fn recognizer_drain_keeps_only_latest_frame() {
    // Three frames arrive before the recognizer drains: only the third is
    // processed, the first two are dropped silently.
    let mut q: BoundedQueue<Frame> = BoundedQueue::new(4);
    for ts in 1..=3u64 {
        let f = Frame { rgba: vec![0u8; 4], width: 1, height: 1, timestamp_ms: ts };
        assert!(q.try_send(f));
    }
    let got = q.recv_latest().unwrap();
    assert_eq!(got.timestamp_ms, 3);
    assert_eq!(q.len(), 0);
    assert!(q.recv_latest().is_none());
}

#[test]
fn latest_frame_takes_last() {
    let frames: Vec<Frame> = (1..=3u64)
        .map(|ts| Frame { rgba: vec![0u8; 4], width: 1, height: 1, timestamp_ms: ts })
        .collect();
    assert_eq!(latest_frame(frames).unwrap().timestamp_ms, 3);
    assert!(latest_frame(Vec::new()).is_none());
}

#[test]
fn absent_hand_yields_empty_result() {
    // An all-zero frame produced no palm regions; the assembled result
    // reports zero confidence and no landmarks.
    let output = HandposeOutput {
        raw_landmarks: vec![],
        projected_landmarks: vec![],
        confidence: 0,
        handedness: 0,
        palm_regions: vec![],
    };
    let mut classifier = GestureClassifier::new();
    let res = build_gesture_result(&output, 7, &mut classifier, GestureKind::Unknown);
    assert_eq!(res.confidence, 0);
    assert!(res.landmarks.is_none());
    assert!(res.detail.is_none());
    assert_eq!(res.label, "未检测到手");
    assert_eq!(res.timestamp_ms, 7);
}

#[test]
fn detected_hand_carries_landmarks_and_label() {
    let lms = open_hand();
    let output = HandposeOutput {
        raw_landmarks: lms.clone(),
        projected_landmarks: projected_of(&lms),
        confidence: 900,
        handedness: 700,
        palm_regions: vec![],
    };
    let mut classifier = GestureClassifier::new();
    let res = build_gesture_result(&output, 7, &mut classifier, GestureKind::Palm);
    assert_eq!(res.confidence, 900);
    assert_eq!(res.landmarks.as_ref().unwrap().len(), 21);
    assert!(res.detail.is_some());
    assert_eq!(res.label, "🖐 手掌");
}

#[test]
fn brightness_classifier_averages_pixels() {
    // Two pixels of uniform value 30: average brightness 30, confidence
    // 30000 / 255 = 117 thousandths.
    let frame = Frame { rgba: vec![30u8; 2 * 1 * 4], width: 2, height: 1, timestamp_ms: 3 };
    let res = classify_brightness(&frame);
    assert_eq!(res.confidence, 117);
    assert_eq!(res.label, "Low motion");
    let bright = Frame { rgba: vec![200u8; 4], width: 1, height: 1, timestamp_ms: 3 };
    let res = classify_brightness(&bright);
    assert_eq!(res.label, "Hand/bright motion");
    assert_eq!(res.confidence, 784);
}

#[test]
fn backend_reports_model_and_label() {
    let b = RecognizerBackend { model_path: String::from("models/a.onnx") };
    assert_eq!(b.model_path(), "models/a.onnx");
    assert_eq!(b.label(), "ort");
}

#[test]
fn display_text_formats_percent() {
    let res = GestureResult {
        label: String::from("x"),
        confidence: 876,
        timestamp_ms: 0,
        landmarks: None,
        detail: None,
        palm_regions: vec![],
    };
    assert_eq!(res.display_text(), "x (88%)");
}

#[test]
fn labels_match_display_strings() {
    assert_eq!(Handedness::Left.label(), "左手");
    assert_eq!(FingerState::Folded.label(), "弯曲");
    assert_eq!(GestureKind::Palm.display_name(), "手掌");
    assert_eq!(GestureKind::Palm.emoji(), "🖐 ");
    assert_eq!(GestureMotion::Fanning.label(), "左右扇动");
}

#[test]
fn model_paths_and_labels() {
    assert_eq!(
        default_handpose_estimator_model_path(),
        "models/handpose_estimation_mediapipe_2023feb.onnx"
    );
    assert_eq!(default_palm_detector_model_path(), "models/palm_detection_mediapipe_2023feb.onnx");
    assert_eq!(model_label(ModelKind::PalmDetector), "Palm detector");
}

#[test]
fn download_state_folds_events() {
    let mut s = DownloadState::new();
    assert!(!s.finished);
    s.update_from_event(ModelDownloadEvent::Started { model: ModelKind::HandposeEstimator, total: Some(100) });
    assert_eq!(s.message, "Downloading Handpose estimator model...");
    s.update_from_event(ModelDownloadEvent::Progress {
        model: ModelKind::HandposeEstimator,
        downloaded: 42,
        total: Some(100),
    });
    assert_eq!(s.downloaded, 42);
    s.update_from_event(ModelDownloadEvent::Finished { model: ModelKind::HandposeEstimator });
    assert!(s.handpose_ready);
    assert!(!s.finished);
    s.update_from_event(ModelDownloadEvent::AlreadyPresent { model: ModelKind::PalmDetector });
    assert!(s.palm_ready);
    assert!(s.finished);
    assert_eq!(s.message, "Palm detector model already present, continuing...");
}

#[test]
fn progress_bar_renders_known_and_unknown_totals() {
    assert_eq!(progress_bar_string(423, Some(1000)), "[=============                 ]  42.3%");
    assert_eq!(progress_bar_string(1000, Some(1000)), "[==============================] 100.0%");
    assert_eq!(progress_bar_string(0, Some(1000)), "[                              ]   0.0%");
    assert_eq!(progress_bar_string(0, None), "[>] unknown size");
    assert_eq!(progress_bar_string(64, None), "[>-] unknown size");
    assert_eq!(progress_bar_string(0, Some(0)), "[>] unknown size");
}

#[test]
fn number_formatting() {
    assert_eq!(u64_to_string(0), "0");
    assert_eq!(u64_to_string(42), "42");
    assert_eq!(u64_to_string(1000), "1000");
}

#[test]
fn projected_span_floors_at_one_pixel() {
    assert_eq!(projected_span(&vec![(5 * UNIT, 5 * UNIT)]), UNIT);
    assert_eq!(projected_span(&vec![(0, 0), (30 * UNIT, 10 * UNIT)]), 30 * UNIT);
}

#[test]
fn weak_palm_regions_are_not_drawn() {
    let mut buffer = vec![9u8; 8 * 8 * 4];
    let before = buffer.clone();
    let regions = vec![PalmRegion { bbox: [0, 0, 4 * UNIT, 4 * UNIT], landmarks: vec![], score: 100 }];
    draw_palm_regions(&mut buffer, 8, 8, &regions);
    assert_eq!(buffer, before);
}

#[test]
fn pixel_write_respects_bounds() {
    let mut buffer = vec![0u8; 2 * 2 * 4];
    put_pixel_safe(&mut buffer, 2, 2, 1, 0, [9, 8, 7, 6]);
    assert_eq!(&buffer[4..8], &[9, 8, 7, 6]);
    let before = buffer.clone();
    put_pixel_safe(&mut buffer, 2, 2, -1, 0, [1, 1, 1, 1]);
    put_pixel_safe(&mut buffer, 2, 2, 5, 5, [1, 1, 1, 1]);
    assert_eq!(buffer, before);
}
