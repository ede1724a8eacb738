//! Tests of the letterbox preprocessing, the palm decoding, IoU and NMS.

use gesture_universe::fixed::UNIT;
use gesture_universe::letterbox::{prepare_frame_with_size, project_landmarks, LetterboxInfo, PrepareError};
use gesture_universe::palm::{
    decode_palm_outputs, iou, nms, palm_anchors, pick_primary_region, sigmoid_fixed,
    DetectError, PalmDetectorConfig, NUM_ANCHORS,
};
use gesture_universe::types::{Frame, PalmRegion};

fn frame_of(width: u32, height: u32, byte: u8) -> Frame {
    Frame {
        rgba: vec![byte; (width * height * 4) as usize],
        width,
        height,
        timestamp_ms: 0,
    }
}

#[test]
fn letterbox_rejects_size_mismatch() {
    let bad = Frame { rgba: vec![0u8; 10], width: 4, height: 4, timestamp_ms: 0 };
    let res = prepare_frame_with_size(&bad, 192);
    assert_eq!(res.unwrap_err(), PrepareError::SizeMismatch);
}

#[test]
fn letterbox_rejects_empty_frame() {
    let empty = Frame { rgba: vec![], width: 0, height: 0, timestamp_ms: 0 };
    let res = prepare_frame_with_size(&empty, 192);
    assert_eq!(res.unwrap_err(), PrepareError::EmptyFrame);
}

#[test]
fn letterbox_uniform_square_passes_through() {
    // A uniform 2x2 frame resized to 4x4 stays uniform, with no border.
    let mut frame = frame_of(2, 2, 100);
    for px in frame.rgba.chunks_mut(4) {
        px[3] = 255;
    }
    let (canvas, info) = prepare_frame_with_size(&frame, 4).unwrap();
    assert_eq!(canvas.len(), 4 * 4 * 4);
    assert_eq!(info.pad_x, 0);
    assert_eq!(info.pad_y, 0);
    for px in canvas.chunks(4) {
        assert_eq!(px[0], 100);
        assert_eq!(px[1], 100);
        assert_eq!(px[2], 100);
        assert_eq!(px[3], 255);
    }
}

#[test]
fn letterbox_pads_wide_frame_with_black() {
    // A 4x2 frame letterboxed into a 4x4 square: two black rows above and
    // below the content.
    let frame = frame_of(4, 2, 200);
    let (canvas, info) = prepare_frame_with_size(&frame, 4).unwrap();
    assert_eq!(info.pad_x, 0);
    assert_eq!(info.pad_y, 1);
    // Top row is opaque black.
    for x in 0..4 {
        let i = x * 4;
        assert_eq!(canvas[i], 0);
        assert_eq!(canvas[i + 1], 0);
        assert_eq!(canvas[i + 2], 0);
        assert_eq!(canvas[i + 3], 255);
    }
    // A middle row carries the (uniform) content.
    let row = 1usize;
    for x in 0..4 {
        let i = (row * 4 + x) * 4;
        assert_eq!(canvas[i], 200);
    }
}

#[test]
fn unletterbox_maps_center_back() {
    let info = LetterboxInfo { pad_x: 0, pad_y: 16, target_size: 192, orig_w: 192, orig_h: 160 };
    // A landmark at model position (96, 96) maps to frame x 96.
    let lms = vec![[96 * UNIT, 96 * UNIT, 0]];
    let projected = project_landmarks(&lms, &info);
    assert_eq!(projected.len(), 1);
    assert_eq!(projected[0].0, 96 * UNIT);
    assert_eq!(projected[0].1, 80 * UNIT);
}

#[test]
fn sigmoid_fixed_values() {
    assert_eq!(sigmoid_fixed(0), 500);
    assert_eq!(sigmoid_fixed(4 * UNIT), 900);
    assert_eq!(sigmoid_fixed(-4 * UNIT), 100);
    assert!(sigmoid_fixed(i64::MAX) <= UNIT);
    assert!(sigmoid_fixed(i64::MIN + 1) >= 0);
}

#[test]
fn iou_of_box_with_itself_is_one() {
    let b = [10 * UNIT, 20 * UNIT, 50 * UNIT, 60 * UNIT];
    assert_eq!(iou(&b, &b), UNIT);
}

#[test]
fn iou_of_disjoint_boxes_is_zero() {
    let a = [0, 0, 10 * UNIT, 10 * UNIT];
    let b = [20 * UNIT, 0, 30 * UNIT, 10 * UNIT];
    assert_eq!(iou(&a, &b), 0);
    assert_eq!(iou(&b, &a), 0);
}

#[test]
fn iou_of_half_overlap() {
    // [0,10]x[0,10] vs [5,15]x[0,10]: intersection 50, union 150.
    let a = [0, 0, 10, 10];
    let b = [5, 0, 15, 10];
    assert_eq!(iou(&a, &b), 333);
}

fn region(bbox: [i64; 4], score: i64) -> PalmRegion {
    PalmRegion { bbox, landmarks: vec![], score }
}

#[test]
fn nms_suppresses_overlaps_and_orders_by_score() {
    let candidates = vec![
        region([0, 0, 10 * UNIT, 10 * UNIT], 600),
        region([1000, 0, 10 * UNIT + 1000, 10 * UNIT], 900),
        region([50 * UNIT, 0, 60 * UNIT, 10 * UNIT], 700),
    ];
    let keep = nms(&candidates, 300, 32);
    // The strong overlap of the first two keeps only the higher-scoring
    // one; the far box survives.
    assert_eq!(keep.len(), 2);
    assert_eq!(keep[0], 1);
    assert_eq!(keep[1], 2);
    for i in 0..keep.len() {
        for j in 0..keep.len() {
            if i != j {
                let v = iou(&candidates[keep[i]].bbox, &candidates[keep[j]].bbox);
                assert!(v < 300);
            }
        }
        if i > 0 {
            assert!(candidates[keep[i - 1]].score >= candidates[keep[i]].score);
        }
    }
}

#[test]
fn nms_respects_top_k() {
    let candidates = vec![
        region([0, 0, 10 * UNIT, 10 * UNIT], 600),
        region([50 * UNIT, 0, 60 * UNIT, 10 * UNIT], 700),
        region([100 * UNIT, 0, 110 * UNIT, 10 * UNIT], 800),
    ];
    let keep = nms(&candidates, 300, 2);
    assert_eq!(keep.len(), 2);
    assert_eq!(keep[0], 2);
    assert_eq!(keep[1], 1);
}

#[test]
fn palm_anchor_table_has_expected_layout() {
    let anchors = palm_anchors();
    assert_eq!(anchors.len(), NUM_ANCHORS);
    // First cell of the 24x24 grid: center (0.5/24, 0.5/24).
    assert_eq!(anchors[0], (20, 20));
    assert_eq!(anchors[1], (20, 20));
    // Second cell steps one column: 1.5/24.
    assert_eq!(anchors[2].0, 62);
}

fn zero_letterbox() -> LetterboxInfo {
    LetterboxInfo { pad_x: 0, pad_y: 0, target_size: 192, orig_w: 192, orig_h: 192 }
}

#[test]
fn decode_rejects_bad_shapes() {
    let cfg = PalmDetectorConfig::default();
    let info = zero_letterbox();
    let boxes = vec![0i64; 18];
    let scores = vec![0i64; NUM_ANCHORS];
    let r = decode_palm_outputs(&boxes, &vec![2016, 18], &scores, &vec![1, 2016, 1], &info, &cfg);
    assert_eq!(r.unwrap_err(), DetectError::BoxShapeRank);
    let r = decode_palm_outputs(&boxes, &vec![1, 2016, 18], &scores, &vec![2016, 1], &info, &cfg);
    assert_eq!(r.unwrap_err(), DetectError::ScoreShapeRank);
    let r = decode_palm_outputs(&boxes, &vec![1, 2016, 4], &scores, &vec![1, 2016, 1], &info, &cfg);
    assert_eq!(r.unwrap_err(), DetectError::FeatureDimTooSmall);
    let r = decode_palm_outputs(&boxes, &vec![1, 2016, 18], &scores, &vec![1, 999, 1], &info, &cfg);
    assert_eq!(r.unwrap_err(), DetectError::AnchorDimMismatch);
    let r = decode_palm_outputs(&boxes, &vec![1, 2016, 18], &vec![0i64; 5], &vec![1, 2016, 1], &info, &cfg);
    assert_eq!(r.unwrap_err(), DetectError::MissingScore);
    // A passing anchor whose box values are missing.
    let r = decode_palm_outputs(&vec![], &vec![1, 2016, 18], &scores, &vec![1, 2016, 1], &info, &cfg);
    assert_eq!(r.unwrap_err(), DetectError::MissingBoxValue);
}

#[test]
fn decode_zero_outputs_yields_no_regions() {
    // All-zero scores squash to exactly the threshold and pass, but the
    // zero-sized boxes are degenerate and dropped: an empty, non-error
    // result.
    let cfg = PalmDetectorConfig::default();
    let info = zero_letterbox();
    let boxes = vec![0i64; NUM_ANCHORS * 18];
    let scores = vec![0i64; NUM_ANCHORS];
    let regions =
        decode_palm_outputs(&boxes, &vec![1, 2016, 18], &scores, &vec![1, 2016, 1], &info, &cfg)
            .unwrap();
    assert!(regions.is_empty());
}

#[test]
fn decode_single_strong_anchor_yields_one_clamped_region() {
    // Anchor zero scores sigmoid(4.0) = 0.9; its box is 4 pixels wide
    // around the anchor center, fully inside the 192x192 frame.
    let cfg = PalmDetectorConfig::default();
    let info = zero_letterbox();
    let mut scores = vec![-10 * UNIT; NUM_ANCHORS];
    scores[0] = 4 * UNIT;
    let mut boxes = vec![0i64; NUM_ANCHORS * 18];
    boxes[2] = 4 * UNIT;  // width delta
    boxes[3] = 4 * UNIT;  // height delta
    let regions =
        decode_palm_outputs(&boxes, &vec![1, 2016, 18], &scores, &vec![1, 2016, 1], &info, &cfg)
            .unwrap();
    assert_eq!(regions.len(), 1);
    let r = &regions[0];
    assert_eq!(r.score, 900);
    // Anchor center 0.020833 * 192px = 4px; half side 2px.
    assert_eq!(r.bbox, [1840, 1840, 5840, 5840]);
    for k in 0..4 {
        assert!(r.bbox[k] >= 0);
        assert!(r.bbox[k] <= 191 * UNIT);
    }
    assert_eq!(r.landmarks.len(), 7);
}

#[test]
fn pick_primary_takes_first_highest_score() {
    let regions = vec![
        region([0, 0, 10, 10], 700),
        region([0, 0, 10, 10], 900),
        region([0, 0, 10, 10], 900),
    ];
    let best = pick_primary_region(&regions).unwrap();
    assert_eq!(best.score, 900);
    // Ties break to the first occurrence.
    assert!(std::ptr::eq(best, &regions[1]));
    assert!(pick_primary_region(&vec![]).is_none());
}
