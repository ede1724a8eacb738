//! The pipeline discipline around the recognition stages: bounded
//! single-slot queues with the drop/latest-frame-wins policy, the
//! placeholder brightness classifier, and the assembly of the per-frame
//! gesture result.
//!
//! The capture, recognition and presentation stages themselves run as
//! threads outside the library; their decisions — what a bounded send
//! drops, which queued frame a drain keeps, and what the result of a frame
//! is — live here.

use vstd::prelude::*;

use crate::fixed::{div_trunc, div_trunc_i128, spec_clamp, UNIT};
use crate::gesture::{GestureClassifier, MIN_CONFIDENCE};
use crate::handpose::HandposeOutput;
use crate::types::{Frame, GestureDetail, GestureKind, GestureResult};

verus! {

/// Which recognition backend the pipeline runs, identified by its model
/// file.
#[derive(Clone, Debug)]
pub struct RecognizerBackend {
    pub model_path: String,
}

impl RecognizerBackend {
    pub fn model_path(&self) -> (res: String)
        ensures
            res@ == self.model_path@,
    {
        self.model_path.clone()
    }

    pub fn label(&self) -> (res: &'static str)
        ensures
            res@ == "ort"@,
    {
        "ort"
    }
}

/// A bounded queue with the pipeline's backpressure policy: a send into a
/// full queue silently drops the new item (never an error, never a block),
/// and the receiver drains the whole queue and keeps only the newest item,
/// so stale entries are discarded rather than processed.
pub struct BoundedQueue<T> {
    pub items: Vec<T>,
    pub capacity: usize,
}

impl<T> BoundedQueue<T> {
    pub open spec fn wf(self) -> bool {
        self.items@.len() <= self.capacity
    }

    pub fn new(capacity: usize) -> (res: BoundedQueue<T>)
        ensures
            res.items@.len() == 0,
            res.capacity == capacity,
            res.wf(),
    {
        BoundedQueue { items: Vec::new(), capacity }
    }

    pub fn len(&self) -> (res: usize)
        ensures
            res == self.items@.len(),
    {
        self.items.len()
    }

    /// Best-effort send: the item is queued when a slot is free and
    /// silently dropped otherwise. Returns whether it was queued.
    pub fn try_send(&mut self, item: T) -> (accepted: bool)
        requires
            old(self).wf(),
        ensures
            final(self).capacity == old(self).capacity,
            final(self).wf(),
            accepted <==> old(self).items@.len() < old(self).capacity,
            accepted ==> final(self).items@ == old(self).items@.push(item),
            !accepted ==> final(self).items@ == old(self).items@,
    {
        if self.items.len() < self.capacity {
            self.items.push(item);
            true
        } else {
            false
        }
    }

    /// Latest-frame-wins receive: take the newest queued item and discard
    /// everything older; `None` exactly on an empty queue.
    pub fn recv_latest(&mut self) -> (res: Option<T>)
        requires
            old(self).wf(),
        ensures
            final(self).capacity == old(self).capacity,
            final(self).items@.len() == 0,
            final(self).wf(),
            res is None <==> old(self).items@.len() == 0,
            res matches Some(item) ==> item == old(self).items@.last(),
    {
        let mut newest: Option<T> = None;
        let ghost orig = self.items@;
        loop
            invariant_except_break
                orig == old(self).items@,
                self.items@.len() <= orig.len(),
                self.items@ =~= orig.subrange(0, self.items@.len() as int),
                newest is None <==> self.items@.len() == orig.len(),
                newest matches Some(x) ==> orig.len() > 0 && x == orig.last(),
                self.capacity == old(self).capacity,
            ensures
                self.items@.len() == 0,
                self.capacity == old(self).capacity,
                newest is None <==> orig.len() == 0,
                newest matches Some(x) ==> orig.len() > 0 && x == orig.last(),
            decreases self.items@.len(),
        {
            if self.items.len() == 0 {
                break ;
            }
            proof {
                assert(orig.subrange(0, self.items@.len() as int).last() == orig[self.items@.len()
                    - 1]);
            }
            let item = self.items.pop().unwrap();
            proof {
                assert(orig.subrange(0, self.items@.len() as int) =~= orig.subrange(
                    0,
                    self.items@.len() as int + 1,
                ).drop_last());
            }
            if newest.is_none() {
                newest = Some(item);
                proof {
                    assert(orig[orig.len() - 1] == orig.last());
                }
            }
        }
        newest
    }
}

/// The newest of a drained batch of frames: the one the recognizer will
/// process while all earlier ones are silently dropped.
pub fn latest_frame(frames: Vec<Frame>) -> (res: Option<Frame>)
    ensures
        res is None <==> frames@.len() == 0,
        res matches Some(f) ==> f == frames@.last(),
{
    let mut frames = frames;
    frames.pop()
}

/// Sum of the red, green and blue bytes over the first `n` pixels.
pub open spec fn rgb_sum(s: Seq<u8>, n: int) -> int
    decreases n,
{
    if n <= 0 {
        0
    } else {
        rgb_sum(s, n - 1) + s[4 * (n - 1)] + s[4 * (n - 1) + 1] + s[4 * (n - 1) + 2]
    }
}

/// The average pixel brightness of a frame in fixed-point: the mean over
/// all pixels of `(r + g + b) / 3`.
pub open spec fn avg_brightness_spec(frame: Frame) -> int {
    let n = frame.width * frame.height;
    if n == 0 {
        0
    } else {
        div_trunc(rgb_sum(frame.rgba@, n as int) * UNIT, 3 * n)
    }
}

/// The placeholder recognizer: classify a frame by its average
/// brightness, with no landmarks and no detail.
pub fn classify_brightness(frame: &Frame) -> (res: GestureResult)
    requires
        frame.wf(),
    ensures
        res.confidence == spec_clamp(div_trunc(avg_brightness_spec(*frame), 255), 0, UNIT as int),
        avg_brightness_spec(*frame) > 100 * UNIT ==> res.label@ == "Hand/bright motion"@,
        avg_brightness_spec(*frame) <= 100 * UNIT ==> res.label@ == "Low motion"@,
        res.timestamp_ms == frame.timestamp_ms,
        res.landmarks is None,
        res.detail is None,
        res.palm_regions@.len() == 0,
        0 <= res.confidence <= UNIT,
{
    let npx: usize = frame.rgba.len() / 4;
    proof {
        assert((frame.width as int) * (frame.height as int) * 4 == frame.rgba@.len());
        assert(frame.rgba@.len() / 4 == (frame.width as int) * (frame.height as int))
            by (nonlinear_arith)
            requires
                frame.rgba@.len() == (frame.width as int) * (frame.height as int) * 4,
        {};
    }
    let mut total: u128 = 0;
    let mut i: usize = 0;
    while i < npx
        invariant
            i <= npx,
            frame.wf(),
            npx == frame.width * frame.height,
            frame.rgba@.len() <= usize::MAX,
            total == rgb_sum(frame.rgba@, i as int),
            total <= i * 765,
        decreases npx - i,
    {
        proof {
            assert(4 * (i as int) + 2 < frame.rgba@.len()) by (nonlinear_arith)
                requires
                    0 <= i < npx,
                    npx == (frame.width as int) * (frame.height as int),
                    frame.rgba@.len() == (frame.width as int) * (frame.height as int) * 4,
            {};
            assert((i + 1) * 765 == i * 765 + 765) by (nonlinear_arith);
            assert((i as int) * 765 <= 0xFFFF_FFFF_FFFF_FFFF * 765) by (nonlinear_arith)
                requires
                    0 <= i <= 0xFFFF_FFFF_FFFF_FFFF,
            {};
        }
        let r = frame.rgba[4 * i];
        let g = frame.rgba[4 * i + 1];
        let b = frame.rgba[4 * i + 2];
        total = total + r as u128 + g as u128 + b as u128;
        i = i + 1;
    }
    let avg: i64 = if npx == 0 {
        0
    } else {
        proof {
            assert((npx as int) * 765 <= 0xFFFF_FFFF_FFFF_FFFF * 765) by (nonlinear_arith)
                requires
                    0 <= npx <= 0xFFFF_FFFF_FFFF_FFFF,
            {};
            assert((total as int) * 1000 <= (3 * (npx as int)) * 255000) by (nonlinear_arith)
                requires
                    0 <= total <= (npx as int) * 765,
            {};
            assert(((total as int) * 1000) / (3 * (npx as int)) <= 255000) by (nonlinear_arith)
                requires
                    (total as int) * 1000 <= (3 * (npx as int)) * 255000,
                    npx >= 1,
                    (total as int) * 1000 >= 0,
            {};
        }
        let q = div_trunc_i128((total as i128) * (UNIT as i128), 3 * (npx as i128));
        q as i64
    };
    proof {
        assert(avg == avg_brightness_spec(*frame));
    }
    let conf: i64 = {
        let c = ((avg as u64) / 255) as i64;
        if c > UNIT {
            UNIT
        } else {
            c
        }
    };
    let label: &'static str = if avg > 100 * UNIT {
        "Hand/bright motion"
    } else {
        "Low motion"
    };
    GestureResult {
        label: String::from_str(label),
        confidence: conf,
        timestamp_ms: frame.timestamp_ms,
        landmarks: None,
        detail: None,
        palm_regions: Vec::new(),
    }
}

/// The label of a gesture result: the primary gesture's emoji and name
/// when a detail exists, else whether a hand was seen at all.
pub open spec fn result_label_spec(detail: Option<GestureDetail>, has_detection: bool) -> Seq<char> {
    match detail {
        Some(d) => d.primary.emoji_spec() + d.primary.display_name_spec(),
        None => if has_detection {
            "检测到手"@
        } else {
            "未检测到手"@
        },
    }
}

/// Assemble the per-frame gesture result from one inference output: screen
/// on the confidence floor, run the gesture classifier, and attach the
/// projected landmarks exactly when a hand was detected.
pub fn build_gesture_result(
    output: &HandposeOutput,
    frame_timestamp_ms: u64,
    classifier: &mut GestureClassifier,
    primary: GestureKind,
) -> (res: GestureResult)
    requires
        old(classifier).motion_tracker.wf(),
        crate::gesture::lms_bounded(output.raw_landmarks@, crate::gesture::LM_LIMIT as int),
        crate::gesture::pts_bounded(
            output.projected_landmarks@,
            crate::gesture::LM_LIMIT as int,
        ),
    ensures
        final(classifier).motion_tracker.wf(),
        final(classifier).class_table == old(classifier).class_table,
        res.confidence == output.confidence,
        res.timestamp_ms == frame_timestamp_ms,
        res.landmarks is Some <==> output.confidence >= MIN_CONFIDENCE,
        res.landmarks matches Some(lms) ==> lms@ == output.projected_landmarks@,
        res.detail is Some <==> (output.confidence >= MIN_CONFIDENCE
            && output.raw_landmarks@.len() >= 21 && output.projected_landmarks@.len() >= 21),
        res.label@ == result_label_spec(res.detail, output.confidence >= MIN_CONFIDENCE),
        res.detail matches Some(d) ==> {
            &&& d.primary == primary
            &&& d.secondary is None
            &&& d.handedness == crate::gesture::handedness_spec(output.handedness as int)
            &&& d.finger_states@ == crate::gesture::finger_states_spec(output.raw_landmarks@)
            &&& d.motion == crate::gesture::motion_spec(
                final(classifier).motion_tracker.history@,
                primary,
            )
        },
{
    let has_detection = output.confidence >= MIN_CONFIDENCE;
    let detail: Option<GestureDetail> = if has_detection {
        classifier.classify(
            &output.raw_landmarks,
            &output.projected_landmarks,
            output.confidence,
            output.handedness,
            frame_timestamp_ms,
            primary,
        )
    } else {
        None
    };

    let label: String = match &detail {
        Some(d) => {
            let mut s = String::from_str(d.primary.emoji());
            s.append(d.primary.display_name());
            s
        },
        None => {
            if has_detection {
                String::from_str("检测到手")
            } else {
                String::from_str("未检测到手")
            }
        },
    };

    let landmarks: Option<Vec<(i64, i64)>> = if has_detection {
        let mut copy: Vec<(i64, i64)> = Vec::new();
        let mut i: usize = 0;
        while i < output.projected_landmarks.len()
            invariant
                i <= output.projected_landmarks@.len(),
                copy@ =~= output.projected_landmarks@.subrange(0, i as int),
            decreases output.projected_landmarks@.len() - i,
        {
            let pt = output.projected_landmarks[i];
            copy.push(pt);
            i = i + 1;
        }
        proof {
            assert(copy@ =~= output.projected_landmarks@);
        }
        Some(copy)
    } else {
        None
    };

    GestureResult {
        label,
        confidence: output.confidence,
        timestamp_ms: frame_timestamp_ms,
        landmarks,
        detail,
        palm_regions: Vec::new(),
    }
}

} // verus!
