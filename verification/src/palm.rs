//! Palm detection post-processing: anchor-relative box decoding, score
//! squashing, intersection-over-union, and greedy non-max suppression.
//!
//! Raw network outputs arrive as fixed-point values (the float tensor
//! scaled by [`UNIT`]). Coordinates are decoded with one fused division per
//! coordinate so no precision is lost to intermediate rounding, and the
//! logistic score is modeled by the rational squash
//! `1/2 + x / (2 * (1 + |x|))`, which is monotone, symmetric, and maps the
//! fixed-point domain onto `[0, UNIT]`.

use vstd::prelude::*;

use crate::fixed::{
    clamp_i64, div_trunc, div_trunc_i128, spec_clamp, spec_max, spec_min, COORD_LIMIT, UNIT,
};
use crate::letterbox::{limit_of, LetterboxInfo};
use crate::types::PalmRegion;

verus! {

/// Number of keypoints the palm detector predicts per box.
pub const PALM_LANDMARKS: usize = 7;

/// Number of anchors of the palm detection network.
pub const NUM_ANCHORS: usize = 2016;

/// Anchors of the first layer: a 24x24 grid with two anchors per cell.
pub const FIRST_LAYER_ANCHORS: usize = 1152;

/// Largest magnitude a decoded pixel coordinate can take: covers
/// `(dim - 1) * UNIT` for any `u32` dimension.
pub const PIXEL_LIMIT: i64 = 0x8000_0000_0000;

/// Thresholds of the palm detector, lifted out of the decode loop so tests
/// can substitute their own.
#[derive(Clone, Debug)]
pub struct PalmDetectorConfig {
    /// Candidates squashing below this score are discarded.
    pub score_threshold: i64,
    /// Keep a candidate only if its IoU with every kept one is below this.
    pub nms_threshold: i64,
    /// Largest number of regions returned.
    pub top_k: usize,
}

impl Default for PalmDetectorConfig {
    /// Score floor 0.5, NMS threshold 0.3, at most 32 regions.
    fn default() -> (res: Self)
        ensures
            res.score_threshold == UNIT / 2,
            res.nms_threshold == 300,
            res.top_k == 32,
    {
        PalmDetectorConfig { score_threshold: UNIT / 2, nms_threshold: 300, top_k: 32 }
    }
}

/// The rational squash standing in for the logistic function:
/// `UNIT/2 + x*UNIT / (2*(UNIT + |x|))`, always in `[0, UNIT]`.
pub open spec fn sigmoid_spec(x: int) -> int {
    let a = if x >= 0 {
        x
    } else {
        -x
    };
    UNIT / 2 + div_trunc(x * UNIT, 2 * (UNIT + a))
}

pub fn sigmoid_fixed(x: i64) -> (r: i64)
    ensures
        r == sigmoid_spec(x as int),
        0 <= r <= UNIT,
{
    let xi: i128 = x as i128;
    let a: i128 = if xi >= 0 {
        xi
    } else {
        -xi
    };
    proof {
        assert(-0x2_0000_0000_0000_0000_0000 <= xi * 1000 <= 0x2_0000_0000_0000_0000_0000)
            by (nonlinear_arith)
            requires
                -0x1_0000_0000_0000_0000 <= xi <= 0x1_0000_0000_0000_0000,
        {};
    }
    let num: i128 = xi * (UNIT as i128);
    let den: i128 = 2 * ((UNIT as i128) + a);
    let q: i128 = div_trunc_i128(num, den);
    proof {
        lemma_sigmoid_range(x as int);
    }
    (500 + q as i64) as i64
}

/// The squash stays within `[0, UNIT]` and its quotient within
/// `[-UNIT/2, UNIT/2]`.
proof fn lemma_sigmoid_range(x: int)
    ensures
        0 <= sigmoid_spec(x) <= UNIT,
        -(UNIT / 2) <= div_trunc(x * UNIT, 2 * (UNIT + (if x >= 0 {
            x
        } else {
            -x
        }))) <= UNIT / 2,
{
    let a = if x >= 0 {
        x
    } else {
        -x
    };
    let den = 2 * (UNIT + a);
    if x >= 0 {
        assert(x * UNIT <= den * (UNIT / 2)) by (nonlinear_arith)
            requires
                a == x,
                den == 2 * (UNIT + a),
                x >= 0,
                UNIT == 1000,
        {};
        assert(x * UNIT / den <= UNIT / 2) by (nonlinear_arith)
            requires
                x * UNIT <= den * (UNIT / 2),
                den > 0,
                x * UNIT >= 0,
        {};
        assert(div_trunc(x * UNIT, den) == x * UNIT / den);
        assert(x * UNIT / den >= 0) by (nonlinear_arith)
            requires
                x * UNIT >= 0,
                den > 0,
        {};
    } else {
        let n = -x * UNIT;
        assert(n >= 0);
        assert(div_trunc(x * UNIT, den) == -(n / den));
        assert(n <= den * (UNIT / 2)) by (nonlinear_arith)
            requires
                a == -x,
                den == 2 * (UNIT + a),
                n == -x * UNIT,
                x < 0,
                UNIT == 1000,
        {};
        assert(n / den <= UNIT / 2) by (nonlinear_arith)
            requires
                n <= den * (UNIT / 2),
                den > 0,
                n >= 0,
        {};
        assert(n / den >= 0) by (nonlinear_arith)
            requires
                n >= 0,
                den > 0,
        {};
    }
}

/// Normalized x center of anchor `i`, in fixed-point: the palm network
/// tiles a 24x24 grid (two anchors per cell) followed by a 12x12 grid
/// (six anchors per cell), each anchor centered in its cell.
pub open spec fn anchor_x_spec(i: int) -> int {
    if i < FIRST_LAYER_ANCHORS {
        let cell = i / 2;
        let col = cell % 24;
        (2 * col + 1) * UNIT / 48
    } else {
        let cell = (i - FIRST_LAYER_ANCHORS) / 6;
        let col = cell % 12;
        (2 * col + 1) * UNIT / 24
    }
}

/// Normalized y center of anchor `i`, in fixed-point.
pub open spec fn anchor_y_spec(i: int) -> int {
    if i < FIRST_LAYER_ANCHORS {
        let cell = i / 2;
        let row = cell / 24;
        (2 * row + 1) * UNIT / 48
    } else {
        let cell = (i - FIRST_LAYER_ANCHORS) / 6;
        let row = cell / 12;
        (2 * row + 1) * UNIT / 24
    }
}

/// The anchor centers of the palm detection network, in the order its
/// output tensor uses.
pub fn palm_anchors() -> (res: Vec<(i64, i64)>)
    ensures
        res@.len() == NUM_ANCHORS,
        forall|i: int|
            0 <= i < NUM_ANCHORS ==> #[trigger] res@[i].0 == anchor_x_spec(i) && res@[i].1
                == anchor_y_spec(i),
{
    let mut res: Vec<(i64, i64)> = Vec::new();
    let mut i: usize = 0;
    while i < NUM_ANCHORS
        invariant
            i <= NUM_ANCHORS,
            res@.len() == i,
            forall|j: int|
                0 <= j < i ==> #[trigger] res@[j].0 == anchor_x_spec(j) && res@[j].1
                    == anchor_y_spec(j),
        decreases NUM_ANCHORS - i,
    {
        let (x, y): (i64, i64) = if i < FIRST_LAYER_ANCHORS {
            let cell = i / 2;
            let col = (cell % 24) as i64;
            let row = (cell / 24) as i64;
            ((2 * col + 1) * UNIT / 48, (2 * row + 1) * UNIT / 48)
        } else {
            let cell = (i - FIRST_LAYER_ANCHORS) / 6;
            let col = (cell % 12) as i64;
            let row = (cell / 12) as i64;
            ((2 * col + 1) * UNIT / 24, (2 * row + 1) * UNIT / 24)
        };
        res.push((x, y));
        i = i + 1;
    }
    res
}

/// Area of an axis-aligned box, with negative extents clipped to zero.
pub open spec fn box_area(b: [i64; 4]) -> int {
    spec_max(b[2] - b[0] as int, 0) * spec_max(b[3] - b[1] as int, 0)
}

/// Intersection-over-union of two axis-aligned boxes, in `[0, UNIT]`.
/// Zero-area overlaps and empty unions give zero.
pub open spec fn iou_spec(a: [i64; 4], b: [i64; 4]) -> int {
    let iw = spec_max(spec_min(a[2] as int, b[2] as int) - spec_max(a[0] as int, b[0] as int), 0);
    let ih = spec_max(spec_min(a[3] as int, b[3] as int) - spec_max(a[1] as int, b[1] as int), 0);
    let inter = iw * ih;
    if inter <= 0 {
        0
    } else {
        let uni = box_area(a) + box_area(b) - inter;
        if uni <= 0 {
            0
        } else {
            inter * UNIT / uni
        }
    }
}

/// All four coordinates within the decoded-pixel range.
pub open spec fn box_bounded(b: [i64; 4]) -> bool {
    forall|k: int| 0 <= k < 4 ==> -PIXEL_LIMIT <= #[trigger] b[k] <= PIXEL_LIMIT
}

/// Standard intersection-over-union on axis-aligned boxes.
pub fn iou(a: &[i64; 4], b: &[i64; 4]) -> (r: i64)
    requires
        box_bounded(*a),
        box_bounded(*b),
    ensures
        r == iou_spec(*a, *b),
        0 <= r <= UNIT,
{
    let x1 = if a[0] >= b[0] {
        a[0]
    } else {
        b[0]
    };
    let y1 = if a[1] >= b[1] {
        a[1]
    } else {
        b[1]
    };
    let x2 = if a[2] <= b[2] {
        a[2]
    } else {
        b[2]
    };
    let y2 = if a[3] <= b[3] {
        a[3]
    } else {
        b[3]
    };
    let iw: i128 = if x2 > x1 {
        (x2 - x1) as i128
    } else {
        0
    };
    let ih: i128 = if y2 > y1 {
        (y2 - y1) as i128
    } else {
        0
    };
    proof {
        lemma_mul_bound(iw as int, ih as int, 0x1_0000_0000_0000);
    }
    let inter: i128 = iw * ih;
    if inter <= 0 {
        proof {
            lemma_iou_nonneg(*a, *b);
        }
        return 0;
    }
    let aw: i128 = if a[2] > a[0] {
        (a[2] - a[0]) as i128
    } else {
        0
    };
    let ah: i128 = if a[3] > a[1] {
        (a[3] - a[1]) as i128
    } else {
        0
    };
    let bw: i128 = if b[2] > b[0] {
        (b[2] - b[0]) as i128
    } else {
        0
    };
    let bh: i128 = if b[3] > b[1] {
        (b[3] - b[1]) as i128
    } else {
        0
    };
    proof {
        lemma_mul_bound(aw as int, ah as int, 0x1_0000_0000_0000);
        lemma_mul_bound(bw as int, bh as int, 0x1_0000_0000_0000);
    }
    let area_a: i128 = aw * ah;
    let area_b: i128 = bw * bh;
    let uni: i128 = area_a + area_b - inter;
    if uni <= 0 {
        proof {
            lemma_iou_nonneg(*a, *b);
        }
        return 0;
    }
    proof {
        lemma_mul_bound(inter as int, UNIT as int, 0x1_0000_0000_0000_0000_0000_0000);
        lemma_inter_le_union(*a, *b);
    }
    let q: i128 = div_trunc_i128(inter * (UNIT as i128), uni);
    proof {
        let qi = q as int;
        let ii = inter as int;
        let ui = uni as int;
        assert(qi == ii * 1000 / ui);
        assert(0 <= qi <= 1000) by (nonlinear_arith)
            requires
                qi == ii * 1000 / ui,
                0 < ii <= ui,
        {};
    }
    q as i64
}

/// `|x| <= m` and `|y| <= m` bound the product by `m * m`.
proof fn lemma_mul_bound(x: int, y: int, m: int)
    requires
        -m <= x <= m,
        -m <= y <= m,
        m >= 0,
    ensures
        -(m * m) <= x * y <= m * m,
{
    assert(-(m * m) <= x * y <= m * m) by (nonlinear_arith)
        requires
            -m <= x <= m,
            -m <= y <= m,
            m >= 0,
    {};
}

/// The intersection never exceeds either area when both are positive.
proof fn lemma_inter_le_union(a: [i64; 4], b: [i64; 4])
    requires
        ({
            let iw = spec_max(spec_min(a[2] as int, b[2] as int) - spec_max(a[0] as int, b[0] as int), 0);
            let ih = spec_max(spec_min(a[3] as int, b[3] as int) - spec_max(a[1] as int, b[1] as int), 0);
            iw * ih > 0
        }),
    ensures
        ({
            let iw = spec_max(spec_min(a[2] as int, b[2] as int) - spec_max(a[0] as int, b[0] as int), 0);
            let ih = spec_max(spec_min(a[3] as int, b[3] as int) - spec_max(a[1] as int, b[1] as int), 0);
            let inter = iw * ih;
            inter <= box_area(a) && inter <= box_area(b)
        }),
{
    let iw = spec_max(spec_min(a[2] as int, b[2] as int) - spec_max(a[0] as int, b[0] as int), 0);
    let ih = spec_max(spec_min(a[3] as int, b[3] as int) - spec_max(a[1] as int, b[1] as int), 0);
    assert(iw <= spec_max(a[2] - a[0] as int, 0));
    assert(ih <= spec_max(a[3] - a[1] as int, 0));
    assert(iw <= spec_max(b[2] - b[0] as int, 0));
    assert(ih <= spec_max(b[3] - b[1] as int, 0));
    assert(iw * ih <= spec_max(a[2] - a[0] as int, 0) * spec_max(a[3] - a[1] as int, 0))
        by (nonlinear_arith)
        requires
            0 <= iw <= spec_max(a[2] - a[0] as int, 0),
            0 <= ih <= spec_max(a[3] - a[1] as int, 0),
    {};
    assert(iw * ih <= spec_max(b[2] - b[0] as int, 0) * spec_max(b[3] - b[1] as int, 0))
        by (nonlinear_arith)
        requires
            0 <= iw <= spec_max(b[2] - b[0] as int, 0),
            0 <= ih <= spec_max(b[3] - b[1] as int, 0),
    {};
}

/// IoU is never negative and never exceeds `UNIT`.
proof fn lemma_iou_nonneg(a: [i64; 4], b: [i64; 4])
    ensures
        0 <= iou_spec(a, b) <= UNIT,
{
    let iw = spec_max(spec_min(a[2] as int, b[2] as int) - spec_max(a[0] as int, b[0] as int), 0);
    let ih = spec_max(spec_min(a[3] as int, b[3] as int) - spec_max(a[1] as int, b[1] as int), 0);
    let inter = iw * ih;
    if inter > 0 {
        let uni = box_area(a) + box_area(b) - inter;
        if uni > 0 {
            lemma_inter_le_union(a, b);
            assert(uni >= inter);
            assert(0 <= inter * UNIT / uni <= UNIT) by (nonlinear_arith)
                requires
                    0 < inter <= uni,
                    UNIT == 1000,
            {};
        }
    } else {
        assert(inter >= 0) by (nonlinear_arith)
            requires
                inter == iw * ih,
                iw >= 0,
                ih >= 0,
        {};
    }
}

/// A box with positive extent both ways overlaps itself completely:
/// its IoU with itself is exactly `UNIT`.
pub proof fn lemma_iou_self(a: [i64; 4])
    requires
        a[0] < a[2],
        a[1] < a[3],
    ensures
        iou_spec(a, a) == UNIT,
{
    let iw = a[2] - a[0];
    let ih = a[3] - a[1];
    let inter = iw * ih;
    assert(inter > 0) by (nonlinear_arith)
        requires
            inter == iw * ih,
            iw > 0,
            ih > 0,
    {};
    assert(box_area(a) == inter);
    assert(inter * UNIT / (inter + inter - inter) == UNIT) by (nonlinear_arith)
        requires
            inter > 0,
            UNIT == 1000,
    {};
}

/// Disjoint boxes (separated along either axis) have IoU zero.
pub proof fn lemma_iou_disjoint(a: [i64; 4], b: [i64; 4])
    requires
        a[2] <= b[0] || b[2] <= a[0] || a[3] <= b[1] || b[3] <= a[1],
    ensures
        iou_spec(a, b) == 0,
{
    let iw = spec_max(spec_min(a[2] as int, b[2] as int) - spec_max(a[0] as int, b[0] as int), 0);
    let ih = spec_max(spec_min(a[3] as int, b[3] as int) - spec_max(a[1] as int, b[1] as int), 0);
    assert(iw == 0 || ih == 0);
    assert(iw * ih == 0) by (nonlinear_arith)
        requires
            iw == 0 || ih == 0,
    {};
}

/// IoU does not depend on the order of its arguments.
pub proof fn lemma_iou_symmetric(a: [i64; 4], b: [i64; 4])
    ensures
        iou_spec(a, b) == iou_spec(b, a),
{
}

/// Every candidate box within the decoded-pixel range.
pub open spec fn cand_boxes_bounded(c: Seq<PalmRegion>) -> bool {
    forall|i: int| 0 <= i < c.len() ==> box_bounded(#[trigger] c[i].bbox)
}

/// How many entries of `p` are still false.
pub open spec fn count_false(p: Seq<bool>) -> int
    decreases p.len(),
{
    if p.len() == 0 {
        0
    } else {
        count_false(p.drop_last()) + if p.last() {
            0int
        } else {
            1int
        }
    }
}

proof fn lemma_count_false_push(p: Seq<bool>, v: bool)
    ensures
        count_false(p.push(v)) == count_false(p) + if v {
            0int
        } else {
            1int
        },
{
    assert(p.push(v).drop_last() =~= p);
}

proof fn lemma_count_false_set_true(p: Seq<bool>, i: int)
    requires
        0 <= i < p.len(),
        !p[i],
    ensures
        count_false(p.update(i, true)) == count_false(p) - 1,
    decreases p.len(),
{
    if i == p.len() - 1 {
        assert(p.update(i, true).drop_last() =~= p.drop_last());
        assert(p.update(i, true).last());
    } else {
        assert(p.update(i, true).drop_last() =~= p.drop_last().update(i, true));
        assert(p.update(i, true).last() == p.last());
        lemma_count_false_set_true(p.drop_last(), i);
    }
}

/// Greedy non-max suppression: repeatedly take the highest-scoring
/// unprocessed candidate and keep it unless it overlaps an already-kept one
/// with IoU at or above `threshold`; stop once `top_k` are kept.
///
/// The returned indices are distinct, in non-increasing score order, free
/// of pairwise overlaps at or above the threshold, and cover every
/// candidate: one not kept either lost to a kept candidate of at least its
/// score, or arrived after the cap was reached.
pub fn nms(candidates: &Vec<PalmRegion>, threshold: i64, top_k: usize) -> (keep: Vec<usize>)
    requires
        cand_boxes_bounded(candidates@),
    ensures
        keep@.len() <= top_k,
        forall|i: int| 0 <= i < keep@.len() ==> #[trigger] keep@[i] < candidates@.len(),
        forall|i: int, j: int| 0 <= i < j < keep@.len() ==> keep@[i] != keep@[j],
        forall|i: int, j: int|
            0 <= i < j < keep@.len() ==> candidates@[keep@[i] as int].score
                >= candidates@[keep@[j] as int].score,
        forall|i: int, j: int|
            0 <= i < keep@.len() && 0 <= j < keep@.len() && i != j ==> iou_spec(
                candidates@[keep@[i] as int].bbox,
                candidates@[keep@[j] as int].bbox,
            ) < threshold,
        candidates@.len() > 0 && top_k > 0 ==> keep@.len() > 0 && forall|c: int|
            0 <= c < candidates@.len() ==> (#[trigger] candidates@[c].score)
                <= candidates@[keep@[0] as int].score,
        forall|c: usize|
            c < candidates@.len() && !keep@.contains(c) ==> keep@.len() == top_k || exists|j: int|
                0 <= j < keep@.len() && iou_spec(
                    candidates@[c as int].bbox,
                    candidates@[keep@[j] as int].bbox,
                ) >= threshold && candidates@[keep@[j] as int].score >= candidates@[c as int].score,
{
    let n = candidates.len();
    let mut processed: Vec<bool> = Vec::new();
    let mut j: usize = 0;
    while j < n
        invariant
            j <= n,
            processed@.len() == j,
            forall|i: int| 0 <= i < j ==> !processed@[i],
            count_false(processed@) == j,
        decreases n - j,
    {
        proof {
            lemma_count_false_push(processed@, false);
        }
        processed.push(false);
        j = j + 1;
    }

    let mut keep: Vec<usize> = Vec::new();
    while keep.len() < top_k
        invariant_except_break
            n == candidates@.len(),
            cand_boxes_bounded(candidates@),
            processed@.len() == n,
            0 <= count_false(processed@) <= n,
            keep@.len() <= top_k,
            nms_inv(candidates@, processed@, keep@, threshold as int),
        ensures
            n == candidates@.len(),
            processed@.len() == n,
            keep@.len() <= top_k,
            nms_inv(candidates@, processed@, keep@, threshold as int),
            keep@.len() == top_k || forall|i: int| 0 <= i < n ==> processed@[i],
        decreases count_false(processed@),
    {
        // Find the first highest-scoring unprocessed candidate.
        let mut best: usize = 0;
        let mut found: bool = false;
        let mut i: usize = 0;
        while i < n
            invariant
                i <= n,
                n == candidates@.len(),
                processed@.len() == n,
                found ==> best < i && !processed@[best as int],
                found ==> forall|u: int|
                    0 <= u < i && !processed@[u] ==> candidates@[u].score
                        <= candidates@[best as int].score,
                !found ==> forall|u: int| 0 <= u < i ==> processed@[u],
            decreases n - i,
        {
            if !processed[i] && (!found || candidates[i].score > candidates[best].score) {
                best = i;
                found = true;
            }
            i = i + 1;
        }
        if !found {
            break ;
        }

        proof {
            lemma_count_false_set_true(processed@, best as int);
        }
        let ghost pre_processed = processed@;
        let ghost pre_keep = keep@;
        processed.set(best, true);

        // Does the chosen candidate overlap anything already kept?
        let mut conflict: bool = false;
        let ghost mut wit: int = 0;
        let mut k: usize = 0;
        while k < keep.len()
            invariant
                k <= keep@.len(),
                n == candidates@.len(),
                cand_boxes_bounded(candidates@),
                best < n,
                forall|q: int| 0 <= q < keep@.len() ==> #[trigger] keep@[q] < n,
                conflict ==> 0 <= wit < keep@.len() && iou_spec(
                    candidates@[keep@[wit] as int].bbox,
                    candidates@[best as int].bbox,
                ) >= threshold,
                !conflict ==> forall|q: int|
                    0 <= q < k ==> iou_spec(
                        candidates@[keep@[q] as int].bbox,
                        candidates@[best as int].bbox,
                    ) < threshold,
            decreases keep@.len() - k,
        {
            let v = iou(&candidates[keep[k]].bbox, &candidates[best].bbox);
            if v >= threshold {
                conflict = true;
                proof {
                    wit = k as int;
                }
            }
            k = k + 1;
        }

        if !conflict {
            proof {
                assert forall|q: int| 0 <= q < keep@.len() implies iou_spec(
                    candidates@[best as int].bbox,
                    candidates@[keep@[q] as int].bbox,
                ) < threshold by {
                    lemma_iou_symmetric(
                        candidates@[best as int].bbox,
                        candidates@[keep@[q] as int].bbox,
                    );
                }
                assert(nms_inv(candidates@, pre_processed, pre_keep, threshold as int));
                assert forall|q: int| 0 <= q < pre_keep.len() implies pre_keep[q] != best by {
                    assert(pre_processed[pre_keep[q] as int]);
                }
                if pre_keep.len() == 0 {
                    assert forall|c: int| 0 <= c < candidates@.len() implies (
                    #[trigger] candidates@[c].score) <= candidates@[best as int].score by {
                        assert(!pre_processed[c]);
                    }
                }
            }
            keep.push(best);
            proof {
                let ks = keep@;
                assert(ks == pre_keep.push(best));
                assert(ks[ks.len() - 1] == best);
                assert forall|c: usize|
                    c < candidates@.len() && processed@[c as int] && !ks.contains(
                        c,
                    ) implies exists|j: int|
                    0 <= j < ks.len() && iou_spec(
                        candidates@[c as int].bbox,
                        candidates@[#[trigger] ks[j] as int].bbox,
                    ) >= threshold && candidates@[ks[j] as int].score >= candidates@[c as int].score by {
                    if c != best {
                        assert(pre_processed[c as int]);
                        assert(!pre_keep.contains(c)) by {
                            if pre_keep.contains(c) {
                                let q = choose|q: int|
                                    0 <= q < pre_keep.len() && pre_keep[q] == c;
                                assert(ks[q] == c);
                            }
                        }
                        let j = choose|j: int|
                            0 <= j < pre_keep.len() && iou_spec(
                                candidates@[c as int].bbox,
                                candidates@[#[trigger] pre_keep[j] as int].bbox,
                            ) >= threshold && candidates@[pre_keep[j] as int].score
                                >= candidates@[c as int].score;
                        assert(ks[j] == pre_keep[j]);
                    } else {
                        assert(ks.contains(c)) by {
                            assert(ks[ks.len() - 1] == c);
                        }
                    }
                }
            }
        } else {
            proof {
                assert(nms_inv(candidates@, pre_processed, keep@, threshold as int));
                assert(candidates@[keep@[wit] as int].score >= candidates@[best as int].score) by {
                    assert(!pre_processed[best as int]);
                }
                lemma_iou_symmetric(
                    candidates@[keep@[wit] as int].bbox,
                    candidates@[best as int].bbox,
                );
                assert forall|c: usize|
                    c < candidates@.len() && processed@[c as int] && !keep@.contains(
                        c,
                    ) implies exists|j: int|
                    0 <= j < keep@.len() && iou_spec(
                        candidates@[c as int].bbox,
                        candidates@[#[trigger] keep@[j] as int].bbox,
                    ) >= threshold && candidates@[keep@[j] as int].score >= candidates@[c as int].score by {
                    if c == best {
                        assert(iou_spec(
                            candidates@[best as int].bbox,
                            candidates@[keep@[wit] as int].bbox,
                        ) >= threshold);
                    } else {
                        assert(pre_processed[c as int]);
                    }
                }
            }
        }
        proof {
            lemma_count_false_nonneg(processed@);
        }
    }
    proof {
        if candidates@.len() > 0 && top_k > 0 && keep@.len() == 0 {
            assert(processed@[0]);
            assert(!processed@[0]);
        }
    }
    keep
}

proof fn lemma_count_false_nonneg(p: Seq<bool>)
    ensures
        0 <= count_false(p) <= p.len(),
    decreases p.len(),
{
    if p.len() > 0 {
        lemma_count_false_nonneg(p.drop_last());
    }
}

/// The working state of the suppression loop: everything kept is processed,
/// kept entries are distinct, in score order, mutually below the overlap
/// threshold, they dominate every unprocessed candidate, and every
/// processed-but-dropped candidate lost to a kept one.
pub open spec fn nms_inv(
    cands: Seq<PalmRegion>,
    processed: Seq<bool>,
    keep: Seq<usize>,
    threshold: int,
) -> bool {
    &&& forall|i: int| 0 <= i < keep.len() ==> #[trigger] keep[i] < cands.len()
    &&& forall|i: int| 0 <= i < keep.len() ==> processed[#[trigger] keep[i] as int]
    &&& forall|i: int, j: int| 0 <= i < j < keep.len() ==> keep[i] != keep[j]
    &&& forall|i: int, j: int|
        0 <= i < j < keep.len() ==> cands[keep[i] as int].score >= cands[keep[j] as int].score
    &&& forall|i: int, j: int|
        0 <= i < keep.len() && 0 <= j < keep.len() && i != j ==> iou_spec(
            cands[keep[i] as int].bbox,
            cands[keep[j] as int].bbox,
        ) < threshold
    &&& forall|i: int, u: int|
        0 <= i < keep.len() && 0 <= u < cands.len() && !(#[trigger] processed[u]) ==> cands[u].score
            <= cands[#[trigger] keep[i] as int].score
    &&& (keep.len() == 0 ==> forall|u: int| 0 <= u < processed.len() ==> !processed[u])
    &&& (keep.len() > 0 ==> forall|c: int|
        0 <= c < cands.len() ==> (#[trigger] cands[c].score) <= cands[keep[0] as int].score)
    &&& forall|c: usize|
        c < cands.len() && processed[c as int] && !keep.contains(c) ==> exists|j: int|
            0 <= j < keep.len() && iou_spec(cands[c as int].bbox, cands[#[trigger] keep[j] as int].bbox)
                >= threshold && cands[keep[j] as int].score >= cands[c as int].score
}

/// Why palm decoding refused the network outputs. Shape violations are
/// hard errors; an empty detection list is not an error.
#[derive(Clone, Copy, Debug, PartialEq, Eq, Structural)]
pub enum DetectError {
    /// The box tensor needs at least rank 3: `[batch, anchors, features]`.
    BoxShapeRank,
    /// The score tensor needs at least rank 3: `[batch, anchors, 1]`.
    ScoreShapeRank,
    /// Fewer than `4 + 2 * PALM_LANDMARKS` features per anchor.
    FeatureDimTooSmall,
    /// The anchor dimensions of boxes and scores disagree.
    AnchorDimMismatch,
    /// A score the anchor walk needs lies outside the score buffer.
    MissingScore,
    /// A box value of a passing anchor lies outside the box buffer.
    MissingBoxValue,
}

/// Largest magnitude the fixed-point tensor values may take.
pub const TENSOR_LIMIT: i64 = 1_000_000_000;

/// Largest frame dimension the decoder accepts; keeps every decoded
/// coordinate inside `i64`.
pub const MAX_FRAME_DIM: u32 = 65536;

/// Every tensor value within `TENSOR_LIMIT`.
pub open spec fn vals_bounded(s: Seq<i64>) -> bool {
    forall|i: int| 0 <= i < s.len() ==> -TENSOR_LIMIT <= #[trigger] s[i] <= TENSOR_LIMIT
}

/// A letterbox record the decoder can work inside `i64` with.
pub open spec fn info_fits(info: LetterboxInfo) -> bool {
    &&& info.wf()
    &&& info.target_size <= 4096
    &&& info.pad_x <= 4096
    &&& info.pad_y <= 4096
    &&& info.orig_w <= MAX_FRAME_DIM
    &&& info.orig_h <= MAX_FRAME_DIM
}

/// Anchor dimension of a rank-checked shape: next-to-last entry.
pub open spec fn anchor_dim_of(shape: Seq<usize>) -> int {
    shape[shape.len() - 2] as int
}

/// Feature dimension of a rank-checked shape: last entry.
pub open spec fn feature_dim_of(shape: Seq<usize>) -> int {
    shape[shape.len() - 1] as int
}

/// How many anchors the walk visits.
pub open spec fn anchors_used(box_shape: Seq<usize>) -> int {
    spec_min(NUM_ANCHORS as int, anchor_dim_of(box_shape))
}

/// Both shapes pass every structural check.
pub open spec fn shapes_ok(box_shape: Seq<usize>, score_shape: Seq<usize>) -> bool {
    &&& box_shape.len() >= 3
    &&& score_shape.len() >= 3
    &&& feature_dim_of(box_shape) >= 4 + 2 * PALM_LANDMARKS
    &&& anchor_dim_of(box_shape) == anchor_dim_of(score_shape)
}

/// Every score offset the walk reads lies inside the score buffer.
pub open spec fn scores_available(scores: Seq<i64>, sfdim: int, anchors: int) -> bool {
    anchors == 0 || (anchors - 1) * sfdim < scores.len()
}

/// The raw score of anchor `a`.
pub open spec fn score_raw(scores: Seq<i64>, sfdim: int, a: int) -> int {
    scores[a * sfdim] as int
}

/// Whether anchor `a` survives the score threshold.
pub open spec fn anchor_passes(scores: Seq<i64>, sfdim: int, thr: int, a: int) -> bool {
    sigmoid_spec(score_raw(scores, sfdim, a)) >= thr
}

/// All 18 box values of anchor `a` lie inside the box buffer.
pub open spec fn box_vals_available(bl: Seq<i64>, fdim: int, a: int) -> bool {
    a * fdim + 4 + 2 * PALM_LANDMARKS <= bl.len()
}

/// Unclamped left edge of the decoded box, in fixed-point frame pixels:
/// the anchor center plus the fused delta
/// `(2*cx - w - 2*pad_x*UNIT) * max_dim / (2*target)`.
pub open spec fn dec_x1_raw(bl: Seq<i64>, fdim: int, info: LetterboxInfo, a: int) -> int {
    let off = a * fdim;
    anchor_x_spec(a) * info.orig_max_dim() + div_trunc(
        (2 * bl[off] - bl[off + 2] - 2 * info.pad_x * UNIT) * info.orig_max_dim(),
        2 * info.target_size,
    )
}

pub open spec fn dec_x2_raw(bl: Seq<i64>, fdim: int, info: LetterboxInfo, a: int) -> int {
    let off = a * fdim;
    anchor_x_spec(a) * info.orig_max_dim() + div_trunc(
        (2 * bl[off] + bl[off + 2] - 2 * info.pad_x * UNIT) * info.orig_max_dim(),
        2 * info.target_size,
    )
}

pub open spec fn dec_y1_raw(bl: Seq<i64>, fdim: int, info: LetterboxInfo, a: int) -> int {
    let off = a * fdim;
    anchor_y_spec(a) * info.orig_max_dim() + div_trunc(
        (2 * bl[off + 1] - bl[off + 3] - 2 * info.pad_y * UNIT) * info.orig_max_dim(),
        2 * info.target_size,
    )
}

pub open spec fn dec_y2_raw(bl: Seq<i64>, fdim: int, info: LetterboxInfo, a: int) -> int {
    let off = a * fdim;
    anchor_y_spec(a) * info.orig_max_dim() + div_trunc(
        (2 * bl[off + 1] + bl[off + 3] - 2 * info.pad_y * UNIT) * info.orig_max_dim(),
        2 * info.target_size,
    )
}

/// A decoded box with positive width and height before clamping.
pub open spec fn anchor_nondegenerate(bl: Seq<i64>, fdim: int, info: LetterboxInfo, a: int) -> bool {
    dec_x1_raw(bl, fdim, info, a) < dec_x2_raw(bl, fdim, info, a) && dec_y1_raw(bl, fdim, info, a)
        < dec_y2_raw(bl, fdim, info, a)
}

/// X of decoded palm keypoint `l` of anchor `a`, unclamped.
pub open spec fn dec_lm_x(bl: Seq<i64>, fdim: int, info: LetterboxInfo, a: int, l: int) -> int {
    let off = a * fdim;
    anchor_x_spec(a) * info.orig_max_dim() + div_trunc(
        (bl[off + 4 + 2 * l] - info.pad_x * UNIT) * info.orig_max_dim(),
        info.target_size as int,
    )
}

pub open spec fn dec_lm_y(bl: Seq<i64>, fdim: int, info: LetterboxInfo, a: int, l: int) -> int {
    let off = a * fdim;
    anchor_y_spec(a) * info.orig_max_dim() + div_trunc(
        (bl[off + 4 + 2 * l + 1] - info.pad_y * UNIT) * info.orig_max_dim(),
        info.target_size as int,
    )
}

/// `r` is exactly what the decode formulas give for anchor `a`: the
/// squashed score, the clamped box, and the seven unclamped keypoints.
pub open spec fn is_decoded_region(
    r: PalmRegion,
    bl: Seq<i64>,
    scores: Seq<i64>,
    fdim: int,
    sfdim: int,
    info: LetterboxInfo,
    a: int,
) -> bool {
    &&& r.score == sigmoid_spec(score_raw(scores, sfdim, a))
    &&& r.bbox[0] == spec_clamp(dec_x1_raw(bl, fdim, info, a), 0, limit_of(info.orig_w as int))
    &&& r.bbox[1] == spec_clamp(dec_y1_raw(bl, fdim, info, a), 0, limit_of(info.orig_h as int))
    &&& r.bbox[2] == spec_clamp(dec_x2_raw(bl, fdim, info, a), 0, limit_of(info.orig_w as int))
    &&& r.bbox[3] == spec_clamp(dec_y2_raw(bl, fdim, info, a), 0, limit_of(info.orig_h as int))
    &&& r.landmarks@.len() == PALM_LANDMARKS
    &&& forall|l: int|
        0 <= l < PALM_LANDMARKS ==> (#[trigger] r.landmarks@[l]).0 == dec_lm_x(
            bl,
            fdim,
            info,
            a,
            l,
        ) && r.landmarks@[l].1 == dec_lm_y(bl, fdim, info, a, l)
}

/// Anchor `a` contributes a candidate: it scores above the threshold and
/// decodes to a non-degenerate box.
pub open spec fn anchor_contributes(
    bl: Seq<i64>,
    scores: Seq<i64>,
    fdim: int,
    sfdim: int,
    info: LetterboxInfo,
    thr: int,
    a: int,
) -> bool {
    anchor_passes(scores, sfdim, thr, a) && anchor_nondegenerate(bl, fdim, info, a)
}

/// `anchor * max_dim + div_trunc(inner * max_dim, den)` on `i64`-sized
/// inputs.
fn dec_combine(anchor_fx: i64, inner: i128, m: i64, den: i128) -> (r: i64)
    requires
        0 <= anchor_fx <= UNIT,
        1 <= m <= MAX_FRAME_DIM,
        1 <= den <= 0x1_0000_0000,
        -5_000_000_000 <= inner <= 5_000_000_000,
    ensures
        r == anchor_fx * m + div_trunc(inner as int * m, den as int),
        -0x8_0000_0000_0000 <= r <= 0x8_0000_0000_0000,
{
    proof {
        assert(-5_000_000_000 * 0x1_0000 <= (inner as int) * (m as int) <= 5_000_000_000
            * 0x1_0000) by (nonlinear_arith)
            requires
                -5_000_000_000 <= inner <= 5_000_000_000,
                0 <= m <= 0x1_0000,
        {};
        assert(0 <= (anchor_fx as int) * (m as int) <= 1000 * 0x1_0000) by (nonlinear_arith)
            requires
                0 <= anchor_fx <= 1000,
                0 <= m <= 0x1_0000,
        {};
    }
    let prod: i128 = inner * (m as i128);
    let q: i128 = div_trunc_i128(prod, den);
    proof {
        lemma_div_trunc_bound(prod as int, den as int);
    }
    let base: i128 = (anchor_fx as i128) * (m as i128);
    let t: i128 = base + q;
    t as i64
}

/// Truncating division never grows the magnitude.
pub proof fn lemma_div_trunc_bound(n: int, d: int)
    requires
        d >= 1,
    ensures
        n >= 0 ==> 0 <= div_trunc(n, d) <= n,
        n < 0 ==> n <= div_trunc(n, d) <= 0,
{
    if n >= 0 {
        assert(0 <= n / d <= n) by (nonlinear_arith)
            requires
                n >= 0,
                d >= 1,
        {};
    } else {
        assert(0 <= (-n) / d <= -n) by (nonlinear_arith)
            requires
                -n >= 0,
                d >= 1,
        {};
    }
}

/// Decode the palm network's two output tensors into palm regions in
/// original-frame coordinates: squash each anchor's score, drop anchors
/// below the score threshold, decode box and keypoints through the anchor
/// offset, the letterbox scale and the padding bias, drop degenerate
/// boxes, clamp the box to the frame, and greedily suppress overlaps.
///
/// Shape or out-of-range-read violations are hard errors; zero surviving
/// anchors give `Ok` with an empty list.
pub fn decode_palm_outputs(
    box_landmark: &Vec<i64>,
    box_shape: &Vec<usize>,
    scores: &Vec<i64>,
    score_shape: &Vec<usize>,
    letterbox: &LetterboxInfo,
    cfg: &PalmDetectorConfig,
) -> (res: Result<Vec<PalmRegion>, DetectError>)
    requires
        info_fits(*letterbox),
        vals_bounded(box_landmark@),
        vals_bounded(scores@),
    ensures
        res == Err::<Vec<PalmRegion>, DetectError>(DetectError::BoxShapeRank) <==> box_shape@.len()
            < 3,
        res == Err::<Vec<PalmRegion>, DetectError>(DetectError::ScoreShapeRank) <==> (
        box_shape@.len() >= 3 && score_shape@.len() < 3),
        res == Err::<Vec<PalmRegion>, DetectError>(DetectError::FeatureDimTooSmall) <==> (
        box_shape@.len() >= 3 && score_shape@.len() >= 3 && feature_dim_of(box_shape@) < 4 + 2
            * PALM_LANDMARKS),
        res == Err::<Vec<PalmRegion>, DetectError>(DetectError::AnchorDimMismatch) <==> (
        box_shape@.len() >= 3 && score_shape@.len() >= 3 && feature_dim_of(box_shape@) >= 4 + 2
            * PALM_LANDMARKS && anchor_dim_of(box_shape@) != anchor_dim_of(score_shape@)),
        res == Err::<Vec<PalmRegion>, DetectError>(DetectError::MissingScore) <==> (shapes_ok(
            box_shape@,
            score_shape@,
        ) && !scores_available(scores@, feature_dim_of(score_shape@), anchors_used(box_shape@))),
        res == Err::<Vec<PalmRegion>, DetectError>(DetectError::MissingBoxValue) <==> (shapes_ok(
            box_shape@,
            score_shape@,
        ) && scores_available(scores@, feature_dim_of(score_shape@), anchors_used(box_shape@))
            && exists|a: int|
            0 <= a < anchors_used(box_shape@) && anchor_passes(
                scores@,
                feature_dim_of(score_shape@),
                cfg.score_threshold as int,
                a,
            ) && !box_vals_available(box_landmark@, feature_dim_of(box_shape@), a)),
        res matches Ok(regions) ==> {
            let fdim = feature_dim_of(box_shape@);
            let sfdim = feature_dim_of(score_shape@);
            let anchors = anchors_used(box_shape@);
            let thr = cfg.score_threshold as int;
            &&& regions@.len() <= cfg.top_k
            &&& forall|i: int|
                0 <= i < regions@.len() ==> exists|a: int|
                    0 <= a < anchors && anchor_contributes(
                        box_landmark@,
                        scores@,
                        fdim,
                        sfdim,
                        *letterbox,
                        thr,
                        a,
                    ) && is_decoded_region(
                        #[trigger] regions@[i],
                        box_landmark@,
                        scores@,
                        fdim,
                        sfdim,
                        *letterbox,
                        a,
                    )
            &&& forall|i: int, j: int|
                0 <= i < regions@.len() && 0 <= j < regions@.len() && i != j ==> iou_spec(
                    regions@[i].bbox,
                    regions@[j].bbox,
                ) < cfg.nms_threshold
            &&& forall|i: int, j: int|
                0 <= i < j < regions@.len() ==> regions@[i].score >= regions@[j].score
            &&& (cfg.top_k > 0 && (exists|a: int|
                0 <= a < anchors && anchor_contributes(
                    box_landmark@,
                    scores@,
                    fdim,
                    sfdim,
                    *letterbox,
                    thr,
                    a,
                )) ==> regions@.len() > 0 && forall|a: int|
                0 <= a < anchors && anchor_contributes(
                    box_landmark@,
                    scores@,
                    fdim,
                    sfdim,
                    *letterbox,
                    thr,
                    a,
                ) ==> sigmoid_spec(score_raw(scores@, sfdim, a)) <= regions@[0].score)
        },
{
    if box_shape.len() < 3 {
        return Err(DetectError::BoxShapeRank);
    }
    if score_shape.len() < 3 {
        return Err(DetectError::ScoreShapeRank);
    }
    let anchor_dim: usize = box_shape[box_shape.len() - 2];
    let feature_dim: usize = box_shape[box_shape.len() - 1];
    let score_anchor_dim: usize = score_shape[score_shape.len() - 2];
    let score_feature_dim: usize = score_shape[score_shape.len() - 1];
    if feature_dim < 4 + 2 * PALM_LANDMARKS {
        return Err(DetectError::FeatureDimTooSmall);
    }
    if anchor_dim != score_anchor_dim {
        return Err(DetectError::AnchorDimMismatch);
    }
    let anchors: usize = if NUM_ANCHORS <= anchor_dim {
        NUM_ANCHORS
    } else {
        anchor_dim
    };
    if anchors > 0 {
        proof {
            assert(0 <= (anchors - 1) * (score_feature_dim as int) <= 2016
                * 0xFFFF_FFFF_FFFF_FFFF) by (nonlinear_arith)
                requires
                    1 <= anchors <= 2016,
                    0 <= score_feature_dim <= 0xFFFF_FFFF_FFFF_FFFF,
            {};
        }
        if (anchors - 1) as u128 * score_feature_dim as u128 >= scores.len() as u128 {
            return Err(DetectError::MissingScore);
        }
    }

    let anchor_table = palm_anchors();
    let m: i64 = if letterbox.orig_w >= letterbox.orig_h {
        letterbox.orig_w as i64
    } else {
        letterbox.orig_h as i64
    };
    let s: i64 = letterbox.target_size as i64;
    let lim_x: i64 = if letterbox.orig_w >= 1 {
        (letterbox.orig_w as i64 - 1) * UNIT
    } else {
        0
    };
    let lim_y: i64 = if letterbox.orig_h >= 1 {
        (letterbox.orig_h as i64 - 1) * UNIT
    } else {
        0
    };
    let pad_bias_x: i128 = 2 * (letterbox.pad_x as i128) * (UNIT as i128);
    let pad_bias_y: i128 = 2 * (letterbox.pad_y as i128) * (UNIT as i128);

    let ghost fdim = feature_dim_of(box_shape@);
    let ghost sfdim = feature_dim_of(score_shape@);
    let ghost thr = cfg.score_threshold as int;
    let slen: usize = scores.len();
    let blen: usize = box_landmark.len();
    let mut cands: Vec<PalmRegion> = Vec::new();
    let ghost mut ids: Seq<int> = Seq::empty();
    let mut a: usize = 0;
    while a < anchors
        invariant
            a <= anchors,
            anchors == anchors_used(box_shape@),
            anchors <= NUM_ANCHORS,
            slen == scores@.len(),
            blen == box_landmark@.len(),
            shapes_ok(box_shape@, score_shape@),
            scores_available(scores@, sfdim, anchors as int),
            fdim == feature_dim_of(box_shape@),
            sfdim == feature_dim_of(score_shape@),
            feature_dim == fdim,
            score_feature_dim == sfdim,
            thr == cfg.score_threshold as int,
            info_fits(*letterbox),
            vals_bounded(box_landmark@),
            vals_bounded(scores@),
            m == letterbox.orig_max_dim(),
            1 <= m <= MAX_FRAME_DIM,
            1 <= s <= 4096,
            s == letterbox.target_size,
            lim_x == limit_of(letterbox.orig_w as int),
            lim_y == limit_of(letterbox.orig_h as int),
            0 <= lim_x <= 0xFFFF * 1000,
            0 <= lim_y <= 0xFFFF * 1000,
            pad_bias_x == 2 * letterbox.pad_x * UNIT,
            pad_bias_y == 2 * letterbox.pad_y * UNIT,
            anchor_table@.len() == NUM_ANCHORS,
            forall|i: int|
                0 <= i < NUM_ANCHORS ==> #[trigger] anchor_table@[i].0 == anchor_x_spec(i)
                    && anchor_table@[i].1 == anchor_y_spec(i),
            cands@.len() == ids.len(),
            forall|j: int|
                0 <= j < ids.len() ==> 0 <= #[trigger] ids[j] < a && anchor_contributes(
                    box_landmark@,
                    scores@,
                    fdim,
                    sfdim,
                    *letterbox,
                    thr,
                    ids[j],
                ),
            forall|j: int|
                0 <= j < cands@.len() ==> is_decoded_region(
                    #[trigger] cands@[j],
                    box_landmark@,
                    scores@,
                    fdim,
                    sfdim,
                    *letterbox,
                    ids[j],
                ),
            forall|b: int|
                0 <= b < a && anchor_passes(scores@, sfdim, thr, b) ==> box_vals_available(
                    box_landmark@,
                    fdim,
                    b,
                ),
            forall|b: int|
                0 <= b < a && anchor_contributes(
                    box_landmark@,
                    scores@,
                    fdim,
                    sfdim,
                    *letterbox,
                    thr,
                    b,
                ) ==> exists|j: int| 0 <= j < ids.len() && ids[j] == b,
            cand_boxes_bounded(cands@),
        decreases anchors - a,
    {
        proof {
            assert((a as int) * (sfdim as int) <= (anchors - 1) * (sfdim as int))
                by (nonlinear_arith)
                requires
                    0 <= a <= anchors - 1,
                    sfdim >= 0,
            {};
            assert((a as int) * (sfdim as int) <= 2016 * 0xFFFF_FFFF_FFFF_FFFF)
                by (nonlinear_arith)
                requires
                    0 <= a <= 2016,
                    0 <= sfdim <= 0xFFFF_FFFF_FFFF_FFFF,
            {};
        }
        let score_off_w: u128 = a as u128 * score_feature_dim as u128;
        proof {
            assert(a * sfdim < scores@.len());
        }
        let score_off: usize = score_off_w as usize;
        proof {
            assert(score_off as int == a * sfdim);
        }
        let raw: i64 = scores[score_off];
        let sc: i64 = sigmoid_fixed(raw);
        if sc >= cfg.score_threshold {
            proof {
                assert(0 <= (a as int) * (fdim as int) <= 2016 * 0xFFFF_FFFF_FFFF_FFFF)
                    by (nonlinear_arith)
                    requires
                        0 <= a <= 2016,
                        0 <= fdim <= 0xFFFF_FFFF_FFFF_FFFF,
                {};
                assert(anchor_passes(scores@, sfdim, thr, a as int));
            }
            let need: u128 = a as u128 * feature_dim as u128 + 18;
            if need > box_landmark.len() as u128 {
                proof {
                    assert((a as int) * (fdim as int) + 18 > box_landmark@.len());
                    assert(!box_vals_available(box_landmark@, fdim, a as int));
                }
                return Err(DetectError::MissingBoxValue);
            }
            let off: usize = (a as u128 * feature_dim as u128) as usize;
            proof {
                assert(off as int == a * fdim);
                assert(box_vals_available(box_landmark@, fdim, a as int));
            }
            let cx: i64 = box_landmark[off];
            let cy: i64 = box_landmark[off + 1];
            let w: i64 = box_landmark[off + 2];
            let h: i64 = box_landmark[off + 3];
            let ax: i64 = anchor_table[a].0;
            let ay: i64 = anchor_table[a].1;
            proof {
                assert(0 <= anchor_x_spec(a as int) <= UNIT && 0 <= anchor_y_spec(a as int)
                    <= UNIT) by {
                    lemma_anchor_range(a as int);
                }
            }
            let x1: i64 = dec_combine(
                ax,
                2 * (cx as i128) - (w as i128) - pad_bias_x,
                m,
                2 * (s as i128),
            );
            let x2: i64 = dec_combine(
                ax,
                2 * (cx as i128) + (w as i128) - pad_bias_x,
                m,
                2 * (s as i128),
            );
            let y1: i64 = dec_combine(
                ay,
                2 * (cy as i128) - (h as i128) - pad_bias_y,
                m,
                2 * (s as i128),
            );
            let y2: i64 = dec_combine(
                ay,
                2 * (cy as i128) + (h as i128) - pad_bias_y,
                m,
                2 * (s as i128),
            );
            proof {
                assert(x1 == dec_x1_raw(box_landmark@, fdim, *letterbox, a as int));
                assert(x2 == dec_x2_raw(box_landmark@, fdim, *letterbox, a as int));
                assert(y1 == dec_y1_raw(box_landmark@, fdim, *letterbox, a as int));
                assert(y2 == dec_y2_raw(box_landmark@, fdim, *letterbox, a as int));
            }
            if x2 > x1 && y2 > y1 {
                let bx1 = clamp_i64(x1, 0, lim_x);
                let by1 = clamp_i64(y1, 0, lim_y);
                let bx2 = clamp_i64(x2, 0, lim_x);
                let by2 = clamp_i64(y2, 0, lim_y);
                let mut lms: Vec<(i64, i64)> = Vec::new();
                let mut l: usize = 0;
                while l < PALM_LANDMARKS
                    invariant
                        l <= PALM_LANDMARKS,
                        lms@.len() == l,
                        a < anchors,
                        anchors <= NUM_ANCHORS,
                        off == a * fdim,
                        (a as int) * fdim + 18 <= box_landmark@.len(),
                        off + 18 <= box_landmark@.len(),
                        box_landmark@.len() <= usize::MAX,
                        fdim >= 18,
                        vals_bounded(box_landmark@),
                        info_fits(*letterbox),
                        m == letterbox.orig_max_dim(),
                        1 <= m <= MAX_FRAME_DIM,
                        1 <= s <= 4096,
                        s == letterbox.target_size,
                        pad_bias_x == 2 * letterbox.pad_x * UNIT,
                        pad_bias_y == 2 * letterbox.pad_y * UNIT,
                        0 <= anchor_x_spec(a as int) <= UNIT,
                        0 <= anchor_y_spec(a as int) <= UNIT,
                        ax == anchor_x_spec(a as int),
                        ay == anchor_y_spec(a as int),
                        forall|p: int|
                            0 <= p < l ==> (#[trigger] lms@[p]).0 == dec_lm_x(
                                box_landmark@,
                                fdim,
                                *letterbox,
                                a as int,
                                p,
                            ) && lms@[p].1 == dec_lm_y(box_landmark@, fdim, *letterbox, a as int, p),
                    decreases PALM_LANDMARKS - l,
                {
                    proof {
                        assert(off + 4 + 2 * l + 1 < box_landmark@.len());
                        assert(pad_bias_x / 2 == letterbox.pad_x * UNIT);
                        assert(pad_bias_y / 2 == letterbox.pad_y * UNIT);
                    }
                    let lx: i64 = dec_combine(
                        ax,
                        (box_landmark[off + 4 + 2 * l] as i128) - pad_bias_x / 2,
                        m,
                        s as i128,
                    );
                    let ly: i64 = dec_combine(
                        ay,
                        (box_landmark[off + 4 + 2 * l + 1] as i128) - pad_bias_y / 2,
                        m,
                        s as i128,
                    );
                    proof {
                        assert(lx == dec_lm_x(box_landmark@, fdim, *letterbox, a as int, l as int));
                        assert(ly == dec_lm_y(box_landmark@, fdim, *letterbox, a as int, l as int));
                    }
                    lms.push((lx, ly));
                    l = l + 1;
                }
                let region = PalmRegion { bbox: [bx1, by1, bx2, by2], landmarks: lms, score: sc };
                proof {
                    assert(region.bbox[0] == bx1 && region.bbox[1] == by1 && region.bbox[2] == bx2
                        && region.bbox[3] == by2);
                    assert(is_decoded_region(
                        region,
                        box_landmark@,
                        scores@,
                        fdim,
                        sfdim,
                        *letterbox,
                        a as int,
                    ));
                    assert(anchor_contributes(
                        box_landmark@,
                        scores@,
                        fdim,
                        sfdim,
                        *letterbox,
                        thr,
                        a as int,
                    ));
                    let pre_ids = ids;
                    ids = ids.push(a as int);
                    assert(ids[ids.len() - 1] == a as int);
                    assert forall|b: int|
                        0 <= b < a + 1 && anchor_contributes(
                            box_landmark@,
                            scores@,
                            fdim,
                            sfdim,
                            *letterbox,
                            thr,
                            b,
                        ) implies exists|j: int| 0 <= j < ids.len() && ids[j] == b by {
                        if b == a as int {
                            assert(ids[ids.len() - 1] == b);
                        } else {
                            let j = choose|j: int| 0 <= j < pre_ids.len() && pre_ids[j] == b;
                            assert(ids[j] == b);
                        }
                    }
                }
                cands.push(region);
            } else {
                proof {
                    assert(!anchor_nondegenerate(box_landmark@, fdim, *letterbox, a as int));
                }
            }
        } else {
            proof {
                assert(!anchor_passes(scores@, sfdim, thr, a as int));
            }
        }
        a = a + 1;
    }

    let keep = nms(&cands, cfg.nms_threshold, cfg.top_k);
    let mut regions: Vec<PalmRegion> = Vec::new();
    let mut k: usize = 0;
    while k < keep.len()
        invariant
            k <= keep@.len(),
            regions@.len() == k,
            keep@.len() <= cfg.top_k,
            forall|i: int| 0 <= i < keep@.len() ==> #[trigger] keep@[i] < cands@.len(),
            forall|i: int, j: int|
                0 <= i < keep@.len() && 0 <= j < keep@.len() && i != j ==> iou_spec(
                    cands@[keep@[i] as int].bbox,
                    cands@[keep@[j] as int].bbox,
                ) < cfg.nms_threshold,
            forall|i: int, j: int|
                0 <= i < j < keep@.len() ==> cands@[keep@[i] as int].score >= cands@[keep@[j] as int].score,
            forall|i: int|
                0 <= i < k ==> {
                    &&& (#[trigger] regions@[i]).bbox == cands@[keep@[i] as int].bbox
                    &&& regions@[i].score == cands@[keep@[i] as int].score
                    &&& regions@[i].landmarks@ == cands@[keep@[i] as int].landmarks@
                },
        decreases keep@.len() - k,
    {
        let idx = keep[k];
        let src = &cands[idx];
        let mut lms: Vec<(i64, i64)> = Vec::new();
        let mut l: usize = 0;
        while l < src.landmarks.len()
            invariant
                l <= src.landmarks@.len(),
                lms@.len() == l,
                forall|p: int| 0 <= p < l ==> #[trigger] lms@[p] == src.landmarks@[p],
            decreases src.landmarks@.len() - l,
        {
            let pt = src.landmarks[l];
            lms.push(pt);
            l = l + 1;
        }
        proof {
            assert(lms@ =~= src.landmarks@);
        }
        let region = PalmRegion {
            bbox: [src.bbox[0], src.bbox[1], src.bbox[2], src.bbox[3]],
            landmarks: lms,
            score: src.score,
        };
        proof {
            assert(region.bbox =~= src.bbox);
        }
        regions.push(region);
        k = k + 1;
    }
    proof {
        assert forall|i: int| 0 <= i < regions@.len() implies exists|a2: int|
            0 <= a2 < anchors && anchor_contributes(
                box_landmark@,
                scores@,
                fdim,
                sfdim,
                *letterbox,
                thr,
                a2,
            ) && is_decoded_region(
                #[trigger] regions@[i],
                box_landmark@,
                scores@,
                fdim,
                sfdim,
                *letterbox,
                a2,
            ) by {
            let idx = keep@[i] as int;
            let a2 = ids[idx];
            assert(is_decoded_region(
                cands@[idx],
                box_landmark@,
                scores@,
                fdim,
                sfdim,
                *letterbox,
                a2,
            ));
            assert(regions@[i].bbox == cands@[idx].bbox);
            assert(regions@[i].score == cands@[idx].score);
            assert(regions@[i].landmarks@ == cands@[idx].landmarks@);
            assert(is_decoded_region(
                regions@[i],
                box_landmark@,
                scores@,
                fdim,
                sfdim,
                *letterbox,
                a2,
            ));
        }
    }
    proof {
        if cfg.top_k > 0 && exists|b: int|
            0 <= b < anchors && anchor_contributes(
                box_landmark@,
                scores@,
                fdim,
                sfdim,
                *letterbox,
                thr,
                b,
            ) {
            let b = choose|b: int|
                0 <= b < anchors && anchor_contributes(
                    box_landmark@,
                    scores@,
                    fdim,
                    sfdim,
                    *letterbox,
                    thr,
                    b,
                );
            assert(exists|j: int| 0 <= j < ids.len() && ids[j] == b);
            assert(cands@.len() > 0);
            assert forall|b2: int|
                0 <= b2 < anchors && anchor_contributes(
                    box_landmark@,
                    scores@,
                    fdim,
                    sfdim,
                    *letterbox,
                    thr,
                    b2,
                ) implies sigmoid_spec(score_raw(scores@, sfdim, b2)) <= regions@[0].score by {
                let j2 = choose|j2: int| 0 <= j2 < ids.len() && ids[j2] == b2;
                assert(cands@[j2].score == sigmoid_spec(score_raw(scores@, sfdim, b2)));
                assert(cands@[j2].score <= cands@[keep@[0] as int].score);
            }
        }
    }
    Ok(regions)
}

/// Anchor centers are normalized coordinates: within `[0, UNIT]`.
proof fn lemma_anchor_range(i: int)
    requires
        0 <= i < NUM_ANCHORS,
    ensures
        0 <= anchor_x_spec(i) <= UNIT,
        0 <= anchor_y_spec(i) <= UNIT,
{
    if i < FIRST_LAYER_ANCHORS {
        let cell = i / 2;
        assert(0 <= cell % 24 < 24) by (nonlinear_arith);
        assert(0 <= cell / 24 < 24) by (nonlinear_arith)
            requires
                0 <= cell < 576,
        {};
        assert(0 <= cell < 576) by (nonlinear_arith)
            requires
                0 <= i < 1152,
                cell == i / 2,
        {};
    } else {
        let cell = (i - FIRST_LAYER_ANCHORS) / 6;
        assert(0 <= cell < 144) by (nonlinear_arith)
            requires
                0 <= i - FIRST_LAYER_ANCHORS < 864,
                cell == (i - FIRST_LAYER_ANCHORS) / 6,
        {};
        assert(0 <= cell % 12 < 12) by (nonlinear_arith);
        assert(0 <= cell / 12 < 12) by (nonlinear_arith)
            requires
                0 <= cell < 144,
        {};
    }
}

/// The region of greatest score, `None` exactly on an empty list; ties go
/// to the first occurrence.
pub fn pick_primary_region(regions: &Vec<PalmRegion>) -> (res: Option<&PalmRegion>)
    ensures
        res is None <==> regions@.len() == 0,
        res matches Some(r) ==> exists|i: int|
            0 <= i < regions@.len() && *r == regions@[i] && (forall|j: int|
                0 <= j < regions@.len() ==> (#[trigger] regions@[j].score) <= regions@[i].score)
                && (forall|j: int| 0 <= j < i ==> (#[trigger] regions@[j].score) < regions@[i].score),
{
    if regions.len() == 0 {
        return None;
    }
    let mut best: usize = 0;
    let mut i: usize = 1;
    while i < regions.len()
        invariant
            1 <= i <= regions@.len(),
            best < i,
            forall|j: int| 0 <= j < i ==> (#[trigger] regions@[j].score) <= regions@[best as int].score,
            forall|j: int| 0 <= j < best ==> (#[trigger] regions@[j].score) < regions@[best as int].score,
        decreases regions@.len() - i,
    {
        if regions[i].score > regions[best].score {
            best = i;
        }
        i = i + 1;
    }
    Some(&regions[best])
}

} // verus!
