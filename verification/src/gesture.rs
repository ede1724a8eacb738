//! Gesture classification: geometric per-finger flexion states, the
//! normalization feeding the learned classifier, the class-index table,
//! and the sliding-window motion tracker.
//!
//! Every rule is closed-form over fixed-point landmarks; the learned
//! classifier itself is an external collaborator that hands back a logits
//! vector, of which only the arg-max is taken here.

use std::collections::VecDeque;

use vstd::prelude::*;

use crate::fixed::{
    div_trunc, div_trunc_i128, isqrt, lemma_abs_le_sqrt, lemma_ratio_unit, lemma_sqrt_floor_unique,
    spec_clamp, spec_max, spec_min, sqrt_floor, UNIT,
};
use crate::types::{FingerState, GestureDetail, GestureKind, GestureMotion, Handedness};

verus! {

/// Below this confidence the classifier reports no gesture at all.
pub const MIN_CONFIDENCE: i64 = 200;

/// Length of the motion tracker's sliding window, in milliseconds.
pub const MOTION_WINDOW_MS: u64 = 1200;

/// Bound on the raw landmark coordinates the geometry accepts.
pub const LM_LIMIT: i64 = 0x1000_0000;

/// Bound on normalized landmark coordinates (raw coordinates divided by a
/// span of at least one fixed-point step).
pub const NORM_LIMIT: i64 = 0x100_0000_0000;

/// All landmarks within `limit` in x, y and z.
pub open spec fn lms_bounded(s: Seq<[i64; 3]>, limit: int) -> bool {
    forall|i: int|
        0 <= i < s.len() ==> {
            &&& -limit <= (#[trigger] s[i])[0] <= limit
            &&& -limit <= s[i][1] <= limit
            &&& -limit <= s[i][2] <= limit
        }
}

/// Smallest x over a nonempty landmark list.
pub open spec fn lm_min_x(s: Seq<[i64; 3]>) -> int
    decreases s.len(),
{
    if s.len() <= 1 {
        s[0][0] as int
    } else {
        spec_min(lm_min_x(s.drop_last()), s.last()[0] as int)
    }
}

pub open spec fn lm_max_x(s: Seq<[i64; 3]>) -> int
    decreases s.len(),
{
    if s.len() <= 1 {
        s[0][0] as int
    } else {
        spec_max(lm_max_x(s.drop_last()), s.last()[0] as int)
    }
}

pub open spec fn lm_min_y(s: Seq<[i64; 3]>) -> int
    decreases s.len(),
{
    if s.len() <= 1 {
        s[0][1] as int
    } else {
        spec_min(lm_min_y(s.drop_last()), s.last()[1] as int)
    }
}

pub open spec fn lm_max_y(s: Seq<[i64; 3]>) -> int
    decreases s.len(),
{
    if s.len() <= 1 {
        s[0][1] as int
    } else {
        spec_max(lm_max_y(s.drop_last()), s.last()[1] as int)
    }
}

/// The bounding span used to normalize for the finger rules, floored at
/// one fixed-point step.
pub open spec fn span_spec(s: Seq<[i64; 3]>) -> int {
    spec_max(spec_max(lm_max_x(s) - lm_min_x(s), lm_max_y(s) - lm_min_y(s)), 1)
}

/// The normalized coordinates of landmark `i`: translated by the bounding
/// minimum and divided by the span (z only divided).
pub open spec fn norm_x(s: Seq<[i64; 3]>, i: int) -> int {
    div_trunc((s[i][0] - lm_min_x(s)) * UNIT, span_spec(s))
}

pub open spec fn norm_y(s: Seq<[i64; 3]>, i: int) -> int {
    div_trunc((s[i][1] - lm_min_y(s)) * UNIT, span_spec(s))
}

pub open spec fn norm_z(s: Seq<[i64; 3]>, i: int) -> int {
    div_trunc(s[i][2] * UNIT, span_spec(s))
}

/// Distance between two landmarks of a list.
pub open spec fn pdist(s: Seq<[i64; 3]>, i: int, j: int) -> int {
    let dx = s[i][0] - s[j][0];
    let dy = s[i][1] - s[j][1];
    let dz = s[i][2] - s[j][2];
    sqrt_floor(dx * dx + dy * dy + dz * dz)
}

/// The segment vector from landmark `i` to landmark `j`.
pub open spec fn segv(s: Seq<[i64; 3]>, i: int, j: int) -> (int, int, int) {
    (s[j][0] - s[i][0], s[j][1] - s[i][1], s[j][2] - s[i][2])
}

/// A vector scaled to (fixed-point) unit length; the zero vector stays
/// zero.
pub open spec fn norm3_spec(v: (int, int, int)) -> (int, int, int) {
    let len = sqrt_floor(v.0 * v.0 + v.1 * v.1 + v.2 * v.2);
    if len == 0 {
        (0, 0, 0)
    } else {
        (
            div_trunc(v.0 * UNIT, len),
            div_trunc(v.1 * UNIT, len),
            div_trunc(v.2 * UNIT, len),
        )
    }
}

/// Dot product of two fixed-point unit vectors, scaled back to one unit.
pub open spec fn dot_unit_spec(a: (int, int, int), b: (int, int, int)) -> int {
    div_trunc(a.0 * b.0 + a.1 * b.1 + a.2 * b.2, UNIT as int)
}

/// Average cosine similarity of consecutive segment directions, clamped
/// to `[-UNIT, UNIT]`.
pub open spec fn straightness_spec(a: (int, int, int), b: (int, int, int), c: (int, int, int)) -> int {
    spec_clamp(
        div_trunc(
            dot_unit_spec(norm3_spec(a), norm3_spec(b)) + dot_unit_spec(
                norm3_spec(b),
                norm3_spec(c),
            ),
            2,
        ),
        -UNIT as int,
        UNIT as int,
    )
}

/// Flexion state of one non-thumb finger over normalized landmarks, from
/// the wrist distances of its tip, PIP and MCP joints and the chain
/// straightness.
pub open spec fn finger_state_spec(s: Seq<[i64; 3]>, mcp: int, pip: int, dip: int, tip: int) -> FingerState {
    let dist_tip = pdist(s, tip, 0);
    let dist_pip = pdist(s, pip, 0);
    let dist_mcp = pdist(s, mcp, 0);
    let st = straightness_spec(segv(s, mcp, pip), segv(s, pip, dip), segv(s, dip, tip));
    let extension = dist_tip - dist_pip;
    let reach = dist_tip - dist_mcp;
    if extension > 150 && st > 400 && reach > 60 {
        FingerState::Extended
    } else if extension < 80 || st < 180 || reach < 50 {
        FingerState::Folded
    } else {
        FingerState::HalfBent
    }
}

/// Flexion state of the thumb: its own joint chain plus the distance to
/// the index and pinky knuckles as a folding signal.
pub open spec fn thumb_state_spec(s: Seq<[i64; 3]>) -> FingerState {
    let dist_tip_wrist = pdist(s, 4, 0);
    let dist_ip_wrist = pdist(s, 3, 0);
    let dist_mcp_wrist = pdist(s, 2, 0);
    let spread = spec_min(pdist(s, 4, 5), pdist(s, 4, 17));
    let st = straightness_spec(segv(s, 1, 2), segv(s, 2, 3), segv(s, 3, 4));
    let extension = dist_tip_wrist - dist_ip_wrist;
    let reach = dist_tip_wrist - dist_mcp_wrist;
    if spread < 250 && (st < 280 || reach < 150) {
        FingerState::Folded
    } else if dist_tip_wrist > 300 && st > 280 && extension > 80 {
        FingerState::Extended
    } else {
        FingerState::HalfBent
    }
}

/// Hand side from the handedness score: at or above one half is right,
/// positive below is left, zero or less is unknown.
pub open spec fn handedness_spec(score: int) -> Handedness {
    if score >= 500 {
        Handedness::Right
    } else if score > 0 {
        Handedness::Left
    } else {
        Handedness::Unknown
    }
}

pub fn handedness_from_score(score: i64) -> (res: Handedness)
    ensures
        res == handedness_spec(score as int),
{
    if score >= UNIT / 2 {
        Handedness::Right
    } else if score > 0 {
        Handedness::Left
    } else {
        Handedness::Unknown
    }
}

/// Translate all landmarks by the bounding minimum and scale by the
/// bounding span, so the finger rules see a position-free hand.
pub fn normalize_landmarks(points: &Vec<[i64; 3]>) -> (res: (Vec<[i64; 3]>, i64))
    requires
        points@.len() >= 1,
        lms_bounded(points@, LM_LIMIT as int),
    ensures
        res.0@.len() == points@.len(),
        forall|i: int|
            0 <= i < points@.len() ==> {
                &&& (#[trigger] res.0@[i])[0] == norm_x(points@, i)
                &&& res.0@[i][1] == norm_y(points@, i)
                &&& res.0@[i][2] == norm_z(points@, i)
            },
        res.1 == span_spec(points@),
        lms_bounded(res.0@, NORM_LIMIT as int),
{
    let ghost s = points@;
    let n = points.len();
    let first = &points[0];
    let mut mnx: i64 = first[0];
    let mut mxx: i64 = first[0];
    let mut mny: i64 = first[1];
    let mut mxy: i64 = first[1];
    let mut i: usize = 1;
    while i < n
        invariant
            1 <= i <= n,
            n == s.len(),
            s == points@,
            lms_bounded(s, LM_LIMIT as int),
            mnx == lm_min_x(s.subrange(0, i as int)),
            mxx == lm_max_x(s.subrange(0, i as int)),
            mny == lm_min_y(s.subrange(0, i as int)),
            mxy == lm_max_y(s.subrange(0, i as int)),
            -LM_LIMIT <= mnx <= LM_LIMIT,
            -LM_LIMIT <= mxx <= LM_LIMIT,
            -LM_LIMIT <= mny <= LM_LIMIT,
            -LM_LIMIT <= mxy <= LM_LIMIT,
        decreases n - i,
    {
        let pt = &points[i];
        proof {
            assert(s.subrange(0, i + 1).drop_last() =~= s.subrange(0, i as int));
            assert(s.subrange(0, i + 1).last() == s[i as int]);
            assert(s.subrange(0, i + 1).len() > 1);
        }
        if pt[0] < mnx {
            mnx = pt[0];
        }
        if pt[0] > mxx {
            mxx = pt[0];
        }
        if pt[1] < mny {
            mny = pt[1];
        }
        if pt[1] > mxy {
            mxy = pt[1];
        }
        i = i + 1;
    }
    proof {
        assert(s.subrange(0, n as int) =~= s);
    }
    let sx = mxx - mnx;
    let sy = mxy - mny;
    let mut span: i64 = if sx >= sy {
        sx
    } else {
        sy
    };
    if span < 1 {
        span = 1;
    }
    assert(span == span_spec(s));

    let mut out: Vec<[i64; 3]> = Vec::new();
    let mut k: usize = 0;
    while k < n
        invariant
            k <= n,
            n == s.len(),
            s == points@,
            lms_bounded(s, LM_LIMIT as int),
            out@.len() == k,
            span == span_spec(s),
            1 <= span <= 4 * LM_LIMIT,
            mnx == lm_min_x(s),
            mny == lm_min_y(s),
            -LM_LIMIT <= mnx <= LM_LIMIT,
            -LM_LIMIT <= mny <= LM_LIMIT,
            forall|j: int|
                0 <= j < k ==> {
                    &&& (#[trigger] out@[j])[0] == norm_x(s, j)
                    &&& out@[j][1] == norm_y(s, j)
                    &&& out@[j][2] == norm_z(s, j)
                },
            lms_bounded(out@, NORM_LIMIT as int),
        decreases n - k,
    {
        let pt = &points[k];
        let vx: i128 = (pt[0] as i128 - mnx as i128) * (UNIT as i128);
        let vy: i128 = (pt[1] as i128 - mny as i128) * (UNIT as i128);
        let vz: i128 = (pt[2] as i128) * (UNIT as i128);
        let nxv = div_trunc_i128(vx, span as i128);
        let nyv = div_trunc_i128(vy, span as i128);
        let nzv = div_trunc_i128(vz, span as i128);
        proof {
            crate::palm::lemma_div_trunc_bound(vx as int, span as int);
            crate::palm::lemma_div_trunc_bound(vy as int, span as int);
            crate::palm::lemma_div_trunc_bound(vz as int, span as int);
        }
        out.push([nxv as i64, nyv as i64, nzv as i64]);
        k = k + 1;
    }
    (out, span)
}

/// Distance between two entries of a landmark list.
fn dist3(points: &Vec<[i64; 3]>, i: usize, j: usize) -> (r: i64)
    requires
        i < points@.len(),
        j < points@.len(),
        lms_bounded(points@, NORM_LIMIT as int),
    ensures
        r == pdist(points@, i as int, j as int),
        0 <= r <= 4 * NORM_LIMIT,
{
    let a = &points[i];
    let b = &points[j];
    let dx: i128 = a[0] as i128 - b[0] as i128;
    let dy: i128 = a[1] as i128 - b[1] as i128;
    let dz: i128 = a[2] as i128 - b[2] as i128;
    proof {
        assert(0 <= dx * dx <= 0x400000000000000000000 && 0 <= dy * dy
            <= 0x400000000000000000000 && 0 <= dz * dz <= 0x400000000000000000000)
            by (nonlinear_arith)
            requires
                -0x20000000000 <= dx <= 0x20000000000,
                -0x20000000000 <= dy <= 0x20000000000,
                -0x20000000000 <= dz <= 0x20000000000,
        {};
    }
    let sum: i128 = dx * dx + dy * dy + dz * dz;
    let r = isqrt(sum as u128);
    proof {
        lemma_sqrt_floor_unique(sum as int, r as int);
        assert(r <= 4 * NORM_LIMIT) by (nonlinear_arith)
            requires
                (r as int) * (r as int) <= sum,
                sum <= 3 * 0x400000000000000000000,
                r >= 0,
                NORM_LIMIT == 0x100_0000_0000,
        {};
    }
    r as i64
}

/// A vector scaled to fixed-point unit length.
fn norm3(v: (i64, i64, i64)) -> (r: (i64, i64, i64))
    requires
        -2 * NORM_LIMIT <= v.0 <= 2 * NORM_LIMIT,
        -2 * NORM_LIMIT <= v.1 <= 2 * NORM_LIMIT,
        -2 * NORM_LIMIT <= v.2 <= 2 * NORM_LIMIT,
    ensures
        (r.0 as int, r.1 as int, r.2 as int) == norm3_spec((v.0 as int, v.1 as int, v.2 as int)),
        -UNIT <= r.0 <= UNIT,
        -UNIT <= r.1 <= UNIT,
        -UNIT <= r.2 <= UNIT,
{
    let x: i128 = v.0 as i128;
    let y: i128 = v.1 as i128;
    let z: i128 = v.2 as i128;
    proof {
        assert(0 <= x * x <= 0x400000000000000000000 && 0 <= y * y <= 0x400000000000000000000
            && 0 <= z * z <= 0x400000000000000000000) by (nonlinear_arith)
            requires
                -0x20000000000 <= x <= 0x20000000000,
                -0x20000000000 <= y <= 0x20000000000,
                -0x20000000000 <= z <= 0x20000000000,
        {};
    }
    let sum: i128 = x * x + y * y + z * z;
    let len = isqrt(sum as u128);
    proof {
        lemma_sqrt_floor_unique(sum as int, len as int);
    }
    if len == 0 {
        (0, 0, 0)
    } else {
        proof {
            lemma_abs_le_sqrt(x as int, len as int, sum as int);
            lemma_abs_le_sqrt(y as int, len as int, sum as int);
            lemma_abs_le_sqrt(z as int, len as int, sum as int);
            lemma_ratio_unit(x as int, len as int);
            lemma_ratio_unit(y as int, len as int);
            lemma_ratio_unit(z as int, len as int);
            assert(x * x <= sum && y * y <= sum && z * z <= sum);
        }
        let nx = div_trunc_i128(x * (UNIT as i128), len as i128) as i64;
        let ny = div_trunc_i128(y * (UNIT as i128), len as i128) as i64;
        let nz = div_trunc_i128(z * (UNIT as i128), len as i128) as i64;
        (nx, ny, nz)
    }
}

/// Dot product of two fixed-point unit vectors.
fn dot_unit(a: (i64, i64, i64), b: (i64, i64, i64)) -> (r: i64)
    requires
        -UNIT <= a.0 <= UNIT,
        -UNIT <= a.1 <= UNIT,
        -UNIT <= a.2 <= UNIT,
        -UNIT <= b.0 <= UNIT,
        -UNIT <= b.1 <= UNIT,
        -UNIT <= b.2 <= UNIT,
    ensures
        r == dot_unit_spec(
            (a.0 as int, a.1 as int, a.2 as int),
            (b.0 as int, b.1 as int, b.2 as int),
        ),
        -3 * UNIT <= r <= 3 * UNIT,
{
    proof {
        assert(-1000000 <= a.0 * b.0 <= 1000000 && -1000000 <= a.1 * b.1 <= 1000000 && -1000000
            <= a.2 * b.2 <= 1000000) by (nonlinear_arith)
            requires
                -1000 <= a.0 <= 1000,
                -1000 <= a.1 <= 1000,
                -1000 <= a.2 <= 1000,
                -1000 <= b.0 <= 1000,
                -1000 <= b.1 <= 1000,
                -1000 <= b.2 <= 1000,
        {};
    }
    let sum: i64 = a.0 * b.0 + a.1 * b.1 + a.2 * b.2;
    let q = div_trunc_i128(sum as i128, UNIT as i128);
    proof {
        crate::palm::lemma_div_trunc_bound(sum as int, UNIT as int);
    }
    q as i64
}

/// Average cosine similarity of three consecutive segment directions.
fn average_straightness(a: (i64, i64, i64), b: (i64, i64, i64), c: (i64, i64, i64)) -> (r: i64)
    requires
        -2 * NORM_LIMIT <= a.0 <= 2 * NORM_LIMIT,
        -2 * NORM_LIMIT <= a.1 <= 2 * NORM_LIMIT,
        -2 * NORM_LIMIT <= a.2 <= 2 * NORM_LIMIT,
        -2 * NORM_LIMIT <= b.0 <= 2 * NORM_LIMIT,
        -2 * NORM_LIMIT <= b.1 <= 2 * NORM_LIMIT,
        -2 * NORM_LIMIT <= b.2 <= 2 * NORM_LIMIT,
        -2 * NORM_LIMIT <= c.0 <= 2 * NORM_LIMIT,
        -2 * NORM_LIMIT <= c.1 <= 2 * NORM_LIMIT,
        -2 * NORM_LIMIT <= c.2 <= 2 * NORM_LIMIT,
    ensures
        r == straightness_spec(
            (a.0 as int, a.1 as int, a.2 as int),
            (b.0 as int, b.1 as int, b.2 as int),
            (c.0 as int, c.1 as int, c.2 as int),
        ),
        -UNIT <= r <= UNIT,
{
    let na = norm3(a);
    let nb = norm3(b);
    let nc = norm3(c);
    let ab = dot_unit(na, nb);
    let bc = dot_unit(nb, nc);
    let avg = div_trunc_i128((ab + bc) as i128, 2);
    proof {
        crate::palm::lemma_div_trunc_bound((ab + bc) as int, 2);
    }
    let v = avg as i64;
    if v < -UNIT {
        -UNIT
    } else if v > UNIT {
        UNIT
    } else {
        v
    }
}

/// The segment vector between two landmarks.
fn seg(points: &Vec<[i64; 3]>, i: usize, j: usize) -> (r: (i64, i64, i64))
    requires
        i < points@.len(),
        j < points@.len(),
        lms_bounded(points@, NORM_LIMIT as int),
    ensures
        (r.0 as int, r.1 as int, r.2 as int) == segv(points@, i as int, j as int),
        -2 * NORM_LIMIT <= r.0 <= 2 * NORM_LIMIT,
        -2 * NORM_LIMIT <= r.1 <= 2 * NORM_LIMIT,
        -2 * NORM_LIMIT <= r.2 <= 2 * NORM_LIMIT,
{
    let a = &points[i];
    let b = &points[j];
    (b[0] - a[0], b[1] - a[1], b[2] - a[2])
}

/// Classify one non-thumb finger from normalized landmarks; the indices
/// name its MCP, PIP, DIP and TIP joints.
pub fn classify_finger(points: &Vec<[i64; 3]>, idx: [usize; 4]) -> (res: FingerState)
    requires
        points@.len() >= 21,
        lms_bounded(points@, NORM_LIMIT as int),
        idx[0] < 21,
        idx[1] < 21,
        idx[2] < 21,
        idx[3] < 21,
    ensures
        res == finger_state_spec(
            points@,
            idx[0] as int,
            idx[1] as int,
            idx[2] as int,
            idx[3] as int,
        ),
{
    let mcp = idx[0];
    let pip = idx[1];
    let dip = idx[2];
    let tip = idx[3];
    let dist_tip = dist3(points, tip, 0);
    let dist_pip = dist3(points, pip, 0);
    let dist_mcp = dist3(points, mcp, 0);
    let st = average_straightness(seg(points, mcp, pip), seg(points, pip, dip), seg(points, dip, tip));
    let extension = dist_tip - dist_pip;
    let reach = dist_tip - dist_mcp;
    if extension > 150 && st > 400 && reach > 60 {
        FingerState::Extended
    } else if extension < 80 || st < 180 || reach < 50 {
        FingerState::Folded
    } else {
        FingerState::HalfBent
    }
}

/// Classify the thumb from normalized landmarks.
pub fn classify_thumb(points: &Vec<[i64; 3]>) -> (res: FingerState)
    requires
        points@.len() >= 21,
        lms_bounded(points@, NORM_LIMIT as int),
    ensures
        res == thumb_state_spec(points@),
{
    let dist_tip_wrist = dist3(points, 4, 0);
    let dist_ip_wrist = dist3(points, 3, 0);
    let dist_mcp_wrist = dist3(points, 2, 0);
    let dist_tip_index = dist3(points, 4, 5);
    let dist_tip_pinky = dist3(points, 4, 17);
    let st = average_straightness(seg(points, 1, 2), seg(points, 2, 3), seg(points, 3, 4));
    let spread = if dist_tip_index <= dist_tip_pinky {
        dist_tip_index
    } else {
        dist_tip_pinky
    };
    let extension = dist_tip_wrist - dist_ip_wrist;
    let reach = dist_tip_wrist - dist_mcp_wrist;
    if spread < 250 && (st < 280 || reach < 150) {
        FingerState::Folded
    } else if dist_tip_wrist > 300 && st > 280 && extension > 80 {
        FingerState::Extended
    } else {
        FingerState::HalfBent
    }
}

/// The five finger states of a hand, over raw landmarks: normalize, then
/// classify thumb, index, middle, ring and pinky.
pub open spec fn finger_states_spec(raw: Seq<[i64; 3]>) -> Seq<FingerState> {
    let s = Seq::new(
        raw.len(),
        |i: int| [norm_x(raw, i) as i64, norm_y(raw, i) as i64, norm_z(raw, i) as i64],
    );
    seq![
        thumb_state_spec(s),
        finger_state_spec(s, 5, 6, 7, 8),
        finger_state_spec(s, 9, 10, 11, 12),
        finger_state_spec(s, 13, 14, 15, 16),
        finger_state_spec(s, 17, 18, 19, 20),
    ]
}

/// `t` is `s` with every landmark moved by the same `(dx, dy)` in the
/// image plane.
pub open spec fn translated(s: Seq<[i64; 3]>, t: Seq<[i64; 3]>, dx: int, dy: int) -> bool {
    &&& t.len() == s.len()
    &&& forall|i: int|
        0 <= i < s.len() ==> {
            &&& (#[trigger] t[i])[0] == s[i][0] + dx
            &&& t[i][1] == s[i][1] + dy
            &&& t[i][2] == s[i][2]
        }
}

/// Moving every landmark by the same planar offset moves the bounding
/// minima and maxima by that offset.
proof fn lemma_extrema_translate(s: Seq<[i64; 3]>, t: Seq<[i64; 3]>, dx: int, dy: int)
    requires
        s.len() >= 1,
        translated(s, t, dx, dy),
    ensures
        lm_min_x(t) == lm_min_x(s) + dx,
        lm_max_x(t) == lm_max_x(s) + dx,
        lm_min_y(t) == lm_min_y(s) + dy,
        lm_max_y(t) == lm_max_y(s) + dy,
    decreases s.len(),
{
    if s.len() > 1 {
        assert(translated(s.drop_last(), t.drop_last(), dx, dy)) by {
            assert forall|i: int| 0 <= i < s.drop_last().len() implies {
                &&& (#[trigger] t.drop_last()[i])[0] == s.drop_last()[i][0] + dx
                &&& t.drop_last()[i][1] == s.drop_last()[i][1] + dy
                &&& t.drop_last()[i][2] == s.drop_last()[i][2]
            } by {
                assert(t.drop_last()[i] == t[i]);
                assert(s.drop_last()[i] == s[i]);
            }
        }
        lemma_extrema_translate(s.drop_last(), t.drop_last(), dx, dy);
        assert(t.last() == t[s.len() - 1]);
        assert(s.last() == s[s.len() - 1]);
    } else {
        assert(t[0][0] == s[0][0] + dx);
        assert(t[0][1] == s[0][1] + dy);
    }
}

/// Finger-state classification is invariant under a uniform planar
/// translation of all landmarks: the normalization subtracts the bounding
/// minimum and divides by the (unchanged) span, so the normalized hand is
/// identical and every finger state stays the same.
pub proof fn lemma_finger_states_translation_invariant(
    s: Seq<[i64; 3]>,
    t: Seq<[i64; 3]>,
    dx: int,
    dy: int,
)
    requires
        s.len() >= 1,
        translated(s, t, dx, dy),
    ensures
        finger_states_spec(t) == finger_states_spec(s),
{
    lemma_extrema_translate(s, t, dx, dy);
    assert(span_spec(t) == span_spec(s));
    let ns = Seq::new(
        s.len(),
        |i: int| [norm_x(s, i) as i64, norm_y(s, i) as i64, norm_z(s, i) as i64],
    );
    let nt = Seq::new(
        t.len(),
        |i: int| [norm_x(t, i) as i64, norm_y(t, i) as i64, norm_z(t, i) as i64],
    );
    assert forall|i: int| 0 <= i < s.len() implies #[trigger] nt[i] == ns[i] by {
        assert(t[i][0] - lm_min_x(t) == s[i][0] - lm_min_x(s));
        assert(t[i][1] - lm_min_y(t) == s[i][1] - lm_min_y(s));
        assert(norm_x(t, i) == norm_x(s, i));
        assert(norm_y(t, i) == norm_y(s, i));
        assert(norm_z(t, i) == norm_z(s, i));
        assert(nt[i] =~= ns[i]);
    }
    assert(nt =~= ns);
}

/// The scale the learned-model normalization divides by: the palm width
/// (index-MCP to pinky-MCP), or the wrist-to-middle-MCP distance when the
/// palm width vanishes.
pub open spec fn model_scale_spec(s: Seq<[i64; 3]>) -> int {
    let pdx = s[5][0] - s[17][0];
    let pdy = s[5][1] - s[17][1];
    let pw = sqrt_floor(pdx * pdx + pdy * pdy);
    if pw > 0 {
        pw
    } else {
        let mdx = s[9][0] - s[0][0];
        let mdy = s[9][1] - s[0][1];
        sqrt_floor(mdx * mdx + mdy * mdy)
    }
}

/// Normalize raw landmarks for the learned classifier: translate to the
/// wrist, scale by the palm width, drop z, and flatten the 21 planar
/// points into a 42-value vector. Exactly 21 landmarks and a nonzero
/// scale are required; otherwise `None`.
pub fn normalize_for_model(landmarks: &Vec<[i64; 3]>) -> (res: Option<Vec<i64>>)
    requires
        lms_bounded(landmarks@, LM_LIMIT as int),
    ensures
        res is None <==> !(landmarks@.len() == 21 && model_scale_spec(landmarks@) > 0),
        res matches Some(v) ==> {
            &&& v@.len() == 42
            &&& forall|i: int|
                0 <= i < 21 ==> {
                    &&& #[trigger] v@[2 * i] == div_trunc(
                        (landmarks@[i][0] - landmarks@[0][0]) * UNIT,
                        model_scale_spec(landmarks@),
                    )
                    &&& v@[2 * i + 1] == div_trunc(
                        (landmarks@[i][1] - landmarks@[0][1]) * UNIT,
                        model_scale_spec(landmarks@),
                    )
                }
        },
{
    if landmarks.len() != 21 {
        return None;
    }
    let ghost s = landmarks@;
    let pdx: i128 = landmarks[5][0] as i128 - landmarks[17][0] as i128;
    let pdy: i128 = landmarks[5][1] as i128 - landmarks[17][1] as i128;
    proof {
        assert(0 <= pdx * pdx <= 0x400000000000000 && 0 <= pdy * pdy <= 0x400000000000000)
            by (nonlinear_arith)
            requires
                -0x20000000 <= pdx <= 0x20000000,
                -0x20000000 <= pdy <= 0x20000000,
        {};
    }
    let pw = isqrt((pdx * pdx + pdy * pdy) as u128);
    proof {
        lemma_sqrt_floor_unique((pdx * pdx + pdy * pdy) as int, pw as int);
        assert(pw <= 0x40000000) by (nonlinear_arith)
            requires
                (pw as int) * (pw as int) <= 2 * 0x400000000000000,
                pw >= 0,
        {};
    }
    let scale: i64 = if pw > 0 {
        pw as i64
    } else {
        let mdx: i128 = landmarks[9][0] as i128 - landmarks[0][0] as i128;
        let mdy: i128 = landmarks[9][1] as i128 - landmarks[0][1] as i128;
        proof {
            assert(0 <= mdx * mdx <= 0x400000000000000 && 0 <= mdy * mdy <= 0x400000000000000)
                by (nonlinear_arith)
                requires
                    -0x20000000 <= mdx <= 0x20000000,
                    -0x20000000 <= mdy <= 0x20000000,
            {};
        }
        let mw = isqrt((mdx * mdx + mdy * mdy) as u128);
        proof {
            lemma_sqrt_floor_unique((mdx * mdx + mdy * mdy) as int, mw as int);
            assert(mw <= 0x40000000) by (nonlinear_arith)
                requires
                    (mw as int) * (mw as int) <= 2 * 0x400000000000000,
                    mw >= 0,
            {};
        }
        mw as i64
    };
    if scale == 0 {
        return None;
    }
    let wx: i64 = landmarks[0][0];
    let wy: i64 = landmarks[0][1];
    let mut out: Vec<i64> = Vec::new();
    let mut k: usize = 0;
    while k < 21
        invariant
            k <= 21,
            s == landmarks@,
            s.len() == 21,
            lms_bounded(s, LM_LIMIT as int),
            wx == s[0][0],
            wy == s[0][1],
            1 <= scale,
            scale == model_scale_spec(s),
            out@.len() == 2 * k,
            forall|i: int|
                0 <= i < k ==> {
                    &&& #[trigger] out@[2 * i] == div_trunc((s[i][0] - s[0][0]) * UNIT, scale as int)
                    &&& out@[2 * i + 1] == div_trunc((s[i][1] - s[0][1]) * UNIT, scale as int)
                },
        decreases 21 - k,
    {
        let pt = &landmarks[k];
        let tx: i128 = (pt[0] as i128 - wx as i128) * (UNIT as i128);
        let ty: i128 = (pt[1] as i128 - wy as i128) * (UNIT as i128);
        let qx = div_trunc_i128(tx, scale as i128);
        let qy = div_trunc_i128(ty, scale as i128);
        proof {
            crate::palm::lemma_div_trunc_bound(tx as int, scale as int);
            crate::palm::lemma_div_trunc_bound(ty as int, scale as int);
        }
        out.push(qx as i64);
        out.push(qy as i64);
        k = k + 1;
    }
    Some(out)
}

/// The index of the greatest logit; ties go to the later entry, and an
/// empty vector gives index zero.
pub open spec fn argmax_spec(s: Seq<i64>) -> int
    decreases s.len(),
{
    if s.len() <= 1 {
        0
    } else {
        let r = argmax_spec(s.drop_last());
        if s.last() >= s[r] {
            s.len() - 1
        } else {
            r
        }
    }
}

/// The class order of the learned gesture model.
pub open spec fn class_table_spec() -> Seq<GestureKind> {
    seq![
        GestureKind::Call,
        GestureKind::Dislike,
        GestureKind::Fist,
        GestureKind::Four,
        GestureKind::Grabbing,
        GestureKind::Grip,
        GestureKind::HandHeart,
        GestureKind::HandHeart2,
        GestureKind::Holy,
        GestureKind::Like,
        GestureKind::LittleFinger,
        GestureKind::MiddleFinger,
        GestureKind::Mute,
        GestureKind::NoGesture,
        GestureKind::OkSign,
        GestureKind::One,
        GestureKind::Palm,
        GestureKind::Peace,
        GestureKind::PeaceInverted,
        GestureKind::Point,
        GestureKind::Rock,
        GestureKind::Stop,
        GestureKind::StopInverted,
        GestureKind::TakePicture,
        GestureKind::Three,
        GestureKind::Three2,
        GestureKind::Three3,
        GestureKind::ThreeGun,
        GestureKind::ThumbIndex,
        GestureKind::ThumbIndex2,
        GestureKind::Timeout,
        GestureKind::TwoUp,
        GestureKind::TwoUpInverted,
        GestureKind::XSign,
    ]
}

/// The explicit class-index table handed to the classifier at
/// construction, in the model's class order.
pub fn default_class_table() -> (res: Vec<GestureKind>)
    ensures
        res@ == class_table_spec(),
{
    let mut v: Vec<GestureKind> = Vec::new();
    v.push(GestureKind::Call);
    v.push(GestureKind::Dislike);
    v.push(GestureKind::Fist);
    v.push(GestureKind::Four);
    v.push(GestureKind::Grabbing);
    v.push(GestureKind::Grip);
    v.push(GestureKind::HandHeart);
    v.push(GestureKind::HandHeart2);
    v.push(GestureKind::Holy);
    v.push(GestureKind::Like);
    v.push(GestureKind::LittleFinger);
    v.push(GestureKind::MiddleFinger);
    v.push(GestureKind::Mute);
    v.push(GestureKind::NoGesture);
    v.push(GestureKind::OkSign);
    v.push(GestureKind::One);
    v.push(GestureKind::Palm);
    v.push(GestureKind::Peace);
    v.push(GestureKind::PeaceInverted);
    v.push(GestureKind::Point);
    v.push(GestureKind::Rock);
    v.push(GestureKind::Stop);
    v.push(GestureKind::StopInverted);
    v.push(GestureKind::TakePicture);
    v.push(GestureKind::Three);
    v.push(GestureKind::Three2);
    v.push(GestureKind::Three3);
    v.push(GestureKind::ThreeGun);
    v.push(GestureKind::ThumbIndex);
    v.push(GestureKind::ThumbIndex2);
    v.push(GestureKind::Timeout);
    v.push(GestureKind::TwoUp);
    v.push(GestureKind::TwoUpInverted);
    v.push(GestureKind::XSign);
    proof {
        assert(v@ =~= class_table_spec());
    }
    v
}

/// The gesture a logits vector selects: the arg-max class index mapped
/// through the table, `Unknown` when out of range.
pub open spec fn gesture_from_logits_spec(logits: Seq<i64>, table: Seq<GestureKind>) -> GestureKind {
    let idx = argmax_spec(logits);
    if 0 <= idx < table.len() {
        table[idx]
    } else {
        GestureKind::Unknown
    }
}

/// One sample of the motion window: capture time, wrist position and
/// hand span.
#[derive(Clone, Copy, Debug, PartialEq, Eq, Structural)]
pub struct MotionSample {
    pub time_ms: u64,
    pub x: i64,
    pub y: i64,
    pub span: i64,
}

/// Milliseconds elapsed from `t` to `now`, saturating at zero.
pub open spec fn age_of(now: int, t: int) -> int {
    if now >= t {
        now - t
    } else {
        0
    }
}

/// The window with every sample older than the motion window evicted from
/// the front.
pub open spec fn evict_spec(h: Seq<MotionSample>, now: int) -> Seq<MotionSample>
    decreases h.len(),
{
    if h.len() == 0 {
        h
    } else if age_of(now, h[0].time_ms as int) > MOTION_WINDOW_MS {
        evict_spec(h.drop_first(), now)
    } else {
        h
    }
}

pub open spec fn sum_span(h: Seq<MotionSample>) -> int
    decreases h.len(),
{
    if h.len() == 0 {
        0
    } else {
        sum_span(h.drop_last()) + h.last().span
    }
}

pub open spec fn ms_min_x(h: Seq<MotionSample>) -> int
    decreases h.len(),
{
    if h.len() <= 1 {
        h[0].x as int
    } else {
        spec_min(ms_min_x(h.drop_last()), h.last().x as int)
    }
}

pub open spec fn ms_max_x(h: Seq<MotionSample>) -> int
    decreases h.len(),
{
    if h.len() <= 1 {
        h[0].x as int
    } else {
        spec_max(ms_max_x(h.drop_last()), h.last().x as int)
    }
}

pub open spec fn ms_min_y(h: Seq<MotionSample>) -> int
    decreases h.len(),
{
    if h.len() <= 1 {
        h[0].y as int
    } else {
        spec_min(ms_min_y(h.drop_last()), h.last().y as int)
    }
}

pub open spec fn ms_max_y(h: Seq<MotionSample>) -> int
    decreases h.len(),
{
    if h.len() <= 1 {
        h[0].y as int
    } else {
        spec_max(ms_max_y(h.drop_last()), h.last().y as int)
    }
}

/// Direction-change count and last significant direction over the x
/// coordinates of the window, folding over consecutive pairs.
pub open spec fn dcx_state(h: Seq<MotionSample>, min_step: int) -> (int, int)
    decreases h.len(),
{
    if h.len() <= 1 {
        (0, 0)
    } else {
        let prev = dcx_state(h.drop_last(), min_step);
        let delta = h.last().x - h[h.len() - 2].x;
        let mag = if delta >= 0 {
            delta
        } else {
            -delta
        };
        if mag < min_step {
            prev
        } else {
            let sgn: int = if delta > 0 {
                1
            } else {
                -1
            };
            ((prev.0 + if prev.1 != 0 && sgn != prev.1 {
                1int
            } else {
                0int
            }), sgn)
        }
    }
}

/// The same fold over the y coordinates.
pub open spec fn dcy_state(h: Seq<MotionSample>, min_step: int) -> (int, int)
    decreases h.len(),
{
    if h.len() <= 1 {
        (0, 0)
    } else {
        let prev = dcy_state(h.drop_last(), min_step);
        let delta = h.last().y - h[h.len() - 2].y;
        let mag = if delta >= 0 {
            delta
        } else {
            -delta
        };
        if mag < min_step {
            prev
        } else {
            let sgn: int = if delta > 0 {
                1
            } else {
                -1
            };
            ((prev.0 + if prev.1 != 0 && sgn != prev.1 {
                1int
            } else {
                0int
            }), sgn)
        }
    }
}

/// Whether the primary gesture counts as open-hand-like for the fanning
/// rule.
pub open spec fn open_palm_like(primary: GestureKind) -> bool {
    primary == GestureKind::Palm || primary == GestureKind::Four || primary
        == GestureKind::Unknown
}

/// The motion pattern of a window: `Steady` under three samples, else
/// classified from the normalized x/y spreads and the direction changes.
pub open spec fn motion_spec(h: Seq<MotionSample>, primary: GestureKind) -> GestureMotion {
    if h.len() < 3 {
        GestureMotion::Steady
    } else {
        let avg = div_trunc(sum_span(h), h.len() as int);
        let norm = spec_max(avg, UNIT as int);
        let span_x = div_trunc((ms_max_x(h) - ms_min_x(h)) * UNIT, norm);
        let span_y = div_trunc((ms_max_y(h) - ms_min_y(h)) * UNIT, norm);
        let step = div_trunc(norm * 80, UNIT as int);
        let dcx = dcx_state(h, step).0;
        let dcy = dcy_state(h, step).0;
        if span_x > 550 && dcx >= 2 && open_palm_like(primary) {
            GestureMotion::Fanning
        } else if span_y > 550 && dcy >= 2 {
            GestureMotion::VerticalWave
        } else if span_x > 250 || span_y > 250 {
            GestureMotion::Moving
        } else {
            GestureMotion::Steady
        }
    }
}

/// The rolling window of recent wrist samples; the only cross-frame state
/// of the classifier.
#[derive(Debug)]
pub struct MotionTracker {
    pub history: VecDeque<MotionSample>,
}

impl MotionTracker {
    /// Every stored sample within the coordinate range the update
    /// arithmetic accepts.
    pub open spec fn wf(self) -> bool {
        forall|i: int|
            0 <= i < self.history@.len() ==> {
                &&& -LM_LIMIT <= (#[trigger] self.history@[i]).x <= LM_LIMIT
                &&& -LM_LIMIT <= self.history@[i].y <= LM_LIMIT
                &&& UNIT <= self.history@[i].span <= 4 * LM_LIMIT
            }
    }

    pub fn new() -> (res: MotionTracker)
        ensures
            res.history@.len() == 0,
            res.wf(),
    {
        MotionTracker { history: VecDeque::new() }
    }

    /// Append the new wrist sample, evict everything older than the
    /// window, and classify the remaining trajectory.
    pub fn update(&mut self, point: (i64, i64), span: i64, now_ms: u64, primary: GestureKind) -> (
        res: GestureMotion)
        requires
            old(self).wf(),
            -LM_LIMIT <= point.0 <= LM_LIMIT,
            -LM_LIMIT <= point.1 <= LM_LIMIT,
            0 <= span <= 4 * LM_LIMIT,
        ensures
            final(self).history@ == evict_spec(
                old(self).history@.push(
                    MotionSample {
                        time_ms: now_ms,
                        x: point.0,
                        y: point.1,
                        span: if span >= UNIT {
                            span
                        } else {
                            UNIT
                        },
                    },
                ),
                now_ms as int,
            ),
            res == motion_spec(final(self).history@, primary),
            final(self).wf(),
    {
        let clamped_span: i64 = if span >= UNIT {
            span
        } else {
            UNIT
        };
        let sample = MotionSample { time_ms: now_ms, x: point.0, y: point.1, span: clamped_span };
        self.history.push_back(sample);
        let ghost pushed = self.history@;

        loop
            invariant_except_break
                evict_spec(pushed, now_ms as int) == evict_spec(self.history@, now_ms as int),
                forall|i: int|
                    0 <= i < self.history@.len() ==> {
                        &&& -LM_LIMIT <= (#[trigger] self.history@[i]).x <= LM_LIMIT
                        &&& -LM_LIMIT <= self.history@[i].y <= LM_LIMIT
                        &&& UNIT <= self.history@[i].span <= 4 * LM_LIMIT
                    },
            ensures
                self.history@ == evict_spec(pushed, now_ms as int),
                forall|i: int|
                    0 <= i < self.history@.len() ==> {
                        &&& -LM_LIMIT <= (#[trigger] self.history@[i]).x <= LM_LIMIT
                        &&& -LM_LIMIT <= self.history@[i].y <= LM_LIMIT
                        &&& UNIT <= self.history@[i].span <= 4 * LM_LIMIT
                    },
            decreases self.history@.len(),
        {
            if self.history.len() == 0 {
                break ;
            }
            let front_time = self.history[0].time_ms;
            if !(now_ms >= front_time && now_ms - front_time > MOTION_WINDOW_MS) {
                proof {
                    assert(age_of(now_ms as int, self.history@[0].time_ms as int)
                        <= MOTION_WINDOW_MS);
                    assert(evict_spec(self.history@, now_ms as int) == self.history@);
                }
                break ;
            }
            proof {
                assert(age_of(now_ms as int, self.history@[0].time_ms as int) > MOTION_WINDOW_MS);
                assert(self.history@.drop_first() =~= self.history@.subrange(
                    1,
                    self.history@.len() as int,
                ));
            }
            let _ = self.history.pop_front();
        }

        let n = self.history.len();
        if n < 3 {
            return GestureMotion::Steady;
        }
        let ghost h = self.history@;

        let mut total: i128 = 0;
        let mut i: usize = 0;
        while i < n
            invariant
                i <= n,
                n == h.len(),
                h == self.history@,
                total == sum_span(h.subrange(0, i as int)),
                0 <= total <= i * (4 * LM_LIMIT as int),
                forall|j: int|
                    0 <= j < h.len() ==> {
                        &&& -LM_LIMIT <= (#[trigger] h[j]).x <= LM_LIMIT
                        &&& -LM_LIMIT <= h[j].y <= LM_LIMIT
                        &&& UNIT <= h[j].span <= 4 * LM_LIMIT
                    },
            decreases n - i,
        {
            let sp = self.history[i].span;
            proof {
                assert(h.subrange(0, i + 1).drop_last() =~= h.subrange(0, i as int));
                assert(h.subrange(0, i + 1).last() == h[i as int]);
                assert(i * (4 * LM_LIMIT as int) + 4 * LM_LIMIT <= (i + 1) * (4 * LM_LIMIT as int))
                    by (nonlinear_arith);
                assert((i + 1) * (4 * LM_LIMIT as int) <= 0x1_0000_0000_0000_0000 * (4
                    * LM_LIMIT as int)) by (nonlinear_arith)
                    requires
                        0 <= i + 1 <= 0x1_0000_0000_0000_0000,
                {};
            }
            total = total + sp as i128;
            i = i + 1;
        }
        proof {
            assert(h.subrange(0, n as int) =~= h);
        }
        let avg = div_trunc_i128(total, n as i128);
        proof {
            crate::fixed::lemma_avg_bound(total as int, n as int, 4 * LM_LIMIT as int);
        }
        let norm: i64 = if avg >= UNIT as i128 {
            avg as i64
        } else {
            UNIT
        };

        let first = &self.history[0];
        let mut mnx: i64 = first.x;
        let mut mxx: i64 = first.x;
        let mut mny: i64 = first.y;
        let mut mxy: i64 = first.y;
        let mut k: usize = 1;
        while k < n
            invariant
                1 <= k <= n,
                n == h.len(),
                h == self.history@,
                mnx == ms_min_x(h.subrange(0, k as int)),
                mxx == ms_max_x(h.subrange(0, k as int)),
                mny == ms_min_y(h.subrange(0, k as int)),
                mxy == ms_max_y(h.subrange(0, k as int)),
                -LM_LIMIT <= mnx <= LM_LIMIT,
                -LM_LIMIT <= mxx <= LM_LIMIT,
                -LM_LIMIT <= mny <= LM_LIMIT,
                -LM_LIMIT <= mxy <= LM_LIMIT,
                forall|j: int|
                    0 <= j < h.len() ==> {
                        &&& -LM_LIMIT <= (#[trigger] h[j]).x <= LM_LIMIT
                        &&& -LM_LIMIT <= h[j].y <= LM_LIMIT
                        &&& UNIT <= h[j].span <= 4 * LM_LIMIT
                    },
            decreases n - k,
        {
            let smp = &self.history[k];
            proof {
                assert(h.subrange(0, k + 1).drop_last() =~= h.subrange(0, k as int));
                assert(h.subrange(0, k + 1).last() == h[k as int]);
                assert(h.subrange(0, k + 1).len() > 1);
            }
            if smp.x < mnx {
                mnx = smp.x;
            }
            if smp.x > mxx {
                mxx = smp.x;
            }
            if smp.y < mny {
                mny = smp.y;
            }
            if smp.y > mxy {
                mxy = smp.y;
            }
            k = k + 1;
        }
        proof {
            assert(h.subrange(0, n as int) =~= h);
        }

        let span_x: i64 = div_trunc_i128(
            (mxx as i128 - mnx as i128) * (UNIT as i128),
            norm as i128,
        ) as i64;
        let span_y: i64 = div_trunc_i128(
            (mxy as i128 - mny as i128) * (UNIT as i128),
            norm as i128,
        ) as i64;
        proof {
            crate::palm::lemma_div_trunc_bound(((mxx - mnx) * UNIT) as int, norm as int);
            crate::palm::lemma_div_trunc_bound(((mxy - mny) * UNIT) as int, norm as int);
        }
        let step: i64 = div_trunc_i128(norm as i128 * 80, UNIT as i128) as i64;
        proof {
            crate::palm::lemma_div_trunc_bound((norm * 80) as int, UNIT as int);
        }

        let mut changes_x: usize = 0;
        let mut last_sign_x: i64 = 0;
        let mut changes_y: usize = 0;
        let mut last_sign_y: i64 = 0;
        let mut p: usize = 1;
        while p < n
            invariant
                1 <= p <= n,
                n == h.len(),
                h == self.history@,
                (changes_x as int, last_sign_x as int) == dcx_state(
                    h.subrange(0, p as int),
                    step as int,
                ),
                (changes_y as int, last_sign_y as int) == dcy_state(
                    h.subrange(0, p as int),
                    step as int,
                ),
                changes_x < p,
                changes_y < p,
                -1 <= last_sign_x <= 1,
                -1 <= last_sign_y <= 1,
                forall|j: int|
                    0 <= j < h.len() ==> {
                        &&& -LM_LIMIT <= (#[trigger] h[j]).x <= LM_LIMIT
                        &&& -LM_LIMIT <= h[j].y <= LM_LIMIT
                        &&& UNIT <= h[j].span <= 4 * LM_LIMIT
                    },
            decreases n - p,
        {
            let prev = &self.history[p - 1];
            let cur = &self.history[p];
            proof {
                assert(h.subrange(0, p + 1).drop_last() =~= h.subrange(0, p as int));
                assert(h.subrange(0, p + 1).last() == h[p as int]);
                assert(h.subrange(0, p + 1)[p - 1] == h[p - 1]);
                assert(h.subrange(0, p + 1).len() > 1);
            }
            let dx = cur.x - prev.x;
            let mag_x = if dx >= 0 {
                dx
            } else {
                -dx
            };
            if mag_x >= step {
                let sgn: i64 = if dx > 0 {
                    1
                } else {
                    -1
                };
                if last_sign_x != 0 && sgn != last_sign_x {
                    changes_x = changes_x + 1;
                }
                last_sign_x = sgn;
            }
            let dy = cur.y - prev.y;
            let mag_y = if dy >= 0 {
                dy
            } else {
                -dy
            };
            if mag_y >= step {
                let sgn: i64 = if dy > 0 {
                    1
                } else {
                    -1
                };
                if last_sign_y != 0 && sgn != last_sign_y {
                    changes_y = changes_y + 1;
                }
                last_sign_y = sgn;
            }
            p = p + 1;
        }
        proof {
            assert(h.subrange(0, n as int) =~= h);
        }

        let open_palm = match primary {
            GestureKind::Palm => true,
            GestureKind::Four => true,
            GestureKind::Unknown => true,
            _ => false,
        };
        if span_x > 550 && changes_x >= 2 && open_palm {
            GestureMotion::Fanning
        } else if span_y > 550 && changes_y >= 2 {
            GestureMotion::VerticalWave
        } else if span_x > 250 || span_y > 250 {
            GestureMotion::Moving
        } else {
            GestureMotion::Steady
        }
    }
}

/// All samples of a window sit at one point.
pub open spec fn stationary(h: Seq<MotionSample>) -> bool {
    forall|i: int| 0 <= i < h.len() ==> (#[trigger] h[i]).x == h[0].x && h[i].y == h[0].y
}

/// A stationary window has coinciding extrema.
proof fn lemma_stationary_extrema(h: Seq<MotionSample>)
    requires
        h.len() >= 1,
        stationary(h),
    ensures
        ms_min_x(h) == h[0].x,
        ms_max_x(h) == h[0].x,
        ms_min_y(h) == h[0].y,
        ms_max_y(h) == h[0].y,
    decreases h.len(),
{
    if h.len() > 1 {
        assert(stationary(h.drop_last())) by {
            assert(forall|i: int|
                0 <= i < h.drop_last().len() ==> #[trigger] h.drop_last()[i] == h[i]);
        }
        lemma_stationary_extrema(h.drop_last());
        assert(h.last() == h[h.len() - 1]);
        assert(h.drop_last()[0] == h[0]);
    }
}

/// The motion tracker reports `Steady` for any window of fewer than three
/// samples, and for a stationary point sequence of any length and any
/// spans: the spreads vanish, so no movement rule can fire.
pub proof fn lemma_stationary_steady(h: Seq<MotionSample>, primary: GestureKind)
    requires
        h.len() < 3 || stationary(h),
    ensures
        motion_spec(h, primary) == GestureMotion::Steady,
{
    if h.len() >= 3 {
        lemma_stationary_extrema(h);
        let avg = div_trunc(sum_span(h), h.len() as int);
        let norm = spec_max(avg, UNIT as int);
        assert((ms_max_x(h) - ms_min_x(h)) * UNIT == 0) by (nonlinear_arith)
            requires
                ms_max_x(h) == ms_min_x(h),
        {};
        assert((ms_max_y(h) - ms_min_y(h)) * UNIT == 0) by (nonlinear_arith)
            requires
                ms_max_y(h) == ms_min_y(h),
        {};
        assert(div_trunc(0, norm) == 0);
    }
}

/// The per-session gesture classifier: the class-index table and the
/// motion window. Every call is a pure function of its inputs plus that
/// window; the learned model itself lives outside and contributes only
/// the `primary` kind passed in.
#[derive(Debug)]
pub struct GestureClassifier {
    pub class_table: Vec<GestureKind>,
    pub motion_tracker: MotionTracker,
}

/// All projected points within the coordinate range.
pub open spec fn pts_bounded(s: Seq<(i64, i64)>, limit: int) -> bool {
    forall|i: int|
        0 <= i < s.len() ==> {
            &&& -limit <= (#[trigger] s[i]).0 <= limit
            &&& -limit <= s[i].1 <= limit
        }
}

/// The bounding span of the projected landmarks, floored at one pixel.
pub open spec fn projected_span_spec(s: Seq<(i64, i64)>) -> int {
    spec_max(
        spec_max(
            crate::crop::max_x(s) - crate::crop::min_x(s),
            crate::crop::max_y(s) - crate::crop::min_y(s),
        ),
        UNIT as int,
    )
}

/// The bounding span of the projected landmarks in frame pixels.
pub fn projected_span(points: &Vec<(i64, i64)>) -> (res: i64)
    requires
        points@.len() >= 1,
        pts_bounded(points@, LM_LIMIT as int),
    ensures
        res == projected_span_spec(points@),
        UNIT <= res <= 4 * LM_LIMIT,
{
    let ghost s = points@;
    let n = points.len();
    let first = points[0];
    let mut mnx: i64 = first.0;
    let mut mxx: i64 = first.0;
    let mut mny: i64 = first.1;
    let mut mxy: i64 = first.1;
    let mut i: usize = 1;
    while i < n
        invariant
            1 <= i <= n,
            n == s.len(),
            s == points@,
            pts_bounded(s, LM_LIMIT as int),
            mnx == crate::crop::min_x(s.subrange(0, i as int)),
            mxx == crate::crop::max_x(s.subrange(0, i as int)),
            mny == crate::crop::min_y(s.subrange(0, i as int)),
            mxy == crate::crop::max_y(s.subrange(0, i as int)),
            -LM_LIMIT <= mnx <= LM_LIMIT,
            -LM_LIMIT <= mxx <= LM_LIMIT,
            -LM_LIMIT <= mny <= LM_LIMIT,
            -LM_LIMIT <= mxy <= LM_LIMIT,
        decreases n - i,
    {
        let pt = points[i];
        proof {
            assert(s.subrange(0, i + 1).drop_last() =~= s.subrange(0, i as int));
            assert(s.subrange(0, i + 1).last() == s[i as int]);
            assert(s.subrange(0, i + 1).len() > 1);
        }
        if pt.0 < mnx {
            mnx = pt.0;
        }
        if pt.0 > mxx {
            mxx = pt.0;
        }
        if pt.1 < mny {
            mny = pt.1;
        }
        if pt.1 > mxy {
            mxy = pt.1;
        }
        i = i + 1;
    }
    proof {
        assert(s.subrange(0, n as int) =~= s);
    }
    let sx = mxx - mnx;
    let sy = mxy - mny;
    let mut span: i64 = if sx >= sy {
        sx
    } else {
        sy
    };
    if span < UNIT {
        span = UNIT;
    }
    span
}

impl GestureClassifier {
    pub fn new() -> (res: GestureClassifier)
        ensures
            res.class_table@ == class_table_spec(),
            res.motion_tracker.history@.len() == 0,
            res.motion_tracker.wf(),
    {
        GestureClassifier { class_table: default_class_table(), motion_tracker: MotionTracker::new() }
    }

    /// The gesture kind the logits of the learned classifier select,
    /// through this classifier's table.
    pub fn detect_gesture_from_logits(&self, logits: &Vec<i64>) -> (res: GestureKind)
        ensures
            res == gesture_from_logits_spec(logits@, self.class_table@),
    {
        let n = logits.len();
        if n == 0 {
            if self.class_table.len() > 0 {
                return self.class_table[0];
            } else {
                return GestureKind::Unknown;
            }
        }
        let mut best: usize = 0;
        let mut i: usize = 1;
        while i < n
            invariant
                1 <= i <= n,
                n == logits@.len(),
                best < i,
                best == argmax_spec(logits@.subrange(0, i as int)),
            decreases n - i,
        {
            proof {
                assert(logits@.subrange(0, i + 1).drop_last() =~= logits@.subrange(0, i as int));
                assert(logits@.subrange(0, i + 1).last() == logits@[i as int]);
                assert(logits@.subrange(0, i + 1).len() > 1);
            }
            if logits[i] >= logits[best] {
                best = i;
            }
            i = i + 1;
        }
        proof {
            assert(logits@.subrange(0, n as int) =~= logits@);
        }
        if best < self.class_table.len() {
            self.class_table[best]
        } else {
            GestureKind::Unknown
        }
    }

    /// Classify one frame: screen on confidence and landmark count, derive
    /// the five finger states from the normalized hand, read the
    /// handedness, fold the wrist into the motion window, and assemble
    /// the result around the primary kind the learned model chose.
    /// Returns `None` exactly when that screening rejects the frame, leaving
    /// the motion window untouched.
    pub fn classify(
        &mut self,
        raw_landmarks: &Vec<[i64; 3]>,
        projected_landmarks: &Vec<(i64, i64)>,
        confidence: i64,
        handedness_score: i64,
        now_ms: u64,
        primary: GestureKind,
    ) -> (res: Option<GestureDetail>)
        requires
            old(self).motion_tracker.wf(),
            lms_bounded(raw_landmarks@, LM_LIMIT as int),
            pts_bounded(projected_landmarks@, LM_LIMIT as int),
        ensures
            res is None <==> (confidence < MIN_CONFIDENCE || raw_landmarks@.len() < 21
                || projected_landmarks@.len() < 21),
            res is None ==> *final(self) == *old(self),
            final(self).class_table == old(self).class_table,
            final(self).motion_tracker.wf(),
            res matches Some(d) ==> {
                &&& d.primary == primary
                &&& d.secondary is None
                &&& d.handedness == handedness_spec(handedness_score as int)
                &&& d.finger_states@ == finger_states_spec(raw_landmarks@)
                &&& final(self).motion_tracker.history@ == evict_spec(
                    old(self).motion_tracker.history@.push(
                        MotionSample {
                            time_ms: now_ms,
                            x: projected_landmarks@[0].0,
                            y: projected_landmarks@[0].1,
                            span: projected_span_spec(projected_landmarks@) as i64,
                        },
                    ),
                    now_ms as int,
                )
                &&& d.motion == motion_spec(final(self).motion_tracker.history@, primary)
            },
    {
        if confidence < MIN_CONFIDENCE {
            return None;
        }
        if raw_landmarks.len() < 21 || projected_landmarks.len() < 21 {
            return None;
        }

        let (normalized, _hand_span) = normalize_landmarks(raw_landmarks);
        let wrist = projected_landmarks[0];
        let span_px = projected_span(projected_landmarks);
        let thumb = classify_thumb(&normalized);
        let index = classify_finger(&normalized, [5, 6, 7, 8]);
        let middle = classify_finger(&normalized, [9, 10, 11, 12]);
        let ring = classify_finger(&normalized, [13, 14, 15, 16]);
        let pinky = classify_finger(&normalized, [17, 18, 19, 20]);
        proof {
            let ns = Seq::new(
                raw_landmarks@.len(),
                |i: int|
                    [
                        norm_x(raw_landmarks@, i) as i64,
                        norm_y(raw_landmarks@, i) as i64,
                        norm_z(raw_landmarks@, i) as i64,
                    ],
            );
            assert forall|i: int| 0 <= i < raw_landmarks@.len() implies #[trigger] normalized@[i]
                == ns[i] by {
                assert(normalized@[i] =~= ns[i]);
            }
            assert(normalized@ =~= ns);
        }

        let handedness = handedness_from_score(handedness_score);
        let motion = self.motion_tracker.update(wrist, span_px, now_ms, primary);

        let detail = GestureDetail {
            primary,
            secondary: None,
            handedness,
            finger_states: [thumb, index, middle, ring, pinky],
            motion,
        };
        proof {
            assert(detail.finger_states@ =~= finger_states_spec(raw_landmarks@));
        }
        Some(detail)
    }
}

} // verus!
