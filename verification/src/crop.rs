//! The rotated crop around a detected palm: choosing the oriented square,
//! rasterizing it with bilinear sampling, and projecting model-space
//! coordinates back into the frame.
//!
//! The orientation is carried as a fixed-point unit vector `(cos, sin)`
//! rather than an angle, so the principal-axis estimate needs no
//! trigonometry: the eigenvector of the keypoint covariance is normalized
//! with an integer square root.

use vstd::prelude::*;

use crate::fixed::{div_trunc, div_trunc_i128, isqrt, spec_clamp, spec_max, spec_min, UNIT};
use crate::letterbox::{limit_of, PrepareError};
use crate::types::{Frame, PalmRegion};

verus! {

/// Bound on the coordinates the orientation and crop math accepts; keeps
/// every covariance intermediate inside `i128`.
pub const CROP_COORD_LIMIT: i64 = 0x1000_0000;

/// Bound on a crop side length.
pub const CROP_SIDE_LIMIT: i64 = 0x10_0000_0000;

/// A similarity transform (rotation + uniform scale + translation) from
/// model crop space to frame space. `rot_cos`/`rot_sin` are the rotation's
/// fixed-point cosine and sine.
#[derive(Clone, Copy, Debug)]
pub struct CropTransform {
    pub center: (i64, i64),
    pub side: i64,
    pub rot_cos: i64,
    pub rot_sin: i64,
    pub output_size: u32,
    pub orig_w: u32,
    pub orig_h: u32,
}

impl CropTransform {
    pub open spec fn wf(self) -> bool {
        &&& 1 <= self.side <= CROP_SIDE_LIMIT
        &&& 1 <= self.output_size <= 4096
        &&& -UNIT <= self.rot_cos <= UNIT
        &&& -UNIT <= self.rot_sin <= UNIT
        &&& -CROP_SIDE_LIMIT <= self.center.0 <= CROP_SIDE_LIMIT
        &&& -CROP_SIDE_LIMIT <= self.center.1 <= CROP_SIDE_LIMIT
    }

    /// Offset of model coordinate `v` from the crop center, scaled into
    /// frame units: `(v - S*UNIT/2) * side / (S * UNIT)`.
    pub open spec fn model_offset(self, v: int) -> int {
        div_trunc(
            (v - self.output_size * UNIT / 2) * self.side,
            self.output_size * (UNIT as int),
        )
    }

    /// Unclamped projection of a model-space point into the frame.
    pub open spec fn project_raw(self, x: int, y: int) -> (int, int) {
        let dx = self.model_offset(x);
        let dy = self.model_offset(y);
        (
            self.center.0 + div_trunc(dx * self.rot_cos - dy * self.rot_sin, UNIT as int),
            self.center.1 + div_trunc(dx * self.rot_sin + dy * self.rot_cos, UNIT as int),
        )
    }

    /// Projection clamped to the frame bounds.
    pub open spec fn project_spec(self, x: int, y: int) -> (int, int) {
        let raw = self.project_raw(x, y);
        (
            spec_clamp(raw.0, 0, limit_of(self.orig_w as int)),
            spec_clamp(raw.1, 0, limit_of(self.orig_h as int)),
        )
    }

    /// The inverse mapping: a frame-space point carried back into model
    /// crop coordinates (rotate by the inverse rotation, unscale).
    pub open spec fn to_model_spec(self, qx: int, qy: int) -> (int, int) {
        let fx = qx - self.center.0;
        let fy = qy - self.center.1;
        let dx = div_trunc(fx * self.rot_cos + fy * self.rot_sin, UNIT as int);
        let dy = div_trunc(-fx * self.rot_sin + fy * self.rot_cos, UNIT as int);
        (
            self.output_size * UNIT / 2 + div_trunc(
                dx * self.output_size * UNIT,
                self.side as int,
            ),
            self.output_size * UNIT / 2 + div_trunc(
                dy * self.output_size * UNIT,
                self.side as int,
            ),
        )
    }

    /// Map a model-space landmark back into the original frame, clamped to
    /// the frame bounds.
    pub fn project(&self, x: i64, y: i64) -> (res: (i64, i64))
        requires
            self.wf(),
            -CROP_SIDE_LIMIT <= x <= CROP_SIDE_LIMIT,
            -CROP_SIDE_LIMIT <= y <= CROP_SIDE_LIMIT,
        ensures
            res.0 == self.project_spec(x as int, y as int).0,
            res.1 == self.project_spec(x as int, y as int).1,
    {
        let s_unit: i128 = (self.output_size as i128) * (UNIT as i128);
        let half: i128 = s_unit / 2;
        let vx: i128 = (x as i128) - half;
        let vy: i128 = (y as i128) - half;
        proof {
            lemma_mul_range(vx as int, self.side as int, 0x20_0000_0000, 0x10_0000_0000);
            lemma_mul_range(vy as int, self.side as int, 0x20_0000_0000, 0x10_0000_0000);
        }
        let dx: i128 = div_trunc_i128(vx * (self.side as i128), s_unit);
        let dy: i128 = div_trunc_i128(vy * (self.side as i128), s_unit);
        proof {
            crate::palm::lemma_div_trunc_bound((vx * self.side) as int, s_unit as int);
            crate::palm::lemma_div_trunc_bound((vy * self.side) as int, s_unit as int);
            lemma_mul_range(dx as int, self.rot_cos as int, 0x200_0000_0000_0000_0000, 1000);
            lemma_mul_range(dy as int, self.rot_sin as int, 0x200_0000_0000_0000_0000, 1000);
            lemma_mul_range(dx as int, self.rot_sin as int, 0x200_0000_0000_0000_0000, 1000);
            lemma_mul_range(dy as int, self.rot_cos as int, 0x200_0000_0000_0000_0000, 1000);
        }
        let rx: i128 = div_trunc_i128(
            dx * (self.rot_cos as i128) - dy * (self.rot_sin as i128),
            UNIT as i128,
        );
        let ry: i128 = div_trunc_i128(
            dx * (self.rot_sin as i128) + dy * (self.rot_cos as i128),
            UNIT as i128,
        );
        let ox: i128 = (self.center.0 as i128) + rx;
        let oy: i128 = (self.center.1 as i128) + ry;
        let lim_x: i128 = if self.orig_w >= 1 {
            (self.orig_w as i128 - 1) * (UNIT as i128)
        } else {
            0
        };
        let lim_y: i128 = if self.orig_h >= 1 {
            (self.orig_h as i128 - 1) * (UNIT as i128)
        } else {
            0
        };
        let cx: i128 = if ox < 0 {
            0
        } else if ox > lim_x {
            lim_x
        } else {
            ox
        };
        let cy: i128 = if oy < 0 {
            0
        } else if oy > lim_y {
            lim_y
        } else {
            oy
        };
        (cx as i64, cy as i64)
    }
}

/// `|x| <= bx` and `|y| <= by` bound the product by `bx * by`.
proof fn lemma_mul_range(x: int, y: int, bx: int, by: int)
    requires
        -bx <= x <= bx,
        -by <= y <= by,
        bx >= 0,
        by >= 0,
    ensures
        -(bx * by) <= x * y <= bx * by,
{
    assert(-(bx * by) <= x * y <= bx * by) by (nonlinear_arith)
        requires
            -bx <= x <= bx,
            -by <= y <= by,
            bx >= 0,
            by >= 0,
    {};
}

/// Projecting the crop's own center point returns the transform's center
/// exactly, and carrying any in-frame center back through the inverse
/// mapping returns the model center: the projection inverts the crop
/// mapping at the center with no error at all.
pub proof fn lemma_project_center(t: CropTransform)
    requires
        t.wf(),
        0 <= t.center.0 <= limit_of(t.orig_w as int),
        0 <= t.center.1 <= limit_of(t.orig_h as int),
    ensures
        t.project_spec(t.output_size * UNIT / 2, t.output_size * UNIT / 2).0 == t.center.0,
        t.project_spec(t.output_size * UNIT / 2, t.output_size * UNIT / 2).1 == t.center.1,
        t.to_model_spec(t.center.0 as int, t.center.1 as int).0 == t.output_size * UNIT / 2,
        t.to_model_spec(t.center.0 as int, t.center.1 as int).1 == t.output_size * UNIT / 2,
{
    let h = t.output_size * UNIT / 2;
    assert((h - t.output_size * UNIT / 2) * t.side == 0) by (nonlinear_arith)
        requires
            h == t.output_size * UNIT / 2,
    {};
    assert(t.model_offset(h) == 0);
    let dx = t.model_offset(h);
    let dy = t.model_offset(h);
    assert(dx * t.rot_cos - dy * t.rot_sin == 0 && dx * t.rot_sin + dy * t.rot_cos == 0)
        by (nonlinear_arith)
        requires
            dx == 0,
            dy == 0,
    {};
    let fx = t.center.0 - t.center.0;
    let fy = t.center.1 - t.center.1;
    assert(fx * t.rot_cos + fy * t.rot_sin == 0 && -fx * t.rot_sin + fy * t.rot_cos == 0)
        by (nonlinear_arith)
        requires
            fx == 0,
            fy == 0,
    {};
    assert(div_trunc(0, UNIT as int) == 0);
    assert(0 * t.output_size * UNIT == 0) by (nonlinear_arith);
    assert(div_trunc(0, t.side as int) == 0);
}

/// On a crop whose rotation pair is an exact unit vector and whose side is
/// an even whole multiple of the output size, the inverse mapping undoes
/// the projection exactly at the four crop corners and the center: the
/// composition is the identity there, with no tolerance needed.
pub proof fn lemma_project_roundtrip(t: CropTransform, ex: int, ey: int, k: int)
    requires
        t.wf(),
        t.rot_cos * t.rot_cos + t.rot_sin * t.rot_sin == UNIT * UNIT,
        t.output_size % 2 == 0,
        k >= 1,
        t.side == k * t.output_size * UNIT,
        -1 <= ex <= 1,
        -1 <= ey <= 1,
        ({
            let m = t.output_size * UNIT / 2;
            let q = t.project_raw(m + ex * m, m + ey * m);
            0 <= q.0 <= limit_of(t.orig_w as int) && 0 <= q.1 <= limit_of(t.orig_h as int)
        }),
    ensures
        ({
            let m = t.output_size * UNIT / 2;
            let q = t.project_spec(m + ex * m, m + ey * m);
            t.to_model_spec(q.0, q.1) == (m + ex * m, m + ey * m)
        }),
{
    let s = t.output_size as int;
    let u = UNIT as int;
    let c = t.rot_cos as int;
    let sn = t.rot_sin as int;
    let m2 = s / 2;
    assert(s == 2 * m2) by (nonlinear_arith)
        requires
            s % 2 == 0,
            m2 == s / 2,
    {};
    let m = s * u / 2;
    assert(m == m2 * u && 2 * m == s * u) by (nonlinear_arith)
        requires
            s == 2 * m2,
            u == 1000,
            m == s * u / 2,
    {};
    let mx = m + ex * m;
    let my = m + ey * m;

    // The scaled offset of a corner or center coordinate is exact.
    assert(t.model_offset(mx) == ex * k * m) by {
        assert((mx - m) * t.side == (s * u) * (ex * k * m)) by (nonlinear_arith)
            requires
                mx == m + ex * m,
                t.side == k * s * u,
                2 * m == s * u,
        {};
        lemma_div_trunc_exact(ex * k * m, s * u);
    }
    assert(t.model_offset(my) == ey * k * m) by {
        assert((my - m) * t.side == (s * u) * (ey * k * m)) by (nonlinear_arith)
            requires
                my == m + ey * m,
                t.side == k * s * u,
                2 * m == s * u,
        {};
        lemma_div_trunc_exact(ey * k * m, s * u);
    }
    let dx = ex * k * m;
    let dy = ey * k * m;

    // One rotation step: both numerators are exact multiples of UNIT,
    // because m is UNIT times half the (even) output size.
    let g = k * m2;
    let p = ex * g;
    let qq = ey * g;
    assert(dx == p * u) by (nonlinear_arith)
        requires
            dx == ex * k * m,
            m == m2 * u,
            g == k * m2,
            p == ex * g,
    {};
    assert(dy == qq * u) by (nonlinear_arith)
        requires
            dy == ey * k * m,
            m == m2 * u,
            g == k * m2,
            qq == ey * g,
    {};
    let rx = p * c - qq * sn;
    let ry = p * sn + qq * c;
    assert(dx * c - dy * sn == u * rx) by (nonlinear_arith)
        requires
            dx == p * u,
            dy == qq * u,
            rx == p * c - qq * sn,
    {};
    assert(dx * sn + dy * c == u * ry) by (nonlinear_arith)
        requires
            dx == p * u,
            dy == qq * u,
            ry == p * sn + qq * c,
    {};
    assert(div_trunc(dx * c - dy * sn, u) == rx) by {
        lemma_div_trunc_exact(rx, u);
    }
    assert(div_trunc(dx * sn + dy * c, u) == ry) by {
        lemma_div_trunc_exact(ry, u);
    }
    let q = t.project_raw(mx, my);
    assert(q.0 == t.center.0 + rx && q.1 == t.center.1 + ry);
    let qc = t.project_spec(mx, my);
    assert(qc.0 == q.0 && qc.1 == q.1);

    // The inverse rotation collapses through cos^2 + sin^2 == UNIT^2.
    let bx = div_trunc(rx * c + ry * sn, u);
    let by = div_trunc(-rx * sn + ry * c, u);
    assert(rx * c + ry * sn == u * (p * u)) by (nonlinear_arith)
        requires
            rx == p * c - qq * sn,
            ry == p * sn + qq * c,
            c * c + sn * sn == u * u,
    {};
    assert(-rx * sn + ry * c == u * (qq * u)) by (nonlinear_arith)
        requires
            rx == p * c - qq * sn,
            ry == p * sn + qq * c,
            c * c + sn * sn == u * u,
    {};
    assert(bx == p * u) by {
        lemma_div_trunc_exact(p * u, u);
    }
    assert(by == qq * u) by {
        lemma_div_trunc_exact(qq * u, u);
    }

    // Unscaling lands exactly on the model coordinate again, shown by
    // regrouping the factors a pair at a time.
    let z = s * u;
    let wx = ex * m2;
    let wy = ey * m2;
    assert(p == k * wx) by (nonlinear_arith)
        requires
            p == ex * g,
            g == k * m2,
            wx == ex * m2,
    {};
    assert(qq == k * wy) by (nonlinear_arith)
        requires
            qq == ey * g,
            g == k * m2,
            wy == ey * m2,
    {};
    assert(ex * m == wx * u) by (nonlinear_arith)
        requires
            m == m2 * u,
            wx == ex * m2,
    {};
    assert(ey * m == wy * u) by (nonlinear_arith)
        requires
            m == m2 * u,
            wy == ey * m2,
    {};
    assert(bx * s * u == bx * z) by (nonlinear_arith)
        requires
            z == s * u,
    {};
    assert(by * s * u == by * z) by (nonlinear_arith)
        requires
            z == s * u,
    {};
    assert(bx * z == (k * z) * (wx * u)) by (nonlinear_arith)
        requires
            bx == p * u,
            p == k * wx,
    {};
    assert(by * z == (k * z) * (wy * u)) by (nonlinear_arith)
        requires
            by == qq * u,
            qq == k * wy,
    {};
    assert(t.side == k * z) by (nonlinear_arith)
        requires
            t.side == k * s * u,
            z == s * u,
    {};
    assert(bx * s * u == t.side * (ex * m));
    assert(by * s * u == t.side * (ey * m));
    assert(div_trunc(bx * s * u, t.side as int) == ex * m) by {
        lemma_div_trunc_exact(ex * m, t.side as int);
    }
    assert(div_trunc(by * s * u, t.side as int) == ey * m) by {
        lemma_div_trunc_exact(ey * m, t.side as int);
    }
    assert(t.to_model_spec(q.0, q.1).0 == m + ex * m) by {
        assert((q.0 - t.center.0) == rx && (q.1 - t.center.1) == ry);
    }
    assert(t.to_model_spec(q.0, q.1).1 == m + ey * m);
}

/// `div_trunc(d * q, d) == q` for positive `d`.
proof fn lemma_div_trunc_exact(q: int, d: int)
    requires
        d >= 1,
    ensures
        div_trunc(d * q, d) == q,
{
    if q >= 0 {
        assert(d * q >= 0 && (d * q) / d == q) by (nonlinear_arith)
            requires
                d >= 1,
                q >= 0,
        {};
    } else {
        assert(d * q < 0 && (-(d * q)) / d == -q) by (nonlinear_arith)
            requires
                d >= 1,
                q < 0,
        {};
    }
}

/// Linear interpolation in fixed-point: `a + (b - a) * t / UNIT`.
pub open spec fn lerp_spec(a: int, b: int, t: int) -> int {
    a + div_trunc((b - a) * t, UNIT as int)
}

/// One color channel of the frame at integer pixel coordinates, black
/// outside the frame.
pub open spec fn fetch_spec(frame: Frame, ix: int, iy: int, ch: int) -> int {
    if 0 <= ix < frame.width && 0 <= iy < frame.height {
        frame.rgba@[(iy * frame.width + ix) * 4 + ch] as int
    } else {
        0
    }
}

/// Bilinear sample of one channel at a fixed-point source position.
pub open spec fn sample_spec(frame: Frame, x: int, y: int, ch: int) -> int {
    let x0 = x / (UNIT as int);
    let y0 = y / (UNIT as int);
    let fx = x % (UNIT as int);
    let fy = y % (UNIT as int);
    let c00 = fetch_spec(frame, x0, y0, ch);
    let c10 = fetch_spec(frame, x0 + 1, y0, ch);
    let c01 = fetch_spec(frame, x0, y0 + 1, ch);
    let c11 = fetch_spec(frame, x0 + 1, y0 + 1, ch);
    lerp_spec(lerp_spec(c00, c10, fx), lerp_spec(c01, c11, fx), fy)
}

/// A fixed-point lerp of byte values with a fraction in `[0, UNIT)` stays
/// within the byte range.
proof fn lemma_lerp_byte(a: int, b: int, t: int)
    requires
        0 <= a <= 255,
        0 <= b <= 255,
        0 <= t < UNIT,
    ensures
        0 <= lerp_spec(a, b, t) <= 255,
        a <= b ==> a <= lerp_spec(a, b, t) <= b,
        b < a ==> b <= lerp_spec(a, b, t) <= a,
{
    let d = b - a;
    let n = d * t;
    if d >= 0 {
        assert(0 <= n <= d * 1000) by (nonlinear_arith)
            requires
                n == d * t,
                d >= 0,
                0 <= t < 1000,
        {};
        assert(0 <= n / 1000 <= d) by (nonlinear_arith)
            requires
                0 <= n <= d * 1000,
                d >= 0,
        {};
        assert(div_trunc(n, 1000) == n / 1000);
    } else {
        assert(-(d * 1000) >= -n >= 0 || n > 0) by (nonlinear_arith)
            requires
                n == d * t,
                d < 0,
                0 <= t < 1000,
        {};
        assert(n <= 0) by (nonlinear_arith)
            requires
                n == d * t,
                d < 0,
                t >= 0,
        {};
        if n == 0 {
            assert(div_trunc(n, 1000) == 0);
        } else {
            assert(div_trunc(n, 1000) == -((-n) / 1000));
            assert(0 <= (-n) / 1000 <= -d) by (nonlinear_arith)
                requires
                    0 <= -n <= -(d * 1000),
                    d < 0,
                    -(d * 1000) == (-d) * 1000,
            {};
            assert(-(d * 1000) == (-d) * 1000) by (nonlinear_arith);
        }
    }
}

fn lerp_exec(a: u8, b: u8, t: i64) -> (r: u8)
    requires
        0 <= t < UNIT,
    ensures
        r as int == lerp_spec(a as int, b as int, t as int),
{
    proof {
        lemma_lerp_byte(a as int, b as int, t as int);
    }
    let d: i64 = b as i64 - a as i64;
    proof {
        assert(-256000 <= d * t <= 256000) by (nonlinear_arith)
            requires
                -255 <= d <= 255,
                0 <= t < 1000,
        {};
    }
    let q128: i128 = div_trunc_i128((d as i128) * (t as i128), UNIT as i128);
    proof {
        crate::palm::lemma_div_trunc_bound((d * t) as int, UNIT as int);
    }
    let q: i64 = q128 as i64;
    (a as i64 + q) as u8
}

fn fetch_exec(frame: &Frame, ix: i64, iy: i64, ch: usize) -> (r: u8)
    requires
        frame.wf(),
        ch < 4,
    ensures
        r as int == fetch_spec(*frame, ix as int, iy as int, ch as int),
{
    if ix < 0 || iy < 0 {
        return 0;
    }
    if ix as u64 >= frame.width as u64 || iy as u64 >= frame.height as u64 {
        return 0;
    }
    let flen: usize = frame.rgba.len();
    proof {
        assert(flen == frame.width * frame.height * 4);
        assert((iy as int) * (frame.width as int) + ix >= 0) by (nonlinear_arith)
            requires
                0 <= ix,
                0 <= iy,
                frame.width >= 0,
        {};
        assert((iy as int) * (frame.width as int) + ix < (frame.width as int) * (
        frame.height as int)) by (nonlinear_arith)
            requires
                0 <= ix < frame.width,
                0 <= iy < frame.height,
        {};
        assert(((iy as int) * (frame.width as int) + ix) * 4 + ch < (frame.width as int) * (
        frame.height as int) * 4) by (nonlinear_arith)
            requires
                0 <= (iy as int) * (frame.width as int) + ix < (frame.width as int) * (
                frame.height as int),
                ch < 4,
        {};
        assert(frame.rgba@.len() == frame.width * frame.height * 4);
    }
    let idx64: u64 = ((iy as u64) * (frame.width as u64) + (ix as u64)) * 4 + (ch as u64);
    frame.rgba[idx64 as usize]
}

/// Bilinearly sample the frame's RGB channels at a fixed-point source
/// position; samples outside the frame read as black.
pub fn sample_rgb(frame: &Frame, x: i64, y: i64) -> (rgb: [u8; 3])
    requires
        frame.wf(),
    ensures
        forall|ch: int|
            0 <= ch < 3 ==> #[trigger] rgb[ch] as int == sample_spec(*frame, x as int, y as int, ch),
{
    let (x0, fx) = crate::fixed::div_floor_rem_unit(x);
    let (y0, fy) = crate::fixed::div_floor_rem_unit(y);
    let mut rgb: [u8; 3] = [0, 0, 0];
    let mut ch: usize = 0;
    let r0 = lerp_exec(fetch_exec(frame, x0, y0, 0), fetch_exec(frame, x0 + 1, y0, 0), fx);
    let r1 = lerp_exec(fetch_exec(frame, x0, y0 + 1, 0), fetch_exec(frame, x0 + 1, y0 + 1, 0), fx);
    let g0 = lerp_exec(fetch_exec(frame, x0, y0, 1), fetch_exec(frame, x0 + 1, y0, 1), fx);
    let g1 = lerp_exec(fetch_exec(frame, x0, y0 + 1, 1), fetch_exec(frame, x0 + 1, y0 + 1, 1), fx);
    let b0 = lerp_exec(fetch_exec(frame, x0, y0, 2), fetch_exec(frame, x0 + 1, y0, 2), fx);
    let b1 = lerp_exec(fetch_exec(frame, x0, y0 + 1, 2), fetch_exec(frame, x0 + 1, y0 + 1, 2), fx);
    let out: [u8; 3] = [lerp_exec(r0, r1, fy), lerp_exec(g0, g1, fy), lerp_exec(b0, b1, fy)];
    proof {
        assert(out[0] as int == sample_spec(*frame, x as int, y as int, 0));
        assert(out[1] as int == sample_spec(*frame, x as int, y as int, 1));
        assert(out[2] as int == sample_spec(*frame, x as int, y as int, 2));
    }
    out
}

/// Offset of destination pixel `x` from the crop center, through the
/// pixel-center convention: `(x + 0.5 - S/2) * side / S`.
pub open spec fn crop_offset(x: int, s: int, side: int) -> int {
    div_trunc((2 * x + 1 - s) * side, 2 * s)
}

/// Source x of the rasterization for destination pixel `(x, y)`.
pub open spec fn crop_src_x(t: CropTransform, x: int, y: int) -> int {
    let dx = crop_offset(x, t.output_size as int, t.side as int);
    let dy = crop_offset(y, t.output_size as int, t.side as int);
    t.center.0 + div_trunc(dx * t.rot_cos - dy * t.rot_sin, UNIT as int)
}

/// Source y of the rasterization for destination pixel `(x, y)`.
pub open spec fn crop_src_y(t: CropTransform, x: int, y: int) -> int {
    let dx = crop_offset(x, t.output_size as int, t.side as int);
    let dy = crop_offset(y, t.output_size as int, t.side as int);
    t.center.1 + div_trunc(dx * t.rot_sin + dy * t.rot_cos, UNIT as int)
}

/// One byte of the rasterized crop: channel `i % 3` of the bilinear sample
/// for destination pixel `i / 3`.
pub open spec fn crop_byte(frame: Frame, t: CropTransform, i: int) -> int {
    let p = i / 3;
    let ch = i % 3;
    let x = p % (t.output_size as int);
    let y = p / (t.output_size as int);
    sample_spec(frame, crop_src_x(t, x, y), crop_src_y(t, x, y), ch)
}

/// Rasterize an oriented square crop of the frame into an RGB byte buffer
/// of `output_size * output_size` pixels: each destination pixel is
/// inverse-mapped through the rotation and scale to a source position and
/// sampled bilinearly; out-of-frame samples are black. Returns the buffer
/// and the transform whose `project` maps model coordinates back.
///
/// Fails exactly on a violated frame buffer invariant.
pub fn prepare_rotated_crop(
    frame: &Frame,
    center: (i64, i64),
    side: i64,
    rot: (i64, i64),
    output_size: u32,
) -> (res: Result<(Vec<u8>, CropTransform), PrepareError>)
    requires
        1 <= output_size <= 4096,
        1 <= side <= CROP_SIDE_LIMIT,
        -CROP_SIDE_LIMIT <= center.0 <= CROP_SIDE_LIMIT,
        -CROP_SIDE_LIMIT <= center.1 <= CROP_SIDE_LIMIT,
        -UNIT <= rot.0 <= UNIT,
        -UNIT <= rot.1 <= UNIT,
    ensures
        res is Err <==> !frame.wf(),
        res is Err ==> res == Err::<(Vec<u8>, CropTransform), PrepareError>(
            PrepareError::SizeMismatch,
        ),
        res matches Ok((data, t)) ==> {
            &&& t == (CropTransform {
                center,
                side,
                rot_cos: rot.0,
                rot_sin: rot.1,
                output_size,
                orig_w: frame.width,
                orig_h: frame.height,
            })
            &&& t.wf()
            &&& data@.len() == output_size * output_size * 3
            &&& forall|i: int| 0 <= i < data@.len() ==> #[trigger] data@[i] as int == crop_byte(*frame, t, i)
        },
{
    proof {
        assert((frame.width as int) * (frame.height as int) < 0x1_0000_0000_0000_0000)
            by (nonlinear_arith)
            requires
                frame.width < 0x1_0000_0000,
                frame.height < 0x1_0000_0000,
        {};
    }
    let expected: u128 = frame.width as u128 * frame.height as u128 * 4;
    if frame.rgba.len() as u128 != expected {
        return Err(PrepareError::SizeMismatch);
    }
    let t = CropTransform {
        center,
        side,
        rot_cos: rot.0,
        rot_sin: rot.1,
        output_size,
        orig_w: frame.width,
        orig_h: frame.height,
    };
    let s: usize = output_size as usize;
    proof {
        assert((s as int) * (s as int) <= 4096 * 4096) by (nonlinear_arith)
            requires
                s <= 4096,
        {};
    }
    let total: usize = s * s;
    let mut data: Vec<u8> = Vec::new();
    let mut p: usize = 0;
    while p < total
        invariant
            p <= total,
            total == s * s,
            s == t.output_size,
            1 <= s <= 4096,
            1 <= t.side <= CROP_SIDE_LIMIT,
            -CROP_SIDE_LIMIT <= t.center.0 <= CROP_SIDE_LIMIT,
            -CROP_SIDE_LIMIT <= t.center.1 <= CROP_SIDE_LIMIT,
            -UNIT <= t.rot_cos <= UNIT,
            -UNIT <= t.rot_sin <= UNIT,
            frame.wf(),
            data@.len() == 3 * p,
            forall|i: int| 0 <= i < 3 * p ==> #[trigger] data@[i] as int == crop_byte(*frame, t, i),
        decreases total - p,
    {
        let x: usize = p % s;
        let y: usize = p / s;
        proof {
            assert(x < s && y < s) by (nonlinear_arith)
                requires
                    x == (p as int) % (s as int),
                    y == (p as int) / (s as int),
                    0 <= p < s * s,
                    s >= 1,
            {};
        }
        let sx = crop_src_exec(&t, x as i64, y as i64);
        let rgb = sample_rgb(frame, sx.0, sx.1);
        proof {
            lemma_flat3_index(p as int, x as int, y as int, s as int);
            assert(crop_byte(*frame, t, 3 * p) == sample_spec(
                *frame,
                crop_src_x(t, x as int, y as int),
                crop_src_y(t, x as int, y as int),
                0,
            ));
            assert(crop_byte(*frame, t, 3 * p + 1) == sample_spec(
                *frame,
                crop_src_x(t, x as int, y as int),
                crop_src_y(t, x as int, y as int),
                1,
            ));
            assert(crop_byte(*frame, t, 3 * p + 2) == sample_spec(
                *frame,
                crop_src_x(t, x as int, y as int),
                crop_src_y(t, x as int, y as int),
                2,
            ));
            assert(rgb[0] as int == crop_byte(*frame, t, 3 * p));
            assert(rgb[1] as int == crop_byte(*frame, t, 3 * p + 1));
            assert(rgb[2] as int == crop_byte(*frame, t, 3 * p + 2));
        }
        data.push(rgb[0]);
        data.push(rgb[1]);
        data.push(rgb[2]);
        p = p + 1;
    }
    proof {
        assert(data@.len() == s * s * 3) by (nonlinear_arith)
            requires
                data@.len() == 3 * (s * s),
        {};
    }
    Ok((data, t))
}

/// The three byte positions of pixel `p` decompose back to `(x, y)` and
/// the channel.
proof fn lemma_flat3_index(p: int, x: int, y: int, s: int)
    requires
        s >= 1,
        p >= 0,
        x == p % s,
        y == p / s,
    ensures
        forall|ch: int|
            0 <= ch < 3 ==> {
                &&& (#[trigger] ((3 * p + ch) / 3)) == p
                &&& (3 * p + ch) % 3 == ch
            },
{
    assert forall|ch: int| 0 <= ch < 3 implies ((#[trigger] ((3 * p + ch) / 3)) == p && (3 * p + ch)
        % 3 == ch) by {
        assert((3 * p + ch) / 3 == p && (3 * p + ch) % 3 == ch) by (nonlinear_arith)
            requires
                p >= 0,
                0 <= ch < 3,
        {};
    }
}

/// The source position for one destination pixel, matching
/// [`crop_src_x`] and [`crop_src_y`].
fn crop_src_exec(t: &CropTransform, x: i64, y: i64) -> (res: (i64, i64))
    requires
        t.wf(),
        0 <= x < t.output_size,
        0 <= y < t.output_size,
    ensures
        res.0 == crop_src_x(*t, x as int, y as int),
        res.1 == crop_src_y(*t, x as int, y as int),
{
    let s: i128 = t.output_size as i128;
    let nx: i128 = 2 * (x as i128) + 1 - s;
    let ny: i128 = 2 * (y as i128) + 1 - s;
    proof {
        lemma_mul_range(nx as int, t.side as int, 8192, CROP_SIDE_LIMIT as int);
        lemma_mul_range(ny as int, t.side as int, 8192, CROP_SIDE_LIMIT as int);
    }
    let dx: i128 = div_trunc_i128(nx * (t.side as i128), 2 * s);
    let dy: i128 = div_trunc_i128(ny * (t.side as i128), 2 * s);
    proof {
        crate::palm::lemma_div_trunc_bound((nx * t.side) as int, (2 * s) as int);
        crate::palm::lemma_div_trunc_bound((ny * t.side) as int, (2 * s) as int);
        lemma_mul_range(dx as int, t.rot_cos as int, 8192 * CROP_SIDE_LIMIT as int, 1000);
        lemma_mul_range(dy as int, t.rot_sin as int, 8192 * CROP_SIDE_LIMIT as int, 1000);
        lemma_mul_range(dx as int, t.rot_sin as int, 8192 * CROP_SIDE_LIMIT as int, 1000);
        lemma_mul_range(dy as int, t.rot_cos as int, 8192 * CROP_SIDE_LIMIT as int, 1000);
    }
    let rx: i128 = div_trunc_i128(dx * (t.rot_cos as i128) - dy * (t.rot_sin as i128), UNIT as i128);
    let ry: i128 = div_trunc_i128(dx * (t.rot_sin as i128) + dy * (t.rot_cos as i128), UNIT as i128);
    proof {
        crate::palm::lemma_div_trunc_bound(
            (dx * t.rot_cos - dy * t.rot_sin) as int,
            UNIT as int,
        );
        crate::palm::lemma_div_trunc_bound(
            (dx * t.rot_sin + dy * t.rot_cos) as int,
            UNIT as int,
        );
    }
    (((t.center.0 as i128) + rx) as i64, ((t.center.1 as i128) + ry) as i64)
}

/// Every coordinate of the region (box and keypoints) within the range the
/// crop math accepts.
pub open spec fn region_fits(r: PalmRegion) -> bool {
    &&& forall|k: int| 0 <= k < 4 ==> -CROP_COORD_LIMIT <= #[trigger] r.bbox[k] <= CROP_COORD_LIMIT
    &&& forall|i: int|
        0 <= i < r.landmarks@.len() ==> {
            &&& -CROP_COORD_LIMIT <= (#[trigger] r.landmarks@[i]).0 <= CROP_COORD_LIMIT
            &&& -CROP_COORD_LIMIT <= r.landmarks@[i].1 <= CROP_COORD_LIMIT
        }
}

/// Sum of the x coordinates of a keypoint list.
pub open spec fn sum_x(s: Seq<(i64, i64)>) -> int
    decreases s.len(),
{
    if s.len() == 0 {
        0
    } else {
        sum_x(s.drop_last()) + s.last().0
    }
}

/// Sum of the y coordinates of a keypoint list.
pub open spec fn sum_y(s: Seq<(i64, i64)>) -> int
    decreases s.len(),
{
    if s.len() == 0 {
        0
    } else {
        sum_y(s.drop_last()) + s.last().1
    }
}

/// Smallest x coordinate of a nonempty keypoint list.
pub open spec fn min_x(s: Seq<(i64, i64)>) -> int
    decreases s.len(),
{
    if s.len() <= 1 {
        s[0].0 as int
    } else {
        spec_min(min_x(s.drop_last()), s.last().0 as int)
    }
}

pub open spec fn max_x(s: Seq<(i64, i64)>) -> int
    decreases s.len(),
{
    if s.len() <= 1 {
        s[0].0 as int
    } else {
        spec_max(max_x(s.drop_last()), s.last().0 as int)
    }
}

pub open spec fn min_y(s: Seq<(i64, i64)>) -> int
    decreases s.len(),
{
    if s.len() <= 1 {
        s[0].1 as int
    } else {
        spec_min(min_y(s.drop_last()), s.last().1 as int)
    }
}

pub open spec fn max_y(s: Seq<(i64, i64)>) -> int
    decreases s.len(),
{
    if s.len() <= 1 {
        s[0].1 as int
    } else {
        spec_max(max_y(s.drop_last()), s.last().1 as int)
    }
}

/// Sum of squared x deviations from `mx`.
pub open spec fn dev_xx(s: Seq<(i64, i64)>, mx: int) -> int
    decreases s.len(),
{
    if s.len() == 0 {
        0
    } else {
        dev_xx(s.drop_last(), mx) + (s.last().0 - mx) * (s.last().0 - mx)
    }
}

/// Sum of products of x and y deviations.
pub open spec fn dev_xy(s: Seq<(i64, i64)>, mx: int, my: int) -> int
    decreases s.len(),
{
    if s.len() == 0 {
        0
    } else {
        dev_xy(s.drop_last(), mx, my) + (s.last().0 - mx) * (s.last().1 - my)
    }
}

pub open spec fn dev_yy(s: Seq<(i64, i64)>, my: int) -> int
    decreases s.len(),
{
    if s.len() == 0 {
        0
    } else {
        dev_yy(s.drop_last(), my) + (s.last().1 - my) * (s.last().1 - my)
    }
}

/// The crop orientation the keypoint scatter determines, as a fixed-point
/// `(cos, sin)` pair of the final (palm-up) rotation. With fewer than two
/// keypoints the identity rotation; with near-isotropic scatter the
/// coordinate axis of larger variance; otherwise the principal axis of the
/// covariance, rotated by a quarter turn. The square roots are
/// characterized by their floor property.
pub open spec fn orientation_of(r: PalmRegion, res: (i64, i64)) -> bool {
    let s = r.landmarks@;
    if s.len() < 2 {
        res.0 == UNIT && res.1 == 0
    } else {
        let n = s.len() as int;
        let mx = div_trunc(sum_x(s), n);
        let my = div_trunc(sum_y(s), n);
        let cxx = div_trunc(dev_xx(s, mx), n);
        let cxy = div_trunc(dev_xy(s, mx, my), n);
        let cyy = div_trunc(dev_yy(s, my), n);
        let half = div_trunc(cxx + cyy, 2);
        let disc = spec_max(half * half - (cxx * cyy - cxy * cxy), 0);
        exists|root: int|
            #![trigger root * root]
            {
                &&& 0 <= root
                &&& root * root <= disc < (root + 1) * (root + 1)
                &&& {
                    let lam = spec_max(half + root, 1);
                    if (if cxy >= 0 {
                        cxy
                    } else {
                        -cxy
                    }) > 1 {
                        let vx = lam - cyy;
                        let vy = cxy;
                        exists|rr: int|
                            #![trigger rr * rr]
                            {
                                &&& 1 <= rr
                                &&& rr * rr <= vx * vx + vy * vy < (rr + 1) * (rr + 1)
                                &&& res.0 == div_trunc(vy * UNIT, rr)
                                &&& res.1 == div_trunc(-vx * UNIT, rr)
                            }
                    } else if cxx >= cyy {
                        res.0 == 0 && res.1 == -UNIT
                    } else {
                        res.0 == UNIT && res.1 == 0
                    }
                }
            }
    }
}

/// A truncated average of values in a range stays in that range.
proof fn lemma_avg_in_range(total: int, n: int, lim: int)
    requires
        n >= 1,
        lim >= 0,
        -(n * lim) <= total <= n * lim,
    ensures
        -lim <= div_trunc(total, n) <= lim,
{
    if total >= 0 {
        assert(total / n <= lim) by (nonlinear_arith)
            requires
                0 <= total <= n * lim,
                n >= 1,
        {};
        assert(total / n >= 0) by (nonlinear_arith)
            requires
                total >= 0,
                n >= 1,
        {};
    } else {
        assert((-total) / n <= lim) by (nonlinear_arith)
            requires
                0 <= -total <= n * lim,
                n >= 1,
        {};
        assert((-total) / n >= 0) by (nonlinear_arith)
            requires
                -total >= 0,
                n >= 1,
        {};
    }
}

/// Estimate the palm orientation from the principal axis of the keypoint
/// scatter (2x2 covariance eigen-decomposition), returned as the
/// fixed-point `(cos, sin)` of the crop rotation; the quarter-turn that
/// points the palm upwards is already folded in. Degenerate scatter falls
/// back to the coordinate axis of larger variance.
pub fn estimate_orientation(region: &PalmRegion) -> (res: (i64, i64))
    requires
        region_fits(*region),
    ensures
        orientation_of(*region, res),
        -UNIT <= res.0 <= UNIT,
        -UNIT <= res.1 <= UNIT,
{
    let n = region.landmarks.len();
    if n < 2 {
        return (UNIT, 0);
    }
    let ghost s = region.landmarks@;
    let lim: i128 = CROP_COORD_LIMIT as i128;

    let mut sx: i128 = 0;
    let mut sy: i128 = 0;
    let mut i: usize = 0;
    while i < n
        invariant
            i <= n,
            n == region.landmarks@.len(),
            s == region.landmarks@,
            region_fits(*region),
            lim == CROP_COORD_LIMIT,
            sx == sum_x(s.subrange(0, i as int)),
            sy == sum_y(s.subrange(0, i as int)),
            -(i * lim) <= sx <= i * lim,
            -(i * lim) <= sy <= i * lim,
        decreases n - i,
    {
        let pt = region.landmarks[i];
        proof {
            assert(s.subrange(0, i + 1).drop_last() =~= s.subrange(0, i as int));
            assert(s.subrange(0, i + 1).last() == s[i as int]);
            assert(i * lim + lim == (i + 1) * lim) by (nonlinear_arith);
            assert(-(i * lim) - lim == -((i + 1) * lim)) by (nonlinear_arith);
        }
        sx = sx + pt.0 as i128;
        sy = sy + pt.1 as i128;
        i = i + 1;
    }
    proof {
        assert(s.subrange(0, n as int) =~= s);
    }
    let mx: i128 = div_trunc_i128(sx, n as i128);
    let my: i128 = div_trunc_i128(sy, n as i128);
    proof {
        lemma_avg_in_range(sx as int, n as int, lim as int);
        lemma_avg_in_range(sy as int, n as int, lim as int);
    }

    let sq: i128 = 4 * lim * lim;
    let mut dxx: i128 = 0;
    let mut dxy: i128 = 0;
    let mut dyy: i128 = 0;
    let mut j: usize = 0;
    while j < n
        invariant
            j <= n,
            n == region.landmarks@.len(),
            s == region.landmarks@,
            region_fits(*region),
            lim == CROP_COORD_LIMIT,
            sq == 4 * lim * lim,
            -lim <= mx <= lim,
            -lim <= my <= lim,
            dxx == dev_xx(s.subrange(0, j as int), mx as int),
            dxy == dev_xy(s.subrange(0, j as int), mx as int, my as int),
            dyy == dev_yy(s.subrange(0, j as int), my as int),
            0 <= dxx <= j * sq,
            0 <= dyy <= j * sq,
            -(j * sq) <= dxy <= j * sq,
            j * sq <= 0x1_0000_0000_0000_0000 * sq,
        decreases n - j,
    {
        let pt = region.landmarks[j];
        let dx: i128 = pt.0 as i128 - mx;
        let dy: i128 = pt.1 as i128 - my;
        proof {
            assert(s.subrange(0, j + 1).drop_last() =~= s.subrange(0, j as int));
            assert(s.subrange(0, j + 1).last() == s[j as int]);
            assert(0 <= dx * dx <= sq && 0 <= dy * dy <= sq && -sq <= dx * dy <= sq)
                by (nonlinear_arith)
                requires
                    -(2 * lim) <= dx <= 2 * lim,
                    -(2 * lim) <= dy <= 2 * lim,
                    sq == 4 * lim * lim,
                    lim >= 0,
            {};
            assert(j * sq + sq == (j + 1) * sq) by (nonlinear_arith);
            assert(-(j * sq) - sq == -((j + 1) * sq)) by (nonlinear_arith);
            assert((j + 1) * sq <= 0x1_0000_0000_0000_0000 * sq) by (nonlinear_arith)
                requires
                    0 <= j + 1 <= 0x1_0000_0000_0000_0000,
                    sq >= 0,
            {};
        }
        dxx = dxx + dx * dx;
        dxy = dxy + dx * dy;
        dyy = dyy + dy * dy;
        j = j + 1;
    }
    proof {
        assert(s.subrange(0, n as int) =~= s);
        assert(n * sq <= 0x1_0000_0000_0000_0000 * sq) by (nonlinear_arith)
            requires
                0 <= n <= 0x1_0000_0000_0000_0000,
                sq >= 0,
        {};
    }
    let cxx: i128 = div_trunc_i128(dxx, n as i128);
    let cxy: i128 = div_trunc_i128(dxy, n as i128);
    let cyy: i128 = div_trunc_i128(dyy, n as i128);
    proof {
        lemma_avg_in_range(dxx as int, n as int, sq as int);
        lemma_avg_in_range(dxy as int, n as int, sq as int);
        lemma_avg_in_range(dyy as int, n as int, sq as int);
    }

    let half: i128 = div_trunc_i128(cxx + cyy, 2);
    proof {
        crate::palm::lemma_div_trunc_bound((cxx + cyy) as int, 2);
        lemma_mul_range(half as int, half as int, 2 * sq as int, 2 * sq as int);
        lemma_mul_range(cxx as int, cyy as int, sq as int, sq as int);
        lemma_mul_range(cxy as int, cxy as int, sq as int, sq as int);
    }
    proof {
        assert(sq == 0x400_0000_0000_0000);
        lemma_mul_range(half as int, half as int, sq as int, sq as int);
    }
    let det: i128 = cxx * cyy - cxy * cxy;
    let disc_raw: i128 = half * half - det;
    let disc: i128 = if disc_raw >= 0 {
        disc_raw
    } else {
        0
    };
    proof {
        assert(disc <= 3 * (sq * sq));
        assert(disc < crate::fixed::ISQRT_DOMAIN);
    }
    let root: u64 = isqrt(disc as u128);
    let lam_raw: i128 = half + root as i128;
    let lam: i128 = if lam_raw >= 1 {
        lam_raw
    } else {
        1
    };
    let acxy: i128 = if cxy >= 0 {
        cxy
    } else {
        -cxy
    };
    if acxy > 1 {
        proof {
            assert((root as int) * (root as int) <= disc);
            assert(root as int <= 0x1000_0000_0000_0000) by (nonlinear_arith)
                requires
                    (root as int) * (root as int) <= disc,
                    disc <= 3 * (0x400_0000_0000_0000int * 0x400_0000_0000_0000),
                    root >= 0,
            {};
        }
        let vx: i128 = lam - cyy;
        let vy: i128 = cxy;
        proof {
            lemma_mul_range(vx as int, vx as int, 0x4000_0000_0000_0000, 0x4000_0000_0000_0000);
            lemma_mul_range(vy as int, vy as int, 0x4000_0000_0000_0000, 0x4000_0000_0000_0000);
        }
        let r2: i128 = vx * vx + vy * vy;
        proof {
            assert(vy * vy >= 4) by (nonlinear_arith)
                requires
                    vy >= 2 || vy <= -2,
            {};
            assert(vx * vx >= 0) by (nonlinear_arith);
            assert(r2 < crate::fixed::ISQRT_DOMAIN);
        }
        let rr: u64 = isqrt(r2 as u128);
        proof {
            if rr == 0 {
                assert((rr as int + 1) * (rr as int + 1) == 1) by (nonlinear_arith)
                    requires
                        rr == 0,
                {};
            }
            assert(rr >= 1);
            assert(vy * vy <= r2 && vx * vx <= r2);
            crate::fixed::lemma_abs_le_sqrt(vy as int, rr as int, r2 as int);
            crate::fixed::lemma_abs_le_sqrt(vx as int, rr as int, r2 as int);
        }
        proof {
            assert(-0x1_0000_0000_0000_0000 <= vy <= 0x1_0000_0000_0000_0000);
            assert(-0x1_0000_0000_0000_0000 <= vx <= 0x1_0000_0000_0000_0000);
            crate::fixed::lemma_ratio_unit(vy as int, rr as int);
            crate::fixed::lemma_ratio_unit(-vx as int, rr as int);
        }
        let c: i64 = div_trunc_i128(vy * (UNIT as i128), rr as i128) as i64;
        let sgn: i64 = div_trunc_i128(-vx * (UNIT as i128), rr as i128) as i64;
        (c, sgn)
    } else if cxx >= cyy {
        (0, -UNIT)
    } else {
        (UNIT, 0)
    }
}

/// The x center of the crop: the keypoint centroid, or the box center when
/// no keypoints exist.
pub open spec fn crop_center_x(r: PalmRegion) -> int {
    if r.landmarks@.len() == 0 {
        div_trunc(r.bbox[0] + r.bbox[2], 2)
    } else {
        div_trunc(sum_x(r.landmarks@), r.landmarks@.len() as int)
    }
}

pub open spec fn crop_center_y(r: PalmRegion) -> int {
    if r.landmarks@.len() == 0 {
        div_trunc(r.bbox[1] + r.bbox[3], 2)
    } else {
        div_trunc(sum_y(r.landmarks@), r.landmarks@.len() as int)
    }
}

/// The bounding span of the keypoints, zero when none exist.
pub open spec fn landmark_span_spec(r: PalmRegion) -> int {
    if r.landmarks@.len() == 0 {
        0
    } else {
        spec_max(
            max_x(r.landmarks@) - min_x(r.landmarks@),
            max_y(r.landmarks@) - min_y(r.landmarks@),
        )
    }
}

/// The crop side: 2.4 times the largest of box width, box height, keypoint
/// span and an 80-pixel floor, so fingers are not cropped away.
pub open spec fn crop_side_spec(r: PalmRegion) -> int {
    let bw = if r.bbox[2] - r.bbox[0] >= 0 {
        r.bbox[2] - r.bbox[0]
    } else {
        r.bbox[0] - r.bbox[2]
    };
    let bh = if r.bbox[3] - r.bbox[1] >= 0 {
        r.bbox[3] - r.bbox[1]
    } else {
        r.bbox[1] - r.bbox[3]
    };
    div_trunc(spec_max(spec_max(bw, bh), spec_max(landmark_span_spec(r), 80 * UNIT)) * 12, 5)
}

/// Choose the oriented crop for one palm region: its center, side length
/// and rotation pair.
pub fn crop_from_palm(region: &PalmRegion) -> (res: ((i64, i64), i64, (i64, i64)))
    requires
        region_fits(*region),
    ensures
        res.0.0 == crop_center_x(*region),
        res.0.1 == crop_center_y(*region),
        res.1 == crop_side_spec(*region),
        orientation_of(*region, res.2),
        -CROP_COORD_LIMIT <= res.0.0 <= CROP_COORD_LIMIT,
        -CROP_COORD_LIMIT <= res.0.1 <= CROP_COORD_LIMIT,
        192000 <= res.1 <= CROP_SIDE_LIMIT,
        -UNIT <= res.2.0 <= UNIT,
        -UNIT <= res.2.1 <= UNIT,
{
    let n = region.landmarks.len();
    let lim: i128 = CROP_COORD_LIMIT as i128;
    let center: (i64, i64) = if n == 0 {
        let cx = div_trunc_i128(region.bbox[0] as i128 + region.bbox[2] as i128, 2);
        let cy = div_trunc_i128(region.bbox[1] as i128 + region.bbox[3] as i128, 2);
        proof {
            crate::palm::lemma_div_trunc_bound((region.bbox[0] + region.bbox[2]) as int, 2);
            crate::palm::lemma_div_trunc_bound((region.bbox[1] + region.bbox[3]) as int, 2);
        }
        (cx as i64, cy as i64)
    } else {
        let ghost s = region.landmarks@;
        let mut sx: i128 = 0;
        let mut sy: i128 = 0;
        let mut i: usize = 0;
        while i < n
            invariant
                i <= n,
                n == region.landmarks@.len(),
                s == region.landmarks@,
                region_fits(*region),
                lim == CROP_COORD_LIMIT,
                sx == sum_x(s.subrange(0, i as int)),
                sy == sum_y(s.subrange(0, i as int)),
                -(i * lim) <= sx <= i * lim,
                -(i * lim) <= sy <= i * lim,
            decreases n - i,
        {
            let pt = region.landmarks[i];
            proof {
                assert(s.subrange(0, i + 1).drop_last() =~= s.subrange(0, i as int));
                assert(s.subrange(0, i + 1).last() == s[i as int]);
                assert(i * lim + lim == (i + 1) * lim) by (nonlinear_arith);
                assert(-(i * lim) - lim == -((i + 1) * lim)) by (nonlinear_arith);
            }
            sx = sx + pt.0 as i128;
            sy = sy + pt.1 as i128;
            i = i + 1;
        }
        proof {
            assert(s.subrange(0, n as int) =~= s);
            lemma_avg_in_range(sx as int, n as int, lim as int);
            lemma_avg_in_range(sy as int, n as int, lim as int);
        }
        (div_trunc_i128(sx, n as i128) as i64, div_trunc_i128(sy, n as i128) as i64)
    };

    let span: i64 = if n == 0 {
        0
    } else {
        let ghost s = region.landmarks@;
        let first = region.landmarks[0];
        let mut mnx: i64 = first.0;
        let mut mxx: i64 = first.0;
        let mut mny: i64 = first.1;
        let mut mxy: i64 = first.1;
        let mut i: usize = 1;
        while i < n
            invariant
                1 <= i <= n,
                n == region.landmarks@.len(),
                s == region.landmarks@,
                region_fits(*region),
                mnx == min_x(s.subrange(0, i as int)),
                mxx == max_x(s.subrange(0, i as int)),
                mny == min_y(s.subrange(0, i as int)),
                mxy == max_y(s.subrange(0, i as int)),
                -CROP_COORD_LIMIT <= mnx <= CROP_COORD_LIMIT,
                -CROP_COORD_LIMIT <= mxx <= CROP_COORD_LIMIT,
                -CROP_COORD_LIMIT <= mny <= CROP_COORD_LIMIT,
                -CROP_COORD_LIMIT <= mxy <= CROP_COORD_LIMIT,
            decreases n - i,
        {
            let pt = region.landmarks[i];
            proof {
                assert(s.subrange(0, i + 1).drop_last() =~= s.subrange(0, i as int));
                assert(s.subrange(0, i + 1).last() == s[i as int]);
                assert(s.subrange(0, i + 1).len() > 1);
            }
            if pt.0 < mnx {
                mnx = pt.0;
            }
            if pt.0 > mxx {
                mxx = pt.0;
            }
            if pt.1 < mny {
                mny = pt.1;
            }
            if pt.1 > mxy {
                mxy = pt.1;
            }
            i = i + 1;
        }
        proof {
            assert(s.subrange(0, n as int) =~= s);
        }
        let sx = mxx - mnx;
        let sy = mxy - mny;
        if sx >= sy {
            sx
        } else {
            sy
        }
    };

    let bw: i64 = if region.bbox[2] >= region.bbox[0] {
        region.bbox[2] - region.bbox[0]
    } else {
        region.bbox[0] - region.bbox[2]
    };
    let bh: i64 = if region.bbox[3] >= region.bbox[1] {
        region.bbox[3] - region.bbox[1]
    } else {
        region.bbox[1] - region.bbox[3]
    };
    let mut base: i64 = if bw >= bh {
        bw
    } else {
        bh
    };
    if span > base {
        base = span;
    }
    if 80 * UNIT > base {
        base = 80 * UNIT;
    }
    let side: i64 = div_trunc_i128(base as i128 * 12, 5) as i64;
    proof {
        assert(div_trunc(base * 12, 5) >= div_trunc(80000int * 12, 5)) by (nonlinear_arith)
            requires
                base >= 80000,
        {};
        assert(div_trunc(base * 12, 5) <= base * 3) by (nonlinear_arith)
            requires
                base >= 0,
        {};
    }

    let rot = estimate_orientation(region);
    (center, side, rot)
}

/// Map the 21 model-space landmarks back into frame coordinates through
/// the crop transform, clamped to the frame bounds.
pub fn project_landmarks_with_transform(landmarks: &Vec<[i64; 3]>, transform: &CropTransform) -> (
    res: Vec<(i64, i64)>)
    requires
        transform.wf(),
        forall|k: int|
            0 <= k < landmarks@.len() ==> {
                &&& -CROP_SIDE_LIMIT <= #[trigger] landmarks@[k][0] <= CROP_SIDE_LIMIT
                &&& -CROP_SIDE_LIMIT <= landmarks@[k][1] <= CROP_SIDE_LIMIT
            },
    ensures
        res@.len() == landmarks@.len(),
        forall|k: int|
            0 <= k < landmarks@.len() ==> {
                &&& (#[trigger] res@[k]).0 == transform.project_spec(
                    landmarks@[k][0] as int,
                    landmarks@[k][1] as int,
                ).0
                &&& res@[k].1 == transform.project_spec(
                    landmarks@[k][0] as int,
                    landmarks@[k][1] as int,
                ).1
            },
{
    let mut res: Vec<(i64, i64)> = Vec::new();
    let mut k: usize = 0;
    while k < landmarks.len()
        invariant
            k <= landmarks@.len(),
            res@.len() == k,
            transform.wf(),
            forall|j: int|
                0 <= j < landmarks@.len() ==> {
                    &&& -CROP_SIDE_LIMIT <= #[trigger] landmarks@[j][0] <= CROP_SIDE_LIMIT
                    &&& -CROP_SIDE_LIMIT <= landmarks@[j][1] <= CROP_SIDE_LIMIT
                },
            forall|j: int|
                0 <= j < k ==> {
                    &&& (#[trigger] res@[j]).0 == transform.project_spec(
                        landmarks@[j][0] as int,
                        landmarks@[j][1] as int,
                    ).0
                    &&& res@[j].1 == transform.project_spec(
                        landmarks@[j][0] as int,
                        landmarks@[j][1] as int,
                    ).1
                },
        decreases landmarks@.len() - k,
    {
        let lm = &landmarks[k];
        let p = transform.project(lm[0], lm[1]);
        res.push(p);
        k = k + 1;
    }
    res
}

} // verus!
