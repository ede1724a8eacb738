//! Letterbox preprocessing: resize a frame into a fixed square canvas while
//! keeping its aspect ratio, and map coordinates back afterwards.
//!
//! The resampling itself is done by an outside crate behind a trusted
//! wrapper; everything around it — the buffer-length validation, the scaled
//! dimensions, the centering pads, the black border, and the inverse
//! coordinate mapping — is verified here.

use vstd::prelude::*;

use fast_image_resize as fir;

use crate::fixed::{div_trunc, div_trunc_i128, spec_clamp, UNIT};
use crate::types::Frame;

verus! {

/// Square input side of the handpose estimation network.
pub const INPUT_SIZE: u32 = 224;

/// Square input side of the palm detection network.
pub const PALM_INPUT_SIZE: u32 = 192;

/// Number of hand landmarks the handpose network predicts.
pub const NUM_LANDMARKS: usize = 21;

/// Why preprocessing refused a frame.
#[derive(Clone, Copy, Debug, PartialEq, Eq, Structural)]
pub enum PrepareError {
    /// The pixel buffer length is not `width * height * 4`.
    SizeMismatch,
    /// Both dimensions are zero, so no scale exists.
    EmptyFrame,
}

/// The exact scale and padding a letterbox call used, needed to map
/// model-space coordinates back into the original frame. The scale is the
/// rational `target_size / max(orig_w, orig_h)`.
#[derive(Clone, Copy, Debug)]
pub struct LetterboxInfo {
    pub pad_x: u32,
    pub pad_y: u32,
    pub target_size: u32,
    pub orig_w: u32,
    pub orig_h: u32,
}

impl LetterboxInfo {
    pub open spec fn wf(self) -> bool {
        &&& self.target_size >= 1
        &&& self.orig_max_dim() >= 1
    }

    /// The larger of the original dimensions: the denominator of the scale.
    pub open spec fn orig_max_dim(self) -> int {
        if self.orig_w >= self.orig_h {
            self.orig_w as int
        } else {
            self.orig_h as int
        }
    }

    /// The letterbox scale in fixed-point, `target_size * UNIT / max_dim`,
    /// rounded down. Provided for reporting; the precise mappings below
    /// work with the exact rational instead.
    pub open spec fn scale_fixed_spec(self) -> int {
        self.target_size * UNIT / self.orig_max_dim()
    }

    pub fn scale_fixed(&self) -> (r: i64)
        requires
            self.wf(),
        ensures
            r == self.scale_fixed_spec(),
    {
        let m: u64 = if self.orig_w >= self.orig_h {
            self.orig_w as u64
        } else {
            self.orig_h as u64
        };
        ((self.target_size as u64 * UNIT as u64) / m) as i64
    }
}

/// A dimension scaled into the letterbox square: `round(d * s / m)`,
/// floored at one pixel.
pub open spec fn scaled_dim(d: int, s: int, m: int) -> int
    recommends
        m >= 1,
{
    let r = (2 * d * s + m) / (2 * m);
    if r >= 1 {
        r
    } else {
        1
    }
}

/// The centering pad left of (or above) the scaled content.
pub open spec fn pad_of(s: int, scaled: int) -> int {
    (s - scaled) / 2
}

/// What the resampling of the outside crate returns for a given RGBA
/// buffer and the source and destination dimensions.
pub uninterp spec fn resize_of(
    pixels: Seq<u8>,
    width: int,
    height: int,
    new_width: int,
    new_height: int,
) -> Seq<u8>;

/// Relies on fast_image_resize: bilinear `Interpolation` resampling of an
/// `U8x4` image into a freshly zeroed destination of the requested size.
/// Its convolution runs on integer kernels and its own test suite pins
/// identical output across the scalar and SIMD paths, so the result is a
/// function of the arguments alone.
#[verifier::external_body]
fn resize_rgba(pixels: &Vec<u8>, width: u32, height: u32, new_width: u32, new_height: u32) -> (r:
    Vec<u8>)
    requires
        pixels@.len() == width * height * 4,
        1 <= new_width <= 4096,
        1 <= new_height <= 4096,
    ensures
        r@ == resize_of(
            pixels@,
            width as int,
            height as int,
            new_width as int,
            new_height as int,
        ),
        r@.len() == new_width * new_height * 4,
{
    let mut dst = fir::images::Image::new(new_width, new_height, fir::PixelType::U8x4);
    if let Ok(src) = fir::images::Image::from_vec_u8(
        width,
        height,
        pixels.clone(),
        fir::PixelType::U8x4,
    ) {
        let opts = fir::ResizeOptions::new().resize_alg(
            fir::ResizeAlg::Interpolation(fir::FilterType::Bilinear),
        );
        let _ = fir::Resizer::new().resize(&src, &mut dst, Some(&opts));
    }
    dst.into_vec()
}

/// One byte of the finished letterbox canvas: the resized content where the
/// centered window covers it, opaque black elsewhere.
pub open spec fn canvas_byte(
    resized: Seq<u8>,
    s: int,
    new_w: int,
    new_h: int,
    pad_x: int,
    pad_y: int,
    i: int,
) -> u8 {
    let p = i / 4;
    let c = i % 4;
    let x = p % s;
    let y = p / s;
    if pad_x <= x < pad_x + new_w && pad_y <= y < pad_y + new_h {
        resized[4 * ((y - pad_y) * new_w + (x - pad_x)) + c]
    } else if c == 3 {
        255u8
    } else {
        0u8
    }
}

/// The canvas a well-formed frame letterboxes to.
pub open spec fn letterbox_canvas_spec(frame: Frame, s: int) -> Seq<u8> {
    let m = if frame.width >= frame.height {
        frame.width as int
    } else {
        frame.height as int
    };
    let new_w = scaled_dim(frame.width as int, s, m);
    let new_h = scaled_dim(frame.height as int, s, m);
    let resized = resize_of(frame.rgba@, frame.width as int, frame.height as int, new_w, new_h);
    Seq::new(
        (s * s * 4) as nat,
        |i: int| canvas_byte(resized, s, new_w, new_h, pad_of(s, new_w), pad_of(s, new_h), i),
    )
}

/// Letterbox `frame` into the handpose network's input square.
pub fn prepare_frame(frame: &Frame) -> (res: Result<(Vec<u8>, LetterboxInfo), PrepareError>)
    ensures
        res == Err::<(Vec<u8>, LetterboxInfo), PrepareError>(PrepareError::SizeMismatch)
            <==> !frame.wf(),
        res == Err::<(Vec<u8>, LetterboxInfo), PrepareError>(PrepareError::EmptyFrame) <==> (
        frame.wf() && frame.width == 0 && frame.height == 0),
        res matches Ok((canvas, info)) ==> {
            &&& canvas@ == letterbox_canvas_spec(*frame, INPUT_SIZE as int)
            &&& info.target_size == INPUT_SIZE
            &&& info.wf()
        },
{
    prepare_frame_with_size(frame, INPUT_SIZE)
}

/// Letterbox `frame` onto a square canvas of side `target_size`: scale the
/// larger dimension down (or up) to the square, center the result, and fill
/// the border with opaque black. Returns the canvas bytes together with the
/// exact scale and pads used.
///
/// Fails exactly on a violated buffer invariant or an empty frame; it never
/// panics and never truncates or pads a bad buffer silently.
pub fn prepare_frame_with_size(frame: &Frame, target_size: u32) -> (res: Result<
    (Vec<u8>, LetterboxInfo),
    PrepareError,
>)
    requires
        1 <= target_size <= 4096,
    ensures
        res == Err::<(Vec<u8>, LetterboxInfo), PrepareError>(PrepareError::SizeMismatch)
            <==> !frame.wf(),
        res == Err::<(Vec<u8>, LetterboxInfo), PrepareError>(PrepareError::EmptyFrame) <==> (
        frame.wf() && frame.width == 0 && frame.height == 0),
        res matches Ok((canvas, info)) ==> {
            &&& canvas@ == letterbox_canvas_spec(*frame, target_size as int)
            &&& canvas@.len() == target_size * target_size * 4
            &&& info.target_size == target_size
            &&& info.orig_w == frame.width
            &&& info.orig_h == frame.height
            &&& info.pad_x == pad_of(
                target_size as int,
                scaled_dim(frame.width as int, target_size as int, info.orig_max_dim()),
            )
            &&& info.pad_y == pad_of(
                target_size as int,
                scaled_dim(frame.height as int, target_size as int, info.orig_max_dim()),
            )
            &&& info.wf()
        },
{
    proof {
        assert((frame.width as int) * (frame.height as int) < 0x1_0000_0000_0000_0000)
            by (nonlinear_arith)
            requires
                frame.width < 0x1_0000_0000,
                frame.height < 0x1_0000_0000,
        {};
    }
    let expected: u128 = frame.width as u128 * frame.height as u128 * 4;
    if frame.rgba.len() as u128 != expected {
        return Err(PrepareError::SizeMismatch);
    }
    if frame.width == 0 && frame.height == 0 {
        return Err(PrepareError::EmptyFrame);
    }
    let s: u64 = target_size as u64;
    let m: u64 = if frame.width >= frame.height {
        frame.width as u64
    } else {
        frame.height as u64
    };
    let new_w: u32 = scaled_dim_exec(frame.width as u64, s, m);
    let new_h: u32 = scaled_dim_exec(frame.height as u64, s, m);
    let pad_x: u32 = (target_size - new_w) / 2;
    let pad_y: u32 = (target_size - new_h) / 2;

    let resized = resize_rgba(&frame.rgba, frame.width, frame.height, new_w, new_h);
    let canvas = compose_canvas(&resized, target_size, new_w, new_h, pad_x, pad_y);

    let info = LetterboxInfo {
        pad_x,
        pad_y,
        target_size,
        orig_w: frame.width,
        orig_h: frame.height,
    };
    proof {
        assert(canvas@ =~= letterbox_canvas_spec(*frame, target_size as int));
    }
    Ok((canvas, info))
}

/// `round(d * s / m)`, floored at 1, for dimensions that fit the letterbox
/// use (`d <= m`, `s <= 4096`).
fn scaled_dim_exec(d: u64, s: u64, m: u64) -> (r: u32)
    requires
        1 <= m,
        d <= m,
        1 <= s <= 4096,
        m <= u32::MAX,
        d <= u32::MAX,
    ensures
        r == scaled_dim(d as int, s as int, m as int),
        1 <= r <= s,
{
    proof {
        assert((d as int) * (s as int) <= 0xFFFF_FFFF * 4096) by (nonlinear_arith)
            requires
                d <= 0xFFFF_FFFFu64,
                s <= 4096,
        {};
    }
    proof {
        assert(2 * ((d as int) * (s as int)) == 2 * (d as int) * (s as int)) by (nonlinear_arith);
    }
    let num: u64 = 2 * (d * s) + m;
    let den: u64 = 2 * m;
    let q: u64 = num / den;
    assert(q <= s) by (nonlinear_arith)
        requires
            1 <= m,
            d <= m,
            1 <= s,
            num == 2 * d * s + m,
            den == 2 * m,
            q == num / den,
    {};
    if q >= 1 {
        q as u32
    } else {
        1
    }
}

/// Build the square canvas: start from opaque black, then copy the resized
/// rows into the centered window.
fn compose_canvas(resized: &Vec<u8>, s: u32, new_w: u32, new_h: u32, pad_x: u32, pad_y: u32) -> (
    canvas: Vec<u8>)
    requires
        1 <= s <= 4096,
        1 <= new_w <= s,
        1 <= new_h <= s,
        pad_x == pad_of(s as int, new_w as int),
        pad_y == pad_of(s as int, new_h as int),
        resized@.len() == new_w * new_h * 4,
    ensures
        canvas@.len() == s * s * 4,
        forall|i: int|
            0 <= i < canvas@.len() ==> canvas@[i] == canvas_byte(
                resized@,
                s as int,
                new_w as int,
                new_h as int,
                pad_x as int,
                pad_y as int,
                i,
            ),
{
    proof {
        assert((s as int) * (s as int) <= 4096 * 4096) by (nonlinear_arith)
            requires
                s <= 4096,
        {};
    }
    let total: usize = (s as usize) * (s as usize) * 4;
    let mut canvas: Vec<u8> = Vec::new();
    let mut j: usize = 0;
    while j < total
        invariant
            j <= total,
            total == s * s * 4,
            canvas@.len() == j,
            forall|i: int| 0 <= i < j ==> canvas@[i] == (if i % 4 == 3 {
                255u8
            } else {
                0u8
            }),
        decreases total - j,
    {
        if j % 4 == 3 {
            canvas.push(255);
        } else {
            canvas.push(0);
        }
        j = j + 1;
    }

    assert(pad_x + new_w <= s);
    assert(pad_y + new_h <= s);

    let row_bytes: usize = (new_w as usize) * 4;
    let mut row: u32 = 0;
    while row < new_h
        invariant
            row <= new_h,
            1 <= s <= 4096,
            1 <= new_w <= s,
            1 <= new_h <= s,
            pad_x + new_w <= s,
            pad_y + new_h <= s,
            row_bytes == new_w * 4,
            resized@.len() == new_w * new_h * 4,
            canvas@.len() == s * s * 4,
            forall|i: int|
                0 <= i < canvas@.len() ==> canvas@[i] == (if copied_region(
                    i,
                    s as int,
                    new_w as int,
                    pad_x as int,
                    pad_y as int,
                    row as int,
                ) {
                    canvas_byte(
                        resized@,
                        s as int,
                        new_w as int,
                        new_h as int,
                        pad_x as int,
                        pad_y as int,
                        i,
                    )
                } else if i % 4 == 3 {
                    255u8
                } else {
                    0u8
                }),
        decreases new_h - row,
    {
        proof {
            assert(((pad_y + row) as int) * (s as int) + pad_x < s * s && s * s <= 4096 * 4096)
                by (nonlinear_arith)
                requires
                    pad_y + row < s,
                    pad_x < s,
                    1 <= s <= 4096,
            {};
        }
        let dst_row_start: usize = ((pad_y + row) as usize) * (s as usize) * 4 + (pad_x as usize)
            * 4;
        proof {
            assert((row as int) * ((new_w as int) * 4) <= 4096 * 16384 && (row as int) * ((
            new_w as int) * 4) == (row as int) * (new_w as int) * 4) by (nonlinear_arith)
                requires
                    0 <= row <= 4096,
                    1 <= new_w <= 4096,
            {};
        }
        let src_row_start: usize = (row as usize) * row_bytes;
        let mut b: usize = 0;
        while b < row_bytes
            invariant
                b <= row_bytes,
                row < new_h,
                1 <= s <= 4096,
                1 <= new_w <= s,
                1 <= new_h <= s,
                pad_x + new_w <= s,
                pad_y + new_h <= s,
                row_bytes == new_w * 4,
                dst_row_start == (pad_y + row) * s * 4 + pad_x * 4,
                src_row_start == row * new_w * 4,
                resized@.len() == new_w * new_h * 4,
                canvas@.len() == s * s * 4,
                forall|i: int|
                    0 <= i < canvas@.len() ==> canvas@[i] == (if copied_region(
                        i,
                        s as int,
                        new_w as int,
                        pad_x as int,
                        pad_y as int,
                        row as int,
                    ) || (dst_row_start <= i < dst_row_start + b) {
                        canvas_byte(
                            resized@,
                            s as int,
                            new_w as int,
                            new_h as int,
                            pad_x as int,
                            pad_y as int,
                            i,
                        )
                    } else if i % 4 == 3 {
                        255u8
                    } else {
                        0u8
                    }),
            decreases row_bytes - b,
        {
            proof {
                lemma_row_byte(
                    s as int,
                    new_w as int,
                    new_h as int,
                    pad_x as int,
                    pad_y as int,
                    row as int,
                    b as int,
                );
                assert(row * new_w * 4 + b < new_w * new_h * 4) by (nonlinear_arith)
                    requires
                        0 <= row < new_h,
                        0 <= b < new_w * 4,
                {};
                assert((s as int) * (s as int) <= 4096 * 4096) by (nonlinear_arith)
                    requires
                        s <= 4096,
                {};
                assert((new_w as int) * (new_h as int) * 4 <= 4096 * 4096 * 4) by (nonlinear_arith)
                    requires
                        new_w <= 4096,
                        new_h <= 4096,
                {};
            }
            let di: usize = dst_row_start + b;
            let v: u8 = resized[src_row_start + b];
            canvas.set(di, v);
            b = b + 1;
        }
        row = row + 1;
        proof {
            let si = s as int;
            let nwi = new_w as int;
            let nhi = new_h as int;
            let pxi = pad_x as int;
            let pyi = pad_y as int;
            let ri = row as int - 1;
            let dst = (pyi + ri) * si * 4 + pxi * 4;
            assert forall|i: int| 0 <= i < canvas@.len() implies canvas@[i] == (if copied_region(
                i,
                si,
                nwi,
                pxi,
                pyi,
                ri + 1,
            ) {
                canvas_byte(resized@, si, nwi, nhi, pxi, pyi, i)
            } else if i % 4 == 3 {
                255u8
            } else {
                0u8
            }) by {
                if copied_region(i, si, nwi, pxi, pyi, ri + 1) {
                    if !copied_region(i, si, nwi, pxi, pyi, ri) {
                        lemma_region_step(i, si, nwi, pxi, pyi, ri);
                    }
                } else {
                    if dst <= i < dst + nwi * 4 {
                        lemma_row_byte(si, nwi, nhi, pxi, pyi, ri, i - dst);
                        assert(false);
                    }
                }
            }
        }
    }
    canvas
}

/// The canvas bytes that belong to the first `rows_done` copied rows of the
/// centered window.
pub open spec fn copied_region(
    i: int,
    s: int,
    new_w: int,
    pad_x: int,
    pad_y: int,
    rows_done: int,
) -> bool {
    let p = i / 4;
    let x = p % s;
    let y = p / s;
    &&& pad_x <= x < pad_x + new_w
    &&& pad_y <= y < pad_y + rows_done
}

/// A byte offset `b` inside the destination row `row` lands inside the
/// centered window, reads the matching resized byte, and belongs to the
/// copied region of `row + 1` rows but not of `row` rows.
proof fn lemma_row_byte(s: int, new_w: int, new_h: int, pad_x: int, pad_y: int, row: int, b: int)
    requires
        1 <= s,
        1 <= new_w <= s,
        1 <= new_h <= s,
        pad_x >= 0,
        pad_y >= 0,
        pad_x + new_w <= s,
        pad_y + new_h <= s,
        0 <= row < new_h,
        0 <= b < new_w * 4,
    ensures
        ({
            let i = (pad_y + row) * s * 4 + pad_x * 4 + b;
            &&& 0 <= i < s * s * 4
            &&& copied_region(i, s, new_w, pad_x, pad_y, row + 1)
            &&& !copied_region(i, s, new_w, pad_x, pad_y, row)
            &&& 4 * ((i / 4 / s - pad_y) * new_w + (i / 4 % s - pad_x)) + i % 4 == row * new_w * 4
                + b
            &&& pad_x <= (i / 4) % s < pad_x + new_w
            &&& (i / 4) / s == pad_y + row
        }),
{
    let i = (pad_y + row) * s * 4 + pad_x * 4 + b;
    let q = b / 4;
    let r = b % 4;
    assert(b == 4 * q + r && 0 <= r < 4);
    assert(i == 4 * ((pad_y + row) * s + pad_x + q) + r);
    assert(i / 4 == (pad_y + row) * s + pad_x + q && i % 4 == r) by (nonlinear_arith)
        requires
            i == 4 * ((pad_y + row) * s + pad_x + q) + r,
            0 <= r < 4,
            (pad_y + row) * s + pad_x + q >= 0,
    {};
    let p = i / 4;
    assert(0 <= pad_x + q < s) by (nonlinear_arith)
        requires
            0 <= q,
            b == 4 * q + r,
            0 <= r < 4,
            b < new_w * 4,
            pad_x >= 0,
            pad_x + new_w <= s,
    {};
    assert(pad_x + q < pad_x + new_w) by (nonlinear_arith)
        requires
            b == 4 * q + r,
            0 <= r < 4,
            b < new_w * 4,
            0 <= q,
    {};
    assert(p == (pad_y + row) * s + (pad_x + q));
    assert(p % s == pad_x + q && p / s == pad_y + row) by (nonlinear_arith)
        requires
            p == (pad_y + row) * s + (pad_x + q),
            0 <= pad_x + q < s,
            0 <= pad_y + row,
            s >= 1,
    {};
    assert(p < s * s) by (nonlinear_arith)
        requires
            p == (pad_y + row) * s + (pad_x + q),
            pad_y + row < s,
            0 <= pad_x + q < s,
            s >= 1,
    {};
    assert(i < s * s * 4) by (nonlinear_arith)
        requires
            i == 4 * p + r,
            0 <= r < 4,
            p < s * s,
    {};
    assert(4 * ((p / s - pad_y) * new_w + (p % s - pad_x)) + i % 4 == 4 * (row * new_w + q) + r);
    assert(4 * (row * new_w + q) + r == row * new_w * 4 + b) by (nonlinear_arith)
        requires
            b == 4 * q + r,
    {};
}

/// Growing the copied region by one row adds exactly the bytes of that row.
proof fn lemma_region_step(i: int, s: int, new_w: int, pad_x: int, pad_y: int, rows_done: int)
    requires
        1 <= s,
        1 <= new_w <= s,
        pad_x >= 0,
        pad_y >= 0,
        pad_x + new_w <= s,
        rows_done >= 0,
        copied_region(i, s, new_w, pad_x, pad_y, rows_done + 1),
        !copied_region(i, s, new_w, pad_x, pad_y, rows_done),
        0 <= i,
    ensures
        (pad_y + rows_done) * s * 4 + pad_x * 4 <= i < (pad_y + rows_done) * s * 4 + pad_x * 4
            + new_w * 4,
{
    let p = i / 4;
    let x = p % s;
    let y = p / s;
    assert(y == pad_y + rows_done);
    assert(pad_x <= x < pad_x + new_w);
    assert(p == y * s + x) by (nonlinear_arith)
        requires
            p >= 0,
            s >= 1,
            x == p % s,
            y == p / s,
    {};
    assert(i == 4 * p + i % 4);
    assert(4 * (y * s + pad_x) <= i < 4 * (y * s + pad_x + new_w)) by (nonlinear_arith)
        requires
            i == 4 * p + i % 4,
            0 <= i % 4 < 4,
            p == y * s + x,
            pad_x <= x < pad_x + new_w,
    {};
}

/// Map one model-space fixed-point coordinate back to the original frame:
/// subtract the pad, divide by the scale, clamp to the frame.
pub open spec fn unletterbox_coord(v: int, pad: int, m: int, s: int, limit: int) -> int
    recommends
        s >= 1,
        m >= 1,
        limit >= 0,
{
    spec_clamp(div_trunc((v - pad * UNIT) * m, s), 0, limit)
}

/// The landmark positions mapped back into original-frame coordinates,
/// clamped to the frame bounds.
pub fn project_landmarks(landmarks: &Vec<[i64; 3]>, info: &LetterboxInfo) -> (res: Vec<(i64, i64)>)
    requires
        info.wf(),
        forall|k: int|
            0 <= k < landmarks@.len() ==> {
                &&& -crate::fixed::COORD_LIMIT <= #[trigger] landmarks@[k][0] <= crate::fixed::COORD_LIMIT
                &&& -crate::fixed::COORD_LIMIT <= landmarks@[k][1] <= crate::fixed::COORD_LIMIT
            },
    ensures
        res@.len() == landmarks@.len(),
        forall|k: int|
            0 <= k < landmarks@.len() ==> {
                &&& #[trigger] res@[k].0 == unletterbox_coord(
                    landmarks@[k][0] as int,
                    info.pad_x as int,
                    info.orig_max_dim(),
                    info.target_size as int,
                    limit_of(info.orig_w as int),
                )
                &&& res@[k].1 == unletterbox_coord(
                    landmarks@[k][1] as int,
                    info.pad_y as int,
                    info.orig_max_dim(),
                    info.target_size as int,
                    limit_of(info.orig_h as int),
                )
            },
{
    let m: i64 = if info.orig_w >= info.orig_h {
        info.orig_w as i64
    } else {
        info.orig_h as i64
    };
    let s: i64 = info.target_size as i64;
    let limit_x: i64 = limit_exec(info.orig_w);
    let limit_y: i64 = limit_exec(info.orig_h);
    let mut res: Vec<(i64, i64)> = Vec::new();
    let mut k: usize = 0;
    while k < landmarks.len()
        invariant
            k <= landmarks@.len(),
            res@.len() == k,
            info.wf(),
            m == info.orig_max_dim(),
            s == info.target_size,
            1 <= s <= u32::MAX,
            1 <= m <= u32::MAX,
            limit_x == limit_of(info.orig_w as int),
            limit_y == limit_of(info.orig_h as int),
            0 <= limit_x <= UNIT * u32::MAX,
            0 <= limit_y <= UNIT * u32::MAX,
            forall|j: int|
                0 <= j < landmarks@.len() ==> {
                    &&& -crate::fixed::COORD_LIMIT <= #[trigger] landmarks@[j][0]
                        <= crate::fixed::COORD_LIMIT
                    &&& -crate::fixed::COORD_LIMIT <= landmarks@[j][1] <= crate::fixed::COORD_LIMIT
                },
            forall|j: int|
                0 <= j < k ==> {
                    &&& #[trigger] res@[j].0 == unletterbox_coord(
                        landmarks@[j][0] as int,
                        info.pad_x as int,
                        info.orig_max_dim(),
                        info.target_size as int,
                        limit_of(info.orig_w as int),
                    )
                    &&& res@[j].1 == unletterbox_coord(
                        landmarks@[j][1] as int,
                        info.pad_y as int,
                        info.orig_max_dim(),
                        info.target_size as int,
                        limit_of(info.orig_h as int),
                    )
                },
        decreases landmarks@.len() - k,
    {
        let lm = &landmarks[k];
        let px = unletterbox_exec(lm[0], info.pad_x, m, s, limit_x);
        let py = unletterbox_exec(lm[1], info.pad_y, m, s, limit_y);
        res.push((px, py));
        k = k + 1;
    }
    res
}

/// The largest in-frame coordinate, `(dim - 1) * UNIT`, or zero for an
/// empty dimension.
pub open spec fn limit_of(dim: int) -> int {
    if dim >= 1 {
        (dim - 1) * UNIT
    } else {
        0
    }
}

fn limit_exec(dim: u32) -> (r: i64)
    ensures
        r == limit_of(dim as int),
        0 <= r <= UNIT * u32::MAX,
{
    if dim >= 1 {
        (dim as i64 - 1) * UNIT
    } else {
        0
    }
}

fn unletterbox_exec(v: i64, pad: u32, m: i64, s: i64, limit: i64) -> (r: i64)
    requires
        1 <= s <= u32::MAX,
        1 <= m <= u32::MAX,
        -crate::fixed::COORD_LIMIT <= v <= crate::fixed::COORD_LIMIT,
        0 <= limit <= UNIT * u32::MAX,
    ensures
        r == unletterbox_coord(v as int, pad as int, m as int, s as int, limit as int),
{
    proof {
        assert(0 <= (pad as int) * (UNIT as int) <= 0x1_0000_0000 * 1000) by (nonlinear_arith)
            requires
                0 <= pad <= 0x1_0000_0000,
        {};
    }
    let bias: i128 = pad as i128 * UNIT as i128;
    let shifted: i128 = v as i128 - bias;
    proof {
        assert(-0x1_0000_0000_0000 * 0x1_0000_0000 <= (shifted as int) * (m as int)
            <= 0x1_0000_0000_0000 * 0x1_0000_0000) by (nonlinear_arith)
            requires
                -0x1_0000_0000_0000 <= shifted <= 0x1_0000_0000_0000,
                0 <= m <= 0x1_0000_0000,
        {};
    }
    let scaled: i128 = shifted * m as i128;
    let q: i128 = div_trunc_i128(scaled, s as i128);
    if q < 0 {
        0
    } else if q > limit as i128 {
        limit
    } else {
        q as i64
    }
}

} // verus!
