//! Overlay drawing on RGBA frame buffers: the hand skeleton and the palm
//! region boxes.
//!
//! The contracts pin the pixel write itself exactly and bound every
//! compound stroke to its region: a drawing call never resizes the buffer
//! and never touches pixels outside the stroke's inflated bounding box.

use vstd::prelude::*;

use crate::types::PalmRegion;

verus! {

/// Number of bone connections of the hand skeleton.
pub const NUM_CONNECTIONS: usize = 23;

/// Line thickness of the skeleton overlay.
pub const SKELETON_LINE_THICKNESS: i64 = 12;

/// Line thickness of the palm box overlay.
pub const PALM_BOX_THICKNESS: i64 = 6;

/// Regions scoring below this are not drawn at all.
pub const PALM_SCORE_THRESHOLD: i64 = 250;

/// The landmark index pair of bone `i` of the hand skeleton.
pub open spec fn connection_spec(i: int) -> (int, int) {
    if i == 0 {
        (0, 1)
    } else if i == 1 {
        (1, 2)
    } else if i == 2 {
        (2, 3)
    } else if i == 3 {
        (3, 4)
    } else if i == 4 {
        (0, 5)
    } else if i == 5 {
        (5, 6)
    } else if i == 6 {
        (6, 7)
    } else if i == 7 {
        (7, 8)
    } else if i == 8 {
        (0, 9)
    } else if i == 9 {
        (9, 10)
    } else if i == 10 {
        (10, 11)
    } else if i == 11 {
        (11, 12)
    } else if i == 12 {
        (0, 13)
    } else if i == 13 {
        (13, 14)
    } else if i == 14 {
        (14, 15)
    } else if i == 15 {
        (15, 16)
    } else if i == 16 {
        (0, 17)
    } else if i == 17 {
        (17, 18)
    } else if i == 18 {
        (18, 19)
    } else if i == 19 {
        (19, 20)
    } else if i == 20 {
        (5, 9)
    } else if i == 21 {
        (9, 13)
    } else {
        (13, 17)
    }
}

/// The landmark index pair of one skeleton bone.
pub fn connection(i: usize) -> (res: (usize, usize))
    requires
        i < NUM_CONNECTIONS,
    ensures
        res.0 == connection_spec(i as int).0,
        res.1 == connection_spec(i as int).1,
        res.0 < 21,
        res.1 < 21,
{
    if i == 0 {
        (0, 1)
    } else if i == 1 {
        (1, 2)
    } else if i == 2 {
        (2, 3)
    } else if i == 3 {
        (3, 4)
    } else if i == 4 {
        (0, 5)
    } else if i == 5 {
        (5, 6)
    } else if i == 6 {
        (6, 7)
    } else if i == 7 {
        (7, 8)
    } else if i == 8 {
        (0, 9)
    } else if i == 9 {
        (9, 10)
    } else if i == 10 {
        (10, 11)
    } else if i == 11 {
        (11, 12)
    } else if i == 12 {
        (0, 13)
    } else if i == 13 {
        (13, 14)
    } else if i == 14 {
        (14, 15)
    } else if i == 15 {
        (15, 16)
    } else if i == 16 {
        (0, 17)
    } else if i == 17 {
        (17, 18)
    } else if i == 18 {
        (18, 19)
    } else if i == 19 {
        (19, 20)
    } else if i == 20 {
        (5, 9)
    } else if i == 21 {
        (9, 13)
    } else {
        (13, 17)
    }
}

/// The column of the pixel a byte index belongs to.
pub open spec fn byte_px(i: int, w: int) -> int
    recommends
        w >= 1,
{
    (i / 4) % w
}

/// The row of the pixel a byte index belongs to.
pub open spec fn byte_py(i: int, w: int) -> int
    recommends
        w >= 1,
{
    (i / 4) / w
}

/// A byte lies inside the axis-aligned pixel box `[x0, x1] x [y0, y1]`.
pub open spec fn byte_in_box(i: int, w: int, x0: int, y0: int, x1: int, y1: int) -> bool {
    x0 <= byte_px(i, w) <= x1 && y0 <= byte_py(i, w) <= y1
}

/// The buffer after one safe pixel write: the four bytes of pixel
/// `(x, y)` set to `color` when the pixel lies inside the `w x h` frame
/// and its bytes inside the buffer; otherwise unchanged.
pub open spec fn put_pixel_spec(
    buf: Seq<u8>,
    w: int,
    h: int,
    x: int,
    y: int,
    color: [u8; 4],
) -> Seq<u8> {
    if 0 <= x < w && 0 <= y < h && (y * w + x) * 4 + 3 < buf.len() {
        let idx = (y * w + x) * 4;
        buf.update(idx, color[0]).update(idx + 1, color[1]).update(idx + 2, color[2]).update(
            idx + 3,
            color[3],
        )
    } else {
        buf
    }
}

/// Write one pixel, ignoring writes that fall outside the frame or the
/// buffer.
pub fn put_pixel_safe(
    buffer: &mut Vec<u8>,
    width: u32,
    height: u32,
    x: i64,
    y: i64,
    color: [u8; 4],
)
    requires
        width >= 1,
    ensures
        final(buffer)@ == put_pixel_spec(
            old(buffer)@,
            width as int,
            height as int,
            x as int,
            y as int,
            color,
        ),
        final(buffer)@.len() == old(buffer)@.len(),
        forall|i: int|
            0 <= i < old(buffer)@.len() && !(byte_px(i, width as int) == x && byte_py(
                i,
                width as int,
            ) == y) ==> final(buffer)@[i] == old(buffer)@[i],
{
    if x < 0 || y < 0 {
        return ;
    }
    if x >= width as i64 || y >= height as i64 {
        return ;
    }
    proof {
        assert(0 <= (y as int) * (width as int) + x) by (nonlinear_arith)
            requires
                0 <= x,
                0 <= y,
                width >= 1,
        {};
        assert(((y as int) * (width as int) + x) * 4 + 3 < 0x1_0000_0000_0000_0000_0000)
            by (nonlinear_arith)
            requires
                0 <= x < width <= 0x1_0000_0000,
                0 <= y < height <= 0x1_0000_0000,
                width >= 1,
        {};
    }
    let idx_w: u128 = ((y as u128) * (width as u128) + (x as u128)) * 4;
    if idx_w + 3 < buffer.len() as u128 {
        let idx: usize = idx_w as usize;
        let ghost pre = buffer@;
        buffer.set(idx, color[0]);
        buffer.set(idx + 1, color[1]);
        buffer.set(idx + 2, color[2]);
        buffer.set(idx + 3, color[3]);
        proof {
            assert(buffer@ =~= put_pixel_spec(
                pre,
                width as int,
                height as int,
                x as int,
                y as int,
                color,
            ));
            lemma_pixel_bytes(idx as int, x as int, y as int, width as int);
        }
    } else {
        proof {
            assert(buffer@ == put_pixel_spec(
                old(buffer)@,
                width as int,
                height as int,
                x as int,
                y as int,
                color,
            ));
        }
    }
}

/// The four bytes of a pixel decompose back to its coordinates.
proof fn lemma_pixel_bytes(idx: int, x: int, y: int, w: int)
    requires
        w >= 1,
        0 <= x < w,
        0 <= y,
        idx == (y * w + x) * 4,
    ensures
        forall|k: int|
            0 <= k < 4 ==> byte_px(idx + k, w) == x && byte_py(#[trigger] (idx + k), w) == y,
{
    assert forall|k: int| 0 <= k < 4 implies byte_px(idx + k, w) == x && byte_py(
        #[trigger] (idx + k),
        w,
    ) == y by {
        assert((idx + k) / 4 == y * w + x) by (nonlinear_arith)
            requires
                idx == (y * w + x) * 4,
                0 <= k < 4,
                y * w + x >= 0,
        {};
        assert((y * w + x) % w == x && (y * w + x) / w == y) by (nonlinear_arith)
            requires
                0 <= x < w,
                0 <= y,
                w >= 1,
        {};
    }
}

/// Draw a filled circle; only pixels inside the bounding square of the
/// circle are touched, and the buffer keeps its length.
pub fn draw_circle(
    buffer: &mut Vec<u8>,
    width: u32,
    height: u32,
    center: (i64, i64),
    radius: i64,
    color: [u8; 4],
)
    requires
        width >= 1,
        0 <= radius <= 0x1000,
        -0x1_0000_0000 <= center.0 <= 0x1_0000_0000,
        -0x1_0000_0000 <= center.1 <= 0x1_0000_0000,
    ensures
        final(buffer)@.len() == old(buffer)@.len(),
        forall|i: int|
            0 <= i < old(buffer)@.len() && !byte_in_box(
                i,
                width as int,
                center.0 - radius,
                center.1 - radius,
                center.0 + radius,
                center.1 + radius,
            ) ==> final(buffer)@[i] == old(buffer)@[i],
{
    let (cx, cy) = center;
    let mut dy: i64 = -radius;
    while dy <= radius
        invariant
            -radius <= dy <= radius + 1,
            width >= 1,
            0 <= radius <= 0x1000,
            -0x1_0000_0000 <= cx <= 0x1_0000_0000,
            -0x1_0000_0000 <= cy <= 0x1_0000_0000,
            buffer@.len() == old(buffer)@.len(),
            forall|i: int|
                0 <= i < old(buffer)@.len() && !byte_in_box(
                    i,
                    width as int,
                    cx - radius,
                    cy - radius,
                    cx + radius,
                    cy + radius,
                ) ==> buffer@[i] == old(buffer)@[i],
        decreases radius - dy + 1,
    {
        let mut dx: i64 = -radius;
        while dx <= radius
            invariant
                -radius <= dx <= radius + 1,
                -radius <= dy <= radius,
                width >= 1,
                0 <= radius <= 0x1000,
                -0x1_0000_0000 <= cx <= 0x1_0000_0000,
                -0x1_0000_0000 <= cy <= 0x1_0000_0000,
                buffer@.len() == old(buffer)@.len(),
                forall|i: int|
                    0 <= i < old(buffer)@.len() && !byte_in_box(
                        i,
                        width as int,
                        cx - radius,
                        cy - radius,
                        cx + radius,
                        cy + radius,
                    ) ==> buffer@[i] == old(buffer)@[i],
            decreases radius - dx + 1,
        {
            proof {
                assert(0 <= dx * dx <= 0x100_0000 && 0 <= dy * dy <= 0x100_0000 && 0 <= radius
                    * radius <= 0x100_0000) by (nonlinear_arith)
                    requires
                        -0x1000 <= dx <= 0x1000,
                        -0x1000 <= dy <= 0x1000,
                        0 <= radius <= 0x1000,
                {};
            }
            if dx * dx + dy * dy <= radius * radius {
                put_pixel_safe(buffer, width, height, cx + dx, cy + dy, color);
            }
            dx = dx + 1;
        }
        dy = dy + 1;
    }
}

/// Draw a thick line segment with an integer midpoint walk; only pixels
/// inside the segment's bounding box inflated by the stroke radius are
/// touched, and the buffer keeps its length.
pub fn draw_line(
    buffer: &mut Vec<u8>,
    width: u32,
    height: u32,
    p0: (i64, i64),
    p1: (i64, i64),
    color: [u8; 4],
    thickness: i64,
)
    requires
        width >= 1,
        1 <= thickness <= 0x1000,
        -0x1_0000_0000 <= p0.0 <= 0x1_0000_0000,
        -0x1_0000_0000 <= p0.1 <= 0x1_0000_0000,
        -0x1_0000_0000 <= p1.0 <= 0x1_0000_0000,
        -0x1_0000_0000 <= p1.1 <= 0x1_0000_0000,
    ensures
        final(buffer)@.len() == old(buffer)@.len(),
        forall|i: int|
            0 <= i < old(buffer)@.len() && !byte_in_box(
                i,
                width as int,
                crate::fixed::spec_min(p0.0 as int, p1.0 as int) - thickness,
                crate::fixed::spec_min(p0.1 as int, p1.1 as int) - thickness,
                crate::fixed::spec_max(p0.0 as int, p1.0 as int) + thickness,
                crate::fixed::spec_max(p0.1 as int, p1.1 as int) + thickness,
            ) ==> final(buffer)@[i] == old(buffer)@[i],
{
    let ghost lo_x = crate::fixed::spec_min(p0.0 as int, p1.0 as int) - thickness;
    let ghost lo_y = crate::fixed::spec_min(p0.1 as int, p1.1 as int) - thickness;
    let ghost hi_x = crate::fixed::spec_max(p0.0 as int, p1.0 as int) + thickness;
    let ghost hi_y = crate::fixed::spec_max(p0.1 as int, p1.1 as int) + thickness;
    let (mut x0, mut y0) = p0;
    let (x1, y1) = p1;
    let dx: i64 = if x1 >= x0 {
        x1 - x0
    } else {
        x0 - x1
    };
    let sx: i64 = if x0 < x1 {
        1
    } else {
        -1
    };
    let dy: i64 = if y1 >= y0 {
        -(y1 - y0)
    } else {
        -(y0 - y1)
    };
    let sy: i64 = if y0 < y1 {
        1
    } else {
        -1
    };
    let mut err: i128 = dx as i128 + dy as i128;
    let radius: i64 = (thickness - 1) / 2;
    let mut fuel: i64 = dx - dy + 1;
    while fuel > 0
        invariant
            width >= 1,
            0 <= radius < thickness <= 0x1000,
            buffer@.len() == old(buffer)@.len(),
            crate::fixed::spec_min(p0.0 as int, p1.0 as int) <= x0 <= crate::fixed::spec_max(
                p0.0 as int,
                p1.0 as int,
            ),
            crate::fixed::spec_min(p0.1 as int, p1.1 as int) <= y0 <= crate::fixed::spec_max(
                p0.1 as int,
                p1.1 as int,
            ),
            x1 == p1.0,
            y1 == p1.1,
            -0x1_0000_0000 <= p0.0 <= 0x1_0000_0000,
            -0x1_0000_0000 <= p0.1 <= 0x1_0000_0000,
            -0x1_0000_0000 <= p1.0 <= 0x1_0000_0000,
            -0x1_0000_0000 <= p1.1 <= 0x1_0000_0000,
            x0 == p1.0 || (sx == 1 && x0 < p1.0) || (sx == -1 && x0 > p1.0),
            y0 == p1.1 || (sy == 1 && y0 < p1.1) || (sy == -1 && y0 > p1.1),
            0 <= fuel <= 0x4_0000_0002,
            -(0x4_0000_0002 - fuel as i128) * 0x4_0000_0000 - 0x4_0000_0000 <= err <= (
            0x4_0000_0002 - fuel as i128) * 0x4_0000_0000 + 0x4_0000_0000,
            -0x4_0000_0000 <= dy <= 0 <= dx <= 0x4_0000_0000,
            lo_x == crate::fixed::spec_min(p0.0 as int, p1.0 as int) - thickness,
            lo_y == crate::fixed::spec_min(p0.1 as int, p1.1 as int) - thickness,
            hi_x == crate::fixed::spec_max(p0.0 as int, p1.0 as int) + thickness,
            hi_y == crate::fixed::spec_max(p0.1 as int, p1.1 as int) + thickness,
            forall|i: int|
                0 <= i < old(buffer)@.len() && !byte_in_box(i, width as int, lo_x, lo_y, hi_x, hi_y)
                    ==> buffer@[i] == old(buffer)@[i],
        decreases fuel,
    {
        put_pixel_safe(buffer, width, height, x0, y0, color);
        if radius > 0 {
            let mut ox: i64 = -radius;
            while ox <= radius
                invariant
                    -radius <= ox <= radius + 1,
                    0 <= radius < thickness <= 0x1000,
                    width >= 1,
                    lo_x <= x0 - radius && x0 + radius <= hi_x,
                    lo_y <= y0 - radius && y0 + radius <= hi_y,
                    -0x1_0000_0001 <= x0 <= 0x1_0000_0001,
                    -0x1_0000_0001 <= y0 <= 0x1_0000_0001,
                    buffer@.len() == old(buffer)@.len(),
                    forall|i: int|
                        0 <= i < old(buffer)@.len() && !byte_in_box(
                            i,
                            width as int,
                            lo_x,
                            lo_y,
                            hi_x,
                            hi_y,
                        ) ==> buffer@[i] == old(buffer)@[i],
                decreases radius - ox + 1,
            {
                let mut oy: i64 = -radius;
                while oy <= radius
                    invariant
                        -radius <= ox <= radius,
                        -radius <= oy <= radius + 1,
                        0 <= radius < thickness <= 0x1000,
                        width >= 1,
                        lo_x <= x0 - radius && x0 + radius <= hi_x,
                        lo_y <= y0 - radius && y0 + radius <= hi_y,
                        -0x1_0000_0001 <= x0 <= 0x1_0000_0001,
                        -0x1_0000_0001 <= y0 <= 0x1_0000_0001,
                        buffer@.len() == old(buffer)@.len(),
                        forall|i: int|
                            0 <= i < old(buffer)@.len() && !byte_in_box(
                                i,
                                width as int,
                                lo_x,
                                lo_y,
                                hi_x,
                                hi_y,
                            ) ==> buffer@[i] == old(buffer)@[i],
                    decreases radius - oy + 1,
                {
                    let absx = if ox >= 0 {
                        ox
                    } else {
                        -ox
                    };
                    let absy = if oy >= 0 {
                        oy
                    } else {
                        -oy
                    };
                    if !(ox == 0 && oy == 0) && absx + absy <= radius {
                        put_pixel_safe(buffer, width, height, x0 + ox, y0 + oy, color);
                    }
                    oy = oy + 1;
                }
                ox = ox + 1;
            }
        }
        if x0 == x1 && y0 == y1 {
            break ;
        }
        let e2: i128 = 2 * err;
        if e2 >= dy as i128 {
            err = err + dy as i128;
            if x0 != x1 {
                x0 = x0 + sx;
            }
        }
        if e2 <= dx as i128 {
            err = err + dx as i128;
            if y0 != y1 {
                y0 = y0 + sy;
            }
        }
        fuel = fuel - 1;
    }
}

/// Draw the four edges of an axis-aligned rectangle.
pub fn draw_rect(
    buffer: &mut Vec<u8>,
    width: u32,
    height: u32,
    x1: i64,
    y1: i64,
    x2: i64,
    y2: i64,
    color: [u8; 4],
    thickness: i64,
)
    requires
        width >= 1,
        1 <= thickness <= 0x1000,
        -0x1_0000_0000 <= x1 <= 0x1_0000_0000,
        -0x1_0000_0000 <= y1 <= 0x1_0000_0000,
        -0x1_0000_0000 <= x2 <= 0x1_0000_0000,
        -0x1_0000_0000 <= y2 <= 0x1_0000_0000,
    ensures
        final(buffer)@.len() == old(buffer)@.len(),
{
    draw_line(buffer, width, height, (x1, y1), (x2, y1), color, thickness);
    draw_line(buffer, width, height, (x2, y1), (x2, y2), color, thickness);
    draw_line(buffer, width, height, (x2, y2), (x1, y2), color, thickness);
    draw_line(buffer, width, height, (x1, y2), (x1, y1), color, thickness);
}

/// All points within the drawable coordinate range.
pub open spec fn draw_pts_bounded(s: Seq<(i64, i64)>) -> bool {
    forall|i: int|
        0 <= i < s.len() ==> {
            &&& -0x1_0000_0000 <= (#[trigger] s[i]).0 <= 0x1_0000_0000
            &&& -0x1_0000_0000 <= s[i].1 <= 0x1_0000_0000
        }
}

/// Draw the hand skeleton: the bone segments of the 21 landmarks and a
/// dot per landmark. Fewer than two points draw nothing.
pub fn draw_skeleton(buffer: &mut Vec<u8>, width: u32, height: u32, points: &Vec<(i64, i64)>)
    requires
        width >= 1,
        draw_pts_bounded(points@),
    ensures
        final(buffer)@.len() == old(buffer)@.len(),
        points@.len() < 2 ==> final(buffer)@ == old(buffer)@,
{
    if points.len() < 2 {
        return ;
    }
    let line_color: [u8; 4] = [56, 189, 248, 255];
    let mut c: usize = 0;
    while c < NUM_CONNECTIONS
        invariant
            c <= NUM_CONNECTIONS,
            width >= 1,
            draw_pts_bounded(points@),
            points@.len() >= 2,
            buffer@.len() == old(buffer)@.len(),
        decreases NUM_CONNECTIONS - c,
    {
        let (a, b) = connection(c);
        if a < points.len() && b < points.len() {
            let pa = points[a];
            let pb = points[b];
            draw_line(buffer, width, height, pa, pb, line_color, SKELETON_LINE_THICKNESS);
        }
        c = c + 1;
    }

    let point_color: [u8; 4] = [248, 113, 113, 255];
    let mut k: usize = 0;
    while k < points.len()
        invariant
            k <= points@.len(),
            width >= 1,
            draw_pts_bounded(points@),
            buffer@.len() == old(buffer)@.len(),
        decreases points@.len() - k,
    {
        let p = points[k];
        // Half the line thickness plus a margin: 12 / 2 + 2.
        let dot: i64 = 8;
        draw_circle(buffer, width, height, p, dot, point_color);
        k = k + 1;
    }
}

/// All regions within the drawable coordinate range.
pub open spec fn regions_drawable(s: Seq<PalmRegion>) -> bool {
    forall|r: int|
        #![trigger s[r]]
        0 <= r < s.len() ==> {
            &&& (forall|k: int|
                0 <= k < 4 ==> -0x1_0000_0000 * 1000 <= #[trigger] (s[r].bbox[k]) <= 0x1_0000_0000
                    * 1000)
            &&& (forall|l: int|
                0 <= l < s[r].landmarks@.len() ==> {
                    &&& -0x1_0000_0000 * 1000 <= (#[trigger] s[r].landmarks@[l]).0 <= 0x1_0000_0000
                        * 1000
                    &&& -0x1_0000_0000 * 1000 <= s[r].landmarks@[l].1 <= 0x1_0000_0000 * 1000
                })
        }
}

/// Draw the bounding box and keypoints of every palm region whose score
/// reaches the display threshold; regions below it leave the buffer
/// untouched, so a frame with only weak detections stays clean.
pub fn draw_palm_regions(buffer: &mut Vec<u8>, width: u32, height: u32, regions: &Vec<PalmRegion>)
    requires
        width >= 1,
        regions_drawable(regions@),
    ensures
        final(buffer)@.len() == old(buffer)@.len(),
        (forall|r: int|
            0 <= r < regions@.len() ==> (#[trigger] regions@[r]).score < PALM_SCORE_THRESHOLD)
            ==> final(buffer)@ == old(buffer)@,
{
    let rect_color: [u8; 4] = [16, 185, 129, 200];
    let point_color: [u8; 4] = [244, 114, 182, 230];
    let mut r: usize = 0;
    while r < regions.len()
        invariant
            r <= regions@.len(),
            width >= 1,
            regions_drawable(regions@),
            buffer@.len() == old(buffer)@.len(),
            (forall|q: int|
                0 <= q < regions@.len() ==> (#[trigger] regions@[q]).score < PALM_SCORE_THRESHOLD)
                ==> buffer@ == old(buffer)@,
        decreases regions@.len() - r,
    {
        let region = &regions[r];
        if region.score >= PALM_SCORE_THRESHOLD {
            let x1 = region.bbox[0] / crate::fixed::UNIT;
            let y1 = region.bbox[1] / crate::fixed::UNIT;
            let x2 = region.bbox[2] / crate::fixed::UNIT;
            let y2 = region.bbox[3] / crate::fixed::UNIT;
            draw_rect(buffer, width, height, x1, y1, x2, y2, rect_color, PALM_BOX_THICKNESS);
            let mut l: usize = 0;
            while l < region.landmarks.len()
                invariant
                    l <= region.landmarks@.len(),
                    width >= 1,
                    forall|q: int|
                        0 <= q < region.landmarks@.len() ==> {
                            &&& -0x1_0000_0000 * 1000 <= (#[trigger] region.landmarks@[q]).0
                                <= 0x1_0000_0000 * 1000
                            &&& -0x1_0000_0000 * 1000 <= region.landmarks@[q].1 <= 0x1_0000_0000
                                * 1000
                        },
                    buffer@.len() == old(buffer)@.len(),
                decreases region.landmarks@.len() - l,
            {
                let (lx, ly) = region.landmarks[l];
                // Half the box thickness: 6 / 2.
                let dot: i64 = 3;
                draw_circle(
                    buffer,
                    width,
                    height,
                    (lx / crate::fixed::UNIT, ly / crate::fixed::UNIT),
                    dot,
                    point_color,
                );
                l = l + 1;
            }
        }
        r = r + 1;
    }
}

} // verus!
