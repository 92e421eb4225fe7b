//! Packed RGBA pictures: four bytes a pixel, straight alpha, row by row from
//! the top.
use vstd::prelude::*;

verus! {

/// Red, green, blue, alpha.
pub type Pixel = (u8, u8, u8, u8);

/// Where a pixel starts.
pub open spec fn offset(w: int, x: int, y: int) -> int {
    (y * w + x) * 4
}

/// The pixel at a place in a picture of width `w`.
pub open spec fn pixel(buf: Seq<u8>, w: int, x: int, y: int) -> Pixel {
    let i = offset(w, x, y);
    (buf[i], buf[i + 1], buf[i + 2], buf[i + 3])
}

/// A clear pixel.
pub open spec fn clear() -> Pixel {
    (0, 0, 0, 0)
}

/// Pixels lie within their picture, four bytes apart.
pub proof fn lemma_offset(w: int, h: int, x: int, y: int)
    requires
        0 <= x < w,
        0 <= y < h,
    ensures
        0 <= y * w,
        0 <= y * w + x < w * h,
        0 <= offset(w, x, y),
        offset(w, x, y) + 4 <= w * h * 4,
{
    assert(0 <= y * w && y * w + w <= w * h) by (nonlinear_arith)
        requires
            0 <= y < h,
            0 < w,
    ;
}

/// Different places are different pixels.
pub proof fn lemma_offset_apart(w: int, x: int, y: int, x2: int, y2: int)
    requires
        0 <= x < w,
        0 <= x2 < w,
        x != x2 || y != y2,
    ensures
        offset(w, x, y) + 4 <= offset(w, x2, y2) || offset(w, x2, y2) + 4 <= offset(w, x, y),
{
    if y < y2 {
        assert(y * w + w <= y2 * w) by (nonlinear_arith)
            requires
                y < y2,
                0 < w,
        ;
    } else if y2 < y {
        assert(y2 * w + w <= y * w) by (nonlinear_arith)
            requires
                y2 < y,
                0 < w,
        ;
    }
}

/// Write one pixel.
pub fn put(buf: &mut Vec<u8>, w: u32, h: u32, x: u32, y: u32, p: Pixel)
    requires
        x < w,
        y < h,
        w * h * 4 <= u32::MAX,
        old(buf)@.len() == w * h * 4,
    ensures
        final(buf)@.len() == old(buf)@.len(),
        forall|x2: int, y2: int|
            0 <= x2 < w && 0 <= y2 < h ==> #[trigger] pixel(final(buf)@, w as int, x2, y2) == if x2
                == x && y2 == y {
                p
            } else {
                pixel(old(buf)@, w as int, x2, y2)
            },
{
    proof {
        lemma_offset(w as int, h as int, x as int, y as int);
    }
    let i: usize = ((y * w + x) * 4) as usize;
    buf.set(i, p.0);
    buf.set(i + 1, p.1);
    buf.set(i + 2, p.2);
    buf.set(i + 3, p.3);
    assert forall|x2: int, y2: int| 0 <= x2 < w && 0 <= y2 < h implies #[trigger] pixel(
        buf@,
        w as int,
        x2,
        y2,
    ) == if x2 == x && y2 == y {
        p
    } else {
        pixel(old(buf)@, w as int, x2, y2)
    } by {
        lemma_offset(w as int, h as int, x2, y2);
        if x2 != x || y2 != y {
            lemma_offset_apart(w as int, x as int, y as int, x2, y2);
        }
    }
}

/// Read one pixel.
pub fn peek(buf: &[u8], w: u32, h: u32, x: u32, y: u32) -> (r: Pixel)
    requires
        x < w,
        y < h,
        w * h * 4 <= u32::MAX,
        buf@.len() == w * h * 4,
    ensures
        r == pixel(buf@, w as int, x as int, y as int),
{
    proof {
        lemma_offset(w as int, h as int, x as int, y as int);
    }
    let i: usize = ((y * w + x) * 4) as usize;
    (buf[i], buf[i + 1], buf[i + 2], buf[i + 3])
}

/// A picture of clear pixels.
pub fn blank(w: u32, h: u32) -> (r: Vec<u8>)
    requires
        w * h * 4 <= u32::MAX,
    ensures
        r@.len() == w * h * 4,
        forall|x: int, y: int|
            0 <= x < w && 0 <= y < h ==> #[trigger] pixel(r@, w as int, x, y) == clear(),
{
    assert(0 <= w * h) by (nonlinear_arith)
        requires
            0 <= w,
            0 <= h,
    ;
    let n: usize = (w * h * 4) as usize;
    let mut r: Vec<u8> = Vec::new();
    r.resize(n, 0u8);
    assert forall|x: int, y: int| 0 <= x < w && 0 <= y < h implies #[trigger] pixel(
        r@,
        w as int,
        x,
        y,
    ) == clear() by {
        lemma_offset(w as int, h as int, x, y);
    }
    r
}

// --- painting over ---------------------------------------------------------

/// One channel of a blend: `s` weighted by `sa`, `d` by the rest.
pub open spec fn mixed(s: u8, d: u8, sa: u8) -> u8 {
    ((s * sa + d * (255 - sa)) / 255) as u8
}

/// A pixel painted over another.
pub open spec fn over(s: Pixel, d: Pixel) -> Pixel {
    let sa = s.3;
    if sa == 0 {
        d
    } else if sa == 255 || d.3 == 0 {
        s
    } else {
        (
            mixed(s.0, d.0, sa),
            mixed(s.1, d.1, sa),
            mixed(s.2, d.2, sa),
            (sa + (d.3 * (255 - sa)) / 255) as u8,
        )
    }
}

proof fn lemma_mix(s: int, d: int, sa: int)
    requires
        0 <= s <= 255,
        0 <= d <= 255,
        0 <= sa <= 255,
    ensures
        0 <= s * sa <= 65025,
        0 <= d * (255 - sa) <= 65025,
        0 <= (s * sa + d * (255 - sa)) / 255 <= 255,
        0 <= d * (255 - sa) / 255 <= 255 - sa,
{
    assert(0 <= s * sa <= 255 * sa) by (nonlinear_arith)
        requires
            0 <= s <= 255,
            0 <= sa,
    ;
    assert(0 <= d * (255 - sa) <= 255 * (255 - sa)) by (nonlinear_arith)
        requires
            0 <= d <= 255,
            0 <= 255 - sa,
    ;
}

fn mix(s: u8, d: u8, sa: u8) -> (r: u8)
    ensures
        r == mixed(s, d, sa),
{
    proof {
        lemma_mix(s as int, d as int, sa as int);
    }
    ((s as u32 * sa as u32 + d as u32 * (255 - sa) as u32) / 255) as u8
}

fn paint(s: Pixel, d: Pixel) -> (r: Pixel)
    ensures
        r == over(s, d),
{
    let sa: u8 = s.3;
    if sa == 0 {
        return d;
    }
    if sa == 255 || d.3 == 0 {
        return s;
    }
    proof {
        lemma_mix(0, d.3 as int, sa as int);
    }
    let a: u32 = sa as u32 + d.3 as u32 * (255 - sa) as u32 / 255;
    (mix(s.0, d.0, sa), mix(s.1, d.1, sa), mix(s.2, d.2, sa), a as u8)
}

/// What a place shows once a picture is painted over `d` at `(at_x, at_y)`.
pub open spec fn painted(
    src: Seq<u8>,
    src_w: int,
    src_h: int,
    at_x: int,
    at_y: int,
    x: int,
    y: int,
    d: Pixel,
) -> Pixel {
    if at_x <= x < at_x + src_w && at_y <= y < at_y + src_h {
        over(pixel(src, src_w, x - at_x, y - at_y), d)
    } else {
        d
    }
}

/// Paint a picture over another. What sticks out is cut off.
pub fn blit_over(
    dst: &mut Vec<u8>,
    dst_w: u32,
    dst_h: u32,
    src: &[u8],
    src_w: u32,
    src_h: u32,
    at_x: u32,
    at_y: u32,
)
    requires
        dst_w * dst_h * 4 <= u32::MAX,
        old(dst)@.len() == dst_w * dst_h * 4,
        src_w * src_h * 4 <= u32::MAX,
        src@.len() == src_w * src_h * 4,
    ensures
        final(dst)@.len() == old(dst)@.len(),
        forall|x: int, y: int|
            0 <= x < dst_w && 0 <= y < dst_h ==> #[trigger] pixel(final(dst)@, dst_w as int, x, y)
                == painted(
                src@,
                src_w as int,
                src_h as int,
                at_x as int,
                at_y as int,
                x,
                y,
                pixel(old(dst)@, dst_w as int, x, y),
            ),
{
    let mut sy: u32 = 0;
    while sy < src_h && at_y < dst_h && sy < dst_h - at_y
        invariant
            sy <= src_h,
            sy == 0 || at_y + sy <= dst_h,
            dst_w * dst_h * 4 <= u32::MAX,
            dst@.len() == dst_w * dst_h * 4,
            src_w * src_h * 4 <= u32::MAX,
            src@.len() == src_w * src_h * 4,
            forall|x: int, y: int|
                0 <= x < dst_w && 0 <= y < dst_h ==> #[trigger] pixel(dst@, dst_w as int, x, y)
                    == if y < at_y + sy {
                    painted(
                        src@,
                        src_w as int,
                        src_h as int,
                        at_x as int,
                        at_y as int,
                        x,
                        y,
                        pixel(old(dst)@, dst_w as int, x, y),
                    )
                } else {
                    pixel(old(dst)@, dst_w as int, x, y)
                },
        decreases src_h - sy,
    {
        let dy: u32 = at_y + sy;
        let mut sx: u32 = 0;
        while sx < src_w && at_x < dst_w && sx < dst_w - at_x
            invariant
                sy < src_h,
                dy == at_y + sy,
                dy < dst_h,
                sx <= src_w,
                sx == 0 || at_x + sx <= dst_w,
                dst_w * dst_h * 4 <= u32::MAX,
                dst@.len() == dst_w * dst_h * 4,
                src_w * src_h * 4 <= u32::MAX,
                src@.len() == src_w * src_h * 4,
                forall|x: int, y: int|
                    0 <= x < dst_w && 0 <= y < dst_h ==> #[trigger] pixel(dst@, dst_w as int, x, y)
                        == if y < dy || (y == dy && x < at_x + sx) {
                        painted(
                            src@,
                            src_w as int,
                            src_h as int,
                            at_x as int,
                            at_y as int,
                            x,
                            y,
                            pixel(old(dst)@, dst_w as int, x, y),
                        )
                    } else {
                        pixel(old(dst)@, dst_w as int, x, y)
                    },
            decreases src_w - sx,
        {
            let dx: u32 = at_x + sx;
            let s: Pixel = peek(src, src_w, src_h, sx, sy);
            let d: Pixel = peek(dst.as_slice(), dst_w, dst_h, dx, dy);
            assert(d == pixel(dst@, dst_w as int, dx as int, dy as int));
            put(dst, dst_w, dst_h, dx, dy, paint(s, d));
            sx = sx + 1;
        }
        sy = sy + 1;
    }
}

// --- laws ------------------------------------------------------------------

/// Painting over never makes a pixel more transparent than it or the paint
/// was.
pub proof fn painting_never_fades(s: Pixel, d: Pixel)
    ensures
        over(s, d).3 >= s.3,
        over(s, d).3 >= d.3,
{
    let sa = s.3 as int;
    let da = d.3 as int;
    lemma_mix(0, da, sa);
    assert(da * (255 - sa) >= 255 * (da - sa)) by (nonlinear_arith)
        requires
            0 <= da <= 255,
            0 <= sa <= 255,
    ;
}

/// Clear paint changes nothing, and opaque paint covers everything.
pub proof fn paint_at_its_ends(s: Pixel, d: Pixel)
    ensures
        s.3 == 0 ==> over(s, d) == d,
        s.3 == 255 ==> over(s, d) == s,
        d.3 == 0 && s.3 != 0 ==> over(s, d) == s,
{
}

/// A blend lies between the two colours it is made of.
pub proof fn mixing_stays_between(s: u8, d: u8, sa: u8)
    ensures
        s <= mixed(s, d, sa) <= d || d <= mixed(s, d, sa) <= s,
{
    let a = sa as int;
    let x = s as int;
    let y = d as int;
    lemma_mix(x, y, a);
    if x <= y {
        assert(255 * x <= x * a + y * (255 - a) <= 255 * y) by (nonlinear_arith)
            requires
                0 <= x <= y,
                0 <= a <= 255,
        ;
    } else {
        assert(255 * y <= x * a + y * (255 - a) <= 255 * x) by (nonlinear_arith)
            requires
                0 <= y <= x,
                0 <= a <= 255,
        ;
    }
}

} // verus!
