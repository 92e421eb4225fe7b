//! What holds of pictures: how pixels blend and are packed, and how the splash
//! is put together.
use vstd::prelude::*;

use crate::pixels::{mixed, over, painted, pixel, Pixel};
use crate::scalar::{one_s, zero_s, Fixed, Scalar};
use crate::splash::{
    arranged, background, bounds, byte_of, ink, packed_over, premultiplied, shaded, tinted,
    PlacedGlyph, SplashConfig,
};
use crate::text::widest;

verus! {

// --- blending --------------------------------------------------------------

/// The channels of a blend do not mix: each comes of its own two, and the two
/// alphas.
pub proof fn channels_blend_apart(s: Pixel, d: Pixel, e: Pixel, f: Pixel)
    requires
        s.3 == e.3,
        d.3 == f.3,
    ensures
        s.0 == e.0 && d.0 == f.0 ==> over(s, d).0 == over(e, f).0,
        s.1 == e.1 && d.1 == f.1 ==> over(s, d).1 == over(e, f).1,
        s.2 == e.2 && d.2 == f.2 ==> over(s, d).2 == over(e, f).2,
        over(s, d).3 == over(e, f).3,
{
}

/// Blending treats the colours alike: change two of them about in both pixels,
/// and they are changed about in the blend.
pub proof fn colours_blend_alike(s: Pixel, d: Pixel)
    ensures
        over((s.1, s.0, s.2, s.3), (d.1, d.0, d.2, d.3)).0 == over(s, d).1,
        over((s.2, s.1, s.0, s.3), (d.2, d.1, d.0, d.3)).0 == over(s, d).2,
{
}

/// The more opaque the paint, the nearer the blend is to it; and the blend of
/// a brighter paint, or over a brighter ground, is no darker.
pub proof fn opaque_paint_counts_more(s: u8, d: u8, a: u8, b: u8, brighter: u8)
    requires
        a <= b,
        s <= brighter,
    ensures
        d <= s ==> mixed(s, d, a) <= mixed(s, d, b),
        s <= d ==> mixed(s, d, b) <= mixed(s, d, a),
        mixed(s, d, a) <= mixed(brighter, d, a),
        mixed(d, s, a) <= mixed(d, brighter, a),
{
    lemma_mixed(s as int, d as int, a as int);
    lemma_mixed(s as int, d as int, b as int);
    lemma_mixed(brighter as int, d as int, a as int);
    lemma_mixed(d as int, s as int, a as int);
    lemma_mixed(d as int, brighter as int, a as int);
    assert(d <= s ==> s * a + d * (255 - a) <= s * b + d * (255 - b)) by (nonlinear_arith)
        requires
            a <= b,
    ;
    assert(s <= d ==> s * b + d * (255 - b) <= s * a + d * (255 - a)) by (nonlinear_arith)
        requires
            a <= b,
    ;
    assert(s * a <= brighter * a && s * (255 - a) <= brighter * (255 - a)) by (nonlinear_arith)
        requires
            s <= brighter,
            0 <= a <= 255,
    ;
}

proof fn lemma_mixed(s: int, d: int, a: int)
    requires
        0 <= s <= 255,
        0 <= d <= 255,
        0 <= a <= 255,
    ensures
        0 <= (s * a + d * (255 - a)) / 255 <= 255,
        s * a <= 255 * a,
        d * (255 - a) <= 255 * (255 - a),
{
    assert(0 <= s * a <= 255 * a && 0 <= d * (255 - a) <= 255 * (255 - a)) by (nonlinear_arith)
        requires
            0 <= s <= 255,
            0 <= d <= 255,
            0 <= a <= 255,
    ;
}

/// A picture painted at a place puts its own corner there, and changes nothing
/// outside itself.
pub proof fn pictures_are_painted_in_place(
    src: Seq<u8>,
    w: int,
    h: int,
    at_x: int,
    at_y: int,
    x: int,
    y: int,
    d: Pixel,
)
    ensures
        0 <= x < w && 0 <= y < h ==> painted(src, w, h, at_x, at_y, at_x + x, at_y + y, d) == over(
            pixel(src, w, x, y),
            d,
        ),
        x < 0 || y < 0 || w <= x || h <= y ==> painted(
            src,
            w,
            h,
            at_x,
            at_y,
            at_x + x,
            at_y + y,
            d,
        ) == d,
{
}

// --- packing ---------------------------------------------------------------

/// Multiplying alpha in turns the channels round to blue, green, red, and
/// leaves an opaque pixel as bright as it is and a clear one black. Of two
/// pixels the brighter stays no darker.
pub proof fn alpha_is_multiplied_in(p: Pixel, q: Pixel)
    ensures
        p.3 == 255 ==> premultiplied(p) == (p.2, p.1, p.0, 255u8),
        p.3 == 0 ==> premultiplied(p) == (0u8, 0u8, 0u8, 0u8),
        p.0 <= q.0 && p.3 == q.3 ==> premultiplied(p).2 <= premultiplied(q).2,
        p.1 <= q.1 && p.3 == q.3 ==> premultiplied(p).1 <= premultiplied(q).1,
        p.2 <= q.2 && p.3 == q.3 ==> premultiplied(p).0 <= premultiplied(q).0,
        p.0 == q.0 && p.3 == q.3 ==> premultiplied(p).2 == premultiplied(q).2,
{
    lemma_scaled(p.0 as int, q.0 as int, p.3 as int);
    lemma_scaled(p.1 as int, q.1 as int, p.3 as int);
    lemma_scaled(p.2 as int, q.2 as int, p.3 as int);
}

proof fn lemma_scaled(a: int, b: int, s: int)
    requires
        0 <= a <= 255,
        0 <= b <= 255,
        0 <= s <= 255,
    ensures
        0 <= (a * s) / 255 <= 255,
        0 <= (b * s) / 255 <= 255,
        a <= b ==> (a * s) / 255 <= (b * s) / 255,
        (a * 255) / 255 == a,
        a * 0 == 0,
{
    assert(0 <= a * s <= 65025 && 0 <= b * s <= 65025 && (a <= b ==> a * s <= b * s))
        by (nonlinear_arith)
        requires
            0 <= a <= 255,
            0 <= b <= 255,
            0 <= s <= 255,
    ;
}

/// A pixel on a background is packed red over green over blue, each in a byte
/// of its own, above them nothing.
pub proof fn bytes_are_packed_in_order<S: Scalar>(p: Pixel, bg: [S; 4])
    requires
        background(bg, 0) <= 255,
        background(bg, 1) <= 255,
        background(bg, 2) <= 255,
    ensures
        packed_over(p, bg) == shaded(p.0, background(bg, 0), p.3) * 65536 + shaded(
            p.1,
            background(bg, 1),
            p.3,
        ) * 256 + shaded(p.2, background(bg, 2), p.3),
        packed_over(p, bg) <= 0xff_ffff,
        p.3 == 255 ==> packed_over(p, bg) == p.0 * 65536 + p.1 * 256 + p.2,
        p.3 == 0 ==> packed_over(p, bg) == background(bg, 0) * 65536 + background(bg, 1) * 256
            + background(bg, 2),
{
    let r = shaded(p.0, background(bg, 0), p.3);
    let g = shaded(p.1, background(bg, 1), p.3);
    let b = shaded(p.2, background(bg, 2), p.3);
    lemma_mixed(p.0 as int, background(bg, 0) as int, p.3 as int);
    lemma_mixed(p.1 as int, background(bg, 1) as int, p.3 as int);
    lemma_mixed(p.2 as int, background(bg, 2) as int, p.3 as int);
    assert(r <= 255 && g <= 255 && b <= 255);
    assert((r << 16u32) | (g << 8u32) | b == r * 65536 + g * 256 + b) by (bit_vector)
        requires
            r <= 255,
            g <= 255,
            b <= 255,
    ;
    crate::splash::background_shows_through(p.0, background(bg, 0));
    crate::splash::background_shows_through(p.1, background(bg, 1));
    crate::splash::background_shows_through(p.2, background(bg, 2));
}

// --- the word --------------------------------------------------------------

/// A glyph's mask stands as far right of the glyph's place, and as far above
/// it, as its bearings say, and inks row by row from there.
pub proof fn masks_stand_at_their_bearings(g: PlacedGlyph, col: int, row: int)
    requires
        g.drawn(),
    ensures
        ({
            let m = g.mask->Some_0;
            &&& g.left() - g.x == m.left
            &&& g.y - g.top() == m.top
            &&& 0 <= col < m.width && 0 <= row < m.height ==> g.ink(
                g.x + m.left + col,
                g.y - m.top + row,
            ) == m.data@[row * m.width + col]
            &&& col < 0 || row < 0 || m.width <= col || m.height <= row ==> g.ink(
                g.x + m.left + col,
                g.y - m.top + row,
            ) == 0
        }),
{
}

/// A word is inked where one of its glyphs is, by the last that is.
pub proof fn the_last_glyph_inks(gs: Seq<PlacedGlyph>, x: int, y: int, i: int)
    requires
        0 <= i < gs.len(),
        forall|j: int| i < j < gs.len() ==> (#[trigger] gs[j]).ink(x, y) == 0,
    ensures
        gs[i].ink(x, y) != 0 ==> ink(gs, x, y) == gs[i].ink(x, y),
    decreases gs.len(),
{
    if i < gs.len() - 1 {
        assert(gs[gs.len() - 1].ink(x, y) == 0);
        let t = gs.drop_last();
        assert forall|j: int| i < j < t.len() implies (#[trigger] t[j]).ink(x, y) == 0 by {
            assert(gs[j].ink(x, y) == 0);
        }
        the_last_glyph_inks(t, x, y, i);
    }
}

/// Where no glyph inks, the word does not.
pub proof fn bare_places_stay_bare(gs: Seq<PlacedGlyph>, x: int, y: int)
    requires
        forall|j: int| 0 <= j < gs.len() ==> (#[trigger] gs[j]).ink(x, y) == 0,
    ensures
        ink(gs, x, y) == 0,
    decreases gs.len(),
{
    if gs.len() > 0 {
        let t = gs.drop_last();
        assert forall|j: int| 0 <= j < t.len() implies (#[trigger] t[j]).ink(x, y) == 0 by {
            assert(gs[j].ink(x, y) == 0);
        }
        assert(gs[gs.len() - 1].ink(x, y) == 0);
        bare_places_stay_bare(t, x, y);
    }
}

/// Whether some drawn glyph reaches each side of a box.
pub open spec fn reached(gs: Seq<PlacedGlyph>, x0: int, y0: int, x1: int, y1: int) -> bool {
    &&& exists|i: int| 0 <= i < gs.len() && (#[trigger] gs[i]).drawn() && gs[i].left() == x0
    &&& exists|i: int| 0 <= i < gs.len() && (#[trigger] gs[i]).drawn() && gs[i].top() == y0
    &&& exists|i: int|
        0 <= i < gs.len() && (#[trigger] gs[i]).drawn() && gs[i].left()
            + gs[i].mask->Some_0.width == x1
    &&& exists|i: int|
        0 <= i < gs.len() && (#[trigger] gs[i]).drawn() && gs[i].top()
            + gs[i].mask->Some_0.height == y1
}

/// The box of a word is no larger than its glyphs make it: each side of it is
/// one of theirs. A word of which nothing is drawn has none.
pub proof fn words_are_cropped(gs: Seq<PlacedGlyph>)
    requires
        forall|j: int| 0 <= j < gs.len() ==> (#[trigger] gs[j]).fits(),
    ensures
        bounds(gs) matches Some(b) ==> reached(
            gs,
            b.x0 as int,
            b.y0 as int,
            b.x1 as int,
            b.y1 as int,
        ),
        bounds(gs) is None <==> forall|j: int| 0 <= j < gs.len() ==> !(#[trigger] gs[j]).drawn(),
    decreases gs.len(),
{
    if gs.len() > 0 {
        let t = gs.drop_last();
        let g = gs.last();
        assert(gs[gs.len() - 1] == g);
        assert(g.fits());
        assert forall|j: int| 0 <= j < t.len() implies (#[trigger] t[j]).fits() by {
            assert(gs[j].fits());
        }
        words_are_cropped(t);
        assert forall|j: int| 0 <= j < t.len() implies #[trigger] t[j] == gs[j] by {}
        if let Some(b) = bounds(t) {
            let i0 = choose|i: int|
                0 <= i < t.len() && (#[trigger] t[i]).drawn() && t[i].left() == b.x0;
            let i1 = choose|i: int|
                0 <= i < t.len() && (#[trigger] t[i]).drawn() && t[i].top() == b.y0;
            let i2 = choose|i: int|
                0 <= i < t.len() && (#[trigger] t[i]).drawn() && t[i].left()
                    + t[i].mask->Some_0.width == b.x1;
            let i3 = choose|i: int|
                0 <= i < t.len() && (#[trigger] t[i]).drawn() && t[i].top()
                    + t[i].mask->Some_0.height == b.y1;
            assert(gs[i0] == t[i0] && gs[i1] == t[i1] && gs[i2] == t[i2] && gs[i3] == t[i3]);
        } else {
            if g.drawn() {
                assert(gs[gs.len() - 1].drawn());
            }
            assert forall|j: int| 0 <= j < gs.len() - 1 implies !(#[trigger] gs[j]).drawn() by {
                assert(t[j] == gs[j]);
            }
        }
        if bounds(gs) is Some && bounds(t) is Some {
            let i = choose|i: int|
                0 <= i < t.len() && (#[trigger] t[i]).drawn() && t[i].left()
                    == bounds(t)->Some_0.x0;
            assert(gs[i].drawn());
        }
    }
}

/// Ink takes the colour it is told, and as much of its alpha as there is ink:
/// channels in order, more of a channel never less of it, no ink no colour.
pub proof fn ink_takes_the_colour(color: [Fixed; 4], other: [Fixed; 4], cov: u8)
    requires
        cov > 0,
    ensures
        color[0].raw <= other[0].raw ==> tinted(color, cov).0 <= tinted(other, cov).0,
        color[1].raw <= other[1].raw ==> tinted(color, cov).1 <= tinted(other, cov).1,
        color[2].raw <= other[2].raw ==> tinted(color, cov).2 <= tinted(other, cov).2,
        color[0].raw <= 0 ==> tinted(color, cov).0 == 0,
        color[0].raw == 65536 ==> tinted(color, cov).0 == 255,
        color[1].raw == 65536 ==> tinted(color, cov).1 == 255,
        color[2].raw == 65536 ==> tinted(color, cov).2 == 255,
        color[3].raw == 65536 ==> tinted(color, cov).3 == cov,
        color[3].raw == 0 ==> tinted(color, cov).3 == 0,
        tinted(color, 0).3 == 0,
{
    assert(Fixed::rat(255, 1).raw == 16711680);
    assert(Fixed::cnt(cov as u64).raw == cov * 65536);
    lemma_byte(color[0], other[0]);
    lemma_byte(color[1], other[1]);
    lemma_byte(color[2], other[2]);
    assert(((cov * 65536) * 65536) / 65536 == cov * 65536);
    assert((cov * 65536int) / 65536 == cov);
    assert((cov * 65536) * 0 == 0);
}

proof fn lemma_byte(a: Fixed, b: Fixed)
    ensures
        a.raw <= b.raw ==> byte_of(a.prod(Fixed::rat(255, 1))) <= byte_of(
            b.prod(Fixed::rat(255, 1)),
        ),
        a.raw <= 0 ==> byte_of(a.prod(Fixed::rat(255, 1))) == 0,
        a.raw == 65536 ==> byte_of(a.prod(Fixed::rat(255, 1))) == 255,
{
    assert(Fixed::rat(255, 1).raw == 16711680);
    assert(a.raw * 16711680 == (a.raw * 255) * 65536);
    assert(b.raw * 16711680 == (b.raw * 255) * 65536);
    assert((a.raw * 16711680) / 65536 == a.raw * 255);
    assert((b.raw * 16711680) / 65536 == b.raw * 255);
}

// --- layout ----------------------------------------------------------------

/// The taller of mark and word fills the height, and the other is centred in
/// it, to the pixel. Without a word the picture is as wide as the mark.
pub proof fn mark_and_word_are_centred(edge: int, gap: int, word: (int, int))
    requires
        edge >= 1,
        gap >= 0,
        word.0 >= 0,
        word.1 >= 0,
    ensures
        ({
            let p = arranged(edge, gap, word);
            let above_mark = p.logo_y;
            let below_mark = p.h - p.logo_y - edge;
            let above_word = p.word_y;
            let below_word = p.h - p.word_y - word.1;
            &&& p.h == edge || p.h == word.1
            &&& p.h >= edge && p.h >= word.1
            &&& above_mark <= below_mark <= above_mark + 1
            &&& above_word <= below_word <= above_word + 1
            &&& p.word_x - edge == gap
            &&& word.0 == 0 ==> p.w == edge
        }),
{
}

/// A larger scale never makes the mark or the gap smaller.
pub proof fn sizes_grow_with_the_scale(c: SplashConfig<Fixed>, a: Fixed, b: Fixed)
    requires
        a.raw <= b.raw,
        0 <= c.logo_px.raw,
        0 <= c.gap_px.raw,
    ensures
        c.logo_edge(a) <= c.logo_edge(b),
        c.gap(a) <= c.gap(b),
        1 <= c.logo_edge(a),
{
    let x = SplashConfig::<Fixed>::held_scale(a);
    let y = SplashConfig::<Fixed>::held_scale(b);
    assert(zero_s::<Fixed>().raw == 0 && one_s::<Fixed>().raw == 65536);
    assert(x.raw <= y.raw);
    assert((c.logo_px.raw * x.raw) / 65536 <= (c.logo_px.raw * y.raw) / 65536 && (c.gap_px.raw
        * x.raw) / 65536 <= (c.gap_px.raw * y.raw) / 65536) by (nonlinear_arith)
        requires
            x.raw <= y.raw,
            0 <= c.logo_px.raw,
            0 <= c.gap_px.raw,
    ;
}

// --- text ------------------------------------------------------------------

/// A text is as wide as one of its lines, and nothing if there is none.
pub proof fn texts_are_as_wide_as_a_line(lines: Seq<Fixed>)
    requires
        forall|i: int| 0 <= i < lines.len() ==> 0 <= (#[trigger] lines[i]).raw,
    ensures
        lines.len() == 0 ==> widest(lines).raw == 0,
        lines.len() > 0 ==> exists|i: int|
            0 <= i < lines.len() && (#[trigger] lines[i]).raw == widest(lines).raw,
        forall|i: int| 0 <= i < lines.len() ==> (#[trigger] lines[i]).raw <= widest(lines).raw,
        0 <= widest(lines).raw,
    decreases lines.len(),
{
    assert(zero_s::<Fixed>().raw == 0);
    if lines.len() > 0 {
        let t = lines.drop_last();
        assert forall|i: int| 0 <= i < t.len() implies 0 <= (#[trigger] t[i]).raw by {
            assert(0 <= lines[i].raw);
        }
        texts_are_as_wide_as_a_line(t);
        let n = lines.len() - 1;
        assert(0 <= lines[n].raw);
        if t.len() > 0 && widest(t).raw >= lines[n].raw {
            let i = choose|i: int| 0 <= i < t.len() && (#[trigger] t[i]).raw == widest(t).raw;
            assert(lines[i] == t[i]);
        } else {
            assert(lines[n].raw == widest(lines).raw);
        }
        assert forall|i: int| 0 <= i < lines.len() implies (#[trigger] lines[i]).raw <= widest(
            lines,
        ).raw by {
            if i < n {
                assert(t[i] == lines[i]);
            }
        }
    }
}

} // verus!
