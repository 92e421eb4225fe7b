//! The picture shown while the GPU starts: a mark with a word beside it,
//! painted without a GPU.
//!
//! The host rasterises the mark and shapes the word; what it hands in is laid
//! out and composed here.
use vstd::prelude::*;

use crate::pixels::{
    blank, blit_over, clear, lemma_offset, over, painted, peek, pixel, put, Pixel,
};
use crate::scalar::{one, one_s, zero, zero_s, Scalar};
use crate::text::RasterizedGlyph;

verus! {

/// What the splash shows. Sizes are in logical pixels.
#[derive(Debug)]
pub struct SplashConfig<S> {
    /// The mark, as SVG text.
    pub logo_svg: Vec<u8>,
    /// The word beside it.
    pub wordmark: String,
    /// Edge length of the mark.
    pub logo_px: S,
    /// Font size of the word.
    pub wordmark_px: S,
    /// Gap between mark and word.
    pub gap_px: S,
    pub wordmark_color: [S; 4],
    /// Background, where a window cannot be transparent.
    pub bg_color: [S; 4],
}

/// A glyph of the word, with its mask if it has one.
#[derive(Debug)]
pub struct PlacedGlyph {
    pub x: i32,
    pub y: i32,
    pub mask: Option<RasterizedGlyph>,
}

// --- sizes -----------------------------------------------------------------

impl<S: Scalar> SplashConfig<S> {
    /// The scale in use: at least a tenth.
    pub open spec fn held_scale(scale: S) -> S {
        scale.hi(S::rat(1, 10))
    }

    /// Edge of the mark in physical pixels, at least one.
    pub open spec fn logo_edge(self, scale: S) -> u32 {
        self.logo_px.prod(Self::held_scale(scale)).rnd().hi(one_s()).whole()
    }

    /// Gap in physical pixels.
    pub open spec fn gap(self, scale: S) -> u32 {
        self.gap_px.prod(Self::held_scale(scale)).rnd().hi(zero_s()).whole()
    }

    /// Edge of the mark in physical pixels: what the host rasterises it to.
    pub fn logo_side(&self, scale: S) -> (r: u32)
        ensures
            r == self.logo_edge(scale),
    {
        self.logo_px.times(scale.larger(S::ratio(1, 10))).round().larger(one()).to_u32()
    }

    /// Gap in physical pixels.
    pub fn gap_width(&self, scale: S) -> (r: u32)
        ensures
            r == self.gap(scale),
    {
        self.gap_px.times(scale.larger(S::ratio(1, 10))).round().larger(zero()).to_u32()
    }

    /// Font size and line height of the word in physical pixels: what the host
    /// shapes it at.
    pub fn wordmark_size(&self, scale: S) -> (r: (S, S))
        ensures
            r.0 == self.wordmark_px.prod(Self::held_scale(scale)),
            r.1 == r.0.prod(S::rat(125, 100)),
    {
        let size: S = self.wordmark_px.times(scale.larger(S::ratio(1, 10)));
        (size, size.times(S::ratio(125, 100)))
    }
}

// --- the word --------------------------------------------------------------

/// Coverage of a mask at a place counted from its corner; nothing outside it.
pub open spec fn mask_at(m: RasterizedGlyph, x: int, y: int) -> u8 {
    if 0 <= x < m.width && 0 <= y < m.height {
        m.data@[y * m.width + x]
    } else {
        0
    }
}

impl PlacedGlyph {
    /// Whether there is anything to paint.
    pub open spec fn drawn(self) -> bool {
        self.mask matches Some(m) && m.width != 0 && m.height != 0
    }

    /// Left edge of the mask.
    pub open spec fn left(self) -> int {
        self.x + self.mask->Some_0.left
    }

    /// Top edge of the mask.
    pub open spec fn top(self) -> int {
        self.y - self.mask->Some_0.top
    }

    /// Coverage at a place.
    pub open spec fn ink(self, x: int, y: int) -> u8 {
        if self.drawn() {
            mask_at(self.mask->Some_0, x - self.left(), y - self.top())
        } else {
            0
        }
    }

    /// Whether the mask is whole and lies in the range of coordinates.
    pub open spec fn fits(self) -> bool {
        self.drawn() ==> {
            let m = self.mask->Some_0;
            &&& m.width * m.height <= u32::MAX
            &&& m.data@.len() == m.width * m.height
            &&& i32::MIN <= self.left()
            &&& self.left() + m.width <= i32::MAX
            &&& i32::MIN <= self.top()
            &&& self.top() + m.height <= i32::MAX
        }
    }
}

/// A box, right and bottom edges excluded.
#[derive(Copy, Clone, Debug)]
pub struct Bounds {
    pub x0: i32,
    pub y0: i32,
    pub x1: i32,
    pub y1: i32,
}

/// The box of a glyph.
pub open spec fn glyph_bounds(g: PlacedGlyph) -> Bounds {
    Bounds {
        x0: g.left() as i32,
        y0: g.top() as i32,
        x1: (g.left() + g.mask->Some_0.width) as i32,
        y1: (g.top() + g.mask->Some_0.height) as i32,
    }
}

/// The smallest box around two.
pub open spec fn joined(a: Bounds, b: Bounds) -> Bounds {
    Bounds {
        x0: if b.x0 < a.x0 {
            b.x0
        } else {
            a.x0
        },
        y0: if b.y0 < a.y0 {
            b.y0
        } else {
            a.y0
        },
        x1: if b.x1 > a.x1 {
            b.x1
        } else {
            a.x1
        },
        y1: if b.y1 > a.y1 {
            b.y1
        } else {
            a.y1
        },
    }
}

/// The smallest box around all glyphs that are drawn, if any is.
pub open spec fn bounds(gs: Seq<PlacedGlyph>) -> Option<Bounds>
    decreases gs.len(),
{
    if gs.len() == 0 {
        None
    } else {
        let before = bounds(gs.drop_last());
        let g = gs.last();
        if !g.drawn() {
            before
        } else {
            match before {
                None => Some(glyph_bounds(g)),
                Some(b) => Some(joined(b, glyph_bounds(g))),
            }
        }
    }
}

/// Coverage at a place: that of the last glyph with any there.
pub open spec fn ink(gs: Seq<PlacedGlyph>, x: int, y: int) -> u8
    decreases gs.len(),
{
    if gs.len() == 0 {
        0
    } else if gs.last().ink(x, y) != 0 {
        gs.last().ink(x, y)
    } else {
        ink(gs.drop_last(), x, y)
    }
}

/// A number cut to a byte.
pub open spec fn byte_of<S: Scalar>(x: S) -> u8 {
    if x.whole() > 255 {
        255
    } else {
        x.whole() as u8
    }
}

fn byte<S: Scalar>(x: S) -> (r: u8)
    ensures
        r == byte_of(x),
{
    let n: u32 = x.to_u32();
    if n > 255 {
        255
    } else {
        n as u8
    }
}

/// A pixel of the word: the colour, with the coverage for its alpha.
pub open spec fn tinted<S: Scalar>(color: [S; 4], cov: u8) -> Pixel {
    if cov == 0 {
        clear()
    } else {
        (
            byte_of(color[0].prod(S::rat(255, 1))),
            byte_of(color[1].prod(S::rat(255, 1))),
            byte_of(color[2].prod(S::rat(255, 1))),
            byte_of(S::cnt(cov as u64).prod(color[3])),
        )
    }
}

fn tint<S: Scalar>(color: &[S; 4], cov: u8) -> (r: Pixel)
    requires
        cov != 0,
    ensures
        r == tinted(*color, cov),
{
    (
        byte(color[0].times(S::ratio(255, 1))),
        byte(color[1].times(S::ratio(255, 1))),
        byte(color[2].times(S::ratio(255, 1))),
        byte(S::count(cov as u64).times(color[3])),
    )
}

/// The width and height of the word.
pub open spec fn word_size(gs: Seq<PlacedGlyph>) -> (int, int) {
    match bounds(gs) {
        Some(b) => (b.x1 - b.x0, b.y1 - b.y0),
        None => (0, 0),
    }
}

/// The pixel of the word at a place counted from its corner.
pub open spec fn word_pixel<S: Scalar>(
    gs: Seq<PlacedGlyph>,
    color: [S; 4],
    x: int,
    y: int,
) -> Pixel {
    match bounds(gs) {
        Some(b) => tinted(color, ink(gs, b.x0 + x, b.y0 + y)),
        None => clear(),
    }
}

/// Whether a word can be painted: its glyphs fit, and its picture does.
pub open spec fn word_fits(gs: Seq<PlacedGlyph>) -> bool {
    &&& forall|i: int| 0 <= i < gs.len() ==> (#[trigger] gs[i]).fits()
    &&& word_size(gs).0 <= i32::MAX
    &&& word_size(gs).1 <= i32::MAX
    &&& word_size(gs).0 * word_size(gs).1 * 4 <= u32::MAX
}

/// Every glyph that is drawn lies in the box of the word.
pub proof fn glyphs_lie_within(gs: Seq<PlacedGlyph>, i: int)
    requires
        0 <= i < gs.len(),
        gs[i].drawn(),
        forall|j: int| 0 <= j < gs.len() ==> (#[trigger] gs[j]).fits(),
    ensures
        bounds(gs) matches Some(b) && b.x0 <= gs[i].left() && b.y0 <= gs[i].top() && gs[i].left()
            + gs[i].mask->Some_0.width <= b.x1 && gs[i].top() + gs[i].mask->Some_0.height <= b.y1,
    decreases gs.len(),
{
    assert(gs[i].fits());
    assert(gs.last().fits());
    if i < gs.len() - 1 {
        let t = gs.drop_last();
        assert forall|j: int| 0 <= j < t.len() implies (#[trigger] t[j]).fits() by {
            assert(gs[j].fits());
        }
        glyphs_lie_within(t, i);
    }
}

fn bounds_of(gs: &[PlacedGlyph]) -> (r: Option<Bounds>)
    requires
        forall|i: int| 0 <= i < gs@.len() ==> (#[trigger] gs@[i]).fits(),
    ensures
        r == bounds(gs@),
{
    let mut out: Option<Bounds> = None;
    let mut i: usize = 0;
    assert(gs@.take(0) =~= Seq::empty());
    while i < gs.len()
        invariant
            i <= gs.len(),
            forall|j: int| 0 <= j < gs@.len() ==> (#[trigger] gs@[j]).fits(),
            out == bounds(gs@.take(i as int)),
        decreases gs.len() - i,
    {
        proof {
            assert(gs@.take(i + 1).drop_last() =~= gs@.take(i as int));
            assert(gs@.take(i + 1).last() == gs@[i as int]);
            assert(gs@[i as int].fits());
        }
        if let Some(m) = &gs[i].mask {
            if m.width != 0 && m.height != 0 {
                let gx: i32 = gs[i].x + m.left;
                let gy: i32 = gs[i].y - m.top;
                assert(m.width <= u32::MAX && m.height <= u32::MAX);
                let rx: i32 = (gx as i64 + m.width as i64) as i32;
                let ry: i32 = (gy as i64 + m.height as i64) as i32;
                out = Some(
                    match out {
                        None => Bounds { x0: gx, y0: gy, x1: rx, y1: ry },
                        Some(b) => Bounds {
                            x0: if gx < b.x0 {
                                gx
                            } else {
                                b.x0
                            },
                            y0: if gy < b.y0 {
                                gy
                            } else {
                                b.y0
                            },
                            x1: if rx > b.x1 {
                                rx
                            } else {
                                b.x1
                            },
                            y1: if ry > b.y1 {
                                ry
                            } else {
                                b.y1
                            },
                        },
                    },
                );
            }
        }
        i = i + 1;
    }
    assert(gs@.take(gs@.len() as int) =~= gs@);
    out
}

/// The size of a word, if it can be painted.
pub fn word_extent(gs: &[PlacedGlyph]) -> (r: Option<(u32, u32)>)
    ensures
        match r {
            Some(size) => word_fits(gs@) && size.0 == word_size(gs@).0 && size.1 == word_size(
                gs@,
            ).1,
            None => !word_fits(gs@),
        },
{
    let mut i: usize = 0;
    while i < gs.len()
        invariant
            i <= gs.len(),
            forall|j: int| 0 <= j < i ==> (#[trigger] gs@[j]).fits(),
        decreases gs.len() - i,
    {
        if !glyph_fits(&gs[i]) {
            assert(!gs@[i as int].fits());
            return None;
        }
        i = i + 1;
    }
    proof {
        lemma_bounds_order(gs@);
    }
    match bounds_of(gs) {
        None => Some((0, 0)),
        Some(b) => {
            let w: i64 = b.x1 as i64 - b.x0 as i64;
            let h: i64 = b.y1 as i64 - b.y0 as i64;
            if w > i32::MAX as i64 || h > i32::MAX as i64 {
                return None;
            }
            assert(0 <= w * h <= 0x7fff_ffff * 0x7fff_ffff) by (nonlinear_arith)
                requires
                    0 <= w <= 0x7fff_ffff,
                    0 <= h <= 0x7fff_ffff,
            ;
            if w * h > 0x3fff_ffff {
                return None;
            }
            Some((w as u32, h as u32))
        },
    }
}

fn glyph_fits(g: &PlacedGlyph) -> (r: bool)
    ensures
        r == g.fits(),
{
    match &g.mask {
        Some(m) => {
            if m.width == 0 || m.height == 0 {
                return true;
            }
            assert(0 <= m.width * m.height <= 0xffff_ffff * 0xffff_ffff) by (nonlinear_arith)
                requires
                    0 <= m.width <= 0xffff_ffff,
                    0 <= m.height <= 0xffff_ffff,
            ;
            let area: u64 = m.width as u64 * m.height as u64;
            let left: i64 = g.x as i64 + m.left as i64;
            let top: i64 = g.y as i64 - m.top as i64;
            area <= u32::MAX as u64 && m.data.len() as u64 == area && left >= i32::MIN as i64
                && left + m.width as i64 <= i32::MAX as i64 && top >= i32::MIN as i64 && top
                + m.height as i64 <= i32::MAX as i64
        },
        None => true,
    }
}

/// Paint one mask: where it covers anything, the pixel becomes the tinted
/// coverage.
fn stamp<S: Scalar>(
    canvas: &mut Vec<u8>,
    w: u32,
    h: u32,
    ox: u32,
    oy: u32,
    m: &RasterizedGlyph,
    color: &[S; 4],
)
    requires
        w * h * 4 <= u32::MAX,
        old(canvas)@.len() == w * h * 4,
        ox + m.width <= w,
        oy + m.height <= h,
        m.width * m.height <= u32::MAX,
        m.data@.len() == m.width * m.height,
    ensures
        final(canvas)@.len() == old(canvas)@.len(),
        forall|x: int, y: int|
            0 <= x < w && 0 <= y < h ==> #[trigger] pixel(final(canvas)@, w as int, x, y) == if mask_at(
                *m,
                x - ox,
                y - oy,
            ) != 0 {
                tinted(*color, mask_at(*m, x - ox, y - oy))
            } else {
                pixel(old(canvas)@, w as int, x, y)
            },
{
    let mut py: u32 = 0;
    while py < m.height
        invariant
            py <= m.height,
            w * h * 4 <= u32::MAX,
            canvas@.len() == w * h * 4,
            old(canvas)@.len() == w * h * 4,
            ox + m.width <= w,
            oy + m.height <= h,
            m.width * m.height <= u32::MAX,
            m.data@.len() == m.width * m.height,
            forall|x: int, y: int|
                0 <= x < w && 0 <= y < h ==> #[trigger] pixel(canvas@, w as int, x, y) == if y < oy
                    + py && mask_at(*m, x - ox, y - oy) != 0 {
                    tinted(*color, mask_at(*m, x - ox, y - oy))
                } else {
                    pixel(old(canvas)@, w as int, x, y)
                },
        decreases m.height - py,
    {
        let mut px: u32 = 0;
        while px < m.width
            invariant
                px <= m.width,
                py < m.height,
                w * h * 4 <= u32::MAX,
                canvas@.len() == w * h * 4,
                old(canvas)@.len() == w * h * 4,
                ox + m.width <= w,
                oy + m.height <= h,
                m.width * m.height <= u32::MAX,
                m.data@.len() == m.width * m.height,
                forall|x: int, y: int|
                    0 <= x < w && 0 <= y < h ==> #[trigger] pixel(canvas@, w as int, x, y) == if (y
                        < oy + py || (y == oy + py && x < ox + px)) && mask_at(*m, x - ox, y - oy)
                        != 0 {
                        tinted(*color, mask_at(*m, x - ox, y - oy))
                    } else {
                        pixel(old(canvas)@, w as int, x, y)
                    },
            decreases m.width - px,
        {
            proof {
                lemma_offset(m.width as int, m.height as int, px as int, py as int);
            }
            let cov: u8 = m.data[(py * m.width + px) as usize];
            assert(cov == mask_at(*m, px as int, py as int));
            if cov != 0 {
                put(canvas, w, h, ox + px, oy + py, tint(color, cov));
            }
            px = px + 1;
        }
        py = py + 1;
    }
}

/// Paint a word into the smallest picture that holds it. Nothing to paint
/// gives an empty one.
pub fn build_wordmark<S: Scalar>(
    wordmark: &String,
    glyphs: &[PlacedGlyph],
    color: &[S; 4],
) -> (r: (u32, u32, Vec<u8>))
    requires
        wordmark@.len() > 0 ==> word_fits(glyphs@),
    ensures
        ({
            let gs = if wordmark@.len() > 0 {
                glyphs@
            } else {
                Seq::empty()
            };
            &&& r.0 == word_size(gs).0
            &&& r.1 == word_size(gs).1
            &&& r.2@.len() == r.0 * r.1 * 4
            &&& forall|x: int, y: int|
                0 <= x < r.0 && 0 <= y < r.1 ==> #[trigger] pixel(r.2@, r.0 as int, x, y)
                    == word_pixel(gs, *color, x, y)
        }),
{
    if wordmark.as_str().is_empty() {
        return (0, 0, Vec::new());
    }
    let b: Bounds = match bounds_of(glyphs) {
        Some(b) => b,
        None => {
            return (0, 0, Vec::new());
        },
    };
    proof {
        lemma_bounds_order(glyphs@);
    }
    let w: u32 = (b.x1 - b.x0) as u32;
    let h: u32 = (b.y1 - b.y0) as u32;
    let mut canvas: Vec<u8> = blank(w, h);
    let mut i: usize = 0;
    assert(glyphs@.take(0) =~= Seq::empty());
    while i < glyphs.len()
        invariant
            i <= glyphs.len(),
            word_fits(glyphs@),
            bounds(glyphs@) == Some(b),
            w == b.x1 - b.x0,
            h == b.y1 - b.y0,
            w * h * 4 <= u32::MAX,
            canvas@.len() == w * h * 4,
            forall|x: int, y: int|
                0 <= x < w && 0 <= y < h ==> #[trigger] pixel(canvas@, w as int, x, y) == tinted(
                    *color,
                    ink(glyphs@.take(i as int), b.x0 + x, b.y0 + y),
                ),
        decreases glyphs.len() - i,
    {
        proof {
            assert(glyphs@.take(i + 1).drop_last() =~= glyphs@.take(i as int));
            assert(glyphs@.take(i + 1).last() == glyphs@[i as int]);
            assert(glyphs@[i as int].fits());
        }
        if let Some(m) = &glyphs[i].mask {
            if m.width != 0 && m.height != 0 {
                proof {
                    glyphs_lie_within(glyphs@, i as int);
                }
                let ox: u32 = (glyphs[i].x + m.left - b.x0) as u32;
                let oy: u32 = (glyphs[i].y - m.top - b.y0) as u32;
                stamp(&mut canvas, w, h, ox, oy, m, color);
            }
        }
        i = i + 1;
    }
    assert(glyphs@.take(glyphs@.len() as int) =~= glyphs@);
    (w, h, canvas)
}

proof fn lemma_bounds_order(gs: Seq<PlacedGlyph>)
    requires
        forall|j: int| 0 <= j < gs.len() ==> (#[trigger] gs[j]).fits(),
    ensures
        bounds(gs) matches Some(b) ==> b.x0 < b.x1 && b.y0 < b.y1,
    decreases gs.len(),
{
    if gs.len() > 0 {
        let t = gs.drop_last();
        assert forall|j: int| 0 <= j < t.len() implies (#[trigger] t[j]).fits() by {
            assert(gs[j].fits());
        }
        assert(gs.last().fits());
        lemma_bounds_order(t);
    }
}

// --- the splash ------------------------------------------------------------

/// A finished splash, in physical pixels.
#[derive(Debug)]
pub struct SplashBitmap {
    pub w: u32,
    pub h: u32,
    pub rgba: Vec<u8>,
}

/// Where things go: the whole picture's size, the mark's top, the word's
/// corner.
pub struct Plan {
    pub w: int,
    pub h: int,
    pub logo_y: int,
    pub word_x: int,
    pub word_y: int,
}

/// The mark to the left, then the gap and the word, if there is one; both
/// centred vertically.
pub open spec fn arranged(edge: int, gap: int, word: (int, int)) -> Plan {
    let h = if word.1 > edge {
        word.1
    } else if edge > 1 {
        edge
    } else {
        1
    };
    Plan {
        w: edge + if word.0 > 0 {
            gap + word.0
        } else {
            0
        },
        h,
        logo_y: (h - edge) / 2,
        word_x: edge + gap,
        word_y: (h - word.1) / 2,
    }
}

impl SplashBitmap {
    pub open spec fn wf(self) -> bool {
        self.w * self.h * 4 <= u32::MAX && self.rgba@.len() == self.w * self.h * 4
    }

    /// The pixel at a place.
    pub open spec fn at(self, x: int, y: int) -> Pixel {
        pixel(self.rgba@, self.w as int, x, y)
    }

    /// Compose the splash from the rasterised mark and the shaped word. `None`
    /// if the mark was not rasterised to the size asked for.
    #[verifier::rlimit(30)]
    pub fn build<S: Scalar>(
        cfg: &SplashConfig<S>,
        logo_rgba: &[u8],
        glyphs: &[PlacedGlyph],
        scale: S,
    ) -> (r: Option<Self>)
        requires
            ({
                let edge = cfg.logo_edge(scale) as int;
                let gs = if cfg.wordmark@.len() > 0 {
                    glyphs@
                } else {
                    Seq::empty()
                };
                let plan = arranged(edge, cfg.gap(scale) as int, word_size(gs));
                &&& edge * edge * 4 <= u32::MAX
                &&& word_fits(gs)
                &&& edge + cfg.gap(scale) + word_size(gs).0 <= u32::MAX
                &&& plan.w * plan.h * 4 <= u32::MAX
            }),
        ensures
            ({
                let edge = cfg.logo_edge(scale) as int;
                let gs = if cfg.wordmark@.len() > 0 {
                    glyphs@
                } else {
                    Seq::empty()
                };
                let word = word_size(gs);
                let plan = arranged(edge, cfg.gap(scale) as int, word);
                match r {
                    None => logo_rgba@.len() != edge * edge * 4,
                    Some(b) => {
                        &&& logo_rgba@.len() == edge * edge * 4
                        &&& b.wf()
                        &&& b.w == plan.w
                        &&& b.h == plan.h
                        &&& forall|x: int, y: int|
                            0 <= x < b.w && 0 <= y < b.h ==> #[trigger] b.at(x, y) == {
                                let under = painted(
                                    logo_rgba@,
                                    edge,
                                    edge,
                                    0,
                                    plan.logo_y,
                                    x,
                                    y,
                                    clear(),
                                );
                                if plan.word_x <= x < plan.word_x + word.0 && plan.word_y <= y
                                    < plan.word_y + word.1 {
                                    over(
                                        word_pixel(
                                            gs,
                                            cfg.wordmark_color,
                                            x - plan.word_x,
                                            y - plan.word_y,
                                        ),
                                        under,
                                    )
                                } else {
                                    under
                                }
                            }
                    },
                }
            }),
    {
        let edge: u32 = cfg.logo_side(scale);
        let gap: u32 = cfg.gap_width(scale);
        proof {
            assert(0 <= edge * edge) by (nonlinear_arith)
                requires
                    0 <= edge,
            ;
        }
        if logo_rgba.len() != (edge * edge * 4) as usize {
            return None;
        }
        let ghost gs = if cfg.wordmark@.len() > 0 {
            glyphs@
        } else {
            Seq::empty()
        };
        let (word_w, word_h, word_rgba) = build_wordmark(
            &cfg.wordmark,
            glyphs,
            &cfg.wordmark_color,
        );
        let w: u32 = edge + if word_w > 0 {
            gap + word_w
        } else {
            0
        };
        let mut h: u32 = if word_h > edge {
            word_h
        } else {
            edge
        };
        if h < 1 {
            h = 1;
        }
        let ghost plan = arranged(edge as int, gap as int, word_size(gs));
        assert(w == plan.w && h == plan.h);
        let mut canvas: Vec<u8> = blank(w, h);
        let logo_y: u32 = (h - edge) / 2;
        blit_over(&mut canvas, w, h, logo_rgba, edge, edge, 0, logo_y);
        let ghost under = canvas@;
        if word_w > 0 {
            let word_x: u32 = edge + gap;
            let word_y: u32 = (h - word_h) / 2;
            blit_over(&mut canvas, w, h, word_rgba.as_slice(), word_w, word_h, word_x, word_y);
        }
        let b: SplashBitmap = SplashBitmap { w, h, rgba: canvas };
        proof {
            assert forall|x: int, y: int| 0 <= x < w && 0 <= y < h implies #[trigger] b.at(x, y) == {
                let below = painted(
                    logo_rgba@,
                    edge as int,
                    edge as int,
                    0,
                    plan.logo_y,
                    x,
                    y,
                    clear(),
                );
                if plan.word_x <= x < plan.word_x + word_size(gs).0 && plan.word_y <= y < plan.word_y
                    + word_size(gs).1 {
                    over(
                        word_pixel(gs, cfg.wordmark_color, x - plan.word_x, y - plan.word_y),
                        below,
                    )
                } else {
                    below
                }
            } by {
                assert(pixel(under, w as int, x, y) == painted(
                    logo_rgba@,
                    edge as int,
                    edge as int,
                    0,
                    logo_y as int,
                    x,
                    y,
                    clear(),
                ));
                if word_w > 0 {
                    let wx = x - plan.word_x;
                    let wy = y - plan.word_y;
                    if 0 <= wx < word_w && 0 <= wy < word_h {
                        assert(pixel(word_rgba@, word_w as int, wx, wy) == word_pixel(
                            gs,
                            cfg.wordmark_color,
                            wx,
                            wy,
                        ));
                    }
                }
            }
        }
        Some(b)
    }

    /// Blue, green, red, alpha, with the alpha multiplied in.
    pub fn bgra_premultiplied(&self) -> (r: Vec<u8>)
        requires
            self.wf(),
        ensures
            r@.len() == self.rgba@.len(),
            forall|x: int, y: int|
                0 <= x < self.w && 0 <= y < self.h ==> #[trigger] pixel(r@, self.w as int, x, y)
                    == premultiplied(self.at(x, y)),
    {
        let mut out: Vec<u8> = blank(self.w, self.h);
        let mut y: u32 = 0;
        while y < self.h
            invariant
                y <= self.h,
                self.wf(),
                out@.len() == self.w * self.h * 4,
                forall|x2: int, y2: int|
                    0 <= x2 < self.w && 0 <= y2 < y ==> #[trigger] pixel(out@, self.w as int, x2, y2)
                        == premultiplied(self.at(x2, y2)),
            decreases self.h - y,
        {
            let mut x: u32 = 0;
            while x < self.w
                invariant
                    x <= self.w,
                    y < self.h,
                    self.wf(),
                    out@.len() == self.w * self.h * 4,
                    forall|x2: int, y2: int|
                        0 <= x2 < self.w && 0 <= y2 < self.h && (y2 < y || (y2 == y && x2 < x))
                            ==> #[trigger] pixel(out@, self.w as int, x2, y2) == premultiplied(
                            self.at(x2, y2),
                        ),
                decreases self.w - x,
            {
                let p: Pixel = peek(self.rgba.as_slice(), self.w, self.h, x, y);
                put(&mut out, self.w, self.h, x, y, premultiply(p));
                x = x + 1;
            }
            y = y + 1;
        }
        out
    }

    /// Compose over an opaque background, a pixel to a word: zero, red, green,
    /// blue.
    pub fn to_u32_over<S: Scalar>(&self, bg: &[S; 4]) -> (r: Vec<u32>)
        requires
            self.wf(),
            background(*bg, 0) * 255 <= u32::MAX,
            background(*bg, 1) * 255 <= u32::MAX,
            background(*bg, 2) * 255 <= u32::MAX,
        ensures
            r@.len() == self.w * self.h,
            forall|x: int, y: int|
                #![trigger self.at(x, y)]
                0 <= x < self.w && 0 <= y < self.h ==> r@[y * self.w + x] == packed_over(
                    self.at(x, y),
                    *bg,
                ),
    {
        let br: u32 = bg[0].times(S::ratio(255, 1)).to_u32();
        let bgc: u32 = bg[1].times(S::ratio(255, 1)).to_u32();
        let bb: u32 = bg[2].times(S::ratio(255, 1)).to_u32();
        let mut out: Vec<u32> = Vec::new();
        let mut y: u32 = 0;
        while y < self.h
            invariant
                y <= self.h,
                self.wf(),
                br == background(*bg, 0),
                br * 255 <= u32::MAX,
                bgc == background(*bg, 1),
                bgc * 255 <= u32::MAX,
                bb == background(*bg, 2),
                bb * 255 <= u32::MAX,
                out@.len() == y * self.w,
                forall|x2: int, y2: int|
                    #![trigger self.at(x2, y2)]
                    0 <= x2 < self.w && 0 <= y2 < y ==> out@[y2 * self.w + x2] == packed_over(
                        self.at(x2, y2),
                        *bg,
                    ),
            decreases self.h - y,
        {
            let mut x: u32 = 0;
            while x < self.w
                invariant
                    x <= self.w,
                    y < self.h,
                    self.wf(),
                    br == background(*bg, 0),
                br * 255 <= u32::MAX,
                    bgc == background(*bg, 1),
                bgc * 255 <= u32::MAX,
                    bb == background(*bg, 2),
                bb * 255 <= u32::MAX,
                    out@.len() == y * self.w + x,
                    forall|x2: int, y2: int|
                        #![trigger self.at(x2, y2)]
                        0 <= x2 < self.w && 0 <= y2 < self.h && (y2 < y || (y2 == y && x2 < x))
                            ==> out@[y2 * self.w + x2] == packed_over(self.at(x2, y2), *bg),
                decreases self.w - x,
            {
                let p: Pixel = peek(self.rgba.as_slice(), self.w, self.h, x, y);
                let r: u32 = shade(p.0, br, p.3);
                let g: u32 = shade(p.1, bgc, p.3);
                let b: u32 = shade(p.2, bb, p.3);
                let ghost before = out@;
                out.push((r << 16u32) | (g << 8u32) | b);
                assert forall|x2: int, y2: int|
                    #![trigger self.at(x2, y2)]
                    0 <= x2 < self.w && 0 <= y2 < self.h && (y2 < y || (y2 == y && x2 < x
                        + 1)) implies out@[y2 * self.w + x2] == packed_over(self.at(x2, y2), *bg) by {
                    if y2 < y || x2 < x {
                        assert(0 <= y2 * self.w + x2 < y * self.w + x) by (nonlinear_arith)
                            requires
                                0 <= y2,
                                0 <= x2 < self.w,
                                y2 < y || (y2 == y && x2 < x),
                        ;
                        assert(out@[y2 * self.w + x2] == before[y2 * self.w + x2]);
                    }
                }
                x = x + 1;
            }
            proof {
                assert((y + 1) * self.w == y * self.w + self.w) by (nonlinear_arith);
            }
            y = y + 1;
        }
        assert(self.h * self.w == self.w * self.h) by (nonlinear_arith);
        out
    }
}

/// A background channel as a byte's worth.
pub open spec fn background<S: Scalar>(bg: [S; 4], c: int) -> u32 {
    bg[c].prod(S::rat(255, 1)).whole()
}

/// A channel over a background.
pub open spec fn shaded(s: u8, bg: u32, a: u8) -> u32 {
    ((s * a + bg * (255 - a)) / 255) as u32
}

/// A pixel over the background, packed.
pub open spec fn packed_over<S: Scalar>(p: Pixel, bg: [S; 4]) -> u32 {
    (shaded(p.0, background(bg, 0), p.3) << 16u32) | (shaded(p.1, background(bg, 1), p.3) << 8u32)
        | shaded(p.2, background(bg, 2), p.3)
}

fn shade(s: u8, bg: u32, a: u8) -> (r: u32)
    requires
        bg * 255 <= u32::MAX,
    ensures
        r == shaded(s, bg, a),
{
    proof {
        lemma_shade(s as int, bg as int, a as int);
    }
    (s as u32 * a as u32 + bg * (255 - a) as u32) / 255
}

proof fn lemma_shade(s: int, bg: int, a: int)
    requires
        0 <= s <= 255,
        0 <= bg,
        bg * 255 <= u32::MAX,
        0 <= a <= 255,
    ensures
        0 <= s * a <= 255 * a,
        0 <= bg * (255 - a) <= u32::MAX,
        0 <= s * a + bg * (255 - a) <= u32::MAX,
{
    assert(0 <= s * a <= 255 * a) by (nonlinear_arith)
        requires
            0 <= s <= 255,
            0 <= a,
    ;
    assert(0 <= bg * (255 - a) <= bg * 255) by (nonlinear_arith)
        requires
            0 <= bg,
            0 <= a <= 255,
    ;
    if bg <= 255 {
        assert(bg * (255 - a) <= 255 * (255 - a)) by (nonlinear_arith)
            requires
                bg <= 255,
                0 <= 255 - a,
        ;
    } else {
        assert(255 * a <= bg * a) by (nonlinear_arith)
            requires
                255 <= bg,
                0 <= a,
        ;
        assert(bg * a + bg * (255 - a) == bg * 255) by (nonlinear_arith);
    }
}

/// A pixel with its alpha multiplied in, blue first.
pub open spec fn premultiplied(p: Pixel) -> Pixel {
    (((p.2 * p.3) / 255) as u8, ((p.1 * p.3) / 255) as u8, ((p.0 * p.3) / 255) as u8, p.3)
}

fn premultiply(p: Pixel) -> (r: Pixel)
    ensures
        r == premultiplied(p),
{
    let a: u32 = p.3 as u32;
    proof {
        lemma_shade(p.0 as int, 0, p.3 as int);
        lemma_shade(p.1 as int, 0, p.3 as int);
        lemma_shade(p.2 as int, 0, p.3 as int);
    }
    (
        (p.2 as u32 * a / 255) as u8,
        (p.1 as u32 * a / 255) as u8,
        (p.0 as u32 * a / 255) as u8,
        p.3,
    )
}

// --- laws ------------------------------------------------------------------

/// With the alpha multiplied in, no colour exceeds it.
pub proof fn premultiplied_stays_below_alpha(p: Pixel)
    ensures
        premultiplied(p).0 <= p.3,
        premultiplied(p).1 <= p.3,
        premultiplied(p).2 <= p.3,
        premultiplied(p).3 == p.3,
{
    assert(p.0 * p.3 <= 255 * p.3 && p.1 * p.3 <= 255 * p.3 && p.2 * p.3 <= 255 * p.3)
        by (nonlinear_arith)
        requires
            0 <= p.0 <= 255,
            0 <= p.1 <= 255,
            0 <= p.2 <= 255,
            0 <= p.3 <= 255,
    ;
}

/// An opaque pixel shows its own colour on any background, a clear one the
/// background.
pub proof fn background_shows_through(s: u8, bg: u32)
    ensures
        shaded(s, bg, 255) == s,
        shaded(s, bg, 0) == bg,
{
}

/// Mark and word never touch: the word starts right of the mark, and both lie
/// within the picture.
pub proof fn mark_and_word_stay_apart(edge: int, gap: int, word: (int, int))
    requires
        edge >= 0,
        gap >= 0,
        word.0 > 0,
        word.1 > 0,
    ensures
        ({
            let p = arranged(edge, gap, word);
            &&& edge <= p.word_x
            &&& p.word_x + word.0 == p.w
            &&& 0 <= p.logo_y && p.logo_y + edge <= p.h
            &&& 0 <= p.word_y && p.word_y + word.1 <= p.h
        }),
{
}

} // verus!
