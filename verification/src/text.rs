//! Glyphs and lines, as the host's shaping engine hands them over.
use vstd::prelude::*;

use crate::order::{chains, compares, larger_is_least_upper_bound, number, ordered_numbers};
use crate::scalar::{one_s, zero, zero_s, Scalar};

verus! {

/// One shaped glyph: the engine's key for its picture, and its pen position in
/// physical pixels.
#[derive(Copy, Clone, Debug)]
pub struct ShapedGlyph<K> {
    pub cache_key: K,
    pub x: i32,
    pub y: i32,
}

/// A glyph's coverage mask.
#[derive(Debug)]
pub struct RasterizedGlyph {
    pub width: u32,
    pub height: u32,
    /// From the pen to the left of the mask.
    pub left: i32,
    /// From the pen up to the top of the mask.
    pub top: i32,
    /// Coverage, row by row.
    pub data: Vec<u8>,
}

/// What kind of picture the engine made of a glyph.
#[derive(Copy, Clone, Debug, PartialEq, Eq, Structural)]
pub enum GlyphContent {
    /// One byte of coverage a pixel.
    Mask,
    /// Coverage for each of red, green and blue.
    SubpixelMask,
    /// A coloured picture, such as an emoji.
    Color,
}

/// Accept a glyph's picture if it is a plain mask: the atlas holds no other.
pub fn rasterize(
    content: GlyphContent,
    width: u32,
    height: u32,
    left: i32,
    top: i32,
    data: Vec<u8>,
) -> (r: Option<RasterizedGlyph>)
    ensures
        r == (if content == GlyphContent::Mask {
            Some(RasterizedGlyph { width, height, left, top, data })
        } else {
            None
        }),
{
    match content {
        GlyphContent::Mask => Some(RasterizedGlyph { width, height, left, top, data }),
        _ => None,
    }
}

/// Size of a text, in physical pixels.
#[derive(Copy, Clone, Debug)]
pub struct TextMetrics<S> {
    pub width: S,
    pub height: S,
}

impl<S: Scalar> Default for TextMetrics<S> {
    fn default() -> (r: Self)
        ensures
            r.width == zero_s::<S>(),
            r.height == zero_s::<S>(),
    {
        TextMetrics { width: zero(), height: zero() }
    }
}

/// The widest of some lines.
pub open spec fn widest<S: Scalar>(lines: Seq<S>) -> S
    decreases lines.len(),
{
    if lines.len() == 0 {
        zero_s()
    } else {
        widest(lines.drop_last()).hi(lines.last())
    }
}

/// The size of a text laid out in lines of these widths.
pub fn measure<S: Scalar>(lines: &[S], line_height: S) -> (r: TextMetrics<S>)
    ensures
        r.width == widest(lines@),
        r.height == S::cnt(lines@.len() as u64).prod(line_height),
{
    let mut w: S = zero();
    let mut i: usize = 0;
    assert(lines@.take(0) =~= Seq::empty());
    while i < lines.len()
        invariant
            i <= lines.len(),
            w == widest(lines@.take(i as int)),
        decreases lines.len() - i,
    {
        proof {
            assert(lines@.take(i + 1).drop_last() =~= lines@.take(i as int));
        }
        w = w.larger(lines[i]);
        i = i + 1;
    }
    assert(lines@.take(lines@.len() as int) =~= lines@);
    TextMetrics { width: w, height: S::count(lines.len() as u64).times(line_height) }
}

/// No line is wider than the text.
pub proof fn no_line_is_wider<S: Scalar>(lines: Seq<S>, i: int)
    requires
        ordered_numbers::<S>(),
        forall|k: int| 0 <= k < lines.len() ==> number(#[trigger] lines[k]),
        0 <= i < lines.len(),
    ensures
        lines[i].leq(widest(lines)),
        number(widest(lines)),
    decreases lines.len(),
{
    let rest = lines.drop_last();
    let before = widest(rest);
    assert(compares(zero_s::<S>(), one_s()));
    if rest.len() > 0 {
        no_line_is_wider(rest, if i < rest.len() { i } else { 0 });
    }
    let last = lines.last();
    assert(number(lines[lines.len() - 1]));
    larger_is_least_upper_bound(before, last, last);
    if i < rest.len() {
        assert(rest[i] == lines[i]);
        assert(chains(lines[i], before, widest(lines)));
    }
}

} // verus!
