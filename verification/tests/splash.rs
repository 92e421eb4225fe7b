//! Composing the splash, and text sizes.
use frostify_gfx::pixels::{blank, blit_over};
use frostify_gfx::scalar::{Fixed, Scalar};
use frostify_gfx::splash::{build_wordmark, PlacedGlyph, SplashBitmap, SplashConfig};
use frostify_gfx::text::{measure, rasterize, GlyphContent, RasterizedGlyph, TextMetrics};

fn px(n: i64) -> Fixed {
    Fixed::ratio(n, 1)
}

fn config(word: &str) -> SplashConfig<Fixed> {
    SplashConfig {
        logo_svg: Vec::new(),
        wordmark: word.to_string(),
        logo_px: px(2),
        wordmark_px: px(8),
        gap_px: px(1),
        wordmark_color: [px(1), Fixed::ratio(1, 2), px(0), px(1)],
        bg_color: [px(0), px(0), px(1), px(1)],
    }
}

fn glyph(x: i32, y: i32, left: i32, top: i32, w: u32, h: u32, data: Vec<u8>) -> PlacedGlyph {
    PlacedGlyph { x, y, mask: Some(RasterizedGlyph { width: w, height: h, left, top, data }) }
}

#[test]
fn sizes_follow_the_scale() {
    let c = config("x");
    assert_eq!(c.logo_side(px(2)), 4);
    assert_eq!(c.logo_side(px(0)), 1, "scale is held to a tenth, and the edge to a pixel");
    let (size, line) = c.wordmark_size(px(2));
    assert_eq!(size, px(16));
    assert_eq!(line, px(20));
}

#[test]
fn the_word_is_cropped_to_its_glyphs() {
    let gs = vec![
        glyph(10, 20, 1, 5, 2, 1, vec![255, 0]),
        PlacedGlyph { x: 0, y: 0, mask: None },
        glyph(14, 20, 0, 4, 1, 2, vec![128, 64]),
    ];
    let (w, h, rgba) = build_wordmark(&"ab".to_string(), &gs, &config("ab").wordmark_color);
    assert_eq!((w, h), (4, 3));
    assert_eq!(&rgba[0..4], &[255, 127, 0, 255]);
    assert_eq!(&rgba[4..8], &[0, 0, 0, 0], "no coverage stays clear");
    let at = ((1 * 4 + 3) * 4) as usize;
    assert_eq!(&rgba[at..at + 4], &[255, 127, 0, 128]);
    let at = ((2 * 4 + 3) * 4) as usize;
    assert_eq!(&rgba[at..at + 4], &[255, 127, 0, 64]);
}

#[test]
fn an_empty_word_has_no_picture() {
    let gs = vec![glyph(0, 0, 0, 0, 1, 1, vec![255])];
    assert_eq!(build_wordmark(&"".to_string(), &gs, &[px(1); 4]), (0, 0, vec![]));
    assert_eq!(build_wordmark(&"x".to_string(), &[], &[px(1); 4]), (0, 0, vec![]));
    let flat = vec![glyph(0, 0, 0, 0, 0, 5, vec![])];
    assert_eq!(build_wordmark(&"x".to_string(), &flat, &[px(1); 4]), (0, 0, vec![]));
}

#[test]
fn mark_and_word_stand_side_by_side() {
    let logo = vec![9u8, 8, 7, 255, 9, 8, 7, 255, 9, 8, 7, 255, 9, 8, 7, 255];
    let gs = vec![glyph(0, 0, 0, 0, 1, 4, vec![255, 255, 255, 255])];
    let b = SplashBitmap::build(&config("l"), &logo, &gs, px(1)).unwrap();
    assert_eq!((b.w, b.h), (4, 4));
    let at = |x: usize, y: usize| &b.rgba[(y * 4 + x) * 4..(y * 4 + x) * 4 + 4];
    assert_eq!(at(0, 0), &[0, 0, 0, 0]);
    assert_eq!(at(0, 1), &[9, 8, 7, 255], "centred");
    assert_eq!(at(1, 2), &[9, 8, 7, 255]);
    assert_eq!(at(0, 3), &[0, 0, 0, 0]);
    assert_eq!(at(2, 1), &[0, 0, 0, 0], "the gap");
    assert_eq!(at(3, 0), &[255, 127, 0, 255]);
    assert_eq!(at(3, 3), &[255, 127, 0, 255]);
}

#[test]
fn a_mark_of_the_wrong_size_is_turned_away() {
    assert!(SplashBitmap::build(&config(""), &[0u8; 12], &[], px(1)).is_none());
    let b = SplashBitmap::build(&config(""), &[1u8; 16], &[], px(1)).unwrap();
    assert_eq!((b.w, b.h), (2, 2), "no word, no gap");
}

#[test]
fn alpha_is_multiplied_in_for_layered_windows() {
    let b = SplashBitmap { w: 1, h: 2, rgba: vec![200, 100, 50, 128, 1, 2, 3, 255] };
    assert_eq!(b.bgra_premultiplied(), vec![25, 50, 100, 128, 3, 2, 1, 255]);
}

#[test]
fn opaque_windows_show_the_background() {
    let b = SplashBitmap { w: 3, h: 1, rgba: vec![200, 100, 50, 0, 200, 100, 50, 255, 255, 0, 0, 51] };
    let bg = [px(0), px(0), px(1), px(1)];
    assert_eq!(b.to_u32_over(&bg), vec![0x0000ff, 0xc86432, 0x3300cc]);
}

#[test]
fn painting_over_blends_and_crops() {
    let mut dst = blank(2, 1);
    blit_over(&mut dst, 2, 1, &[10, 20, 30, 100], 1, 1, 0, 0);
    assert_eq!(dst, vec![10, 20, 30, 100, 0, 0, 0, 0], "a clear pixel takes the paint");
    blit_over(&mut dst, 2, 1, &[110, 120, 130, 51], 1, 1, 0, 0);
    assert_eq!(&dst[0..4], &[30, 40, 50, 131]);
    blit_over(&mut dst, 2, 1, &[1, 2, 3, 0], 1, 1, 0, 0);
    assert_eq!(&dst[0..4], &[30, 40, 50, 131], "clear paint changes nothing");
    blit_over(&mut dst, 2, 1, &[7, 7, 7, 255, 8, 8, 8, 255], 2, 1, 1, 0);
    assert_eq!(dst, vec![30, 40, 50, 131, 7, 7, 7, 255], "what sticks out is cut off");
    blit_over(&mut dst, 2, 1, &[9, 9, 9, 255], 1, 1, 5, 5);
    assert_eq!(dst, vec![30, 40, 50, 131, 7, 7, 7, 255]);
}

#[test]
fn text_is_as_wide_as_its_widest_line() {
    let m = measure(&[px(30), px(50), px(20)], px(12));
    assert_eq!((m.width, m.height), (px(50), px(36)));
    let m = measure(&[], px(12));
    assert_eq!((m.width, m.height), (px(0), px(0)));
    let d: TextMetrics<Fixed> = TextMetrics::default();
    assert_eq!((d.width, d.height), (px(0), px(0)));
}

#[test]
fn only_masks_are_rasterised() {
    let g = rasterize(GlyphContent::Mask, 1, 2, 3, 4, vec![5, 6]).unwrap();
    assert_eq!((g.width, g.height, g.left, g.top), (1, 2, 3, 4));
    assert_eq!(g.data, vec![5, 6]);
    assert!(rasterize(GlyphContent::Color, 1, 1, 0, 0, vec![0; 4]).is_none());
    assert!(rasterize(GlyphContent::SubpixelMask, 1, 1, 0, 0, vec![0; 3]).is_none());
}
