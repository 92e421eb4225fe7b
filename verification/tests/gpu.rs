//! The renderer's bookkeeping and the image atlas.
use frostify_gfx::gpu::blur::{downsample_plan, mip_count_for, step_slots, DownsampleStep};
use frostify_gfx::gpu::capture::{readback_layout, unpad};
use frostify_gfx::gpu::context::GpuContext;
use frostify_gfx::gpu::image_atlas::{
    frame_to_rgba, place, AtlasWrite, ImageAtlas, ImageHandle, PngFrame,
};
use frostify_gfx::gpu::instance::{FrameUniform, ShapeInstance, SHAPE_KIND_GLASS};
use frostify_gfx::gpu::memory::MemoryReport;
use frostify_gfx::gpu::surface::{
    frame_action, pick_alpha, pick_format, round_uniform, AlphaMode, FrameAction, SurfaceFormat,
    SurfaceStatus, TextureSize,
};
use frostify_gfx::gpu::timing::{read_timing, ticks_to_ms, PassAlloc, PassKind};
use frostify_gfx::gpu::upload::{diff_runs, grow_capacity, Run};
use frostify_gfx::scalar::{Fixed, Scalar};

fn px(n: i64) -> Fixed {
    Fixed::ratio(n, 1)
}

fn shape(x: i64) -> ShapeInstance<Fixed> {
    ShapeInstance::rounded_rect([px(x), px(0)], [px(10), px(10)], px(2), [px(1); 4])
}

fn glass(x: i64) -> ShapeInstance<Fixed> {
    ShapeInstance { shape_kind: SHAPE_KIND_GLASS, ..shape(x) }
}

// --- uploads ---------------------------------------------------------------

#[test]
fn capacities_double_until_they_hold() {
    assert_eq!(grow_capacity(16, 16), 16);
    assert_eq!(grow_capacity(16, 17), 32);
    assert_eq!(grow_capacity(16, 100), 128);
    assert_eq!(grow_capacity(0, 5), 8);
    assert_eq!(grow_capacity(16, 0), 16);
}

#[test]
fn only_changed_stretches_are_written() {
    let a = vec![shape(0), shape(1), shape(2), shape(3), shape(4)];
    let mut b = a.clone();
    b[1] = shape(11);
    b[2] = shape(12);
    b[4] = shape(14);
    let runs = diff_runs(&a, &b);
    assert_eq!(runs, vec![Run { start: 1, end: 3 }, Run { start: 4, end: 5 }]);
    assert!(diff_runs(&a, &a).is_empty());
}

#[test]
fn a_new_count_writes_everything() {
    let mut g: GpuContext<Fixed> = GpuContext::new(100, 100, false);
    let p = g.set_instances(&[shape(0), shape(1)], 2, true);
    assert_eq!(p.grow_to, None);
    assert_eq!(p.writes, vec![Run { start: 0, end: 2 }]);
    let p = g.set_instances(&[shape(0), shape(1)], 2, false);
    assert!(p.writes.is_empty());
    let p = g.set_instances(&[shape(0), shape(9)], 2, false);
    assert_eq!(p.writes, vec![Run { start: 1, end: 2 }]);
    let p = g.set_instances(&[], 0, false);
    assert!(p.writes.is_empty());
}

#[test]
fn a_full_buffer_grows() {
    let mut g: GpuContext<Fixed> = GpuContext::new(100, 100, false);
    let list: Vec<ShapeInstance<Fixed>> = (0..20).map(shape).collect();
    let p = g.set_instances(&list, 20, false);
    assert_eq!(p.grow_to, Some(32));
    assert_eq!(p.writes, vec![Run { start: 0, end: 20 }]);
    let p = g.set_overlay_instances(17);
    assert_eq!(p.grow_to, Some(32));
    let p = g.set_overlay_instances(0);
    assert_eq!(p.grow_to, None);
    assert!(p.writes.is_empty());
}

// --- frames ----------------------------------------------------------------

#[test]
fn the_backdrop_is_made_once_and_only_for_glass() {
    let mut g: GpuContext<Fixed> = GpuContext::new(100, 100, false);
    g.set_instances(&[shape(0)], 1, true);
    let p = g.plan_frame();
    assert!(p.backdrop.is_none(), "no glass looks at it");
    assert_eq!(p.drawcalls, 1);
    g.set_instances(&[shape(0), glass(5)], 1, false);
    assert_eq!(g.glass_count(), 1);
    let p = g.plan_frame();
    let b = p.backdrop.unwrap();
    assert_eq!((b.opaque, b.blur_radius), (1, 16));
    assert_eq!(p.drawcalls, 4);
    assert!(g.plan_frame().backdrop.is_none(), "still fresh");
    g.mark_backdrop_dirty();
    assert!(g.plan_frame().backdrop.is_some());
    g.resize(50, 60);
    assert_eq!(g.resolution(), (50, 60));
    assert!(g.plan_frame().backdrop.is_some());
}

#[test]
fn glass_alone_still_blurs() {
    let mut g: GpuContext<Fixed> = GpuContext::new(100, 100, false);
    g.set_instances(&[glass(0)], 0, true);
    let p = g.plan_frame();
    assert_eq!(p.backdrop.unwrap().opaque, 0);
    assert_eq!(p.drawcalls, 3);
}

#[test]
fn timed_passes_take_slots_in_order() {
    let mut g: GpuContext<Fixed> = GpuContext::new(100, 100, true);
    assert!(g.timing_enabled());
    g.set_instances(&[shape(0), glass(5)], 1, true);
    g.set_overdraw(true);
    assert!(g.overdraw_mode());
    let p = g.plan_frame();
    assert_eq!(
        p.timed,
        vec![
            PassKind::Opaque,
            PassKind::Blur,
            PassKind::Final,
            PassKind::OverdrawCount,
            PassKind::OverdrawCompose,
        ]
    );
    assert_eq!(p.backdrop.unwrap().blur_slots, Some((2, 3)));
    assert_eq!(p.surface.slots, Some((4, 5)));
    assert_eq!(p.overdraw.unwrap().compose_slots, Some((8, 9)));
    g.set_overdraw(false);
    let p = g.plan_frame();
    assert!(p.overdraw.is_none());
    assert_eq!(p.timed, vec![PassKind::Final]);
    assert_eq!(p.surface.slots, Some((0, 1)));
}

#[test]
fn statistics_follow_the_last_frame() {
    let mut g: GpuContext<Fixed> = GpuContext::new(100, 100, true);
    g.set_instances(&[shape(0), glass(5)], 1, true);
    g.plan_frame();
    let t = read_timing(&[PassKind::Final], &[1000, 3_001_000], px(1));
    g.record_timing(t);
    let s = g.last_frame_stats();
    assert_eq!(s.gpu_ms, px(3));
    assert_eq!(s.final_ms, px(3));
    assert_eq!((s.instance_count, s.opaque_count, s.glass_count), (2, 1, 1));
    assert_eq!(s.drawcalls, 4);
    assert_eq!(s.dirty_mask, 0);
}

#[test]
fn untimed_frames_forget_readbacks() {
    let mut g: GpuContext<Fixed> = GpuContext::new(100, 100, false);
    g.record_timing(read_timing(&[PassKind::Final], &[0, 1_000_000], px(1)));
    assert_eq!(g.last_frame_stats().gpu_ms, px(0));
}

#[test]
fn memory_is_accounted_for() {
    let g: GpuContext<Fixed> = GpuContext::new(10, 20, true);
    let m = g.memory_report(128);
    assert_eq!(m.instance_buffer, 16 * 128);
    assert_eq!(m.overlay_buffer, 16 * 128);
    assert_eq!(m.blur_textures, 10 * 20 * 4 * 3);
    assert_eq!(m.overdraw_textures, 10 * 20 * 8);
    assert_eq!(m.timing, 768);
    assert_eq!(m.params_buffers, 32);
    assert_eq!(
        m.total(),
        m.instance_buffer + m.overlay_buffer + m.prev_instances_cpu + 2400 + 1600 + 768 + 32
    );
    assert_eq!(MemoryReport::default().total(), 0);
}

#[test]
fn the_copy_of_the_list_is_counted() {
    let mut g: GpuContext<Fixed> = GpuContext::new(10, 20, false);
    g.set_instances(&[shape(0), shape(1), shape(2)], 3, true);
    assert!(g.memory_report(128).prev_instances_cpu >= 3 * 128);
}

// --- timing ----------------------------------------------------------------

#[test]
fn ticks_become_milliseconds() {
    assert_eq!(ticks_to_ms(0, 2_000_000, px(1)), px(2));
    assert_eq!(ticks_to_ms(0, 1_000_000, px(2)), px(2));
    assert_eq!(ticks_to_ms(5, 4, px(1)), px(0));
}

#[test]
fn overdraw_passes_share_an_entry() {
    let ms = 1_000_000;
    let passes = [PassKind::Final, PassKind::OverdrawCount, PassKind::OverdrawCompose];
    let t = read_timing(&passes, &[0, ms, ms, 3 * ms, 3 * ms, 6 * ms], px(1)).unwrap();
    assert_eq!(t.total_ms, px(6));
    assert_eq!(t.final_ms, px(1));
    assert_eq!(t.overdraw_ms, px(5));
    assert_eq!(t.blur_ms, px(0));
}

#[test]
fn missing_timestamps_tell_nothing() {
    assert!(read_timing::<Fixed>(&[], &[0, 1], px(1)).is_none());
    assert!(read_timing::<Fixed>(&[PassKind::Final], &[0], px(1)).is_none());
}

#[test]
fn slots_come_in_pairs() {
    let mut a = PassAlloc::new();
    assert_eq!(a.reserve(PassKind::Blur), (0, 1));
    assert_eq!(a.reserve(PassKind::Final), (2, 3));
    assert_eq!(a.passes(), &[PassKind::Blur, PassKind::Final]);
}

// --- the pyramid -----------------------------------------------------------

#[test]
fn levels_follow_the_longer_side() {
    assert_eq!(mip_count_for(0, 0), 1);
    assert_eq!(mip_count_for(1, 1), 1);
    assert_eq!(mip_count_for(4, 2), 2);
    assert_eq!(mip_count_for(100, 60), 6);
    assert_eq!(mip_count_for(1920, 1080), 8);
    assert_eq!(mip_count_for(60, 100), mip_count_for(100, 60));
}

#[test]
fn the_first_and_last_steps_are_timed() {
    assert_eq!(step_slots(0, 3, Some((4, 5))), Some((Some(4), None)));
    assert_eq!(step_slots(1, 3, Some((4, 5))), None);
    assert_eq!(step_slots(2, 3, Some((4, 5))), Some((None, Some(5))));
    assert_eq!(step_slots(0, 1, Some((4, 5))), Some((Some(4), Some(5))));
    assert_eq!(step_slots(0, 1, None), None);
}

#[test]
fn each_level_is_made_from_the_one_above() {
    let plan = downsample_plan(100, 40, 3);
    assert_eq!(
        plan,
        vec![
            DownsampleStep { source: 0, target: 1, groups_x: 7, groups_y: 3 },
            DownsampleStep { source: 1, target: 2, groups_x: 4, groups_y: 2 },
        ]
    );
    assert!(downsample_plan(100, 40, 1).is_empty());
}

#[test]
fn the_frame_uniform_clamps_to_the_deepest_level() {
    let u: FrameUniform<Fixed> = FrameUniform::of(640, 480, 8);
    assert_eq!(u.screen_size, [px(640), px(480)]);
    assert_eq!(u.max_backdrop_lod, px(7));
}

// --- surfaces --------------------------------------------------------------

#[test]
fn the_first_preferred_format_is_taken() {
    let f = [SurfaceFormat::Other, SurfaceFormat::Bgra8Unorm, SurfaceFormat::Bgra8UnormSrgb];
    assert_eq!(pick_format(&f), 2);
    assert_eq!(pick_format(&[SurfaceFormat::Other, SurfaceFormat::Bgra8Unorm]), 0);
    assert_eq!(pick_alpha(&[AlphaMode::Other, AlphaMode::PreMultiplied]), 1);
    assert_eq!(pick_alpha(&[AlphaMode::Other, AlphaMode::Other]), 0);
    assert!(SurfaceFormat::Bgra8Unorm.is_bgra());
    assert!(!SurfaceFormat::Rgba8UnormSrgb.is_bgra());
}

#[test]
fn a_lost_surface_is_set_up_again() {
    assert_eq!(frame_action(SurfaceStatus::Success), FrameAction::Draw);
    assert_eq!(frame_action(SurfaceStatus::Suboptimal), FrameAction::Draw);
    assert_eq!(frame_action(SurfaceStatus::Lost), FrameAction::Reconfigure);
    assert_eq!(frame_action(SurfaceStatus::Outdated), FrameAction::Reconfigure);
    assert_eq!(frame_action(SurfaceStatus::Timeout), FrameAction::Skip);
    assert_eq!(frame_action(SurfaceStatus::Occluded), FrameAction::Skip);
    assert_eq!(frame_action(SurfaceStatus::Validation), FrameAction::Report);
}

#[test]
fn textures_follow_the_surface() {
    let mut t = TextureSize { width: 4, height: 3 };
    assert!(!t.resize(4, 3));
    assert!(t.resize(0, 3));
    assert_eq!(t.extent(), (1, 3));
    assert!(t.resize(5, 6));
    assert_eq!(t.memory_bytes(), 120);
    let u = round_uniform(t, px(-3));
    assert_eq!(u.radius, px(0));
    assert_eq!(u.screen, [px(5), px(6)]);
    assert_eq!(round_uniform(t, px(8)).radius, px(8));
}

// --- readback --------------------------------------------------------------

#[test]
fn rows_are_padded_to_the_alignment() {
    let l = readback_layout(64, 2);
    assert_eq!((l.unpadded_bpr, l.padded_bpr, l.size), (256, 256, 512));
    let l = readback_layout(65, 3);
    assert_eq!((l.unpadded_bpr, l.padded_bpr, l.size), (260, 512, 1536));
}

#[test]
fn padding_and_channel_order_are_undone() {
    let mut view = vec![0u8; 512];
    view[0..8].copy_from_slice(&[1, 2, 3, 4, 5, 6, 7, 8]);
    view[256..264].copy_from_slice(&[9, 10, 11, 12, 13, 14, 15, 16]);
    assert_eq!(
        unpad(&view, 2, 2, false),
        vec![1, 2, 3, 4, 5, 6, 7, 8, 9, 10, 11, 12, 13, 14, 15, 16]
    );
    assert_eq!(
        unpad(&view, 2, 2, true),
        vec![3, 2, 1, 4, 7, 6, 5, 8, 11, 10, 9, 12, 15, 14, 13, 16]
    );
}

// --- the atlas -------------------------------------------------------------

fn apart(a: &AtlasWrite, b: &AtlasWrite) -> bool {
    a.x + a.width + 1 < b.x
        || b.x + b.width + 1 < a.x
        || a.y + a.height + 1 < b.y
        || b.y + b.height + 1 < a.y
}

#[test]
fn images_get_places_of_their_own() {
    let mut atlas: ImageAtlas<Fixed> = ImageAtlas::new(64);
    assert_eq!(atlas.size(), 64);
    assert_eq!(atlas.memory_bytes(), 64 * 64 * 4);
    let a = atlas.upload_rgba(10, 8, &[7u8; 320]).unwrap();
    let b = atlas.upload_rgba(10, 8, &[7u8; 320]).unwrap();
    let c = atlas.upload_rgba(4, 30, &[7u8; 480]).unwrap();
    assert!(a.x >= 1 && a.y >= 1);
    assert!(apart(&a, &b) && apart(&a, &c) && apart(&b, &c));
    assert!(a.handle != b.handle && b.handle != c.handle);
    let e = atlas.get(a.handle).unwrap();
    assert_eq!((e.width, e.height), (10, 8));
    assert_eq!(e.uv[0], Fixed::ratio(a.x as i64, 64));
    assert_eq!(e.uv[3], Fixed::ratio(a.y as i64 + 8, 64));
    assert!(atlas.get(ImageHandle(99)).is_none());
}

#[test]
fn images_sit_inside_the_border_of_their_rectangle() {
    let at = place(5, 10, 8, Some((12, 16, 30, 32)));
    let want = AtlasWrite { handle: ImageHandle(5), x: 13, y: 17, width: 10, height: 8 };
    assert_eq!(at, Some(want));
    assert_eq!(place(5, 10, 8, None), None);
}

#[test]
fn later_images_are_taken_while_there_is_room() {
    let mut atlas: ImageAtlas<Fixed> = ImageAtlas::new(64);
    for k in 0..4u32 {
        let at = atlas.upload_rgba(6, 6, &[k as u8; 144]).unwrap();
        assert_eq!(at.handle, ImageHandle(k));
        let uv = atlas.get(at.handle).unwrap().uv;
        assert!(uv[0].raw >= 0 && uv[0].raw < uv[2].raw && uv[2].raw <= 65536);
        assert!(uv[1].raw >= 0 && uv[1].raw < uv[3].raw && uv[3].raw <= 65536);
    }
    assert!(atlas.upload_rgba(62, 62, &[0u8; 62 * 62 * 4]).is_none(), "no place that large");
    let at = atlas.upload_rgba(6, 6, &[9u8; 144]).unwrap();
    assert_eq!(at.handle, ImageHandle(4), "a refusal uses up no handle");
}

#[test]
fn what_does_not_fit_is_turned_away() {
    let mut atlas: ImageAtlas<Fixed> = ImageAtlas::new(32);
    assert!(atlas.upload_rgba(0, 4, &[]).is_none());
    assert!(atlas.upload_rgba(4, 4, &[0u8; 63]).is_none(), "bytes do not match");
    assert!(atlas.upload_rgba(31, 4, &[0u8; 496]).is_none(), "no room for the border");
    assert!(atlas.upload_rgba(30, 30, &[0u8; 3600]).is_some());
    assert!(atlas.upload_rgba(1, 1, &[0u8; 4]).is_none(), "full");
}

fn encode(w: u32, h: u32, color: png::ColorType, data: &[u8]) -> Vec<u8> {
    let mut out = Vec::new();
    let mut e = png::Encoder::new(&mut out, w, h);
    e.set_color(color);
    e.set_depth(png::BitDepth::Eight);
    let mut writer = e.write_header().unwrap();
    writer.write_image_data(data).unwrap();
    writer.finish().unwrap();
    out
}

#[test]
fn png_files_are_decoded_to_rgba() {
    let mut atlas: ImageAtlas<Fixed> = ImageAtlas::new(64);
    let file = encode(2, 1, png::ColorType::Rgb, &[1, 2, 3, 4, 5, 6]);
    let (w, pixels) = atlas.upload_png(&file).unwrap();
    assert_eq!((w.width, w.height), (2, 1));
    assert_eq!(pixels, vec![1, 2, 3, 255, 4, 5, 6, 255]);
    let file = encode(1, 2, png::ColorType::Grayscale, &[9, 200]);
    let (w, pixels) = atlas.upload_png(&file).unwrap();
    assert_eq!((w.width, w.height), (1, 2));
    assert_eq!(pixels, vec![9, 9, 9, 255, 200, 200, 200, 255]);
    let file = encode(1, 1, png::ColorType::GrayscaleAlpha, &[9, 20]);
    assert_eq!(atlas.upload_png(&file).unwrap().1, vec![9, 9, 9, 20]);
    let file = encode(1, 1, png::ColorType::Rgba, &[1, 2, 3, 4]);
    assert_eq!(atlas.upload_png(&file).unwrap().1, vec![1, 2, 3, 4]);
}

#[test]
fn broken_files_are_turned_away() {
    let mut atlas: ImageAtlas<Fixed> = ImageAtlas::new(64);
    assert!(atlas.upload_png(b"not a picture").is_none());
    let mut file = encode(2, 1, png::ColorType::Rgb, &[1, 2, 3, 4, 5, 6]);
    file.truncate(40);
    assert!(atlas.upload_png(&file).is_none());
    let big = encode(64, 1, png::ColorType::Grayscale, &[0u8; 64]);
    assert!(atlas.upload_png(&big).is_none(), "no room for the border");
}

#[test]
fn odd_formats_are_turned_away() {
    let f = |color_type: u8, bit_depth: u8| PngFrame {
        width: 1,
        height: 1,
        color_type,
        bit_depth,
        data: vec![1, 2, 3, 4],
    };
    assert!(frame_to_rgba(f(6, 16)).is_none());
    assert!(frame_to_rgba(f(3, 8)).is_none());
    assert_eq!(frame_to_rgba(f(2, 8)), Some(vec![1, 2, 3, 255]));
    assert_eq!(frame_to_rgba(f(6, 8)), Some(vec![1, 2, 3, 4]));
}
