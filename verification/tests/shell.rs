//! The application shell: pointer, keys, frames, scripts.
use frostify_gfx::anim::Curve;
use frostify_gfx::app::{Action, App, Control, Event, Key, StartStep};
use frostify_gfx::binds::{show_fades, BIND_TWEEN_KEY_BASE};
use frostify_gfx::dirty;
use frostify_gfx::gpu::instance::SHAPE_KIND_GLASS;
use frostify_gfx::gpu::timing::FrameStats;
use frostify_gfx::headless::HeadlessHelper;
use frostify_gfx::hud::build_hud_instances;
use frostify_gfx::input::InputState;
use frostify_gfx::node::{Node, NodeId, WindowAction};
use frostify_gfx::overlay::{Overlay, WidgetKeys};
use frostify_gfx::reactive::{animated, Bind, Source};
use frostify_gfx::scalar::{Fixed, Scalar};
use frostify_gfx::scene::Scene;
use frostify_gfx::signal::{Color, Signal};

const MS: u64 = 1_000_000;

fn px(n: i64) -> Fixed {
    Fixed::ratio(n, 1)
}

fn grey(n: i64) -> Color<Fixed> {
    Color { rgba: [Fixed::ratio(n, 100); 4] }
}

fn kinds(actions: &[Action<Fixed>]) -> Vec<&'static str> {
    actions
        .iter()
        .map(|a| match a {
            Action::Exit => "exit",
            Action::Configure(_, _) => "configure",
            Action::RequestRedraw => "redraw",
            Action::Upload(_) => "upload",
            Action::UploadOverlay(_, _) => "overlay",
            Action::Render(_) => "render",
            Action::SaveScreenshot => "screenshot",
            Action::LogStats => "log",
            Action::Window(_) => "window",
            Action::CallKeyHandler => "key",
        })
        .collect()
}

fn place(app: &mut App<Fixed>, id: NodeId, x: i64, y: i64, w: i64, h: i64) {
    app.ctx.tree.get_mut_raw(id).unwrap().rect = [px(x), px(y), px(w), px(h)];
}

/// A window with one button, whose hover flag and colour signal are returned.
fn button() -> (App<Fixed>, NodeId, Signal<bool>, Signal<Color<Fixed>>) {
    let mut app: App<Fixed> = App::new("demo".to_string(), 200, 100, false, false);
    let hover = app.ctx.signals.flags.signal(false);
    let fill = app.ctx.signals.colors.signal(grey(10));
    {
        let mut s = app.scene();
        s.rect("button".to_string()).on_hover(hover).color(Bind::Signal(fill));
    }
    let id = app.ctx.node("button").unwrap();
    place(&mut app, id, 10, 10, 50, 20);
    app.attach(200, 100, false, px(1));
    app.flush_tree();
    (app, id, hover, fill)
}

#[test]
fn events_before_the_window_do_nothing() {
    let mut app: App<Fixed> = App::new("demo".to_string(), 200, 100, false, false);
    assert!(app.window_event(Event::CloseRequested, 0).is_empty());
    assert!(app.memory_report(128).is_none());
}

#[test]
fn the_first_flush_uploads_and_redraws() {
    let mut app: App<Fixed> = App::new("demo".to_string(), 200, 100, false, false);
    app.ctx.tree.add_root(Node::rect().build());
    app.attach(200, 100, false, px(1));
    assert_eq!(kinds(&app.flush_tree()), vec!["upload", "redraw"]);
    assert!(app.flush_tree().is_empty(), "clean");
    assert_eq!(app.instances.len(), 1);
    assert_eq!(app.opaque_count, 1);
}

#[test]
fn glass_goes_after_everything_opaque() {
    let mut app: App<Fixed> = App::new("demo".to_string(), 200, 100, false, false);
    app.ctx.tree.add_root(Node::glass().blur(px(8)).build());
    app.ctx.tree.add_root(Node::rect().radius(px(3)).build());
    app.attach(200, 100, false, px(2));
    app.flush_tree();
    assert_eq!(app.opaque_count, 1);
    assert!(app.instances[0].shape_kind != SHAPE_KIND_GLASS);
    assert_eq!(app.instances[0].border_radius, [px(6); 4]);
    assert_eq!(app.instances[1].shape_kind, SHAPE_KIND_GLASS);
    assert_eq!(app.instances[1].backdrop_uv_rect[0], px(16));
}

#[test]
fn hovering_sets_the_flag_and_the_scene_follows() {
    let (mut app, id, hover, fill) = button();
    assert!(kinds(&app.window_event(Event::CursorMoved(px(5), px(5)), 0)).is_empty());
    assert!(app.window_event(Event::CursorMoved(px(20), px(20)), 0).is_empty(), "no bind moved");
    assert!(app.ctx.signals.flags.get(hover));
    assert_eq!(app.input.hovered, Some(id));
    app.ctx.signals.colors.set(fill, grey(50));
    let acts = app.window_event(Event::CursorLeft, 0);
    assert_eq!(kinds(&acts), vec!["upload", "redraw"]);
    assert!(!app.ctx.signals.flags.get(hover));
    assert_eq!(app.instances[0].color, grey(50).rgba);
}

#[test]
fn resizing_configures_the_surface() {
    let (mut app, _, _, _) = button();
    let acts = app.window_event(Event::Resized(0, 70), 0);
    assert_eq!(kinds(&acts), vec!["configure", "redraw"]);
    assert!(matches!(acts[0], Action::Configure(1, 70)));
}

#[test]
fn redraws_render_and_show_the_gauges() {
    let (mut app, _, _, _) = button();
    assert_eq!(kinds(&app.window_event(Event::RedrawRequested, 0)), vec!["render"]);
    let acts = app.window_event(Event::Keyboard(Key::F1, true), 0);
    assert_eq!(kinds(&acts), vec!["log", "redraw"]);
    let acts = app.window_event(Event::RedrawRequested, 0);
    assert_eq!(kinds(&acts), vec!["overlay", "render"]);
    assert!(matches!(acts[1], Action::Render(true)));
    let acts = app.window_event(Event::Keyboard(Key::F1, true), 0);
    assert_eq!(kinds(&acts), vec!["log", "overlay", "redraw"]);
    assert!(matches!(&acts[1], Action::UploadOverlay(l, _) if l.is_empty()));
}

#[test]
fn keys_do_what_they_say() {
    let (mut app, _, _, _) = button();
    assert_eq!(kinds(&app.window_event(Event::Keyboard(Key::Escape, true), 0)), vec!["exit"]);
    assert_eq!(kinds(&app.window_event(Event::Keyboard(Key::F2, true), 0)), vec!["screenshot"]);
    assert_eq!(kinds(&app.window_event(Event::Keyboard(Key::F4, true), 0)), vec!["redraw"]);
    assert!(app.gpu.as_ref().unwrap().overdraw_mode());
    assert_eq!(
        kinds(&app.window_event(Event::Keyboard(Key::F5, true), 0)),
        vec!["upload", "redraw"]
    );
    assert_eq!(app.last_dirty_mask, dirty::ANY);
    assert_eq!(kinds(&app.window_event(Event::Keyboard(Key::Other, true), 0)), vec!["key"]);
    assert!(app.window_event(Event::Keyboard(Key::Other, false), 0).is_empty());
    assert!(app.window_event(Event::Keyboard(Key::Escape, false), 0).is_empty());
    assert!(app.window_event(Event::Occluded(true), 0).is_empty());
    assert_eq!(kinds(&app.window_event(Event::Occluded(false), 0)), vec!["redraw"]);
    assert_eq!(kinds(&app.window_event(Event::CloseRequested, 0)), vec!["exit"]);
}

#[test]
fn rebuilding_gives_the_same_list() {
    let (mut app, _, _, _) = button();
    let before = app.instances.clone();
    let acts = app.window_event(Event::Keyboard(Key::F5, true), 0);
    assert!(before[0].identical(&app.instances[0]));
    assert!(matches!(&acts[0], Action::Upload(p) if p.writes.is_empty()), "nothing differs");
}

#[test]
fn animations_run_between_events() {
    let mut app: App<Fixed> = App::new("demo".to_string(), 200, 100, false, false);
    let fill = app.ctx.signals.colors.signal(grey(0));
    app.scene()
        .rect("a".to_string())
        .color(Bind::Animated(animated(Source::Signal(fill), Curve::Linear, 1000 * MS)));
    app.attach(200, 100, false, px(1));
    app.flush_tree();
    let (acts, control) = app.about_to_wait(0);
    assert!(acts.is_empty());
    assert_eq!(control, Control::Wait);
    app.ctx.signals.colors.set(fill, grey(100));
    assert!(app.react(0).is_empty(), "nothing shown yet");
    let (acts, control) = app.about_to_wait(500 * MS);
    assert_eq!(kinds(&acts), vec!["upload", "redraw"]);
    assert_eq!(control, Control::WaitUntil(516 * MS));
    assert_eq!(app.instances[0].color, [Fixed::ratio(1, 2); 4]);
    let (acts, control) = app.about_to_wait(1000 * MS);
    assert_eq!(kinds(&acts), vec!["upload", "redraw"]);
    assert_eq!(control, Control::Wait);
    assert_eq!(app.instances[0].color, [px(1); 4]);
}

#[test]
fn starting_up_paints_before_showing() {
    let app: App<Fixed> = App::new("demo".to_string(), 200, 100, false, false);
    assert_eq!(
        app.resumed(false),
        vec![StartStep::OpenWindow, StartStep::Flush, StartStep::Render, StartStep::ShowWindow]
    );
    let app = app.capture(3, "shots".to_string());
    assert_eq!(app.config.capture_dir, "shots");
    let steps = app.resumed(false);
    assert_eq!(steps.iter().filter(|s| **s == StartStep::Screenshot).count(), 3);
    assert_eq!(steps.last(), Some(&StartStep::Exit));
    let steps = app.resumed(true);
    assert_eq!(
        &steps[4..],
        &[StartStep::Screenshot, StartStep::RunScript, StartStep::Exit]
    );
    let mut app = app;
    app.attach(1, 1, false, px(1));
    assert!(app.resumed(false).is_empty());
}

#[test]
fn capture_settings_are_kept() {
    let app: App<Fixed> = App::new("demo".to_string(), 200, 100, true, true);
    assert_eq!(app.config.title, "demo");
    assert_eq!((app.config.width, app.config.height), (200, 100));
    assert!(!app.config.decorations && app.config.transparent && app.config.blur);
    assert!(app.stats_log && app.hud_enabled);
    let app = app.decorations(true).capture_dir("x".to_string()).capture_from_env(false);
    assert!(app.config.decorations);
    assert_eq!(app.config.capture_dir, "x");
    assert_eq!(app.capture_frames, None);
    let app = app.headless();
    assert_eq!(app.capture_frames, Some(1));
    let app = app.capture(0, "y".to_string());
    assert_eq!(app.capture_frames, Some(1));
    let app = app.capture(4, "y".to_string()).headless();
    assert_eq!(app.capture_frames, Some(4));
    let app = app.capture_from_env(true);
    assert_eq!(app.capture_frames, Some(1));
    assert_eq!(app.config.capture_dir, "debug_captures");
    assert!(app.into_ctx().tree.is_empty());
}

#[test]
fn scripts_settle_and_capture() {
    let mut app: App<Fixed> = App::new("demo".to_string(), 200, 100, false, false);
    let fill = app.ctx.signals.colors.signal(grey(0));
    app.scene()
        .rect("a".to_string())
        .color(Bind::Animated(animated(Source::Signal(fill), Curve::Linear, 60_000 * MS)));
    app.attach(200, 100, false, px(1));
    app.flush_tree();
    let mask = app.last_dirty_mask;
    let mut h = HeadlessHelper { app: &mut app };
    h.app.ctx.signals.colors.set(fill, grey(100));
    h.react(0);
    assert!(h.app.timeline.active());
    h.settle();
    assert!(!h.app.timeline.active());
    let (dirty, plan) = h.flush();
    assert!(dirty && plan.is_some());
    let (dirty, plan) = h.flush();
    assert!(!dirty && plan.is_none());
    assert_eq!(h.app.instances[0].color, [px(1); 4]);
    assert_eq!(h.app.last_dirty_mask, mask);
    let p = h.render();
    assert_eq!(p.drawcalls, 1);
    assert_eq!(h.capture().drawcalls, 1);
    let (list, _) = h.show_hud();
    assert!(list.len() >= 5);
    assert_eq!(h.render().drawcalls, 2);
    assert!(h.hide_hud().writes.is_empty());
    assert_eq!(h.render().drawcalls, 1);
}

#[test]
fn gauges_turn_from_green_to_red() {
    let mut s: FrameStats<Fixed> = FrameStats::default();
    let empty = build_hud_instances(&s);
    assert_eq!(empty.len(), 5, "a panel and four grooves");
    assert_eq!(empty[0].position, [px(12), px(12)]);
    assert_eq!(empty[0].size, [px(216), px(74)]);
    s.instance_count = 64;
    s.drawcalls = 160;
    let list = build_hud_instances(&s);
    assert_eq!(list.len(), 7);
    assert_eq!(list[4].size, [px(50), px(10)]);
    assert_eq!(list[4].color[1], Fixed::ratio(85, 100));
    assert_eq!(list[6].size, [px(200), px(10)], "held to the groove");
    assert_eq!(list[6].color[0], Fixed::ratio(95, 100));
}

// --- the pointer -----------------------------------------------------------

#[test]
fn a_press_captures_and_focuses() {
    let mut app: App<Fixed> = App::new("demo".to_string(), 200, 100, false, false);
    let press = app.ctx.signals.flags.signal(false);
    let focus = app.ctx.signals.flags.signal(false);
    let a = app.ctx.tree.add_root(Node::rect().on_press(press).on_focus(focus).build());
    let b = app.ctx.tree.add_root(Node::rect().window_action(WindowAction::Close).build());
    place(&mut app, a, 0, 0, 50, 50);
    place(&mut app, b, 100, 0, 50, 50);
    let (_, hits, _, _) = app.ctx.tree.flatten(px(1));
    let mut input: InputState<Fixed> = InputState::new();
    let flags = &mut app.ctx.signals.flags;
    assert_eq!(InputState::hit_test(&hits, px(10), px(10)), Some(a));
    assert_eq!(InputState::hit_test(&hits, px(70), px(10)), None);
    input.on_cursor_moved(px(10), px(10), &hits, &app.ctx.tree, flags);
    let c = input.on_left_pressed(&hits, &app.ctx.tree, flags);
    assert!(c.pressed_changed && c.focused_changed && c.any());
    assert!(flags.get(press) && flags.get(focus));
    let c = input.on_cursor_moved(px(110), px(10), &hits, &app.ctx.tree, flags);
    assert_eq!(input.hovered, Some(a), "captured nodes stay hovered");
    assert!(c.pressed_changed && !flags.get(press), "but are pressed only under the pointer");
    let c = input.on_cursor_moved(px(10), px(10), &hits, &app.ctx.tree, flags);
    assert!(c.pressed_changed && flags.get(press));
    input.on_cursor_moved(px(110), px(10), &hits, &app.ctx.tree, flags);
    input.on_left_released(&hits, &app.ctx.tree, flags);
    assert_eq!(input.captured, None);
    assert_eq!(input.hovered, Some(b));
    assert_eq!(input.focused, Some(a));
    assert!(!flags.get(press));
    assert!(flags.get(focus));
}

#[test]
fn pressing_nothing_drops_the_focus() {
    let mut app: App<Fixed> = App::new("demo".to_string(), 200, 100, false, false);
    let focus = app.ctx.signals.flags.signal(false);
    let a = app.ctx.tree.add_root(Node::rect().on_focus(focus).build());
    place(&mut app, a, 0, 0, 50, 50);
    let (_, hits, _, _) = app.ctx.tree.flatten(px(1));
    let mut input: InputState<Fixed> = InputState::new();
    let flags = &mut app.ctx.signals.flags;
    input.on_cursor_moved(px(10), px(10), &hits, &app.ctx.tree, flags);
    input.on_left_pressed(&hits, &app.ctx.tree, flags);
    input.on_left_released(&hits, &app.ctx.tree, flags);
    assert!(flags.get(focus));
    input.on_cursor_moved(px(90), px(90), &hits, &app.ctx.tree, flags);
    let c = input.on_left_pressed(&hits, &app.ctx.tree, flags);
    assert!(c.focused_changed);
    assert!(!flags.get(focus));
    assert_eq!(input.focused, None);
    let c = input.on_cursor_left(&hits, &app.ctx.tree, flags);
    assert!(!c.any());
}

#[test]
fn frame_parts_move_the_window() {
    let mut app: App<Fixed> = App::new("demo".to_string(), 200, 100, false, false);
    let press = app.ctx.signals.flags.signal(false);
    let bar =
        Node::rect().window_action(WindowAction::DragMove).on_press(press).build();
    let a = app.ctx.tree.add_root(bar);
    let b = app.ctx.tree.add_root(Node::rect().window_action(WindowAction::Close).build());
    place(&mut app, a, 0, 0, 50, 50);
    place(&mut app, b, 100, 0, 50, 50);
    app.attach(200, 100, false, px(1));
    app.flush_tree();
    app.window_event(Event::CursorMoved(px(10), px(10)), 0);
    let acts = app.window_event(Event::LeftButton(true), 0);
    assert!(matches!(acts[..], [Action::Window(WindowAction::DragMove)]));
    assert!(!app.ctx.signals.flags.get(press), "no press on the node");
    assert_eq!(app.input.captured, None);
    app.window_event(Event::CursorMoved(px(110), px(10)), 0);
    assert_eq!(kinds(&app.window_event(Event::LeftButton(true), 0)), vec!["exit"]);
}

#[test]
fn plain_binds_wait_for_the_next_reaction() {
    let mut app: App<Fixed> = App::new("demo".to_string(), 200, 100, false, false);
    let fill = app.ctx.signals.colors.signal(grey(0));
    app.scene().rect("a".to_string()).color(Bind::Signal(fill));
    app.attach(200, 100, false, px(1));
    app.flush_tree();
    app.timeline.start_color(9, fill, grey(100), Curve::Linear, 1000 * MS, 0, &app.ctx.signals.colors);
    let (acts, control) = app.about_to_wait(500 * MS);
    assert!(acts.is_empty(), "no value is on its way to the node");
    assert_eq!(control, Control::WaitUntil(516 * MS));
    assert_eq!(app.instances[0].color, [px(0); 4]);
    assert_eq!(kinds(&app.react(500 * MS)), vec!["upload", "redraw"]);
    assert_eq!(app.instances[0].color, [Fixed::ratio(1, 2); 4]);
}

#[test]
fn a_window_starts_a_fresh_renderer() {
    let (app, _, _, _) = button();
    let g = app.gpu.as_ref().unwrap();
    assert_eq!(g.resolution(), (200, 100));
    assert!(!g.overdraw_mode() && !g.timing_enabled());
    assert_eq!(g.last_frame_stats().drawcalls, 0);
}

#[test]
fn names_outlast_events() {
    let (mut app, id, _, _) = button();
    app.window_event(Event::Resized(300, 200), 0);
    app.window_event(Event::CursorMoved(px(20), px(20)), 0);
    app.window_event(Event::Keyboard(Key::F5, true), 0);
    app.about_to_wait(MS);
    app.settle();
    app.attach(300, 200, false, px(2));
    assert_eq!(app.ctx().node("button"), Some(id));
}

// --- overlays --------------------------------------------------------------

#[test]
fn an_overlay_fades_in_and_out() {
    let mut app: App<Fixed> = App::new("demo".to_string(), 200, 100, false, false);
    let mut keys = WidgetKeys::new();
    let o: Overlay<Fixed> = Overlay::new(&mut app.ctx.signals, &mut keys)
        .with_fade(100 * MS)
        .with_curve(Curve::Linear);
    let m = {
        let mut s = Scene::root(&mut app.ctx);
        o.render(&mut s, [px(0); 4])
    };
    assert!(!app.ctx.tree.get(m.scrim).unwrap().visible);
    assert_eq!(app.ctx.tree.get(m.scrim).unwrap().children, vec![m.host]);
    o.toggle(&mut app.timeline, 0, &app.ctx.signals.numbers);
    app.timeline.tick(100 * MS, &mut app.ctx.signals);
    assert!(o.is_open(&app.ctx.signals.numbers));
    show_fades(&app.ctx.binds.opacity, &mut app.ctx.tree, &app.ctx.signals.numbers);
    assert!(app.ctx.tree.get(m.scrim).unwrap().visible);
    assert_eq!(app.ctx.tree.get(m.scrim).unwrap().style.opacity, px(1));
    assert!(!o.on_click(m, m.host, &mut app.timeline, 200 * MS, &app.ctx.signals.numbers));
    assert!(!app.timeline.active());
    assert!(o.on_click(m, m.scrim, &mut app.timeline, 200 * MS, &app.ctx.signals.numbers));
    app.timeline.tick(300 * MS, &mut app.ctx.signals);
    assert!(!o.is_open(&app.ctx.signals.numbers));
    o.open_instant(&mut app.ctx.signals.numbers);
    assert!(o.is_open(&app.ctx.signals.numbers));
    o.reset(&mut app.ctx.signals.numbers);
    assert!(!o.is_open(&app.ctx.signals.numbers));
}

#[test]
fn a_rendered_overlay_fades_as_time_passes() {
    let mut app: App<Fixed> = App::new("demo".to_string(), 200, 100, false, false);
    let mut keys = WidgetKeys::new();
    let o: Overlay<Fixed> = Overlay::new(&mut app.ctx.signals, &mut keys)
        .with_fade(1000 * MS)
        .with_curve(Curve::Linear);
    let m = {
        let mut s = app.scene();
        o.render(&mut s, [px(1); 4])
    };
    app.attach(200, 100, false, px(1));
    app.flush_tree();
    o.open(&mut app.timeline, 0, &app.ctx.signals.numbers);
    let (acts, _) = app.about_to_wait(500 * MS);
    assert_eq!(kinds(&acts), vec!["upload", "redraw"]);
    let scrim = app.ctx.tree.get(m.scrim).unwrap();
    assert!(scrim.visible);
    assert_eq!(scrim.style.opacity, Fixed::ratio(1, 2));
    app.settle();
    assert_eq!(app.ctx.tree.get(m.scrim).unwrap().style.opacity, px(1));
    o.reset(&mut app.ctx.signals.numbers);
    app.react(600 * MS);
    assert!(!app.ctx.tree.get(m.scrim).unwrap().visible, "closed at once");
}

#[test]
fn an_open_overlay_takes_the_pointer() {
    let mut app: App<Fixed> = App::new("demo".to_string(), 200, 100, false, false);
    let under = app.ctx.tree.add_root(Node::rect().window_action(WindowAction::Close).build());
    place(&mut app, under, 0, 0, 200, 100);
    let mut keys = WidgetKeys::new();
    let o: Overlay<Fixed> = Overlay::new(&mut app.ctx.signals, &mut keys);
    let m = {
        let mut s = Scene::root(&mut app.ctx);
        o.render(&mut s, [px(0); 4])
    };
    place(&mut app, m.scrim, 0, 0, 200, 100);
    place(&mut app, m.host, 50, 25, 100, 50);
    let (_, hits, _, _) = app.ctx.tree.flatten(px(1));
    assert_eq!(InputState::hit_test(&hits, px(60), px(30)), Some(under), "closed: skipped");
    o.open_instant(&mut app.ctx.signals.numbers);
    show_fades(&app.ctx.binds.opacity, &mut app.ctx.tree, &app.ctx.signals.numbers);
    let (_, hits, _, _) = app.ctx.tree.flatten(px(1));
    assert_eq!(InputState::hit_test(&hits, px(60), px(30)), Some(m.host));
    assert_eq!(InputState::hit_test(&hits, px(10), px(10)), Some(m.scrim));
}

#[test]
fn bound_props_and_overlays_use_other_keys() {
    let mut keys = WidgetKeys::new();
    assert!(keys.take() as u64 >= BIND_TWEEN_KEY_BASE as u64 + 0x3000_0000);
}

#[test]
fn widget_keys_are_never_shared() {
    let mut keys = WidgetKeys::new();
    let a = keys.take();
    let b = keys.take();
    assert_eq!(b, a + 1);
}
