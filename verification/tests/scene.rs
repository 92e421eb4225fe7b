//! Building a scene, and letting it follow its signals.
use frostify_gfx::anim::{Curve, Timeline};
use frostify_gfx::binds::{process_color_binds, pump_animated_displays, BIND_TWEEN_KEY_BASE};
use frostify_gfx::reactive::{animated, Bind, Computed, Source};
use frostify_gfx::scalar::Scalar;
use frostify_gfx::scene::{Scene, SceneCtx};
use frostify_gfx::signal::Color;

#[derive(Copy, Clone, Debug, PartialEq)]
struct F(f32);

impl Scalar for F {
    fn rat(n: i64, d: u32) -> F {
        F::ratio(n, d)
    }
    fn cnt(n: u64) -> F {
        F::count(n)
    }
    fn huge() -> F {
        F::far()
    }
    fn sum(self, other: F) -> F {
        self.plus(other)
    }
    fn diff(self, other: F) -> F {
        self.minus(other)
    }
    fn prod(self, other: F) -> F {
        self.times(other)
    }
    fn quot(self, other: F) -> F {
        self.over(other)
    }
    fn hi(self, other: F) -> F {
        self.larger(other)
    }
    fn lo(self, other: F) -> F {
        self.smaller(other)
    }
    fn rnd(self) -> F {
        self.round()
    }
    fn whole(self) -> u32 {
        self.to_u32()
    }
    fn root(self) -> F {
        self.sqrt()
    }
    fn expo(self) -> F {
        self.exp()
    }
    fn sine(self) -> F {
        self.sin()
    }
    fn cosine(self) -> F {
        self.cos()
    }
    fn less(self, other: F) -> bool {
        self.lt(other)
    }
    fn leq(self, other: F) -> bool {
        self.le(other)
    }
    fn eqv(self, other: F) -> bool {
        self.same(other)
    }
    fn ratio(n: i64, d: u32) -> F {
        F(n as f32 / d as f32)
    }
    fn count(n: u64) -> F {
        F(n as f32)
    }
    fn far() -> F {
        F(1.0e30)
    }
    fn plus(self, other: F) -> F {
        F(self.0 + other.0)
    }
    fn minus(self, other: F) -> F {
        F(self.0 - other.0)
    }
    fn times(self, other: F) -> F {
        F(self.0 * other.0)
    }
    fn over(self, other: F) -> F {
        F(self.0 / other.0)
    }
    fn larger(self, other: F) -> F {
        F(self.0.max(other.0))
    }
    fn smaller(self, other: F) -> F {
        F(self.0.min(other.0))
    }
    fn round(self) -> F {
        F(self.0.round())
    }
    fn to_u32(self) -> u32 {
        self.0 as u32
    }
    fn sqrt(self) -> F {
        F(self.0.sqrt())
    }
    fn exp(self) -> F {
        F(self.0.exp())
    }
    fn sin(self) -> F {
        F(self.0.sin())
    }
    fn cos(self) -> F {
        F(self.0.cos())
    }
    fn lt(self, other: F) -> bool {
        self.0 < other.0
    }
    fn le(self, other: F) -> bool {
        self.0 <= other.0
    }
    fn same(self, other: F) -> bool {
        self.0 == other.0
    }
    fn identical(self, other: F) -> bool {
        self.0.to_bits() == other.0.to_bits()
    }
}

const MS: u64 = 1_000_000;

fn rgba(r: f32, g: f32, b: f32, a: f32) -> Color<F> {
    Color { rgba: [F(r), F(g), F(b), F(a)] }
}

#[test]
fn nested_children_register_under_parent() {
    let mut ctx: SceneCtx<F> = SceneCtx::new();
    {
        let mut scene = Scene::root(&mut ctx);
        let mut root = scene.rect("root".to_string());
        root.pos(F(0.0), F(0.0)).size(F(100.0), F(100.0)).rgba(F(1.0), F(0.0), F(0.0), F(1.0));
        let mut p = root.child();
        p.rect("a".to_string()).pos(F(10.0), F(10.0)).size(F(20.0), F(20.0));
        p.rect("b".to_string()).pos(F(40.0), F(10.0)).size(F(20.0), F(20.0));
    }
    let root_id = ctx.node("root").unwrap();
    let a_id = ctx.node("a").unwrap();
    let b_id = ctx.node("b").unwrap();
    let root = ctx.tree.get(root_id).unwrap();
    assert_eq!(root.children.len(), 2);
    assert_eq!(root.children[0], a_id);
    assert_eq!(root.children[1], b_id);
    assert_eq!(ctx.tree.len(), 3);
}

#[test]
fn raw_color_does_not_register_bind() {
    let mut ctx: SceneCtx<F> = SceneCtx::new();
    {
        let mut scene = Scene::root(&mut ctx);
        scene.rect("a".to_string()).size(F(10.0), F(10.0)).rgba(F(0.5), F(0.5), F(0.5), F(1.0));
    }
    assert!(ctx.binds.color.is_empty());
}

#[test]
fn signal_color_registers_bind() {
    let mut ctx: SceneCtx<F> = SceneCtx::new();
    let s = ctx.signals.colors.signal(rgba(1.0, 0.0, 0.0, 1.0));
    {
        let mut scene = Scene::root(&mut ctx);
        scene.rect("a".to_string()).size(F(10.0), F(10.0)).color(Bind::Signal(s));
    }
    assert_eq!(ctx.binds.color.len(), 1);
    let slot = &ctx.binds.color[0];
    assert!(slot.displayed.is_none());
    let n = ctx.tree.get(slot.node_id).unwrap();
    assert_eq!(n.style.color, [F(1.0), F(0.0), F(0.0), F(1.0)]);
}

#[test]
fn computed_color_registers_bind_with_initial_value() {
    let mut ctx: SceneCtx<F> = SceneCtx::new();
    let lit = ctx.signals.flags.signal(false);
    let pick = |l: bool| {
        if l {
            rgba(0.0, 1.0, 0.0, 1.0)
        } else {
            rgba(1.0, 0.0, 0.0, 1.0)
        }
    };
    let first = pick(ctx.signals.flags.get(lit));
    let c = Computed::new(&mut ctx.signals.colors, first);
    {
        let mut scene = Scene::root(&mut ctx);
        scene.rect("a".to_string()).size(F(10.0), F(10.0)).color(Bind::Computed(c));
    }
    assert_eq!(ctx.binds.color.len(), 1);
    let slot = &ctx.binds.color[0];
    let n = ctx.tree.get(slot.node_id).unwrap();
    assert_eq!(n.style.color, [F(1.0), F(0.0), F(0.0), F(1.0)]);
}

#[test]
fn animated_color_allocates_displayed_signal() {
    let mut ctx: SceneCtx<F> = SceneCtx::new();
    let s = ctx.signals.colors.signal(rgba(0.0, 0.0, 0.0, 1.0));
    {
        let mut scene = Scene::root(&mut ctx);
        scene
            .rect("a".to_string())
            .size(F(10.0), F(10.0))
            .color(Bind::Animated(animated(Source::Signal(s), Curve::EaseInOut, 220 * MS)));
    }
    let slot = &ctx.binds.color[0];
    assert!(slot.displayed.is_some());
    assert_eq!(
        ctx.signals.colors.get(*slot.displayed.as_ref().unwrap()).rgba,
        [F(0.0), F(0.0), F(0.0), F(1.0)]
    );
}

#[test]
fn unknown_names_are_not_found() {
    let mut ctx: SceneCtx<F> = SceneCtx::new();
    {
        let mut scene = Scene::root(&mut ctx);
        scene.glass("pane".to_string());
    }
    assert!(ctx.node("pane").is_some());
    assert!(ctx.node("door").is_none());
    assert!(ctx.tree.has_glass());
}

#[test]
fn props_land_on_the_node() {
    let mut ctx: SceneCtx<F> = SceneCtx::new();
    {
        let mut scene = Scene::root(&mut ctx);
        scene
            .rect("a".to_string())
            .pos(F(3.0), F(4.0))
            .radii(F(1.0), F(2.0), F(3.0), F(4.0))
            .border(F(2.0), [F(0.5); 4])
            .shadow([F(1.0), F(2.0)], F(8.0), [F(0.0); 4], F(0.25))
            .opacity(F(0.75))
            .hidden();
    }
    let n = ctx.tree.get(ctx.node("a").unwrap()).unwrap();
    assert_eq!(n.layout.abs, Some([F(3.0), F(4.0)]));
    assert_eq!(n.style.border_radius, [F(1.0), F(2.0), F(3.0), F(4.0)]);
    assert_eq!(n.style.border_width, F(2.0));
    assert_eq!(n.style.shadow_opacity, F(0.25));
    assert_eq!(n.style.opacity, F(0.75));
    assert!(!n.visible);
}

#[test]
fn a_bound_colour_snaps_when_its_signal_changes() {
    let mut ctx: SceneCtx<F> = SceneCtx::new();
    let s = ctx.signals.colors.signal(rgba(1.0, 0.0, 0.0, 1.0));
    {
        let mut scene = Scene::root(&mut ctx);
        scene.rect("a".to_string()).color(Bind::Signal(s));
    }
    let id = ctx.node("a").unwrap();
    let mut tl: Timeline<F> = Timeline::new();
    ctx.tree.take_dirty();
    process_color_binds(&mut ctx.binds.color, &mut ctx.tree, &mut tl, &ctx.signals.colors, 0);
    assert_eq!(ctx.tree.dirty(), 0, "nothing changed yet");
    ctx.signals.colors.set(s, rgba(0.0, 0.0, 1.0, 1.0));
    process_color_binds(&mut ctx.binds.color, &mut ctx.tree, &mut tl, &ctx.signals.colors, 0);
    assert_eq!(ctx.tree.get(id).unwrap().style.color, [F(0.0), F(0.0), F(1.0), F(1.0)]);
    assert!(!tl.active());
    ctx.tree.take_dirty();
    process_color_binds(&mut ctx.binds.color, &mut ctx.tree, &mut tl, &ctx.signals.colors, 0);
    assert_eq!(ctx.tree.dirty(), 0, "settled binds do nothing");
}

#[test]
fn an_animated_colour_is_eased_to() {
    let mut ctx: SceneCtx<F> = SceneCtx::new();
    let s = ctx.signals.colors.signal(rgba(0.0, 0.0, 0.0, 1.0));
    {
        let mut scene = Scene::root(&mut ctx);
        scene
            .rect("a".to_string())
            .color(Bind::Animated(animated(Source::Signal(s), Curve::Linear, 100 * MS)));
    }
    let id = ctx.node("a").unwrap();
    let mut tl: Timeline<F> = Timeline::new();
    ctx.signals.colors.set(s, rgba(1.0, 1.0, 1.0, 1.0));
    process_color_binds(&mut ctx.binds.color, &mut ctx.tree, &mut tl, &ctx.signals.colors, 0);
    assert_eq!(tl.colors().len(), 1);
    assert_eq!(tl.colors()[0].key, BIND_TWEEN_KEY_BASE);
    assert_eq!(ctx.tree.get(id).unwrap().style.color, [F(0.0), F(0.0), F(0.0), F(1.0)]);
    tl.tick(50 * MS, &mut ctx.signals);
    pump_animated_displays(&ctx.binds.color, &mut ctx.tree, &ctx.signals.colors);
    assert_eq!(ctx.tree.get(id).unwrap().style.color, [F(0.5), F(0.5), F(0.5), F(1.0)]);
}

#[test]
fn a_refreshed_derivation_reaches_its_node() {
    let mut ctx: SceneCtx<F> = SceneCtx::new();
    let c = Computed::new(&mut ctx.signals.colors, rgba(1.0, 0.0, 0.0, 1.0));
    {
        let mut scene = Scene::root(&mut ctx);
        scene.rect("a".to_string()).color(Bind::Computed(c));
    }
    assert!(c.refresh(&mut ctx.signals.colors, rgba(0.0, 1.0, 0.0, 1.0)));
    assert!(!c.refresh(&mut ctx.signals.colors, rgba(0.0, 1.0, 0.0, 1.0)));
    let mut tl: Timeline<F> = Timeline::new();
    process_color_binds(&mut ctx.binds.color, &mut ctx.tree, &mut tl, &ctx.signals.colors, 0);
    let id = ctx.node("a").unwrap();
    assert_eq!(ctx.tree.get(id).unwrap().style.color, [F(0.0), F(1.0), F(0.0), F(1.0)]);
}

#[test]
fn under_a_parent_that_is_gone_a_node_is_stored_alone() {
    let mut ctx: SceneCtx<F> = SceneCtx::new();
    let gone = Scene::root(&mut ctx).rect("gone".to_string()).id();
    let kept = Scene::root(&mut ctx).rect("kept".to_string()).id();
    ctx.tree.remove(gone);
    let other = Scene::root(&mut ctx).rect("other".to_string()).id();
    assert!(other != gone);
    let id = Scene { ctx: &mut ctx, parent: Some(gone) }.rect("stray".to_string()).id();
    assert_eq!(ctx.node("stray"), Some(id));
    assert!(ctx.tree.get(id).is_some());
    assert!(ctx.tree.get(kept).unwrap().children.is_empty());
    assert_eq!(ctx.tree.roots(), &[kept, other]);
}

#[test]
fn a_default_scene_is_empty() {
    let ctx: SceneCtx<F> = SceneCtx::default();
    assert!(ctx.tree.is_empty());
    assert!(ctx.binds.color.is_empty());
    assert_eq!(ctx.node("anything"), None);
}
