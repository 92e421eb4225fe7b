//! The scene tree: flags, scrolling and flattening.
use frostify_gfx::dirty;
use frostify_gfx::flatten::FlatEvent;
use frostify_gfx::layout::{Align, Axis, Justify, Len, Overflow};
use frostify_gfx::node::{Node, NodeId, ScrollAxis, WindowAction};
use frostify_gfx::scalar::Scalar;
use frostify_gfx::tree::NodeTree;

#[derive(Copy, Clone, Debug, PartialEq)]
struct F(f32);

impl Scalar for F {
    fn rat(n: i64, d: u32) -> F {
        F::ratio(n, d)
    }
    fn cnt(n: u64) -> F {
        F::count(n)
    }
    fn huge() -> F {
        F::far()
    }
    fn sum(self, other: F) -> F {
        self.plus(other)
    }
    fn diff(self, other: F) -> F {
        self.minus(other)
    }
    fn prod(self, other: F) -> F {
        self.times(other)
    }
    fn quot(self, other: F) -> F {
        self.over(other)
    }
    fn hi(self, other: F) -> F {
        self.larger(other)
    }
    fn lo(self, other: F) -> F {
        self.smaller(other)
    }
    fn rnd(self) -> F {
        self.round()
    }
    fn whole(self) -> u32 {
        self.to_u32()
    }
    fn root(self) -> F {
        self.sqrt()
    }
    fn expo(self) -> F {
        self.exp()
    }
    fn sine(self) -> F {
        self.sin()
    }
    fn cosine(self) -> F {
        self.cos()
    }
    fn less(self, other: F) -> bool {
        self.lt(other)
    }
    fn leq(self, other: F) -> bool {
        self.le(other)
    }
    fn eqv(self, other: F) -> bool {
        self.same(other)
    }
    fn ratio(n: i64, d: u32) -> F {
        F(n as f32 / d as f32)
    }
    fn count(n: u64) -> F {
        F(n as f32)
    }
    fn far() -> F {
        F(1.0e30)
    }
    fn plus(self, other: F) -> F {
        F(self.0 + other.0)
    }
    fn minus(self, other: F) -> F {
        F(self.0 - other.0)
    }
    fn times(self, other: F) -> F {
        F(self.0 * other.0)
    }
    fn over(self, other: F) -> F {
        F(self.0 / other.0)
    }
    fn larger(self, other: F) -> F {
        F(self.0.max(other.0))
    }
    fn smaller(self, other: F) -> F {
        F(self.0.min(other.0))
    }
    fn round(self) -> F {
        F(self.0.round())
    }
    fn to_u32(self) -> u32 {
        self.0 as u32
    }
    fn sqrt(self) -> F {
        F(self.0.sqrt())
    }
    fn exp(self) -> F {
        F(self.0.exp())
    }
    fn sin(self) -> F {
        F(self.0.sin())
    }
    fn cos(self) -> F {
        F(self.0.cos())
    }
    fn lt(self, other: F) -> bool {
        self.0 < other.0
    }
    fn le(self, other: F) -> bool {
        self.0 <= other.0
    }
    fn same(self, other: F) -> bool {
        self.0 == other.0
    }
    fn identical(self, other: F) -> bool {
        self.0.to_bits() == other.0.to_bits()
    }
}

fn place(t: &mut NodeTree<F>, id: NodeId, rect: [f32; 4], content: [f32; 2]) {
    if let Some(n) = t.get_mut_raw(id) {
        n.rect = [F(rect[0]), F(rect[1]), F(rect[2]), F(rect[3])];
        n.content_size = [F(content[0]), F(content[1])];
    }
}

#[test]
fn glass_count_tracks_inserts_and_removes() {
    let mut t: NodeTree<F> = NodeTree::new();
    assert!(!t.has_glass());
    let a = t.add_root(Node::rect().build());
    assert!(!t.has_glass());
    let g = t.add_root(Node::glass().build());
    assert!(t.has_glass());
    let g2 = t.add_root(Node::glass().build());
    assert!(t.has_glass());
    t.remove(g);
    assert!(t.has_glass());
    t.remove(g2);
    assert!(!t.has_glass());
    t.remove(a);
    assert!(!t.has_glass());
}

#[test]
fn layout_setter_skips_backdrop_without_glass() {
    let mut t: NodeTree<F> = NodeTree::new();
    let id = t.add_root(Node::rect().build());
    t.take_dirty();
    t.set_layout_width(id, Len::Px(F(50.0)));
    let d = t.dirty();
    assert!(d & dirty::TRANSFORM != 0);
    assert!(d & dirty::BACKDROP == 0, "no glass → no BACKDROP flag");
}

#[test]
fn layout_setter_flags_backdrop_with_glass() {
    let mut t: NodeTree<F> = NodeTree::new();
    let id = t.add_root(Node::rect().build());
    let _g = t.add_root(Node::glass().build());
    t.take_dirty();
    t.set_layout_width(id, Len::Px(F(50.0)));
    let d = t.dirty();
    assert!(d & dirty::TRANSFORM != 0);
    assert!(d & dirty::BACKDROP != 0);
}

#[test]
fn set_color_skips_backdrop_without_glass() {
    let mut t: NodeTree<F> = NodeTree::new();
    let id = t.add_root(Node::rect().build());
    t.take_dirty();
    t.set_color(id, [F(0.5), F(0.5), F(0.5), F(1.0)]);
    let d = t.dirty();
    assert!(d & dirty::VISUAL != 0);
    assert!(d & dirty::BACKDROP == 0);
}

#[test]
fn scroll_state_allocates_on_overflow_scroll() {
    let mut t: NodeTree<F> = NodeTree::new();
    let id = t.add_root(Node::rect().build());
    assert!(t.get(id).unwrap().scroll.is_none());
    t.set_layout_overflow(id, Overflow::Scroll, Overflow::Visible);
    assert!(t.get(id).unwrap().scroll.is_some());
}

#[test]
fn add_scroll_delta_clamps_and_reports_remainder() {
    let mut t: NodeTree<F> = NodeTree::new();
    let id = t.add_root(Node::rect().scroll_y().build());
    place(&mut t, id, [0.0, 0.0, 200.0, 100.0], [200.0, 200.0]);
    let applied = t.add_scroll_delta(id, [F(0.0), F(200.0)]);
    assert!((applied[1].0 - 100.0).abs() < 0.01, "clamped applied = {applied:?}");
    let again = t.add_scroll_delta(id, [F(0.0), F(50.0)]);
    assert_eq!(again, [F(0.0), F(0.0)]);
}

#[test]
fn add_scroll_delta_ignores_non_scroll_axis() {
    let mut t: NodeTree<F> = NodeTree::new();
    let id = t.add_root(Node::rect().scroll_x().build());
    place(&mut t, id, [0.0, 0.0, 100.0, 100.0], [400.0, 400.0]);
    let applied = t.add_scroll_delta(id, [F(0.0), F(50.0)]);
    assert_eq!(applied, [F(0.0), F(0.0)]);
}

#[test]
fn tick_scrolls_eases_toward_target_and_snaps() {
    let mut t: NodeTree<F> = NodeTree::new();
    let id = t.add_root(Node::rect().scroll_y().build());
    place(&mut t, id, [0.0, 0.0, 200.0, 100.0], [200.0, 1100.0]);
    let _ = t.add_scroll_delta(id, [F(0.0), F(1000.0)]);
    let dt = 1.0 / 60.0;
    for _ in 0..120 {
        t.tick_scrolls(F(dt));
    }
    let s = t.get(id).unwrap().scroll.unwrap();
    assert_eq!(s.current, s.target, "should have snapped");
    assert_eq!(s.bar_alpha, F(0.0), "bar fade should have drained");
    assert!(!t.has_active_scrolls());
}

#[test]
fn set_color_on_glass_never_flags_backdrop() {
    let mut t: NodeTree<F> = NodeTree::new();
    let g = t.add_root(Node::glass().build());
    t.take_dirty();
    t.set_color(g, [F(1.0), F(0.0), F(0.0), F(0.5)]);
    let d = t.dirty();
    assert!(d & dirty::VISUAL != 0);
    assert!(d & dirty::BACKDROP == 0, "glass color change doesn't enter the backdrop");
}

#[test]
fn flatten_emits_scrollbar_hits() {
    let mut t: NodeTree<F> = NodeTree::new();
    let id = t.add_root(Node::rect().scroll().build());
    place(&mut t, id, [0.0, 0.0, 200.0, 200.0], [800.0, 1000.0]);
    if let Some(n) = t.get_mut_raw(id) {
        if let Some(s) = n.scroll.as_mut() {
            s.bar_alpha = F(1.0);
        }
    }
    let (_events, _hits, _scroll_hits, bars) = t.flatten(F(1.0));
    assert_eq!(bars.len(), 2, "two bars (X + Y) expected");
    let x = bars.iter().find(|b| b.axis == ScrollAxis::X).unwrap();
    let y = bars.iter().find(|b| b.axis == ScrollAxis::Y).unwrap();
    assert!(x.track_travel.0 > 0.0);
    assert!(y.track_travel.0 > 0.0);
    assert_eq!(x.max_offset, F(800.0 - 200.0));
    assert_eq!(y.max_offset, F(1000.0 - 200.0));
}

#[test]
fn always_visible_keeps_alpha_pinned() {
    let mut t: NodeTree<F> = NodeTree::new();
    let id = t.add_root(Node::rect().scroll_y().scrollbar(|s| s.always_visible(true)).build());
    place(&mut t, id, [0.0, 0.0, 100.0, 100.0], [100.0, 500.0]);
    for _ in 0..30 {
        t.tick_scrolls(F(1.0 / 60.0));
    }
    let s = t.get(id).unwrap().scroll.unwrap();
    assert_eq!(s.bar_alpha, F(1.0), "always_visible must hold alpha at 1");
    assert!(t.has_active_scrolls(), "always_visible keeps loop ticking");
}

#[test]
fn auto_hide_skips_pop_on_movement() {
    let mut t: NodeTree<F> = NodeTree::new();
    let id = t.add_root(Node::rect().scroll_y().scrollbar(|s| s.auto_hide(true)).build());
    place(&mut t, id, [0.0, 0.0, 100.0, 100.0], [100.0, 1000.0]);
    let _ = t.add_scroll_delta(id, [F(0.0), F(100.0)]);
    let s = t.get(id).unwrap().scroll.unwrap();
    assert_eq!(s.bar_alpha, F(0.0), "auto_hide must not pop on scroll");
}

#[test]
fn bar_hover_pops_alpha_to_one() {
    let mut t: NodeTree<F> = NodeTree::new();
    let id = t.add_root(Node::rect().scroll_y().build());
    place(&mut t, id, [0.0, 0.0, 100.0, 100.0], [100.0, 500.0]);
    assert_eq!(t.get(id).unwrap().scroll.unwrap().bar_alpha, F(0.0));
    let changed = t.set_bar_hover(id, [false, true]);
    assert!(changed);
    let s = t.get(id).unwrap().scroll.unwrap();
    assert_eq!(s.bar_alpha, F(1.0));
    assert_eq!(s.bar_hover, [false, true]);
}

#[test]
fn set_scroll_immediate_writes_both_current_and_target() {
    let mut t: NodeTree<F> = NodeTree::new();
    let id = t.add_root(Node::rect().scroll_y().build());
    place(&mut t, id, [0.0, 0.0, 100.0, 100.0], [100.0, 500.0]);
    t.set_scroll_immediate(id, ScrollAxis::Y, F(200.0));
    let s = t.get(id).unwrap().scroll.unwrap();
    assert_eq!(s.current[1], F(200.0));
    assert_eq!(s.target[1], F(200.0), "drag must keep spring at rest");
}

#[test]
fn a_reused_slot_has_another_id() {
    let mut t: NodeTree<F> = NodeTree::new();
    let a = t.add_root(Node::rect().build());
    t.remove(a);
    let b = t.add_root(Node::rect().build());
    assert!(a != b);
    assert!(t.get(a).is_none());
    assert!(t.get(b).is_some());
    assert_eq!(t.len(), 1);
}

#[test]
fn removing_leaves_the_children_unreachable() {
    let mut t: NodeTree<F> = NodeTree::new();
    let root = t.add_root(Node::rect().build());
    place(&mut t, root, [0.0, 0.0, 100.0, 100.0], [0.0, 0.0]);
    let child = t.add_child(root, Node::glass().build());
    let leaf = t.add_child(child, Node::rect().build());
    assert_eq!(t.len(), 3);
    t.take_dirty();
    t.remove(child);
    assert!(t.get(child).is_none());
    assert!(t.get(leaf).is_some());
    assert_eq!(t.len(), 2);
    assert!(!t.has_glass());
    assert_eq!(t.dirty(), dirty::TREE);
    let (events, _, _, _) = t.flatten(F(1.0));
    assert_eq!(events.len(), 1);
}

#[test]
fn setters_ignore_the_value_already_there() {
    let mut t: NodeTree<F> = NodeTree::new();
    let id = t.add_root(Node::rect().build());
    t.set_layout_gap(id, F(4.0));
    t.set_layout_justify(id, Justify::Center);
    t.set_layout_align(id, Align::Center);
    t.set_layout_axis(id, Axis::Row);
    t.set_opacity(id, F(0.5));
    t.take_dirty();
    t.set_layout_gap(id, F(4.0));
    t.set_layout_justify(id, Justify::Center);
    t.set_layout_align(id, Align::Center);
    t.set_layout_axis(id, Axis::Row);
    t.set_opacity(id, F(0.5));
    assert_eq!(t.dirty(), 0);
    assert_eq!(t.take_dirty(), 0);
}

#[test]
fn a_stale_id_changes_nothing() {
    let mut t: NodeTree<F> = NodeTree::new();
    let a = t.add_root(Node::rect().build());
    t.remove(a);
    t.take_dirty();
    t.set_color(a, [F(0.1); 4]);
    t.set_visible(a, false);
    t.remove(a);
    assert_eq!(t.dirty(), 0);
}

#[test]
fn marking_sets_every_flag() {
    let mut t: NodeTree<F> = NodeTree::new();
    t.take_dirty();
    t.mark_all_dirty();
    assert_eq!(t.dirty(), dirty::ANY);
    assert_eq!(t.take_dirty(), dirty::ANY);
    assert_eq!(t.take_dirty(), dirty::NONE);
}

#[test]
fn hidden_branches_are_not_painted_or_hit() {
    let mut t: NodeTree<F> = NodeTree::new();
    let root = t.add_root(Node::rect().window_action(WindowAction::Close).build());
    place(&mut t, root, [0.0, 0.0, 100.0, 100.0], [0.0, 0.0]);
    let child = t.add_child(root, Node::rect().window_action(WindowAction::Close).build());
    place(&mut t, child, [10.0, 10.0, 20.0, 20.0], [0.0, 0.0]);
    let (events, hits, _, _) = t.flatten(F(1.0));
    assert_eq!(events.len(), 2);
    assert_eq!(hits.len(), 2);
    t.set_visible(root, false);
    let (events, hits, _, _) = t.flatten(F(1.0));
    assert_eq!(events.len(), 0);
    assert_eq!(hits.len(), 0);
}

#[test]
fn parents_are_painted_below_and_hit_last() {
    let mut t: NodeTree<F> = NodeTree::new();
    let root = t.add_root(Node::rect().window_action(WindowAction::Close).build());
    place(&mut t, root, [0.0, 0.0, 100.0, 100.0], [0.0, 0.0]);
    let child = t.add_child(root, Node::rect().window_action(WindowAction::Close).build());
    place(&mut t, child, [10.0, 20.0, 30.0, 40.0], [0.0, 0.0]);
    let (events, hits, _, _) = t.flatten(F(2.0));
    let rects: Vec<[F; 2]> = events
        .iter()
        .map(|e| match e {
            FlatEvent::Shape(i) => i.position,
            _ => panic!("only shapes here"),
        })
        .collect();
    assert_eq!(rects[0], [F(0.0), F(0.0)]);
    assert_eq!(rects[1], [F(10.0), F(20.0)]);
    assert_eq!(hits[0].node_id, child);
    assert_eq!(hits[1].node_id, root);
}

#[test]
fn scroll_targets_stay_within_content() {
    let mut t: NodeTree<F> = NodeTree::new();
    let id = t.add_root(Node::rect().scroll_y().build());
    place(&mut t, id, [0.0, 0.0, 100.0, 100.0], [100.0, 250.0]);
    t.set_scroll_target(id, [F(0.0), F(1000.0)]);
    assert_eq!(t.get(id).unwrap().scroll.unwrap().target[1], F(150.0));
    t.set_scroll_target(id, [F(0.0), F(-10.0)]);
    assert_eq!(t.get(id).unwrap().scroll.unwrap().target[1], F(0.0));
    assert_eq!(t.scroll_offset(id), [F(0.0), F(0.0)]);
}

#[test]
fn a_tick_moves_by_the_spring_step() {
    let mut t: NodeTree<F> = NodeTree::new();
    let id = t.add_root(Node::rect().scroll_y().build());
    place(&mut t, id, [0.0, 0.0, 100.0, 100.0], [100.0, 1100.0]);
    t.set_scroll_stiffness(id, F(10.0));
    t.set_scroll_target(id, [F(0.0), F(1000.0)]);
    assert!(t.tick_scrolls(F(0.1)));
    let c = t.scroll_offset(id)[1].0;
    assert!((c - 1000.0 * (1.0 - (-1.0f32).exp())).abs() < 0.01, "{c}");
}

#[test]
fn a_hiding_bar_waits_for_the_pointer() {
    let mut t: NodeTree<F> = NodeTree::new();
    let id = t.add_root(Node::rect().scroll_y().scrollbar(|s| s.auto_hide(true)).build());
    place(&mut t, id, [0.0, 0.0, 100.0, 100.0], [100.0, 1000.0]);
    t.add_scroll_delta(id, [F(0.0), F(500.0)]);
    assert!(t.has_active_scrolls());
    assert!(t.tick_scrolls(F(1.0 / 60.0)));
    assert_eq!(t.get(id).unwrap().scroll.unwrap().bar_alpha, F(0.0));
    assert!(t.set_bar_hover(id, [false, true]));
    t.tick_scrolls(F(1.0 / 60.0));
    assert_eq!(t.get(id).unwrap().scroll.unwrap().bar_alpha, F(1.0));
    assert!(t.set_bar_hover(id, [false, false]));
    for _ in 0..120 {
        t.tick_scrolls(F(1.0 / 60.0));
    }
    assert!(!t.has_active_scrolls());
    assert_eq!(t.scroll_offset(id)[1], F(500.0));
}

#[test]
fn nested_clips_narrow() {
    let mut t: NodeTree<F> = NodeTree::new();
    let outer = t.add_root(Node::rect().clip().build());
    place(&mut t, outer, [0.0, 0.0, 50.0, 50.0], [0.0, 0.0]);
    let inner = t.add_child(outer, Node::rect().clip().build());
    place(&mut t, inner, [20.0, 20.0, 80.0, 10.0], [0.0, 0.0]);
    let leaf =
        t.add_child(inner, Node::rect().window_action(WindowAction::Close).build());
    place(&mut t, leaf, [0.0, 0.0, 100.0, 100.0], [0.0, 0.0]);
    let (_, hits, _, _) = t.flatten(F(1.0));
    assert_eq!(hits.len(), 1);
    assert_eq!(hits[0].node_id, leaf);
    assert!(hits[0].contains(F(30.0), F(25.0)));
    assert!(!hits[0].contains(F(60.0), F(25.0)), "outside the outer clip");
    assert!(!hits[0].contains(F(30.0), F(40.0)), "outside the inner clip");
}

#[test]
fn equal_trees_flatten_alike() {
    let mut t: NodeTree<F> = NodeTree::new();
    let id = t.add_root(Node::rect().build());
    place(&mut t, id, [1.0, 2.0, 3.0, 4.0], [0.0, 0.0]);
    let (a, _, _, _) = t.flatten(F(1.0));
    t.mark_all_dirty();
    let (b, _, _, _) = t.flatten(F(1.0));
    assert_eq!(format!("{a:?}"), format!("{b:?}"));
}

#[test]
fn thumbs_lie_on_their_tracks_and_tracks_apart() {
    for offset in [0.0, 37.0, 400.0, 900.0] {
        let mut t: NodeTree<F> = NodeTree::new();
        let id = t.add_root(
            Node::rect()
                .scroll()
                .scrollbar(|s| s.thickness(F(8.0)).margin(F(2.0)).min_thumb(F(20.0)))
                .build(),
        );
        place(&mut t, id, [10.0, 20.0, 100.0, 200.0], [3000.0, 1100.0]);
        t.set_scroll_immediate(id, ScrollAxis::Y, F(offset));
        let (_, _, _, bars) = t.flatten(F(1.0));
        assert_eq!(bars.len(), 2, "faded bars are listed too");
        assert_eq!(bars[0].axis, ScrollAxis::Y);
        assert_eq!(bars[1].axis, ScrollAxis::X);
        for b in &bars {
            assert!(b.thumb[0].0 >= b.track[0].0 && b.thumb[2].0 <= b.track[2].0 + 1e-3);
            assert!(b.thumb[1].0 >= b.track[1].0 && b.thumb[3].0 <= b.track[3].0 + 1e-3);
        }
        let (y, x) = (&bars[0], &bars[1]);
        assert_eq!(y.track, [F(100.0), F(22.0), F(108.0), F(218.0)]);
        assert_eq!(x.track, [F(12.0), F(210.0), F(98.0), F(218.0)]);
        assert!(x.track[2].0 <= y.track[0].0);
        assert_eq!(x.thumb[2].0 - x.thumb[0].0, 20.0, "the least length");
        assert_eq!(y.max_offset, F(900.0));
        let thumb = y.thumb[3].0 - y.thumb[1].0;
        assert!((y.track_travel.0 - (196.0 - thumb)).abs() < 1e-3);
    }
}

#[test]
fn aiming_twice_changes_nothing_more() {
    let mut t: NodeTree<F> = NodeTree::new();
    let id = t.add_root(Node::rect().scroll_y().build());
    place(&mut t, id, [0.0, 0.0, 100.0, 100.0], [300.0, 250.0]);
    t.set_scroll_target(id, [F(60.0), F(400.0)]);
    let s = t.get(id).unwrap().scroll.unwrap();
    assert_eq!(s.target, [F(0.0), F(150.0)], "still axis kept, other one clamped");
    assert_eq!(s.current, [F(0.0), F(0.0)]);
    t.take_dirty();
    t.set_scroll_target(id, [F(60.0), F(400.0)]);
    assert_eq!(t.dirty(), 0);
    assert_eq!(t.get(id).unwrap().scroll.unwrap().target, [F(0.0), F(150.0)]);
}
