//! What holds of nodes as a scene makes them, and of the small rules that the
//! rest is built on.
use vstd::prelude::*;

use crate::anim::{spring, Curve, Lerp, Tween};
use crate::flatten::{hittable, painted, wheelable, FlatEvent, Pass};
use crate::gpu::instance::{
    SHAPE_KIND_GLASS, SHAPE_KIND_GLYPH, SHAPE_KIND_IMAGE, SHAPE_KIND_RECT,
};
use crate::hud::{bar, panel};
use crate::node::{Node, NodeId, NodeInteract, ScrollState, ShapeKind};
use crate::scalar::{one_s, seconds, zero_s, Fixed, Scalar};
use crate::scene::{blank, spawned, SceneCtx};
use crate::scroll::{chasing, restless, tick_shows, ticked};
use crate::tree_laws::{children_append, free_is_empty, insertion_stores_the_node, roots_append};

verus! {

// --- kinds -----------------------------------------------------------------

/// The shaders tell the kinds apart, and what is glass to the tree is glass to
/// them.
pub proof fn kinds_are_told_apart(kind: ShapeKind)
    ensures
        kind.code() == SHAPE_KIND_GLASS <==> kind == ShapeKind::Glass,
        kind.code() == SHAPE_KIND_IMAGE <==> kind == ShapeKind::Image,
        kind.code() == SHAPE_KIND_RECT <==> kind == ShapeKind::Rect || kind == ShapeKind::Text,
        SHAPE_KIND_RECT != SHAPE_KIND_GLASS,
        SHAPE_KIND_RECT != SHAPE_KIND_IMAGE,
        SHAPE_KIND_RECT != SHAPE_KIND_GLYPH,
        SHAPE_KIND_GLASS != SHAPE_KIND_IMAGE,
        SHAPE_KIND_GLASS != SHAPE_KIND_GLYPH,
        SHAPE_KIND_IMAGE != SHAPE_KIND_GLYPH,
{
}

/// A rectangle is painted as one, a pane of glass as glass.
pub proof fn shapes_are_painted_by_kind<S: Scalar>(n: Node<S>, p: Pass<S>)
    requires
        n.style.kind == ShapeKind::Rect || n.style.kind == ShapeKind::Glass,
    ensures
        painted(n, p).len() == 1,
        painted(n, p)[0] matches FlatEvent::Shape(s) && (s.shape_kind == SHAPE_KIND_GLASS
            <==> n.style.kind == ShapeKind::Glass) && (s.shape_kind == SHAPE_KIND_RECT
            <==> n.style.kind == ShapeKind::Rect),
{
}

// --- who takes the pointer -------------------------------------------------

/// A node takes the pointer if it keeps any flag or stands for a part of the
/// window's frame, and only then.
pub proof fn any_flag_takes_the_pointer<S: Scalar>(n: Node<S>)
    ensures
        n.interact.hover is Some ==> hittable(n),
        n.interact.pressed is Some ==> hittable(n),
        n.interact.focused is Some ==> hittable(n),
        n.window_action is Some ==> hittable(n),
        hittable(n) ==> n.interact.hover is Some || n.interact.pressed is Some
            || n.interact.focused is Some || n.window_action is Some,
        !NodeInteract::inert().listens(),
{
}

/// Content can be scrolled by the wheel where either axis scrolls. What
/// scrolls is cut at the edge, what is hidden too, what is visible not.
pub proof fn either_axis_scrolls<S: Scalar>(n: Node<S>)
    ensures
        n.scroll is Some && n.layout.overflow_x is Scroll ==> wheelable(n),
        n.scroll is Some && n.layout.overflow_y is Scroll ==> wheelable(n),
        wheelable(n) ==> n.scroll is Some && (n.layout.overflow_x is Scroll
            || n.layout.overflow_y is Scroll),
        n.layout.is_scroll() ==> n.layout.is_clip(),
        n.layout.is_clip() <==> !(n.layout.overflow_x is Visible && n.layout.overflow_y is Visible),
        n.layout.is_scroll() <==> n.layout.overflow_x is Scroll || n.layout.overflow_y is Scroll,
{
}

/// A bar that is hovered or dragged, on either axis, is fully shown by the next
/// tick, and the node keeps asking for ticks.
pub proof fn touched_bars_show(n: Node<Fixed>, s: ScrollState<Fixed>, dt: Fixed, axis: int)
    requires
        axis == 0 || axis == 1,
        n.scroll == Some(s),
        s.bar_hover[axis] || s.bar_active[axis],
        s.bar_alpha.raw <= 65536,
    ensures
        ticked(s, dt).bar_alpha.raw == 65536,
        restless(Some(n)),
        s.bar_active[axis] ==> s.held(),
        s.bar_hover[axis] ==> s.hovered(),
{
    assert(one_s::<Fixed>().raw == 65536);
}

/// A state at rest is scrolled nowhere, heads nowhere, and shows no bar; a node
/// at rest asks for no ticks.
pub proof fn rest_is_rest(n: Node<Fixed>)
    requires
        n.scroll == Some(ScrollState::<Fixed>::rest()),
    ensures
        ({
            let s = ScrollState::<Fixed>::rest();
            &&& s.current[0].raw == 0 && s.current[1].raw == 0
            &&& s.target == s.current
            &&& s.bar_alpha.raw == 0
            &&& !s.held() && !s.hovered()
            &&& !s.overscroll
        }),
        !restless(Some(n)),
{
    assert(zero_s::<Fixed>().raw == 0);
}

/// A tick reports that it shows where it moved the offset or, at rest, the
/// bar's fading; and it never reports what changed nothing.
pub proof fn ticks_report_what_shows(s: ScrollState<Fixed>, dt: Fixed)
    ensures
        ({
            let t = ticked(s, dt);
            let moved = t.current[0] != s.current[0] || t.current[1] != s.current[1];
            &&& moved ==> tick_shows(s, dt)
            &&& !chasing(s) ==> (tick_shows(s, dt) <==> t.bar_alpha != s.bar_alpha)
            &&& tick_shows(s, dt) ==> moved || t.bar_alpha != s.bar_alpha
        }),
{
}

// --- settling --------------------------------------------------------------

/// A spring is over before its time only where it is within a thousandth of
/// its goal and next to still; and there it is over.
pub proof fn springs_stop_at_their_goal<V: Lerp<Fixed>>(tw: Tween<Fixed, V>, now: u64, k: Fixed, c: Fixed)
    requires
        tw.curve == (Curve::Spring { stiffness: k, damping: c }),
        tw.start <= now,
        now - tw.start < tw.duration,
    ensures
        ({
            let (x, v) = spring(k, c, seconds((now - tw.start) as u64));
            -0x7fff_ffff_ffff_0000 < x.raw && -0x7fff_ffff_ffff_ffff < v.raw ==> (tw.over_at(now)
                <==> -65 < x.raw - 65536 < 65 && -65 < v.raw < 65)
        }),
{
    assert(zero_s::<Fixed>().raw == 0 && one_s::<Fixed>().raw == 65536);
    assert(Fixed::rat(1, 1000).raw == 65);
}

// --- scenes ----------------------------------------------------------------

/// A node that a scene makes is there under its identifier and its name, a
/// pane of glass if it was to be one; under the scene's parent if it has one,
/// else a root, after what was there before. Other names stay.
pub proof fn scenes_add_nodes<S: Scalar>(
    before: SceneCtx<S>,
    parent: Option<NodeId>,
    name: Seq<char>,
    glass: bool,
    after: SceneCtx<S>,
    other: Seq<char>,
)
    requires
        before.tree@.room(),
        free_is_empty(before.tree@),
        parent matches Some(p) ==> before.tree@.node(p) is Some,
        spawned(before, parent, name, glass, after),
    ensures
        ({
            let t = before.tree@;
            let u = after.tree@;
            let id = t.next_id();
            &&& u.node(id) matches Some(n)
            &&& n.visible
            &&& n.children@.len() == 0
            &&& n.style.kind == ShapeKind::Glass <==> glass
            &&& n.style.kind == ShapeKind::Rect <==> !glass
            &&& parent matches Some(p) ==> u.kids(p) == t.kids(p).push(id) && u.roots == t.roots
            &&& parent is None ==> u.roots == t.roots.push(id)
            &&& name.len() > 0 ==> after.names@.contains_key(name) && after.names@[name] == id
            &&& name.len() == 0 ==> after.names@ == before.names@
            &&& other != name ==> (after.names@.contains_key(other)
                <==> before.names@.contains_key(other)) && (before.names@.contains_key(other)
                ==> after.names@[other] == before.names@[other])
        }),
{
    let t = before.tree@;
    let u = after.tree@;
    let n = choose|n: Node<S>|
        #![trigger blank(glass, n)]
        blank(glass, n) && match parent {
            Some(p) => t.child_added(p, n, u),
            None => u == t.root_added(n),
        };
    insertion_stores_the_node(t, n, t.next_id());
    match parent {
        Some(p) => {
            children_append(t, p, n, u, p);
        },
        None => {
            roots_append(t, n);
        },
    }
}

// --- gauges ----------------------------------------------------------------

/// The gauges lie on their panel.
pub proof fn gauges_lie_on_the_panel(i: u64, load: Fixed, k: int)
    requires
        i < 4,
        0 <= k < bar(i, load).len(),
    ensures
        ({
            let p = panel::<Fixed>();
            let b = bar(i, load)[k];
            &&& p.position[0].raw < b.position[0].raw
            &&& p.position[1].raw < b.position[1].raw
            &&& b.position[0].raw + b.size[0].raw < p.position[0].raw + p.size[0].raw
            &&& b.position[1].raw + b.size[1].raw < p.position[1].raw + p.size[1].raw
        }),
{
    assert(zero_s::<Fixed>().raw == 0 && one_s::<Fixed>().raw == 65536);
    assert(Fixed::rat(10, 1).raw == 655360 && Fixed::rat(6, 1).raw == 393216);
    assert(Fixed::rat(12, 1).raw == 786432 && Fixed::rat(8, 1).raw == 524288);
    assert(Fixed::rat(200, 1).raw == 13107200 && Fixed::rat(2, 1).raw == 131072);
    assert(crate::hud::bar_step::<Fixed>().raw == 1048576);
    assert(Fixed::cnt(4).raw == 262144);
    assert(524288 * 131072 == 1048576 * 65536);
    assert(Fixed::rat(8, 1).prod(Fixed::rat(2, 1)).raw == 1048576);
    assert(1048576 * 262144 == 4194304 * 65536);
    assert(crate::hud::bar_step::<Fixed>().prod(Fixed::cnt(4)).raw == 4194304);
    crate::frame_laws::gauges_fill_with_load(i, load);
    assert(i == 0 || i == 1 || i == 2 || i == 3);
    assert(Fixed::cnt(0).raw == 0 && Fixed::cnt(1).raw == 65536 && Fixed::cnt(2).raw == 131072
        && Fixed::cnt(3).raw == 196608);
    assert(0 * 1048576 == 0 && 65536 * 1048576 == 1048576 * 65536 && 131072 * 1048576 == 2097152
        * 65536 && 196608 * 1048576 == 3145728 * 65536);
}

} // verus!
