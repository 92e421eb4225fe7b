//! From tree to paint list.
//!
//! One walk, parents before children, yields everything a frame needs: what
//! to paint, in order; what the pointer can hit, topmost first; what the wheel
//! can scroll; and where the scrollbars are. Opacity multiplies down, clips
//! intersect, scroll offsets add up, so all of it is in screen space.
use vstd::prelude::*;

use crate::gpu::image_atlas::ImageHandle;
use crate::gpu::instance::{no_clip, no_clip_s, ShapeInstance, SHAPE_KIND_RECT};
use crate::node::{BarSide, Node, NodeId, ScrollAxis, ScrollState, ScrollbarStyle, ShapeKind};
use crate::scalar::{
    clamp, clamped, one, one_s, pair, quad, splat2, splat4, units, zero, zero_s, Scalar,
};
use crate::scroll::budget;
use crate::tree::{height_falls, NodeTree, TreeView};

verus! {

// --- what a walk yields ----------------------------------------------------

/// A text to paint; the caller shapes it and looks its glyphs up.
#[derive(Clone, Debug)]
pub struct TextRef<S> {
    pub position: [S; 2],
    pub color: [S; 4],
    pub opacity: S,
    pub content: String,
    pub font_size: S,
    pub line_height: S,
    pub clip_rect: [S; 4],
}

/// An image to paint; the caller looks it up in the atlas.
#[derive(Copy, Clone, Debug)]
pub struct ImageRef<S> {
    pub position: [S; 2],
    pub size: [S; 2],
    pub color: [S; 4],
    pub opacity: S,
    pub border_radius: [S; 4],
    pub handle: ImageHandle,
    pub clip_rect: [S; 4],
}

/// One thing to paint.
#[derive(Clone, Debug)]
pub enum FlatEvent<S> {
    Shape(ShapeInstance<S>),
    Text(TextRef<S>),
    Image(ImageRef<S>),
}

/// A node the pointer can hit.
#[derive(Copy, Clone, Debug)]
pub struct HitEntry<S> {
    pub node_id: NodeId,
    /// `[min_x, min_y, max_x, max_y]` on screen.
    pub bounds: [S; 4],
    /// What its ancestors leave visible.
    pub clip_rect: [S; 4],
}

/// Whether a point is in `[min_x, max_x) x [min_y, max_y)` and in the clip.
pub open spec fn inside<S: Scalar>(bounds: [S; 4], clip: [S; 4], x: S, y: S) -> bool {
    &&& !(x.less(bounds[0]) || bounds[2].leq(x) || y.less(bounds[1]) || bounds[3].leq(y))
    &&& clip[0].leq(x) && x.less(clip[2]) && clip[1].leq(y) && y.less(clip[3])
}

fn within<S: Scalar>(bounds: [S; 4], clip: [S; 4], x: S, y: S) -> (r: bool)
    ensures
        r == inside(bounds, clip, x, y),
{
    if x.lt(bounds[0]) || bounds[2].le(x) || y.lt(bounds[1]) || bounds[3].le(y) {
        return false;
    }
    clip[0].le(x) && x.lt(clip[2]) && clip[1].le(y) && y.lt(clip[3])
}

impl<S: Scalar> HitEntry<S> {
    /// Whether the node is under the point.
    pub fn contains(&self, x: S, y: S) -> (r: bool)
        ensures
            r == inside(self.bounds, self.clip_rect, x, y),
    {
        within(self.bounds, self.clip_rect, x, y)
    }
}

/// A scroll container the wheel can reach.
#[derive(Clone, Debug)]
pub struct ScrollHit<S> {
    pub node_id: NodeId,
    pub bounds: [S; 4],
    pub clip_rect: [S; 4],
    /// The container itself, then each scroll container around it, outward.
    pub ancestor_chain: Vec<NodeId>,
}

/// The contents of a [`ScrollHit`].
#[verifier::ext_equal]
pub struct ScrollHitView<S> {
    pub node_id: NodeId,
    pub bounds: [S; 4],
    pub clip_rect: [S; 4],
    pub ancestor_chain: Seq<NodeId>,
}

impl<S> View for ScrollHit<S> {
    type V = ScrollHitView<S>;

    open spec fn view(&self) -> ScrollHitView<S> {
        ScrollHitView {
            node_id: self.node_id,
            bounds: self.bounds,
            clip_rect: self.clip_rect,
            ancestor_chain: self.ancestor_chain@,
        }
    }
}

impl<S: Scalar> ScrollHit<S> {
    /// Whether the container is under the point.
    pub fn contains(&self, x: S, y: S) -> (r: bool)
        ensures
            r == inside(self.bounds, self.clip_rect, x, y),
    {
        within(self.bounds, self.clip_rect, x, y)
    }
}

/// A scrollbar, painted or faded out.
#[derive(Copy, Clone, Debug)]
pub struct ScrollbarHit<S> {
    pub node_id: NodeId,
    pub axis: ScrollAxis,
    pub track: [S; 4],
    pub thumb: [S; 4],
    pub clip_rect: [S; 4],
    /// Largest scroll offset of the axis.
    pub max_offset: S,
    /// How far the thumb can move.
    pub track_travel: S,
}

/// Everything a walk yields, hits still in paint order.
#[verifier::ext_equal]
pub struct Flat<S> {
    pub events: Seq<FlatEvent<S>>,
    pub hits: Seq<HitEntry<S>>,
    pub scroll_hits: Seq<ScrollHitView<S>>,
    pub bars: Seq<ScrollbarHit<S>>,
}

impl<S> Flat<S> {
    pub open spec fn nothing() -> Flat<S> {
        Flat {
            events: Seq::empty(),
            hits: Seq::empty(),
            scroll_hits: Seq::empty(),
            bars: Seq::empty(),
        }
    }

    /// One yield after another.
    pub open spec fn then_also(self, other: Flat<S>) -> Flat<S> {
        Flat {
            events: self.events + other.events,
            hits: self.hits + other.hits,
            scroll_hits: self.scroll_hits + other.scroll_hits,
            bars: self.bars + other.bars,
        }
    }
}

pub open spec fn hit_views<S>(s: Seq<ScrollHit<S>>) -> Seq<ScrollHitView<S>> {
    s.map_values(|h: ScrollHit<S>| h@)
}

// --- what one node yields --------------------------------------------------

/// What a node inherits from the nodes around it.
pub struct Pass<S> {
    pub opacity: S,
    pub clip: [S; 4],
    pub offset: [S; 2],
    /// The scroll containers around it, innermost last.
    pub stack: Seq<NodeId>,
}

impl<S: Scalar> Pass<S> {
    /// What a root inherits.
    pub open spec fn top() -> Pass<S> {
        Pass {
            opacity: one_s(),
            clip: no_clip_s(),
            offset: pair(zero_s()),
            stack: Seq::empty(),
        }
    }
}

pub open spec fn corner<S: Scalar>(n: Node<S>, offset: [S; 2]) -> [S; 2] {
    [n.rect[0].diff(offset[0]), n.rect[1].diff(offset[1])]
}

pub open spec fn extent<S: Scalar>(n: Node<S>) -> [S; 2] {
    [n.rect[2], n.rect[3]]
}

pub open spec fn box_of<S: Scalar>(at: [S; 2], size: [S; 2]) -> [S; 4] {
    [at[0], at[1], at[0].sum(size[0]), at[1].sum(size[1])]
}

/// What a node itself paints. Glass carries its blur and refraction in the
/// field that holds atlas coordinates for other kinds.
pub open spec fn painted<S: Scalar>(n: Node<S>, p: Pass<S>) -> Seq<FlatEvent<S>> {
    let at = corner(n, p.offset);
    let opacity = p.opacity.prod(n.style.opacity);
    match n.style.kind {
        ShapeKind::Rect | ShapeKind::Glass => seq![
            FlatEvent::Shape(
                ShapeInstance {
                    color: n.style.color,
                    border_color: n.style.border_color,
                    shadow_color: n.style.shadow_color,
                    border_radius: n.style.border_radius,
                    backdrop_uv_rect: if n.style.kind == ShapeKind::Glass {
                        [n.style.blur_amount, n.style.refraction, zero_s(), zero_s()]
                    } else {
                        quad(zero_s())
                    },
                    clip_rect: p.clip,
                    position: at,
                    size: extent(n),
                    shadow_offset: n.style.shadow_offset,
                    shape_kind: n.style.kind.code(),
                    roughness: n.style.roughness,
                    border_width: n.style.border_width,
                    shadow_blur: n.style.shadow_blur,
                    shadow_opacity: n.style.shadow_opacity,
                    opacity,
                },
            ),
        ],
        ShapeKind::Text => match n.text {
            Some(t) => seq![
                FlatEvent::Text(
                    TextRef {
                        position: at,
                        color: n.style.color,
                        opacity,
                        content: t.content,
                        font_size: t.font_size,
                        line_height: t.line_height,
                        clip_rect: p.clip,
                    },
                ),
            ],
            None => Seq::empty(),
        },
        ShapeKind::Image => match n.image {
            Some(handle) => seq![
                FlatEvent::Image(
                    ImageRef {
                        position: at,
                        size: extent(n),
                        color: n.style.color,
                        opacity,
                        border_radius: n.style.border_radius,
                        handle,
                        clip_rect: p.clip,
                    },
                ),
            ],
            None => Seq::empty(),
        },
    }
}

/// Whether the pointer can hit a node.
pub open spec fn hittable<S: Scalar>(n: Node<S>) -> bool {
    n.interact.listens() || n.window_action is Some
}

/// Whether the wheel can scroll a node.
pub open spec fn wheelable<S: Scalar>(n: Node<S>) -> bool {
    n.scroll is Some && n.layout.is_scroll()
}

/// What a node yields before its children.
pub open spec fn own<S: Scalar>(id: NodeId, n: Node<S>, p: Pass<S>) -> Flat<S> {
    let bounds = box_of(corner(n, p.offset), extent(n));
    Flat {
        events: painted(n, p),
        hits: if hittable(n) {
            seq![HitEntry { node_id: id, bounds, clip_rect: p.clip }]
        } else {
            Seq::empty()
        },
        scroll_hits: if wheelable(n) {
            seq![
                ScrollHitView {
                    node_id: id,
                    bounds,
                    clip_rect: p.clip,
                    ancestor_chain: seq![id] + p.stack.reverse(),
                },
            ]
        } else {
            Seq::empty()
        },
        bars: Seq::empty(),
    }
}

/// The overlap of two clips.
pub open spec fn clip_overlap<S: Scalar>(a: [S; 4], b: [S; 4]) -> [S; 4] {
    [a[0].hi(b[0]), a[1].hi(b[1]), a[2].lo(b[2]), a[3].lo(b[3])]
}

/// The clip a node puts on its children, open on axes that do not clip.
pub open spec fn self_clip<S: Scalar>(n: Node<S>, at: [S; 2]) -> [S; 4] {
    let near = zero_s::<S>().diff(S::huge());
    let x = n.layout.overflow_x.is_clip();
    let y = n.layout.overflow_y.is_clip();
    [
        if x {
            at[0]
        } else {
            near
        },
        if y {
            at[1]
        } else {
            near
        },
        if x {
            at[0].sum(n.rect[2])
        } else {
            S::huge()
        },
        if y {
            at[1].sum(n.rect[3])
        } else {
            S::huge()
        },
    ]
}

/// What the children of a node inherit.
pub open spec fn handed_down<S: Scalar>(id: NodeId, n: Node<S>, p: Pass<S>) -> Pass<S> {
    Pass {
        opacity: p.opacity.prod(n.style.opacity),
        clip: if n.layout.is_clip() {
            clip_overlap(p.clip, self_clip(n, corner(n, p.offset)))
        } else {
            p.clip
        },
        offset: match n.scroll {
            Some(s) => [p.offset[0].sum(s.current[0]), p.offset[1].sum(s.current[1])],
            None => p.offset,
        },
        stack: if wheelable(n) {
            p.stack.push(id)
        } else {
            p.stack
        },
    }
}

// --- scrollbars ------------------------------------------------------------

/// A scrollbar's place: a track, and the thumb on it.
#[derive(Copy, Clone, Debug)]
pub struct BarGeometry<S> {
    pub track_at: [S; 2],
    pub track_size: [S; 2],
    pub thumb_at: [S; 2],
    pub thumb_size: [S; 2],
    pub max_offset: S,
    pub travel: S,
}

/// Length of the thumb on a track: its share of what is visible, but no
/// shorter than the style allows and no longer than the track.
pub open spec fn thumb_length<S: Scalar>(track: S, visible: S, content: S, least: S) -> S {
    track.prod(clamped(visible.quot(content), zero_s(), one_s())).hi(least).lo(track)
}

/// How far along the thumb is.
pub open spec fn thumb_fraction<S: Scalar>(offset: S, max_offset: S) -> S {
    clamped(offset.quot(max_offset), zero_s(), one_s())
}

/// The vertical bar: there is one if the axis scrolls, the content is taller
/// than the node and the margins leave a track.
pub open spec fn y_bar<S: Scalar>(
    n: Node<S>,
    s: ScrollState<S>,
    at: [S; 2],
    scale: S,
) -> Option<BarGeometry<S>> {
    let w = s.style.thickness.prod(scale);
    let margin = s.style.margin.prod(scale);
    let max_off = budget(n, 1);
    let h = n.rect[3].diff(margin.prod(S::rat(2, 1)));
    if n.layout.overflow_y.is_scroll() && zero_s::<S>().less(max_off) && zero_s::<S>().less(h) {
        let x = match s.style.y_side {
            BarSide::End => at[0].sum(n.rect[2]).diff(w).diff(margin),
            BarSide::Start => at[0].sum(margin),
        };
        let y = at[1].sum(margin);
        let thumb = thumb_length(
            h,
            n.rect[3],
            n.content_size[1],
            s.style.min_thumb.prod(scale),
        );
        Some(
            BarGeometry {
                track_at: [x, y],
                track_size: [w, h],
                thumb_at: [x, y.sum(thumb_fraction(s.current[1], max_off).prod(h.diff(thumb)))],
                thumb_size: [w, thumb],
                max_offset: max_off,
                travel: h.diff(thumb).hi(zero_s()),
            },
        )
    } else {
        None
    }
}

/// The horizontal bar. Where both axes scroll it leaves room for the vertical
/// one, on the side that one is on.
pub open spec fn x_bar<S: Scalar>(
    n: Node<S>,
    s: ScrollState<S>,
    at: [S; 2],
    scale: S,
) -> Option<BarGeometry<S>> {
    let h = s.style.thickness.prod(scale);
    let margin = s.style.margin.prod(scale);
    let max_off = budget(n, 0);
    let both = n.layout.overflow_y.is_scroll();
    let full = n.rect[2].diff(margin.prod(S::rat(2, 1)));
    let w = if both {
        full.diff(h.sum(margin))
    } else {
        full
    };
    if n.layout.overflow_x.is_scroll() && zero_s::<S>().less(max_off) && zero_s::<S>().less(w) {
        let left = at[0].sum(margin);
        let x = if both && s.style.y_side == BarSide::Start {
            left.sum(h.sum(margin))
        } else {
            left
        };
        let y = match s.style.x_side {
            BarSide::End => at[1].sum(n.rect[3]).diff(h).diff(margin),
            BarSide::Start => at[1].sum(margin),
        };
        let thumb = thumb_length(
            w,
            n.rect[2],
            n.content_size[0],
            s.style.min_thumb.prod(scale),
        );
        Some(
            BarGeometry {
                track_at: [x, y],
                track_size: [w, h],
                thumb_at: [x.sum(thumb_fraction(s.current[0], max_off).prod(w.diff(thumb))), y],
                thumb_size: [thumb, h],
                max_offset: max_off,
                travel: w.diff(thumb).hi(zero_s()),
            },
        )
    } else {
        None
    }
}

pub open spec fn thumb_rgba<S: Scalar>(style: ScrollbarStyle<S>, active: bool, hover: bool) -> [S;
    4] {
    if active {
        style.thumb_active_color
    } else if hover {
        style.thumb_hover_color
    } else {
        style.thumb_color
    }
}

pub open spec fn dimmed<S: Scalar>(c: [S; 4], a: S) -> [S; 4] {
    [c[0], c[1], c[2], c[3].prod(a)]
}

/// A bar's rectangle, unless it would not show.
pub open spec fn bar_quad<S: Scalar>(
    at: [S; 2],
    size: [S; 2],
    rgba: [S; 4],
    radius: S,
    clip: [S; 4],
) -> Seq<FlatEvent<S>> {
    if rgba[3].leq(S::rat(1, 1000)) || size[0].leq(zero_s()) || size[1].leq(zero_s()) {
        Seq::empty()
    } else {
        seq![
            FlatEvent::Shape(
                ShapeInstance {
                    color: rgba,
                    border_color: quad(zero_s()),
                    shadow_color: quad(zero_s()),
                    border_radius: quad(radius),
                    backdrop_uv_rect: quad(zero_s()),
                    clip_rect: clip,
                    position: at,
                    size,
                    shadow_offset: pair(zero_s()),
                    shape_kind: SHAPE_KIND_RECT,
                    roughness: zero_s(),
                    border_width: zero_s(),
                    shadow_blur: zero_s(),
                    shadow_opacity: zero_s(),
                    opacity: one_s(),
                },
            ),
        ]
    }
}

/// Opacity of the bars: that of the node, times how far they have faded in.
pub open spec fn bar_visual<S: Scalar>(s: ScrollState<S>, opacity: S) -> S {
    (if s.style.always_visible {
        one_s::<S>()
    } else {
        s.bar_alpha
    }).prod(opacity)
}

/// What one bar yields. It can be hit even while it is faded out.
pub open spec fn bar_flat<S: Scalar>(
    id: NodeId,
    axis: ScrollAxis,
    s: ScrollState<S>,
    bar: Option<BarGeometry<S>>,
    opacity: S,
    clip: [S; 4],
) -> Flat<S> {
    match bar {
        Some(g) => {
            let i = axis.position();
            let visual = bar_visual(s, opacity);
            let thumb = thumb_rgba(s.style, s.bar_active[i], s.bar_hover[i]);
            Flat {
                events: bar_quad(
                    g.track_at,
                    g.track_size,
                    dimmed(s.style.track_color, visual),
                    s.style.radius,
                    clip,
                ) + bar_quad(
                    g.thumb_at,
                    g.thumb_size,
                    dimmed(thumb, visual),
                    s.style.radius,
                    clip,
                ),
                hits: Seq::empty(),
                scroll_hits: Seq::empty(),
                bars: seq![
                    ScrollbarHit {
                        node_id: id,
                        axis,
                        track: box_of(g.track_at, g.track_size),
                        thumb: box_of(g.thumb_at, g.thumb_size),
                        clip_rect: clip,
                        max_offset: g.max_offset,
                        track_travel: g.travel,
                    },
                ],
            }
        },
        None => Flat::nothing(),
    }
}

/// What a node's scrollbars yield: the vertical one, then the horizontal one.
pub open spec fn bars<S: Scalar>(id: NodeId, n: Node<S>, p: Pass<S>, scale: S) -> Flat<S> {
    match n.scroll {
        Some(s) => {
            let at = corner(n, p.offset);
            let opacity = p.opacity.prod(n.style.opacity);
            bar_flat(
                id,
                ScrollAxis::Y,
                s,
                y_bar(n, s, at, scale),
                opacity,
                p.clip,
            ).then_also(
                bar_flat(id, ScrollAxis::X, s, x_bar(n, s, at, scale), opacity, p.clip),
            )
        },
        None => Flat::nothing(),
    }
}

// --- what a subtree yields -------------------------------------------------

/// What a node yields: itself, its children in order, then its scrollbars on
/// top. A node that is hidden or gone yields nothing.
pub open spec fn flat_node<S: Scalar>(t: TreeView<S>, id: NodeId, p: Pass<S>, scale: S) -> Flat<S>
    decreases t.height(id), 1nat, 0nat,
    when t.acyclic()
{
    match t.node(id) {
        Some(n) => if n.visible {
            own(id, n, p).then_also(
                flat_kids(t, id, n.children@.len(), handed_down(id, n, p), scale),
            ).then_also(bars(id, n, p, scale))
        } else {
            Flat::nothing()
        },
        None => Flat::nothing(),
    }
}

/// What the first `k` children of a node yield.
pub open spec fn flat_kids<S: Scalar>(
    t: TreeView<S>,
    id: NodeId,
    k: nat,
    p: Pass<S>,
    scale: S,
) -> Flat<S>
    decreases t.height(id), 0nat, k,
    when t.acyclic() && k <= t.kids(id).len()
{
    if k == 0 {
        Flat::nothing()
    } else {
        proof {
            height_falls(t, id, k - 1);
        }
        flat_kids(t, id, (k - 1) as nat, p, scale).then_also(
            flat_node(t, t.kids(id)[k - 1], p, scale),
        )
    }
}

/// What the first `k` roots yield.
pub open spec fn flat_roots<S: Scalar>(t: TreeView<S>, k: nat, scale: S) -> Flat<S>
    decreases k,
{
    if k == 0 {
        Flat::nothing()
    } else {
        flat_roots(t, (k - 1) as nat, scale).then_also(
            flat_node(t, t.roots[k - 1], Pass::top(), scale),
        )
    }
}

/// What a tree yields.
pub open spec fn flat_tree<S: Scalar>(t: TreeView<S>, scale: S) -> Flat<S> {
    flat_roots(t, t.roots.len(), scale)
}

// --- the walk --------------------------------------------------------------

fn overlap<S: Scalar>(a: [S; 4], b: [S; 4]) -> (r: [S; 4])
    ensures
        r == clip_overlap(a, b),
{
    [a[0].larger(b[0]), a[1].larger(b[1]), a[2].smaller(b[2]), a[3].smaller(b[3])]
}

fn bounds_of<S: Scalar>(at: [S; 2], size: [S; 2]) -> (r: [S; 4])
    ensures
        r == box_of(at, size),
{
    [at[0], at[1], at[0].plus(size[0]), at[1].plus(size[1])]
}

fn own_clip<S: Scalar>(n: &Node<S>, at: [S; 2]) -> (r: [S; 4])
    ensures
        r == self_clip(*n, at),
{
    let far: S = S::far();
    let near: S = zero::<S>().minus(far);
    let x: bool = n.layout.overflow_x.clips();
    let y: bool = n.layout.overflow_y.clips();
    [
        if x {
            at[0]
        } else {
            near
        },
        if y {
            at[1]
        } else {
            near
        },
        if x {
            at[0].plus(n.rect[2])
        } else {
            far
        },
        if y {
            at[1].plus(n.rect[3])
        } else {
            far
        },
    ]
}

fn thumb_len<S: Scalar>(track: S, visible: S, content: S, least: S) -> (r: S)
    ensures
        r == thumb_length(track, visible, content, least),
{
    track.times(clamp(visible.over(content), zero(), one())).larger(least).smaller(track)
}

fn max_offset<S: Scalar>(n: &Node<S>, axis: usize) -> (r: S)
    requires
        axis < 2,
    ensures
        r == budget(*n, axis as int),
{
    n.content_size[axis].minus(n.rect[2 + axis]).larger(zero())
}

fn bar_along_y<S: Scalar>(n: &Node<S>, s: &ScrollState<S>, at: [S; 2], scale: S) -> (r: Option<
    BarGeometry<S>,
>)
    ensures
        r == y_bar(*n, *s, at, scale),
{
    let w: S = s.style.thickness.times(scale);
    let margin: S = s.style.margin.times(scale);
    if !n.layout.overflow_y.scrolls() {
        return None;
    }
    let max_off: S = max_offset(n, 1);
    if !zero::<S>().lt(max_off) {
        return None;
    }
    let x: S = match s.style.y_side {
        BarSide::End => at[0].plus(n.rect[2]).minus(w).minus(margin),
        BarSide::Start => at[0].plus(margin),
    };
    let y: S = at[1].plus(margin);
    let h: S = n.rect[3].minus(margin.times(units(2)));
    if !zero::<S>().lt(h) {
        return None;
    }
    let thumb: S = thumb_len(h, n.rect[3], n.content_size[1], s.style.min_thumb.times(scale));
    let frac: S = clamp(s.current[1].over(max_off), zero(), one());
    Some(
        BarGeometry {
            track_at: [x, y],
            track_size: [w, h],
            thumb_at: [x, y.plus(frac.times(h.minus(thumb)))],
            thumb_size: [w, thumb],
            max_offset: max_off,
            travel: h.minus(thumb).larger(zero()),
        },
    )
}

fn bar_along_x<S: Scalar>(n: &Node<S>, s: &ScrollState<S>, at: [S; 2], scale: S) -> (r: Option<
    BarGeometry<S>,
>)
    ensures
        r == x_bar(*n, *s, at, scale),
{
    let h: S = s.style.thickness.times(scale);
    let margin: S = s.style.margin.times(scale);
    if !n.layout.overflow_x.scrolls() {
        return None;
    }
    let max_off: S = max_offset(n, 0);
    if !zero::<S>().lt(max_off) {
        return None;
    }
    let y: S = match s.style.x_side {
        BarSide::End => at[1].plus(n.rect[3]).minus(h).minus(margin),
        BarSide::Start => at[1].plus(margin),
    };
    let mut x: S = at[0].plus(margin);
    let mut w: S = n.rect[2].minus(margin.times(units(2)));
    if n.layout.overflow_y.scrolls() {
        let reserved: S = h.plus(margin);
        w = w.minus(reserved);
        if matches!(s.style.y_side, BarSide::Start) {
            x = x.plus(reserved);
        }
    }
    if !zero::<S>().lt(w) {
        return None;
    }
    let thumb: S = thumb_len(w, n.rect[2], n.content_size[0], s.style.min_thumb.times(scale));
    let frac: S = clamp(s.current[0].over(max_off), zero(), one());
    Some(
        BarGeometry {
            track_at: [x, y],
            track_size: [w, h],
            thumb_at: [x.plus(frac.times(w.minus(thumb))), y],
            thumb_size: [thumb, h],
            max_offset: max_off,
            travel: w.minus(thumb).larger(zero()),
        },
    )
}

fn pick_thumb_color<S: Scalar>(style: &ScrollbarStyle<S>, active: bool, hover: bool) -> (r: [S; 4])
    ensures
        r == thumb_rgba(*style, active, hover),
{
    if active {
        style.thumb_active_color
    } else if hover {
        style.thumb_hover_color
    } else {
        style.thumb_color
    }
}

fn scale_alpha<S: Scalar>(c: [S; 4], a: S) -> (r: [S; 4])
    ensures
        r == dimmed(c, a),
{
    [c[0], c[1], c[2], c[3].times(a)]
}

fn emit_quad<S: Scalar>(
    at: [S; 2],
    size: [S; 2],
    rgba: [S; 4],
    radius: S,
    clip: [S; 4],
    events: &mut Vec<FlatEvent<S>>,
)
    ensures
        final(events)@ == old(events)@ + bar_quad(at, size, rgba, radius, clip),
{
    if rgba[3].le(S::ratio(1, 1000)) || size[0].le(zero()) || size[1].le(zero()) {
        return ;
    }
    events.push(
        FlatEvent::Shape(
            ShapeInstance {
                color: rgba,
                border_color: splat4(zero()),
                shadow_color: splat4(zero()),
                border_radius: splat4(radius),
                backdrop_uv_rect: splat4(zero()),
                clip_rect: clip,
                position: at,
                size,
                shadow_offset: splat2(zero()),
                shape_kind: SHAPE_KIND_RECT,
                roughness: zero(),
                border_width: zero(),
                shadow_blur: zero(),
                shadow_opacity: zero(),
                opacity: one(),
            },
        ),
    );
}

fn emit_bar<S: Scalar>(
    id: NodeId,
    axis: ScrollAxis,
    s: &ScrollState<S>,
    bar: Option<BarGeometry<S>>,
    opacity: S,
    clip: [S; 4],
    events: &mut Vec<FlatEvent<S>>,
    scroll_bars: &mut Vec<ScrollbarHit<S>>,
)
    ensures
        final(events)@ == old(events)@ + bar_flat(id, axis, *s, bar, opacity, clip).events,
        final(scroll_bars)@ == old(scroll_bars)@ + bar_flat(id, axis, *s, bar, opacity, clip).bars,
{
    if let Some(g) = bar {
        let i: usize = axis.index();
        let alpha: S = if s.style.always_visible {
            one()
        } else {
            s.bar_alpha
        };
        let visual: S = alpha.times(opacity);
        let thumb_color: [S; 4] = pick_thumb_color(&s.style, s.bar_active[i], s.bar_hover[i]);
        emit_quad(
            g.track_at,
            g.track_size,
            scale_alpha(s.style.track_color, visual),
            s.style.radius,
            clip,
            events,
        );
        emit_quad(
            g.thumb_at,
            g.thumb_size,
            scale_alpha(thumb_color, visual),
            s.style.radius,
            clip,
            events,
        );
        scroll_bars.push(
            ScrollbarHit {
                node_id: id,
                axis,
                track: bounds_of(g.track_at, g.track_size),
                thumb: bounds_of(g.thumb_at, g.thumb_size),
                clip_rect: clip,
                max_offset: g.max_offset,
                track_travel: g.travel,
            },
        );
    }
}

/// Paint a node's scrollbars and list them.
fn emit_scrollbars<S: Scalar>(
    id: NodeId,
    n: &Node<S>,
    s: &ScrollState<S>,
    at: [S; 2],
    opacity: S,
    clip: [S; 4],
    scale: S,
    events: &mut Vec<FlatEvent<S>>,
    scroll_bars: &mut Vec<ScrollbarHit<S>>,
)
    ensures
        ({
            let y = bar_flat(id, ScrollAxis::Y, *s, y_bar(*n, *s, at, scale), opacity, clip);
            let x = bar_flat(id, ScrollAxis::X, *s, x_bar(*n, *s, at, scale), opacity, clip);
            &&& final(events)@ == old(events)@ + y.then_also(x).events
            &&& final(scroll_bars)@ == old(scroll_bars)@ + y.then_also(x).bars
        }),
{
    let y: Option<BarGeometry<S>> = bar_along_y(n, s, at, scale);
    emit_bar(id, ScrollAxis::Y, s, y, opacity, clip, events, scroll_bars);
    let x: Option<BarGeometry<S>> = bar_along_x(n, s, at, scale);
    emit_bar(id, ScrollAxis::X, s, x, opacity, clip, events, scroll_bars);
}

/// Paint one node, without its children.
fn emit_own<S: Scalar>(
    n: &Node<S>,
    at: [S; 2],
    opacity: S,
    clip: [S; 4],
    events: &mut Vec<FlatEvent<S>>,
    Ghost(p): Ghost<Pass<S>>,
)
    requires
        at == corner(*n, p.offset),
        opacity == p.opacity.prod(n.style.opacity),
        clip == p.clip,
    ensures
        final(events)@ == old(events)@ + painted(*n, p),
{
    let size: [S; 2] = [n.rect[2], n.rect[3]];
    match n.style.kind {
        ShapeKind::Rect | ShapeKind::Glass => {
            let extras: [S; 4] = if matches!(n.style.kind, ShapeKind::Glass) {
                [n.style.blur_amount, n.style.refraction, zero(), zero()]
            } else {
                splat4(zero())
            };
            events.push(
                FlatEvent::Shape(
                    ShapeInstance {
                        color: n.style.color,
                        border_color: n.style.border_color,
                        shadow_color: n.style.shadow_color,
                        border_radius: n.style.border_radius,
                        backdrop_uv_rect: extras,
                        clip_rect: clip,
                        position: at,
                        size,
                        shadow_offset: n.style.shadow_offset,
                        shape_kind: n.style.kind.as_u32(),
                        roughness: n.style.roughness,
                        border_width: n.style.border_width,
                        shadow_blur: n.style.shadow_blur,
                        shadow_opacity: n.style.shadow_opacity,
                        opacity,
                    },
                ),
            );
        },
        ShapeKind::Text => {
            if let Some(t) = n.text.as_ref() {
                events.push(
                    FlatEvent::Text(
                        TextRef {
                            position: at,
                            color: n.style.color,
                            opacity,
                            content: t.content.clone(),
                            font_size: t.font_size,
                            line_height: t.line_height,
                            clip_rect: clip,
                        },
                    ),
                );
            }
        },
        ShapeKind::Image => {
            if let Some(handle) = n.image {
                events.push(
                    FlatEvent::Image(
                        ImageRef {
                            position: at,
                            size,
                            color: n.style.color,
                            opacity,
                            border_radius: n.style.border_radius,
                            handle,
                            clip_rect: clip,
                        },
                    ),
                );
            }
        },
    }
}

/// `id`, then the stack from its top down.
fn chain_of(id: NodeId, stack: &Vec<NodeId>) -> (r: Vec<NodeId>)
    ensures
        r@ == seq![id] + stack@.reverse(),
{
    let mut chain: Vec<NodeId> = Vec::new();
    chain.push(id);
    let mut i: usize = stack.len();
    while i > 0
        invariant
            i <= stack.len(),
            chain@.len() == 1 + stack.len() - i,
            chain@[0] == id,
            forall|j: int| 1 <= j < chain@.len() ==> chain@[j] == stack@[stack@.len() - j],
        decreases i,
    {
        i = i - 1;
        chain.push(stack[i]);
    }
    assert(chain@ =~= seq![id] + stack@.reverse());
    chain
}

fn reverse_hits<S: Scalar>(hits: &mut Vec<HitEntry<S>>)
    ensures
        final(hits)@ == old(hits)@.reverse(),
{
    let mut out: Vec<HitEntry<S>> = Vec::new();
    let mut i: usize = hits.len();
    while i > 0
        invariant
            i <= hits.len(),
            hits@ == old(hits)@,
            out@.len() == hits.len() - i,
            forall|j: int| 0 <= j < out@.len() ==> out@[j] == hits@[hits@.len() - 1 - j],
        decreases i,
    {
        i = i - 1;
        out.push(hits[i]);
    }
    assert(out@ =~= old(hits)@.reverse());
    *hits = out;
}

impl<S: Scalar> NodeTree<S> {
    /// Append what the node of `id` and everything below it yields.
    fn flatten_into(
        &self,
        id: NodeId,
        parent_opacity: S,
        clip: [S; 4],
        offset: [S; 2],
        scroll_stack: &mut Vec<NodeId>,
        events: &mut Vec<FlatEvent<S>>,
        hits: &mut Vec<HitEntry<S>>,
        scroll_hits: &mut Vec<ScrollHit<S>>,
        scroll_bars: &mut Vec<ScrollbarHit<S>>,
        scale: S,
    )
        requires
            self@.acyclic(),
        ensures
            final(scroll_stack)@ == old(scroll_stack)@,
            ({
                let p = Pass {
                    opacity: parent_opacity,
                    clip,
                    offset,
                    stack: old(scroll_stack)@,
                };
                let f = flat_node(self@, id, p, scale);
                &&& final(events)@ == old(events)@ + f.events
                &&& final(hits)@ == old(hits)@ + f.hits
                &&& hit_views(final(scroll_hits)@) == hit_views(old(scroll_hits)@) + f.scroll_hits
                &&& final(scroll_bars)@ == old(scroll_bars)@ + f.bars
            }),
        decreases self@.height(id),
    {
        let ghost p = Pass { opacity: parent_opacity, clip, offset, stack: scroll_stack@ };
        let node: &Node<S> = match self.get(id) {
            Some(n) => n,
            None => {
                return ;
            },
        };
        if !node.visible {
            return ;
        }
        let at: [S; 2] = [node.rect[0].minus(offset[0]), node.rect[1].minus(offset[1])];
        let size: [S; 2] = [node.rect[2], node.rect[3]];
        let opacity: S = parent_opacity.times(node.style.opacity);
        emit_own(node, at, opacity, clip, events, Ghost(p));
        if node.interact.is_any() || node.window_action.is_some() {
            hits.push(HitEntry { node_id: id, bounds: bounds_of(at, size), clip_rect: clip });
        }
        let scrolls: bool = node.scroll.is_some() && node.layout.scrolls();
        if scrolls {
            let chain: Vec<NodeId> = chain_of(id, scroll_stack);
            scroll_hits.push(
                ScrollHit {
                    node_id: id,
                    bounds: bounds_of(at, size),
                    clip_rect: clip,
                    ancestor_chain: chain,
                },
            );
            scroll_stack.push(id);
        }
        let child_clip: [S; 4] = if node.layout.clips() {
            overlap(clip, own_clip(node, at))
        } else {
            clip
        };
        let child_offset: [S; 2] = match node.scroll.as_ref() {
            Some(s) => [offset[0].plus(s.current[0]), offset[1].plus(s.current[1])],
            None => offset,
        };
        let ghost down = handed_down(id, *node, p);
        let ghost mine = own(id, *node, p);
        proof {
            assert(hit_views(scroll_hits@) =~= hit_views(old(scroll_hits)@) + mine.scroll_hits);
            assert(events@ =~= old(events)@ + mine.events);
            assert(hits@ =~= old(hits)@ + mine.hits);
            assert(scroll_bars@ =~= old(scroll_bars)@ + mine.bars);
            assert(scroll_stack@ == down.stack);
            assert(child_clip == down.clip);
            assert(child_offset == down.offset);
        }
        let mut k: usize = 0;
        while k < node.children.len()
            invariant
                k <= node.children.len(),
                self@.acyclic(),
                self@.node(id) == Some(*node),
                scroll_stack@ == down.stack,
                child_clip == down.clip,
                child_offset == down.offset,
                opacity == down.opacity,
                ({
                    let f = mine.then_also(flat_kids(self@, id, k as nat, down, scale));
                    &&& events@ == old(events)@ + f.events
                    &&& hits@ == old(hits)@ + f.hits
                    &&& hit_views(scroll_hits@) == hit_views(old(scroll_hits)@) + f.scroll_hits
                    &&& scroll_bars@ == old(scroll_bars)@ + f.bars
                }),
            decreases node.children.len() - k,
        {
            let child: NodeId = node.children[k];
            proof {
                height_falls(self@, id, k as int);
            }
            self.flatten_into(
                child,
                opacity,
                child_clip,
                child_offset,
                scroll_stack,
                events,
                hits,
                scroll_hits,
                scroll_bars,
                scale,
            );
            k = k + 1;
            proof {
                let f = mine.then_also(flat_kids(self@, id, k as nat, down, scale));
                assert(events@ =~= old(events)@ + f.events);
                assert(hits@ =~= old(hits)@ + f.hits);
                assert(hit_views(scroll_hits@) =~= hit_views(old(scroll_hits)@) + f.scroll_hits);
                assert(scroll_bars@ =~= old(scroll_bars)@ + f.bars);
            }
        }
        if let Some(s) = node.scroll.as_ref() {
            emit_scrollbars(id, node, s, at, opacity, clip, scale, events, scroll_bars);
        }
        if scrolls {
            scroll_stack.pop();
        }
        proof {
            let f = flat_node(self@, id, p, scale);
            assert(scroll_stack@ =~= old(scroll_stack)@);
            assert(events@ =~= old(events)@ + f.events);
            assert(hits@ =~= old(hits)@ + f.hits);
            assert(hit_views(scroll_hits@) =~= hit_views(old(scroll_hits)@) + f.scroll_hits);
            assert(scroll_bars@ =~= old(scroll_bars)@ + f.bars);
        }
    }

    /// Flatten into buffers that are reused from frame to frame. What they
    /// held before is dropped.
    pub fn flatten_into_buffers(
        &self,
        scale: S,
        events: &mut Vec<FlatEvent<S>>,
        hits: &mut Vec<HitEntry<S>>,
        scroll_hits: &mut Vec<ScrollHit<S>>,
        scroll_bars: &mut Vec<ScrollbarHit<S>>,
    )
        requires
            self@.acyclic(),
        ensures
            final(events)@ == flat_tree(self@, scale).events,
            final(hits)@ == flat_tree(self@, scale).hits.reverse(),
            hit_views(final(scroll_hits)@) == flat_tree(self@, scale).scroll_hits,
            final(scroll_bars)@ == flat_tree(self@, scale).bars,
    {
        events.clear();
        hits.clear();
        scroll_hits.clear();
        scroll_bars.clear();
        let mut scroll_stack: Vec<NodeId> = Vec::new();
        let mut k: usize = 0;
        let roots: &[NodeId] = self.roots();
        proof {
            assert(hit_views(scroll_hits@) =~= Seq::empty());
        }
        while k < roots.len()
            invariant
                k <= roots.len(),
                roots@ == self@.roots,
                self@.acyclic(),
                scroll_stack@.len() == 0,
                events@ == flat_roots(self@, k as nat, scale).events,
                hits@ == flat_roots(self@, k as nat, scale).hits,
                hit_views(scroll_hits@) == flat_roots(self@, k as nat, scale).scroll_hits,
                scroll_bars@ == flat_roots(self@, k as nat, scale).bars,
            decreases roots.len() - k,
        {
            proof {
                assert(scroll_stack@ =~= Pass::<S>::top().stack);
            }
            self.flatten_into(
                roots[k],
                one(),
                no_clip(),
                splat2(zero()),
                &mut scroll_stack,
                events,
                hits,
                scroll_hits,
                scroll_bars,
                scale,
            );
            k = k + 1;
        }
        reverse_hits(hits);
    }

    /// Everything a frame of the tree needs. Lengths of the scrollbar style
    /// are scaled by `scale`.
    pub fn flatten(&self, scale: S) -> (r: (
        Vec<FlatEvent<S>>,
        Vec<HitEntry<S>>,
        Vec<ScrollHit<S>>,
        Vec<ScrollbarHit<S>>,
    ))
        requires
            self@.acyclic(),
        ensures
            r.0@ == flat_tree(self@, scale).events,
            r.1@ == flat_tree(self@, scale).hits.reverse(),
            hit_views(r.2@) == flat_tree(self@, scale).scroll_hits,
            r.3@ == flat_tree(self@, scale).bars,
    {
        let mut events: Vec<FlatEvent<S>> = Vec::new();
        let mut hits: Vec<HitEntry<S>> = Vec::new();
        let mut scroll_hits: Vec<ScrollHit<S>> = Vec::new();
        let mut scroll_bars: Vec<ScrollbarHit<S>> = Vec::new();
        self.flatten_into_buffers(
            scale,
            &mut events,
            &mut hits,
            &mut scroll_hits,
            &mut scroll_bars,
        );
        (events, hits, scroll_hits, scroll_bars)
    }
}

} // verus!
