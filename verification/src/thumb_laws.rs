//! Where scrollbars stand, and how they and the offset follow each other.
use vstd::prelude::*;

use crate::flatten::{
    bar_flat, bar_quad, bar_visual, box_of, dimmed, thumb_fraction, thumb_length, x_bar, y_bar,
    BarGeometry, FlatEvent,
};
use crate::layout::{abs_eqv, Len, Overflow};
use crate::node::{Node, NodeId, ScrollAxis, ScrollState, ScrollbarStyle};
use crate::scalar::{clamped, one_s, zero_s, Fixed, Scalar};
use crate::scroll::{aimed, budget, landed};
use crate::tree::TreeView;

verus! {

// --- the thumb -------------------------------------------------------------

proof fn lemma_fraction(a: Fixed, b: Fixed, max: Fixed)
    requires
        a.raw <= b.raw,
        0 < max.raw,
    ensures
        0 <= thumb_fraction(a, max).raw <= thumb_fraction(b, max).raw <= 65536,
        thumb_fraction(zero_s(), max).raw == 0,
        max.raw <= b.raw ==> thumb_fraction(b, max).raw == 65536,
{
    assert(zero_s::<Fixed>().raw == 0 && one_s::<Fixed>().raw == 65536);
    assert((a.raw * 65536) / (max.raw as int) <= (b.raw * 65536) / (max.raw as int))
        by (nonlinear_arith)
        requires
            a.raw <= b.raw,
            0 < max.raw,
    ;
    assert((0 * 65536int) / (max.raw as int) == 0) by (nonlinear_arith)
        requires
            0 < max.raw,
    ;
    if max.raw <= b.raw {
        assert((b.raw * 65536) / (max.raw as int) >= 65536) by (nonlinear_arith)
            requires
                0 < max.raw <= b.raw,
        ;
    }
}

proof fn lemma_scaled(f: Fixed, g: Fixed, room: Fixed)
    requires
        0 <= f.raw <= g.raw <= 65536,
        0 <= room.raw,
    ensures
        0 <= f.prod(room).raw <= g.prod(room).raw <= room.raw,
        f.raw == 0 ==> f.prod(room).raw == 0,
        g.raw == 65536 ==> g.prod(room).raw == room.raw,
{
    assert(0 <= (f.raw * room.raw) / 65536 <= (g.raw * room.raw) / 65536 <= room.raw)
        by (nonlinear_arith)
        requires
            0 <= f.raw <= g.raw <= 65536,
            0 <= room.raw,
    ;
    if f.raw == 0 {
        assert(0 * room.raw == 0);
    }
    if g.raw == 65536 {
        assert((65536 * room.raw) / 65536 == room.raw);
    }
}

proof fn lemma_length(track: Fixed, visible: Fixed, content: Fixed, least: Fixed)
    requires
        0 < track.raw,
    ensures
        0 <= thumb_length(track, visible, content, least).raw <= track.raw,
{
    assert(zero_s::<Fixed>().raw == 0 && one_s::<Fixed>().raw == 65536);
    let f = clamped(visible.quot(content), zero_s(), one_s());
    assert(0 <= (track.raw * f.raw) / 65536) by (nonlinear_arith)
        requires
            0 < track.raw,
            0 <= f.raw,
    ;
}

/// Whether a bar that stands at `at` is in range along an axis.
pub open spec fn track_in_range(g: BarGeometry<Fixed>, axis: int) -> bool {
    -0x2000_0000_0000_0000 < g.track_at[axis].raw < 0x2000_0000_0000_0000 && g.track_size[axis].raw
        < 0x2000_0000_0000_0000
}

/// The further a node is scrolled down, the lower the vertical thumb; at the
/// top it starts where its track does, at the bottom it ends where that does.
/// The track stays where it is, and scrolling sideways moves neither.
pub proof fn vertical_thumbs_follow_the_offset(
    n: Node<Fixed>,
    s: ScrollState<Fixed>,
    t: ScrollState<Fixed>,
    at: [Fixed; 2],
    scale: Fixed,
)
    requires
        t.style == s.style,
        y_bar(n, s, at, scale) is Some,
        track_in_range(y_bar(n, s, at, scale)->Some_0, 1),
    ensures
        ({
            let g = y_bar(n, s, at, scale)->Some_0;
            let h = y_bar(n, t, at, scale)->Some_0;
            &&& y_bar(n, t, at, scale) is Some
            &&& h.track_at == g.track_at
            &&& h.track_size == g.track_size
            &&& h.thumb_size == g.thumb_size
            &&& h.thumb_at[0] == g.thumb_at[0]
            &&& s.current[1].raw <= t.current[1].raw ==> g.thumb_at[1].raw <= h.thumb_at[1].raw
            &&& s.current[1] == t.current[1] ==> g == h
            &&& s.current[1].raw == 0 ==> g.thumb_at[1] == g.track_at[1]
            &&& s.current[1].raw >= g.max_offset.raw ==> g.thumb_at[1].raw + g.thumb_size[1].raw
                == g.track_at[1].raw + g.track_size[1].raw
        }),
{
    assert(zero_s::<Fixed>().raw == 0);
    let g = y_bar(n, s, at, scale)->Some_0;
    let max = budget(n, 1);
    lemma_length(
        g.track_size[1],
        n.rect[3],
        n.content_size[1],
        s.style.min_thumb.prod(scale),
    );
    let room = g.track_size[1].diff(g.thumb_size[1]);
    let a = thumb_fraction(s.current[1], max);
    let b = thumb_fraction(t.current[1], max);
    lemma_fraction(s.current[1], s.current[1], max);
    lemma_fraction(t.current[1], t.current[1], max);
    lemma_scaled(a, a, room);
    lemma_scaled(b, b, room);
    if s.current[1].raw <= t.current[1].raw {
        lemma_fraction(s.current[1], t.current[1], max);
        lemma_scaled(a, b, room);
    }
    if s.current[1].raw == 0 {
        assert(s.current[1] == zero_s::<Fixed>());
    }
}

/// The further a node is scrolled to the right, the further right the
/// horizontal thumb; and so on as for the vertical one.
pub proof fn horizontal_thumbs_follow_the_offset(
    n: Node<Fixed>,
    s: ScrollState<Fixed>,
    t: ScrollState<Fixed>,
    at: [Fixed; 2],
    scale: Fixed,
)
    requires
        t.style == s.style,
        x_bar(n, s, at, scale) is Some,
        track_in_range(x_bar(n, s, at, scale)->Some_0, 0),
    ensures
        ({
            let g = x_bar(n, s, at, scale)->Some_0;
            let h = x_bar(n, t, at, scale)->Some_0;
            &&& x_bar(n, t, at, scale) is Some
            &&& h.track_at == g.track_at
            &&& h.track_size == g.track_size
            &&& h.thumb_size == g.thumb_size
            &&& h.thumb_at[1] == g.thumb_at[1]
            &&& s.current[0].raw <= t.current[0].raw ==> g.thumb_at[0].raw <= h.thumb_at[0].raw
            &&& s.current[0] == t.current[0] ==> g == h
            &&& s.current[0].raw == 0 ==> g.thumb_at[0] == g.track_at[0]
            &&& s.current[0].raw >= g.max_offset.raw ==> g.thumb_at[0].raw + g.thumb_size[0].raw
                == g.track_at[0].raw + g.track_size[0].raw
        }),
{
    assert(zero_s::<Fixed>().raw == 0);
    let g = x_bar(n, s, at, scale)->Some_0;
    let max = budget(n, 0);
    lemma_length(
        g.track_size[0],
        n.rect[2],
        n.content_size[0],
        s.style.min_thumb.prod(scale),
    );
    let room = g.track_size[0].diff(g.thumb_size[0]);
    let a = thumb_fraction(s.current[0], max);
    let b = thumb_fraction(t.current[0], max);
    lemma_fraction(s.current[0], s.current[0], max);
    lemma_fraction(t.current[0], t.current[0], max);
    lemma_scaled(a, a, room);
    lemma_scaled(b, b, room);
    if s.current[0].raw <= t.current[0].raw {
        lemma_fraction(s.current[0], t.current[0], max);
        lemma_scaled(a, b, room);
    }
    if s.current[0].raw == 0 {
        assert(s.current[0] == zero_s::<Fixed>());
    }
}

/// A thumb is to its track as what is visible is to the content, to the last
/// place, where that is not too short to grab.
pub proof fn thumbs_show_what_is_visible(
    track: Fixed,
    visible: Fixed,
    content: Fixed,
    more: Fixed,
    least: Fixed,
)
    requires
        0 < track.raw,
        0 <= visible.raw,
        0 < content.raw <= more.raw,
    ensures
        thumb_length(track, visible, more, least).raw <= thumb_length(
            track,
            visible,
            content,
            least,
        ).raw,
        content.raw <= visible.raw ==> thumb_length(track, visible, content, least) == track,
        2 * visible.raw == content.raw && least.raw <= track.raw / 2 ==> thumb_length(
            track,
            visible,
            content,
            least,
        ).raw == track.raw / 2,
        least.raw <= track.raw ==> thumb_length(track, visible, content, least).raw >= least.raw,
{
    assert(zero_s::<Fixed>().raw == 0 && one_s::<Fixed>().raw == 65536);
    let q = (visible.raw * 65536) / (content.raw as int);
    let r = (visible.raw * 65536) / (more.raw as int);
    assert(0 <= r <= q) by (nonlinear_arith)
        requires
            q == (visible.raw * 65536) / (content.raw as int),
            r == (visible.raw * 65536) / (more.raw as int),
            0 <= visible.raw,
            0 < content.raw <= more.raw,
    ;
    let f = clamped(visible.quot(content), zero_s(), one_s());
    let g = clamped(visible.quot(more), zero_s(), one_s());
    assert(0 <= g.raw <= f.raw <= 65536);
    lemma_scaled(g, f, track);
    assert(track.raw * f.raw == f.raw * track.raw && track.raw * g.raw == g.raw * track.raw)
        by (nonlinear_arith);
    if content.raw <= visible.raw {
        assert(q >= 65536) by (nonlinear_arith)
            requires
                q == (visible.raw * 65536) / (content.raw as int),
                0 < content.raw <= visible.raw,
        ;
    }
    if 2 * visible.raw == content.raw {
        assert(q == 32768) by (nonlinear_arith)
            requires
                q == (visible.raw * 65536) / (content.raw as int),
                2 * visible.raw == content.raw,
                0 < content.raw,
        ;
        assert((track.raw * 32768) / 65536 == track.raw / 2);
    }
}

// --- the track -------------------------------------------------------------

/// The vertical bar stands at the side its style names, a margin from the
/// edge, with a margin above and below.
pub proof fn vertical_bars_stand_at_their_side(
    n: Node<Fixed>,
    s: ScrollState<Fixed>,
    at: [Fixed; 2],
    scale: Fixed,
)
    requires
        -Fixed::huge().raw <= at[0].raw <= Fixed::huge().raw,
        -Fixed::huge().raw <= at[1].raw <= Fixed::huge().raw,
        0 <= n.rect[2].raw <= Fixed::huge().raw,
        0 <= n.rect[3].raw <= Fixed::huge().raw,
        0 <= s.style.thickness.prod(scale).raw <= Fixed::huge().raw,
        0 <= s.style.margin.prod(scale).raw <= Fixed::huge().raw,
    ensures
        y_bar(n, s, at, scale) matches Some(g) ==> {
            let margin = s.style.margin.prod(scale).raw;
            &&& g.track_size[0] == s.style.thickness.prod(scale)
            &&& g.thumb_size[0] == g.track_size[0]
            &&& g.thumb_at[0] == g.track_at[0]
            &&& g.track_at[1].raw == at[1].raw + margin
            &&& g.track_at[1].raw + g.track_size[1].raw == at[1].raw + n.rect[3].raw - margin
            &&& s.style.y_side is Start ==> g.track_at[0].raw == at[0].raw + margin
            &&& s.style.y_side is End ==> g.track_at[0].raw + g.track_size[0].raw == at[0].raw
                + n.rect[2].raw - margin
        },
{
    let m = s.style.margin.prod(scale);
    assert(Fixed::rat(2, 1).raw == 131072);
    assert(m.raw * 131072 == (2 * m.raw) * 65536 && ((2 * m.raw) * 65536) / 65536 == 2 * m.raw);
    assert(m.prod(Fixed::rat(2, 1)).raw == 2 * m.raw);
}

/// The horizontal bar stands at the side its style names, a margin from the
/// edge.
pub proof fn horizontal_bars_stand_at_their_side(
    n: Node<Fixed>,
    s: ScrollState<Fixed>,
    at: [Fixed; 2],
    scale: Fixed,
)
    requires
        -Fixed::huge().raw <= at[0].raw <= Fixed::huge().raw,
        -Fixed::huge().raw <= at[1].raw <= Fixed::huge().raw,
        0 <= n.rect[2].raw <= Fixed::huge().raw,
        0 <= n.rect[3].raw <= Fixed::huge().raw,
        0 <= s.style.thickness.prod(scale).raw <= Fixed::huge().raw,
        0 <= s.style.margin.prod(scale).raw <= Fixed::huge().raw,
    ensures
        x_bar(n, s, at, scale) matches Some(g) ==> {
            let margin = s.style.margin.prod(scale).raw;
            &&& g.track_size[1] == s.style.thickness.prod(scale)
            &&& g.thumb_size[1] == g.track_size[1]
            &&& g.thumb_at[1] == g.track_at[1]
            &&& s.style.x_side is Start ==> g.track_at[1].raw == at[1].raw + margin
            &&& s.style.x_side is End ==> g.track_at[1].raw + g.track_size[1].raw == at[1].raw
                + n.rect[3].raw - margin
            &&& !n.layout.overflow_y.is_scroll() ==> {
                &&& g.track_at[0].raw == at[0].raw + margin
                &&& g.track_at[0].raw + g.track_size[0].raw == at[0].raw + n.rect[2].raw - margin
            }
        },
{
    let m = s.style.margin.prod(scale);
    assert(Fixed::rat(2, 1).raw == 131072);
    assert(m.raw * 131072 == (2 * m.raw) * 65536 && ((2 * m.raw) * 65536) / 65536 == 2 * m.raw);
    assert(m.prod(Fixed::rat(2, 1)).raw == 2 * m.raw);
}

// --- painting --------------------------------------------------------------

/// A bar is its track with its thumb over it, each where the geometry has it,
/// the thumb in the colour of what the pointer does to this axis. A bar that
/// has faded out is not painted, but listed.
pub proof fn bars_paint_the_thumb_over_the_track<S: Scalar>(
    id: NodeId,
    axis: ScrollAxis,
    s: ScrollState<S>,
    g: BarGeometry<S>,
    opacity: S,
    clip: [S; 4],
)
    ensures
        ({
            let f = bar_flat(id, axis, s, Some(g), opacity, clip);
            let track = bar_quad(
                g.track_at,
                g.track_size,
                dimmed(s.style.track_color, bar_visual(s, opacity)),
                s.style.radius,
                clip,
            );
            let i = axis.position();
            &&& f.bars.len() == 1
            &&& f.bars[0].node_id == id
            &&& f.bars[0].axis == axis
            &&& f.bars[0].track == box_of(g.track_at, g.track_size)
            &&& f.bars[0].thumb == box_of(g.thumb_at, g.thumb_size)
            &&& f.bars[0].clip_rect == clip
            &&& f.bars[0].max_offset == g.max_offset
            &&& f.bars[0].track_travel == g.travel
            &&& f.hits.len() == 0
            &&& f.events.take(track.len() as int) == track
            &&& f.events.len() > track.len() ==> (f.events.last() matches FlatEvent::Shape(q)
                && q.position == g.thumb_at && q.size == g.thumb_size && q.clip_rect == clip && (
            s.bar_active[i] ==> q.color[0] == s.style.thumb_active_color[0] && q.color[1]
                == s.style.thumb_active_color[1]) && (!s.bar_active[i] && s.bar_hover[i]
                ==> q.color[0] == s.style.thumb_hover_color[0] && q.color[1]
                == s.style.thumb_hover_color[1]) && (!s.bar_active[i] && !s.bar_hover[i]
                ==> q.color[0] == s.style.thumb_color[0] && q.color[1] == s.style.thumb_color[1]))
        }),
{
    let f = bar_flat(id, axis, s, Some(g), opacity, clip);
    let track = bar_quad(
        g.track_at,
        g.track_size,
        dimmed(s.style.track_color, bar_visual(s, opacity)),
        s.style.radius,
        clip,
    );
    assert(f.events.take(track.len() as int) =~= track);
}

/// A bar is as opaque as it has faded in, at most as the node is; one that
/// never fades is as opaque as the node.
pub proof fn bars_fade_with_their_node(s: ScrollState<Fixed>, opacity: Fixed, c: [Fixed; 4])
    requires
        0 <= s.bar_alpha.raw <= 65536,
        0 <= opacity.raw,
        0 <= c[3].raw,
    ensures
        0 <= bar_visual(s, opacity).raw <= opacity.raw,
        s.style.always_visible ==> bar_visual(s, opacity) == opacity,
        !s.style.always_visible && s.bar_alpha.raw == 0 ==> bar_visual(s, opacity).raw == 0,
        dimmed(c, one_s())[3] == c[3],
        dimmed(c, zero_s())[3].raw == 0,
        dimmed(c, opacity)[0] == c[0],
        dimmed(c, opacity)[1] == c[1],
        dimmed(c, opacity)[2] == c[2],
{
    assert(zero_s::<Fixed>().raw == 0 && one_s::<Fixed>().raw == 65536);
    let one = one_s::<Fixed>();
    lemma_scaled(s.bar_alpha, one, opacity);
    lemma_scaled(s.bar_alpha, s.bar_alpha, opacity);
    assert((c[3].raw * 65536) / 65536 == c[3].raw && c[3].raw * 0 == 0);
    assert(c[3].prod(one) == c[3]);
}

/// A rectangle of a bar that can be seen is painted where it is, in its
/// colour, plain and clipped; one that cannot is not.
pub proof fn visible_rectangles_are_painted(
    at: [Fixed; 2],
    size: [Fixed; 2],
    rgba: [Fixed; 4],
    radius: Fixed,
    clip: [Fixed; 4],
)
    ensures
        ({
            let e = bar_quad(at, size, rgba, radius, clip);
            &&& e.len() == 1 <==> 65 < rgba[3].raw && 0 < size[0].raw && 0 < size[1].raw
            &&& e.len() == 0 || e.len() == 1
            &&& e.len() == 1 ==> (e[0] matches FlatEvent::Shape(q) && q.position == at && q.size
                == size && q.color == rgba && q.clip_rect == clip && q.opacity.raw == 65536
                && q.border_width.raw == 0 && q.border_radius[0] == radius && q.border_radius[1]
                == radius && q.border_radius[2] == radius && q.border_radius[3] == radius)
        }),
{
    assert(Fixed::rat(1, 1000).raw == 65);
    assert(zero_s::<Fixed>().raw == 0 && one_s::<Fixed>().raw == 65536);
}

// --- offsets ---------------------------------------------------------------

/// A target within the content is taken as it is, on each axis that scrolls;
/// an axis that does not keeps its own.
pub proof fn aims_are_taken(
    n: Node<Fixed>,
    s: ScrollState<Fixed>,
    target: [Fixed; 2],
)
    ensures
        n.layout.overflow_x.is_scroll() && 0 <= target[0].raw <= budget(n, 0).raw ==> aimed(
            n,
            s,
            target,
        )[0] == target[0],
        n.layout.overflow_y.is_scroll() && 0 <= target[1].raw <= budget(n, 1).raw ==> aimed(
            n,
            s,
            target,
        )[1] == target[1],
        !n.layout.overflow_x.is_scroll() && 0 <= s.target[0].raw <= budget(n, 0).raw ==> aimed(
            n,
            s,
            target,
        )[0] == s.target[0],
        !n.layout.overflow_y.is_scroll() && 0 <= s.target[1].raw <= budget(n, 1).raw ==> aimed(
            n,
            s,
            target,
        )[1] == s.target[1],
        s.overscroll && n.layout.overflow_x.is_scroll() ==> aimed(n, s, target)[0] == target[0],
        s.overscroll && n.layout.overflow_y.is_scroll() ==> aimed(n, s, target)[1] == target[1],
{
    assert(zero_s::<Fixed>().raw == 0);
}

/// How far a node can be scrolled is by how much its content exceeds it, each
/// axis by its own measures.
pub proof fn content_beyond_the_node_scrolls(n: Node<Fixed>)
    requires
        n.content_size[0].raw - n.rect[2].raw <= i64::MAX,
        n.content_size[1].raw - n.rect[3].raw <= i64::MAX,
    ensures
        n.rect[2].raw <= n.content_size[0].raw ==> n.rect[2].raw + budget(n, 0).raw
            == n.content_size[0].raw,
        n.rect[3].raw <= n.content_size[1].raw ==> n.rect[3].raw + budget(n, 1).raw
            == n.content_size[1].raw,
        n.content_size[0].raw <= n.rect[2].raw ==> budget(n, 0).raw == 0,
        n.content_size[1].raw <= n.rect[3].raw ==> budget(n, 1).raw == 0,
{
    assert(zero_s::<Fixed>().raw == 0);
}

/// A drag puts the offset of its axis where it was dragged, at once and with
/// its target, as far as the content goes; the other axis does not move. The
/// bar shows.
pub proof fn drags_land_at_once(
    n: Node<Fixed>,
    s: ScrollState<Fixed>,
    axis: ScrollAxis,
    pos: Fixed,
)
    ensures
        ({
            let i = axis.position();
            let t = landed(n, s, axis, pos);
            &&& t.current[i] == t.target[i]
            &&& s.overscroll || 0 <= pos.raw <= budget(n, i).raw ==> t.current[i] == pos
            &&& !s.overscroll && pos.raw < 0 ==> t.current[i].raw == 0
            &&& !s.overscroll && pos.raw > budget(n, i).raw ==> t.current[i] == budget(n, i)
            &&& t.current[1 - i] == s.current[1 - i]
            &&& t.target[1 - i] == s.target[1 - i]
            &&& t.bar_alpha.raw == 65536
            &&& t.style == s.style
            &&& axis is X <==> i == 0
            &&& axis is Y <==> i == 1
        }),
{
    assert(zero_s::<Fixed>().raw == 0 && one_s::<Fixed>().raw == 65536);
}

/// Sending an offset somewhere sets where it is heading and not yet where it
/// is; the node is otherwise as it was, and so is every other.
pub proof fn sending_sets_the_heading<S: Scalar>(
    t: TreeView<S>,
    id: NodeId,
    target: [S; 2],
    other: NodeId,
)
    requires
        t.node(id) is Some,
        t.node(id)->Some_0.scroll is Some,
    ensures
        ({
            let n = t.node(id)->Some_0;
            let s = n.scroll->Some_0;
            let u = t.sent_to(id, target);
            &&& u.node(id) matches Some(m)
            &&& m.scroll matches Some(r)
            &&& r.current == s.current
            &&& r.target == aimed(n, s, target) || (r.target == s.target && crate::scalar::eqv2(
                s.target,
                aimed(n, s, target),
            ))
            &&& r.style == s.style
            &&& m.layout == n.layout
            &&& m.style == n.style
            &&& m.children == n.children
            &&& other.slot() != id.slot() ==> u.node(other) == t.node(other)
        }),
{
}

/// A node that is told what happens to content beyond it does that, on each
/// axis, and can be scrolled exactly if one of them scrolls.
pub proof fn overflow_is_set_by_axis<S: Scalar>(
    t: TreeView<S>,
    id: NodeId,
    ox: Overflow,
    oy: Overflow,
    other: NodeId,
)
    requires
        t.node(id) is Some,
        t.node(id)->Some_0.scroll is Some <==> t.node(id)->Some_0.layout.is_scroll(),
    ensures
        ({
            let n = t.node(id)->Some_0;
            let u = t.overflowed(id, ox, oy);
            &&& u.node(id) matches Some(m)
            &&& m.layout.overflow_x == ox
            &&& m.layout.overflow_y == oy
            &&& m.layout.axis == n.layout.axis
            &&& m.layout.width == n.layout.width
            &&& m.layout.height == n.layout.height
            &&& m.scroll is Some <==> ox.is_scroll() || oy.is_scroll()
            &&& n.scroll is Some && m.scroll is Some ==> m.scroll == n.scroll
            &&& m.style == n.style
            &&& m.children == n.children
            &&& other.slot() != id.slot() ==> u.node(other) == t.node(other)
        }),
{
}

/// A node that is given a scrollbar style has it. Its offset and where that is
/// heading stay, and a node without any is given one at rest; nothing is dirty
/// by it, and every other node stays as it is.
pub proof fn styles_are_taken<S: Scalar>(
    t: TreeView<S>,
    id: NodeId,
    style: ScrollbarStyle<S>,
    other: NodeId,
)
    requires
        t.node(id) is Some,
    ensures
        ({
            let n = t.node(id)->Some_0;
            let u = t.restyled(id, style);
            &&& u.node(id) matches Some(m)
            &&& m.scroll matches Some(r)
            &&& r.style == style
            &&& n.scroll matches Some(s) ==> r.current == s.current && r.target == s.target
                && r.bar_alpha == s.bar_alpha
            &&& n.scroll is None ==> r.current == ScrollState::<S>::rest().current
            &&& m.layout == n.layout
            &&& m.style == n.style
            &&& m.children == n.children
            &&& u.dirty == t.dirty
            &&& other.slot() != id.slot() ==> u.node(other) == t.node(other)
        }),
{
}

/// Lengths are the same exactly where they are equal, and so are absolute
/// places.
pub proof fn equal_lengths_are_the_same(
    a: Len<Fixed>,
    b: Len<Fixed>,
    p: Option<[Fixed; 2]>,
    q: Option<[Fixed; 2]>,
)
    ensures
        a.eqv(b) <==> a == b,
        abs_eqv(p, q) <==> (p is None && q is None) || (p is Some && q is Some && p->Some_0[0]
            == q->Some_0[0] && p->Some_0[1] == q->Some_0[1]),
{
}

} // verus!
