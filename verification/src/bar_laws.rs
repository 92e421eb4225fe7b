//! What holds of scrollbars.
use vstd::prelude::*;

use crate::flatten::{
    bars, box_of, corner, thumb_fraction, thumb_length, x_bar, y_bar, BarGeometry, Pass,
    ScrollbarHit,
};
use crate::node::{BarSide, Node, NodeId, ScrollAxis, ScrollState};
use crate::order::{
    chains, clamp_stays_within, compares, finite, keeps_order, larger_is_least_upper_bound, number,
    ordered_numbers, rounds_in_order, smaller_is_greatest_lower_bound,
};
use crate::scalar::{clamped, one_s, zero_s, Fixed, Scalar};
use crate::scroll::budget;

verus! {

/// Length of the vertical track.
pub open spec fn y_track<S: Scalar>(n: Node<S>, s: ScrollState<S>, scale: S) -> S {
    n.rect[3].diff(s.style.margin.prod(scale).prod(S::rat(2, 1)))
}

/// Length of the horizontal track, short of what is left to the vertical one.
pub open spec fn x_track<S: Scalar>(n: Node<S>, s: ScrollState<S>, scale: S) -> S {
    let full = n.rect[2].diff(s.style.margin.prod(scale).prod(S::rat(2, 1)));
    if n.layout.overflow_y.is_scroll() {
        full.diff(s.style.thickness.prod(scale).sum(s.style.margin.prod(scale)))
    } else {
        full
    }
}

/// Whether the extents of a node and its content are finite.
pub open spec fn extents_are_finite<S: Scalar>(n: Node<S>) -> bool {
    &&& finite(n.content_size[0]) && finite(n.rect[2])
    &&& finite(n.content_size[1]) && finite(n.rect[3])
}

/// Content exceeds a node where it is larger, and by the difference.
proof fn lemma_excess<S: Scalar>(n: Node<S>, axis: int)
    requires
        ordered_numbers::<S>(),
        rounds_in_order::<S>(),
        extents_are_finite(n),
        axis == 0 || axis == 1,
    ensures
        zero_s::<S>().less(budget(n, axis)) == n.rect[2 + axis].less(n.content_size[axis]),
        zero_s::<S>().less(budget(n, axis)) ==> budget(n, axis) == n.content_size[axis].diff(
            n.rect[2 + axis],
        ),
{
    let z = zero_s::<S>();
    let d = n.content_size[axis].diff(n.rect[2 + axis]);
    assert(keeps_order(n.content_size[axis], n.rect[2 + axis], z));
    assert(compares(z, one_s()));
    assert(compares(z, d) && compares(d, z) && compares(z, z));
}

/// A container lists a bar for each axis that scrolls, has more content than
/// room, and leaves the bar a track; the vertical one first. How far the bars
/// have faded, and whether the pointer is over them or holds them, makes no
/// difference.
pub proof fn bars_are_listed_where_content_exceeds<S: Scalar>(
    id: NodeId,
    n: Node<S>,
    s: ScrollState<S>,
    p: Pass<S>,
    scale: S,
    alpha: S,
    hover: [bool; 2],
    active: [bool; 2],
)
    requires
        ordered_numbers::<S>(),
        rounds_in_order::<S>(),
        extents_are_finite(n),
        n.scroll == Some(s),
    ensures
        ({
            let at = corner(n, p.offset);
            let listed = bars(id, n, p, scale).bars;
            let y = n.layout.overflow_y.is_scroll() && n.rect[3].less(n.content_size[1])
                && zero_s::<S>().less(y_track(n, s, scale));
            let x = n.layout.overflow_x.is_scroll() && n.rect[2].less(n.content_size[0])
                && zero_s::<S>().less(x_track(n, s, scale));
            let faded = ScrollState { bar_alpha: alpha, bar_hover: hover, bar_active: active, ..s };
            &&& y_bar(n, s, at, scale) is Some == y
            &&& x_bar(n, s, at, scale) is Some == x
            &&& listed.len() == (if y {
                1int
            } else {
                0int
            }) + (if x {
                1int
            } else {
                0int
            })
            &&& y ==> lists(listed[0], id, ScrollAxis::Y, y_bar(n, s, at, scale)->Some_0)
            &&& x ==> lists(listed.last(), id, ScrollAxis::X, x_bar(n, s, at, scale)->Some_0)
            &&& bars(id, Node { scroll: Some(faded), ..n }, p, scale).bars == listed
        }),
{
    let faded = ScrollState { bar_alpha: alpha, bar_hover: hover, bar_active: active, ..s };
    let m = Node { scroll: Some(faded), ..n };
    let at = corner(n, p.offset);
    lemma_excess(n, 0);
    lemma_excess(n, 1);
    assert(corner(m, p.offset) == at);
    assert(budget(m, 0) == budget(n, 0));
    assert(budget(m, 1) == budget(n, 1));
    assert(y_bar(m, faded, at, scale) == y_bar(n, s, at, scale));
    assert(x_bar(m, faded, at, scale) == x_bar(n, s, at, scale));
}

/// Whether an entry lists a bar of a node.
pub open spec fn lists<S: Scalar>(
    hit: ScrollbarHit<S>,
    id: NodeId,
    axis: ScrollAxis,
    g: BarGeometry<S>,
) -> bool {
    &&& hit.node_id == id
    &&& hit.axis == axis
    &&& hit.track == box_of(g.track_at, g.track_size)
    &&& hit.thumb == box_of(g.thumb_at, g.thumb_size)
    &&& hit.max_offset == g.max_offset
    &&& hit.track_travel == g.travel
}

/// Whether a bar's thumb is where it belongs, along axis `i`. It is between
/// its least length, or the track where that is shorter, and the track. It
/// travels over the rest of the track, and starts between the start of the
/// track and the end of that travel. Across, it is as wide as the track.
pub open spec fn thumb_fits<S: Scalar>(g: BarGeometry<S>, i: int, least: S) -> bool {
    let free = g.track_size[i].diff(g.thumb_size[i]);
    &&& least.lo(g.track_size[i]).leq(g.thumb_size[i])
    &&& g.thumb_size[i].leq(g.track_size[i])
    &&& g.travel.eqv(free)
    &&& zero_s::<S>().leq(free)
    &&& g.track_at[i].leq(g.thumb_at[i])
    &&& g.thumb_at[i].leq(g.track_at[i].sum(free))
    &&& g.thumb_at[1 - i] == g.track_at[1 - i]
    &&& g.thumb_size[1 - i] == g.track_size[1 - i]
}

/// On any scalar that rounds in order, thumbs keep to their tracks, and their
/// offsets run up to what the content exceeds the node by.
pub proof fn thumbs_fit_their_tracks<S: Scalar>(
    n: Node<S>,
    s: ScrollState<S>,
    at: [S; 2],
    scale: S,
)
    requires
        ordered_numbers::<S>(),
        rounds_in_order::<S>(),
        extents_are_finite(n),
        finite(s.style.min_thumb.prod(scale)),
        number(n.rect[2].quot(n.content_size[0])),
        number(n.rect[3].quot(n.content_size[1])),
        number(s.current[0].quot(budget(n, 0))),
        number(s.current[1].quot(budget(n, 1))),
    ensures
        y_bar(n, s, at, scale) matches Some(g) ==> (finite(g.track_at[1]) && finite(g.track_size[1])
            ==> thumb_fits(g, 1, s.style.min_thumb.prod(scale)) && g.max_offset
            == n.content_size[1].diff(n.rect[3])),
        x_bar(n, s, at, scale) matches Some(g) ==> (finite(g.track_at[0]) && finite(g.track_size[0])
            ==> thumb_fits(g, 0, s.style.min_thumb.prod(scale)) && g.max_offset
            == n.content_size[0].diff(n.rect[2])),
{
    let least = s.style.min_thumb.prod(scale);
    lemma_excess(n, 0);
    lemma_excess(n, 1);
    if let Some(g) = y_bar(n, s, at, scale) {
        if finite(g.track_at[1]) && finite(g.track_size[1]) {
            lemma_thumb_fits(
                g.track_at[1],
                g.track_size[1],
                n.rect[3].quot(n.content_size[1]),
                least,
                s.current[1].quot(budget(n, 1)),
            );
        }
    }
    if let Some(g) = x_bar(n, s, at, scale) {
        if finite(g.track_at[0]) && finite(g.track_size[0]) {
            lemma_thumb_fits(
                g.track_at[0],
                g.track_size[0],
                n.rect[2].quot(n.content_size[0]),
                least,
                s.current[0].quot(budget(n, 0)),
            );
        }
    }
}

proof fn lemma_thumb_fits<S: Scalar>(start: S, track: S, ratio: S, least: S, along: S)
    requires
        ordered_numbers::<S>(),
        rounds_in_order::<S>(),
        finite(start),
        finite(track),
        zero_s::<S>().less(track),
        number(ratio),
        finite(least),
        number(along),
    ensures
        ({
            let share = track.prod(clamped(ratio, zero_s(), one_s()));
            let thumb = share.hi(least).lo(track);
            let free = track.diff(thumb);
            let thumb_at = start.sum(clamped(along, zero_s(), one_s()).prod(free));
            &&& least.lo(track).leq(thumb)
            &&& thumb.leq(track)
            &&& free.hi(zero_s()).eqv(free)
            &&& zero_s::<S>().leq(free)
            &&& start.leq(thumb_at)
            &&& thumb_at.leq(start.sum(free))
        }),
{
    let z = zero_s::<S>();
    let o = one_s::<S>();
    assert(compares(z, o));
    assert(compares(z, track));
    clamp_stays_within(ratio, z, o);
    clamp_stays_within(along, z, o);
    let part = clamped(ratio, z, o);
    let share = track.prod(part);
    assert(keeps_order(track, track, part));
    assert(compares(z, share));
    larger_is_least_upper_bound(share, least, share);
    let long = share.hi(least);
    smaller_is_greatest_lower_bound(long, track, z);
    let thumb = long.lo(track);
    smaller_is_greatest_lower_bound(least, track, z);
    smaller_is_greatest_lower_bound(long, track, least.lo(track));
    assert(chains(least.lo(track), least, long));
    assert(chains(z, share, long));
    assert(compares(share, least) && compares(long, track));
    assert(finite(thumb));
    assert(keeps_order(track, thumb, z));
    let free = track.diff(thumb);
    assert(compares(z, free) && compares(free, z) && compares(free, free) && compares(z, z));
    let step = clamped(along, z, o);
    assert(keeps_order(free, free, step));
    let moved = step.prod(free);
    assert(keeps_order(start, start, moved));
    assert(keeps_order(moved, free, start));
}

/// Whether box `a` lies in box `b`.
pub open spec fn lies_in(a: [Fixed; 4], b: [Fixed; 4]) -> bool {
    b[0].raw <= a[0].raw && b[1].raw <= a[1].raw && a[2].raw <= b[2].raw && a[3].raw <= b[3].raw
}

/// Whether boxes `a` and `b` have no point in common.
pub open spec fn boxes_apart(a: [Fixed; 4], b: [Fixed; 4]) -> bool {
    a[2].raw <= b[0].raw || b[2].raw <= a[0].raw || a[3].raw <= b[1].raw || b[3].raw <= a[1].raw
}

/// The length of a thumb lies between its least length, or the track where
/// that is shorter, and the track.
proof fn lemma_thumb_length(track: Fixed, visible: Fixed, content: Fixed, least: Fixed)
    requires
        track.raw > 0,
    ensures
        0 <= thumb_length(track, visible, content, least).raw <= track.raw,
        least.lo(track).raw <= thumb_length(track, visible, content, least).raw,
{
    let share = clamped(visible.quot(content), zero_s(), one_s());
    assert(zero_s::<Fixed>().raw == 0 && one_s::<Fixed>().raw == 65536);
    assert(0 <= share.raw <= 65536);
    assert(0 <= track.raw * share.raw) by (nonlinear_arith)
        requires
            track.raw > 0,
            share.raw >= 0,
    ;
    assert(track.prod(share).raw >= 0);
}

/// A part of a length, cut to whole units, is between none and all of it.
proof fn lemma_part(part: Fixed, len: Fixed)
    requires
        0 <= part.raw <= 65536,
        0 <= len.raw,
    ensures
        0 <= part.prod(len).raw <= len.raw,
{
    assert(0 <= part.raw * len.raw <= 65536 * len.raw) by (nonlinear_arith)
        requires
            0 <= part.raw <= 65536,
            0 <= len.raw,
    ;
}

/// In fixed point a thumb lies in its track to the last place. It is at least as long as the style asks, or as
/// long as the track where that is shorter. It travels over the rest of the
/// track, for offsets up to what the content exceeds the node by.
pub proof fn thumb_stays_on_its_track(
    n: Node<Fixed>,
    s: ScrollState<Fixed>,
    at: [Fixed; 2],
    scale: Fixed,
)
    ensures
        y_bar(n, s, at, scale) matches Some(g) ==> {
            &&& lies_in(box_of(g.thumb_at, g.thumb_size), box_of(g.track_at, g.track_size))
            &&& s.style.min_thumb.prod(scale).lo(g.track_size[1]).raw <= g.thumb_size[1].raw
            &&& g.thumb_size[1].raw <= g.track_size[1].raw
            &&& g.travel.raw == g.track_size[1].raw - g.thumb_size[1].raw
            &&& g.max_offset == n.content_size[1].diff(n.rect[3])
            &&& g.track_size[1] == y_track(n, s, scale)
        },
        x_bar(n, s, at, scale) matches Some(g) ==> {
            &&& lies_in(box_of(g.thumb_at, g.thumb_size), box_of(g.track_at, g.track_size))
            &&& s.style.min_thumb.prod(scale).lo(g.track_size[0]).raw <= g.thumb_size[0].raw
            &&& g.thumb_size[0].raw <= g.track_size[0].raw
            &&& g.travel.raw == g.track_size[0].raw - g.thumb_size[0].raw
            &&& g.max_offset == n.content_size[0].diff(n.rect[2])
            &&& g.track_size[0] == x_track(n, s, scale)
        },
{
    let least = s.style.min_thumb.prod(scale);
    assert(zero_s::<Fixed>().raw == 0 && one_s::<Fixed>().raw == 65536);
    if let Some(g) = y_bar(n, s, at, scale) {
        let h = y_track(n, s, scale);
        lemma_thumb_length(h, n.rect[3], n.content_size[1], least);
        lemma_part(thumb_fraction(s.current[1], budget(n, 1)), h.diff(g.thumb_size[1]));
    }
    if let Some(g) = x_bar(n, s, at, scale) {
        let w = x_track(n, s, scale);
        lemma_thumb_length(w, n.rect[2], n.content_size[0], least);
        lemma_part(thumb_fraction(s.current[0], budget(n, 0)), w.diff(g.thumb_size[0]));
    }
}

/// In fixed point the two tracks of a container have no point in common, as
/// long as its place and its bars' measures stay short of the far end of the
/// number range.
pub proof fn tracks_stay_apart(
    n: Node<Fixed>,
    s: ScrollState<Fixed>,
    at: [Fixed; 2],
    scale: Fixed,
)
    requires
        -Fixed::huge().raw <= at[0].raw <= Fixed::huge().raw,
        n.rect[2].raw <= Fixed::huge().raw,
        0 <= s.style.thickness.prod(scale).raw <= Fixed::huge().raw,
        0 <= s.style.margin.prod(scale).raw <= Fixed::huge().raw,
    ensures
        y_bar(n, s, at, scale) matches Some(a) ==> (x_bar(n, s, at, scale) matches Some(b)
            ==> boxes_apart(
            box_of(a.track_at, a.track_size),
            box_of(b.track_at, b.track_size),
        )),
{
    let t = s.style.thickness.prod(scale);
    let m = s.style.margin.prod(scale);
    assert(Fixed::rat(2, 1).raw == 131072);
    assert(m.prod(Fixed::rat(2, 1)).raw == 2 * m.raw);
    assert(zero_s::<Fixed>().raw == 0);
    if y_bar(n, s, at, scale) is Some && x_bar(n, s, at, scale) is Some {
        let a = y_bar(n, s, at, scale)->Some_0;
        let b = x_bar(n, s, at, scale)->Some_0;
        let w = x_track(n, s, scale);
        assert(b.track_size[0] == w);
        assert(w.raw == n.rect[2].raw - 3 * m.raw - t.raw);
        match s.style.y_side {
            BarSide::End => {
                assert(a.track_at[0].raw == at[0].raw + n.rect[2].raw - t.raw - m.raw);
                assert(b.track_at[0].raw == at[0].raw + m.raw);
            },
            BarSide::Start => {
                assert(a.track_at[0].raw == at[0].raw + m.raw);
                assert(b.track_at[0].raw == at[0].raw + 2 * m.raw + t.raw);
            },
        }
    }
}

} // verus!
