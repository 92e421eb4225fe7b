//! What holds of the instance list that a paint list is sorted into.
use vstd::prelude::*;

use crate::app::{in_pixels, instances_of, shapes_of};
use crate::flatten::FlatEvent;
use crate::gpu::instance::{ShapeInstance, SHAPE_KIND_GLASS};
use crate::scalar::{Fixed, Scalar};

verus! {

/// Whether an event is a shape of a group: glass, or the rest.
pub open spec fn in_group<S>(events: Seq<FlatEvent<S>>, i: int, glass: bool) -> bool {
    events[i] matches FlatEvent::Shape(s) && (s.shape_kind == SHAPE_KIND_GLASS) == glass
}

/// How many of the first `n` events are shapes of a group.
pub open spec fn group_size<S>(events: Seq<FlatEvent<S>>, glass: bool, n: nat) -> nat
    decreases n,
{
    if n == 0 {
        0
    } else {
        group_size(events, glass, (n - 1) as nat) + if in_group(events, n - 1, glass) {
            1nat
        } else {
            0nat
        }
    }
}

/// Where the shape of event `i` goes: after the shapes of its group that are
/// painted before it, and glass after everything else.
pub open spec fn place_of<S>(events: Seq<FlatEvent<S>>, i: int, glass: bool) -> int {
    group_size(events, glass, i as nat) + if glass {
        group_size(events, false, events.len()) as int
    } else {
        0
    }
}

proof fn lemma_sizes<S>(events: Seq<FlatEvent<S>>, more: Seq<FlatEvent<S>>, glass: bool, n: nat)
    requires
        n <= events.len() <= more.len(),
        more.take(events.len() as int) == events,
    ensures
        group_size(more, glass, n) == group_size(events, glass, n),
    decreases n,
{
    if n > 0 {
        lemma_sizes(events, more, glass, (n - 1) as nat);
        assert(more.take(events.len() as int)[n - 1] == more[n - 1]);
    }
}

proof fn lemma_grows<S>(events: Seq<FlatEvent<S>>, glass: bool, i: int, n: nat)
    requires
        0 <= i < n,
        in_group(events, i, glass),
    ensures
        group_size(events, glass, i as nat) < group_size(events, glass, n),
    decreases n,
{
    if i < n - 1 {
        lemma_grows(events, glass, i, (n - 1) as nat);
    }
}

proof fn lemma_group<S: Scalar>(events: Seq<FlatEvent<S>>, glass: bool, scale: S)
    ensures
        shapes_of(events, glass, scale).len() == group_size(events, glass, events.len()),
        forall|i: int|
            0 <= i < events.len() && #[trigger] in_group(events, i, glass) ==> shapes_of(
                events,
                glass,
                scale,
            )[group_size(events, glass, i as nat) as int] == in_pixels(
                events[i]->Shape_0,
                scale,
            ),
    decreases events.len(),
{
    if events.len() > 0 {
        let fewer = events.drop_last();
        let last = events.len() - 1;
        lemma_group(fewer, glass, scale);
        assert(events.take(fewer.len() as int) =~= fewer);
        lemma_sizes(fewer, events, glass, fewer.len());
        let all = shapes_of(events, glass, scale);
        let before = shapes_of(fewer, glass, scale);
        assert forall|i: int| 0 <= i < events.len() && #[trigger] in_group(
            events,
            i,
            glass,
        ) implies all[group_size(events, glass, i as nat) as int] == in_pixels(
            events[i]->Shape_0,
            scale,
        ) by {
            if i < last {
                assert(fewer[i] == events[i]);
                assert(in_group(fewer, i, glass));
                lemma_sizes(fewer, events, glass, i as nat);
                lemma_grows(fewer, glass, i, fewer.len());
                let at = group_size(fewer, glass, i as nat) as int;
                assert(all[at] == before[at]);
            }
        }
    }
}

/// Sorting a paint list for upload keeps the painting order within each group:
/// every shape has a place of its own in the instance list, there are no
/// others, and of two shapes of a group the one painted earlier comes first.
/// Every opaque shape comes before every glass one.
pub proof fn instances_keep_painting_order<S: Scalar>(
    events: Seq<FlatEvent<S>>,
    scale: S,
    i: int,
    j: int,
    first: bool,
    second: bool,
)
    requires
        0 <= i < j < events.len(),
        in_group(events, i, first),
        in_group(events, j, second),
    ensures
        ({
            let list = instances_of(events, scale);
            let a = place_of(events, i, first);
            let b = place_of(events, j, second);
            &&& list.len() == group_size(events, false, events.len()) + group_size(
                events,
                true,
                events.len(),
            )
            &&& 0 <= a < list.len()
            &&& 0 <= b < list.len()
            &&& list[a] == in_pixels(events[i]->Shape_0, scale)
            &&& list[b] == in_pixels(events[j]->Shape_0, scale)
            &&& first == second ==> a < b
            &&& !first && second ==> a < b
            &&& first && !second ==> b < a
        }),
{
    lemma_group(events, false, scale);
    lemma_group(events, true, scale);
    lemma_grows(events, first, i, events.len());
    lemma_grows(events, second, j, events.len());
    if first == second {
        lemma_grows(events, first, i, j as nat);
    }
}

/// A shape alone has its place too.
pub proof fn every_shape_is_an_instance<S: Scalar>(
    events: Seq<FlatEvent<S>>,
    scale: S,
    i: int,
    glass: bool,
)
    requires
        0 <= i < events.len(),
        in_group(events, i, glass),
    ensures
        0 <= place_of(events, i, glass) < instances_of(events, scale).len(),
        instances_of(events, scale)[place_of(events, i, glass)] == in_pixels(
            events[i]->Shape_0,
            scale,
        ),
{
    lemma_group(events, false, scale);
    lemma_group(events, true, scale);
    lemma_grows(events, glass, i, events.len());
}

/// The product of a length and a whole scale.
proof fn lemma_whole_scale(x: Fixed, m: int)
    requires
        1 <= m <= 16,
        -0x400_0000_0000_0000 <= x.raw <= 0x400_0000_0000_0000,
    ensures
        x.prod(Fixed { raw: (65536 * m) as i64 }).raw == m * x.raw,
{
    let s = (65536 * m) as i64;
    assert((x.raw * s) / 65536 == m * x.raw && -0x4000_0000_0000_0000 <= m * x.raw
        <= 0x4000_0000_0000_0000) by (nonlinear_arith)
        requires
            s == 65536 * m,
            1 <= m <= 16,
            -0x400_0000_0000_0000 <= x.raw <= 0x400_0000_0000_0000,
    ;
}

/// Whether a length can be scaled without leaving the range of numbers.
pub open spec fn modest(x: Fixed) -> bool {
    -0x400_0000_0000_0000 <= x.raw <= 0x400_0000_0000_0000
}

/// On a screen with `m` pixels to a unit, every length of a shape's style is
/// `m` times as many; where it is, how large it is, its colours and its
/// opacity are as painted.
pub proof fn lengths_scale_with_the_screen(i: ShapeInstance<Fixed>, m: int)
    requires
        1 <= m <= 16,
        forall|k: int| 0 <= k < 4 ==> modest(#[trigger] i.border_radius[k]),
        forall|k: int| 0 <= k < 4 ==> modest(#[trigger] i.backdrop_uv_rect[k]),
        forall|k: int| 0 <= k < 2 ==> modest(#[trigger] i.shadow_offset[k]),
        modest(i.roughness),
        modest(i.border_width),
        modest(i.shadow_blur),
    ensures
        ({
            let r = in_pixels(i, (Fixed { raw: (65536 * m) as i64 }));
            let glass = i.shape_kind == SHAPE_KIND_GLASS;
            &&& r.position == i.position && r.size == i.size && r.clip_rect == i.clip_rect
            &&& r.color == i.color && r.border_color == i.border_color
            &&& r.shadow_color == i.shadow_color
            &&& r.opacity == i.opacity && r.shadow_opacity == i.shadow_opacity
            &&& r.shape_kind == i.shape_kind
            &&& forall|k: int|
                0 <= k < 4 ==> (#[trigger] r.border_radius[k]).raw == m * i.border_radius[k].raw
            &&& forall|k: int|
                0 <= k < 2 ==> (#[trigger] r.shadow_offset[k]).raw == m * i.shadow_offset[k].raw
            &&& r.roughness.raw == m * i.roughness.raw
            &&& r.border_width.raw == m * i.border_width.raw
            &&& r.shadow_blur.raw == m * i.shadow_blur.raw
            &&& glass ==> r.backdrop_uv_rect[0].raw == m * i.backdrop_uv_rect[0].raw
                && r.backdrop_uv_rect[1].raw == m * i.backdrop_uv_rect[1].raw
            &&& !glass ==> r.backdrop_uv_rect == i.backdrop_uv_rect
        }),
{
    lemma_whole_scale(i.border_radius[0], m);
    lemma_whole_scale(i.border_radius[1], m);
    lemma_whole_scale(i.border_radius[2], m);
    lemma_whole_scale(i.border_radius[3], m);
    lemma_whole_scale(i.backdrop_uv_rect[0], m);
    lemma_whole_scale(i.backdrop_uv_rect[1], m);
    lemma_whole_scale(i.shadow_offset[0], m);
    lemma_whole_scale(i.shadow_offset[1], m);
    lemma_whole_scale(i.roughness, m);
    lemma_whole_scale(i.border_width, m);
    lemma_whole_scale(i.shadow_blur, m);
}

} // verus!
