//! What events lead to.
use vstd::prelude::*;

use crate::app::{shapes_of, tick_moves, ticked_app, AppView, Deed, Event, Key};
use crate::flatten::{flat_tree, inside};
use crate::input::{topmost, topmost_is_first};
use crate::anim::{drive_changes, driven, Lerp, Tween};
use crate::anim_laws::tick_writes_what_is_shown;
use crate::node::{NodeId, WindowAction};
use crate::scalar::Scalar;
use crate::signal::{write_is_visible, Cell, Reactive};

verus! {

/// Whether a press lands on the part of the window's frame that closes it.
pub open spec fn closes<S: Scalar>(v: AppView<S>, ev: Event<S>) -> bool {
    ev is LeftButton && ev->LeftButton_0 && v.grip() == Some(WindowAction::Close)
}

/// The program leaves on a request to close, on Escape, and on a press on the
/// part of the frame that closes, and on nothing else.
pub proof fn leaving_takes_a_reason<S: Scalar>(v: AppView<S>, ev: Event<S>, now: u64)
    requires
        v.gpu is Some,
    ensures
        v.deeds_for(ev, now).contains(Deed::Exit) <==> ev is CloseRequested || ev
            == Event::<S>::Keyboard(Key::Escape, true) || closes(v, ev),
{
    let d = v.deeds_for(ev, now);
    if ev is CloseRequested || ev == Event::<S>::Keyboard(Key::Escape, true) || closes(v, ev) {
        assert(d[0] == Deed::Exit);
    }
}

/// A picture is taken when its key goes down, and at no other event.
pub proof fn pictures_take_their_key<S: Scalar>(v: AppView<S>, ev: Event<S>, now: u64)
    requires
        v.gpu is Some,
    ensures
        v.deeds_for(ev, now).contains(Deed::SaveScreenshot) <==> ev == Event::<S>::Keyboard(
            Key::F2,
            true,
        ),
{
    let d = v.deeds_for(ev, now);
    if ev == Event::<S>::Keyboard(Key::F2, true) {
        assert(d[0] == Deed::SaveScreenshot);
    }
}

/// A frame is drawn when one is asked for, once the gauges are up to date if
/// they are shown, and at no other event.
pub proof fn frames_are_drawn_on_request<S: Scalar>(v: AppView<S>, ev: Event<S>, now: u64)
    requires
        v.gpu is Some,
    ensures
        (exists|log: bool| #[trigger] v.deeds_for(ev, now).contains(Deed::Render(log))) <==> ev
            is RedrawRequested,
        ev is RedrawRequested ==> v.deeds_for(ev, now).last() == Deed::Render(v.stats_log),
        ev is RedrawRequested ==> (v.deeds_for(ev, now)[0] == Deed::UploadOverlay
            <==> v.hud_enabled),
{
    let d = v.deeds_for(ev, now);
    if ev is RedrawRequested {
        assert(d[d.len() - 1] == Deed::Render(v.stats_log));
        assert(d.contains(Deed::Render(v.stats_log)));
    }
}

/// The gauges' key shows them or hides them, with the log; pressed again it
/// undoes that. The overdraw key does the same of its view. Neither touches
/// the tree.
pub proof fn keys_toggle<S: Scalar>(v: AppView<S>, now: u64, later: u64)
    requires
        v.gpu is Some,
    ensures
        ({
            let f1 = Event::<S>::Keyboard(Key::F1, true);
            let f4 = Event::<S>::Keyboard(Key::F4, true);
            let a = v.after(f1, now);
            let b = a.after(f1, later);
            let c = v.after(f4, now);
            let d = c.after(f4, later);
            &&& a.hud_enabled == !v.hud_enabled
            &&& a.stats_log == a.hud_enabled
            &&& b.hud_enabled == v.hud_enabled
            &&& a.tree == v.tree
            &&& a.gpu is Some
            &&& !a.hud_enabled ==> a.gpu->Some_0.overlay_count == 0
            &&& c.gpu->Some_0.overdraw_mode == !v.gpu->Some_0.overdraw_mode
            &&& d.gpu->Some_0.overdraw_mode == v.gpu->Some_0.overdraw_mode
            &&& c.tree == v.tree
            &&& c.hud_enabled == v.hud_enabled
        }),
{
}

/// A key that goes up does nothing.
pub proof fn keys_act_going_down<S: Scalar>(v: AppView<S>, key: Key, now: u64)
    ensures
        v.after(Event::Keyboard(key, false), now) == v,
        v.deeds_for(Event::Keyboard(key, false), now).len() == 0,
{
}

/// A window that is resized is drawn at its new size, no side of it ever
/// nothing; the host is told the same size, and to draw anew.
pub proof fn resizing_follows_the_window<S: Scalar>(v: AppView<S>, w: u32, h: u32, now: u64)
    requires
        v.gpu is Some,
    ensures
        ({
            let u = v.after(Event::Resized(w, h), now);
            let d = v.deeds_for(Event::Resized(w, h), now);
            let g = u.gpu->Some_0;
            &&& u.gpu is Some
            &&& w > 0 ==> g.width == w
            &&& h > 0 ==> g.height == h
            &&& g.width > 0 && g.height > 0
            &&& w == 0 ==> g.width == 1
            &&& h == 0 ==> g.height == 1
            &&& g.backdrop_dirty
            &&& g.mirror == v.gpu->Some_0.mirror
            &&& d[0] == Deed::Configure(g.width, g.height)
            &&& d.contains(Deed::RequestRedraw)
            &&& u.tree == v.tree
        }),
{
    let d = v.deeds_for(Event::<S>::Resized(w, h), now);
    assert(d[1] == Deed::RequestRedraw);
}

/// A press on a part of the window's frame acts on the window alone: no node
/// is pressed by it.
pub proof fn frame_parts_are_not_pressed<S: Scalar>(v: AppView<S>, a: WindowAction, now: u64)
    requires
        v.gpu is Some,
        v.grip() == Some(a),
    ensures
        v.after(Event::LeftButton(true), now) == v,
        v.deeds_for(Event::LeftButton(true), now).len() == 1,
        !(a is Close) ==> v.deeds_for(Event::LeftButton(true), now)[0] == Deed::Window(a),
{
}

/// A window that comes into sight is drawn; one that goes out of sight is not.
pub proof fn only_seen_windows_are_drawn<S: Scalar>(v: AppView<S>, hidden: bool, now: u64)
    requires
        v.gpu is Some,
    ensures
        v.deeds_for(Event::Occluded(hidden), now).contains(Deed::RequestRedraw) <==> !hidden,
        v.after(Event::Occluded(hidden), now) == v,
{
    let d = v.deeds_for(Event::<S>::Occluded(hidden), now);
    if !hidden {
        assert(d[0] == Deed::RequestRedraw);
    }
}

/// Flushing a dirty tree takes down what it was dirty with, and has the window
/// drawn anew; the list goes up whenever there is a renderer that can number
/// it.
pub proof fn dirt_is_drawn_away<S: Scalar>(v: AppView<S>)
    requires
        v.tree.dirty != 0,
    ensures
        v.flushed().tree.dirty == 0,
        v.flushed().last_dirty_mask == v.tree.dirty,
        v.flushed().tree.slots == v.tree.slots,
        v.flushed().tree.roots == v.tree.roots,
        v.flush_deeds().last() == Deed::RequestRedraw,
        v.flush_deeds().contains(Deed::Upload) <==> v.uploads(),
        v.uploads() ==> v.flushed().gpu->Some_0.mirror == v.flushed().instances,
{
    let d = v.flush_deeds();
    if v.uploads() {
        assert(d[0] == Deed::Upload);
    }
}

/// After a flush the pointer finds what was painted last: of the nodes under a
/// point, it hits the one that comes last as the tree is walked.
pub proof fn what_is_on_top_is_hit<S: Scalar>(v: AppView<S>, x: S, y: S, j: int)
    requires
        v.tree.dirty != 0,
        ({
            let hits = flat_tree(v.tree, v.scale).hits;
            &&& 0 <= j < hits.len()
            &&& inside(hits[j].bounds, hits[j].clip_rect, x, y)
            &&& forall|k: int|
                j < k < hits.len() ==> !inside(
                    (#[trigger] hits[k]).bounds,
                    hits[k].clip_rect,
                    x,
                    y,
                )
        }),
    ensures
        topmost(v.flushed().hits, x, y) == Some(flat_tree(v.tree, v.scale).hits[j].node_id),
{
    let hits = flat_tree(v.tree, v.scale).hits;
    let listed = v.flushed().hits;
    let n = hits.len();
    assert(listed[n - 1 - j] == hits[j]);
    topmost_is_first(listed, x, y);
    let i = choose|i: int|
        0 <= i < listed.len() && Some((#[trigger] listed[i]).node_id) == topmost(listed, x, y)
            && inside(listed[i].bounds, listed[i].clip_rect, x, y) && forall|k: int|
            0 <= k < i ==> !inside(
                (#[trigger] listed[k]).bounds,
                listed[k].clip_rect,
                x,
                y,
            );
    assert(listed[i] == hits[n - 1 - i]);
}

/// A flush lists every node that can be hit, scrolled or dragged, and no
/// other; and counts the opaque shapes it uploads.
pub proof fn flushing_lists_everything<S: Scalar>(v: AppView<S>)
    requires
        v.tree.dirty != 0,
    ensures
        ({
            let f = flat_tree(v.tree, v.scale);
            let u = v.flushed();
            &&& u.events == f.events
            &&& u.hits.to_multiset() == f.hits.to_multiset()
            &&& u.scroll_hits == f.scroll_hits
            &&& u.scroll_bars == f.bars
            &&& shapes_of(f.events, false, v.scale).len() <= u32::MAX ==> u.opaque_count
                == shapes_of(f.events, false, v.scale).len()
            &&& u.input == v.input
            &&& u.flags == v.flags
            &&& u.timeline == v.timeline
        }),
{
    let hits = flat_tree(v.tree, v.scale).hits;
    hits.lemma_reverse_to_multiset();
}

/// The pointer has hold of the window by the node it hovers: what that node
/// stands for, and by nothing else.
pub proof fn the_hovered_part_is_gripped<S: Scalar>(v: AppView<S>, id: NodeId)
    ensures
        v.input.hovered is None ==> v.grip() is None,
        v.input.hovered == Some(id) && v.tree.node(id) is Some ==> v.grip() == v.tree.node(
            id,
        )->Some_0.window_action,
        v.input.hovered == Some(id) && v.tree.node(id) is None ==> v.grip() is None,
{
}

/// The shell adds to the renderer's statistics what it measured itself, and
/// changes none of them.
pub proof fn shells_add_what_they_measured<S: Scalar>(v: AppView<S>)
    ensures
        v.stats().cpu_ms == v.last_cpu_ms,
        v.stats().dirty_mask == v.last_dirty_mask,
        v.gpu matches Some(g) ==> {
            &&& v.stats().gpu_ms == g.stats().gpu_ms
            &&& v.stats().instance_count == g.stats().instance_count
            &&& v.stats().opaque_count == g.stats().opaque_count
            &&& v.stats().drawcalls == g.stats().drawcalls
        },
        v.gpu is None ==> v.stats().instance_count == 0 && v.stats().drawcalls == 0,
{
}

/// A tick of the shell moves numbers and colours alike: each holds what the
/// last tween of it shows. Nothing but values and tweens is touched.
pub proof fn ticks_drive_both_kinds<S: Scalar>(v: AppView<S>, now: u64, i: int, j: int)
    requires
        0 <= i < v.timeline.numbers.len(),
        0 <= j < v.timeline.colors.len(),
        v.timeline.numbers[i].signal.cell() < v.numbers.len(),
        v.timeline.colors[j].signal.cell() < v.colors.len(),
        forall|k: int|
            i < k < v.timeline.numbers.len() ==> (#[trigger] v.timeline.numbers[k]).signal.cell()
                != v.timeline.numbers[i].signal.cell(),
        forall|k: int|
            j < k < v.timeline.colors.len() ==> (#[trigger] v.timeline.colors[k]).signal.cell()
                != v.timeline.colors[j].signal.cell(),
    ensures
        ({
            let u = ticked_app(v, now);
            let a = v.timeline.numbers[i];
            let b = v.timeline.colors[j];
            let x = u.numbers[a.signal.cell() as int].value;
            let y = u.colors[b.signal.cell() as int].value;
            &&& x == a.shown(now) || x.unchanged(a.shown(now))
            &&& y == b.shown(now) || y.unchanged(b.shown(now))
            &&& u.tree == v.tree
            &&& u.input == v.input
            &&& u.flags == v.flags
            &&& u.hits == v.hits
        }),
{
    tick_writes_what_is_shown(v.timeline.numbers, v.numbers, now, i);
    tick_writes_what_is_shown(v.timeline.colors, v.colors, now, j);
}

/// A tick that moves nothing leaves every value as it is, and without tweens
/// nothing moves.
pub proof fn still_ticks_move_nothing<S: Scalar>(v: AppView<S>, now: u64)
    ensures
        !tick_moves(v, now) ==> ticked_app(v, now).numbers == v.numbers && ticked_app(
            v,
            now,
        ).colors == v.colors,
        v.timeline.size() == 0 ==> !tick_moves(v, now),
{
    lemma_still(v.timeline.numbers, v.numbers, now, v.timeline.numbers.len());
    lemma_still(v.timeline.colors, v.colors, now, v.timeline.colors.len());
}

proof fn lemma_still<S: Scalar, V: Lerp<S>>(
    ts: Seq<Tween<S, V>>,
    store: Seq<Cell<V>>,
    now: u64,
    k: nat,
)
    requires
        k <= ts.len(),
    ensures
        !drive_changes(ts, store, now, k) ==> driven(ts, store, now, k) == store,
    decreases k,
{
    if k > 0 {
        lemma_still(ts, store, now, (k - 1) as nat);
        let before = driven(ts, store, now, (k - 1) as nat);
        if ts[k - 1].signal.cell() < before.len() {
            write_is_visible(before, ts[k - 1].signal, ts[k - 1].shown(now));
        }
    }
}

} // verus!
