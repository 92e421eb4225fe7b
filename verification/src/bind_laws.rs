//! How values reach the nodes that follow them.
use vstd::prelude::*;

use crate::anim::{Curve, TimelineView, Tween};
use crate::binds::{pumped, BindState, BIND_TWEEN_KEY_BASE};
use crate::node::{id_is_slot_and_issue, NodeId};
use crate::overlay::OverlayView;
use crate::reactive::{AnimatedBind, Bind, Computed, Source};
use crate::scalar::{eqv4, Scalar};
use crate::scene::ColorBindSlot;
use crate::signal::{store_changes, store_set, Cell, Color, Number, Reactive, Signal};
use crate::tree::TreeView;

verus! {

// --- sources ---------------------------------------------------------------

/// A prop that follows a signal has what was written to it, and its version
/// moves exactly when that was news. So do one that is eased, and one that
/// follows a derivation. A constant never moves.
pub proof fn props_follow_their_source<S: Scalar, V: Reactive>(
    store: Seq<Cell<V>>,
    sig: Signal<V>,
    c: Computed<V>,
    curve: Curve<S>,
    duration: u64,
    v: V,
)
    requires
        sig.cell() < store.len(),
        c.output() == sig,
    ensures
        ({
            let after = store_set(store, sig, v);
            let news = store_changes(store, sig, v);
            let plain = Bind::<S, V>::Signal(sig);
            let derived = Bind::<S, V>::Computed(c);
            let eased = Bind::Animated(
                AnimatedBind { source: Source::Signal(sig), curve, duration },
            );
            let both = Bind::Animated(
                AnimatedBind { source: Source::Computed(c), curve, duration },
            );
            let fixed = Bind::<S, V>::Value(v);
            &&& plain.current(after) == v || plain.current(after).unchanged(v)
            &&& plain.stamp(after) != plain.stamp(store) <==> news
            &&& derived.current(after) == plain.current(after)
            &&& derived.stamp(after) == plain.stamp(after)
            &&& eased.current(after) == plain.current(after)
            &&& eased.stamp(after) == plain.stamp(after)
            &&& both.current(after) == plain.current(after)
            &&& both.stamp(after) == plain.stamp(after)
            &&& fixed.current(after) == v
            &&& fixed.stamp(after) == fixed.stamp(store)
            &&& plain.easing() is None
            &&& derived.easing() is None
            &&& fixed.easing() is None
            &&& eased.easing() == Some((curve, duration))
            &&& both.easing() == Some((curve, duration))
        }),
{
    crate::signal::write_is_visible(store, sig, v);
}

/// A write to another signal does not move a prop.
pub proof fn props_ignore_other_sources<S: Scalar, V: Reactive>(
    store: Seq<Cell<V>>,
    sig: Signal<V>,
    other: Signal<V>,
    v: V,
)
    requires
        sig.cell() != other.cell(),
        sig.cell() < store.len(),
    ensures
        Bind::<S, V>::Signal(sig).current(store_set(store, other, v)) == Bind::<S, V>::Signal(
            sig,
        ).current(store),
        Bind::<S, V>::Signal(sig).stamp(store_set(store, other, v)) == Bind::<S, V>::Signal(
            sig,
        ).stamp(store),
{
}

// --- bound colours ---------------------------------------------------------

/// A colour that is not eased is on its node as soon as its source has moved.
pub proof fn plain_colours_snap<S: Scalar>(
    s: BindState<S>,
    store: Seq<Cell<Color<S>>>,
    now: u64,
    i: int,
)
    requires
        0 <= i < s.slots.len(),
        s.slots[i].bind.stamp(store) != s.slots[i].last_version,
        s.slots[i].bind.easing() is None || s.slots[i].displayed is None,
        s.tree.node(s.slots[i].node_id) is Some,
    ensures
        ({
            let u = s.acted(store, now, i);
            let id = s.slots[i].node_id;
            let due = s.slots[i].bind.current(store).rgba;
            &&& u.tree.node(id) matches Some(n)
            &&& n.style.color == due || eqv4(n.style.color, due)
            &&& u.timeline == s.timeline
            &&& u.slots[i].last_version == s.slots[i].bind.stamp(store)
        }),
{
}

/// A colour that is eased stays on its node for now. A tween carries what is
/// displayed from where it is to what the source holds, as the prop says; there
/// is none if it is there already.
pub proof fn eased_colours_set_off<S: Scalar>(
    s: BindState<S>,
    store: Seq<Cell<Color<S>>>,
    now: u64,
    i: int,
    d: Signal<Color<S>>,
    curve: Curve<S>,
    duration: u64,
)
    requires
        0 <= i < s.slots.len() <= 0x4000_0000,
        s.slots[i].bind.stamp(store) != s.slots[i].last_version,
        s.slots[i].displayed == Some(d),
        s.slots[i].bind.easing() == Some((curve, duration)),
    ensures
        ({
            let u = s.acted(store, now, i);
            let from = store[d.cell() as int].value;
            let to = s.slots[i].bind.current(store);
            let t = u.timeline.colors.last();
            &&& u.tree == s.tree
            &&& u.slots[i].last_version == s.slots[i].bind.stamp(store)
            &&& u.timeline.numbers == s.timeline.stopped((BIND_TWEEN_KEY_BASE + i) as u32).numbers
            &&& !from.unchanged(to) ==> {
                &&& u.timeline.colors.len() > 0
                &&& t.signal == d
                &&& t.from == from
                &&& t.to == to
                &&& t.curve == curve
                &&& t.duration == duration
                &&& t.start == now
                &&& t.key == BIND_TWEEN_KEY_BASE + i
            }
        }),
{
}

/// Acting on one slot leaves the others as they are, and a slot whose source
/// has not moved is left alone.
pub proof fn slots_are_acted_on_alone<S: Scalar>(
    s: BindState<S>,
    store: Seq<Cell<Color<S>>>,
    now: u64,
    i: int,
    j: int,
)
    requires
        0 <= i < s.slots.len(),
        0 <= j < s.slots.len(),
    ensures
        i != j ==> s.acted(store, now, i).slots[j] == s.slots[j],
        s.slots[i].bind.stamp(store) == s.slots[i].last_version ==> s.acted(store, now, i) == s,
        s.acted(store, now, i).slots[i].node_id == s.slots[i].node_id,
        s.acted(store, now, i).slots[i].bind == s.slots[i].bind,
        s.acted(store, now, i).slots[i].displayed == s.slots[i].displayed,
{
}

/// Whether no later slot displays a colour on the same node.
pub open spec fn last_displayed<S>(slots: Seq<ColorBindSlot<S>>, i: int, k: int) -> bool {
    forall|j: int|
        i < j < k ==> (#[trigger] slots[j]).displayed is None || slots[j].node_id
            != slots[i].node_id
}

/// A node shows the colour on its way that the last slot of it displays.
pub proof fn displayed_colours_are_shown<S: Scalar>(
    t: TreeView<S>,
    slots: Seq<ColorBindSlot<S>>,
    store: Seq<Cell<Color<S>>>,
    k: nat,
    i: int,
    d: Signal<Color<S>>,
)
    requires
        0 <= i < k <= slots.len(),
        slots[i].displayed == Some(d),
        last_displayed(slots, i, k as int),
        t.node(slots[i].node_id) is Some,
    ensures
        ({
            let due = store[d.cell() as int].value.rgba;
            &&& pumped(t, slots, store, k).node(slots[i].node_id) matches Some(n)
            &&& n.style.color == due || eqv4(n.style.color, due)
        }),
    decreases k,
{
    broadcast use id_is_slot_and_issue;

    let p = (k - 1) as nat;
    lemma_pumped_keeps(t, slots, store, p, slots[i].node_id);
    if i < k - 1 {
        assert(slots[k - 1].displayed is None || slots[k - 1].node_id != slots[i].node_id);
        assert(last_displayed(slots, i, p as int));
        displayed_colours_are_shown(t, slots, store, p, i, d);
    }
}

proof fn lemma_pumped_keeps<S: Scalar>(
    t: TreeView<S>,
    slots: Seq<ColorBindSlot<S>>,
    store: Seq<Cell<Color<S>>>,
    k: nat,
    id: NodeId,
)
    requires
        t.node(id) is Some,
    ensures
        pumped(t, slots, store, k).node(id) is Some,
    decreases k,
{
    if k > 0 {
        lemma_pumped_keeps(t, slots, store, (k - 1) as nat, id);
    }
}

// --- overlays --------------------------------------------------------------

/// An overlay fades from the level it is at to the one it is told, over its own
/// time and by its own curve, and nothing else moves it; other tweens go on.
/// One that is there already stops.
pub proof fn overlays_fade_where_told<S: Scalar>(
    o: OverlayView<S>,
    t: TimelineView<S>,
    store: Seq<Cell<Number<S>>>,
    to: S,
    now: u64,
    other: Tween<S, Number<S>>,
)
    ensures
        ({
            let u = o.fading(t, store, to, now);
            let last = u.numbers.last();
            &&& o.level(store).eqv(to) ==> u == t.stopped(o.tween_key)
            &&& !o.level(store).eqv(to) ==> {
                &&& u.numbers.len() > 0
                &&& last.signal == o.opacity
                &&& last.from.value == o.level(store)
                &&& last.to.value == to
                &&& last.duration == o.fade
                &&& last.curve == o.curve
                &&& last.start == now
                &&& last.key == o.tween_key
                &&& forall|i: int|
                    0 <= i < u.numbers.len() - 1 ==> (#[trigger] u.numbers[i]).key != o.tween_key
            }
            &&& t.numbers.contains(other) && other.key != o.tween_key ==> u.numbers.contains(other)
        }),
{
    let keep = |x: Tween<S, Number<S>>| x.key != o.tween_key;
    let s = t.stopped(o.tween_key).numbers;
    let u = o.fading(t, store, to, now);
    assert(s == t.numbers.filter(keep));
    assert forall|i: int| 0 <= i < s.len() implies (#[trigger] s[i]).key != o.tween_key by {
        t.numbers.lemma_filter_pred(keep, i);
    }
    if t.numbers.contains(other) && other.key != o.tween_key {
        let k = choose|k: int| 0 <= k < t.numbers.len() && t.numbers[k] == other;
        t.numbers.lemma_filter_contains(keep, k);
        let m = choose|m: int| 0 <= m < s.len() && s[m] == other;
        assert(u.numbers[m] == other);
    }
    assert forall|i: int|
        !o.level(store).eqv(to) && 0 <= i < u.numbers.len() - 1 implies (#[trigger] u.numbers[i]).key
        != o.tween_key by {
        assert(u.numbers[i] == s[i]);
    }
}

} // verus!
