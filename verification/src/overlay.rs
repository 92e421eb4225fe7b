//! Modal overlays: a scrim over everything, a panel on top of it.
//!
//! An [`Overlay`] owns its opacity and the key it fades under, so opening,
//! closing and turning round half way need no bookkeeping. Closed, its nodes
//! are hidden: they are neither painted nor hit.
use vstd::prelude::*;

use crate::anim::{Curve, Timeline, TimelineView};
use crate::consistency::{child_keeps_consistent, root_keeps_consistent};
use crate::layout::{Align, Axis, Justify, LayoutStyle, Len};
use crate::node::{id_is_slot_and_issue, id_parts, Node, NodeId, NodeInteract, ShapeStyle};
use crate::scalar::{one, one_s, zero, zero_s, Fixed, Scalar};
use crate::scene::{OpacityBindSlot, Scene};
use crate::signal::{store_set, Cell, Number, Signal, SignalStore, Signals};
use crate::tree::{child_stays_acyclic, root_stays_acyclic, TreeView};

verus! {

broadcast use {id_is_slot_and_issue, id_parts};

/// First of the tween keys that widgets use. Programs pick theirs far below.
pub const WIDGET_TWEEN_BASE: u32 = 0xF000_0000;

/// Hands out tween keys, each one once.
#[derive(Debug)]
pub struct WidgetKeys {
    next: u32,
}

impl WidgetKeys {
    pub closed spec fn upcoming(self) -> u32 {
        self.next
    }

    pub fn new() -> (r: Self)
        ensures
            r.upcoming() == WIDGET_TWEEN_BASE,
    {
        WidgetKeys { next: WIDGET_TWEEN_BASE }
    }

    /// The next key. The sequence wraps after the last number.
    pub fn take(&mut self) -> (r: u32)
        ensures
            r == old(self).upcoming(),
            final(self).upcoming() == old(self).upcoming().wrapping_add(1),
    {
        let key: u32 = self.next;
        self.next = self.next.wrapping_add(1);
        key
    }
}

impl Default for WidgetKeys {
    fn default() -> (r: Self)
        ensures
            r.upcoming() == WIDGET_TWEEN_BASE,
    {
        WidgetKeys::new()
    }
}

/// Length of a fade unless another is chosen: 160 ms.
pub const DEFAULT_FADE: u64 = 160_000_000;

/// A modal overlay.
#[derive(Copy, Clone, Debug)]
pub struct Overlay<S> {
    opacity: Signal<Number<S>>,
    scrim_press: Signal<bool>,
    host_press: Signal<bool>,
    tween_key: u32,
    fade: u64,
    curve: Curve<S>,
}

/// The nodes of a rendered overlay.
#[derive(Copy, Clone, Debug, PartialEq, Eq, Structural)]
pub struct Modal {
    /// Covers the window, dims it, and takes every click outside the panel.
    pub scrim: NodeId,
    /// Holds the panel, and takes every click on it.
    pub host: NodeId,
}

/// The contents of an [`Overlay`].
pub struct OverlayView<S> {
    pub opacity: Signal<Number<S>>,
    pub scrim_press: Signal<bool>,
    pub host_press: Signal<bool>,
    pub tween_key: u32,
    pub fade: u64,
    pub curve: Curve<S>,
}

impl<S> View for Overlay<S> {
    type V = OverlayView<S>;

    closed spec fn view(&self) -> OverlayView<S> {
        OverlayView {
            opacity: self.opacity,
            scrim_press: self.scrim_press,
            host_press: self.host_press,
            tween_key: self.tween_key,
            fade: self.fade,
            curve: self.curve,
        }
    }
}

impl<S: Scalar> OverlayView<S> {
    /// How far it is faded in.
    pub open spec fn level(self, store: Seq<Cell<Number<S>>>) -> S {
        store[self.opacity.cell() as int].value.value
    }

    pub open spec fn valid(self, store: Seq<Cell<Number<S>>>) -> bool {
        self.opacity.cell() < store.len()
    }

    /// Whether it is more than half faded in.
    pub open spec fn opened(self, store: Seq<Cell<Number<S>>>) -> bool {
        S::rat(1, 2).less(self.level(store))
    }

    /// The timeline after it is sent to `to`.
    pub open spec fn fading(
        self,
        t: TimelineView<S>,
        store: Seq<Cell<Number<S>>>,
        to: S,
        now: u64,
    ) -> TimelineView<S> {
        t.number_started(
            self.tween_key,
            self.opacity,
            store[self.opacity.cell() as int].value,
            to,
            self.curve,
            self.fade,
            now,
        )
    }

    /// The scrim: over the whole window, centring what is in it, and hidden
    /// while the overlay is closed.
    pub open spec fn scrim(self, color: [S; 4], level: S, n: Node<S>) -> bool {
        &&& n.children@.len() == 0
        &&& n == Node {
            style: ShapeStyle { color, opacity: level, ..ShapeStyle::plain() },
            layout: LayoutStyle {
                axis: Axis::Column,
                abs: Some([zero_s(), zero_s()]),
                width: Len::Fill,
                height: Len::Fill,
                align: Align::Center,
                justify: Justify::Center,
                ..LayoutStyle::plain()
            },
            visible: zero_s::<S>().less(level),
            interact: NodeInteract { pressed: Some(self.scrim_press), ..NodeInteract::inert() },
            ..Node::plain(ShapeStyle::plain(), None, None, n.children)
        }
    }

    /// The host: fits the panel, and wants the pointer.
    pub open spec fn host(self, n: Node<S>) -> bool {
        &&& n.children@.len() == 0
        &&& n == Node {
            layout: LayoutStyle { axis: Axis::Column, ..LayoutStyle::<S>::plain() },
            interact: NodeInteract { pressed: Some(self.host_press), ..NodeInteract::inert() },
            ..Node::plain(ShapeStyle::plain(), None, None, n.children)
        }
    }

    /// Whether `after` is the tree after the overlay is rendered under
    /// `parent`.
    pub open spec fn rendered(
        self,
        before: TreeView<S>,
        parent: Option<NodeId>,
        color: [S; 4],
        level: S,
        m: Modal,
        after: TreeView<S>,
    ) -> bool {
        exists|n: Node<S>, mid: TreeView<S>, h: Node<S>|
            {
                &&& #[trigger] self.scrim(color, level, n)
                &&& match parent {
                    Some(p) => before.child_added(p, n, mid),
                    None => mid == before.root_added(n),
                }
                &&& m.scrim == before.next_id()
                &&& self.host(h)
                &&& m.host == mid.next_id()
                &&& #[trigger] mid.child_added(m.scrim, h, after)
            }
    }
}

impl<S: Scalar> Overlay<S> {
    /// A closed overlay that fades in and out over 160 ms.
    pub fn new(signals: &mut Signals<S>, keys: &mut WidgetKeys) -> (r: Self)
        requires
            old(signals).numbers@.len() < u32::MAX,
            old(signals).flags@.len() < u32::MAX - 1,
        ensures
            final(signals).numbers@ == old(signals).numbers@.push(
                Cell { value: Number { value: zero_s() }, version: 0 },
            ),
            final(signals).flags@ == old(signals).flags@.push(
                Cell { value: false, version: 0 },
            ).push(Cell { value: false, version: 0 }),
            final(signals).colors == old(signals).colors,
            r@.opacity.cell() == old(signals).numbers@.len(),
            r@.scrim_press.cell() == old(signals).flags@.len(),
            r@.host_press.cell() == old(signals).flags@.len() + 1,
            r@.tween_key == old(keys).upcoming(),
            final(keys).upcoming() == old(keys).upcoming().wrapping_add(1),
            r@.fade == DEFAULT_FADE,
            r@.curve is EaseInOut,
            r@.valid(final(signals).numbers@),
            r@.level(final(signals).numbers@) == zero_s::<S>(),
    {
        let opacity: Signal<Number<S>> = signals.numbers.signal(Number { value: zero() });
        let scrim_press: Signal<bool> = signals.flags.signal(false);
        let host_press: Signal<bool> = signals.flags.signal(false);
        Overlay {
            opacity,
            scrim_press,
            host_press,
            tween_key: keys.take(),
            fade: DEFAULT_FADE,
            curve: Curve::EaseInOut,
        }
    }

    /// Choose the length of the fade, in and out.
    pub fn with_fade(self, fade: u64) -> (r: Self)
        ensures
            r@ == (OverlayView { fade, ..self@ }),
    {
        Overlay { fade, ..self }
    }

    /// Choose the easing of the fade.
    pub fn with_curve(self, curve: Curve<S>) -> (r: Self)
        ensures
            r@ == (OverlayView { curve, ..self@ }),
    {
        Overlay { curve, ..self }
    }

    /// Whether it counts as open: more than half faded in.
    pub fn is_open(&self, store: &SignalStore<Number<S>>) -> (r: bool)
        requires
            self@.valid(store@),
        ensures
            r == self@.opened(store@),
    {
        S::ratio(1, 2).lt(store.get(self.opacity).value)
    }

    /// Fade in, from wherever it is.
    pub fn open(&self, timeline: &mut Timeline<S>, now: u64, store: &SignalStore<Number<S>>)
        requires
            self@.valid(store@),
        ensures
            final(timeline)@ == self@.fading(old(timeline)@, store@, one_s(), now),
    {
        timeline.start(self.tween_key, self.opacity, one(), self.curve, self.fade, now, store);
    }

    /// Fade out, from wherever it is.
    pub fn close(&self, timeline: &mut Timeline<S>, now: u64, store: &SignalStore<Number<S>>)
        requires
            self@.valid(store@),
        ensures
            final(timeline)@ == self@.fading(old(timeline)@, store@, zero_s(), now),
    {
        timeline.start(self.tween_key, self.opacity, zero(), self.curve, self.fade, now, store);
    }

    /// Open if closed, close if open.
    pub fn toggle(&self, timeline: &mut Timeline<S>, now: u64, store: &SignalStore<Number<S>>)
        requires
            self@.valid(store@),
        ensures
            final(timeline)@ == self@.fading(
                old(timeline)@,
                store@,
                if self@.opened(store@) {
                    zero_s()
                } else {
                    one_s()
                },
                now,
            ),
    {
        if self.is_open(store) {
            self.close(timeline, now, store);
        } else {
            self.open(timeline, now, store);
        }
    }

    /// Shut at once.
    pub fn reset(&self, store: &mut SignalStore<Number<S>>)
        ensures
            final(store)@ == store_set(old(store)@, self@.opacity, Number { value: zero_s() }),
    {
        let _ = store.set(self.opacity, Number { value: zero() });
    }

    /// Open at once.
    pub fn open_instant(&self, store: &mut SignalStore<Number<S>>)
        ensures
            final(store)@ == store_set(old(store)@, self@.opacity, Number { value: one_s() }),
    {
        let _ = store.set(self.opacity, Number { value: one() });
    }

    /// Add the overlay's nodes; the panel goes under the host. The scrim's
    /// opacity follows the overlay's from now on, and fades all that is in it.
    /// What is added last is on top, and a full-window scrim takes the pointer
    /// from all that is under it.
    pub fn render(&self, s: &mut Scene<'_, S>, scrim_color: [S; 4]) -> (m: Modal)
        requires
            Scene::ready(*old(s).ctx),
            old(s).ctx.tree@.spare() >= 2,
            self@.valid(old(s).ctx.signals.numbers@),
        ensures
            self@.rendered(
                old(s).ctx.tree@,
                old(s).parent,
                scrim_color,
                self@.level(old(s).ctx.signals.numbers@),
                m,
                final(s).ctx.tree@,
            ),
            final(s).ctx.names == old(s).ctx.names,
            final(s).ctx.signals == old(s).ctx.signals,
            final(s).ctx.binds.color == old(s).ctx.binds.color,
            final(s).ctx.binds.opacity@ == old(s).ctx.binds.opacity@.push(
                OpacityBindSlot { node_id: m.scrim, level: self@.opacity },
            ),
            Scene::grounded(*old(s).ctx, old(s).parent) ==> final(s).ctx.wf(),
            final(s).parent == old(s).parent,
            *final(final(s).ctx) == *final(old(s).ctx),
    {
        let level: S = s.ctx.signals.numbers.get(self.opacity).value;
        let mut scrim: Node<S> = Node::rect().layout_axis(Axis::Column).layout_abs(
            zero(),
            zero(),
        ).layout_size(Len::Fill, Len::Fill).layout_align(Align::Center).layout_justify(
            Justify::Center,
        ).color(scrim_color).opacity(level).on_press(self.scrim_press).build();
        scrim.visible = zero::<S>().lt(level);
        let host: Node<S> = Node::rect().layout_axis(Axis::Column).on_press(
            self.host_press,
        ).build();
        let ghost t = s.ctx.tree@;
        let ghost n = scrim;
        let ghost h = host;
        assert(self@.scrim(scrim_color, level, n));
        assert(self@.host(h));
        let scrim_id: NodeId = match s.parent {
            Some(p) => {
                let id: NodeId = s.ctx.tree.add_child(p, scrim);
                proof {
                    root_keeps_consistent(t, n);
                    if p != t.next_id() {
                        child_stays_acyclic(t, p, n, s.ctx.tree@);
                        child_keeps_consistent(t, p, n, s.ctx.tree@);
                    }
                }
                id
            },
            None => {
                let id: NodeId = s.ctx.tree.add_root(scrim);
                proof {
                    root_stays_acyclic(t, n);
                    root_keeps_consistent(t, n);
                }
                id
            },
        };
        let ghost mid = s.ctx.tree@;
        let host_id: NodeId = s.ctx.tree.add_child(scrim_id, host);
        proof {
            if s.parent != Some(t.next_id()) {
                root_keeps_consistent(mid, h);
                child_stays_acyclic(mid, scrim_id, h, s.ctx.tree@);
                child_keeps_consistent(mid, scrim_id, h, s.ctx.tree@);
            }
        }
        s.ctx.binds.opacity.push(OpacityBindSlot { node_id: scrim_id, level: self.opacity });
        let m: Modal = Modal { scrim: scrim_id, host: host_id };
        assert(self@.scrim(scrim_color, level, n));
        assert(mid.child_added(m.scrim, h, s.ctx.tree@));
        m
    }

    /// A node was clicked. The scrim closes the overlay; the host and all else
    /// do nothing here. Returns whether the overlay starts to close.
    pub fn on_click(
        &self,
        m: Modal,
        clicked: NodeId,
        timeline: &mut Timeline<S>,
        now: u64,
        store: &SignalStore<Number<S>>,
    ) -> (r: bool)
        requires
            self@.valid(store@),
        ensures
            r == (clicked == m.scrim),
            final(timeline)@ == (if r {
                self@.fading(old(timeline)@, store@, zero_s(), now)
            } else {
                old(timeline)@
            }),
    {
        if clicked.equals(m.scrim) {
            self.close(timeline, now, store);
            true
        } else {
            false
        }
    }
}

/// The `n`th key of a sequence of [`WidgetKeys::take`].
pub open spec fn nth_key(first: u32, n: nat) -> u32
    decreases n,
{
    if n == 0 {
        first
    } else {
        nth_key(first, (n - 1) as nat).wrapping_add(1)
    }
}

/// The keys handed out differ from each other, and all lie in the widgets'
/// range, until that range is used up.
pub proof fn widget_keys_differ(a: nat, b: nat)
    requires
        a < b,
        WIDGET_TWEEN_BASE + b <= u32::MAX,
    ensures
        nth_key(WIDGET_TWEEN_BASE, a) != nth_key(WIDGET_TWEEN_BASE, b),
        nth_key(WIDGET_TWEEN_BASE, b) >= WIDGET_TWEEN_BASE,
{
    lemma_nth_key(a);
    lemma_nth_key(b);
}

proof fn lemma_nth_key(n: nat)
    requires
        WIDGET_TWEEN_BASE + n <= u32::MAX,
    ensures
        nth_key(WIDGET_TWEEN_BASE, n) == WIDGET_TWEEN_BASE + n,
    decreases n,
{
    if n > 0 {
        lemma_nth_key((n - 1) as nat);
    }
}

/// Opening and closing are inverse in effect: a fully open overlay toggles
/// toward closed, a fully closed one toward open.
pub proof fn toggling_turns_round(o: OverlayView<Fixed>, store: Seq<Cell<Number<Fixed>>>)
    requires
        o.valid(store),
    ensures
        o.level(store) == one_s::<Fixed>() ==> o.opened(store),
        o.level(store) == zero_s::<Fixed>() ==> !o.opened(store),
{
}

} // verus!
