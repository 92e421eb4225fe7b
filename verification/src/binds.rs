//! Acting on props whose source changed.
use vstd::prelude::*;

use crate::anim::{Timeline, TimelineView};
use crate::consistency::edit_keeps_consistent;
use crate::dirty;
use crate::node::{Node, NodeId, ShapeStyle};
use crate::scalar::{eqv4, zero, zero_s, Scalar};
use crate::scene::{binds_valid, fades_valid, ColorBindSlot, OpacityBindSlot};
use crate::signal::{Cell, Color, Number, SignalStore};
use crate::tree::{color_flags, edit_stays_acyclic, NodeTree, TreeView};

verus! {

/// First of the tween keys that bound props use, one to a slot.
pub const BIND_TWEEN_KEY_BASE: u32 = 0xC000_0000;

/// How many props can be bound.
pub const MAX_BINDS: usize = 0x4000_0000;

/// Slots, nodes and tweens on the way through a list of binds.
#[verifier::ext_equal]
pub struct BindState<S> {
    pub slots: Seq<ColorBindSlot<S>>,
    pub tree: TreeView<S>,
    pub timeline: TimelineView<S>,
}

impl<S: Scalar> BindState<S> {
    /// After slot `i` is looked at: if its source moved on, the node is sent
    /// to the new colour, by a tween if the prop is animated and at once if
    /// not.
    pub open spec fn acted(self, store: Seq<Cell<Color<S>>>, now: u64, i: int) -> BindState<S> {
        let slot = self.slots[i];
        let version = slot.bind.stamp(store);
        if version == slot.last_version {
            self
        } else {
            let target = slot.bind.current(store);
            let slots = self.slots.update(i, ColorBindSlot { last_version: version, ..slot });
            match (slot.displayed, slot.bind.easing()) {
                (Some(d), Some(e)) => BindState {
                    slots,
                    timeline: self.timeline.color_started(
                        (BIND_TWEEN_KEY_BASE + i) as u32,
                        d,
                        store[d.cell() as int].value,
                        target,
                        e.0,
                        e.1,
                        now,
                    ),
                    ..self
                },
                _ => BindState {
                    slots,
                    tree: self.tree.recolored(slot.node_id, target.rgba),
                    ..self
                },
            }
        }
    }

    /// After the first `k` slots are looked at, in order.
    pub open spec fn acted_upto(self, store: Seq<Cell<Color<S>>>, now: u64, k: nat) -> BindState<S>
        decreases k,
    {
        if k == 0 {
            self
        } else {
            self.acted_upto(store, now, (k - 1) as nat).acted(store, now, k - 1)
        }
    }
}

/// The tree after the first `k` slots have shown the value on its way.
pub open spec fn pumped<S: Scalar>(
    t: TreeView<S>,
    slots: Seq<ColorBindSlot<S>>,
    store: Seq<Cell<Color<S>>>,
    k: nat,
) -> TreeView<S>
    decreases k,
{
    if k == 0 {
        t
    } else {
        let u = pumped(t, slots, store, (k - 1) as nat);
        match slots[k - 1].displayed {
            Some(d) => u.recolored(slots[k - 1].node_id, store[d.cell() as int].value.rgba),
            None => u,
        }
    }
}

/// Look at every bound colour, and act on those whose source moved on.
pub fn process_color_binds<S: Scalar>(
    slots: &mut Vec<ColorBindSlot<S>>,
    tree: &mut NodeTree<S>,
    timeline: &mut Timeline<S>,
    store: &SignalStore<Color<S>>,
    now: u64,
)
    requires
        binds_valid(old(slots)@, store@),
        old(slots)@.len() <= MAX_BINDS,
    ensures
        ({
            let before = BindState {
                slots: old(slots)@,
                tree: old(tree)@,
                timeline: old(timeline)@,
            };
            let after = before.acted_upto(store@, now, old(slots)@.len());
            &&& final(slots)@ == after.slots
            &&& final(tree)@ == after.tree
            &&& final(timeline)@ == after.timeline
        }),
        binds_valid(final(slots)@, store@),
        final(slots)@.len() == old(slots)@.len(),
{
    let ghost before = BindState { slots: slots@, tree: tree@, timeline: timeline@ };
    let count: usize = slots.len();
    let mut i: usize = 0;
    while i < count
        invariant
            i <= count,
            count == slots.len(),
            count <= MAX_BINDS,
            binds_valid(slots@, store@),
            slots@.len() == old(slots)@.len(),
            before == (BindState {
                slots: old(slots)@,
                tree: old(tree)@,
                timeline: old(timeline)@,
            }),
            before.acted_upto(store@, now, i as nat) == (BindState {
                slots: slots@,
                tree: tree@,
                timeline: timeline@,
            }),
        decreases count - i,
    {
        let slot: ColorBindSlot<S> = slots[i];
        assert(slots@[i as int].valid(store@));
        let version: u64 = slot.bind.version(store);
        if version != slot.last_version {
            let target: Color<S> = slot.bind.read(store);
            slots.set(i, ColorBindSlot { last_version: version, ..slot });
            match (slot.displayed, slot.bind.animation()) {
                (Some(d), Some(e)) => {
                    let key: u32 = BIND_TWEEN_KEY_BASE + i as u32;
                    timeline.start_color(key, d, target, e.0, e.1, now, store);
                },
                _ => {
                    tree.set_color(slot.node_id, target.rgba);
                },
            }
        }
        i = i + 1;
    }
}

/// Show the values that animated colours have reached.
pub fn pump_animated_displays<S: Scalar>(
    slots: &Vec<ColorBindSlot<S>>,
    tree: &mut NodeTree<S>,
    store: &SignalStore<Color<S>>,
)
    requires
        binds_valid(slots@, store@),
    ensures
        final(tree)@ == pumped(old(tree)@, slots@, store@, slots@.len()),
{
    let mut i: usize = 0;
    while i < slots.len()
        invariant
            i <= slots.len(),
            binds_valid(slots@, store@),
            tree@ == pumped(old(tree)@, slots@, store@, i as nat),
        decreases slots.len() - i,
    {
        assert(slots@[i as int].valid(store@));
        if let Some(d) = slots[i].displayed {
            let shown: Color<S> = store.get(d);
            tree.set_color(slots[i].node_id, shown.rgba);
        }
        i = i + 1;
    }
}

/// The tree after a node shows a level: its opacity is the level, and it is
/// hidden while that is not above zero.
pub open spec fn shown_at<S: Scalar>(t: TreeView<S>, id: NodeId, level: S) -> TreeView<S> {
    let shown = zero_s::<S>().less(level);
    let mid = match t.node(id) {
        Some(n) => if n.style.opacity.eqv(level) {
            t
        } else {
            t.edited(
                id,
                Node { style: ShapeStyle { opacity: level, ..n.style }, ..n },
                dirty::VISUAL,
            )
        },
        None => t,
    };
    match mid.node(id) {
        Some(n) => if n.visible == shown {
            mid
        } else {
            mid.edited(id, Node { visible: shown, ..n }, dirty::TREE)
        },
        None => mid,
    }
}

/// The tree after the first `k` bound opacities are shown.
pub open spec fn faded<S: Scalar>(
    t: TreeView<S>,
    slots: Seq<OpacityBindSlot<S>>,
    store: Seq<Cell<Number<S>>>,
    k: nat,
) -> TreeView<S>
    decreases k,
{
    if k == 0 {
        t
    } else {
        shown_at(
            faded(t, slots, store, (k - 1) as nat),
            slots[k - 1].node_id,
            store[slots[k - 1].level.cell() as int].value.value,
        )
    }
}

/// Show every bound opacity.
pub fn show_fades<S: Scalar>(
    slots: &Vec<OpacityBindSlot<S>>,
    tree: &mut NodeTree<S>,
    store: &SignalStore<Number<S>>,
)
    requires
        fades_valid(slots@, store@),
    ensures
        final(tree)@ == faded(old(tree)@, slots@, store@, slots@.len()),
{
    let mut i: usize = 0;
    while i < slots.len()
        invariant
            i <= slots.len(),
            fades_valid(slots@, store@),
            tree@ == faded(old(tree)@, slots@, store@, i as nat),
        decreases slots.len() - i,
    {
        let slot: OpacityBindSlot<S> = slots[i];
        let level: S = store.get(slot.level).value;
        tree.set_opacity(slot.node_id, level);
        tree.set_visible(slot.node_id, zero::<S>().lt(level));
        i = i + 1;
    }
}

// --- what is kept ----------------------------------------------------------

/// Recolouring keeps a tree sound.
pub proof fn recolouring_keeps_sound<S: Scalar>(t: TreeView<S>, id: NodeId, color: [S; 4])
    requires
        t.consistent(),
        t.acyclic(),
    ensures
        t.recolored(id, color).consistent(),
        t.recolored(id, color).acyclic(),
{
    if let Some(n) = t.node(id) {
        if !eqv4(n.style.color, color) {
            let m = Node { style: ShapeStyle { color, ..n.style }, ..n };
            let mask = color_flags(n.style.kind, t.glassy());
            edit_keeps_consistent(t, id, m, mask);
            edit_stays_acyclic(t, id, m, mask);
        }
    }
}

/// Acting on binds keeps a tree sound, changes no slot but for the version it
/// has seen, and leaves every slot up to date.
pub proof fn binds_keep_sound<S: Scalar>(
    s: BindState<S>,
    store: Seq<Cell<Color<S>>>,
    now: u64,
    k: nat,
)
    requires
        s.tree.consistent(),
        s.tree.acyclic(),
        k <= s.slots.len(),
    ensures
        ({
            let u = s.acted_upto(store, now, k);
            &&& u.tree.consistent()
            &&& u.tree.acyclic()
            &&& u.slots.len() == s.slots.len()
            &&& forall|i: int|
                0 <= i < s.slots.len() ==> #[trigger] u.slots[i] == ColorBindSlot {
                    last_version: if i < k {
                        s.slots[i].bind.stamp(store)
                    } else {
                        s.slots[i].last_version
                    },
                    ..s.slots[i]
                }
        }),
    decreases k,
{
    if k > 0 {
        binds_keep_sound(s, store, now, (k - 1) as nat);
        let u = s.acted_upto(store, now, (k - 1) as nat);
        let slot = u.slots[k - 1];
        recolouring_keeps_sound(u.tree, slot.node_id, slot.bind.current(store).rgba);
    }
}

/// Once every slot is up to date, looking again does nothing.
pub proof fn settled_binds_do_nothing<S: Scalar>(
    s: BindState<S>,
    store: Seq<Cell<Color<S>>>,
    now: u64,
    k: nat,
)
    requires
        k <= s.slots.len(),
        forall|i: int|
            0 <= i < s.slots.len() ==> (#[trigger] s.slots[i]).last_version == s.slots[i].bind.stamp(
                store,
            ),
    ensures
        s.acted_upto(store, now, k) == s,
    decreases k,
{
    if k > 0 {
        settled_binds_do_nothing(s, store, now, (k - 1) as nat);
    }
}

/// Showing values on their way keeps a tree sound.
pub proof fn pumping_keeps_sound<S: Scalar>(
    t: TreeView<S>,
    slots: Seq<ColorBindSlot<S>>,
    store: Seq<Cell<Color<S>>>,
    k: nat,
)
    requires
        t.consistent(),
        t.acyclic(),
        k <= slots.len(),
    ensures
        pumped(t, slots, store, k).consistent(),
        pumped(t, slots, store, k).acyclic(),
    decreases k,
{
    if k > 0 {
        pumping_keeps_sound(t, slots, store, (k - 1) as nat);
        if let Some(d) = slots[k - 1].displayed {
            recolouring_keeps_sound(
                pumped(t, slots, store, (k - 1) as nat),
                slots[k - 1].node_id,
                store[d.cell() as int].value.rgba,
            );
        }
    }
}

/// Showing a level keeps a tree sound, shows the level on that node, and
/// leaves every other node alone.
proof fn lemma_shown_at<S: Scalar>(t: TreeView<S>, id: NodeId, level: S)
    requires
        t.consistent(),
        t.acyclic(),
    ensures
        ({
            let u = shown_at(t, id, level);
            &&& u.consistent()
            &&& u.acyclic()
            &&& t.node(id) is Some ==> u.node(id) is Some && shows_level(u.node(id)->Some_0, level)
            &&& forall|x: NodeId| x != id ==> #[trigger] u.node(x) == t.node(x)
            &&& t.node(id) is None ==> u == t
        }),
{
    if let Some(n) = t.node(id) {
        let m = Node { style: ShapeStyle { opacity: level, ..n.style }, ..n };
        let mid = if n.style.opacity.eqv(level) {
            t
        } else {
            t.edited(id, m, dirty::VISUAL)
        };
        if !n.style.opacity.eqv(level) {
            edit_keeps_consistent(t, id, m, dirty::VISUAL);
            edit_stays_acyclic(t, id, m, dirty::VISUAL);
        }
        let k = mid.node(id)->Some_0;
        let shown = zero_s::<S>().less(level);
        if k.visible != shown {
            let l = Node { visible: shown, ..k };
            edit_keeps_consistent(mid, id, l, dirty::TREE);
            edit_stays_acyclic(mid, id, l, dirty::TREE);
        }
    }
}

/// Whether a node shows a level: its opacity is that number, and it is hidden
/// unless that is above zero.
pub open spec fn shows_level<S: Scalar>(n: Node<S>, level: S) -> bool {
    &&& n.style.opacity == level || n.style.opacity.eqv(level)
    &&& n.visible == zero_s::<S>().less(level)
}

/// Showing bound opacities keeps a tree sound, and afterwards every node that
/// is bound shows the level of the last slot that names it.
pub proof fn fades_show_their_level<S: Scalar>(
    t: TreeView<S>,
    slots: Seq<OpacityBindSlot<S>>,
    store: Seq<Cell<Number<S>>>,
    k: nat,
)
    requires
        t.consistent(),
        t.acyclic(),
        k <= slots.len(),
    ensures
        faded(t, slots, store, k).consistent(),
        faded(t, slots, store, k).acyclic(),
        fades_shown(faded(t, slots, store, k), slots.take(k as int), store),
    decreases k,
{
    if k > 0 {
        let p = (k - 1) as nat;
        fades_show_their_level(t, slots, store, p);
        let before = faded(t, slots, store, p);
        let id = slots[k - 1].node_id;
        let level = store[slots[k - 1].level.cell() as int].value.value;
        lemma_shown_at(before, id, level);
        let after = faded(t, slots, store, k);
        let some = slots.take(k as int);
        assert forall|i: int| 0 <= i < some.len() && last_of_its_node(some, i) && after.node(
            (#[trigger] some[i]).node_id,
        ) is Some implies shows_level(
            after.node(some[i].node_id)->Some_0,
            store[some[i].level.cell() as int].value.value,
        ) by {
            if i < k - 1 {
                assert(some[k - 1].node_id != some[i].node_id);
                let fewer = slots.take(p as int);
                assert(fewer[i] == some[i]);
                assert(last_of_its_node(fewer, i)) by {
                    assert forall|j: int| i < j < fewer.len() implies (#[trigger] fewer[j]).node_id
                        != fewer[i].node_id by {
                        assert(some[j] == fewer[j]);
                    }
                }
                assert(after.node(some[i].node_id) == before.node(some[i].node_id));
            }
        }
    }
}

/// Whether no later slot names the same node.
pub open spec fn last_of_its_node<S>(slots: Seq<OpacityBindSlot<S>>, i: int) -> bool {
    forall|j: int| i < j < slots.len() ==> (#[trigger] slots[j]).node_id != slots[i].node_id
}

/// Whether every node that is bound shows the level of the last slot that
/// names it.
pub open spec fn fades_shown<S: Scalar>(
    t: TreeView<S>,
    slots: Seq<OpacityBindSlot<S>>,
    store: Seq<Cell<Number<S>>>,
) -> bool {
    forall|i: int|
        0 <= i < slots.len() && last_of_its_node(slots, i) && t.node(
            (#[trigger] slots[i]).node_id,
        ) is Some ==> shows_level(
            t.node(slots[i].node_id)->Some_0,
            store[slots[i].level.cell() as int].value.value,
        )
}

/// Acting on binds and showing values neither makes nor removes a node.
pub proof fn binds_keep_nodes<S: Scalar>(
    s: BindState<S>,
    colors: Seq<Cell<Color<S>>>,
    now: u64,
    k: nat,
    id: NodeId,
)
    ensures
        s.acted_upto(colors, now, k).tree.node(id) is Some == s.tree.node(id) is Some,
    decreases k,
{
    if k > 0 {
        binds_keep_nodes(s, colors, now, (k - 1) as nat, id);
    }
}

/// Showing values on their way neither makes nor removes a node.
pub proof fn showing_keeps_nodes<S: Scalar>(
    t: TreeView<S>,
    slots: Seq<ColorBindSlot<S>>,
    colors: Seq<Cell<Color<S>>>,
    k: nat,
    fades: Seq<OpacityBindSlot<S>>,
    numbers: Seq<Cell<Number<S>>>,
    j: nat,
    id: NodeId,
)
    ensures
        faded(pumped(t, slots, colors, k), fades, numbers, j).node(id) is Some == t.node(id) is Some,
    decreases j, k,
{
    if j > 0 {
        showing_keeps_nodes(t, slots, colors, k, fades, numbers, (j - 1) as nat, id);
    } else if k > 0 {
        showing_keeps_nodes(t, slots, colors, (k - 1) as nat, fades, numbers, 0, id);
        assert(faded(pumped(t, slots, colors, (k - 1) as nat), fades, numbers, 0) == pumped(
            t,
            slots,
            colors,
            (k - 1) as nat,
        ));
    }
}

} // verus!
