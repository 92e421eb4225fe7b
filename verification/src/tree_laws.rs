//! What the operations on a tree do to the nodes that identifiers name.
use vstd::prelude::*;

use crate::dirty;
use crate::node::{id_is_slot_and_issue, id_parts, Node, NodeId};
use crate::scalar::{eqv4, Scalar};
use crate::tree::{occupied, without, Slot, TreeView};

verus! {

broadcast use {id_is_slot_and_issue, id_parts};

/// Whether every free slot is empty.
pub open spec fn free_is_empty<S: Scalar>(t: TreeView<S>) -> bool {
    &&& t.wf()
    &&& forall|i: int|
        0 <= i < t.free.len() ==> t.slots[(#[trigger] t.free[i]) as int].payload is None
}

/// A new node is found under the identifier it is given, with everything it
/// came with; every other identifier names what it named.
pub proof fn insertion_stores_the_node<S: Scalar>(t: TreeView<S>, n: Node<S>, other: NodeId)
    requires
        t.room(),
        free_is_empty(t),
    ensures
        t.node(t.next_id()) is None,
        t.inserted(n).node(t.next_id()) == Some(n.reconciled()),
        n.reconciled().style == n.style,
        n.reconciled().layout == n.layout,
        n.reconciled().children == n.children,
        n.reconciled().interact == n.interact,
        n.reconciled().visible == n.visible,
        n.reconciled().scroll is Some <==> n.layout.is_scroll(),
        other != t.next_id() ==> t.inserted(n).node(other) == t.node(other),
        t.inserted(n).roots == t.roots,
        t.inserted(n).population() == t.population() + 1,
{
    let u = t.inserted(n);
    if t.free.len() > 0 {
        let f = t.free.last() as int;
        assert(t.free[t.free.len() - 1] < t.slots.len());
        lemma_filled(t.slots, f, u.slots[f]);
    } else {
        assert(u.slots.drop_last() =~= t.slots);
    }
}

proof fn lemma_filled<S>(slots: Seq<Slot<S>>, i: int, s: Slot<S>)
    requires
        0 <= i < slots.len(),
    ensures
        occupied(slots.update(i, s)) + (if slots[i].payload is Some {
            1int
        } else {
            0int
        }) == occupied(slots) + (if s.payload is Some {
            1int
        } else {
            0int
        }),
    decreases slots.len(),
{
    let u = slots.update(i, s);
    if i == slots.len() - 1 {
        assert(u.drop_last() =~= slots.drop_last());
    } else {
        assert(u.drop_last() =~= slots.drop_last().update(i, s));
        lemma_filled(slots.drop_last(), i, s);
    }
}

/// A new root comes after all the others.
pub proof fn roots_append<S: Scalar>(t: TreeView<S>, n: Node<S>)
    ensures
        t.root_added(n).roots.len() == t.roots.len() + 1,
        t.root_added(n).roots.last() == t.next_id(),
        t.root_added(n).roots.drop_last() == t.roots,
        t.root_added(n).dirty == t.dirty | dirty::TREE,
        t.root_added(n).slots == t.inserted(n).slots,
{
    assert(t.root_added(n).roots.drop_last() =~= t.roots);
}

/// A new child comes after its siblings; no other node's children change, and
/// the roots stay.
pub proof fn children_append<S: Scalar>(
    t: TreeView<S>,
    parent: NodeId,
    n: Node<S>,
    after: TreeView<S>,
    other: NodeId,
)
    requires
        t.room(),
        free_is_empty(t),
        t.node(parent) is Some,
        t.child_added(parent, n, after),
    ensures
        after.kids(parent) == t.kids(parent).push(t.next_id()),
        after.node(t.next_id()) == Some(n.reconciled()),
        other != parent && other != t.next_id() ==> after.node(other) == t.node(other),
        after.node(parent)->Some_0.style == t.node(parent)->Some_0.style,
        after.node(parent)->Some_0.layout == t.node(parent)->Some_0.layout,
        after.node(parent)->Some_0.visible == t.node(parent)->Some_0.visible,
        after.roots == t.roots,
        after.dirty == t.dirty | dirty::TREE,
{
    insertion_stores_the_node(t, n, parent);
    insertion_stores_the_node(t, n, other);
    assert(parent != t.next_id());
}

/// A node that is removed is gone, from the roots too; every other node stays
/// as it is, and the other roots in their order.
pub proof fn removal_forgets_one_node<S: Scalar>(t: TreeView<S>, id: NodeId, other: NodeId)
    requires
        t.wf(),
        t.node(id) is Some,
        other != id,
    ensures
        t.removed(id).node(id) is None,
        t.removed(id).node(other) == t.node(other) || t.node(other) is None,
        other.slot() != id.slot() ==> t.removed(id).node(other) == t.node(other),
        !t.removed(id).roots.contains(id),
        t.roots.contains(other) ==> t.removed(id).roots.contains(other),
        t.removed(id).population() + 1 == t.population(),
        t.removed(id).dirty == t.dirty | dirty::TREE,
        t.removed(id).next_id().slot() == id.slot(),
        t.removed(id).next_id() != id,
{
    let s = id.slot() as int;
    lemma_filled(t.slots, s, t.removed(id).slots[s]);
    let keep = |x: NodeId| x != id;
    let r = without(t.roots, id);
    assert(!r.contains(id)) by {
        if r.contains(id) {
            let k = choose|k: int| 0 <= k < r.len() && r[k] == id;
            t.roots.lemma_filter_pred(keep, k);
        }
    }
    if t.roots.contains(other) {
        let k = choose|k: int| 0 <= k < t.roots.len() && t.roots[k] == other;
        t.roots.lemma_filter_contains(keep, k);
    }
}

/// The roots that are left keep their order: one that came before another
/// still does.
pub proof fn removal_keeps_the_order<S: Scalar>(t: TreeView<S>, id: NodeId)
    ensures
        without(t.roots + seq![id], id) == without(t.roots, id),
        forall|r: NodeId|
            r != id ==> #[trigger] without(t.roots.push(r), id) == without(t.roots, id).push(r),
{
    let keep = |x: NodeId| x != id;
    reveal(Seq::filter);
    assert((t.roots + seq![id]).drop_last() =~= t.roots);
    assert forall|r: NodeId| r != id implies #[trigger] without(t.roots.push(r), id) == without(
        t.roots,
        id,
    ).push(r) by {
        assert(t.roots.push(r).drop_last() =~= t.roots);
    }
}

/// An edit changes the one node that it names, and raises flags on top of
/// those that are up.
pub proof fn edits_touch_one_node<S: Scalar>(
    t: TreeView<S>,
    id: NodeId,
    n: Node<S>,
    mask: u32,
    other: NodeId,
)
    requires
        t.node(id) is Some,
    ensures
        t.edited(id, n, mask).node(id) == Some(n),
        other != id ==> t.edited(id, n, mask).node(other) == t.node(other) || t.node(other) is None,
        other.slot() != id.slot() ==> t.edited(id, n, mask).node(other) == t.node(other),
        t.edited(id, n, mask).roots == t.roots,
        t.edited(id, n, mask).dirty == t.dirty | mask,
{
}

/// A node that is given a colour has that colour, and is otherwise as it was;
/// so is every other node.
pub proof fn recolouring_colours_one_node<S: Scalar>(
    t: TreeView<S>,
    id: NodeId,
    color: [S; 4],
    other: NodeId,
)
    requires
        t.node(id) is Some,
    ensures
        ({
            let n = t.node(id)->Some_0;
            let m = t.recolored(id, color).node(id)->Some_0;
            &&& t.recolored(id, color).node(id) is Some
            &&& m.style.color == color || (m == n && eqv4(n.style.color, color))
            &&& m.style.border_color == n.style.border_color
            &&& m.style.shadow_color == n.style.shadow_color
            &&& m.style.opacity == n.style.opacity
            &&& m.style.kind == n.style.kind
            &&& m.layout == n.layout
            &&& m.children == n.children
            &&& m.visible == n.visible
        }),
        other.slot() != id.slot() ==> t.recolored(id, color).node(other) == t.node(other),
{
}

} // verus!
