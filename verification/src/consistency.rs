//! What every operation on a tree keeps, and what follows from it.
use vstd::prelude::*;

use crate::dirty;
use crate::flatten::wheelable;
use crate::layout::Overflow;
use crate::node::{id_is_slot_and_issue, id_parts, Node, NodeId, ScrollState, ScrollbarStyle, ShapeKind};
use crate::scalar::Scalar;
use crate::scroll::{ticked, ticked_tree};
use crate::tree::{color_flags, fewer_kids_stay_acyclic, glass_slot, without, Slot, TreeView};

verus! {

broadcast use {id_is_slot_and_issue, id_parts};

/// Number of glass nodes.
pub open spec fn glass_total<S>(slots: Seq<Slot<S>>) -> nat
    decreases slots.len(),
{
    if slots.len() == 0 {
        0
    } else {
        glass_total(slots.drop_last()) + glass_weight(slots.last())
    }
}

pub open spec fn glass_weight<S>(s: Slot<S>) -> nat {
    if glass_slot(s) {
        1
    } else {
        0
    }
}

impl<S: Scalar> TreeView<S> {
    /// Slots that are free hold nothing, and are free once.
    pub open spec fn free_is_empty(self) -> bool {
        &&& forall|i: int|
            0 <= i < self.free.len() ==> self.slots[#[trigger] self.free[i] as int].payload is None
        &&& forall|i: int, j: int|
            0 <= i < j < self.free.len() ==> #[trigger] self.free[i] != #[trigger] self.free[j]
    }

    /// The scrollable list names each scroll container, once, and nothing
    /// else.
    pub open spec fn scrollables_listed(self) -> bool {
        &&& forall|i: int|
            0 <= i < self.scrollable.len() ==> self.node(#[trigger] self.scrollable[i]) is Some
                && wheelable(self.node(self.scrollable[i])->Some_0)
        &&& forall|i: int, j: int|
            0 <= i < j < self.scrollable.len() ==> #[trigger] self.scrollable[i]
                != #[trigger] self.scrollable[j]
        &&& forall|id: NodeId|
            #[trigger] self.node(id) is Some && wheelable(self.node(id)->Some_0)
                ==> self.scrollable.contains(id)
    }

    /// What holds of every tree that only the tree's own operations changed.
    pub open spec fn consistent(self) -> bool {
        &&& self.wf()
        &&& self.free_is_empty()
        &&& self.glass_count == glass_total(self.slots)
        &&& self.scrollables_listed()
    }
}

proof fn lemma_glass_push<S>(s: Seq<Slot<S>>, x: Slot<S>)
    ensures
        glass_total(s.push(x)) == glass_total(s) + glass_weight(x),
{
    assert(s.push(x).drop_last() =~= s);
}

proof fn lemma_glass_update<S>(s: Seq<Slot<S>>, i: int, x: Slot<S>)
    requires
        0 <= i < s.len(),
    ensures
        glass_total(s.update(i, x)) + glass_weight(s[i]) == glass_total(s) + glass_weight(x),
    decreases s.len(),
{
    if i == s.len() - 1 {
        assert(s.update(i, x).drop_last() =~= s.drop_last());
    } else {
        assert(s.update(i, x).drop_last() =~= s.drop_last().update(i, x));
        lemma_glass_update(s.drop_last(), i, x);
    }
}

proof fn lemma_glass_some<S>(s: Seq<Slot<S>>)
    ensures
        glass_total(s) > 0 <==> exists|i: int| 0 <= i < s.len() && glass_slot(#[trigger] s[i]),
    decreases s.len(),
{
    if s.len() > 0 {
        let d = s.drop_last();
        lemma_glass_some(d);
        if glass_total(d) > 0 {
            let i = choose|i: int| 0 <= i < d.len() && glass_slot(#[trigger] d[i]);
            assert(glass_slot(s[i]));
        }
        if exists|i: int| 0 <= i < s.len() && glass_slot(#[trigger] s[i]) {
            let i = choose|i: int| 0 <= i < s.len() && glass_slot(#[trigger] s[i]);
            if i < d.len() {
                assert(glass_slot(d[i]));
            }
        }
    }
}

proof fn lemma_without(s: Seq<NodeId>, id: NodeId)
    ensures
        forall|x: NodeId| #[trigger]
            without(s, id).contains(x) <==> s.contains(x) && x != id,
        s.no_duplicates() ==> without(s, id).no_duplicates(),
    decreases s.len(),
{
    reveal(Seq::filter);
    if s.len() > 0 {
        let d = s.drop_last();
        lemma_without(d, id);
        assert(without(s, id) == if s.last() != id {
            without(d, id).push(s.last())
        } else {
            without(d, id)
        });
        assert forall|x: NodeId| #[trigger]
            without(s, id).contains(x) <==> s.contains(x) && x != id by {
            if s.contains(x) && x != id {
                let i = choose|i: int| 0 <= i < s.len() && s[i] == x;
                if i < d.len() {
                    assert(d[i] == x);
                    assert(d.contains(x));
                    assert(without(d, id).contains(x));
                    let j = choose|j: int| 0 <= j < without(d, id).len() && without(d, id)[j] == x;
                    assert(without(s, id)[j] == x);
                } else {
                    assert(without(s, id).last() == x);
                    assert(without(s, id)[without(s, id).len() - 1] == x);
                }
            }
            if without(s, id).contains(x) {
                let j = choose|j: int| 0 <= j < without(s, id).len() && without(s, id)[j] == x;
                if j < without(d, id).len() {
                    assert(without(d, id)[j] == x);
                    assert(without(d, id).contains(x));
                    assert(d.contains(x));
                    let i = choose|i: int| 0 <= i < d.len() && d[i] == x;
                    assert(s[i] == x);
                } else {
                    assert(s[s.len() - 1] == x);
                }
            }
        }
        if s.no_duplicates() {
            assert(d.no_duplicates());
            if s.last() != id {
                assert forall|i: int, j: int|
                    0 <= i < j < without(s, id).len() implies without(s, id)[i] != without(
                    s,
                    id,
                )[j] by {
                    if j == without(d, id).len() {
                        assert(without(d, id).contains(without(d, id)[i]));
                        assert(d.contains(without(d, id)[i]));
                        let k = choose|k: int| 0 <= k < d.len() && d[k] == without(d, id)[i];
                        assert(s[k] == without(s, id)[i]);
                        assert(s[s.len() - 1] == without(s, id)[j]);
                    }
                }
                assert(without(s, id).no_duplicates());
            }
        }
    } else {
        assert(without(s, id) =~= Seq::<NodeId>::empty());
    }
}

// --- the invariant is kept -------------------------------------------------

/// A new tree is consistent.
pub proof fn empty_is_consistent<S: Scalar>()
    ensures
        TreeView::<S>::empty().consistent(),
{
}

proof fn lemma_insertion<S: Scalar>(t: TreeView<S>, n: Node<S>)
    requires
        t.consistent(),
        t.room(),
    ensures
        t.inserted(n).consistent(),
        t.node(t.next_id()) is None,
        t.inserted(n).node(t.next_id()) == Some(n.reconciled()),
        forall|x: NodeId|
            x != t.next_id() ==> #[trigger] t.inserted(n).node(x) == t.node(x),
{
    let u = t.inserted(n);
    let id = t.next_id();
    let m = n.reconciled();
    if t.free.len() > 0 {
        let i = t.free.last() as int;
        assert(t.free[t.free.len() - 1] == i);
        lemma_glass_update(t.slots, i, Slot { generation: t.slots[i].generation, payload: Some(m) });
        assert(!glass_slot(t.slots[i]));
    } else {
        lemma_glass_push(t.slots, Slot { generation: 0, payload: Some(m) });
    }
    assert forall|x: NodeId| x != id implies #[trigger] u.node(x) == t.node(x) by {}
    assert forall|i: int| 0 <= i < u.free.len() implies u.slots[#[trigger] u.free[i] as int].payload
        is None by {
        assert(u.free[i] == t.free[i]);
    }
    assert(u.wf()) by {
        assert forall|i: int| 0 <= i < u.free.len() implies #[trigger] u.free[i] < u.slots.len() by {
            assert(u.free[i] == t.free[i]);
        }
    }
    assert(!t.scrollable.contains(id)) by {
        if t.scrollable.contains(id) {
            let k = choose|k: int| 0 <= k < t.scrollable.len() && t.scrollable[k] == id;
            assert(t.node(t.scrollable[k]) is Some);
        }
    }
    assert forall|i: int| 0 <= i < u.scrollable.len() implies u.node(#[trigger] u.scrollable[i]) is Some
        && wheelable(u.node(u.scrollable[i])->Some_0) by {
        if i < t.scrollable.len() {
            assert(u.scrollable[i] == t.scrollable[i]);
            assert(t.scrollable.contains(t.scrollable[i]));
        }
    }
    assert forall|x: NodeId| #[trigger] u.node(x) is Some && wheelable(
        u.node(x)->Some_0,
    ) implies u.scrollable.contains(x) by {
        if x == id {
            assert(u.scrollable[u.scrollable.len() - 1] == id);
        } else {
            assert(t.scrollable.contains(x));
            let k = choose|k: int| 0 <= k < t.scrollable.len() && t.scrollable[k] == x;
            assert(u.scrollable[k] == x);
        }
    }
    assert forall|i: int, j: int| 0 <= i < j < u.scrollable.len() implies #[trigger] u.scrollable[i]
        != #[trigger] u.scrollable[j] by {
        if j == t.scrollable.len() {
            assert(t.scrollable.contains(t.scrollable[i]));
        }
    }
}

/// Adding a root keeps the tree consistent. The identifier is fresh, and every
/// other identifier names what it named before.
pub proof fn root_keeps_consistent<S: Scalar>(t: TreeView<S>, n: Node<S>)
    requires
        t.consistent(),
        t.room(),
    ensures
        t.root_added(n).consistent(),
        t.node(t.next_id()) is None,
        t.root_added(n).node(t.next_id()) == Some(n.reconciled()),
        forall|x: NodeId|
            x != t.next_id() ==> #[trigger] t.root_added(n).node(x) == t.node(x),
{
    lemma_insertion(t, n);
    same_nodes_stay_consistent(t.inserted(n), t.root_added(n));
    assert forall|x: NodeId| x != t.next_id() implies #[trigger] t.root_added(n).node(x) == t.node(
        x,
    ) by {
        assert(t.inserted(n).node(x) == t.node(x));
    }
    assert(t.inserted(n).node(t.next_id()) == Some(n.reconciled()));
}

/// A change of roots or flags alone keeps the tree consistent.
pub proof fn same_nodes_stay_consistent<S: Scalar>(t: TreeView<S>, u: TreeView<S>)
    requires
        t.consistent(),
        u.slots == t.slots,
        u.free == t.free,
        u.glass_count == t.glass_count,
        u.scrollable == t.scrollable,
    ensures
        u.consistent(),
        forall|x: NodeId| #[trigger] u.node(x) == t.node(x),
{
    assert forall|x: NodeId| #[trigger] u.node(x) == t.node(x) by {}
    assert forall|x: NodeId| #[trigger] u.node(x) is Some && wheelable(
        u.node(x)->Some_0,
    ) implies u.scrollable.contains(x) by {
        assert(t.node(x) is Some);
    }
}

/// Changing a node without making it glass or clear, scrolling or still, keeps
/// the tree consistent, and leaves every other node alone.
pub proof fn edit_keeps_consistent<S: Scalar>(
    t: TreeView<S>,
    id: NodeId,
    n: Node<S>,
    mask: u32,
)
    requires
        t.consistent(),
        t.node(id) matches Some(m) && wheelable(m) == wheelable(n) && (m.style.kind
            == ShapeKind::Glass <==> n.style.kind == ShapeKind::Glass),
    ensures
        t.edited(id, n, mask).consistent(),
        t.edited(id, n, mask).node(id) == Some(n),
        forall|x: NodeId| x != id ==> #[trigger] t.edited(id, n, mask).node(x) == t.node(x),
{
    let u = t.edited(id, n, mask);
    let i = id.slot() as int;
    lemma_glass_update(t.slots, i, Slot { generation: t.slots[i].generation, payload: Some(n) });
    assert forall|x: NodeId| x != id implies #[trigger] u.node(x) == t.node(x) by {}
    assert forall|k: int| 0 <= k < u.free.len() implies u.slots[#[trigger] u.free[k] as int].payload
        is None by {
        assert(t.slots[t.free[k] as int].payload is None);
    }
    assert forall|k: int| 0 <= k < u.scrollable.len() implies u.node(#[trigger] u.scrollable[k]) is Some
        && wheelable(u.node(u.scrollable[k])->Some_0) by {
        assert(t.node(t.scrollable[k]) is Some);
    }
    assert forall|x: NodeId| #[trigger] u.node(x) is Some && wheelable(
        u.node(x)->Some_0,
    ) implies u.scrollable.contains(x) by {
        assert(t.node(x) is Some);
    }
}

/// Adding a child keeps the tree consistent; besides the new node only its
/// parent changes.
pub proof fn child_keeps_consistent<S: Scalar>(
    t: TreeView<S>,
    parent: NodeId,
    n: Node<S>,
    after: TreeView<S>,
)
    requires
        t.consistent(),
        t.room(),
        t.child_added(parent, n, after),
        parent != t.next_id(),
    ensures
        after.consistent(),
        t.node(t.next_id()) is None,
        after.node(t.next_id()) == Some(n.reconciled()),
        forall|x: NodeId|
            x != t.next_id() && x != parent ==> #[trigger] after.node(x) == t.node(x),
{
    lemma_insertion(t, n);
    let mid = t.inserted(n);
    match mid.node(parent) {
        Some(p) => {
            let q = after.node(parent)->Some_0;
            edit_keeps_consistent(mid, parent, Node { children: q.children, ..p }, dirty::TREE);
        },
        None => {
            same_nodes_stay_consistent(mid, after);
        },
    }
    assert forall|x: NodeId| x != t.next_id() && x != parent implies #[trigger] after.node(x)
        == t.node(x) by {
        assert(mid.node(x) == t.node(x));
    }
    assert(mid.node(t.next_id()) == Some(n.reconciled()));
}

/// Removing a node keeps the tree consistent: its identifier names nothing any
/// more, every other one names what it did.
pub proof fn removal_keeps_consistent<S: Scalar>(t: TreeView<S>, id: NodeId)
    requires
        t.consistent(),
        t.node(id) is Some,
    ensures
        t.removed(id).consistent(),
        t.removed(id).node(id) is None,
        forall|x: NodeId| x != id ==> #[trigger] t.removed(id).node(x) == t.node(x),
{
    let u = t.removed(id);
    let i = id.slot() as int;
    let old = t.slots[i];
    lemma_glass_update(
        t.slots,
        i,
        Slot { generation: old.generation.wrapping_add(1), payload: None },
    );
    lemma_glass_some(t.slots);
    if glass_slot(old) {
        assert(glass_slot(t.slots[i]));
    }
    lemma_without(t.scrollable, id);
    assert(t.scrollable.no_duplicates()) by {
        assert forall|a: int, b: int|
            0 <= a < t.scrollable.len() && 0 <= b < t.scrollable.len() && a != b implies t.scrollable[a]
            != t.scrollable[b] by {
            if a < b {
                assert(t.scrollable[a] != t.scrollable[b]);
            } else {
                assert(t.scrollable[b] != t.scrollable[a]);
            }
        }
    }
    assert forall|x: NodeId| x != id implies #[trigger] u.node(x) == t.node(x) by {
        if x.slot() == id.slot() {
            assert(u.slots[i].payload is None);
        }
    }
    assert forall|k: int| 0 <= k < t.free.len() implies #[trigger] t.free[k] != i by {
        assert(t.slots[t.free[k] as int].payload is None);
    }
    assert forall|k: int| 0 <= k < u.free.len() implies u.slots[#[trigger] u.free[k] as int].payload
        is None by {
        if k < t.free.len() {
            assert(u.free[k] == t.free[k]);
        }
    }
    assert forall|k: int| 0 <= k < u.free.len() implies #[trigger] u.free[k] < u.slots.len() by {
        if k < t.free.len() {
            assert(u.free[k] == t.free[k]);
        }
    }
    let was = old.payload->Some_0;
    if was.scroll is None {
        assert(!t.scrollable.contains(id)) by {
            if t.scrollable.contains(id) {
                let k = choose|k: int| 0 <= k < t.scrollable.len() && t.scrollable[k] == id;
                assert(wheelable(t.node(t.scrollable[k])->Some_0));
            }
        }
    }
    assert forall|k: int| 0 <= k < u.scrollable.len() implies u.node(#[trigger] u.scrollable[k]) is Some
        && wheelable(u.node(u.scrollable[k])->Some_0) by {
        let x = u.scrollable[k];
        assert(u.scrollable.contains(x));
        assert(t.scrollable.contains(x) && x != id);
        let j = choose|j: int| 0 <= j < t.scrollable.len() && t.scrollable[j] == x;
        assert(t.node(t.scrollable[j]) is Some);
    }
    assert forall|x: NodeId| #[trigger] u.node(x) is Some && wheelable(
        u.node(x)->Some_0,
    ) implies u.scrollable.contains(x) by {
        assert(x != id);
        assert(t.node(x) is Some);
        assert(t.scrollable.contains(x));
        if was.scroll is Some {
            assert(without(t.scrollable, id).contains(x));
        }
    }
    assert forall|a: int, b: int| 0 <= a < b < u.scrollable.len() implies #[trigger] u.scrollable[a]
        != #[trigger] u.scrollable[b] by {
        if was.scroll is Some {
            assert(without(t.scrollable, id).no_duplicates());
        }
    }
}

/// What a scrollable list must do when one node changes.
pub open spec fn follows<S: Scalar>(
    before: Seq<NodeId>,
    after: Seq<NodeId>,
    id: NodeId,
    n: Node<S>,
) -> bool {
    ||| after == before && (before.contains(id) <==> wheelable(n))
    ||| after == before.push(id) && !before.contains(id) && wheelable(n)
    ||| after == without(before, id) && !wheelable(n)
}

proof fn lemma_relisted<S: Scalar>(t: TreeView<S>, u: TreeView<S>, id: NodeId, n: Node<S>)
    requires
        t.consistent(),
        t.node(id) matches Some(m) && (m.style.kind == ShapeKind::Glass <==> n.style.kind
            == ShapeKind::Glass),
        u.slots == t.with_node(id, n).slots,
        u.free == t.free,
        u.glass_count == t.glass_count,
        follows(t.scrollable, u.scrollable, id, n),
    ensures
        u.consistent(),
        u.node(id) == Some(n),
        forall|x: NodeId| x != id ==> #[trigger] u.node(x) == t.node(x),
{
    let i = id.slot() as int;
    lemma_glass_update(t.slots, i, Slot { generation: t.slots[i].generation, payload: Some(n) });
    lemma_without(t.scrollable, id);
    assert(t.scrollable.no_duplicates()) by {
        assert forall|a: int, b: int|
            0 <= a < t.scrollable.len() && 0 <= b < t.scrollable.len() && a != b implies t.scrollable[a]
            != t.scrollable[b] by {
            if a < b {
                assert(t.scrollable[a] != t.scrollable[b]);
            } else {
                assert(t.scrollable[b] != t.scrollable[a]);
            }
        }
    }
    assert forall|x: NodeId| x != id implies #[trigger] u.node(x) == t.node(x) by {}
    assert forall|k: int| 0 <= k < u.free.len() implies u.slots[#[trigger] u.free[k] as int].payload
        is None by {
        assert(t.slots[t.free[k] as int].payload is None);
    }
    let added = u.scrollable == t.scrollable.push(id) && !t.scrollable.contains(id);
    assert forall|x: NodeId| #[trigger]
        u.scrollable.contains(x) == (if x == id {
            wheelable(n)
        } else {
            t.scrollable.contains(x)
        }) by {
        if added {
            if x == id {
                assert(u.scrollable[t.scrollable.len() as int] == id);
            } else if t.scrollable.contains(x) {
                let k = choose|k: int| 0 <= k < t.scrollable.len() && t.scrollable[k] == x;
                assert(u.scrollable[k] == x);
            } else if u.scrollable.contains(x) {
                let k = choose|k: int| 0 <= k < u.scrollable.len() && u.scrollable[k] == x;
                assert(k < t.scrollable.len());
                assert(t.scrollable[k] == x);
            }
        }
    }
    assert(u.scrollable.no_duplicates()) by {
        if added {
            assert forall|a: int, b: int| 0 <= a < b < u.scrollable.len() implies u.scrollable[a]
                != u.scrollable[b] by {
                if b == t.scrollable.len() {
                    assert(t.scrollable.contains(t.scrollable[a]));
                }
            }
        }
    }
    assert forall|k: int| 0 <= k < u.scrollable.len() implies u.node(#[trigger] u.scrollable[k]) is Some
        && wheelable(u.node(u.scrollable[k])->Some_0) by {
        let x = u.scrollable[k];
        assert(u.scrollable.contains(x));
        if x != id {
            assert(t.scrollable.contains(x));
            let j = choose|j: int| 0 <= j < t.scrollable.len() && t.scrollable[j] == x;
            assert(t.node(t.scrollable[j]) is Some);
        }
    }
    assert forall|x: NodeId| #[trigger] u.node(x) is Some && wheelable(
        u.node(x)->Some_0,
    ) implies u.scrollable.contains(x) by {
        if x != id {
            assert(t.node(x) is Some);
            assert(t.scrollable.contains(x));
        }
    }
    assert forall|a: int, b: int| 0 <= a < b < u.scrollable.len() implies #[trigger] u.scrollable[a]
        != #[trigger] u.scrollable[b] by {}
}

/// In a consistent tree a node is listed exactly when it is a scroll
/// container.
pub proof fn listed_means_scrolling<S: Scalar>(t: TreeView<S>, id: NodeId)
    requires
        t.consistent(),
    ensures
        t.scrollable.contains(id) <==> (t.node(id) is Some && wheelable(t.node(id)->Some_0)),
{
    if t.scrollable.contains(id) {
        let k = choose|k: int| 0 <= k < t.scrollable.len() && t.scrollable[k] == id;
        assert(wheelable(t.node(t.scrollable[k])->Some_0));
    }
}

/// Setting overflow keeps the tree consistent: the scrollable list follows.
pub proof fn overflow_keeps_consistent<S: Scalar>(
    t: TreeView<S>,
    id: NodeId,
    ox: Overflow,
    oy: Overflow,
)
    requires
        t.consistent(),
    ensures
        t.overflowed(id, ox, oy).consistent(),
        forall|x: NodeId| x != id ==> #[trigger] t.overflowed(id, ox, oy).node(x) == t.node(x),
{
    let u = t.overflowed(id, ox, oy);
    match t.node(id) {
        None => {},
        Some(n) => {
            if !(n.layout.overflow_x == ox && n.layout.overflow_y == oy) {
                listed_means_scrolling(t, id);
                lemma_relisted(t, u, id, u.node(id)->Some_0);
            }
        },
    }
}

/// Styling scrollbars keeps the tree consistent.
pub proof fn restyle_keeps_consistent<S: Scalar>(
    t: TreeView<S>,
    id: NodeId,
    style: ScrollbarStyle<S>,
)
    requires
        t.consistent(),
    ensures
        t.restyled(id, style).consistent(),
        forall|x: NodeId| x != id ==> #[trigger] t.restyled(id, style).node(x) == t.node(x),
{
    let u = t.restyled(id, style);
    match t.node(id) {
        None => {},
        Some(n) => {
            listed_means_scrolling(t, id);
            lemma_relisted(t, u, id, u.node(id)->Some_0);
        },
    }
}

/// Writing a scroll state that a node has keeps the tree consistent.
pub proof fn scroll_keeps_consistent<S: Scalar>(t: TreeView<S>, id: NodeId, s: ScrollState<S>, mask: u32)
    requires
        t.consistent(),
        t.scroll_of(id) is Some,
    ensures
        t.scrolled(id, s).flag(mask).consistent(),
        t.scrolled(id, s).consistent(),
        t.scrolled(id, s).scroll_of(id) == Some(s),
        forall|x: NodeId| x != id ==> #[trigger] t.scrolled(id, s).node(x) == t.node(x),
{
    let n = t.node(id)->Some_0;
    let m = Node { scroll: Some(s), ..n };
    edit_keeps_consistent(t, id, m, mask);
    lemma_relisted_same(t, id, m);
}

proof fn lemma_relisted_same<S: Scalar>(t: TreeView<S>, id: NodeId, n: Node<S>)
    requires
        t.consistent(),
        t.node(id) matches Some(m) && (m.style.kind == ShapeKind::Glass <==> n.style.kind
            == ShapeKind::Glass) && wheelable(m) == wheelable(n),
    ensures
        t.with_node(id, n).consistent(),
        t.with_node(id, n).node(id) == Some(n),
        forall|x: NodeId| x != id ==> #[trigger] t.with_node(id, n).node(x) == t.node(x),
{
    listed_means_scrolling(t, id);
    lemma_relisted(t, t.with_node(id, n), id, n);
}

/// A tick keeps the tree consistent. It advances each scroll container once
/// and touches nothing else.
pub proof fn tick_advances_each_once<S: Scalar>(t: TreeView<S>, dt: S)
    requires
        t.consistent(),
    ensures
        ({
            let u = ticked_tree(t, t.scrollable, dt, t.scrollable.len());
            &&& u.consistent()
            &&& u.scrollable == t.scrollable
            &&& forall|id: NodeId| #[trigger]
                u.node(id) == match t.node(id) {
                    Some(n) => if wheelable(n) {
                        Some(Node { scroll: Some(ticked(n.scroll->Some_0, dt)), ..n })
                    } else {
                        Some(n)
                    },
                    None => None,
                }
        }),
{
    lemma_tick_prefix(t, dt, t.scrollable.len());
    let u = ticked_tree(t, t.scrollable, dt, t.scrollable.len());
    assert forall|id: NodeId| #[trigger]
        u.node(id) == match t.node(id) {
            Some(n) => if wheelable(n) {
                Some(Node { scroll: Some(ticked(n.scroll->Some_0, dt)), ..n })
            } else {
                Some(n)
            },
            None => None,
        } by {
        listed_means_scrolling(t, id);
        assert(t.scrollable.take(t.scrollable.len() as int) =~= t.scrollable);
    }
}

proof fn lemma_tick_prefix<S: Scalar>(t: TreeView<S>, dt: S, k: nat)
    requires
        t.consistent(),
        k <= t.scrollable.len(),
    ensures
        ({
            let u = ticked_tree(t, t.scrollable, dt, k);
            &&& u.consistent()
            &&& u.scrollable == t.scrollable
            &&& forall|id: NodeId| #[trigger]
                u.node(id) == if t.scrollable.take(k as int).contains(id) {
                    let n = t.node(id)->Some_0;
                    Some(Node { scroll: Some(ticked(n.scroll->Some_0, dt)), ..n })
                } else {
                    t.node(id)
                }
        }),
    decreases k,
{
    if k > 0 {
        let j = (k - 1) as nat;
        lemma_tick_prefix(t, dt, j);
        let u = ticked_tree(t, t.scrollable, dt, j);
        let id = t.scrollable[j as int];
        assert(t.node(id) is Some && wheelable(t.node(id)->Some_0));
        let before = t.scrollable.take(j as int);
        let upto = t.scrollable.take(k as int);
        assert(upto =~= before.push(id));
        assert(!before.contains(id)) by {
            if before.contains(id) {
                let a = choose|a: int| 0 <= a < before.len() && before[a] == id;
                assert(t.scrollable[a] == id);
                assert(t.scrollable[a] != t.scrollable[j as int]);
            }
        }
        assert(u.node(id) == t.node(id));
        let n = t.node(id)->Some_0;
        let m = Node { scroll: Some(ticked(n.scroll->Some_0, dt)), ..n };
        lemma_relisted_same(u, id, m);
        let w = ticked_tree(t, t.scrollable, dt, k);
        assert(w == u.with_node(id, m));
        assert forall|x: NodeId| #[trigger]
            w.node(x) == if upto.contains(x) {
                let n = t.node(x)->Some_0;
                Some(Node { scroll: Some(ticked(n.scroll->Some_0, dt)), ..n })
            } else {
                t.node(x)
            } by {
            if x == id {
                assert(upto[j as int] == id);
            } else {
                assert(w.node(x) == u.node(x));
                if before.contains(x) {
                    let a = choose|a: int| 0 <= a < before.len() && before[a] == x;
                    assert(upto[a] == x);
                } else if upto.contains(x) {
                    let a = choose|a: int| 0 <= a < upto.len() && upto[a] == x;
                    assert(a < j);
                    assert(before[a] == x);
                }
            }
        }
    } else {
        assert(t.scrollable.take(0) =~= Seq::<NodeId>::empty());
    }
}

/// Scrolling makes no cycle: no tick gives a node new children.
pub proof fn tick_stays_acyclic<S: Scalar>(t: TreeView<S>, dt: S)
    requires
        t.consistent(),
        t.acyclic(),
    ensures
        ticked_tree(t, t.scrollable, dt, t.scrollable.len()).acyclic(),
{
    tick_advances_each_once(t, dt);
    let u = ticked_tree(t, t.scrollable, dt, t.scrollable.len());
    assert forall|id: NodeId| #[trigger] u.kids(id) == t.kids(id) || u.kids(id).len() == 0 by {
        assert(u.node(id) is Some == t.node(id) is Some);
    }
    fewer_kids_stay_acyclic(t, u);
}

/// Setting overflow makes no cycle.
pub proof fn overflow_stays_acyclic<S: Scalar>(
    t: TreeView<S>,
    id: NodeId,
    ox: Overflow,
    oy: Overflow,
)
    requires
        t.acyclic(),
    ensures
        t.overflowed(id, ox, oy).acyclic(),
{
    let u = t.overflowed(id, ox, oy);
    assert forall|x: NodeId| #[trigger] u.kids(x) == t.kids(x) || u.kids(x).len() == 0 by {
        if x.slot() == id.slot() && x.issue() == id.issue() {
            assert(x == id);
        }
    }
    fewer_kids_stay_acyclic(t, u);
}

/// Styling scrollbars makes no cycle.
pub proof fn restyle_stays_acyclic<S: Scalar>(t: TreeView<S>, id: NodeId, style: ScrollbarStyle<S>)
    requires
        t.acyclic(),
    ensures
        t.restyled(id, style).acyclic(),
{
    let u = t.restyled(id, style);
    assert forall|x: NodeId| #[trigger] u.kids(x) == t.kids(x) || u.kids(x).len() == 0 by {
        if x.slot() == id.slot() && x.issue() == id.issue() {
            assert(x == id);
        }
    }
    fewer_kids_stay_acyclic(t, u);
}

/// Moving a scroll offset makes no cycle.
pub proof fn scroll_stays_acyclic<S: Scalar>(
    t: TreeView<S>,
    id: NodeId,
    s: ScrollState<S>,
    mask: u32,
)
    requires
        t.acyclic(),
    ensures
        t.scrolled(id, s).flag(mask).acyclic(),
{
    let u = t.scrolled(id, s).flag(mask);
    assert forall|x: NodeId| #[trigger] u.kids(x) == t.kids(x) || u.kids(x).len() == 0 by {
        if x.slot() == id.slot() && x.issue() == id.issue() {
            assert(x == id);
        }
    }
    fewer_kids_stay_acyclic(t, u);
}

// --- what follows ----------------------------------------------------------

/// `has_glass` is true exactly when a glass node is in the tree.
pub proof fn glass_count_is_honest<S: Scalar>(t: TreeView<S>)
    requires
        t.consistent(),
    ensures
        t.glassy() <==> exists|id: NodeId|
            (#[trigger] t.node(id)) is Some && t.node(id)->Some_0.style.kind == ShapeKind::Glass,
{
    lemma_glass_some(t.slots);
    if t.glassy() {
        let i = choose|i: int| 0 <= i < t.slots.len() && glass_slot(#[trigger] t.slots[i]);
        let id = NodeId::of(i as u32, t.slots[i].generation);
        assert(t.node(id) == t.slots[i].payload);
    }
    if exists|id: NodeId|
        (#[trigger] t.node(id)) is Some && t.node(id)->Some_0.style.kind == ShapeKind::Glass {
        let id = choose|id: NodeId|
            (#[trigger] t.node(id)) is Some && t.node(id)->Some_0.style.kind == ShapeKind::Glass;
        assert(glass_slot(t.slots[id.slot() as int]));
    }
}

/// The slot of a removed node is the next to be used, under another
/// identifier: the old one stays dead.
pub proof fn reused_slot_has_new_id<S: Scalar>(t: TreeView<S>, id: NodeId, n: Node<S>)
    requires
        t.consistent(),
        t.node(id) is Some,
        t.removed(id).room(),
    ensures
        t.removed(id).next_id().slot() == id.slot(),
        t.removed(id).next_id() != id,
        t.removed(id).root_added(n).node(id) is None,
{
    removal_keeps_consistent(t, id);
    root_keeps_consistent(t.removed(id), n);
    assert(t.removed(id).free.last() == id.slot());
    let u = t.removed(id);
    assert(u.root_added(n).node(id) == u.node(id));
}

/// A change of layout raises TRANSFORM, and BACKDROP exactly when there is
/// glass to look through.
pub proof fn layout_flags<S: Scalar>(t: TreeView<S>)
    ensures
        t.transform_flags() & dirty::TRANSFORM != 0,
        t.transform_flags() & dirty::BACKDROP != 0 <==> t.glassy(),
        t.scroll_flags() & dirty::SCROLL != 0,
        t.scroll_flags() & dirty::TRANSFORM == 0,
        t.scroll_flags() & dirty::BACKDROP != 0 <==> t.glassy(),
{
    assert((2u32 | 8u32) & 2u32 != 0 && (2u32 | 8u32) & 8u32 != 0 && 2u32 & 2u32 != 0 && 2u32 & 8u32
        == 0 && (16u32 | 8u32) & 16u32 != 0 && (16u32 | 8u32) & 2u32 == 0 && (16u32 | 8u32) & 8u32
        != 0 && 16u32 & 16u32 != 0 && 16u32 & 2u32 == 0 && 16u32 & 8u32 == 0) by (bit_vector);
}

/// Recolouring raises VISUAL; it dirties the backdrop only under glass, and
/// never when the node is itself glass or an image.
pub proof fn recolouring_flags(kind: ShapeKind, glassy: bool)
    ensures
        color_flags(kind, glassy) & dirty::VISUAL != 0,
        color_flags(kind, glassy) & dirty::BACKDROP != 0 <==> glassy && kind != ShapeKind::Glass
            && kind != ShapeKind::Image,
{
    assert((1u32 | 8u32) & 1u32 != 0 && (1u32 | 8u32) & 8u32 != 0 && 1u32 & 1u32 != 0 && 1u32 & 8u32
        == 0) by (bit_vector);
}

} // verus!
