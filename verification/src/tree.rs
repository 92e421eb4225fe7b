//! The retained node tree: an arena whose slots are reused under a new
//! generation, so an identifier never comes to name another node.
use vstd::prelude::*;

use crate::dirty;
use crate::layout::{abs_eqv, abs_same, Align, Axis, Justify, LayoutStyle, Len};
use crate::node::{
    id_is_slot_and_issue, id_parts, state_or_rest, Node, NodeId, NodeText, ScrollState, ShapeKind,
    ShapeStyle,
};
use crate::scalar::{eqv4, same4, Scalar};

verus! {

broadcast use {id_is_slot_and_issue, id_parts};

/// A place for one node.
#[derive(Debug)]
pub struct Slot<S> {
    /// How many nodes the slot has lost, modulo 2^32.
    pub generation: u32,
    pub payload: Option<Node<S>>,
}

/// All nodes of a scene.
#[derive(Debug)]
pub struct NodeTree<S> {
    slots: Vec<Slot<S>>,
    free: Vec<u32>,
    roots: Vec<NodeId>,
    dirty: u32,
    glass_count: u32,
    scrollable_ids: Vec<NodeId>,
}

/// The contents of a tree.
#[verifier::ext_equal]
pub struct TreeView<S> {
    pub slots: Seq<Slot<S>>,
    /// Slots without a node, the next to be used last.
    pub free: Seq<u32>,
    pub roots: Seq<NodeId>,
    pub dirty: u32,
    /// Number of glass nodes.
    pub glass_count: u32,
    /// The nodes that scroll, oldest first.
    pub scrollable: Seq<NodeId>,
}

impl<S> View for NodeTree<S> {
    type V = TreeView<S>;

    closed spec fn view(&self) -> TreeView<S> {
        TreeView {
            slots: self.slots@,
            free: self.free@,
            roots: self.roots@,
            dirty: self.dirty,
            glass_count: self.glass_count,
            scrollable: self.scrollable_ids@,
        }
    }
}

/// `s` without any occurrence of `id`.
pub open spec fn without(s: Seq<NodeId>, id: NodeId) -> Seq<NodeId> {
    s.filter(|x: NodeId| x != id)
}

/// Whether a slot holds a glass node.
pub open spec fn glass_slot<S>(s: Slot<S>) -> bool {
    s.payload matches Some(n) && n.style.kind == ShapeKind::Glass
}

impl<S: Scalar> Node<S> {
    /// The node as a tree stores it: it has a scroll state exactly when its
    /// layout scrolls.
    pub open spec fn reconciled(self) -> Node<S> {
        Node {
            scroll: if !self.layout.is_scroll() {
                None
            } else {
                Some(state_or_rest(self.scroll))
            },
            ..self
        }
    }
}

impl<S: Scalar> TreeView<S> {
    pub open spec fn empty() -> TreeView<S> {
        TreeView {
            slots: Seq::empty(),
            free: Seq::empty(),
            roots: Seq::empty(),
            dirty: dirty::NONE,
            glass_count: 0,
            scrollable: Seq::empty(),
        }
    }

    /// What makes the arena usable: slots can be numbered, and every free
    /// number is a slot.
    pub open spec fn wf(self) -> bool {
        &&& self.slots.len() <= 0x1_0000_0000
        &&& forall|i: int| 0 <= i < self.free.len() ==> #[trigger] self.free[i] < self.slots.len()
    }

    /// The node an identifier names, if it still does.
    pub open spec fn node(self, id: NodeId) -> Option<Node<S>> {
        if id.slot() < self.slots.len() && self.slots[id.slot() as int].generation == id.issue() {
            self.slots[id.slot() as int].payload
        } else {
            None
        }
    }

    /// The tree with the node of `id` replaced.
    pub open spec fn with_node(self, id: NodeId, n: Node<S>) -> TreeView<S> {
        TreeView {
            slots: self.slots.update(
                id.slot() as int,
                Slot { generation: self.slots[id.slot() as int].generation, payload: Some(n) },
            ),
            ..self
        }
    }

    /// The tree with more dirty flags raised.
    pub open spec fn flag(self, mask: u32) -> TreeView<S> {
        TreeView { dirty: self.dirty | mask, ..self }
    }

    /// The tree after the node of `id`, if there is one, becomes `n`.
    pub open spec fn edited(self, id: NodeId, n: Node<S>, mask: u32) -> TreeView<S> {
        self.with_node(id, n).flag(mask)
    }

    /// The tree after a node is given another colour.
    pub open spec fn recolored(self, id: NodeId, color: [S; 4]) -> TreeView<S> {
        match self.node(id) {
            Some(n) => if eqv4(n.style.color, color) {
                self
            } else {
                self.edited(
                    id,
                    Node { style: ShapeStyle { color, ..n.style }, ..n },
                    color_flags(n.style.kind, self.glassy()),
                )
            },
            None => self,
        }
    }

    pub open spec fn glassy(self) -> bool {
        self.glass_count > 0
    }

    /// What a change of layout dirties: the backdrop only matters to glass.
    pub open spec fn transform_flags(self) -> u32 {
        if self.glassy() {
            dirty::TRANSFORM | dirty::BACKDROP
        } else {
            dirty::TRANSFORM
        }
    }

    /// What a change of scroll offset dirties.
    pub open spec fn scroll_flags(self) -> u32 {
        if self.glassy() {
            dirty::SCROLL | dirty::BACKDROP
        } else {
            dirty::SCROLL
        }
    }

    /// Whether there is a slot for another node, and a count for it.
    pub open spec fn room(self) -> bool {
        &&& self.wf()
        &&& self.free.len() > 0 || self.slots.len() <= u32::MAX
        &&& self.glass_count < u32::MAX
    }

    /// How many more nodes the tree can number.
    pub open spec fn spare(self) -> int {
        self.free.len() + (0x1_0000_0000 - self.slots.len())
    }

    /// The identifier the next node will get.
    pub open spec fn next_id(self) -> NodeId {
        if self.free.len() > 0 {
            NodeId::of(self.free.last(), self.slots[self.free.last() as int].generation)
        } else {
            NodeId::of(self.slots.len() as u32, 0)
        }
    }

    /// The tree after a node is given a slot.
    pub open spec fn inserted(self, n: Node<S>) -> TreeView<S> {
        let m = n.reconciled();
        TreeView {
            slots: if self.free.len() > 0 {
                self.slots.update(
                    self.free.last() as int,
                    Slot {
                        generation: self.slots[self.free.last() as int].generation,
                        payload: Some(m),
                    },
                )
            } else {
                self.slots.push(Slot { generation: 0, payload: Some(m) })
            },
            free: if self.free.len() > 0 {
                self.free.drop_last()
            } else {
                self.free
            },
            glass_count: if n.style.kind == ShapeKind::Glass {
                (self.glass_count + 1) as u32
            } else {
                self.glass_count
            },
            scrollable: if m.scroll is Some {
                self.scrollable.push(self.next_id())
            } else {
                self.scrollable
            },
            ..self
        }
    }

    /// The tree after a root is added.
    pub open spec fn root_added(self, n: Node<S>) -> TreeView<S> {
        let t = self.inserted(n);
        TreeView { roots: t.roots.push(self.next_id()), ..t }.flag(dirty::TREE)
    }

    /// Whether `after` is the tree after `n` is added under `parent`. Under a
    /// parent that is gone the node is stored, attached to nothing.
    pub open spec fn child_added(self, parent: NodeId, n: Node<S>, after: TreeView<S>) -> bool {
        let t = self.inserted(n);
        match t.node(parent) {
            Some(p) => {
                &&& after.node(parent) matches Some(q)
                &&& q.children@ == p.children@.push(self.next_id())
                &&& after == t.edited(parent, Node { children: q.children, ..p }, dirty::TREE)
            },
            None => after == t.flag(dirty::TREE),
        }
    }

    /// The tree after a removal. Children of the node stay where they are.
    pub open spec fn removed(self, id: NodeId) -> TreeView<S> {
        if id.slot() < self.slots.len() && self.slots[id.slot() as int].generation == id.issue() {
            let slot = self.slots[id.slot() as int];
            TreeView {
                slots: self.slots.update(
                    id.slot() as int,
                    Slot { generation: slot.generation.wrapping_add(1), payload: None },
                ),
                free: self.free.push(id.slot() as u32),
                roots: without(self.roots, id),
                dirty: self.dirty | dirty::TREE,
                glass_count: if glass_slot(slot) && self.glass_count > 0 {
                    (self.glass_count - 1) as u32
                } else {
                    self.glass_count
                },
                scrollable: if slot.payload matches Some(n) && n.scroll is Some {
                    without(self.scrollable, id)
                } else {
                    self.scrollable
                },
            }
        } else {
            self
        }
    }

    /// Number of nodes.
    pub open spec fn population(self) -> nat {
        occupied(self.slots)
    }

    /// The children a node lists, whether or not they are still there.
    pub open spec fn kids(self, id: NodeId) -> Seq<NodeId> {
        match self.node(id) {
            Some(n) => n.children@,
            None => Seq::empty(),
        }
    }

    /// Whether `f` falls from every node to each child it lists.
    pub open spec fn ranked_by(self, f: spec_fn(NodeId) -> nat) -> bool {
        forall|id: NodeId, k: int|
            #![trigger self.kids(id)[k]]
            0 <= k < self.kids(id).len() ==> f(self.kids(id)[k]) < f(id)
    }

    /// Whether no node is below itself.
    pub open spec fn acyclic(self) -> bool {
        exists|f: spec_fn(NodeId) -> nat| self.ranked_by(f)
    }

    /// A bound on the number of generations below a node of an acyclic tree.
    pub open spec fn height(self, id: NodeId) -> nat {
        let f = choose|f: spec_fn(NodeId) -> nat| self.ranked_by(f);
        f(id)
    }
}

/// A child is lower than the node that lists it.
pub proof fn height_falls<S: Scalar>(t: TreeView<S>, id: NodeId, k: int)
    requires
        t.acyclic(),
        0 <= k < t.kids(id).len(),
    ensures
        t.height(t.kids(id)[k]) < t.height(id),
{
    let f = choose|f: spec_fn(NodeId) -> nat| t.ranked_by(f);
    assert(t.ranked_by(f));
    assert(f(t.kids(id)[k]) < f(id));
}

/// The empty tree has no cycle.
pub proof fn empty_is_acyclic<S: Scalar>()
    ensures
        TreeView::<S>::empty().acyclic(),
{
    let f = |id: NodeId| 0nat;
    assert(TreeView::<S>::empty().ranked_by(f));
}

/// A change that gives no node new children makes no cycle.
pub proof fn fewer_kids_stay_acyclic<S: Scalar>(t: TreeView<S>, u: TreeView<S>)
    requires
        t.acyclic(),
        forall|id: NodeId| #[trigger] u.kids(id) == t.kids(id) || u.kids(id).len() == 0,
    ensures
        u.acyclic(),
{
    let f = choose|f: spec_fn(NodeId) -> nat| t.ranked_by(f);
    assert(t.ranked_by(f));
    assert forall|id: NodeId, k: int|
        #![trigger u.kids(id)[k]]
        0 <= k < u.kids(id).len() implies f(u.kids(id)[k]) < f(id) by {
        assert(u.kids(id) == t.kids(id));
        assert(f(t.kids(id)[k]) < f(id));
    }
    assert(u.ranked_by(f));
}

/// Editing a node without touching its children makes no cycle.
pub proof fn edit_stays_acyclic<S: Scalar>(t: TreeView<S>, id: NodeId, n: Node<S>, mask: u32)
    requires
        t.acyclic(),
        t.node(id) matches Some(m) && n.children@ == m.children@,
    ensures
        t.edited(id, n, mask).acyclic(),
{
    let u = t.edited(id, n, mask);
    assert forall|x: NodeId| #[trigger] u.kids(x) == t.kids(x) || u.kids(x).len() == 0 by {
        if x.slot() == id.slot() && x.issue() == id.issue() {
            assert(x == id);
        }
    }
    fewer_kids_stay_acyclic(t, u);
}

/// Removing a node makes no cycle.
pub proof fn removal_stays_acyclic<S: Scalar>(t: TreeView<S>, id: NodeId)
    requires
        t.acyclic(),
    ensures
        t.removed(id).acyclic(),
{
    let u = t.removed(id);
    assert forall|x: NodeId| #[trigger] u.kids(x) == t.kids(x) || u.kids(x).len() == 0 by {}
    fewer_kids_stay_acyclic(t, u);
}

/// A new node without children, listed anywhere but under itself, makes no
/// cycle.
proof fn new_leaf_stays_acyclic<S: Scalar>(
    t: TreeView<S>,
    u: TreeView<S>,
    new: NodeId,
    parent: Option<NodeId>,
)
    requires
        t.acyclic(),
        u.kids(new).len() == 0,
        parent != Some(new),
        forall|x: NodeId|
            x != new ==> #[trigger] u.kids(x) == if parent == Some(x) {
                t.kids(x).push(new)
            } else {
                t.kids(x)
            },
    ensures
        u.acyclic(),
{
    let f = choose|f: spec_fn(NodeId) -> nat| t.ranked_by(f);
    assert(t.ranked_by(f));
    let g = |x: NodeId|
        if x == new {
            0nat
        } else {
            f(x) + 1
        };
    assert forall|id: NodeId, k: int|
        #![trigger u.kids(id)[k]]
        0 <= k < u.kids(id).len() implies g(u.kids(id)[k]) < g(id) by {
        let kid = u.kids(id)[k];
        if kid != new {
            assert(kid == t.kids(id)[k]);
            assert(f(t.kids(id)[k]) < f(id));
        }
    }
    assert(u.ranked_by(g));
}

/// Adding a childless root makes no cycle.
pub proof fn root_stays_acyclic<S: Scalar>(t: TreeView<S>, n: Node<S>)
    requires
        t.acyclic(),
        t.room(),
        n.children@.len() == 0,
    ensures
        t.root_added(n).acyclic(),
{
    let u = t.root_added(n);
    assert forall|x: NodeId| x != t.next_id() implies #[trigger] u.kids(x) == t.kids(x) by {}
    new_leaf_stays_acyclic(t, u, t.next_id(), None);
}

/// Adding a childless child makes no cycle. (A parent that is about to be
/// created is no parent yet.)
pub proof fn child_stays_acyclic<S: Scalar>(
    t: TreeView<S>,
    parent: NodeId,
    n: Node<S>,
    after: TreeView<S>,
)
    requires
        t.acyclic(),
        t.room(),
        n.children@.len() == 0,
        parent != t.next_id(),
        t.child_added(parent, n, after),
    ensures
        after.acyclic(),
{
    let mid = t.inserted(n);
    assert forall|x: NodeId| x != t.next_id() implies #[trigger] mid.kids(x) == t.kids(x) by {}
    match mid.node(parent) {
        Some(p) => {
            assert forall|x: NodeId| x != t.next_id() implies #[trigger] after.kids(x)
                == if Some(parent) == Some(x) {
                t.kids(x).push(t.next_id())
            } else {
                t.kids(x)
            } by {
                assert(mid.kids(x) == t.kids(x));
                if x == parent {
                    assert(after.node(x) is Some);
                }
            }
            assert(after.kids(t.next_id()).len() == 0) by {
                assert(mid.kids(t.next_id()).len() == 0);
            }
            new_leaf_stays_acyclic(t, after, t.next_id(), Some(parent));
        },
        None => {
            assert forall|x: NodeId| x != t.next_id() implies #[trigger] after.kids(x) == t.kids(
                x,
            ) by {
                assert(mid.kids(x) == t.kids(x));
            }
            assert(after.kids(t.next_id()).len() == 0) by {
                assert(mid.kids(t.next_id()).len() == 0);
            }
            new_leaf_stays_acyclic(t, after, t.next_id(), None);
        },
    }
}

/// Number of slots that hold a node.
pub open spec fn occupied<S>(slots: Seq<Slot<S>>) -> nat
    decreases slots.len(),
{
    if slots.len() == 0 {
        0
    } else {
        occupied(slots.drop_last()) + if slots.last().payload is Some {
            1nat
        } else {
            0nat
        }
    }
}

/// Writing a node back unchanged changes nothing.
pub broadcast proof fn write_back<S: Scalar>(t: TreeView<S>, id: NodeId, n: Node<S>)
    requires
        t.node(id) == Some(n),
    ensures
        #[trigger] t.with_node(id, n) == t,
{
    assert(t.with_node(id, n).slots =~= t.slots);
}

/// The list without one identifier, in order.
pub(crate) fn drop_id(ids: &Vec<NodeId>, id: NodeId) -> (r: Vec<NodeId>)
    ensures
        r@ == without(ids@, id),
{
    let mut out: Vec<NodeId> = Vec::new();
    let mut i: usize = 0;
    assert(ids@.take(0) =~= Seq::<NodeId>::empty());
    proof {
        reveal(Seq::filter);
    }
    while i < ids.len()
        invariant
            i <= ids.len(),
            out@ == without(ids@.take(i as int), id),
        decreases ids.len() - i,
    {
        proof {
            reveal(Seq::filter);
            assert(ids@.take(i + 1).drop_last() =~= ids@.take(i as int));
            assert(ids@.take(i + 1).last() == ids@[i as int]);
        }
        if !ids[i].equals(id) {
            out.push(ids[i]);
        }
        i = i + 1;
    }
    assert(ids@.take(ids@.len() as int) =~= ids@);
    out
}

fn has_id(ids: &Vec<NodeId>, id: NodeId) -> (r: bool)
    ensures
        r == ids@.contains(id),
{
    let mut i: usize = 0;
    while i < ids.len()
        invariant
            i <= ids.len(),
            forall|j: int| 0 <= j < i ==> ids@[j] != id,
        decreases ids.len() - i,
    {
        if ids[i].equals(id) {
            assert(ids@[i as int] == id);
            return true;
        }
        i = i + 1;
    }
    false
}

impl<S: Scalar> NodeTree<S> {
    pub fn new() -> (r: Self)
        ensures
            r@ == TreeView::<S>::empty(),
            r@.wf(),
    {
        NodeTree {
            slots: Vec::new(),
            free: Vec::new(),
            roots: Vec::new(),
            dirty: dirty::NONE,
            glass_count: 0,
            scrollable_ids: Vec::new(),
        }
    }

    // --- reading -----------------------------------------------------------

    pub fn dirty(&self) -> (r: u32)
        ensures
            r == self@.dirty,
    {
        self.dirty
    }

    /// Whether the tree holds a glass node.
    pub fn has_glass(&self) -> (r: bool)
        ensures
            r == self@.glassy(),
    {
        self.glass_count > 0
    }

    pub(crate) fn transform_mask(&self) -> (r: u32)
        ensures
            r == self@.transform_flags(),
    {
        if self.has_glass() {
            dirty::TRANSFORM | dirty::BACKDROP
        } else {
            dirty::TRANSFORM
        }
    }

    pub(crate) fn scroll_mask(&self) -> (r: u32)
        ensures
            r == self@.scroll_flags(),
    {
        if self.has_glass() {
            dirty::SCROLL | dirty::BACKDROP
        } else {
            dirty::SCROLL
        }
    }

    /// Read the dirty flags and lower them.
    pub fn take_dirty(&mut self) -> (r: u32)
        ensures
            r == old(self)@.dirty,
            final(self)@ == (TreeView { dirty: dirty::NONE, ..old(self)@ }),
    {
        let d: u32 = self.dirty;
        self.dirty = dirty::NONE;
        d
    }

    /// Raise every dirty flag.
    pub fn mark_all_dirty(&mut self)
        ensures
            final(self)@ == old(self)@.flag(dirty::ANY),
    {
        self.dirty = self.dirty | dirty::ANY;
    }

    pub(crate) fn raise(&mut self, mask: u32)
        ensures
            final(self)@ == old(self)@.flag(mask),
    {
        self.dirty = self.dirty | mask;
    }

    pub fn get(&self, id: NodeId) -> (r: Option<&Node<S>>)
        ensures
            match r {
                Some(n) => self@.node(id) == Some(*n),
                None => self@.node(id) is None,
            },
    {
        let i: usize = id.slot_index() as usize;
        if i < self.slots.len() {
            let slot = &self.slots[i];
            if slot.generation == id.issue_number() {
                slot.payload.as_ref()
            } else {
                None
            }
        } else {
            None
        }
    }

    /// The node of `id`, to be changed freely. Raises no flag.
    pub fn get_mut_raw(&mut self, id: NodeId) -> (r: Option<&mut Node<S>>)
        ensures
            match r {
                Some(n) => {
                    &&& old(self)@.node(id) == Some(*n)
                    &&& final(self)@ == old(self)@.with_node(id, *final(n))
                },
                None => old(self)@.node(id) is None && final(self)@ == old(self)@,
            },
    {
        let i: usize = id.slot_index() as usize;
        if i < self.slots.len() {
            let slot = &mut self.slots[i];
            if slot.generation == id.issue_number() {
                slot.payload.as_mut()
            } else {
                None
            }
        } else {
            None
        }
    }

    /// Number of nodes.
    pub fn len(&self) -> (r: usize)
        ensures
            r == self@.population(),
    {
        let mut count: usize = 0;
        let mut i: usize = 0;
        assert(self.slots@.take(0) =~= Seq::empty());
        while i < self.slots.len()
            invariant
                i <= self.slots.len(),
                count <= i,
                count == occupied(self.slots@.take(i as int)),
            decreases self.slots.len() - i,
        {
            proof {
                assert(self.slots@.take(i + 1).drop_last() =~= self.slots@.take(i as int));
                assert(self.slots@.take(i + 1).last() == self.slots@[i as int]);
            }
            if self.slots[i].payload.is_some() {
                count = count + 1;
            }
            i = i + 1;
        }
        assert(self.slots@.take(self.slots@.len() as int) =~= self.slots@);
        count
    }

    /// Whether the tree has no root.
    pub fn is_empty(&self) -> (r: bool)
        ensures
            r == (self@.roots.len() == 0),
    {
        self.roots.len() == 0
    }

    pub fn roots(&self) -> (r: &[NodeId])
        ensures
            r@ == self@.roots,
    {
        self.roots.as_slice()
    }

    pub(crate) fn scrollables(&self) -> (r: &Vec<NodeId>)
        ensures
            r@ == self@.scrollable,
    {
        &self.scrollable_ids
    }

    /// Note that a node scrolls, unless that is known.
    pub(crate) fn list_scrollable(&mut self, id: NodeId)
        ensures
            final(self)@ == (TreeView {
                scrollable: if old(self)@.scrollable.contains(id) {
                    old(self)@.scrollable
                } else {
                    old(self)@.scrollable.push(id)
                },
                ..old(self)@
            }),
    {
        if !has_id(&self.scrollable_ids, id) {
            self.scrollable_ids.push(id);
        }
    }

    /// Note that a node no longer scrolls.
    pub(crate) fn unlist_scrollable(&mut self, id: NodeId)
        ensures
            final(self)@ == (TreeView {
                scrollable: without(old(self)@.scrollable, id),
                ..old(self)@
            }),
    {
        self.scrollable_ids = drop_id(&self.scrollable_ids, id);
    }

    // --- adding and removing -----------------------------------------------

    /// Give a node a slot. The node scrolls from the start if its layout
    /// does.
    fn insert(&mut self, node: Node<S>) -> (id: NodeId)
        requires
            old(self)@.room(),
        ensures
            id == old(self)@.next_id(),
            final(self)@ == old(self)@.inserted(node),
            final(self)@.wf(),
    {
        let is_glass: bool = matches!(node.style.kind, ShapeKind::Glass);
        let mut node = node;
        let needs_scroll: bool = node.layout.scrolls();
        if needs_scroll && node.scroll.is_none() {
            node.scroll = Some(ScrollState::default());
        } else if !needs_scroll && node.scroll.is_some() {
            node.scroll = None;
        }
        let has_scroll: bool = node.scroll.is_some();
        let ghost m = node;
        let id: NodeId = match self.free.pop() {
            Some(idx) => {
                let generation: u32 = self.slots[idx as usize].generation;
                self.slots.set(idx as usize, Slot { generation, payload: Some(node) });
                NodeId::make(idx, generation)
            },
            None => {
                let idx: u32 = self.slots.len() as u32;
                self.slots.push(Slot { generation: 0, payload: Some(node) });
                NodeId::make(idx, 0)
            },
        };
        if is_glass {
            self.glass_count = self.glass_count + 1;
        }
        if has_scroll {
            self.scrollable_ids.push(id);
        }
        id
    }

    /// Add a node at the top level.
    pub fn add_root(&mut self, node: Node<S>) -> (id: NodeId)
        requires
            old(self)@.room(),
        ensures
            id == old(self)@.next_id(),
            final(self)@ == old(self)@.root_added(node),
            final(self)@.wf(),
    {
        let id: NodeId = self.insert(node);
        self.roots.push(id);
        self.dirty = self.dirty | dirty::TREE;
        id
    }

    /// Add a node as the last child of `parent`.
    pub fn add_child(&mut self, parent: NodeId, node: Node<S>) -> (id: NodeId)
        requires
            old(self)@.room(),
        ensures
            id == old(self)@.next_id(),
            old(self)@.child_added(parent, node, final(self)@),
            final(self)@.wf(),
    {
        let id: NodeId = self.insert(node);
        if let Some(p) = self.get_mut_raw(parent) {
            p.children.push(id);
        }
        self.dirty = self.dirty | dirty::TREE;
        id
    }

    /// Remove the node of `id`; does nothing if it is gone already.
    pub fn remove(&mut self, id: NodeId)
        ensures
            final(self)@ == old(self)@.removed(id),
            old(self)@.wf() ==> final(self)@.wf(),
    {
        let i: usize = id.slot_index() as usize;
        if i >= self.slots.len() {
            return ;
        }
        let generation: u32 = self.slots[i].generation;
        if generation != id.issue_number() {
            return ;
        }
        let mut was_glass: bool = false;
        let mut was_scrollable: bool = false;
        if let Some(n) = &self.slots[i].payload {
            was_glass = matches!(n.style.kind, ShapeKind::Glass);
            was_scrollable = n.scroll.is_some();
        }
        self.slots.set(i, Slot { generation: generation.wrapping_add(1), payload: None });
        self.free.push(id.slot_index());
        self.roots = drop_id(&self.roots, id);
        if was_scrollable {
            self.scrollable_ids = drop_id(&self.scrollable_ids, id);
        }
        self.dirty = self.dirty | dirty::TREE;
        if was_glass {
            self.glass_count = self.glass_count.saturating_sub(1);
        }
    }

    // --- layout ------------------------------------------------------------

    pub fn set_layout_width(&mut self, id: NodeId, w: Len<S>)
        ensures
            final(self)@ == (match old(self)@.node(id) {
                Some(n) => if n.layout.width.eqv(w) {
                    old(self)@
                } else {
                    old(self)@.edited(id, Node { layout: LayoutStyle { width: w, ..n.layout }, ..n }, old(self)@.transform_flags())
                },
                None => old(self)@,
            }),
    {
        broadcast use write_back;

        let mask: u32 = self.transform_mask();
        if let Some(n) = self.get_mut_raw(id) {
            if !(n.layout.width.same(w)) {
                n.layout.width = w;
                self.dirty = self.dirty | mask;
            }
        }
    }

    pub fn set_layout_height(&mut self, id: NodeId, h: Len<S>)
        ensures
            final(self)@ == (match old(self)@.node(id) {
                Some(n) => if n.layout.height.eqv(h) {
                    old(self)@
                } else {
                    old(self)@.edited(id, Node { layout: LayoutStyle { height: h, ..n.layout }, ..n }, old(self)@.transform_flags())
                },
                None => old(self)@,
            }),
    {
        broadcast use write_back;

        let mask: u32 = self.transform_mask();
        if let Some(n) = self.get_mut_raw(id) {
            if !(n.layout.height.same(h)) {
                n.layout.height = h;
                self.dirty = self.dirty | mask;
            }
        }
    }

    pub fn set_layout_abs(&mut self, id: NodeId, pos: Option<[S; 2]>)
        ensures
            final(self)@ == (match old(self)@.node(id) {
                Some(n) => if abs_eqv(n.layout.abs, pos) {
                    old(self)@
                } else {
                    old(self)@.edited(id, Node { layout: LayoutStyle { abs: pos, ..n.layout }, ..n }, old(self)@.transform_flags())
                },
                None => old(self)@,
            }),
    {
        broadcast use write_back;

        let mask: u32 = self.transform_mask();
        if let Some(n) = self.get_mut_raw(id) {
            if !(abs_same(n.layout.abs, pos)) {
                n.layout.abs = pos;
                self.dirty = self.dirty | mask;
            }
        }
    }

    /// Place the node at `pos`, outside the flow.
    pub fn set_layout_pos_abs(&mut self, id: NodeId, pos: [S; 2])
        ensures
            final(self)@ == (match old(self)@.node(id) {
                Some(n) => if abs_eqv(n.layout.abs, Some(pos)) {
                    old(self)@
                } else {
                    old(self)@.edited(
                        id,
                        Node { layout: LayoutStyle { abs: Some(pos), ..n.layout }, ..n },
                        old(self)@.transform_flags(),
                    )
                },
                None => old(self)@,
            }),
    {
        self.set_layout_abs(id, Some(pos));
    }

    /// Fix both lengths in pixels.
    pub fn set_layout_size_px(&mut self, id: NodeId, size: [S; 2])
        ensures
            final(self)@ == (match old(self)@.node(id) {
                Some(n) => if n.layout.width.eqv(Len::Px(size[0])) && n.layout.height.eqv(Len::Px(size[1])) {
                    old(self)@
                } else {
                    old(self)@.edited(id, Node { layout: LayoutStyle { width: Len::Px(size[0]), height: Len::Px(size[1]), ..n.layout }, ..n }, old(self)@.transform_flags())
                },
                None => old(self)@,
            }),
    {
        broadcast use write_back;

        let mask: u32 = self.transform_mask();
        if let Some(n) = self.get_mut_raw(id) {
            if !(n.layout.width.same(Len::Px(size[0])) && n.layout.height.same(Len::Px(size[1]))) {
                n.layout.width = Len::Px(size[0]);
                n.layout.height = Len::Px(size[1]);
                self.dirty = self.dirty | mask;
            }
        }
    }

    pub fn set_layout_padding(&mut self, id: NodeId, padding: [S; 4])
        ensures
            final(self)@ == (match old(self)@.node(id) {
                Some(n) => if eqv4(n.layout.padding, padding) {
                    old(self)@
                } else {
                    old(self)@.edited(id, Node { layout: LayoutStyle { padding, ..n.layout }, ..n }, old(self)@.transform_flags())
                },
                None => old(self)@,
            }),
    {
        broadcast use write_back;

        let mask: u32 = self.transform_mask();
        if let Some(n) = self.get_mut_raw(id) {
            if !(same4(n.layout.padding, padding)) {
                n.layout.padding = padding;
                self.dirty = self.dirty | mask;
            }
        }
    }

    pub fn set_layout_gap(&mut self, id: NodeId, gap: S)
        ensures
            final(self)@ == (match old(self)@.node(id) {
                Some(n) => if n.layout.gap.eqv(gap) {
                    old(self)@
                } else {
                    old(self)@.edited(id, Node { layout: LayoutStyle { gap, ..n.layout }, ..n }, old(self)@.transform_flags())
                },
                None => old(self)@,
            }),
    {
        broadcast use write_back;

        let mask: u32 = self.transform_mask();
        if let Some(n) = self.get_mut_raw(id) {
            if !(n.layout.gap.same(gap)) {
                n.layout.gap = gap;
                self.dirty = self.dirty | mask;
            }
        }
    }

    pub fn set_layout_justify(&mut self, id: NodeId, j: Justify)
        ensures
            final(self)@ == (match old(self)@.node(id) {
                Some(n) => if n.layout.justify == j {
                    old(self)@
                } else {
                    old(self)@.edited(id, Node { layout: LayoutStyle { justify: j, ..n.layout }, ..n }, old(self)@.transform_flags())
                },
                None => old(self)@,
            }),
    {
        broadcast use write_back;

        let mask: u32 = self.transform_mask();
        if let Some(n) = self.get_mut_raw(id) {
            if !(n.layout.justify == j) {
                n.layout.justify = j;
                self.dirty = self.dirty | mask;
            }
        }
    }

    pub fn set_layout_align(&mut self, id: NodeId, a: Align)
        ensures
            final(self)@ == (match old(self)@.node(id) {
                Some(n) => if n.layout.align == a {
                    old(self)@
                } else {
                    old(self)@.edited(id, Node { layout: LayoutStyle { align: a, ..n.layout }, ..n }, old(self)@.transform_flags())
                },
                None => old(self)@,
            }),
    {
        broadcast use write_back;

        let mask: u32 = self.transform_mask();
        if let Some(n) = self.get_mut_raw(id) {
            if !(n.layout.align == a) {
                n.layout.align = a;
                self.dirty = self.dirty | mask;
            }
        }
    }

    pub fn set_layout_axis(&mut self, id: NodeId, ax: Axis)
        ensures
            final(self)@ == (match old(self)@.node(id) {
                Some(n) => if n.layout.axis == ax {
                    old(self)@
                } else {
                    old(self)@.edited(id, Node { layout: LayoutStyle { axis: ax, ..n.layout }, ..n }, old(self)@.transform_flags())
                },
                None => old(self)@,
            }),
    {
        broadcast use write_back;

        let mask: u32 = self.transform_mask();
        if let Some(n) = self.get_mut_raw(id) {
            if !(n.layout.axis == ax) {
                n.layout.axis = ax;
                self.dirty = self.dirty | mask;
            }
        }
    }

    // --- appearance --------------------------------------------------------

    /// Recolour the node. Glass and images are painted over the backdrop, not
    /// into it, so only other kinds dirty it.
    pub fn set_color(&mut self, id: NodeId, color: [S; 4])
        ensures
            final(self)@ == old(self)@.recolored(id, color),
    {
        broadcast use write_back;

        let has_glass: bool = self.has_glass();
        if let Some(n) = self.get_mut_raw(id) {
            if !same4(n.style.color, color) {
                let is_opaque_change: bool = !matches!(
                    n.style.kind,
                    ShapeKind::Glass | ShapeKind::Image
                );
                n.style.color = color;
                if is_opaque_change && has_glass {
                    self.dirty = self.dirty | (dirty::VISUAL | dirty::BACKDROP);
                } else {
                    self.dirty = self.dirty | dirty::VISUAL;
                }
            }
        }
    }

    pub fn set_opacity(&mut self, id: NodeId, opacity: S)
        ensures
            final(self)@ == (match old(self)@.node(id) {
                Some(n) => if n.style.opacity.eqv(opacity) {
                    old(self)@
                } else {
                    old(self)@.edited(id, Node { style: ShapeStyle { opacity, ..n.style }, ..n }, dirty::VISUAL)
                },
                None => old(self)@,
            }),
    {
        broadcast use write_back;

        let mask: u32 = dirty::VISUAL;
        if let Some(n) = self.get_mut_raw(id) {
            if !(n.style.opacity.same(opacity)) {
                n.style.opacity = opacity;
                self.dirty = self.dirty | mask;
            }
        }
    }

    /// Show or hide the node with its children.
    pub fn set_visible(&mut self, id: NodeId, visible: bool)
        ensures
            final(self)@ == (match old(self)@.node(id) {
                Some(n) => if n.visible == visible {
                    old(self)@
                } else {
                    old(self)@.edited(id, Node { visible, ..n }, dirty::TREE)
                },
                None => old(self)@,
            }),
    {
        broadcast use write_back;

        let mask: u32 = dirty::TREE;
        if let Some(n) = self.get_mut_raw(id) {
            if !(n.visible == visible) {
                n.visible = visible;
                self.dirty = self.dirty | mask;
            }
        }
    }

    /// Replace the words of a text node; nothing on any other.
    pub fn set_text(&mut self, id: NodeId, content: String)
        ensures
            final(self)@ == (match old(self)@.node(id) {
                Some(n) => match n.text {
                    Some(t) => if t.content@ == content@ {
                        old(self)@
                    } else {
                        old(self)@.edited(
                            id,
                            Node { text: Some(NodeText { content, ..t }), ..n },
                            dirty::VISUAL | dirty::TRANSFORM,
                        )
                    },
                    None => old(self)@,
                },
                None => old(self)@,
            }),
    {
        broadcast use write_back;

        if let Some(n) = self.get_mut_raw(id) {
            if let Some(t) = n.text.as_mut() {
                if !t.content.eq(&content) {
                    t.content = content;
                    self.dirty = self.dirty | (dirty::VISUAL | dirty::TRANSFORM);
                }
            }
        }
    }

    /// Resize a text node, keeping the ratio of line height to size; nothing
    /// on any other.
    pub fn set_font_size(&mut self, id: NodeId, font_size: S)
        ensures
            final(self)@ == (match old(self)@.node(id) {
                Some(n) => match n.text {
                    Some(t) => if t.font_size.eqv(font_size) {
                        old(self)@
                    } else {
                        old(self)@.edited(
                            id,
                            Node {
                                text: Some(NodeText {
                                    font_size,
                                    line_height: font_size.prod(
                                        t.line_height.quot(t.font_size.hi(S::rat(1, 10_000))),
                                    ),
                                    ..t
                                }),
                                ..n
                            },
                            dirty::VISUAL | dirty::TRANSFORM,
                        )
                    },
                    None => old(self)@,
                },
                None => old(self)@,
            }),
    {
        broadcast use write_back;

        if let Some(n) = self.get_mut_raw(id) {
            if let Some(t) = n.text.as_mut() {
                if !t.font_size.same(font_size) {
                    let old_ratio: S = t.line_height.over(t.font_size.larger(S::ratio(1, 10_000)));
                    t.font_size = font_size;
                    t.line_height = font_size.times(old_ratio);
                    self.dirty = self.dirty | (dirty::VISUAL | dirty::TRANSFORM);
                }
            }
        }
    }
}

/// What recolouring a node of this kind dirties.
pub open spec fn color_flags(kind: ShapeKind, glassy: bool) -> u32 {
    if glassy && kind != ShapeKind::Glass && kind != ShapeKind::Image {
        dirty::VISUAL | dirty::BACKDROP
    } else {
        dirty::VISUAL
    }
}

impl<S: Scalar> Default for NodeTree<S> {
    fn default() -> (r: Self)
        ensures
            r@ == TreeView::<S>::empty(),
    {
        NodeTree::new()
    }
}

} // verus!
