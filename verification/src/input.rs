//! Pointer bookkeeping.
//!
//! [`InputState`] turns pointer events into writes of the flags that nodes
//! keep. It is fed the hit list of the last flatten, topmost first.
use vstd::prelude::*;

use crate::flatten::{inside, HitEntry};
use crate::node::{NodeId, NodeInteract};
use crate::scalar::Scalar;
use crate::signal::{store_changes, store_set, Cell, Signal, SignalStore};
use crate::tree::{NodeTree, TreeView};

verus! {

/// What an event changed.
#[derive(Copy, Clone, Debug, PartialEq, Eq, Structural)]
pub struct InputChange {
    pub hovered_changed: bool,
    pub pressed_changed: bool,
    pub focused_changed: bool,
}

impl InputChange {
    pub open spec fn none() -> InputChange {
        InputChange { hovered_changed: false, pressed_changed: false, focused_changed: false }
    }

    pub open spec fn some(self) -> bool {
        self.hovered_changed || self.pressed_changed || self.focused_changed
    }

    /// Whether anything changed.
    pub fn any(&self) -> (r: bool)
        ensures
            r == self.some(),
    {
        self.hovered_changed || self.pressed_changed || self.focused_changed
    }
}

impl Default for InputChange {
    fn default() -> (r: Self)
        ensures
            r == InputChange::none(),
    {
        InputChange { hovered_changed: false, pressed_changed: false, focused_changed: false }
    }
}

/// Which flag of a node is meant.
#[derive(Copy, Clone, Debug, PartialEq, Eq, Structural)]
pub enum Flag {
    Hover,
    Pressed,
    Focused,
}

pub open spec fn flag_of(i: NodeInteract, which: Flag) -> Option<Signal<bool>> {
    match which {
        Flag::Hover => i.hover,
        Flag::Pressed => i.pressed,
        Flag::Focused => i.focused,
    }
}

fn pick_flag(i: &NodeInteract, which: Flag) -> (r: Option<Signal<bool>>)
    ensures
        r == flag_of(*i, which),
{
    match which {
        Flag::Hover => i.hover,
        Flag::Pressed => i.pressed,
        Flag::Focused => i.focused,
    }
}

// --- hit testing -----------------------------------------------------------

/// The first entry under a point.
pub open spec fn topmost<S: Scalar>(hits: Seq<HitEntry<S>>, x: S, y: S) -> Option<NodeId>
    decreases hits.len(),
{
    if hits.len() == 0 {
        None
    } else if inside(hits[0].bounds, hits[0].clip_rect, x, y) {
        Some(hits[0].node_id)
    } else {
        topmost(hits.drop_first(), x, y)
    }
}

/// Whether the first entry of a node is under a point.
pub open spec fn over_node<S: Scalar>(hits: Seq<HitEntry<S>>, id: NodeId, x: S, y: S) -> bool
    decreases hits.len(),
{
    if hits.len() == 0 {
        false
    } else if hits[0].node_id == id {
        inside(hits[0].bounds, hits[0].clip_rect, x, y)
    } else {
        over_node(hits.drop_first(), id, x, y)
    }
}

/// The topmost node is the first in the list that is under the point, and
/// there is none exactly when no entry is.
pub proof fn topmost_is_first<S: Scalar>(hits: Seq<HitEntry<S>>, x: S, y: S)
    ensures
        match topmost(hits, x, y) {
            Some(id) => exists|i: int|
                0 <= i < hits.len() && (#[trigger] hits[i]).node_id == id && inside(
                    hits[i].bounds,
                    hits[i].clip_rect,
                    x,
                    y,
                ) && forall|j: int|
                    0 <= j < i ==> !inside(
                        (#[trigger] hits[j]).bounds,
                        hits[j].clip_rect,
                        x,
                        y,
                    ),
            None => forall|j: int|
                0 <= j < hits.len() ==> !inside(
                    (#[trigger] hits[j]).bounds,
                    hits[j].clip_rect,
                    x,
                    y,
                ),
        },
    decreases hits.len(),
{
    if hits.len() > 0 && !inside(hits[0].bounds, hits[0].clip_rect, x, y) {
        let rest = hits.drop_first();
        topmost_is_first(rest, x, y);
        assert forall|j: int| 0 < j < hits.len() implies #[trigger] hits[j] == rest[j - 1] by {}
        match topmost(hits, x, y) {
            Some(id) => {
                let i = choose|i: int|
                    0 <= i < rest.len() && (#[trigger] rest[i]).node_id == id && inside(
                        rest[i].bounds,
                        rest[i].clip_rect,
                        x,
                        y,
                    ) && forall|j: int|
                        0 <= j < i ==> !inside(
                            (#[trigger] rest[j]).bounds,
                            rest[j].clip_rect,
                            x,
                            y,
                        );
                assert(hits[i + 1] == rest[i]);
                assert forall|j: int| 0 <= j < i + 1 implies !inside(
                    (#[trigger] hits[j]).bounds,
                    hits[j].clip_rect,
                    x,
                    y,
                ) by {
                    if j > 0 {
                        assert(hits[j] == rest[j - 1]);
                    }
                }
            },
            None => {
                assert forall|j: int| 0 <= j < hits.len() implies !inside(
                    (#[trigger] hits[j]).bounds,
                    hits[j].clip_rect,
                    x,
                    y,
                ) by {
                    if j > 0 {
                        assert(hits[j] == rest[j - 1]);
                    }
                }
            },
        }
    }
}

// --- writing flags ---------------------------------------------------------

/// The flag that entry `k` of a hit list stands for, if its node keeps it.
pub open spec fn entry_flag<S: Scalar>(
    hits: Seq<HitEntry<S>>,
    t: TreeView<S>,
    which: Flag,
    k: int,
) -> Option<Signal<bool>> {
    match t.node(hits[k].node_id) {
        Some(n) => flag_of(n.interact, which),
        None => None,
    }
}

/// The flags after the first `k` entries are told whether they are the
/// target.
pub open spec fn synced<S: Scalar>(
    flags: Seq<Cell<bool>>,
    hits: Seq<HitEntry<S>>,
    t: TreeView<S>,
    target: Option<NodeId>,
    which: Flag,
    k: nat,
) -> Seq<Cell<bool>>
    decreases k,
{
    if k == 0 {
        flags
    } else {
        let before = synced(flags, hits, t, target, which, (k - 1) as nat);
        match entry_flag(hits, t, which, k - 1) {
            Some(sig) => store_set(before, sig, target == Some(hits[k - 1].node_id)),
            None => before,
        }
    }
}

/// Whether that flips any flag.
pub open spec fn sync_flips<S: Scalar>(
    flags: Seq<Cell<bool>>,
    hits: Seq<HitEntry<S>>,
    t: TreeView<S>,
    target: Option<NodeId>,
    which: Flag,
    k: nat,
) -> bool
    decreases k,
{
    if k == 0 {
        false
    } else {
        sync_flips(flags, hits, t, target, which, (k - 1) as nat) || (entry_flag(
            hits,
            t,
            which,
            k - 1,
        ) matches Some(sig) && store_changes(
            synced(flags, hits, t, target, which, (k - 1) as nat),
            sig,
            target == Some(hits[k - 1].node_id),
        ))
    }
}

fn same_node(a: Option<NodeId>, b: Option<NodeId>) -> (r: bool)
    ensures
        r == (a == b),
{
    match (a, b) {
        (Some(x), Some(y)) => x.equals(y),
        (None, None) => true,
        _ => false,
    }
}

/// Tell every node of the hit list whether it is the target, through one of
/// its flags. Returns whether any flag flipped.
fn sync_bool_signals<S: Scalar>(
    hits: &[HitEntry<S>],
    tree: &NodeTree<S>,
    flags: &mut SignalStore<bool>,
    target: Option<NodeId>,
    which: Flag,
) -> (r: bool)
    ensures
        final(flags)@ == synced(old(flags)@, hits@, tree@, target, which, hits@.len()),
        r == sync_flips(old(flags)@, hits@, tree@, target, which, hits@.len()),
{
    let mut changed: bool = false;
    let mut k: usize = 0;
    while k < hits.len()
        invariant
            k <= hits.len(),
            flags@ == synced(old(flags)@, hits@, tree@, target, which, k as nat),
            changed == sync_flips(old(flags)@, hits@, tree@, target, which, k as nat),
        decreases hits.len() - k,
    {
        let id: NodeId = hits[k].node_id;
        if let Some(n) = tree.get(id) {
            if let Some(sig) = pick_flag(&n.interact, which) {
                let on: bool = same_node(target, Some(id));
                if flags.set(sig, on) {
                    changed = true;
                }
            }
        }
        k = k + 1;
    }
    changed
}

// --- state -----------------------------------------------------------------

/// Where the pointer is and what it holds.
#[derive(Copy, Clone, Debug)]
pub struct InputState<S> {
    /// Last known position, in physical pixels.
    pub cursor: Option<[S; 2]>,
    /// Topmost node under the pointer; the captured node while there is one.
    pub hovered: Option<NodeId>,
    /// The node that was pressed and not yet released.
    pub captured: Option<NodeId>,
    /// The node that was pressed last.
    pub focused: Option<NodeId>,
}

/// What an event leads to: the state, the flags, and what changed.
#[verifier::ext_equal]
pub struct InputStep<S> {
    pub state: InputState<S>,
    pub flags: Seq<Cell<bool>>,
    pub change: InputChange,
}

impl<S: Scalar> InputState<S> {
    pub open spec fn idle() -> InputState<S> {
        InputState { cursor: None, hovered: None, captured: None, focused: None }
    }

    /// What a pointer at a point hovers.
    pub open spec fn hover_at(self, hits: Seq<HitEntry<S>>, x: S, y: S) -> Option<NodeId> {
        if self.captured is Some {
            self.captured
        } else {
            topmost(hits, x, y)
        }
    }

    /// After the pointer moves to a point.
    pub open spec fn moved(
        self,
        flags: Seq<Cell<bool>>,
        hits: Seq<HitEntry<S>>,
        t: TreeView<S>,
        x: S,
        y: S,
    ) -> InputStep<S> {
        let n = hits.len();
        let hover = self.hover_at(hits, x, y);
        let fresh = hover != self.hovered;
        let f1 = if fresh {
            synced(flags, hits, t, hover, Flag::Hover, n)
        } else {
            flags
        };
        let target = match self.captured {
            Some(cap) => if over_node(hits, cap, x, y) {
                Some(cap)
            } else {
                None
            },
            None => None,
        };
        let held = self.captured is Some;
        InputStep {
            state: InputState { cursor: Some([x, y]), hovered: hover, ..self },
            flags: if held {
                synced(f1, hits, t, target, Flag::Pressed, n)
            } else {
                f1
            },
            change: InputChange {
                hovered_changed: fresh && sync_flips(flags, hits, t, hover, Flag::Hover, n),
                pressed_changed: held && sync_flips(f1, hits, t, target, Flag::Pressed, n),
                focused_changed: false,
            },
        }
    }

    /// After the pointer leaves the window.
    pub open spec fn left(
        self,
        flags: Seq<Cell<bool>>,
        hits: Seq<HitEntry<S>>,
        t: TreeView<S>,
    ) -> InputStep<S> {
        let n = hits.len();
        let fresh = self.hovered is Some;
        InputStep {
            state: InputState { cursor: None, hovered: None, ..self },
            flags: if fresh {
                synced(flags, hits, t, None, Flag::Hover, n)
            } else {
                flags
            },
            change: InputChange {
                hovered_changed: fresh && sync_flips(flags, hits, t, None, Flag::Hover, n),
                ..InputChange::none()
            },
        }
    }

    /// After the left button goes down.
    pub open spec fn pressed(
        self,
        flags: Seq<Cell<bool>>,
        hits: Seq<HitEntry<S>>,
        t: TreeView<S>,
    ) -> InputStep<S> {
        let n = hits.len();
        let target = self.hovered;
        let f1 = synced(flags, hits, t, target, Flag::Pressed, n);
        let refocus = self.focused != target;
        InputStep {
            state: InputState { captured: target, focused: target, ..self },
            flags: if refocus {
                synced(f1, hits, t, target, Flag::Focused, n)
            } else {
                f1
            },
            change: InputChange {
                hovered_changed: false,
                pressed_changed: sync_flips(flags, hits, t, target, Flag::Pressed, n),
                focused_changed: refocus && sync_flips(f1, hits, t, target, Flag::Focused, n),
            },
        }
    }

    /// After the left button goes up.
    pub open spec fn released(
        self,
        flags: Seq<Cell<bool>>,
        hits: Seq<HitEntry<S>>,
        t: TreeView<S>,
    ) -> InputStep<S> {
        let n = hits.len();
        let f1 = synced(flags, hits, t, None, Flag::Pressed, n);
        let hover = match self.cursor {
            Some(c) => topmost(hits, c[0], c[1]),
            None => self.hovered,
        };
        let fresh = hover != self.hovered;
        InputStep {
            state: InputState { captured: None, hovered: hover, ..self },
            flags: if fresh {
                synced(f1, hits, t, hover, Flag::Hover, n)
            } else {
                f1
            },
            change: InputChange {
                hovered_changed: fresh && sync_flips(f1, hits, t, hover, Flag::Hover, n),
                pressed_changed: sync_flips(flags, hits, t, None, Flag::Pressed, n),
                focused_changed: false,
            },
        }
    }

    pub fn new() -> (r: Self)
        ensures
            r == InputState::<S>::idle(),
    {
        InputState { cursor: None, hovered: None, captured: None, focused: None }
    }

    /// The topmost node under a point.
    pub fn hit_test(hits: &[HitEntry<S>], x: S, y: S) -> (r: Option<NodeId>)
        ensures
            r == topmost(hits@, x, y),
    {
        let mut i: usize = 0;
        assert(hits@.skip(0) =~= hits@);
        while i < hits.len()
            invariant
                i <= hits.len(),
                topmost(hits@, x, y) == topmost(hits@.skip(i as int), x, y),
            decreases hits.len() - i,
        {
            assert(hits@.skip(i as int)[0] == hits@[i as int]);
            if hits[i].contains(x, y) {
                return Some(hits[i].node_id);
            }
            assert(hits@.skip(i as int).drop_first() =~= hits@.skip(i + 1));
            i = i + 1;
        }
        assert(hits@.skip(i as int).len() == 0);
        None
    }

    fn over(hits: &[HitEntry<S>], id: NodeId, x: S, y: S) -> (r: bool)
        ensures
            r == over_node(hits@, id, x, y),
    {
        let mut i: usize = 0;
        assert(hits@.skip(0) =~= hits@);
        while i < hits.len()
            invariant
                i <= hits.len(),
                over_node(hits@, id, x, y) == over_node(hits@.skip(i as int), id, x, y),
            decreases hits.len() - i,
        {
            assert(hits@.skip(i as int)[0] == hits@[i as int]);
            if hits[i].node_id.equals(id) {
                return hits[i].contains(x, y);
            }
            assert(hits@.skip(i as int).drop_first() =~= hits@.skip(i + 1));
            i = i + 1;
        }
        assert(hits@.skip(i as int).len() == 0);
        false
    }

    /// The pointer moved. A captured node stays hovered wherever the pointer
    /// goes, but is pressed only while the pointer is over it.
    pub fn on_cursor_moved(
        &mut self,
        x: S,
        y: S,
        hits: &[HitEntry<S>],
        tree: &NodeTree<S>,
        flags: &mut SignalStore<bool>,
    ) -> (r: InputChange)
        ensures
            (InputStep { state: *final(self), flags: final(flags)@, change: r }) == old(self).moved(
                old(flags)@,
                hits@,
                tree@,
                x,
                y,
            ),
    {
        self.cursor = Some([x, y]);
        let new_hover: Option<NodeId> = if self.captured.is_some() {
            self.captured
        } else {
            Self::hit_test(hits, x, y)
        };
        let mut change: InputChange = InputChange::default();
        if !same_node(new_hover, self.hovered) {
            self.hovered = new_hover;
            change.hovered_changed = sync_bool_signals(
                hits,
                tree,
                flags,
                new_hover,
                Flag::Hover,
            );
        }
        if let Some(cap) = self.captured {
            let target: Option<NodeId> = if Self::over(hits, cap, x, y) {
                Some(cap)
            } else {
                None
            };
            change.pressed_changed = sync_bool_signals(hits, tree, flags, target, Flag::Pressed);
        }
        change
    }

    /// The pointer left the window: nothing is hovered.
    pub fn on_cursor_left(
        &mut self,
        hits: &[HitEntry<S>],
        tree: &NodeTree<S>,
        flags: &mut SignalStore<bool>,
    ) -> (r: InputChange)
        ensures
            (InputStep { state: *final(self), flags: final(flags)@, change: r }) == old(self).left(
                old(flags)@,
                hits@,
                tree@,
            ),
    {
        self.cursor = None;
        let mut change: InputChange = InputChange::default();
        if self.hovered.is_some() {
            self.hovered = None;
            change.hovered_changed = sync_bool_signals(hits, tree, flags, None, Flag::Hover);
        }
        change
    }

    /// The left button went down: what is hovered is captured, pressed and
    /// focused.
    pub fn on_left_pressed(
        &mut self,
        hits: &[HitEntry<S>],
        tree: &NodeTree<S>,
        flags: &mut SignalStore<bool>,
    ) -> (r: InputChange)
        ensures
            (InputStep { state: *final(self), flags: final(flags)@, change: r }) == old(self).pressed(
                old(flags)@,
                hits@,
                tree@,
            ),
    {
        let target: Option<NodeId> = self.hovered;
        self.captured = target;
        let mut change: InputChange = InputChange::default();
        change.pressed_changed = sync_bool_signals(hits, tree, flags, target, Flag::Pressed);
        if !same_node(self.focused, target) {
            self.focused = target;
            change.focused_changed = sync_bool_signals(hits, tree, flags, target, Flag::Focused);
        }
        change
    }

    /// The left button went up: nothing is captured or pressed, and what is
    /// under the pointer is hovered.
    pub fn on_left_released(
        &mut self,
        hits: &[HitEntry<S>],
        tree: &NodeTree<S>,
        flags: &mut SignalStore<bool>,
    ) -> (r: InputChange)
        ensures
            (InputStep { state: *final(self), flags: final(flags)@, change: r })
                == old(self).released(old(flags)@, hits@, tree@),
    {
        self.captured = None;
        let mut change: InputChange = InputChange::default();
        change.pressed_changed = sync_bool_signals(hits, tree, flags, None, Flag::Pressed);
        if let Some(c) = self.cursor {
            let new_hover: Option<NodeId> = Self::hit_test(hits, c[0], c[1]);
            if !same_node(new_hover, self.hovered) {
                self.hovered = new_hover;
                change.hovered_changed = sync_bool_signals(
                    hits,
                    tree,
                    flags,
                    new_hover,
                    Flag::Hover,
                );
            }
        }
        change
    }
}

impl<S: Scalar> Default for InputState<S> {
    fn default() -> (r: Self)
        ensures
            r == InputState::<S>::idle(),
    {
        InputState::new()
    }
}

// --- laws ------------------------------------------------------------------

/// While a node is captured it stays hovered, wherever the pointer goes.
pub proof fn capture_pins_hover<S: Scalar>(
    s: InputState<S>,
    hits: Seq<HitEntry<S>>,
    x: S,
    y: S,
)
    requires
        s.captured is Some,
    ensures
        s.hover_at(hits, x, y) == s.captured,
{
}

/// Pressing captures and focuses what is hovered; releasing lets go, and
/// leaves the focus.
pub proof fn press_then_release<S: Scalar>(
    s: InputState<S>,
    flags: Seq<Cell<bool>>,
    hits: Seq<HitEntry<S>>,
    t: TreeView<S>,
)
    ensures
        ({
            let down = s.pressed(flags, hits, t);
            let up = down.state.released(down.flags, hits, t);
            &&& down.state.captured == s.hovered
            &&& down.state.focused == s.hovered
            &&& up.state.captured is None
            &&& up.state.focused == s.hovered
        }),
{
}

/// Whether different nodes of a hit list keep a flag in different cells, all
/// of them in the store.
pub open spec fn flags_apart<S: Scalar>(
    flags: Seq<Cell<bool>>,
    hits: Seq<HitEntry<S>>,
    t: TreeView<S>,
    which: Flag,
) -> bool {
    &&& forall|i: int|
        0 <= i < hits.len() ==> (#[trigger] entry_flag(hits, t, which, i) matches Some(sig)
            ==> sig.cell() < flags.len())
    &&& forall|i: int, j: int|
        #![trigger entry_flag(hits, t, which, i), entry_flag(hits, t, which, j)]
        0 <= i < hits.len() && 0 <= j < hits.len() && hits[i].node_id != hits[j].node_id
            && entry_flag(hits, t, which, i) is Some && entry_flag(hits, t, which, j) is Some
            ==> entry_flag(hits, t, which, i)->Some_0.cell() != entry_flag(
            hits,
            t,
            which,
            j,
        )->Some_0.cell()
}

/// After a sync, a node's flag is up exactly when the node is the target.
pub proof fn sync_marks_the_target<S: Scalar>(
    flags: Seq<Cell<bool>>,
    hits: Seq<HitEntry<S>>,
    t: TreeView<S>,
    target: Option<NodeId>,
    which: Flag,
    i: int,
)
    requires
        flags_apart(flags, hits, t, which),
        0 <= i < hits.len(),
        entry_flag(hits, t, which, i) is Some,
    ensures
        ({
            let after = synced(flags, hits, t, target, which, hits.len());
            let sig = entry_flag(hits, t, which, i)->Some_0;
            &&& after.len() == flags.len()
            &&& after[sig.cell() as int].value == (target == Some(hits[i].node_id))
        }),
{
    lemma_sync_prefix(flags, hits, t, target, which, hits.len(), i);
}

proof fn lemma_sync_prefix<S: Scalar>(
    flags: Seq<Cell<bool>>,
    hits: Seq<HitEntry<S>>,
    t: TreeView<S>,
    target: Option<NodeId>,
    which: Flag,
    k: nat,
    i: int,
)
    requires
        flags_apart(flags, hits, t, which),
        k <= hits.len(),
        0 <= i < hits.len(),
        entry_flag(hits, t, which, i) is Some,
    ensures
        synced(flags, hits, t, target, which, k).len() == flags.len(),
        i < k ==> synced(flags, hits, t, target, which, k)[entry_flag(
            hits,
            t,
            which,
            i,
        )->Some_0.cell() as int].value == (target == Some(hits[i].node_id)),
    decreases k,
{
    if k > 0 {
        lemma_sync_prefix(flags, hits, t, target, which, (k - 1) as nat, i);
        let a = entry_flag(hits, t, which, i);
        let b = entry_flag(hits, t, which, k - 1);
        if b is Some && hits[i].node_id == hits[k - 1].node_id {
            assert(a == b);
        }
    }
}

} // verus!
