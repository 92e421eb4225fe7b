//! What the pointer does to the flags that nodes keep.
use vstd::prelude::*;

use crate::flatten::{inside, HitEntry};
use crate::input::{
    entry_flag, flags_apart, over_node, sync_flips, sync_marks_the_target, synced, topmost, Flag,
    InputState,
};
use crate::node::NodeId;
use crate::scalar::Scalar;
use crate::signal::{Cell, Signal};
use crate::tree::TreeView;

verus! {

/// Whether entry `i` of a hit list is of a node that keeps its hover in
/// `sig`.
pub open spec fn hover_in<S: Scalar>(
    hits: Seq<HitEntry<S>>,
    t: TreeView<S>,
    i: int,
    sig: Signal<bool>,
) -> bool {
    &&& 0 <= i < hits.len()
    &&& t.node(hits[i].node_id) matches Some(n)
    &&& n.interact.hover == Some(sig)
}

/// Whether entry `i` is of a node that keeps in `sig` whether it is pressed.
pub open spec fn press_in<S: Scalar>(
    hits: Seq<HitEntry<S>>,
    t: TreeView<S>,
    i: int,
    sig: Signal<bool>,
) -> bool {
    &&& 0 <= i < hits.len()
    &&& t.node(hits[i].node_id) matches Some(n)
    &&& n.interact.pressed == Some(sig)
}

/// Whether entry `i` is of a node that keeps in `sig` whether it is focused.
pub open spec fn focus_in<S: Scalar>(
    hits: Seq<HitEntry<S>>,
    t: TreeView<S>,
    i: int,
    sig: Signal<bool>,
) -> bool {
    &&& 0 <= i < hits.len()
    &&& t.node(hits[i].node_id) matches Some(n)
    &&& n.interact.focused == Some(sig)
}

/// Whether every flag has a cell of its own.
pub open spec fn cells_apart<S: Scalar>(
    flags: Seq<Cell<bool>>,
    hits: Seq<HitEntry<S>>,
    t: TreeView<S>,
) -> bool {
    &&& forall|which: Flag| #[trigger] flags_apart(flags, hits, t, which)
    &&& forall|a: Flag, b: Flag, i: int, j: int|
        #![trigger entry_flag(hits, t, a, i), entry_flag(hits, t, b, j)]
        0 <= i < hits.len() && 0 <= j < hits.len() && a != b && entry_flag(hits, t, a, i) is Some
            && entry_flag(hits, t, b, j) is Some ==> entry_flag(hits, t, a, i)->Some_0.cell()
            != entry_flag(hits, t, b, j)->Some_0.cell()
}

/// Whether a cell holds no flag of one kind.
spec fn foreign<S: Scalar>(hits: Seq<HitEntry<S>>, t: TreeView<S>, which: Flag, c: int) -> bool {
    forall|j: int|
        0 <= j < hits.len() ==> (#[trigger] entry_flag(hits, t, which, j) matches Some(sig)
            ==> sig.cell() != c)
}

proof fn lemma_foreign_cells_keep<S: Scalar>(
    flags: Seq<Cell<bool>>,
    hits: Seq<HitEntry<S>>,
    t: TreeView<S>,
    target: Option<NodeId>,
    which: Flag,
    k: nat,
    c: int,
)
    requires
        k <= hits.len(),
        foreign(hits, t, which, c),
        0 <= c < flags.len(),
    ensures
        synced(flags, hits, t, target, which, k).len() == flags.len(),
        synced(flags, hits, t, target, which, k)[c] == flags[c],
    decreases k,
{
    if k > 0 {
        lemma_foreign_cells_keep(flags, hits, t, target, which, (k - 1) as nat, c);
        let e = entry_flag(hits, t, which, k - 1);
    }
}

proof fn lemma_length<S: Scalar>(
    flags: Seq<Cell<bool>>,
    hits: Seq<HitEntry<S>>,
    t: TreeView<S>,
    target: Option<NodeId>,
    which: Flag,
    k: nat,
)
    ensures
        synced(flags, hits, t, target, which, k).len() == flags.len(),
    decreases k,
{
    if k > 0 {
        lemma_length(flags, hits, t, target, which, (k - 1) as nat);
    }
}

/// A write to flags of the same cells leaves them apart.
proof fn lemma_still_apart<S: Scalar>(
    flags: Seq<Cell<bool>>,
    after: Seq<Cell<bool>>,
    hits: Seq<HitEntry<S>>,
    t: TreeView<S>,
)
    requires
        cells_apart(flags, hits, t),
        after.len() == flags.len(),
    ensures
        cells_apart(after, hits, t),
{
    assert forall|which: Flag| #[trigger] flags_apart(after, hits, t, which) by {
        assert(flags_apart(flags, hits, t, which));
    }
}

proof fn lemma_foreign<S: Scalar>(
    flags: Seq<Cell<bool>>,
    hits: Seq<HitEntry<S>>,
    t: TreeView<S>,
    mine: Flag,
    other: Flag,
    i: int,
)
    requires
        cells_apart(flags, hits, t),
        mine != other,
        0 <= i < hits.len(),
        entry_flag(hits, t, mine, i) is Some,
    ensures
        foreign(hits, t, other, entry_flag(hits, t, mine, i)->Some_0.cell() as int),
        entry_flag(hits, t, mine, i)->Some_0.cell() < flags.len(),
{
    assert(flags_apart(flags, hits, t, mine));
    assert forall|j: int| 0 <= j < hits.len() implies (#[trigger] entry_flag(
        hits,
        t,
        other,
        j,
    ) matches Some(sig) ==> sig.cell() != entry_flag(hits, t, mine, i)->Some_0.cell()) by {
        let e = entry_flag(hits, t, mine, i);
    }
}

/// A free pointer that comes to hover something else hovers the topmost node
/// under it: that node's flag is up, those of all others are down, and no node
/// is pressed or focused by it.
pub proof fn moving_hovers_the_topmost<S: Scalar>(
    s: InputState<S>,
    flags: Seq<Cell<bool>>,
    hits: Seq<HitEntry<S>>,
    t: TreeView<S>,
    x: S,
    y: S,
    i: int,
    sig: Signal<bool>,
)
    requires
        s.captured is None,
        cells_apart(flags, hits, t),
    ensures
        ({
            let after = s.moved(flags, hits, t, x, y);
            let top = topmost(hits, x, y);
            &&& after.state.hovered == top
            &&& after.state.cursor == Some([x, y])
            &&& after.state.captured is None
            &&& after.state.focused == s.focused
            &&& s.hovered != top && hover_in(hits, t, i, sig) ==> after.flags[sig.cell() as int].value
                == (top == Some(hits[i].node_id))
            &&& s.hovered == top ==> after.flags == flags
            &&& press_in(hits, t, i, sig) || focus_in(hits, t, i, sig)
                ==> after.flags[sig.cell() as int] == flags[sig.cell() as int]
            &&& !after.change.pressed_changed
            &&& !after.change.focused_changed
        }),
{
    let top = topmost(hits, x, y);
    let n = hits.len();
    if hover_in(hits, t, i, sig) {
        assert(entry_flag(hits, t, Flag::Hover, i) == Some(sig));
        assert(flags_apart(flags, hits, t, Flag::Hover));
        sync_marks_the_target(flags, hits, t, top, Flag::Hover, i);
    }
    if press_in(hits, t, i, sig) {
        assert(entry_flag(hits, t, Flag::Pressed, i) == Some(sig));
        lemma_foreign(flags, hits, t, Flag::Pressed, Flag::Hover, i);
        lemma_foreign_cells_keep(flags, hits, t, top, Flag::Hover, n, sig.cell() as int);
    }
    if focus_in(hits, t, i, sig) {
        assert(entry_flag(hits, t, Flag::Focused, i) == Some(sig));
        lemma_foreign(flags, hits, t, Flag::Focused, Flag::Hover, i);
        lemma_foreign_cells_keep(flags, hits, t, top, Flag::Hover, n, sig.cell() as int);
    }
}

/// A node lies under a point where its first entry does, and nowhere if it
/// has none.
pub proof fn a_node_lies_where_its_entry_does<S: Scalar>(
    hits: Seq<HitEntry<S>>,
    id: NodeId,
    x: S,
    y: S,
    i: int,
)
    requires
        0 <= i <= hits.len(),
        forall|j: int| 0 <= j < i ==> (#[trigger] hits[j]).node_id != id,
        i < hits.len() ==> hits[i].node_id == id,
    ensures
        over_node(hits, id, x, y) == (i < hits.len() && inside(
            hits[i].bounds,
            hits[i].clip_rect,
            x,
            y,
        )),
    decreases hits.len(),
{
    if hits.len() > 0 && i > 0 {
        assert(hits[0].node_id != id);
        let rest = hits.drop_first();
        assert forall|j: int| 0 <= j < i - 1 implies (#[trigger] rest[j]).node_id != id by {
            assert(rest[j] == hits[j + 1]);
        }
        a_node_lies_where_its_entry_does(rest, id, x, y, i - 1);
    }
}

/// While a node is held it is pressed exactly while the pointer is over it,
/// and no other node is pressed at all.
pub proof fn holding_presses_while_over<S: Scalar>(
    s: InputState<S>,
    flags: Seq<Cell<bool>>,
    hits: Seq<HitEntry<S>>,
    t: TreeView<S>,
    held: NodeId,
    x: S,
    y: S,
    i: int,
    sig: Signal<bool>,
)
    requires
        s.captured == Some(held),
        cells_apart(flags, hits, t),
        press_in(hits, t, i, sig),
    ensures
        ({
            let after = s.moved(flags, hits, t, x, y);
            &&& after.flags[sig.cell() as int].value == (hits[i].node_id == held && over_node(
                hits,
                held,
                x,
                y,
            ))
            &&& after.state.captured == Some(held)
            &&& after.state.hovered == Some(held)
            &&& after.state.cursor == Some([x, y])
            &&& after.state.focused == s.focused
        }),
{
    let n = hits.len();
    let hover = s.hover_at(hits, x, y);
    let f1 = if hover != s.hovered {
        synced(flags, hits, t, hover, Flag::Hover, n)
    } else {
        flags
    };
    lemma_length(flags, hits, t, hover, Flag::Hover, n);
    lemma_still_apart(flags, f1, hits, t);
    let target = if over_node(hits, held, x, y) {
        Some(held)
    } else {
        None
    };
    assert(entry_flag(hits, t, Flag::Pressed, i) == Some(sig));
    assert(flags_apart(f1, hits, t, Flag::Pressed));
    sync_marks_the_target(f1, hits, t, target, Flag::Pressed, i);
}

/// Pressing the button presses what is hovered and nothing else, and if the
/// focus moves, focuses it and nothing else. Hovering is as it was.
pub proof fn pressing_presses_the_hovered<S: Scalar>(
    s: InputState<S>,
    flags: Seq<Cell<bool>>,
    hits: Seq<HitEntry<S>>,
    t: TreeView<S>,
    i: int,
    sig: Signal<bool>,
)
    requires
        cells_apart(flags, hits, t),
    ensures
        ({
            let after = s.pressed(flags, hits, t);
            &&& press_in(hits, t, i, sig) ==> after.flags[sig.cell() as int].value == (s.hovered
                == Some(hits[i].node_id))
            &&& focus_in(hits, t, i, sig) ==> after.flags[sig.cell() as int].value == if s.focused
                == s.hovered {
                flags[sig.cell() as int].value
            } else {
                s.hovered == Some(hits[i].node_id)
            }
            &&& hover_in(hits, t, i, sig) ==> after.flags[sig.cell() as int]
                == flags[sig.cell() as int]
            &&& after.state.hovered == s.hovered
            &&& after.state.cursor == s.cursor
            &&& !after.change.hovered_changed
        }),
{
    let n = hits.len();
    let f1 = synced(flags, hits, t, s.hovered, Flag::Pressed, n);
    lemma_length(flags, hits, t, s.hovered, Flag::Pressed, n);
    lemma_still_apart(flags, f1, hits, t);
    if press_in(hits, t, i, sig) {
        assert(entry_flag(hits, t, Flag::Pressed, i) == Some(sig));
        assert(flags_apart(flags, hits, t, Flag::Pressed));
        sync_marks_the_target(flags, hits, t, s.hovered, Flag::Pressed, i);
        lemma_foreign(f1, hits, t, Flag::Pressed, Flag::Focused, i);
        lemma_foreign_cells_keep(f1, hits, t, s.hovered, Flag::Focused, n, sig.cell() as int);
    }
    if focus_in(hits, t, i, sig) {
        assert(entry_flag(hits, t, Flag::Focused, i) == Some(sig));
        assert(flags_apart(f1, hits, t, Flag::Focused));
        sync_marks_the_target(f1, hits, t, s.hovered, Flag::Focused, i);
        lemma_foreign(flags, hits, t, Flag::Focused, Flag::Pressed, i);
        lemma_foreign_cells_keep(flags, hits, t, s.hovered, Flag::Pressed, n, sig.cell() as int);
    }
    if hover_in(hits, t, i, sig) {
        assert(entry_flag(hits, t, Flag::Hover, i) == Some(sig));
        lemma_foreign(flags, hits, t, Flag::Hover, Flag::Pressed, i);
        lemma_foreign_cells_keep(flags, hits, t, s.hovered, Flag::Pressed, n, sig.cell() as int);
        lemma_foreign(f1, hits, t, Flag::Hover, Flag::Focused, i);
        lemma_foreign_cells_keep(f1, hits, t, s.hovered, Flag::Focused, n, sig.cell() as int);
    }
}

/// Letting go of the button leaves nothing pressed, and hovers the topmost
/// node under the pointer again. The focus stays where it is.
pub proof fn releasing_presses_nothing<S: Scalar>(
    s: InputState<S>,
    flags: Seq<Cell<bool>>,
    hits: Seq<HitEntry<S>>,
    t: TreeView<S>,
    i: int,
    sig: Signal<bool>,
)
    requires
        cells_apart(flags, hits, t),
    ensures
        ({
            let after = s.released(flags, hits, t);
            &&& press_in(hits, t, i, sig) ==> !after.flags[sig.cell() as int].value
            &&& focus_in(hits, t, i, sig) ==> after.flags[sig.cell() as int]
                == flags[sig.cell() as int]
            &&& s.cursor matches Some(c) ==> after.state.hovered == topmost(hits, c[0], c[1])
            &&& s.cursor is None ==> after.state.hovered == s.hovered
            &&& hover_in(hits, t, i, sig) && after.state.hovered != s.hovered
                ==> after.flags[sig.cell() as int].value == (after.state.hovered == Some(
                hits[i].node_id,
            ))
            &&& after.state.cursor == s.cursor
            &&& after.state.focused == s.focused
            &&& after.state.captured is None
            &&& !after.change.focused_changed
        }),
{
    let n = hits.len();
    let hover = s.released(flags, hits, t).state.hovered;
    let f1 = synced(flags, hits, t, None, Flag::Pressed, n);
    lemma_length(flags, hits, t, None, Flag::Pressed, n);
    lemma_still_apart(flags, f1, hits, t);
    if press_in(hits, t, i, sig) {
        assert(entry_flag(hits, t, Flag::Pressed, i) == Some(sig));
        assert(flags_apart(flags, hits, t, Flag::Pressed));
        sync_marks_the_target(flags, hits, t, None, Flag::Pressed, i);
        lemma_foreign(f1, hits, t, Flag::Pressed, Flag::Hover, i);
        lemma_foreign_cells_keep(f1, hits, t, hover, Flag::Hover, n, sig.cell() as int);
    }
    if focus_in(hits, t, i, sig) {
        assert(entry_flag(hits, t, Flag::Focused, i) == Some(sig));
        lemma_foreign(flags, hits, t, Flag::Focused, Flag::Pressed, i);
        lemma_foreign_cells_keep(flags, hits, t, None, Flag::Pressed, n, sig.cell() as int);
        lemma_foreign(f1, hits, t, Flag::Focused, Flag::Hover, i);
        lemma_foreign_cells_keep(f1, hits, t, hover, Flag::Hover, n, sig.cell() as int);
    }
    if hover_in(hits, t, i, sig) {
        assert(entry_flag(hits, t, Flag::Hover, i) == Some(sig));
        assert(flags_apart(f1, hits, t, Flag::Hover));
        sync_marks_the_target(f1, hits, t, hover, Flag::Hover, i);
    }
}

/// A pointer that leaves the window hovers nothing; what it holds and what
/// has the focus stay.
pub proof fn leaving_hovers_nothing<S: Scalar>(
    s: InputState<S>,
    flags: Seq<Cell<bool>>,
    hits: Seq<HitEntry<S>>,
    t: TreeView<S>,
    i: int,
    sig: Signal<bool>,
)
    requires
        cells_apart(flags, hits, t),
    ensures
        ({
            let after = s.left(flags, hits, t);
            &&& after.state.hovered is None
            &&& after.state.cursor is None
            &&& after.state.captured == s.captured
            &&& after.state.focused == s.focused
            &&& hover_in(hits, t, i, sig) && s.hovered is Some
                ==> !after.flags[sig.cell() as int].value
            &&& press_in(hits, t, i, sig) || focus_in(hits, t, i, sig)
                ==> after.flags[sig.cell() as int] == flags[sig.cell() as int]
            &&& s.hovered is None ==> after.flags == flags
            &&& !after.change.pressed_changed
            &&& !after.change.focused_changed
        }),
{
    let n = hits.len();
    if hover_in(hits, t, i, sig) {
        assert(entry_flag(hits, t, Flag::Hover, i) == Some(sig));
        assert(flags_apart(flags, hits, t, Flag::Hover));
        sync_marks_the_target(flags, hits, t, None, Flag::Hover, i);
    }
    if press_in(hits, t, i, sig) {
        assert(entry_flag(hits, t, Flag::Pressed, i) == Some(sig));
        lemma_foreign(flags, hits, t, Flag::Pressed, Flag::Hover, i);
        lemma_foreign_cells_keep(flags, hits, t, None, Flag::Hover, n, sig.cell() as int);
    }
    if focus_in(hits, t, i, sig) {
        assert(entry_flag(hits, t, Flag::Focused, i) == Some(sig));
        lemma_foreign(flags, hits, t, Flag::Focused, Flag::Hover, i);
        lemma_foreign_cells_keep(flags, hits, t, None, Flag::Hover, n, sig.cell() as int);
    }
}

/// Whether entry `i` keeps a flag that is not what the target makes it.
pub open spec fn out_of_date<S: Scalar>(
    flags: Seq<Cell<bool>>,
    hits: Seq<HitEntry<S>>,
    t: TreeView<S>,
    target: Option<NodeId>,
    which: Flag,
    i: int,
) -> bool {
    entry_flag(hits, t, which, i) matches Some(sig) && flags[sig.cell() as int].value != (target
        == Some(hits[i].node_id))
}

/// Telling nodes whether they are the target reports a change exactly when
/// one of their flags was not so yet.
pub proof fn syncing_reports_changes<S: Scalar>(
    flags: Seq<Cell<bool>>,
    hits: Seq<HitEntry<S>>,
    t: TreeView<S>,
    target: Option<NodeId>,
    which: Flag,
)
    requires
        flags_apart(flags, hits, t, which),
    ensures
        sync_flips(flags, hits, t, target, which, hits.len()) == exists|i: int|
            0 <= i < hits.len() && #[trigger] out_of_date(flags, hits, t, target, which, i),
{
    lemma_reports(flags, hits, t, target, which, hits.len());
}

proof fn lemma_reports<S: Scalar>(
    flags: Seq<Cell<bool>>,
    hits: Seq<HitEntry<S>>,
    t: TreeView<S>,
    target: Option<NodeId>,
    which: Flag,
    k: nat,
)
    requires
        flags_apart(flags, hits, t, which),
        k <= hits.len(),
    ensures
        sync_flips(flags, hits, t, target, which, k) == exists|i: int|
            0 <= i < k && #[trigger] out_of_date(flags, hits, t, target, which, i),
    decreases k,
{
    if k > 0 {
        lemma_reports(flags, hits, t, target, which, (k - 1) as nat);
        let before = synced(flags, hits, t, target, which, (k - 1) as nat);
        lemma_length(flags, hits, t, target, which, (k - 1) as nat);
        if let Some(sig) = entry_flag(hits, t, which, k - 1) {
            let c = sig.cell() as int;
            lemma_cell_before(flags, hits, t, target, which, (k - 1) as nat, k - 1);
            assert(out_of_date(flags, hits, t, target, which, k - 1) ==> before[c].value
                != (target == Some(hits[k - 1].node_id)) || exists|i: int|
                0 <= i < k - 1 && #[trigger] out_of_date(flags, hits, t, target, which, i));
            assert(before[c].value != (target == Some(hits[k - 1].node_id)) ==> out_of_date(
                flags,
                hits,
                t,
                target,
                which,
                k - 1,
            ));
        }
        if exists|i: int| 0 <= i < k && #[trigger] out_of_date(flags, hits, t, target, which, i) {
            let i = choose|i: int|
                0 <= i < k && #[trigger] out_of_date(flags, hits, t, target, which, i);
            if i != k - 1 {
                assert(0 <= i < k - 1);
            }
        }
    }
}

/// Before its turn the cell of entry `j` is as it was, or an entry of the same
/// node has brought it up to date.
proof fn lemma_cell_before<S: Scalar>(
    flags: Seq<Cell<bool>>,
    hits: Seq<HitEntry<S>>,
    t: TreeView<S>,
    target: Option<NodeId>,
    which: Flag,
    k: nat,
    j: int,
)
    requires
        flags_apart(flags, hits, t, which),
        k <= j < hits.len(),
        entry_flag(hits, t, which, j) is Some,
    ensures
        ({
            let c = entry_flag(hits, t, which, j)->Some_0.cell() as int;
            let now = synced(flags, hits, t, target, which, k)[c].value;
            let due = target == Some(hits[j].node_id);
            &&& 0 <= c < flags.len()
            &&& now == flags[c].value || (now == due && exists|i: int|
                0 <= i < k && #[trigger] out_of_date(flags, hits, t, target, which, i))
        }),
    decreases k,
{
    let e = entry_flag(hits, t, which, j);
    if k > 0 {
        lemma_cell_before(flags, hits, t, target, which, (k - 1) as nat, j);
        lemma_length(flags, hits, t, target, which, (k - 1) as nat);
        let f = entry_flag(hits, t, which, k - 1);
        if f is Some && hits[k - 1].node_id == hits[j].node_id {
            assert(e == f);
            if flags[e->Some_0.cell() as int].value != (target == Some(hits[j].node_id)) {
                assert(out_of_date(flags, hits, t, target, which, k - 1));
            }
        }
    }
}

} // verus!
