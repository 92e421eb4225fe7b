//! What holds of overlays and of whatever is painted last.
use vstd::prelude::*;

use crate::consistency::{child_keeps_consistent, root_keeps_consistent};
use crate::flatten::{
    bars, box_of, corner, extent, flat_kids, flat_node, flat_roots, flat_tree, handed_down,
    hittable, inside, own, Flat, HitEntry, Pass,
};
use crate::input::topmost;
use crate::node::{id_is_slot_and_issue, id_parts, Node, NodeId};
use crate::binds::BIND_TWEEN_KEY_BASE;
use crate::overlay::{nth_key, widget_keys_differ, Modal, OverlayView, WIDGET_TWEEN_BASE};
use crate::scalar::{zero_s, Scalar};
use crate::tree::{child_stays_acyclic, root_stays_acyclic, TreeView};

verus! {

broadcast use {id_is_slot_and_issue, id_parts};

/// What is under a point in one list of hits followed by another.
proof fn lemma_topmost_joined<S: Scalar>(a: Seq<HitEntry<S>>, b: Seq<HitEntry<S>>, x: S, y: S)
    ensures
        topmost(a + b, x, y) == if topmost(a, x, y) is Some {
            topmost(a, x, y)
        } else {
            topmost(b, x, y)
        },
    decreases a.len(),
{
    if a.len() == 0 {
        assert(a + b =~= b);
    } else {
        assert((a + b)[0] == a[0]);
        assert((a + b).drop_first() =~= a.drop_first() + b);
        lemma_topmost_joined(a.drop_first(), b, x, y);
    }
}

proof fn lemma_topmost_listed<S: Scalar>(a: Seq<HitEntry<S>>, x: S, y: S)
    requires
        topmost(a, x, y) is Some,
    ensures
        exists|i: int|
            0 <= i < a.len() && topmost(a, x, y) == Some((#[trigger] a[i]).node_id),
    decreases a.len(),
{
    if inside(a[0].bounds, a[0].clip_rect, x, y) {
        assert(topmost(a, x, y) == Some(a[0].node_id));
    } else {
        lemma_topmost_listed(a.drop_first(), x, y);
        let i = choose|i: int|
            0 <= i < a.drop_first().len() && topmost(a.drop_first(), x, y) == Some(
                (#[trigger] a.drop_first()[i]).node_id,
            );
        assert(a[i + 1] == a.drop_first()[i]);
    }
}

/// The root added last takes the pointer wherever anything in its branch is
/// under it: nothing below is reached there.
pub proof fn last_root_takes_the_pointer<S: Scalar>(t: TreeView<S>, scale: S, x: S, y: S)
    requires
        t.acyclic(),
        t.roots.len() > 0,
        topmost(flat_node(t, t.roots.last(), Pass::top(), scale).hits.reverse(), x, y) is Some,
    ensures
        topmost(flat_tree(t, scale).hits.reverse(), x, y) == topmost(
            flat_node(t, t.roots.last(), Pass::top(), scale).hits.reverse(),
            x,
            y,
        ),
{
    let k = t.roots.len();
    let below = flat_roots(t, (k - 1) as nat, scale);
    let top = flat_node(t, t.roots[k - 1], Pass::top(), scale);
    assert(flat_tree(t, scale).hits.reverse() =~= top.hits.reverse() + below.hits.reverse());
    lemma_topmost_joined(top.hits.reverse(), below.hits.reverse(), x, y);
}

/// A root that wants the pointer and covers a point, such as an open
/// overlay's scrim, blocks everything rendered before it there: what is hit
/// belongs to its branch.
pub proof fn scrim_blocks_what_is_under_it<S: Scalar>(t: TreeView<S>, scale: S, x: S, y: S)
    requires
        t.acyclic(),
        t.roots.len() > 0,
        ({
            let id = t.roots.last();
            &&& t.node(id) matches Some(n)
            &&& n.visible
            &&& hittable(n)
            &&& inside(
                box_of(corner(n, Pass::<S>::top().offset), extent(n)),
                Pass::<S>::top().clip,
                x,
                y,
            )
        }),
    ensures
        ({
            let branch = flat_node(t, t.roots.last(), Pass::top(), scale).hits;
            exists|i: int|
                0 <= i < branch.len() && topmost(flat_tree(t, scale).hits.reverse(), x, y) == Some(
                    (#[trigger] branch[i]).node_id,
                )
        }),
{
    let id = t.roots.last();
    let n = t.node(id)->Some_0;
    let p = Pass::<S>::top();
    let rest = flat_kids(t, id, n.children@.len(), handed_down(id, n, p), scale).then_also(
        bars(id, n, p, scale),
    );
    let branch = flat_node(t, id, p, scale).hits;
    let entry = own(id, n, p).hits;
    assert(branch =~= entry + rest.hits);
    assert(branch.reverse() =~= rest.hits.reverse() + entry);
    lemma_topmost_joined(rest.hits.reverse(), entry, x, y);
    assert(topmost(entry, x, y) == Some(id));
    last_root_takes_the_pointer(t, scale, x, y);
    lemma_topmost_listed(branch.reverse(), x, y);
    let j = choose|j: int|
        0 <= j < branch.reverse().len() && topmost(branch.reverse(), x, y) == Some(
            (#[trigger] branch.reverse()[j]).node_id,
        );
    assert(branch[branch.len() - 1 - j] == branch.reverse()[j]);
}

/// Tweens of bound props never share a key with those of overlays, as long as
/// fewer than `0x3000_0000` props are bound.
pub proof fn key_ranges_stay_apart(slot: nat, n: nat)
    requires
        slot < 0x3000_0000,
        WIDGET_TWEEN_BASE + n <= u32::MAX,
    ensures
        BIND_TWEEN_KEY_BASE + slot < nth_key(WIDGET_TWEEN_BASE, n),
{
    if n > 0 {
        widget_keys_differ(0, n);
    }
}

/// A closed overlay costs nothing: it paints nothing, takes no hits, and has
/// no bars, panel included.
pub proof fn closed_overlay_is_skipped<S: Scalar>(
    o: OverlayView<S>,
    before: TreeView<S>,
    parent: Option<NodeId>,
    color: [S; 4],
    level: S,
    m: Modal,
    after: TreeView<S>,
    p: Pass<S>,
    scale: S,
)
    requires
        before.consistent(),
        before.acyclic(),
        before.room(),
        before.spare() >= 2,
        parent matches Some(q) ==> before.node(q) is Some || q != before.next_id(),
        o.rendered(before, parent, color, level, m, after),
        !zero_s::<S>().less(level),
    ensures
        after.node(m.scrim) is Some,
        !after.node(m.scrim)->Some_0.visible,
        after.acyclic(),
        flat_node(after, m.scrim, p, scale) == Flat::<S>::nothing(),
{
    let (n, mid, h) = choose|n: Node<S>, mid: TreeView<S>, h: Node<S>|
        {
            &&& #[trigger] o.scrim(color, level, n)
            &&& match parent {
                Some(q) => before.child_added(q, n, mid),
                None => mid == before.root_added(n),
            }
            &&& m.scrim == before.next_id()
            &&& o.host(h)
            &&& m.host == mid.next_id()
            &&& #[trigger] mid.child_added(m.scrim, h, after)
        };
    root_keeps_consistent(before, n);
    match parent {
        Some(q) => {
            child_stays_acyclic(before, q, n, mid);
            child_keeps_consistent(before, q, n, mid);
        },
        None => {
            root_stays_acyclic(before, n);
        },
    }
    root_keeps_consistent(mid, h);
    child_stays_acyclic(mid, m.scrim, h, after);
}

} // verus!
