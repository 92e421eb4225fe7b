//! What holds of every paint list.
use vstd::prelude::*;

use crate::flatten::{
    bar_flat, bars, clip_overlap, corner, flat_kids, flat_node, flat_roots, flat_tree, handed_down,
    hittable, own, painted, self_clip, wheelable, x_bar, y_bar, Flat, Pass, ScrollHitView,
};
use crate::node::{Node, NodeId, ScrollAxis};
use crate::order::{
    compares, larger_is_least_upper_bound, number, ordered_numbers, smaller_is_greatest_lower_bound,
};
use crate::scalar::{eqv4, Scalar};
use crate::tree::{height_falls, TreeView};

verus! {

/// Whether an identifier names a node that is there and not hidden itself.
pub open spec fn shown<S: Scalar>(t: TreeView<S>, id: NodeId) -> bool {
    t.node(id) is Some && t.node(id)->Some_0.visible
}

/// Whether everything listed is there, shown, and listed for a reason.
pub open spec fn sound<S: Scalar>(t: TreeView<S>, f: Flat<S>) -> bool {
    &&& forall|i: int|
        0 <= i < f.hits.len() ==> shown(t, (#[trigger] f.hits[i]).node_id) && hittable(
            t.node(f.hits[i].node_id)->Some_0,
        )
    &&& forall|i: int|
        0 <= i < f.scroll_hits.len() ==> chain_sound(t, #[trigger] f.scroll_hits[i])
    &&& forall|i: int|
        0 <= i < f.bars.len() ==> shown(t, (#[trigger] f.bars[i]).node_id) && t.node(
            f.bars[i].node_id,
        )->Some_0.scroll is Some
}

/// Whether a chain starts at its own container and runs over containers only.
pub open spec fn chain_sound<S: Scalar>(t: TreeView<S>, h: ScrollHitView<S>) -> bool {
    &&& h.ancestor_chain.len() > 0
    &&& h.ancestor_chain[0] == h.node_id
    &&& forall|k: int|
        0 <= k < h.ancestor_chain.len() ==> shown(t, #[trigger] h.ancestor_chain[k]) && wheelable(
            t.node(h.ancestor_chain[k])->Some_0,
        )
}

/// Whether a stack holds shown scroll containers only.
pub open spec fn stack_sound<S: Scalar>(t: TreeView<S>, stack: Seq<NodeId>) -> bool {
    forall|k: int|
        0 <= k < stack.len() ==> shown(t, #[trigger] stack[k]) && wheelable(
            t.node(stack[k])->Some_0,
        )
}

proof fn lemma_sound_join<S: Scalar>(t: TreeView<S>, f: Flat<S>, g: Flat<S>)
    requires
        sound(t, f),
        sound(t, g),
    ensures
        sound(t, f.then_also(g)),
{
    let h = f.then_also(g);
    assert forall|i: int| 0 <= i < h.hits.len() implies shown(t, (#[trigger] h.hits[i]).node_id)
        && hittable(t.node(h.hits[i].node_id)->Some_0) by {
        if i < f.hits.len() {
            assert(h.hits[i] == f.hits[i]);
        } else {
            assert(h.hits[i] == g.hits[i - f.hits.len()]);
        }
    }
    assert forall|i: int| 0 <= i < h.scroll_hits.len() implies chain_sound(
        t,
        #[trigger] h.scroll_hits[i],
    ) by {
        if i < f.scroll_hits.len() {
            assert(h.scroll_hits[i] == f.scroll_hits[i]);
        } else {
            assert(h.scroll_hits[i] == g.scroll_hits[i - f.scroll_hits.len()]);
        }
    }
    assert forall|i: int| 0 <= i < h.bars.len() implies shown(t, (#[trigger] h.bars[i]).node_id)
        && t.node(h.bars[i].node_id)->Some_0.scroll is Some by {
        if i < f.bars.len() {
            assert(h.bars[i] == f.bars[i]);
        } else {
            assert(h.bars[i] == g.bars[i - f.bars.len()]);
        }
    }
}

proof fn lemma_own_sound<S: Scalar>(t: TreeView<S>, id: NodeId, n: Node<S>, p: Pass<S>)
    requires
        t.node(id) == Some(n),
        n.visible,
        stack_sound(t, p.stack),
    ensures
        sound(t, own(id, n, p)),
        stack_sound(t, handed_down(id, n, p).stack),
{
    let f = own(id, n, p);
    assert forall|i: int| 0 <= i < f.scroll_hits.len() implies chain_sound(
        t,
        #[trigger] f.scroll_hits[i],
    ) by {
        let h = f.scroll_hits[i];
        assert forall|k: int| 0 <= k < h.ancestor_chain.len() implies shown(
            t,
            #[trigger] h.ancestor_chain[k],
        ) && wheelable(t.node(h.ancestor_chain[k])->Some_0) by {
            if k > 0 {
                assert(h.ancestor_chain[k] == p.stack[p.stack.len() - k]);
            }
        }
    }
}

proof fn lemma_bars_sound<S: Scalar>(t: TreeView<S>, id: NodeId, n: Node<S>, p: Pass<S>, scale: S)
    requires
        t.node(id) == Some(n),
        n.visible,
    ensures
        sound(t, bars(id, n, p, scale)),
{
    if let Some(s) = n.scroll {
        let at = corner(n, p.offset);
        let opacity = p.opacity.prod(n.style.opacity);
        let y = bar_flat(id, ScrollAxis::Y, s, y_bar(n, s, at, scale), opacity, p.clip);
        let x = bar_flat(id, ScrollAxis::X, s, x_bar(n, s, at, scale), opacity, p.clip);
        lemma_sound_join(t, y, x);
    }
}

proof fn lemma_node_sound<S: Scalar>(t: TreeView<S>, id: NodeId, p: Pass<S>, scale: S)
    requires
        t.acyclic(),
        stack_sound(t, p.stack),
    ensures
        sound(t, flat_node(t, id, p, scale)),
    decreases t.height(id), 1nat, 0nat,
{
    if shown(t, id) {
        let n = t.node(id)->Some_0;
        let down = handed_down(id, n, p);
        lemma_own_sound(t, id, n, p);
        lemma_kids_sound(t, id, n.children@.len(), down, scale);
        lemma_bars_sound(t, id, n, p, scale);
        let kids = flat_kids(t, id, n.children@.len(), down, scale);
        lemma_sound_join(t, own(id, n, p), kids);
        lemma_sound_join(t, own(id, n, p).then_also(kids), bars(id, n, p, scale));
    }
}

proof fn lemma_kids_sound<S: Scalar>(t: TreeView<S>, id: NodeId, k: nat, p: Pass<S>, scale: S)
    requires
        t.acyclic(),
        stack_sound(t, p.stack),
        k <= t.kids(id).len(),
    ensures
        sound(t, flat_kids(t, id, k, p, scale)),
    decreases t.height(id), 0nat, k,
{
    if k > 0 {
        height_falls(t, id, k - 1);
        lemma_kids_sound(t, id, (k - 1) as nat, p, scale);
        lemma_node_sound(t, t.kids(id)[k - 1], p, scale);
        lemma_sound_join(
            t,
            flat_kids(t, id, (k - 1) as nat, p, scale),
            flat_node(t, t.kids(id)[k - 1], p, scale),
        );
    }
}

/// Whatever a tree lists is there and shown: hits are nodes that want the
/// pointer, wheel targets and every link of their chains are scroll
/// containers, bars belong to nodes that have a scroll state.
pub proof fn lists_are_sound<S: Scalar>(t: TreeView<S>, scale: S)
    requires
        t.acyclic(),
    ensures
        sound(t, flat_tree(t, scale)),
{
    lemma_roots_sound(t, t.roots.len(), scale);
}

proof fn lemma_roots_sound<S: Scalar>(t: TreeView<S>, k: nat, scale: S)
    requires
        t.acyclic(),
        k <= t.roots.len(),
    ensures
        sound(t, flat_roots(t, k, scale)),
    decreases k,
{
    if k > 0 {
        lemma_roots_sound(t, (k - 1) as nat, scale);
        lemma_node_sound(t, t.roots[k - 1], Pass::top(), scale);
        lemma_sound_join(
            t,
            flat_roots(t, (k - 1) as nat, scale),
            flat_node(t, t.roots[k - 1], Pass::top(), scale),
        );
    }
}

/// A node that is hidden or gone hides everything below it.
pub proof fn hidden_yields_nothing<S: Scalar>(t: TreeView<S>, id: NodeId, p: Pass<S>, scale: S)
    requires
        t.acyclic(),
        !shown(t, id),
    ensures
        flat_node(t, id, p, scale) == Flat::<S>::nothing(),
{
}

/// Parents are painted, and listed, before what is inside them: the first
/// thing a node yields is itself. Reversed, the hit list is topmost first.
pub proof fn parent_comes_first<S: Scalar>(t: TreeView<S>, id: NodeId, p: Pass<S>, scale: S)
    requires
        t.acyclic(),
        shown(t, id),
    ensures
        ({
            let n = t.node(id)->Some_0;
            let f = flat_node(t, id, p, scale);
            &&& painted(n, p).len() <= f.events.len()
            &&& f.events.take(painted(n, p).len() as int) == painted(n, p)
            &&& hittable(n) ==> f.hits.len() > 0 && f.hits[0].node_id == id
            &&& wheelable(n) ==> f.scroll_hits.len() > 0 && f.scroll_hits[0].node_id == id
        }),
{
    let n = t.node(id)->Some_0;
    let f = flat_node(t, id, p, scale);
    assert(f.events.take(painted(n, p).len() as int) =~= painted(n, p));
}

/// A visible root that wants the pointer is in the hit list.
pub proof fn root_is_hittable<S: Scalar>(t: TreeView<S>, r: int, scale: S)
    requires
        t.acyclic(),
        0 <= r < t.roots.len(),
        shown(t, t.roots[r]),
        hittable(t.node(t.roots[r])->Some_0),
    ensures
        exists|i: int|
            0 <= i < flat_tree(t, scale).hits.len() && (#[trigger] flat_tree(
                t,
                scale,
            ).hits[i]).node_id == t.roots[r],
{
    lemma_root_hit(t, r, t.roots.len(), scale);
    let f = flat_roots(t, t.roots.len(), scale);
    let i = choose|i: int| 0 <= i < f.hits.len() && (#[trigger] f.hits[i]).node_id == t.roots[r];
    assert(flat_tree(t, scale).hits[i].node_id == t.roots[r]);
}

proof fn lemma_root_hit<S: Scalar>(t: TreeView<S>, r: int, k: nat, scale: S)
    requires
        t.acyclic(),
        0 <= r < k <= t.roots.len(),
        shown(t, t.roots[r]),
        hittable(t.node(t.roots[r])->Some_0),
    ensures
        exists|i: int|
            0 <= i < flat_roots(t, k, scale).hits.len() && (#[trigger] flat_roots(
                t,
                k,
                scale,
            ).hits[i]).node_id == t.roots[r],
    decreases k,
{
    let before = flat_roots(t, (k - 1) as nat, scale);
    let all = flat_roots(t, k, scale);
    if r == k - 1 {
        parent_comes_first(t, t.roots[r], Pass::top(), scale);
        assert(all.hits[before.hits.len() as int] == flat_node(
            t,
            t.roots[r],
            Pass::top(),
            scale,
        ).hits[0]);
    } else {
        lemma_root_hit(t, r, (k - 1) as nat, scale);
        let i = choose|i: int|
            0 <= i < before.hits.len() && (#[trigger] before.hits[i]).node_id == t.roots[r];
        assert(all.hits[i] == before.hits[i]);
    }
}

/// Whether `a` cuts at least what `b` cuts.
pub open spec fn narrower<S: Scalar>(a: [S; 4], b: [S; 4]) -> bool {
    b[0].leq(a[0]) && b[1].leq(a[1]) && a[2].leq(b[2]) && a[3].leq(b[3])
}

/// Whether every edge of a clip is a number.
pub open spec fn edges_are_numbers<S: Scalar>(c: [S; 4]) -> bool {
    number(c[0]) && number(c[1]) && number(c[2]) && number(c[3])
}

/// Clips only ever narrow on the way down.
pub proof fn clips_narrow<S: Scalar>(id: NodeId, n: Node<S>, p: Pass<S>)
    requires
        ordered_numbers::<S>(),
        edges_are_numbers(p.clip),
        edges_are_numbers(self_clip(n, corner(n, p.offset))),
    ensures
        narrower(handed_down(id, n, p).clip, p.clip),
        edges_are_numbers(handed_down(id, n, p).clip),
        n.layout.overflow_x.is_clip() ==> corner(n, p.offset)[0].leq(
            handed_down(id, n, p).clip[0],
        ) && handed_down(id, n, p).clip[2].leq(corner(n, p.offset)[0].sum(n.rect[2])),
        n.layout.overflow_y.is_clip() ==> corner(n, p.offset)[1].leq(
            handed_down(id, n, p).clip[1],
        ) && handed_down(id, n, p).clip[3].leq(corner(n, p.offset)[1].sum(n.rect[3])),
{
    let c = self_clip(n, corner(n, p.offset));
    larger_is_least_upper_bound(p.clip[0], c[0], p.clip[0]);
    larger_is_least_upper_bound(p.clip[1], c[1], p.clip[1]);
    smaller_is_greatest_lower_bound(p.clip[2], c[2], p.clip[2]);
    smaller_is_greatest_lower_bound(p.clip[3], c[3], p.clip[3]);
    assert(compares(p.clip[0], p.clip[0]) && compares(p.clip[1], p.clip[1]));
    assert(compares(p.clip[2], p.clip[2]) && compares(p.clip[3], p.clip[3]));
}

/// Whether a clip shows a point.
pub open spec fn shows<S: Scalar>(c: [S; 4], x: S, y: S) -> bool {
    c[0].leq(x) && x.less(c[2]) && c[1].leq(y) && y.less(c[3])
}

/// Nested clips meet in their intersection: a point shows through both exactly
/// where it shows through each. Neither the order of the two nor repeating one
/// makes a difference.
pub proof fn clips_intersect<S: Scalar>(a: [S; 4], b: [S; 4], x: S, y: S)
    requires
        ordered_numbers::<S>(),
        edges_are_numbers(a),
        edges_are_numbers(b),
    ensures
        shows(clip_overlap(a, b), x, y) <==> shows(a, x, y) && shows(b, x, y),
        eqv4(clip_overlap(a, b), clip_overlap(b, a)),
        clip_overlap(a, a) == a,
        edges_are_numbers(clip_overlap(a, b)),
{
    larger_is_least_upper_bound(a[0], b[0], x);
    larger_is_least_upper_bound(a[1], b[1], y);
    smaller_is_greatest_lower_bound(a[2], b[2], x);
    smaller_is_greatest_lower_bound(a[3], b[3], y);
    assert(clip_overlap(a, a) =~= a);
}

/// What a node clips its children to is what its own clip and all clips above
/// it show.
pub proof fn children_show_through_every_clip<S: Scalar>(
    id: NodeId,
    n: Node<S>,
    p: Pass<S>,
    x: S,
    y: S,
)
    requires
        ordered_numbers::<S>(),
        edges_are_numbers(p.clip),
        edges_are_numbers(self_clip(n, corner(n, p.offset))),
    ensures
        shows(handed_down(id, n, p).clip, x, y) <==> shows(p.clip, x, y) && (n.layout.is_clip()
            ==> shows(self_clip(n, corner(n, p.offset)), x, y)),
{
    clips_intersect(p.clip, self_clip(n, corner(n, p.offset)), x, y);
}

/// Two trees with the same nodes and roots yield the same.
pub proof fn same_nodes_flatten_alike<S: Scalar>(t: TreeView<S>, u: TreeView<S>, scale: S)
    requires
        t.acyclic(),
        u.acyclic(),
        u.slots == t.slots,
        u.roots == t.roots,
    ensures
        flat_tree(u, scale) == flat_tree(t, scale),
{
    lemma_alike_roots(t, u, t.roots.len(), scale);
}

proof fn lemma_alike_roots<S: Scalar>(t: TreeView<S>, u: TreeView<S>, k: nat, scale: S)
    requires
        t.acyclic(),
        u.acyclic(),
        u.slots == t.slots,
        u.roots == t.roots,
        k <= t.roots.len(),
    ensures
        flat_roots(u, k, scale) == flat_roots(t, k, scale),
    decreases k,
{
    if k > 0 {
        lemma_alike_roots(t, u, (k - 1) as nat, scale);
        lemma_alike_node(t, u, t.roots[k - 1], Pass::top(), scale);
    }
}

proof fn lemma_alike_node<S: Scalar>(
    t: TreeView<S>,
    u: TreeView<S>,
    id: NodeId,
    p: Pass<S>,
    scale: S,
)
    requires
        t.acyclic(),
        u.acyclic(),
        u.slots == t.slots,
    ensures
        flat_node(u, id, p, scale) == flat_node(t, id, p, scale),
    decreases t.height(id), 1nat, 0nat,
{
    assert(u.node(id) == t.node(id));
    if shown(t, id) {
        let n = t.node(id)->Some_0;
        lemma_alike_kids(t, u, id, n.children@.len(), handed_down(id, n, p), scale);
    }
}

proof fn lemma_alike_kids<S: Scalar>(
    t: TreeView<S>,
    u: TreeView<S>,
    id: NodeId,
    k: nat,
    p: Pass<S>,
    scale: S,
)
    requires
        t.acyclic(),
        u.acyclic(),
        u.slots == t.slots,
        k <= t.kids(id).len(),
    ensures
        flat_kids(u, id, k, p, scale) == flat_kids(t, id, k, p, scale),
    decreases t.height(id), 0nat, k,
{
    assert(u.node(id) == t.node(id));
    if k > 0 {
        height_falls(t, id, k - 1);
        lemma_alike_kids(t, u, id, (k - 1) as nat, p, scale);
        lemma_alike_node(t, u, t.kids(id)[k - 1], p, scale);
    }
}

} // verus!
