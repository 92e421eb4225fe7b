//! Where things are painted and hit, and in what order.
use vstd::prelude::*;

use crate::flatten::{
    bars, corner, flat_kids, flat_node, flat_roots, flat_tree, handed_down, hittable, inside, own,
    painted, self_clip, wheelable, Flat, FlatEvent, Pass,
};
use crate::flatten_laws::shows;
use crate::node::{Node, NodeId, ShapeKind};
use crate::order::{compares, number, ordered_numbers};
use crate::scalar::{one_s, zero_s, Fixed, Scalar};
use crate::tree::TreeView;

verus! {

// --- hits ------------------------------------------------------------------

/// A box and a clip contain a point exactly when the point lies in both, on
/// both axes: at or after the near edges and before the far ones.
pub proof fn points_lie_in_box_and_clip<S: Scalar>(bounds: [S; 4], clip: [S; 4], x: S, y: S)
    requires
        ordered_numbers::<S>(),
        number(bounds[0]) && number(bounds[1]) && number(bounds[2]) && number(bounds[3]),
        number(x) && number(y),
    ensures
        inside(bounds, clip, x, y) <==> {
            &&& bounds[0].leq(x) && x.less(bounds[2])
            &&& bounds[1].leq(y) && y.less(bounds[3])
            &&& clip[0].leq(x) && x.less(clip[2])
            &&& clip[1].leq(y) && y.less(clip[3])
        },
        y.less(bounds[1]) || bounds[3].leq(y) ==> !inside(bounds, clip, x, y),
        x.less(bounds[0]) || bounds[2].leq(x) ==> !inside(bounds, clip, x, y),
{
    assert(compares(bounds[0], x) && compares(x, bounds[0]));
    assert(compares(bounds[1], y) && compares(y, bounds[1]));
    assert(compares(bounds[2], x) && compares(x, bounds[2]));
    assert(compares(bounds[3], y) && compares(y, bounds[3]));
}

// --- places ----------------------------------------------------------------

/// A way down the tree: each node with its identifier, outermost first.
pub type Path<S> = Seq<(NodeId, Node<S>)>;

/// What is inherited at the end of a way down.
pub open spec fn inherited<S: Scalar>(path: Path<S>) -> Pass<S>
    decreases path.len(),
{
    if path.len() == 0 {
        Pass::top()
    } else {
        handed_down(path.last().0, path.last().1, inherited(path.drop_last()))
    }
}

/// How far the nodes on a way down are scrolled, in all.
pub open spec fn scrolled_by(path: Path<Fixed>, axis: int) -> int
    decreases path.len(),
{
    if path.len() == 0 {
        0
    } else {
        scrolled_by(path.drop_last(), axis) + match path.last().1.scroll {
            Some(s) => s.current[axis].raw as int,
            None => 0,
        }
    }
}

/// Whether no sum on a way down leaves the range of numbers.
pub open spec fn in_range(path: Path<Fixed>) -> bool
    decreases path.len(),
{
    &&& -0x4000_0000_0000_0000 <= scrolled_by(path, 0) <= 0x4000_0000_0000_0000
    &&& -0x4000_0000_0000_0000 <= scrolled_by(path, 1) <= 0x4000_0000_0000_0000
    &&& path.len() > 0 ==> in_range(path.drop_last())
}

/// The offset at the end of a way down is the sum of what the nodes on it are
/// scrolled by.
pub proof fn scroll_offsets_add_up(path: Path<Fixed>)
    requires
        in_range(path),
    ensures
        inherited(path).offset[0].raw == scrolled_by(path, 0),
        inherited(path).offset[1].raw == scrolled_by(path, 1),
    decreases path.len(),
{
    assert(zero_s::<Fixed>().raw == 0);
    if path.len() > 0 {
        scroll_offsets_add_up(path.drop_last());
    }
}

/// Whether a position on the screen can be told from a node's rect.
pub open spec fn rect_in_range(n: Node<Fixed>) -> bool {
    &&& forall|i: int|
        0 <= i < 4 ==> -0x1000_0000_0000_0000 <= (#[trigger] n.rect[i]).raw <= 0x1000_0000_0000_0000
}

/// Where a node is on the screen: its rect, less what everything around it is
/// scrolled by.
pub open spec fn screen_at(path: Path<Fixed>, n: Node<Fixed>, axis: int) -> int {
    n.rect[axis].raw - scrolled_by(path, axis)
}

/// Everything a node yields for itself is at its rect less what the nodes
/// around it are scrolled by, and as large as its rect: what it paints, its
/// hit box, and its wheel box. Scrolling on therefore moves it back by as much.
pub proof fn nodes_appear_less_the_scroll(path: Path<Fixed>, id: NodeId, n: Node<Fixed>)
    requires
        in_range(path),
        rect_in_range(n),
    ensures
        ({
            let f = own(id, n, inherited(path));
            let x = screen_at(path, n, 0);
            let y = screen_at(path, n, 1);
            &&& forall|i: int|
                0 <= i < f.events.len() ==> match #[trigger] f.events[i] {
                    FlatEvent::Shape(s) => {
                        &&& s.position[0].raw == x && s.position[1].raw == y
                        &&& s.size[0] == n.rect[2] && s.size[1] == n.rect[3]
                    },
                    FlatEvent::Text(s) => s.position[0].raw == x && s.position[1].raw == y,
                    FlatEvent::Image(s) => {
                        &&& s.position[0].raw == x && s.position[1].raw == y
                        &&& s.size[0] == n.rect[2] && s.size[1] == n.rect[3]
                    },
                }
            &&& hittable(n) ==> f.hits.len() == 1 && f.hits[0].node_id == id && {
                let b = f.hits[0].bounds;
                &&& b[0].raw == x && b[1].raw == y
                &&& b[2].raw == x + n.rect[2].raw && b[3].raw == y + n.rect[3].raw
            }
            &&& wheelable(n) ==> f.scroll_hits.len() == 1 && f.scroll_hits[0].node_id == id && {
                let b = f.scroll_hits[0].bounds;
                &&& b[0].raw == x && b[1].raw == y
                &&& b[2].raw == x + n.rect[2].raw && b[3].raw == y + n.rect[3].raw
            }
            &&& !hittable(n) ==> f.hits.len() == 0
            &&& !wheelable(n) ==> f.scroll_hits.len() == 0
        }),
{
    scroll_offsets_add_up(path);
    assert(n.rect[0] == n.rect[0] && n.rect[1] == n.rect[1]);
    let p = inherited(path);
    let at = corner(n, p.offset);
    assert(-0x1000_0000_0000_0000 <= n.rect[0].raw <= 0x1000_0000_0000_0000);
    assert(-0x1000_0000_0000_0000 <= n.rect[1].raw <= 0x1000_0000_0000_0000);
    assert(-0x1000_0000_0000_0000 <= n.rect[2].raw <= 0x1000_0000_0000_0000);
    assert(-0x1000_0000_0000_0000 <= n.rect[3].raw <= 0x1000_0000_0000_0000);
    assert(at[0].raw == screen_at(path, n, 0));
    assert(at[1].raw == screen_at(path, n, 1));
}

/// Scrolling a container on by `d` moves everything directly below it back by
/// `d`, on that axis only.
pub proof fn scrolling_on_moves_content_back(
    path: Path<Fixed>,
    id: NodeId,
    a: Node<Fixed>,
    b: Node<Fixed>,
    kid: Node<Fixed>,
    axis: int,
    d: int,
)
    requires
        axis == 0 || axis == 1,
        a.scroll is Some,
        b.scroll is Some,
        b.scroll->Some_0.current[axis].raw == a.scroll->Some_0.current[axis].raw + d,
        b.scroll->Some_0.current[1 - axis] == a.scroll->Some_0.current[1 - axis],
        in_range(path.push((id, a))),
        in_range(path.push((id, b))),
        rect_in_range(kid),
    ensures
        corner(kid, inherited(path.push((id, b))).offset)[axis].raw == corner(
            kid,
            inherited(path.push((id, a))).offset,
        )[axis].raw - d,
        corner(kid, inherited(path.push((id, b))).offset)[1 - axis] == corner(
            kid,
            inherited(path.push((id, a))).offset,
        )[1 - axis],
{
    scroll_offsets_add_up(path.push((id, a)));
    scroll_offsets_add_up(path.push((id, b)));
    assert(path.push((id, a)).drop_last() =~= path);
    assert(path.push((id, b)).drop_last() =~= path);
    assert(-0x1000_0000_0000_0000 <= kid.rect[0].raw <= 0x1000_0000_0000_0000);
    assert(-0x1000_0000_0000_0000 <= kid.rect[1].raw <= 0x1000_0000_0000_0000);
}

// --- opacity, style, clips, chains -----------------------------------------

/// Opacity multiplies down: what is below a node is never more opaque than the
/// node or than what is around it; a node of full opacity changes nothing, and
/// one of none hides all that is below it. Roots inherit full opacity.
pub proof fn opacity_multiplies_down(id: NodeId, n: Node<Fixed>, p: Pass<Fixed>, kid: Node<Fixed>)
    requires
        0 <= p.opacity.raw <= 65536,
        0 <= n.style.opacity.raw <= 65536,
        0 <= kid.style.opacity.raw <= 65536,
    ensures
        Pass::<Fixed>::top().opacity.raw == 65536,
        ({
            let down = handed_down(id, n, p).opacity.raw;
            let o = n.style.opacity.raw;
            &&& 0 <= down <= p.opacity.raw
            &&& down <= o
            &&& o == 65536 ==> down == p.opacity.raw
            &&& p.opacity.raw == 65536 ==> down == o
            &&& o == 0 ==> down == 0
            &&& (p.opacity.raw * o) % 65536 == 0 ==> down * 65536 == p.opacity.raw * o
            &&& forall|i: int|
                0 <= i < painted(n, p).len() ==> opacity_of(#[trigger] painted(n, p)[i]).raw == down
        }),
{
    let a = p.opacity.raw as int;
    let o = n.style.opacity.raw as int;
    assert(one_s::<Fixed>().raw == 65536);
    let q = (a * o) / 65536;
    assert(0 <= q <= a && q <= o && (o == 65536 ==> q == a) && (a == 65536 ==> q == o) && (o == 0
        ==> q == 0)) by (nonlinear_arith)
        requires
            q == (a * o) / 65536,
            0 <= a <= 65536,
            0 <= o <= 65536,
    ;
}

pub open spec fn opacity_of(e: FlatEvent<Fixed>) -> Fixed {
    match e {
        FlatEvent::Shape(s) => s.opacity,
        FlatEvent::Text(s) => s.opacity,
        FlatEvent::Image(s) => s.opacity,
    }
}

/// What a node paints carries the node's style, word for word, under the clip
/// it inherits; a text without words and an image without a picture paint
/// nothing.
pub proof fn paint_carries_the_style<S: Scalar>(n: Node<S>, p: Pass<S>)
    ensures
        n.style.kind == ShapeKind::Rect || n.style.kind == ShapeKind::Glass ==> painted(n, p).len()
            == 1 && (painted(n, p)[0] matches FlatEvent::Shape(s) && {
            &&& s.color == n.style.color
            &&& s.border_color == n.style.border_color
            &&& s.border_width == n.style.border_width
            &&& s.border_radius == n.style.border_radius
            &&& s.shadow_color == n.style.shadow_color
            &&& s.shadow_offset == n.style.shadow_offset
            &&& s.shadow_blur == n.style.shadow_blur
            &&& s.shadow_opacity == n.style.shadow_opacity
            &&& s.roughness == n.style.roughness
            &&& s.clip_rect == p.clip
            &&& n.style.kind == ShapeKind::Glass ==> s.backdrop_uv_rect[0] == n.style.blur_amount
                && s.backdrop_uv_rect[1] == n.style.refraction
        }),
        n.style.kind == ShapeKind::Text ==> match n.text {
            Some(t) => painted(n, p).len() == 1 && (painted(n, p)[0] matches FlatEvent::Text(s) && {
                &&& s.content == t.content
                &&& s.font_size == t.font_size
                &&& s.line_height == t.line_height
                &&& s.color == n.style.color
                &&& s.clip_rect == p.clip
            }),
            None => painted(n, p).len() == 0,
        },
        n.style.kind == ShapeKind::Image ==> match n.image {
            Some(h) => painted(n, p).len() == 1 && (painted(n, p)[0] matches FlatEvent::Image(s) && {
                &&& s.handle == h
                &&& s.color == n.style.color
                &&& s.border_radius == n.style.border_radius
                &&& s.clip_rect == p.clip
            }),
            None => painted(n, p).len() == 0,
        },
{
}

/// A node that clips an axis shows exactly the points between its near and far
/// edge on that axis; an axis that it does not clip is open to the ends of the
/// coordinates.
pub proof fn own_clips_are_the_node<S: Scalar>(n: Node<S>, at: [S; 2], x: S, y: S)
    ensures
        shows(self_clip(n, at), x, y) <==> {
            &&& if n.layout.overflow_x.is_clip() {
                at[0].leq(x) && x.less(at[0].sum(n.rect[2]))
            } else {
                zero_s::<S>().diff(S::huge()).leq(x) && x.less(S::huge())
            }
            &&& if n.layout.overflow_y.is_clip() {
                at[1].leq(y) && y.less(at[1].sum(n.rect[3]))
            } else {
                zero_s::<S>().diff(S::huge()).leq(y) && y.less(S::huge())
            }
        },
{
}

/// The scroll containers on a way down, outermost first.
pub open spec fn containers<S: Scalar>(path: Path<S>) -> Seq<NodeId>
    decreases path.len(),
{
    if path.len() == 0 {
        Seq::empty()
    } else if wheelable(path.last().1) {
        containers(path.drop_last()).push(path.last().0)
    } else {
        containers(path.drop_last())
    }
}

/// A wheel goes to a container first, and then to those around it, from the
/// inside out.
pub proof fn wheels_go_outward<S: Scalar>(path: Path<S>, id: NodeId, n: Node<S>)
    requires
        wheelable(n),
    ensures
        ({
            let chain = own(id, n, inherited(path)).scroll_hits[0].ancestor_chain;
            let around = containers(path);
            &&& chain.len() == around.len() + 1
            &&& chain[0] == id
            &&& forall|i: int|
                0 <= i < around.len() ==> #[trigger] chain[around.len() - i] == around[i]
        }),
{
    lemma_stack(path);
    let around = containers(path);
    let chain = own(id, n, inherited(path)).scroll_hits[0].ancestor_chain;
    assert(chain == seq![id] + around.reverse());
    assert forall|i: int| 0 <= i < around.len() implies #[trigger] chain[around.len() - i]
        == around[i] by {
        assert(around.reverse()[around.len() - 1 - i] == around[i]);
    }
}

proof fn lemma_stack<S: Scalar>(path: Path<S>)
    ensures
        inherited(path).stack == containers(path),
    decreases path.len(),
{
    if path.len() > 0 {
        lemma_stack(path.drop_last());
    }
}

// --- what a tree lists -----------------------------------------------------

/// Whether one list holds another in one piece.
pub open spec fn holds<T>(all: Seq<T>, part: Seq<T>) -> bool {
    exists|i: int|
        0 <= i && i + part.len() <= all.len() && #[trigger] all.subrange(i, i + part.len()) == part
}

/// Whether a yield holds another, list by list.
pub open spec fn includes<S>(f: Flat<S>, g: Flat<S>) -> bool {
    &&& holds(f.events, g.events)
    &&& holds(f.hits, g.hits)
    &&& holds(f.scroll_hits, g.scroll_hits)
    &&& holds(f.bars, g.bars)
}

proof fn lemma_holds_join<T>(a: Seq<T>, b: Seq<T>, c: Seq<T>)
    ensures
        holds(a + b + c, b),
{
    let all = a + b + c;
    let i = a.len() as int;
    assert(all.subrange(i, i + b.len()) =~= b);
}

proof fn lemma_holds_chain<T>(a: Seq<T>, b: Seq<T>, c: Seq<T>)
    requires
        holds(a, b),
        holds(b, c),
    ensures
        holds(a, c),
{
    let i = choose|i: int|
        0 <= i && i + b.len() <= a.len() && #[trigger] a.subrange(i, i + b.len()) == b;
    let j = choose|j: int|
        0 <= j && j + c.len() <= b.len() && #[trigger] b.subrange(j, j + c.len()) == c;
    assert(a.subrange(i + j, i + j + c.len()) =~= b.subrange(j, j + c.len()));
}

proof fn lemma_includes_join<S>(a: Flat<S>, b: Flat<S>, c: Flat<S>)
    ensures
        includes(a.then_also(b).then_also(c), b),
{
    lemma_holds_join(a.events, b.events, c.events);
    lemma_holds_join(a.hits, b.hits, c.hits);
    lemma_holds_join(a.scroll_hits, b.scroll_hits, c.scroll_hits);
    lemma_holds_join(a.bars, b.bars, c.bars);
}

proof fn lemma_includes_chain<S>(a: Flat<S>, b: Flat<S>, c: Flat<S>)
    requires
        includes(a, b),
        includes(b, c),
    ensures
        includes(a, c),
{
    lemma_holds_chain(a.events, b.events, c.events);
    lemma_holds_chain(a.hits, b.hits, c.hits);
    lemma_holds_chain(a.scroll_hits, b.scroll_hits, c.scroll_hits);
    lemma_holds_chain(a.bars, b.bars, c.bars);
}

proof fn lemma_kid<S: Scalar>(t: TreeView<S>, id: NodeId, j: int, k: nat, p: Pass<S>, scale: S)
    requires
        t.acyclic(),
        0 <= j < k <= t.kids(id).len(),
    ensures
        includes(flat_kids(t, id, k, p, scale), flat_node(t, t.kids(id)[j], p, scale)),
    decreases k,
{
    let before = flat_kids(t, id, (k - 1) as nat, p, scale);
    let last = flat_node(t, t.kids(id)[k - 1], p, scale);
    let none = Flat::<S>::nothing();
    if j == k - 1 {
        lemma_includes_join(before, last, none);
        assert(before.then_also(last).then_also(none) =~= before.then_also(last));
    } else {
        lemma_kid(t, id, j, (k - 1) as nat, p, scale);
        lemma_includes_join(none, before, last);
        assert(none.then_also(before).then_also(last) =~= before.then_also(last));
        lemma_includes_chain(before.then_also(last), before, flat_node(t, t.kids(id)[j], p, scale));
    }
}

proof fn lemma_root<S: Scalar>(t: TreeView<S>, j: int, k: nat, scale: S)
    requires
        t.acyclic(),
        0 <= j < k <= t.roots.len(),
    ensures
        includes(flat_roots(t, k, scale), flat_node(t, t.roots[j], Pass::top(), scale)),
    decreases k,
{
    let before = flat_roots(t, (k - 1) as nat, scale);
    let last = flat_node(t, t.roots[k - 1], Pass::top(), scale);
    let none = Flat::<S>::nothing();
    if j == k - 1 {
        lemma_includes_join(before, last, none);
        assert(before.then_also(last).then_also(none) =~= before.then_also(last));
    } else {
        lemma_root(t, j, (k - 1) as nat, scale);
        lemma_includes_join(none, before, last);
        assert(none.then_also(before).then_also(last) =~= before.then_also(last));
        lemma_includes_chain(
            before.then_also(last),
            before,
            flat_node(t, t.roots[j], Pass::top(), scale),
        );
    }
}

/// Whether a path runs down a tree, from a root over nodes that are shown.
pub open spec fn runs_down<S: Scalar>(t: TreeView<S>, path: Path<S>) -> bool {
    &&& path.len() > 0
    &&& t.roots.contains(path[0].0)
    &&& forall|i: int|
        0 <= i < path.len() ==> t.node((#[trigger] path[i]).0) == Some(path[i].1)
            && path[i].1.visible
    &&& forall|i: int| 0 < i < path.len() ==> #[trigger] linked(path, i)
}

/// Whether a node on a path is a child of the one before it.
pub open spec fn linked<S: Scalar>(path: Path<S>, i: int) -> bool {
    path[i - 1].1.children@.contains(path[i].0)
}

/// Every node that is shown, with everything around it shown, is painted and
/// listed, under what the nodes around it hand down.
pub proof fn shown_nodes_are_painted<S: Scalar>(t: TreeView<S>, path: Path<S>, scale: S)
    requires
        t.acyclic(),
        runs_down(t, path),
    ensures
        includes(
            flat_tree(t, scale),
            own(path.last().0, path.last().1, inherited(path.drop_last())),
        ),
{
    lemma_branch(t, path, scale);
    let id = path.last().0;
    let n = path.last().1;
    let p = inherited(path.drop_last());
    let none = Flat::<S>::nothing();
    let mine = own(id, n, p);
    let kids = flat_kids(t, id, n.children@.len(), handed_down(id, n, p), scale);
    let rest = kids.then_also(bars(id, n, p, scale));
    lemma_includes_join(none, mine, rest);
    assert(none.then_also(mine).then_also(rest) =~= mine.then_also(kids).then_also(
        bars(id, n, p, scale),
    ));
    lemma_includes_chain(flat_tree(t, scale), flat_node(t, id, p, scale), mine);
}

proof fn lemma_shorter<S: Scalar>(t: TreeView<S>, path: Path<S>)
    requires
        runs_down(t, path),
        path.len() > 1,
    ensures
        runs_down(t, path.drop_last()),
        path.drop_last().last() == path[path.len() - 2],
        path[path.len() - 2].1.children@.contains(path.last().0),
        t.node(path[path.len() - 2].0) == Some(path[path.len() - 2].1),
        path[path.len() - 2].1.visible,
{
    let up = path.drop_last();
    assert forall|i: int| 0 <= i < up.len() implies t.node((#[trigger] up[i]).0) == Some(up[i].1)
        && up[i].1.visible by {
        assert(up[i] == path[i]);
    }
    assert forall|i: int| 0 < i < up.len() implies #[trigger] linked(up, i) by {
        assert(linked(path, i));
    }
    assert(linked(path, path.len() - 1));
    assert(up[0] == path[0]);
    assert(path[path.len() - 1] == path.last());
    let q = path[path.len() - 2];
    assert(t.node(q.0) == Some(q.1));
}

proof fn lemma_below<S: Scalar>(
    t: TreeView<S>,
    id: NodeId,
    n: Node<S>,
    kid: NodeId,
    p: Pass<S>,
    scale: S,
)
    requires
        t.acyclic(),
        t.node(id) == Some(n),
        n.visible,
        n.children@.contains(kid),
    ensures
        includes(flat_node(t, id, p, scale), flat_node(t, kid, handed_down(id, n, p), scale)),
{
    let down = handed_down(id, n, p);
    let j = choose|j: int| 0 <= j < n.children@.len() && n.children@[j] == kid;
    assert(t.kids(id) == n.children@);
    lemma_kid(t, id, j, n.children@.len(), down, scale);
    let kids = flat_kids(t, id, n.children@.len(), down, scale);
    lemma_includes_join(own(id, n, p), kids, bars(id, n, p, scale));
    lemma_includes_chain(flat_node(t, id, p, scale), kids, flat_node(t, kid, down, scale));
}

proof fn lemma_branch<S: Scalar>(t: TreeView<S>, path: Path<S>, scale: S)
    requires
        t.acyclic(),
        runs_down(t, path),
    ensures
        includes(
            flat_tree(t, scale),
            flat_node(t, path.last().0, inherited(path.drop_last()), scale),
        ),
    decreases path.len(),
{
    let up = path.drop_last();
    if path.len() == 1 {
        let j = choose|j: int| 0 <= j < t.roots.len() && t.roots[j] == path[0].0;
        lemma_root(t, j, t.roots.len(), scale);
        assert(up =~= Seq::empty());
    } else {
        lemma_shorter(t, path);
        lemma_branch(t, up, scale);
        let p = inherited(up.drop_last());
        lemma_below(t, up.last().0, up.last().1, path.last().0, p, scale);
        lemma_includes_chain(
            flat_tree(t, scale),
            flat_node(t, up.last().0, p, scale),
            flat_node(t, path.last().0, inherited(up), scale),
        );
    }
}

/// Whether `a` stands in a list before `b`.
pub open spec fn precedes<T>(all: Seq<T>, a: Seq<T>, b: Seq<T>) -> bool {
    exists|i: int, j: int|
        0 <= i && i + a.len() <= j && j + b.len() <= all.len() && #[trigger] all.subrange(
            i,
            i + a.len(),
        ) == a && #[trigger] all.subrange(j, j + b.len()) == b
}

/// Painter's order: a node is painted before its children, an earlier child
/// before a later one, and the node's bars after all of them. Hits are listed
/// in the same order.
pub proof fn later_paints_on_top<S: Scalar>(
    t: TreeView<S>,
    id: NodeId,
    n: Node<S>,
    j: int,
    k: int,
    p: Pass<S>,
    scale: S,
)
    requires
        t.acyclic(),
        t.node(id) == Some(n),
        n.visible,
        0 <= j < k < n.children@.len(),
    ensures
        ({
            let f = flat_node(t, id, p, scale);
            let down = handed_down(id, n, p);
            let a = flat_node(t, n.children@[j], down, scale);
            let b = flat_node(t, n.children@[k], down, scale);
            &&& precedes(f.events, painted(n, p), a.events)
            &&& precedes(f.events, a.events, b.events)
            &&& precedes(f.events, b.events, bars(id, n, p, scale).events)
            &&& precedes(f.hits, own(id, n, p).hits, a.hits)
            &&& precedes(f.hits, a.hits, b.hits)
        }),
{
    let f = flat_node(t, id, p, scale);
    let down = handed_down(id, n, p);
    let last = n.children@.len();
    let mine = own(id, n, p);
    let kids = flat_kids(t, id, last, down, scale);
    let on_top = bars(id, n, p, scale);
    let a = flat_node(t, n.children@[j], down, scale);
    let b = flat_node(t, n.children@[k], down, scale);
    assert(t.kids(id) == n.children@);
    lemma_kids_in_order(t, id, j, k, last, down, scale);
    lemma_kid(t, id, j, last, down, scale);
    lemma_kid(t, id, k, last, down, scale);
    lemma_between(mine.events, kids.events, on_top.events, a.events, b.events);
    lemma_between(mine.hits, kids.hits, on_top.hits, a.hits, b.hits);
}

proof fn lemma_between<T>(x: Seq<T>, y: Seq<T>, z: Seq<T>, a: Seq<T>, b: Seq<T>)
    requires
        precedes(y, a, b),
    ensures
        precedes(x + y + z, x, a),
        precedes(x + y + z, a, b),
        precedes(x + y + z, b, z),
{
    let all = x + y + z;
    let (i, j) = choose|i: int, j: int|
        0 <= i && i + a.len() <= j && j + b.len() <= y.len() && #[trigger] y.subrange(
            i,
            i + a.len(),
        ) == a && #[trigger] y.subrange(j, j + b.len()) == b;
    let n = x.len() as int;
    let m = n + y.len();
    assert(all.subrange(0, n) =~= x);
    let start: int = 0;
    assert(all.subrange(start, start + x.len()) =~= x);
    assert(all.subrange(n + i, n + i + a.len()) =~= y.subrange(i, i + a.len()));
    assert(all.subrange(n + j, n + j + b.len()) =~= y.subrange(j, j + b.len()));
    assert(all.subrange(m, m + z.len()) =~= z);
}

proof fn lemma_kids_in_order<S: Scalar>(
    t: TreeView<S>,
    id: NodeId,
    j: int,
    k: int,
    n: nat,
    p: Pass<S>,
    scale: S,
)
    requires
        t.acyclic(),
        0 <= j < k < n <= t.kids(id).len(),
    ensures
        precedes(
            flat_kids(t, id, n, p, scale).events,
            flat_node(t, t.kids(id)[j], p, scale).events,
            flat_node(t, t.kids(id)[k], p, scale).events,
        ),
        precedes(
            flat_kids(t, id, n, p, scale).hits,
            flat_node(t, t.kids(id)[j], p, scale).hits,
            flat_node(t, t.kids(id)[k], p, scale).hits,
        ),
    decreases n,
{
    let before = flat_kids(t, id, (n - 1) as nat, p, scale);
    let last = flat_node(t, t.kids(id)[n - 1], p, scale);
    let a = flat_node(t, t.kids(id)[j], p, scale);
    let b = flat_node(t, t.kids(id)[k], p, scale);
    if k == n - 1 {
        lemma_kid(t, id, j, (n - 1) as nat, p, scale);
        lemma_then(before.events, last.events, a.events);
        lemma_then(before.hits, last.hits, a.hits);
    } else {
        lemma_kids_in_order(t, id, j, k, (n - 1) as nat, p, scale);
        lemma_still_precedes(before.events, last.events, a.events, b.events);
        lemma_still_precedes(before.hits, last.hits, a.hits, b.hits);
    }
}

proof fn lemma_then<T>(y: Seq<T>, z: Seq<T>, a: Seq<T>)
    requires
        holds(y, a),
    ensures
        precedes(y + z, a, z),
{
    let i = choose|i: int|
        0 <= i && i + a.len() <= y.len() && #[trigger] y.subrange(i, i + a.len()) == a;
    let all = y + z;
    let n = y.len() as int;
    assert(all.subrange(i, i + a.len()) =~= y.subrange(i, i + a.len()));
    assert(all.subrange(n, n + z.len()) =~= z);
}

proof fn lemma_still_precedes<T>(y: Seq<T>, z: Seq<T>, a: Seq<T>, b: Seq<T>)
    requires
        precedes(y, a, b),
    ensures
        precedes(y + z, a, b),
{
    let (i, j) = choose|i: int, j: int|
        0 <= i && i + a.len() <= j && j + b.len() <= y.len() && #[trigger] y.subrange(
            i,
            i + a.len(),
        ) == a && #[trigger] y.subrange(j, j + b.len()) == b;
    let all = y + z;
    assert(all.subrange(i, i + a.len()) =~= y.subrange(i, i + a.len()));
    assert(all.subrange(j, j + b.len()) =~= y.subrange(j, j + b.len()));
}

} // verus!
