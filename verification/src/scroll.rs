//! Scrolling: targets, the spring that chases them, and the bars.
use vstd::prelude::*;

use crate::dirty;
use crate::layout::{LayoutStyle, Overflow};
use crate::node::{
    id_is_slot_and_issue, id_parts, state_or_default, state_or_rest, Node, NodeId, ScrollAxis,
    ScrollState, ScrollbarStyle,
};
use crate::scalar::{
    abs, clamp, clamped, eqv2, magnitude, one, one_s, pair, same2, splat2, zero, zero_s, Scalar,
};
use crate::tree::{without, write_back, NodeTree, TreeView};

verus! {

broadcast use {id_is_slot_and_issue, id_parts, write_back};

// --- targets ---------------------------------------------------------------

/// How far a node's content exceeds its rect, by axis.
pub open spec fn budget<S: Scalar>(n: Node<S>, axis: int) -> S {
    n.content_size[axis].diff(n.rect[2 + axis]).hi(zero_s())
}

/// A wished-for offset, held to the content unless overscroll is on.
pub open spec fn held_to_content<S: Scalar>(n: Node<S>, s: ScrollState<S>, want: [S; 2]) -> [S; 2] {
    if s.overscroll {
        want
    } else {
        [
            clamped(want[0], zero_s(), budget(n, 0)),
            clamped(want[1], zero_s(), budget(n, 1)),
        ]
    }
}

/// The target that `set_scroll_target` asks for: axes that do not scroll keep
/// theirs.
pub open spec fn aimed<S: Scalar>(n: Node<S>, s: ScrollState<S>, target: [S; 2]) -> [S; 2] {
    held_to_content(
        n,
        s,
        [
            if n.layout.overflow_x.is_scroll() {
                target[0]
            } else {
                s.target[0]
            },
            if n.layout.overflow_y.is_scroll() {
                target[1]
            } else {
                s.target[1]
            },
        ],
    )
}

/// The target that `add_scroll_delta` asks for: axes that do not scroll take
/// no delta.
pub open spec fn pushed<S: Scalar>(n: Node<S>, s: ScrollState<S>, delta: [S; 2]) -> [S; 2] {
    held_to_content(
        n,
        s,
        [
            s.target[0].sum(
                if n.layout.overflow_x.is_scroll() {
                    delta[0]
                } else {
                    zero_s()
                },
            ),
            s.target[1].sum(
                if n.layout.overflow_y.is_scroll() {
                    delta[1]
                } else {
                    zero_s()
                },
            ),
        ],
    )
}

/// A state sent to a new target. The bar pops up unless it hides itself.
pub open spec fn retargeted<S: Scalar>(s: ScrollState<S>, target: [S; 2]) -> ScrollState<S> {
    ScrollState {
        target,
        bar_alpha: if s.style.auto_hide {
            s.bar_alpha
        } else {
            one_s()
        },
        ..s
    }
}

/// `a` with one axis replaced.
pub open spec fn on_axis<S>(a: [S; 2], axis: ScrollAxis, v: S) -> [S; 2] {
    match axis {
        ScrollAxis::X => [v, a[1]],
        ScrollAxis::Y => [a[0], v],
    }
}

fn budget_of<S: Scalar>(n: &Node<S>, axis: usize) -> (r: S)
    requires
        axis < 2,
    ensures
        r == budget(*n, axis as int),
{
    n.content_size[axis].minus(n.rect[2 + axis]).larger(zero())
}

fn hold_to_content<S: Scalar>(n: &Node<S>, s: &ScrollState<S>, want: [S; 2]) -> (r: [S; 2])
    ensures
        r == held_to_content(*n, *s, want),
{
    if s.overscroll {
        want
    } else {
        [
            clamp(want[0], zero(), budget_of(n, 0)),
            clamp(want[1], zero(), budget_of(n, 1)),
        ]
    }
}

fn retarget<S: Scalar>(s: ScrollState<S>, target: [S; 2]) -> (r: ScrollState<S>)
    ensures
        r == retargeted(s, target),
{
    ScrollState {
        target,
        bar_alpha: if s.style.auto_hide {
            s.bar_alpha
        } else {
            one()
        },
        ..s
    }
}

// --- the spring ------------------------------------------------------------

/// One coordinate after `alpha` of the way is covered, snapped once it is
/// within half a pixel.
pub open spec fn approached<S: Scalar>(current: S, target: S, alpha: S) -> S {
    let next = current.sum(target.diff(current).prod(alpha));
    if magnitude(target.diff(next)).less(S::rat(1, 2)) {
        target
    } else {
        next
    }
}

/// The part of the way covered in `dt` seconds.
pub open spec fn ease_fraction<S: Scalar>(stiffness: S, dt: S) -> S {
    one_s::<S>().diff(zero_s::<S>().diff(stiffness).prod(dt).expo())
}

pub open spec fn approached2<S: Scalar>(s: ScrollState<S>, dt: S) -> [S; 2] {
    let alpha = ease_fraction(s.stiffness, dt);
    [
        approached(s.current[0], s.target[0], alpha),
        approached(s.current[1], s.target[1], alpha),
    ]
}

pub open spec fn chasing<S: Scalar>(s: ScrollState<S>) -> bool {
    !eqv2(s.current, s.target)
}

/// Whether the spring moves the offset in this step.
pub open spec fn spring_moves<S: Scalar>(s: ScrollState<S>, dt: S) -> bool {
    chasing(s) && !eqv2(approached2(s, dt), s.current)
}

/// The state after the spring's step. The bar is fully visible while the
/// offset chases its target, unless it hides itself.
pub open spec fn sprung<S: Scalar>(s: ScrollState<S>, dt: S) -> ScrollState<S> {
    if chasing(s) {
        ScrollState {
            current: if spring_moves(s, dt) {
                approached2(s, dt)
            } else {
                s.current
            },
            bar_alpha: if s.style.auto_hide {
                s.bar_alpha
            } else {
                one_s()
            },
            ..s
        }
    } else {
        s
    }
}

/// Whether the bar must not fade. A chase does not hold a bar that hides
/// itself; only the pointer does.
pub open spec fn bar_held<S: Scalar>(s: ScrollState<S>) -> bool {
    s.style.always_visible || s.hovered() || s.held() || (chasing(s) && !s.style.auto_hide)
}

/// The bar's opacity after `dt` seconds.
pub open spec fn faded<S: Scalar>(s: ScrollState<S>, dt: S) -> S {
    if bar_held(s) {
        if s.bar_alpha.less(one_s()) {
            one_s()
        } else {
            s.bar_alpha
        }
    } else if zero_s::<S>().less(s.bar_alpha) {
        let step = if zero_s::<S>().less(s.style.fade_seconds) {
            dt.quot(s.style.fade_seconds)
        } else {
            one_s()
        };
        let next = s.bar_alpha.diff(step).hi(zero_s());
        if next.eqv(s.bar_alpha) {
            s.bar_alpha
        } else {
            next
        }
    } else {
        s.bar_alpha
    }
}

/// Whether the fade changes the bar.
pub open spec fn fade_moves<S: Scalar>(s: ScrollState<S>, dt: S) -> bool {
    if bar_held(s) {
        s.bar_alpha.less(one_s())
    } else if zero_s::<S>().less(s.bar_alpha) {
        let step = if zero_s::<S>().less(s.style.fade_seconds) {
            dt.quot(s.style.fade_seconds)
        } else {
            one_s()
        };
        !s.bar_alpha.diff(step).hi(zero_s()).eqv(s.bar_alpha)
    } else {
        false
    }
}

/// One node's scroll state after `dt` seconds.
pub open spec fn ticked<S: Scalar>(s: ScrollState<S>, dt: S) -> ScrollState<S> {
    let m = sprung(s, dt);
    ScrollState { bar_alpha: faded(m, dt), ..m }
}

/// Whether that step shows.
pub open spec fn tick_shows<S: Scalar>(s: ScrollState<S>, dt: S) -> bool {
    spring_moves(s, dt) || fade_moves(sprung(s, dt), dt)
}

fn approach<S: Scalar>(current: S, target: S, alpha: S) -> (r: S)
    ensures
        r == approached(current, target, alpha),
{
    let next: S = current.plus(target.minus(current).times(alpha));
    if abs(target.minus(next)).lt(S::ratio(1, 2)) {
        target
    } else {
        next
    }
}

/// Advance one node's state. Also says whether the step shows.
pub fn tick_state<S: Scalar>(s: ScrollState<S>, dt: S) -> (r: (ScrollState<S>, bool))
    ensures
        r == (ticked(s, dt), tick_shows(s, dt)),
{
    let mut st: ScrollState<S> = s;
    let mut moved: bool = false;
    if !same2(s.current, s.target) {
        let alpha: S = one::<S>().minus(zero::<S>().minus(s.stiffness).times(dt).exp());
        let next: [S; 2] = [
            approach(s.current[0], s.target[0], alpha),
            approach(s.current[1], s.target[1], alpha),
        ];
        if !same2(next, s.current) {
            st.current = next;
            moved = true;
        }
        if !s.style.auto_hide {
            st.bar_alpha = one();
        }
    }
    assert(st == sprung(s, dt));
    let hold: bool = st.style.always_visible || st.bar_hover[0] || st.bar_hover[1]
        || st.bar_active[0] || st.bar_active[1] || (!same2(st.current, st.target)
        && !st.style.auto_hide);
    let mut bar_changed: bool = false;
    if hold {
        if st.bar_alpha.lt(one()) {
            st.bar_alpha = one();
            bar_changed = true;
        }
    } else if zero::<S>().lt(st.bar_alpha) {
        let step: S = if zero::<S>().lt(st.style.fade_seconds) {
            dt.over(st.style.fade_seconds)
        } else {
            one()
        };
        let new_alpha: S = st.bar_alpha.minus(step).larger(zero());
        if !new_alpha.same(st.bar_alpha) {
            st.bar_alpha = new_alpha;
            bar_changed = true;
        }
    }
    (st, moved || bar_changed)
}

/// The tree after the first `k` of `ids` are advanced, in order.
pub open spec fn ticked_tree<S: Scalar>(
    t: TreeView<S>,
    ids: Seq<NodeId>,
    dt: S,
    k: nat,
) -> TreeView<S>
    decreases k,
{
    if k == 0 {
        t
    } else {
        let u = ticked_tree(t, ids, dt, (k - 1) as nat);
        let id = ids[k - 1];
        match u.node(id) {
            Some(n) => match n.scroll {
                Some(s) => u.with_node(id, Node { scroll: Some(ticked(s, dt)), ..n }),
                None => u,
            },
            None => u,
        }
    }
}

/// Whether any of the first `k` steps shows.
pub open spec fn tree_tick_shows<S: Scalar>(
    t: TreeView<S>,
    ids: Seq<NodeId>,
    dt: S,
    k: nat,
) -> bool
    decreases k,
{
    if k == 0 {
        false
    } else {
        let u = ticked_tree(t, ids, dt, (k - 1) as nat);
        let id = ids[k - 1];
        tree_tick_shows(t, ids, dt, (k - 1) as nat) || (u.node(id) matches Some(n)
            && n.scroll matches Some(s) && tick_shows(s, dt))
    }
}

/// Whether a node needs another tick.
pub open spec fn restless<S: Scalar>(n: Option<Node<S>>) -> bool {
    n matches Some(m) && m.scroll matches Some(s) && (chasing(s) || bar_held(s) || zero_s::<
        S,
    >().less(s.bar_alpha))
}

// --- the tree's operations -------------------------------------------------

impl<S: Scalar> TreeView<S> {
    /// The tree after a scrollbar style is set. A node without a scroll state
    /// is given one, so that a style can be chosen before the node scrolls.
    pub open spec fn restyled(self, id: NodeId, style: ScrollbarStyle<S>) -> TreeView<S> {
        match self.node(id) {
            Some(n) => {
                let t = self.with_node(
                    id,
                    Node { scroll: Some(ScrollState { style, ..state_or_rest(n.scroll) }), ..n },
                );
                if n.scroll is None && n.layout.is_scroll() && !self.scrollable.contains(id) {
                    TreeView { scrollable: self.scrollable.push(id), ..t }
                } else {
                    t
                }
            },
            None => self,
        }
    }

    /// The tree after overflow is set. The node has a scroll state, and is
    /// listed as scrollable, exactly when an axis scrolls.
    pub open spec fn overflowed(self, id: NodeId, ox: Overflow, oy: Overflow) -> TreeView<S> {
        match self.node(id) {
            Some(n) => if n.layout.overflow_x == ox && n.layout.overflow_y == oy {
                self
            } else {
                let scrolls = ox.is_scroll() || oy.is_scroll();
                let t = self.edited(
                    id,
                    Node {
                        layout: LayoutStyle { overflow_x: ox, overflow_y: oy, ..n.layout },
                        scroll: if scrolls {
                            Some(state_or_rest(n.scroll))
                        } else {
                            None
                        },
                        ..n
                    },
                    self.transform_flags(),
                );
                if scrolls && !self.scrollable.contains(id) {
                    TreeView { scrollable: self.scrollable.push(id), ..t }
                } else if !scrolls && n.scroll is Some {
                    TreeView { scrollable: without(self.scrollable, id), ..t }
                } else {
                    t
                }
            },
            None => self,
        }
    }

    /// The tree after a node's scroll state becomes `s`.
    pub open spec fn scrolled(self, id: NodeId, s: ScrollState<S>) -> TreeView<S> {
        match self.node(id) {
            Some(n) => self.with_node(id, Node { scroll: Some(s), ..n }),
            None => self,
        }
    }

    /// The tree after a node's offset is sent toward `target`. Nothing changes
    /// if it is on its way there already.
    pub open spec fn sent_to(self, id: NodeId, target: [S; 2]) -> TreeView<S> {
        match (self.node(id), self.scroll_of(id)) {
            (Some(n), Some(s)) => if eqv2(s.target, aimed(n, s, target)) {
                self
            } else {
                self.scrolled(id, retargeted(s, aimed(n, s, target))).flag(self.scroll_flags())
            },
            _ => self,
        }
    }

    /// The scroll state of a node, if it has one.
    pub open spec fn scroll_of(self, id: NodeId) -> Option<ScrollState<S>> {
        match self.node(id) {
            Some(n) => n.scroll,
            None => None,
        }
    }
}

impl<S: Scalar> NodeTree<S> {
    /// Set what happens to content that exceeds the node, by axis.
    pub fn set_layout_overflow(&mut self, id: NodeId, ox: Overflow, oy: Overflow)
        ensures
            final(self)@ == old(self)@.overflowed(id, ox, oy),
    {
        let mask: u32 = self.transform_mask();
        let needs_scroll: bool = ox.scrolls() || oy.scrolls();
        let mut cleared: bool = false;
        match self.get_mut_raw(id) {
            None => {
                return ;
            },
            Some(n) => {
                if n.layout.overflow_x == ox && n.layout.overflow_y == oy {
                    return ;
                }
                n.layout.overflow_x = ox;
                n.layout.overflow_y = oy;
                if needs_scroll {
                    if n.scroll.is_none() {
                        n.scroll = Some(ScrollState::default());
                    }
                } else if n.scroll.is_some() {
                    n.scroll = None;
                    cleared = true;
                }
            },
        }
        self.raise(mask);
        if needs_scroll {
            self.list_scrollable(id);
        } else if cleared {
            self.unlist_scrollable(id);
        }
    }

    /// Advance every scroll container by `dt` seconds. Returns whether
    /// anything moved or faded; if so the tree is dirty.
    pub fn tick_scrolls(&mut self, dt: S) -> (r: bool)
        ensures
            ({
                let ids = old(self)@.scrollable;
                if ids.len() == 0 || dt.leq(zero_s()) {
                    !r && final(self)@ == old(self)@
                } else {
                    let u = ticked_tree(old(self)@, ids, dt, ids.len());
                    &&& r == tree_tick_shows(old(self)@, ids, dt, ids.len())
                    &&& final(self)@ == if r {
                        u.flag(u.scroll_flags())
                    } else {
                        u
                    }
                }
            }),
    {
        if self.scrollables().len() == 0 || dt.le(zero()) {
            return false;
        }
        let mut shown: bool = false;
        let mut i: usize = 0;
        let count: usize = self.scrollables().len();
        while i < count
            invariant
                i <= count,
                count == old(self)@.scrollable.len(),
                self@.scrollable == old(self)@.scrollable,
                self@ == ticked_tree(old(self)@, old(self)@.scrollable, dt, i as nat),
                shown == tree_tick_shows(old(self)@, old(self)@.scrollable, dt, i as nat),
            decreases count - i,
        {
            let id: NodeId = self.scrollables()[i];
            if let Some(n) = self.get_mut_raw(id) {
                if let Some(s) = n.scroll {
                    let (next, shows) = tick_state(s, dt);
                    n.scroll = Some(next);
                    if shows {
                        shown = true;
                    }
                }
            }
            i = i + 1;
        }
        if shown {
            let mask: u32 = self.scroll_mask();
            self.raise(mask);
        }
        shown
    }

    /// Whether some scroll container still moves, fades or shows its bar.
    pub fn has_active_scrolls(&self) -> (r: bool)
        ensures
            r == exists|i: int|
                0 <= i < self@.scrollable.len() && restless(
                    self@.node(#[trigger] self@.scrollable[i]),
                ),
    {
        let ids: &Vec<NodeId> = self.scrollables();
        let mut i: usize = 0;
        while i < ids.len()
            invariant
                i <= ids.len(),
                ids@ == self@.scrollable,
                forall|j: int| 0 <= j < i ==> !restless(self@.node(#[trigger] ids@[j])),
            decreases ids.len() - i,
        {
            if let Some(n) = self.get(ids[i]) {
                if let Some(s) = n.scroll {
                    if !same2(s.current, s.target) || zero::<S>().lt(s.bar_alpha)
                        || s.style.always_visible || s.bar_hover[0] || s.bar_hover[1]
                        || s.bar_active[0] || s.bar_active[1] {
                        assert(restless(self@.node(self@.scrollable[i as int])));
                        return true;
                    }
                }
            }
            i = i + 1;
        }
        false
    }

    /// Send the offset toward `target`. Axes that do not scroll keep theirs;
    /// without overscroll the target is held to the content.
    pub fn set_scroll_target(&mut self, id: NodeId, target: [S; 2])
        ensures
            final(self)@ == old(self)@.sent_to(id, target),
    {
        let mask: u32 = self.scroll_mask();
        if let Some(n) = self.get_mut_raw(id) {
            if let Some(s) = n.scroll {
                let want: [S; 2] = [
                    if n.layout.overflow_x.scrolls() {
                        target[0]
                    } else {
                        s.target[0]
                    },
                    if n.layout.overflow_y.scrolls() {
                        target[1]
                    } else {
                        s.target[1]
                    },
                ];
                let new_target: [S; 2] = hold_to_content(n, &s, want);
                if !same2(s.target, new_target) {
                    n.scroll = Some(retarget(s, new_target));
                    self.raise(mask);
                }
            }
        }
    }

    /// Push the target by `delta`. Returns what was applied: less than asked
    /// at the ends of the content, nothing on an axis that does not scroll.
    pub fn add_scroll_delta(&mut self, id: NodeId, delta: [S; 2]) -> (r: [S; 2])
        ensures
            match (old(self)@.node(id), old(self)@.scroll_of(id)) {
                (Some(n), Some(s)) => {
                    let t = pushed(n, s, delta);
                    &&& r == [t[0].diff(s.target[0]), t[1].diff(s.target[1])]
                    &&& final(self)@ == if eqv2(r, pair(zero_s())) {
                        old(self)@
                    } else {
                        old(self)@.scrolled(id, retargeted(s, t)).flag(old(self)@.scroll_flags())
                    }
                },
                _ => r == pair(zero_s::<S>()) && final(self)@ == old(self)@,
            },
    {
        let mask: u32 = self.scroll_mask();
        if let Some(n) = self.get_mut_raw(id) {
            if let Some(s) = n.scroll {
                let want: [S; 2] = [
                    s.target[0].plus(
                        if n.layout.overflow_x.scrolls() {
                            delta[0]
                        } else {
                            zero()
                        },
                    ),
                    s.target[1].plus(
                        if n.layout.overflow_y.scrolls() {
                            delta[1]
                        } else {
                            zero()
                        },
                    ),
                ];
                let new_target: [S; 2] = hold_to_content(n, &s, want);
                let applied: [S; 2] = [
                    new_target[0].minus(s.target[0]),
                    new_target[1].minus(s.target[1]),
                ];
                if !same2(applied, splat2(zero())) {
                    n.scroll = Some(retarget(s, new_target));
                    self.raise(mask);
                }
                return applied;
            }
        }
        splat2(zero())
    }

    /// The painted offset; the origin for a node that does not scroll.
    pub fn scroll_offset(&self, id: NodeId) -> (r: [S; 2])
        ensures
            r == (match self@.scroll_of(id) {
                Some(s) => s.current,
                None => pair(zero_s()),
            }),
    {
        if let Some(n) = self.get(id) {
            if let Some(s) = n.scroll {
                return s.current;
            }
        }
        splat2(zero())
    }

    /// The extent of the node's children; a node without children is as large
    /// as its own rect.
    pub fn scrollable_size(&self, id: NodeId) -> (r: [S; 2])
        ensures
            r == (match self@.node(id) {
                Some(n) => if n.children@.len() == 0 {
                    [n.rect[2], n.rect[3]]
                } else {
                    n.content_size
                },
                None => pair(zero_s()),
            }),
    {
        match self.get(id) {
            Some(n) => if n.children.len() == 0 {
                [n.rect[2], n.rect[3]]
            } else {
                n.content_size
            },
            None => splat2(zero()),
        }
    }

    /// Set the ease rate, never negative; nothing on a node that does not
    /// scroll.
    pub fn set_scroll_stiffness(&mut self, id: NodeId, k: S)
        ensures
            final(self)@ == (match old(self)@.scroll_of(id) {
                Some(s) => old(self)@.scrolled(
                    id,
                    ScrollState { stiffness: k.hi(zero_s()), ..s },
                ),
                None => old(self)@,
            }),
    {
        if let Some(n) = self.get_mut_raw(id) {
            if let Some(s) = n.scroll {
                n.scroll = Some(ScrollState { stiffness: k.larger(zero()), ..s });
            }
        }
    }

    /// Allow or forbid scrolling past the content; nothing on a node that does
    /// not scroll.
    pub fn set_scroll_overscroll(&mut self, id: NodeId, on: bool)
        ensures
            final(self)@ == (match old(self)@.scroll_of(id) {
                Some(s) => old(self)@.scrolled(id, ScrollState { overscroll: on, ..s }),
                None => old(self)@,
            }),
    {
        if let Some(n) = self.get_mut_raw(id) {
            if let Some(s) = n.scroll {
                n.scroll = Some(ScrollState { overscroll: on, ..s });
            }
        }
    }

    /// Replace the look of the node's scrollbars.
    pub fn set_scrollbar_style(&mut self, id: NodeId, style: ScrollbarStyle<S>)
        ensures
            final(self)@ == old(self)@.restyled(id, style),
    {
        let mut list: bool = false;
        if let Some(n) = self.get_mut_raw(id) {
            list = n.scroll.is_none() && n.layout.scrolls();
            n.scroll = Some(ScrollState { style, ..state_or_default(n.scroll) });
        }
        if list {
            self.list_scrollable(id);
        }
    }

    /// Adjust the look of the node's scrollbars.
    pub fn with_scrollbar_style<F: FnOnce(ScrollbarStyle<S>) -> ScrollbarStyle<S>>(
        &mut self,
        id: NodeId,
        f: F,
    )
        requires
            old(self)@.node(id) matches Some(n) ==> f.requires((state_or_rest(n.scroll).style,)),
        ensures
            match old(self)@.node(id) {
                Some(n) => exists|style: ScrollbarStyle<S>|
                    f.ensures((state_or_rest(n.scroll).style,), style) && final(self)@
                        == #[trigger] old(self)@.restyled(id, style),
                None => final(self)@ == old(self)@,
            },
    {
        let current: ScrollbarStyle<S> = match self.get(id) {
            Some(n) => state_or_default(n.scroll).style,
            None => {
                return ;
            },
        };
        let style: ScrollbarStyle<S> = f(current);
        self.set_scrollbar_style(id, style);
    }

    /// Tell the node which of its bars the pointer is over. Hovering shows the
    /// bar at once. Returns whether anything changed.
    pub fn set_bar_hover(&mut self, id: NodeId, hover: [bool; 2]) -> (r: bool)
        ensures
            match old(self)@.scroll_of(id) {
                Some(s) => {
                    &&& r == !(s.bar_hover[0] == hover[0] && s.bar_hover[1] == hover[1])
                    &&& final(self)@ == if r {
                        old(self)@.scrolled(
                            id,
                            ScrollState {
                                bar_hover: hover,
                                bar_alpha: if hover[0] || hover[1] {
                                    one_s()
                                } else {
                                    s.bar_alpha
                                },
                                ..s
                            },
                        ).flag(dirty::SCROLL)
                    } else {
                        old(self)@
                    }
                },
                None => !r && final(self)@ == old(self)@,
            },
    {
        if let Some(n) = self.get_mut_raw(id) {
            if let Some(s) = n.scroll {
                if s.bar_hover[0] != hover[0] || s.bar_hover[1] != hover[1] {
                    let mut next: ScrollState<S> = s;
                    next.bar_hover = hover;
                    if hover[0] || hover[1] {
                        next.bar_alpha = one();
                    }
                    n.scroll = Some(next);
                    self.raise(dirty::SCROLL);
                    return true;
                }
            }
        }
        false
    }

    /// Tell the node which of its thumbs is held. Holding shows the bar at
    /// once. Returns whether anything changed.
    pub fn set_bar_active(&mut self, id: NodeId, active: [bool; 2]) -> (r: bool)
        ensures
            match old(self)@.scroll_of(id) {
                Some(s) => {
                    &&& r == !(s.bar_active[0] == active[0] && s.bar_active[1] == active[1])
                    &&& final(self)@ == if r {
                        old(self)@.scrolled(
                            id,
                            ScrollState {
                                bar_active: active,
                                bar_alpha: if active[0] || active[1] {
                                    one_s()
                                } else {
                                    s.bar_alpha
                                },
                                ..s
                            },
                        ).flag(dirty::SCROLL)
                    } else {
                        old(self)@
                    }
                },
                None => !r && final(self)@ == old(self)@,
            },
    {
        if let Some(n) = self.get_mut_raw(id) {
            if let Some(s) = n.scroll {
                if s.bar_active[0] != active[0] || s.bar_active[1] != active[1] {
                    let mut next: ScrollState<S> = s;
                    next.bar_active = active;
                    if active[0] || active[1] {
                        next.bar_alpha = one();
                    }
                    n.scroll = Some(next);
                    self.raise(dirty::SCROLL);
                    return true;
                }
            }
        }
        false
    }

    /// Move the offset of one axis to `pos` at once, spring and all. For
    /// dragging a thumb, where easing would only lag behind the pointer.
    pub fn set_scroll_immediate(&mut self, id: NodeId, axis: ScrollAxis, pos: S)
        ensures
            final(self)@ == (match (old(self)@.node(id), old(self)@.scroll_of(id)) {
                (Some(n), Some(s)) => if lands_still(n, s, axis, pos) {
                    old(self)@
                } else {
                    old(self)@.scrolled(id, landed(n, s, axis, pos)).flag(
                        old(self)@.scroll_flags(),
                    )
                },
                _ => old(self)@,
            }),
    {
        let mask: u32 = self.scroll_mask();
        if let Some(n) = self.get_mut_raw(id) {
            if let Some(s) = n.scroll {
                let i: usize = axis.index();
                let new_pos: S = if s.overscroll {
                    pos
                } else {
                    clamp(pos, zero(), budget_of(n, i))
                };
                let eps: S = S::ratio(1, 8_388_608);
                if eps.lt(abs(s.current[i].minus(new_pos))) || eps.lt(
                    abs(s.target[i].minus(new_pos)),
                ) {
                    let mut next: ScrollState<S> = s;
                    match axis {
                        ScrollAxis::X => {
                            next.current = [new_pos, s.current[1]];
                            next.target = [new_pos, s.target[1]];
                        },
                        ScrollAxis::Y => {
                            next.current = [s.current[0], new_pos];
                            next.target = [s.target[0], new_pos];
                        },
                    }
                    next.bar_alpha = one();
                    n.scroll = Some(next);
                    self.raise(mask);
                }
            }
        }
    }
}

/// Where a drag to `pos` lands.
pub open spec fn landing<S: Scalar>(n: Node<S>, s: ScrollState<S>, axis: ScrollAxis, pos: S) -> S {
    if s.overscroll {
        pos
    } else {
        clamped(pos, zero_s(), budget(n, axis.position()))
    }
}

/// Whether the offset and its target are there already.
pub open spec fn lands_still<S: Scalar>(
    n: Node<S>,
    s: ScrollState<S>,
    axis: ScrollAxis,
    pos: S,
) -> bool {
    let at = landing(n, s, axis, pos);
    let eps = S::rat(1, 8_388_608);
    !eps.less(magnitude(s.current[axis.position()].diff(at))) && !eps.less(
        magnitude(s.target[axis.position()].diff(at)),
    )
}

/// The state after a drag to `pos`.
pub open spec fn landed<S: Scalar>(
    n: Node<S>,
    s: ScrollState<S>,
    axis: ScrollAxis,
    pos: S,
) -> ScrollState<S> {
    let at = landing(n, s, axis, pos);
    ScrollState {
        current: on_axis(s.current, axis, at),
        target: on_axis(s.target, axis, at),
        bar_alpha: one_s(),
        ..s
    }
}

} // verus!
