//! What holds of scrolling.
use vstd::prelude::*;

use crate::node::{id_is_slot_and_issue, id_parts, Node, NodeId, ScrollAxis, ScrollState};
use crate::order::{
    clamp_stays_within, compares, larger_is_least_upper_bound, number, ordered_numbers,
};
use crate::scalar::{
    clamped, eqv2, one_s, pair, saturated, squared, zero_s, Fixed, Scalar,
};
use crate::tree::TreeView;
use crate::scroll::{
    aimed, approached, approached2, ease_fraction, bar_held, budget, chasing, held_to_content, landed, pushed, retargeted, sprung,
    tick_shows, ticked,
};

verus! {

broadcast use {id_is_slot_and_issue, id_parts};

/// Whether a node's rect and content have an extent to scroll over, on both
/// axes.
pub open spec fn measured<S: Scalar>(n: Node<S>) -> bool {
    &&& number(n.content_size[0].diff(n.rect[2]))
    &&& number(n.content_size[1].diff(n.rect[3]))
}

proof fn lemma_zero<S: Scalar>()
    requires
        ordered_numbers::<S>(),
    ensures
        number(zero_s::<S>()),
        number(one_s::<S>()),
{
    assert(compares(zero_s::<S>(), one_s()));
}

proof fn lemma_budget<S: Scalar>(n: Node<S>, axis: int)
    requires
        ordered_numbers::<S>(),
        measured(n),
        axis == 0 || axis == 1,
    ensures
        zero_s::<S>().leq(budget(n, axis)),
{
    lemma_zero::<S>();
    larger_is_least_upper_bound(n.content_size[axis].diff(n.rect[2 + axis]), zero_s(), zero_s());
}

/// Without overscroll a target never leaves the content.
pub proof fn targets_stay_in_content<S: Scalar>(n: Node<S>, s: ScrollState<S>, want: [S; 2])
    requires
        ordered_numbers::<S>(),
        measured(n),
        number(want[0]),
        number(want[1]),
        !s.overscroll,
    ensures
        ({
            let t = held_to_content(n, s, want);
            &&& zero_s::<S>().leq(t[0]) && t[0].leq(budget(n, 0))
            &&& zero_s::<S>().leq(t[1]) && t[1].leq(budget(n, 1))
        }),
{
    lemma_budget(n, 0);
    lemma_budget(n, 1);
    clamp_stays_within(want[0], zero_s(), budget(n, 0));
    clamp_stays_within(want[1], zero_s(), budget(n, 1));
}

/// Sending a container's offset somewhere sets the target on the axes that
/// scroll, held to the content unless overscroll is on; an axis that does not
/// scroll keeps a target that lies in the content. The offset itself, the
/// node's rect and its content stay as they are. Sending it there again
/// changes nothing, flags included.
pub proof fn aiming_sets_the_target_once<S: Scalar>(
    t: TreeView<S>,
    id: NodeId,
    n: Node<S>,
    s: ScrollState<S>,
    target: [S; 2],
)
    requires
        ordered_numbers::<S>(),
        t.node(id) == Some(n),
        n.scroll == Some(s),
        measured(n),
        number(target[0]),
        number(target[1]),
        zero_s::<S>().leq(s.target[0]) && s.target[0].leq(budget(n, 0)),
        zero_s::<S>().leq(s.target[1]) && s.target[1].leq(budget(n, 1)),
    ensures
        ({
            let u = t.sent_to(id, target);
            let m = u.node(id)->Some_0;
            let r = m.scroll->Some_0;
            &&& u.node(id) is Some
            &&& m.scroll is Some
            &&& r.target[0].eqv(wanted(n, s, target, 0))
            &&& r.target[1].eqv(wanted(n, s, target, 1))
            &&& r.current == s.current
            &&& m.rect == n.rect
            &&& m.content_size == n.content_size
            &&& u.sent_to(id, target) == u
        }),
{
    let a = aimed(n, s, target);
    lemma_wanted(n, s, target, 0);
    lemma_wanted(n, s, target, 1);
    assert(compares(s.target[0], a[0]) && compares(s.target[1], a[1]));
    let u = t.sent_to(id, target);
    if !eqv2(s.target, a) {
        let r = retargeted(s, a);
        let m = Node { scroll: Some(r), ..n };
        assert(u.node(id) == Some(m));
        lemma_budget(n, 0);
        lemma_budget(n, 1);
        assert(budget(m, 0) == budget(n, 0) && budget(m, 1) == budget(n, 1));
        assert(aimed(m, r, target)[0] == a[0]);
        assert(aimed(m, r, target)[1] == a[1]);
    }
}

/// The target an axis is to have.
pub open spec fn wanted<S: Scalar>(
    n: Node<S>,
    s: ScrollState<S>,
    target: [S; 2],
    axis: int,
) -> S {
    let scrolls = if axis == 0 {
        n.layout.overflow_x.is_scroll()
    } else {
        n.layout.overflow_y.is_scroll()
    };
    if !scrolls {
        s.target[axis]
    } else if s.overscroll {
        target[axis]
    } else {
        clamped(target[axis], zero_s(), budget(n, axis))
    }
}

proof fn lemma_wanted<S: Scalar>(n: Node<S>, s: ScrollState<S>, target: [S; 2], axis: int)
    requires
        ordered_numbers::<S>(),
        measured(n),
        axis == 0 || axis == 1,
        number(target[axis]),
        zero_s::<S>().leq(s.target[axis]) && s.target[axis].leq(budget(n, axis)),
    ensures
        aimed(n, s, target)[axis] == wanted(n, s, target, axis),
        number(wanted(n, s, target, axis)),
        !s.overscroll ==> clamped(wanted(n, s, target, axis), zero_s(), budget(n, axis)) == wanted(
            n,
            s,
            target,
            axis,
        ),
{
    lemma_budget(n, axis);
    assert(compares(zero_s(), s.target[axis]));
    clamp_stays_within(target[axis], zero_s(), budget(n, axis));
    clamp_stays_within(s.target[axis], zero_s(), budget(n, axis));
}

/// A dragged thumb never leaves the content either, and leaves the spring at
/// rest on its axis.
pub proof fn drag_rests_in_content<S: Scalar>(
    n: Node<S>,
    s: ScrollState<S>,
    axis: ScrollAxis,
    pos: S,
)
    requires
        ordered_numbers::<S>(),
        measured(n),
        number(pos),
    ensures
        ({
            let d = landed(n, s, axis, pos);
            let i = axis.position();
            &&& d.current[i] == d.target[i]
            &&& d.current[1 - i] == s.current[1 - i]
            &&& d.target[1 - i] == s.target[1 - i]
            &&& !s.overscroll ==> zero_s::<S>().leq(d.current[i]) && d.current[i].leq(budget(n, i))
        }),
{
    lemma_budget(n, axis.position());
    clamp_stays_within(pos, zero_s(), budget(n, axis.position()));
}

/// An axis that does not scroll ignores the wheel: its target, already in
/// range, stays, whatever the delta.
pub proof fn still_axis_ignores_wheel(n: Node<Fixed>, s: ScrollState<Fixed>, delta: [Fixed; 2])
    requires
        0 <= s.target[0].raw <= budget(n, 0).raw,
        0 <= s.target[1].raw <= budget(n, 1).raw,
    ensures
        !n.layout.overflow_x.is_scroll() ==> pushed(n, s, delta)[0] == s.target[0],
        !n.layout.overflow_y.is_scroll() ==> pushed(n, s, delta)[1] == s.target[1],
        s.target[0].diff(s.target[0]) == zero_s::<Fixed>(),
        s.target[1].diff(s.target[1]) == zero_s::<Fixed>(),
{
}

/// At the end of the content, pushing further applies nothing, so the wheel
/// can be passed on to a container further out.
pub proof fn edge_push_applies_nothing(n: Node<Fixed>, s: ScrollState<Fixed>, delta: [Fixed; 2])
    requires
        !s.overscroll,
        s.target[0] == budget(n, 0),
        s.target[1] == budget(n, 1),
        delta[0].raw >= 0,
        delta[1].raw >= 0,
    ensures
        ({
            let t = pushed(n, s, delta);
            let applied = [t[0].diff(s.target[0]), t[1].diff(s.target[1])];
            &&& t[0] == s.target[0] && t[1] == s.target[1]
            &&& eqv2(applied, pair(zero_s::<Fixed>()))
        }),
{
}

/// A push within the content applies in full.
pub proof fn inner_push_applies_fully(n: Node<Fixed>, s: ScrollState<Fixed>, delta: [Fixed; 2])
    requires
        n.layout.overflow_x.is_scroll(),
        n.layout.overflow_y.is_scroll(),
        0 <= s.target[0].raw + delta[0].raw <= budget(n, 0).raw,
        0 <= s.target[1].raw + delta[1].raw <= budget(n, 1).raw,
    ensures
        ({
            let t = pushed(n, s, delta);
            &&& t[0].raw == s.target[0].raw + delta[0].raw
            &&& t[1].raw == s.target[1].raw + delta[1].raw
            &&& t[0].diff(s.target[0]) == delta[0]
            &&& t[1].diff(s.target[1]) == delta[1]
        }),
{
}

/// Moving the target pops the bar up, unless it hides itself.
pub proof fn movement_shows_the_bar<S: Scalar>(s: ScrollState<S>, target: [S; 2])
    ensures
        !s.style.auto_hide ==> retargeted(s, target).bar_alpha == one_s::<S>(),
        s.style.auto_hide ==> retargeted(s, target).bar_alpha == s.bar_alpha,
        retargeted(s, target).current == s.current,
{
}

/// Once everything is at rest and faded, ticks change nothing: an idle scene
/// costs nothing.
pub proof fn rest_is_final<S: Scalar>(s: ScrollState<S>, dt: S)
    requires
        !chasing(s),
        !bar_held(s),
        !zero_s::<S>().less(s.bar_alpha),
    ensures
        ticked(s, dt) == s,
        !tick_shows(s, dt),
{
}

/// A bar that hides itself stays out of sight, however far the offset moves,
/// until the pointer comes to it.
pub proof fn hiding_bars_stay_down<S: Scalar>(s: ScrollState<S>, dt: S)
    requires
        s.style.auto_hide,
        !s.style.always_visible,
        !s.hovered(),
        !s.held(),
        !zero_s::<S>().less(s.bar_alpha),
    ensures
        ticked(s, dt).bar_alpha == s.bar_alpha,
        forall|target: [S; 2]| #[trigger] retargeted(s, target).bar_alpha == s.bar_alpha,
{
}

/// A tick never moves the target.
pub proof fn ticks_keep_the_target<S: Scalar>(s: ScrollState<S>, dt: S)
    ensures
        ticked(s, dt).target == s.target,
        ticked(s, dt).style == s.style,
        ticked(s, dt).stiffness == s.stiffness,
{
}

/// A bar that is always visible, hovered or held is fully visible after a
/// tick.
pub proof fn held_bars_stay_up<S: Scalar>(s: ScrollState<S>, dt: S)
    requires
        ordered_numbers::<S>(),
        number(s.bar_alpha),
        s.style.always_visible || s.hovered() || s.held(),
    ensures
        one_s::<S>().leq(ticked(s, dt).bar_alpha),
        s.bar_alpha.leq(one_s()) ==> ticked(s, dt).bar_alpha.eqv(one_s::<S>()),
{
    let m = sprung(s, dt);
    assert(bar_held(m));
    let a = ticked(s, dt).bar_alpha;
    lemma_zero::<S>();
    assert(compares(one_s::<S>(), a) && compares(a, one_s()));
    assert(compares(m.bar_alpha, one_s()) && compares(one_s(), m.bar_alpha));
    assert(compares(s.bar_alpha, one_s()) && compares(one_s(), s.bar_alpha));
    assert(compares(one_s::<S>(), one_s()));
}

/// Where the spring comes within half a pixel it lands on the target.
pub proof fn spring_snaps<S: Scalar>(s: ScrollState<S>, dt: S)
    requires
        chasing(s),
        approached2(s, dt) == s.target,
        !eqv2(s.target, s.current),
    ensures
        ticked(s, dt).current == s.target,
        tick_shows(s, dt),
{
}

// --- the chase, in fixed point ---------------------------------------------

/// One coordinate on its way covers part of it: it ends up strictly nearer,
/// never past the target, and on the target once within half a pixel.
proof fn lemma_approach(current: Fixed, target: Fixed, alpha: Fixed)
    requires
        2 <= alpha.raw <= 65536,
        -Fixed::huge().raw <= current.raw <= Fixed::huge().raw,
        -Fixed::huge().raw <= target.raw <= Fixed::huge().raw,
    ensures
        ({
            let next = approached(current, target, alpha);
            &&& current.raw < target.raw ==> current.raw < next.raw <= target.raw
            &&& target.raw < current.raw ==> target.raw <= next.raw < current.raw
            &&& current == target ==> next == target
            &&& -32768 < target.raw - next.raw < 32768 ==> next == target
        }),
{
    let d = target.raw - current.raw;
    let step = (d * alpha.raw) / 65536;
    assert(Fixed::rat(1, 2).raw == 32768);
    assert(target.diff(current).raw == d);
    if d > 0 {
        assert(0 <= step <= d && (d >= 32768 ==> step >= 1)) by (nonlinear_arith)
            requires
                step == (d * alpha.raw) / 65536,
                d > 0,
                2 <= alpha.raw <= 65536,
        ;
    } else if d < 0 {
        assert(d <= step <= -1) by (nonlinear_arith)
            requires
                step == (d * alpha.raw) / 65536,
                d < 0,
                2 <= alpha.raw <= 65536,
        ;
    } else {
        assert(d * alpha.raw == 0) by (nonlinear_arith)
            requires
                d == 0,
        ;
    }
    assert(target.diff(current).prod(alpha).raw == step);
}

/// Each axis of a tick chases its own target. Where a share of the way is
/// covered, the offset ends up strictly nearer to the target of that axis,
/// between where it was and the target, and on the target once within half a
/// pixel. An axis that has arrived stays. What is on the other axis makes no
/// difference, and neither does the bar.
pub proof fn ticks_chase_each_axis(s: ScrollState<Fixed>, dt: Fixed, axis: int)
    requires
        axis == 0 || axis == 1,
        2 <= ease_fraction(s.stiffness, dt).raw <= 65536,
        -Fixed::huge().raw <= s.current[0].raw <= Fixed::huge().raw,
        -Fixed::huge().raw <= s.target[0].raw <= Fixed::huge().raw,
        -Fixed::huge().raw <= s.current[1].raw <= Fixed::huge().raw,
        -Fixed::huge().raw <= s.target[1].raw <= Fixed::huge().raw,
    ensures
        ({
            let was = s.current[axis].raw;
            let goal = s.target[axis].raw;
            let is = ticked(s, dt).current[axis].raw;
            &&& was < goal ==> was < is <= goal
            &&& goal < was ==> goal <= is < was
            &&& was == goal ==> is == goal
            &&& -32768 < goal - is < 32768 ==> is == goal
            &&& was != goal ==> tick_shows(s, dt)
        }),
{
    let alpha = ease_fraction(s.stiffness, dt);
    lemma_approach(s.current[0], s.target[0], alpha);
    lemma_approach(s.current[1], s.target[1], alpha);
}

/// A stiffer spring, or a longer tick, covers no less of the way; no time
/// covers none of it, and a very long tick all of it.
pub proof fn longer_ticks_go_further(current: Fixed, target: Fixed, some: Fixed, more: Fixed)
    requires
        0 <= some.raw <= more.raw <= 65536,
        -Fixed::huge().raw <= current.raw <= target.raw <= Fixed::huge().raw,
    ensures
        approached(current, target, some).raw <= approached(current, target, more).raw,
        approached(current, target, one_s()) == target,
        ease_fraction(zero_s::<Fixed>(), some) == zero_s::<Fixed>(),
        ease_fraction(some, zero_s::<Fixed>()) == zero_s::<Fixed>(),
        forall|k: Fixed, dt: Fixed|
            #![trigger ease_fraction(k, dt)]
            k.raw > 0 && dt.raw > 0 && (k.raw * dt.raw) / 65536 > 67108865 ==> ease_fraction(k, dt)
                == one_s::<Fixed>(),
{
    let d = target.raw - current.raw;
    assert(Fixed::rat(1, 2).raw == 32768);
    assert(zero_s::<Fixed>().raw == 0 && one_s::<Fixed>().raw == 65536);
    let a = (d * some.raw) / 65536;
    let b = (d * more.raw) / 65536;
    assert(0 <= a <= b <= d) by (nonlinear_arith)
        requires
            a == (d * some.raw) / 65536,
            b == (d * more.raw) / 65536,
            d >= 0,
            0 <= some.raw <= more.raw <= 65536,
    ;
    assert(target.diff(current).raw == d);
    assert(target.diff(current).prod(some).raw == a);
    assert(target.diff(current).prod(more).raw == b);
    assert(target.diff(current).prod(one_s()).raw == d);
    lemma_no_way(some);
    assert forall|k: Fixed, dt: Fixed|
        #![trigger ease_fraction(k, dt)]
        k.raw > 0 && dt.raw > 0 && (k.raw * dt.raw) / 65536 > 67108865 implies ease_fraction(k, dt)
        == one_s::<Fixed>() by {
        let n = zero_s::<Fixed>().diff(k);
        assert(n.raw == -k.raw);
        assert((n.raw * dt.raw) / 65536 < -67108864) by (nonlinear_arith)
            requires
                n.raw == -k.raw,
                (k.raw * dt.raw) / 65536 > 67108865,
        ;
        assert(n.prod(dt).raw < -67108864);
        assert(n.prod(dt).expo().raw == 0);
    }
}

proof fn lemma_no_way(x: Fixed)
    ensures
        ease_fraction(zero_s::<Fixed>(), x) == zero_s::<Fixed>(),
        ease_fraction(x, zero_s::<Fixed>()) == zero_s::<Fixed>(),
{
    assert(zero_s::<Fixed>().raw == 0 && one_s::<Fixed>().raw == 65536);
    let n = zero_s::<Fixed>().diff(x);
    let m = zero_s::<Fixed>().diff(zero_s());
    assert(n.raw * 0 == 0 && 0 * x.raw == 0) by (nonlinear_arith);
    assert(n.prod(zero_s()).raw == 0);
    assert(m.prod(x).raw == 0);
    rest_takes_no_time();
}

/// The exponential of zero is one.
pub proof fn rest_takes_no_time()
    ensures
        zero_s::<Fixed>().expo() == one_s::<Fixed>(),
{
    let o = Fixed { raw: 65536 };
    assert(one_s::<Fixed>() == o && zero_s::<Fixed>().raw == 0);
    assert(o.raw * o.raw == 4294967296) by (nonlinear_arith)
        requires
            o.raw == 65536,
    ;
    assert(squared(o, 10) == o) by {
        reveal_with_fuel(squared, 11);
    }
}

/// A bar that nothing holds only ever fades: it never brightens, never goes
/// below nothing, and is gone after the time its style gives it.
pub proof fn free_bars_fade(s: ScrollState<Fixed>, dt: Fixed)
    requires
        !chasing(s),
        !bar_held(s),
        0 <= s.bar_alpha.raw <= 65536,
        dt.raw >= 0,
    ensures
        0 <= ticked(s, dt).bar_alpha.raw <= s.bar_alpha.raw,
        dt.raw >= s.style.fade_seconds.raw ==> ticked(s, dt).bar_alpha.raw == 0,
        s.style.fade_seconds.raw > 0 && dt.raw == 0 ==> ticked(s, dt).bar_alpha == s.bar_alpha,
        // Half the time takes off half.
        s.style.fade_seconds.raw > 0 && 2 * dt.raw == s.style.fade_seconds.raw && s.bar_alpha.raw
            >= 32768 ==> ticked(s, dt).bar_alpha.raw == s.bar_alpha.raw - 32768,
{
    assert(zero_s::<Fixed>().raw == 0 && one_s::<Fixed>().raw == 65536);
    let f = s.style.fade_seconds.raw as int;
    if f > 0 {
        let q = (dt.raw * 65536) / f;
        assert(q >= 0 && (dt.raw >= f ==> q >= 65536) && (dt.raw == 0 ==> q == 0) && (2 * dt.raw == f
            ==> q == 32768)) by (nonlinear_arith)
            requires
                q == (dt.raw * 65536) / f,
                f > 0,
                dt.raw >= 0,
        ;
        assert(dt.quot(s.style.fade_seconds) == saturated(q));
    }
}

/// Pushing the target moves it the way of the push, on each axis by itself.
pub proof fn pushes_go_their_way(n: Node<Fixed>, s: ScrollState<Fixed>, delta: [Fixed; 2], axis: int)
    requires
        axis == 0 || axis == 1,
        0 <= s.target[axis].raw <= budget(n, axis).raw,
        n.content_size[axis].raw - n.rect[2 + axis].raw <= i64::MAX,
        !s.overscroll,
    ensures
        ({
            let scrolls = if axis == 0 {
                n.layout.overflow_x.is_scroll()
            } else {
                n.layout.overflow_y.is_scroll()
            };
            let t = pushed(n, s, delta)[axis].raw;
            let room = n.content_size[axis].raw - n.rect[2 + axis].raw;
            &&& !scrolls ==> t == s.target[axis].raw
            &&& delta[axis].raw >= 0 ==> t >= s.target[axis].raw
            &&& delta[axis].raw <= 0 ==> t <= s.target[axis].raw
            &&& 0 <= t <= if room > 0 {
                room
            } else {
                0
            }
            &&& scrolls && 0 <= s.target[axis].raw + delta[axis].raw <= room ==> t
                == s.target[axis].raw + delta[axis].raw
        }),
{
    assert(zero_s::<Fixed>().raw == 0);
    if axis == 0 {
        assert(pushed(n, s, delta)[0].raw >= 0);
    } else {
        assert(pushed(n, s, delta)[1].raw >= 0);
    }
}

} // verus!
