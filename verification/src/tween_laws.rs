//! What holds of values on their way: how a tween mixes its ends, and how it
//! runs on time.
use vstd::prelude::*;

use crate::anim::{bezier_at, bezier_slope, mixed, newton, since, Curve, Lerp, Tween};
use crate::anim_laws::curves_start_and_end;
use crate::scalar::{
    clamped, magnitude, one_s, seconds, zero_s, Fixed, Scalar,
};
use crate::signal::{Color, Number};
use crate::spring_laws::springs_start_at_rest;

verus! {

// --- mixing ----------------------------------------------------------------

/// Whether a number is far enough from the ends of the range that the way to
/// another such number is in range too.
pub open spec fn midrange(x: Fixed) -> bool {
    -0x4000_0000_0000_0000 < x.raw < 0x4000_0000_0000_0000
}

/// A mix has gone its share of the way, to the last place: nothing of it is
/// the start, all of it is the destination, and what lies between stays
/// between them.
pub proof fn mixing_goes_its_share(from: Fixed, to: Fixed, x: Fixed)
    requires
        midrange(from),
        midrange(to),
        0 <= x.raw <= 65536,
    ensures
        mixed(from, to, zero_s()) == from,
        mixed(from, to, one_s()) == to,
        from.raw <= to.raw ==> from.raw <= mixed(from, to, x).raw <= to.raw,
        to.raw <= from.raw ==> to.raw <= mixed(from, to, x).raw <= from.raw,
        0 <= (to.raw - from.raw) * x.raw - (mixed(from, to, x).raw - from.raw) * 65536 < 65536,
{
    let z = zero_s::<Fixed>();
    let o = one_s::<Fixed>();
    assert(z.raw == 0 && o.raw == 65536);
    let d = to.raw - from.raw;
    assert(to.diff(from).raw == d);
    let g = (d * x.raw) / 65536;
    assert(d >= 0 ==> 0 <= g <= d) by (nonlinear_arith)
        requires
            g == (d * x.raw) / 65536,
            0 <= x.raw <= 65536,
    ;
    assert(d <= 0 ==> d <= g <= 0) by (nonlinear_arith)
        requires
            g == (d * x.raw) / 65536,
            0 <= x.raw <= 65536,
    ;
    assert(0 <= d * x.raw - g * 65536 < 65536) by (nonlinear_arith)
        requires
            g == (d * x.raw) / 65536,
    ;
    assert(to.diff(from).prod(x).raw == g);
    assert(d * 0 == 0 && (d * 65536) / 65536 == d);
    assert(to.diff(from).prod(z).raw == 0);
    assert(to.diff(from).prod(o).raw == d);
}

/// The further along a mix is, the nearer it is to its destination.
pub proof fn mixing_never_turns_back(from: Fixed, to: Fixed, x: Fixed, y: Fixed)
    requires
        midrange(from),
        midrange(to),
        0 <= x.raw <= y.raw <= 65536,
    ensures
        from.raw <= to.raw ==> mixed(from, to, x).raw <= mixed(from, to, y).raw,
        to.raw <= from.raw ==> mixed(from, to, y).raw <= mixed(from, to, x).raw,
{
    mixing_goes_its_share(from, to, x);
    mixing_goes_its_share(from, to, y);
    let d = to.raw - from.raw;
    assert(d >= 0 ==> (d * x.raw) / 65536 <= (d * y.raw) / 65536) by (nonlinear_arith)
        requires
            x.raw <= y.raw,
    ;
    assert(d <= 0 ==> (d * y.raw) / 65536 <= (d * x.raw) / 65536) by (nonlinear_arith)
        requires
            x.raw <= y.raw,
    ;
}

/// A colour on its way is four numbers on their way, each from its own start
/// to its own destination.
pub proof fn colours_mix_by_channel<S: Scalar>(from: Color<S>, to: Color<S>, x: S, i: int)
    requires
        0 <= i < 4,
    ensures
        ({
            let a = Number { value: from.rgba[i] };
            let b = Number { value: to.rgba[i] };
            from.toward(to, x).rgba[i] == a.toward(b, x).value
        }),
{
}

// --- time ------------------------------------------------------------------

/// A tween goes by the time since its start: started later, it shows the same
/// things later by as much.
pub proof fn tweens_start_when_told<S: Scalar, V: Lerp<S>>(
    tw: Tween<S, V>,
    later: Tween<S, V>,
    now: u64,
    by: u64,
)
    requires
        tw.start + by <= u64::MAX,
        now + by <= u64::MAX,
        later == (Tween { start: (tw.start + by) as u64, ..tw }),
    ensures
        later.shown((now + by) as u64) == tw.shown(now),
        later.over_at((now + by) as u64) == tw.over_at(now),
{
}

/// Before its start, and at it, a tween that is no spring shows what it starts
/// from.
pub proof fn tweens_start_from_their_start(tw: Tween<Fixed, Number<Fixed>>, now: u64)
    requires
        !(tw.curve is Spring),
        now <= tw.start,
        midrange(tw.from.value),
        midrange(tw.to.value),
    ensures
        tw.shown(now) == tw.from,
        !tw.over_at(now),
{
    lemma_at_rest(tw.curve, tw.duration);
    mixing_goes_its_share(tw.from.value, tw.to.value, zero_s());
}

/// So does a tween of colours.
pub proof fn colour_tweens_start_from_their_start(tw: Tween<Fixed, Color<Fixed>>, now: u64)
    requires
        !(tw.curve is Spring),
        now <= tw.start,
        forall|i: int|
            0 <= i < 4 ==> midrange(#[trigger] tw.from.rgba[i]) && midrange(tw.to.rgba[i]),
    ensures
        tw.shown(now).rgba =~= tw.from.rgba,
        !tw.over_at(now),
{
    lemma_at_rest(tw.curve, tw.duration);
    assert forall|i: int| 0 <= i < 4 implies #[trigger] tw.shown(now).rgba[i] == tw.from.rgba[i] by {
        assert(midrange(tw.from.rgba[i]));
        mixing_goes_its_share(tw.from.rgba[i], tw.to.rgba[i], zero_s());
    }
}

/// A spring tween shows what it starts from too, but for a share of the way
/// in the last place.
pub proof fn spring_tweens_start_from_their_start(tw: Tween<Fixed, Number<Fixed>>, now: u64)
    requires
        tw.curve matches Curve::Spring { stiffness, damping } && 0 < stiffness.raw
            <= 0x100_0000_0000 && damping.raw <= 0x1_0000_0000,
        now <= tw.start,
        tw.duration > 0,
        midrange(tw.from.value),
        midrange(tw.to.value),
    ensures
        !tw.over_at(now),
        tw.from.value.raw <= tw.to.value.raw ==> tw.from.value.raw <= tw.shown(now).value.raw
            <= tw.from.value.raw + (tw.to.value.raw - tw.from.value.raw) / 65536,
        tw.to.value.raw <= tw.from.value.raw ==> tw.from.value.raw + (tw.to.value.raw
            - tw.from.value.raw) / 65536 <= tw.shown(now).value.raw <= tw.from.value.raw,
{
    if let Curve::Spring { stiffness, damping } = tw.curve {
        lemma_no_seconds();
        springs_start_at_rest(stiffness, damping);
        let x = spring_start(stiffness, damping);
        mixing_goes_its_share(tw.from.value, tw.to.value, x);
        assert(one_s::<Fixed>().raw == 65536);
        assert(Fixed::rat(1, 1000).raw == 65);
        let d = tw.to.value.raw - tw.from.value.raw;
        assert(d * 0 == 0 && d * 1 == d);
        assert(x.raw == 0 || x.raw == 1);
    }
}

spec fn spring_start(k: Fixed, c: Fixed) -> Fixed {
    crate::anim::spring(k, c, zero_s::<Fixed>()).0
}

proof fn lemma_no_seconds()
    ensures
        seconds::<Fixed>(0) == zero_s::<Fixed>(),
        zero_s::<Fixed>().raw == 0,
{
    assert(Fixed::cnt(0).raw == 0);
    assert(Fixed::rat(1_000_000_000, 1).raw == 65536_000_000_000);
    assert((0int * 65536) / 65536_000_000_000 == 0);
}

proof fn lemma_at_rest(c: Curve<Fixed>, duration: u64)
    requires
        !(c is Spring),
    ensures
        ({
            let share = seconds::<Fixed>(0).quot(
                seconds::<Fixed>(duration).hi(Fixed::rat(1, 1_000_000)),
            );
            &&& share == zero_s::<Fixed>()
            &&& !one_s::<Fixed>().leq(share)
            &&& c.eased(clamped(share, zero_s(), one_s())) == zero_s::<Fixed>()
        }),
{
    lemma_no_seconds();
    curves_start_and_end(c);
    let d = seconds::<Fixed>(duration).hi(Fixed::rat(1, 1_000_000));
    assert(one_s::<Fixed>().raw == 65536);
    if d.raw > 0 {
        assert((0int * 65536) / (d.raw as int) == 0) by (nonlinear_arith)
            requires
                d.raw > 0,
        ;
    } else if d.raw < 0 {
        assert((-0int * 65536) / (-d.raw) == 0) by (nonlinear_arith)
            requires
                d.raw < 0,
        ;
    }
}

/// Whole seconds count as such, and more time is more seconds.
pub proof fn seconds_count_up(n: u64, m: u64)
    requires
        n <= m,
    ensures
        seconds::<Fixed>(n).raw <= seconds::<Fixed>(m).raw,
        (seconds::<Fixed>(n).raw - 1) * 1_000_000_000 < n * 65536,
        n * 65536 < (seconds::<Fixed>(n).raw + 1) * 1_000_000_000,
{
    lemma_seconds_are(n);
    lemma_seconds_are(m);
    let a = (n / 1_000_000_000) as int;
    let b = (m / 1_000_000_000) as int;
    let r = (n % 1_000_000_000) as int;
    let s = (m % 1_000_000_000) as int;
    if a < b {
        assert((r * 65536) / 1_000_000_000 <= 65536);
    } else {
        assert(a == b && r <= s);
        assert((r * 65536) / 1_000_000_000 <= (s * 65536) / 1_000_000_000);
    }
    assert(n == a * 1_000_000_000 + r);
}

proof fn lemma_seconds_are(n: u64)
    ensures
        seconds::<Fixed>(n).raw == (n / 1_000_000_000) * 65536 + ((n % 1_000_000_000) * 65536)
            / 1_000_000_000,
{
    let r = (n % 1_000_000_000) as int;
    assert(Fixed::cnt((n / 1_000_000_000) as u64).raw == (n / 1_000_000_000) * 65536);
    assert(Fixed::cnt((n % 1_000_000_000) as u64).raw == r * 65536);
    assert(Fixed::rat(1_000_000_000, 1).raw == 65536_000_000_000);
    assert(((r * 65536) * 65536) / 65536_000_000_000 == (r * 65536) / 1_000_000_000);
}

/// As time passes, the share of a tween's time that has passed grows.
pub proof fn shares_grow(tw: Tween<Fixed, Number<Fixed>>, now: u64, then: u64)
    requires
        now <= then,
        tw.duration >= 1_000_000,
    ensures
        tw.elapsed_share(now).raw <= tw.elapsed_share(then).raw,
        0 <= tw.elapsed_share(now).raw,
{
    let e = since(tw.start, now);
    let f = since(tw.start, then);
    seconds_count_up(0, e);
    seconds_count_up(e, f);
    seconds_count_up(1_000_000, tw.duration);
    let d = seconds::<Fixed>(tw.duration).hi(Fixed::rat(1, 1_000_000));
    lemma_no_seconds();
    lemma_seconds_are(1_000_000);
    assert(d.raw > 0);
    let a = seconds::<Fixed>(e).raw as int;
    let b = seconds::<Fixed>(f).raw as int;
    assert(0 <= (a * 65536) / (d.raw as int) <= (b * 65536) / (d.raw as int)) by (nonlinear_arith)
        requires
            0 <= a <= b,
            d.raw > 0,
    ;
}

// --- curves ----------------------------------------------------------------

proof fn lemma_rises(a: Fixed, b: Fixed, c: Fixed)
    requires
        a.raw <= b.raw,
        0 <= c.raw,
    ensures
        a.prod(c).raw <= b.prod(c).raw,
        c.prod(a).raw <= c.prod(b).raw,
        0 <= a.raw ==> 0 <= a.prod(c).raw,
{
    assert((a.raw * c.raw) / 65536 <= (b.raw * c.raw) / 65536 && (c.raw * a.raw) / 65536 <= (c.raw
        * b.raw) / 65536) by (nonlinear_arith)
        requires
            a.raw <= b.raw,
            0 <= c.raw,
    ;
    if 0 <= a.raw {
        assert(0 <= (a.raw * c.raw) / 65536) by (nonlinear_arith)
            requires
                0 <= a.raw,
                0 <= c.raw,
        ;
    }
}

/// Raising a control point of a curve never lowers the curve.
pub proof fn curves_follow_their_controls(a: Fixed, b: Fixed, c: Fixed, d: Fixed, t: Fixed)
    requires
        a.raw <= c.raw,
        b.raw <= d.raw,
        0 <= t.raw <= 65536,
    ensures
        bezier_at(a, b, t).raw <= bezier_at(c, d, t).raw,
{
    let three = Fixed::rat(3, 1);
    let it = one_s::<Fixed>().diff(t);
    assert(one_s::<Fixed>().raw == 65536 && three.raw == 196608);
    lemma_rises(three, three, it);
    lemma_rises(three.prod(it), three.prod(it), it);
    lemma_rises(three.prod(it).prod(it), three.prod(it).prod(it), t);
    lemma_rises(three.prod(it), three.prod(it), t);
    lemma_rises(three.prod(it).prod(t), three.prod(it).prod(t), t);
    lemma_rises(a, c, three.prod(it).prod(it).prod(t));
    lemma_rises(b, d, three.prod(it).prod(t).prod(t));
}

/// In the first half of a curve its first control point pulls it up more than
/// its second; in the second half, less.
pub proof fn near_controls_pull_more(d: Fixed, t: Fixed)
    requires
        0 <= d.raw,
        0 <= t.raw <= 65536,
    ensures
        t.raw <= 32768 ==> bezier_at(zero_s(), d, t).raw <= bezier_at(d, zero_s(), t).raw,
        t.raw >= 32768 ==> bezier_at(d, zero_s(), t).raw <= bezier_at(zero_s(), d, t).raw,
{
    let three = Fixed::rat(3, 1);
    let it = one_s::<Fixed>().diff(t);
    let z = zero_s::<Fixed>();
    assert(one_s::<Fixed>().raw == 65536 && three.raw == 196608 && z.raw == 0);
    lemma_rises(three, three, it);
    let n = three.prod(it);
    let p = n.prod(it).prod(t);
    let q = n.prod(t).prod(t);
    assert(p.raw * 0 == 0 && q.raw * 0 == 0);
    assert(p.prod(z).raw == 0 && q.prod(z).raw == 0);
    if t.raw <= 32768 {
        lemma_rises(t, it, n);
        lemma_rises(n.prod(t), n.prod(it), t);
        lemma_rises(q, p, d);
    }
    if t.raw >= 32768 {
        lemma_rises(it, t, n);
        lemma_rises(n.prod(it), n.prod(t), t);
        lemma_rises(p, q, d);
    }
}

/// The solver stays on the curve, leaves a place that is right as it is, and
/// once a step does not move it no further step does.
pub proof fn solving_stays_on_the_curve(x1: Fixed, x2: Fixed, x: Fixed, t: Fixed, steps: nat)
    requires
        0 <= t.raw <= 65536,
    ensures
        ({
            let r = newton(x1, x2, x, t, steps);
            &&& 0 <= r.raw <= 65536
            &&& bezier_at(x1, x2, t) == x ==> r == t
            &&& r == newton(x1, x2, x, r, 1) ==> newton(x1, x2, x, t, steps + 1) == r
        }),
    decreases steps,
{
    let z = zero_s::<Fixed>();
    assert(z.raw == 0 && one_s::<Fixed>().raw == 65536);
    assert(Fixed::rat(1, 10_000).raw == 6);
    if bezier_at(x1, x2, t) == x {
        assert(bezier_at(x1, x2, t).diff(x).raw == 0);
    }
    if steps > 0 {
        let err = bezier_at(x1, x2, t).diff(x);
        let slope = bezier_slope(x1, x2, t);
        let u = clamped(t.diff(err.quot(slope)), zero_s(), one_s());
        solving_stays_on_the_curve(x1, x2, x, u, (steps - 1) as nat);
        if bezier_at(x1, x2, t) == x {
            assert(magnitude(err).less(Fixed::rat(1, 10_000)));
        }
    }
}

/// The slope of a curve starts as three times its first control point and ends
/// as three times what its second is short of one; between controls that rise
/// from zero to one the curve never falls.
pub proof fn slopes_lead_to_the_controls(a: Fixed, b: Fixed, t: Fixed)
    requires
        0 <= a.raw <= b.raw <= 65536,
        0 <= t.raw <= 65536,
    ensures
        bezier_slope(a, b, zero_s()).raw == 3 * a.raw,
        bezier_slope(a, b, one_s()).raw == 3 * (65536 - b.raw),
        0 <= bezier_slope(a, b, t).raw,
{
    let three = Fixed::rat(3, 1);
    let six = Fixed::rat(6, 1);
    let z = zero_s::<Fixed>();
    let o = one_s::<Fixed>();
    assert(o.raw == 65536 && z.raw == 0 && three.raw == 196608 && six.raw == 393216);
    let it = o.diff(t);
    lemma_rises(three, three, it);
    lemma_rises(three.prod(it), three.prod(it), it);
    lemma_rises(three.prod(it).prod(it), three.prod(it).prod(it), a);
    lemma_rises(six, six, it);
    lemma_rises(six.prod(it), six.prod(it), t);
    lemma_rises(six.prod(it).prod(t), six.prod(it).prod(t), b.diff(a));
    lemma_rises(three, three, t);
    lemma_rises(three.prod(t), three.prod(t), t);
    lemma_rises(three.prod(t).prod(t), three.prod(t).prod(t), o.diff(b));
    assert((196608int * 65536) / 65536 == 196608 && (393216int * 65536) / 65536 == 393216);
    assert(o.diff(z) == o && o.diff(o) == z);
    assert(three.prod(o) == three && six.prod(o) == six);
    assert(three.prod(z) == z && six.prod(z) == z && z.prod(z) == z);
    assert(0 * b.diff(a).raw == 0 && 0 * o.diff(b).raw == 0 && 0 * a.raw == 0 && 0 * 65536int == 0);
    assert(z.prod(b.diff(a)) == z && z.prod(o.diff(b)) == z && z.prod(a) == z && z.prod(o) == z);
    assert((196608 * a.raw) / 65536 == 3 * a.raw);
    assert((196608 * (65536 - b.raw)) / 65536 == 3 * (65536 - b.raw));
    assert(three.prod(a).raw == 3 * a.raw);
    assert(three.prod(o.diff(b)).raw == 3 * (65536 - b.raw));
}

/// Where the curve rises, a step of the solver goes back from a place that lies
/// too far along, and on from one that does not lie far enough.
pub proof fn steps_go_toward_the_place(x1: Fixed, x2: Fixed, x: Fixed, t: Fixed)
    requires
        0 <= t.raw <= 65536,
        0 < bezier_slope(x1, x2, t).raw,
    ensures
        x.raw <= bezier_at(x1, x2, t).raw ==> newton(x1, x2, x, t, 1).raw <= t.raw,
        bezier_at(x1, x2, t).raw <= x.raw ==> t.raw <= newton(x1, x2, x, t, 1).raw,
{
    reveal_with_fuel(newton, 2);
    let err = bezier_at(x1, x2, t).diff(x);
    let slope = bezier_slope(x1, x2, t);
    assert(zero_s::<Fixed>().raw == 0 && one_s::<Fixed>().raw == 65536);
    assert(err.raw >= 0 ==> (err.raw * 65536) / (slope.raw as int) >= 0) by (nonlinear_arith)
        requires
            slope.raw > 0,
    ;
    assert(err.raw <= 0 ==> (err.raw * 65536) / (slope.raw as int) <= 0) by (nonlinear_arith)
        requires
            slope.raw > 0,
    ;
}

/// A curve whose control points lie on the diagonal is no curve: wherever the
/// solver finds the place to a ten-thousandth, progress is time to a
/// ten-thousandth.
pub proof fn diagonal_curves_are_straight(p: [Fixed; 4], t: Fixed)
    requires
        p[0] == p[1],
        p[2] == p[3],
        0 <= t.raw <= 65536,
        ({
            let found = bezier_at(p[0], p[2], newton(p[0], p[2], t, t, 8));
            -6 < found.raw - t.raw < 6
        }),
    ensures
        -6 < Curve::CubicBezier(p).eased(t).raw - t.raw < 6,
{
    assert(zero_s::<Fixed>().raw == 0 && one_s::<Fixed>().raw == 65536);
}

/// The first and third numbers of a curve place its time, the second and fourth
/// its progress: raising those raises progress, at every time.
pub proof fn raised_curves_are_ahead(p: [Fixed; 4], q: [Fixed; 4], t: Fixed)
    requires
        p[0] == q[0],
        p[2] == q[2],
        p[1].raw <= q[1].raw,
        p[3].raw <= q[3].raw,
    ensures
        Curve::CubicBezier(p).eased(t).raw <= Curve::CubicBezier(q).eased(t).raw,
{
    assert(zero_s::<Fixed>().raw == 0 && one_s::<Fixed>().raw == 65536);
    let c = clamped(t, zero_s(), one_s());
    solving_stays_on_the_curve(p[0], p[2], c, c, 8);
    curves_follow_their_controls(p[1], p[3], q[1], q[3], newton(p[0], p[2], c, c, 8));
}

/// `EaseInOut` ends as it begins: what it has covered some time after its start
/// it has left to cover as long before its end, to the last places.
pub proof fn ease_in_out_is_even(t: Fixed, u: Fixed)
    requires
        0 <= t.raw <= 65536,
        u.raw == 65536 - t.raw,
    ensures
        65536 - 8 < Curve::EaseInOut.eased(t).raw + Curve::EaseInOut.eased(u).raw <= 65536,
{
    let c = t.raw as int;
    let d = u.raw as int;
    lemma_eased(t);
    lemma_eased(u);
    let n = 65536int;
    assert(c * c * (3 * n - 2 * c) + d * d * (3 * n - 2 * d) == n * n * n) by (nonlinear_arith)
        requires
            d == n - c,
    ;
}

proof fn lemma_eased(t: Fixed)
    requires
        0 <= t.raw <= 65536,
    ensures
        ({
            let c = t.raw as int;
            let n = 65536int;
            let whole = c * c * (3 * n - 2 * c);
            let e = Curve::EaseInOut.eased(t).raw;
            whole - 4 * (n * n) < e * (n * n) <= whole
        }),
{
    assert(zero_s::<Fixed>().raw == 0 && one_s::<Fixed>().raw == 65536);
    assert(Fixed::rat(3, 1).raw == 196608 && Fixed::rat(2, 1).raw == 131072);
    let c = t.raw as int;
    let n = 65536int;
    let a = (c * c) / n;
    let f = 3 * n - 2 * c;
    assert(0 <= c * c <= n * n) by (nonlinear_arith)
        requires
            0 <= c <= n,
    ;
    assert((131072 * c) / 65536 == 2 * c);
    assert(Fixed::rat(2, 1).prod(t).raw == 2 * c);
    assert(Fixed::rat(3, 1).diff(Fixed::rat(2, 1).prod(t)).raw == f);
    assert(t.prod(t).raw == a);
    let e = (a * f) / n;
    assert(0 <= a * f <= n * (3 * n)) by (nonlinear_arith)
        requires
            0 <= a <= n,
            0 <= f <= 3 * n,
    ;
    assert(Curve::<Fixed>::EaseInOut.eased(t).raw == e);
    let r = c * c - a * n;
    let s = a * f - e * n;
    assert(0 <= r < n && 0 <= s < n);
    assert(c * c * f == (a * n + r) * f) by (nonlinear_arith)
        requires
            c * c == a * n + r,
    ;
    assert((a * n + r) * f == (a * f) * n + r * f) by (nonlinear_arith);
    assert((e * n + s) * n == e * (n * n) + s * n) by (nonlinear_arith);
    assert(0 <= r * f < n * (3 * n)) by (nonlinear_arith)
        requires
            0 <= r < n,
            0 < f <= 3 * n,
    ;
    assert(n * (3 * n) == 3 * (n * n));
    assert(0 <= s * n <= n * n);
}

} // verus!
