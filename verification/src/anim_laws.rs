//! What holds of tweens.
use vstd::prelude::*;

use crate::anim::{
    arrived, bezier_at, drive_changes, driven, newton, running, since, Curve, Lerp, TimelineView,
    Tween,
};
use crate::scalar::{clamped, magnitude, one_s, seconds, zero_s, Fixed, Scalar};
use crate::signal::{Cell, Color, Number, Reactive, Signal};

verus! {

// --- keys ------------------------------------------------------------------

pub open spec fn distinct_keys<S, V>(ts: Seq<Tween<S, V>>) -> bool {
    forall|i: int, j: int|
        0 <= i < j < ts.len() ==> (#[trigger] ts[i]).key != (#[trigger] ts[j]).key
}

proof fn lemma_filter_keys<S, V>(ts: Seq<Tween<S, V>>, keep: spec_fn(Tween<S, V>) -> bool)
    ensures
        forall|i: int|
            0 <= i < ts.filter(keep).len() ==> keep(#[trigger] ts.filter(keep)[i]) && ts.contains(
                ts.filter(keep)[i],
            ),
        distinct_keys(ts) ==> distinct_keys(ts.filter(keep)),
    decreases ts.len(),
{
    reveal(Seq::filter);
    if ts.len() > 0 {
        let d = ts.drop_last();
        lemma_filter_keys(d, keep);
        let f = ts.filter(keep);
        let g = d.filter(keep);
        assert forall|i: int| 0 <= i < f.len() implies keep(#[trigger] f[i]) && ts.contains(f[i]) by {
            if i < g.len() {
                assert(f[i] == g[i]);
                assert(d.contains(g[i]));
                let j = choose|j: int| 0 <= j < d.len() && d[j] == g[i];
                assert(ts[j] == f[i]);
            } else {
                assert(ts[ts.len() - 1] == f[i]);
            }
        }
        if distinct_keys(ts) {
            assert(distinct_keys(d)) by {
                assert forall|i: int, j: int| 0 <= i < j < d.len() implies (#[trigger] d[i]).key != (
                #[trigger] d[j]).key by {
                    assert(ts[i].key != ts[j].key);
                }
            }
            assert forall|i: int, j: int| 0 <= i < j < f.len() implies (#[trigger] f[i]).key != (
            #[trigger] f[j]).key by {
                if j < g.len() {
                    assert(g[i].key != g[j].key);
                } else {
                    assert(f[i] == g[i]);
                    assert(d.contains(g[i]));
                    let k = choose|k: int| 0 <= k < d.len() && d[k] == g[i];
                    assert(ts[k].key != ts[ts.len() - 1].key);
                }
            }
        }
    }
}

proof fn lemma_filter_tracks<S: Scalar>(
    t: TimelineView<S>,
    keep_n: spec_fn(Tween<S, Number<S>>) -> bool,
    keep_c: spec_fn(Tween<S, Color<S>>) -> bool,
)
    requires
        t.keys_unique(),
    ensures
        (TimelineView {
            numbers: t.numbers.filter(keep_n),
            colors: t.colors.filter(keep_c),
            ..t
        }).keys_unique(),
{
    lemma_filter_keys(t.numbers, keep_n);
    lemma_filter_keys(t.colors, keep_c);
    assert(distinct_keys(t.numbers));
    assert(distinct_keys(t.colors));
    let n = t.numbers.filter(keep_n);
    let c = t.colors.filter(keep_c);
    assert forall|i: int, j: int| 0 <= i < n.len() && 0 <= j < c.len() implies (
    #[trigger] n[i]).key != (#[trigger] c[j]).key by {
        assert(t.numbers.contains(n[i]));
        assert(t.colors.contains(c[j]));
        let a = choose|a: int| 0 <= a < t.numbers.len() && t.numbers[a] == n[i];
        let b = choose|b: int| 0 <= b < t.colors.len() && t.colors[b] == c[j];
        assert(t.numbers[a].key != t.colors[b].key);
    }
}

/// Stopping a key removes it, and keeps keys unique.
pub proof fn stop_frees_the_key<S: Scalar>(t: TimelineView<S>, key: u32)
    requires
        t.keys_unique(),
    ensures
        t.stopped(key).keys_unique(),
        forall|i: int|
            0 <= i < t.stopped(key).numbers.len() ==> (#[trigger] t.stopped(key).numbers[i]).key
                != key,
        forall|i: int|
            0 <= i < t.stopped(key).colors.len() ==> (#[trigger] t.stopped(key).colors[i]).key
                != key,
{
    let kn = |x: Tween<S, Number<S>>| x.key != key;
    let kc = |x: Tween<S, Color<S>>| x.key != key;
    lemma_filter_tracks(t, kn, kc);
    lemma_filter_keys(t.numbers, kn);
    lemma_filter_keys(t.colors, kc);
    assert(t.stopped(key).numbers == t.numbers.filter(kn));
    assert(t.stopped(key).colors == t.colors.filter(kc));
}

/// Starting a tween replaces the one under its key: keys stay unique, of
/// numbers and colours together.
pub proof fn start_replaces<S: Scalar>(
    t: TimelineView<S>,
    key: u32,
    signal: Signal<Number<S>>,
    from: Number<S>,
    to: S,
    curve: Curve<S>,
    duration: u64,
    now: u64,
)
    requires
        t.keys_unique(),
    ensures
        ({
            let u = t.number_started(key, signal, from, to, curve, duration, now);
            &&& u.keys_unique()
            &&& !from.value.eqv(to) ==> u.numbers.last() == (Tween {
                key,
                signal,
                from,
                to: Number { value: to },
                curve,
                start: now,
                duration,
            })
        }),
{
    stop_frees_the_key(t, key);
    let u = t.number_started(key, signal, from, to, curve, duration, now);
    let s = t.stopped(key);
    assert forall|i: int, j: int| 0 <= i < j < u.numbers.len() implies (#[trigger] u.numbers[i]).key
        != (#[trigger] u.numbers[j]).key by {
        assert(u.numbers[i] == s.numbers[i]);
        if j < s.numbers.len() {
            assert(u.numbers[j] == s.numbers[j]);
        }
    }
}

/// The same of colours.
pub proof fn start_color_replaces<S: Scalar>(
    t: TimelineView<S>,
    key: u32,
    signal: Signal<Color<S>>,
    from: Color<S>,
    to: Color<S>,
    curve: Curve<S>,
    duration: u64,
    now: u64,
)
    requires
        t.keys_unique(),
    ensures
        ({
            let u = t.color_started(key, signal, from, to, curve, duration, now);
            &&& u.keys_unique()
            &&& !from.unchanged(to) ==> u.colors.last() == (Tween {
                key,
                signal,
                from,
                to,
                curve,
                start: now,
                duration,
            })
        }),
{
    stop_frees_the_key(t, key);
    let u = t.color_started(key, signal, from, to, curve, duration, now);
    let s = t.stopped(key);
    assert forall|i: int, j: int| 0 <= i < j < u.colors.len() implies (#[trigger] u.colors[i]).key
        != (#[trigger] u.colors[j]).key by {
        assert(u.colors[i] == s.colors[i]);
        if j < s.colors.len() {
            assert(u.colors[j] == s.colors[j]);
        }
    }
}

/// A tick keeps keys unique, and leaves no tween that is over.
pub proof fn tick_drops_what_is_over<S: Scalar>(t: TimelineView<S>, now: u64)
    requires
        t.keys_unique(),
    ensures
        t.advanced(now).keys_unique(),
        forall|i: int|
            0 <= i < t.advanced(now).numbers.len() ==> !(
            #[trigger] t.advanced(now).numbers[i]).over_at(now),
        forall|i: int|
            0 <= i < t.advanced(now).colors.len() ==> !(
            #[trigger] t.advanced(now).colors[i]).over_at(now),
{
    let kn = |x: Tween<S, Number<S>>| !x.over_at(now);
    let kc = |x: Tween<S, Color<S>>| !x.over_at(now);
    lemma_filter_tracks(t, kn, kc);
    lemma_filter_keys(t.numbers, kn);
    lemma_filter_keys(t.colors, kc);
    assert(t.advanced(now).numbers == t.numbers.filter(kn));
    assert(t.advanced(now).colors == t.colors.filter(kc));
}

/// A new timeline has unique keys.
pub proof fn idle_keys_unique<S: Scalar>()
    ensures
        TimelineView::<S>::idle().keys_unique(),
{
}

// --- values ----------------------------------------------------------------

/// After a tick a signal holds what its tween shows (up to numeric equality),
/// provided no later tween writes the same signal. A tween that is over shows
/// its destination.
pub proof fn tick_writes_what_is_shown<S: Scalar, V: Lerp<S>>(
    ts: Seq<Tween<S, V>>,
    store: Seq<Cell<V>>,
    now: u64,
    i: int,
)
    requires
        0 <= i < ts.len(),
        ts[i].signal.cell() < store.len(),
        forall|j: int| i < j < ts.len() ==> (#[trigger] ts[j]).signal.cell() != ts[i].signal.cell(),
    ensures
        ({
            let after = driven(ts, store, now, ts.len());
            let held = after[ts[i].signal.cell() as int].value;
            &&& after.len() == store.len()
            &&& held == ts[i].shown(now) || held.unchanged(ts[i].shown(now))
            &&& ts[i].over_at(now) ==> ts[i].shown(now) == ts[i].to
        }),
{
    lemma_driven(ts, store, now, ts.len(), i);
}

proof fn lemma_driven<S: Scalar, V: Lerp<S>>(
    ts: Seq<Tween<S, V>>,
    store: Seq<Cell<V>>,
    now: u64,
    k: nat,
    i: int,
)
    requires
        k <= ts.len(),
        0 <= i < ts.len(),
        ts[i].signal.cell() < store.len(),
        forall|j: int| i < j < ts.len() ==> (#[trigger] ts[j]).signal.cell() != ts[i].signal.cell(),
    ensures
        driven(ts, store, now, k).len() == store.len(),
        i < k ==> ({
            let held = driven(ts, store, now, k)[ts[i].signal.cell() as int].value;
            held == ts[i].shown(now) || held.unchanged(ts[i].shown(now))
        }),
    decreases k,
{
    if k > 0 {
        lemma_driven(ts, store, now, (k - 1) as nat, i);
        if k - 1 > i {
            assert(ts[k - 1].signal.cell() != ts[i].signal.cell());
        }
    }
}

/// With nothing in flight a tick changes nothing.
pub proof fn idle_ticks_do_nothing<S: Scalar, V: Lerp<S>>(store: Seq<Cell<V>>, now: u64)
    ensures
        driven(Seq::<Tween<S, V>>::empty(), store, now, 0) == store,
        !drive_changes(Seq::<Tween<S, V>>::empty(), store, now, 0),
{
}

/// Finishing is a tick at a time when everything is over.
pub proof fn finishing_is_a_late_tick<S: Scalar, V: Lerp<S>>(
    ts: Seq<Tween<S, V>>,
    store: Seq<Cell<V>>,
    now: u64,
    k: nat,
)
    requires
        k <= ts.len(),
        forall|i: int| 0 <= i < ts.len() ==> (#[trigger] ts[i]).over_at(now),
    ensures
        arrived(ts, store, k) == driven(ts, store, now, k),
        running(ts, now) == Seq::<Tween<S, V>>::empty(),
    decreases k,
{
    let keep = |t: Tween<S, V>| !t.over_at(now);
    lemma_filter_keys(ts, keep);
    assert(running(ts, now) == ts.filter(keep));
    if ts.filter(keep).len() > 0 {
        assert(ts.contains(ts.filter(keep)[0]));
    }
    assert(ts.filter(keep) =~= Seq::empty());
    if k > 0 {
        finishing_is_a_late_tick(ts, store, now, (k - 1) as nat);
        assert(ts[k - 1].over_at(now));
    }
}

/// A spring never outlives its duration.
pub proof fn springs_are_capped<S: Scalar, V: Lerp<S>>(tw: Tween<S, V>, now: u64)
    requires
        tw.curve is Spring,
        tw.start + tw.duration <= now,
    ensures
        tw.over_at(now),
{
}

// --- in fixed point --------------------------------------------------------

proof fn lemma_seconds(n: u64)
    ensures
        seconds::<Fixed>(n).raw == (n / 1_000_000_000) * 65536 + ((n % 1_000_000_000) * 65536)
            / 1_000_000_000,
{
    let s = (n / 1_000_000_000) as u64;
    let f = (n % 1_000_000_000) as u64;
    assert(Fixed::cnt(s).raw == s * 65536);
    assert(Fixed::cnt(f).raw == f * 65536);
    assert(Fixed::rat(1_000_000_000, 1).raw == 65_536_000_000_000);
    assert((f * 65536 * 65536) / 65_536_000_000_000 == (f * 65536) / 1_000_000_000);
    assert(Fixed::cnt(f).quot(Fixed::rat(1_000_000_000, 1)).raw == (f * 65536) / 1_000_000_000);
}

/// A tween of at least a millisecond is over once its time has passed.
pub proof fn time_runs_out<V: Lerp<Fixed>>(tw: Tween<Fixed, V>, now: u64)
    requires
        tw.duration >= 1_000_000,
        tw.start + tw.duration <= now,
    ensures
        tw.over_at(now),
{
    let e = since(tw.start, now);
    let d = tw.duration;
    lemma_seconds(e);
    lemma_seconds(d);
    let a = seconds::<Fixed>(e).raw;
    let b = seconds::<Fixed>(d).raw;
    assert(e >= d);
    assert(e / 1_000_000_000 >= d / 1_000_000_000);
    assert(b >= 65) by {
        if d / 1_000_000_000 == 0 {
            assert(d % 1_000_000_000 == d);
        }
    }
    assert(a >= b);
    assert(Fixed::rat(1, 1_000_000).raw == 0);
    assert(seconds::<Fixed>(d).hi(Fixed::rat(1, 1_000_000)) == seconds::<Fixed>(d));
    assert((a * 65536) / (b as int) >= 65536) by (nonlinear_arith)
        requires
            a >= b,
            b > 0,
    ;
}

/// Every curve but a spring starts at 0 and ends at 1.
pub proof fn curves_start_and_end(c: Curve<Fixed>)
    requires
        !(c is Spring),
    ensures
        c.eased(zero_s()) == zero_s::<Fixed>(),
        c.eased(one_s()) == one_s::<Fixed>(),
{
    let z = zero_s::<Fixed>();
    let o = one_s::<Fixed>();
    assert(z.raw == 0);
    assert(o.raw == 65536);
    assert(clamped(z, z, o) == z);
    assert(clamped(o, z, o) == o);
    match c {
        Curve::Linear => {},
        Curve::EaseInOut => {
            assert(z.prod(z) == z);
            lemma_zero_times(Fixed::rat(3, 1).diff(Fixed::rat(2, 1).prod(z)));
            assert(o.prod(o) == o);
            assert(Fixed::rat(2, 1).prod(o) == Fixed::rat(2, 1));
            assert(Fixed::rat(3, 1).diff(Fixed::rat(2, 1)) == o);
        },
        Curve::CubicBezier(p) => {
            lemma_bezier_ends(p[0], p[2]);
            lemma_bezier_ends(p[1], p[3]);
            assert(z.diff(z) == z);
            assert(o.diff(o) == z);
            assert(magnitude(z) == z);
            assert(z.less(Fixed::rat(1, 10_000)));
            assert(newton(p[0], p[2], z, z, 8) == z);
            assert(newton(p[0], p[2], o, o, 8) == o);
        },
        Curve::Spring { .. } => {},
    }
}

/// `EaseInOut` rises with time: of two moments at least 1/256 apart, the later
/// one is never behind, and of any two it is never behind by more than the
/// last binary place, which is what rounding costs.
pub proof fn ease_in_out_never_falls(s: Fixed, t: Fixed)
    requires
        s.leq(t),
    ensures
        Curve::EaseInOut.eased(s).raw <= Curve::EaseInOut.eased(t).raw + 1,
        s.raw + 256 <= t.raw ==> Curve::EaseInOut.eased(s).leq(Curve::EaseInOut.eased(t)),
        0 <= Curve::EaseInOut.eased(s).raw <= 65536,
{
    lemma_smooth(s);
    lemma_smooth(t);
    let i = clamped(s, zero_s(), one_s()).raw as int;
    let j = clamped(t, zero_s(), one_s()).raw as int;
    lemma_smooth_climbs(i, j);
    assert(smooth(0) == 0);
    assert(smooth(65536) == 65536);
}

/// Whether nothing is rounded in easing at `t`: a `t` between zero and one,
/// where `v` measures scalars in whole units, `unit` of them to one.
pub open spec fn eases_exactly<S: Scalar>(v: spec_fn(S) -> int, unit: int, t: S) -> bool {
    let square = t.prod(t);
    let twice = S::rat(2, 1).prod(t);
    let factor = S::rat(3, 1).diff(twice);
    &&& unit > 0
    &&& clamped(t, zero_s(), one_s()) == t
    &&& 0 <= v(t) <= unit
    &&& v(square) * unit == v(t) * v(t)
    &&& v(twice) == 2 * v(t)
    &&& v(factor) == 3 * unit - v(twice)
    &&& v(square.prod(factor)) * unit == v(square) * v(factor)
}

/// On any scalar, `EaseInOut` never falls between two moments at which nothing
/// is rounded.
pub proof fn ease_in_out_never_falls_exactly<S: Scalar>(
    v: spec_fn(S) -> int,
    unit: int,
    s: S,
    t: S,
)
    requires
        eases_exactly(v, unit, s),
        eases_exactly(v, unit, t),
        v(s) <= v(t),
    ensures
        v(Curve::EaseInOut.eased(s)) <= v(Curve::EaseInOut.eased(t)),
{
    let a = v(s);
    let b = v(t);
    let e = v(Curve::EaseInOut.eased(s));
    let f = v(Curve::EaseInOut.eased(t));
    let p = v(s.prod(s));
    let q = v(t.prod(t));
    assert(e * unit == p * (3 * unit - 2 * a));
    assert(f * unit == q * (3 * unit - 2 * b));
    assert(e * unit * unit == a * a * (3 * unit - 2 * a)) by (nonlinear_arith)
        requires
            e * unit == p * (3 * unit - 2 * a),
            p * unit == a * a,
    ;
    assert(f * unit * unit == b * b * (3 * unit - 2 * b)) by (nonlinear_arith)
        requires
            f * unit == q * (3 * unit - 2 * b),
            q * unit == b * b,
    ;
    let d = b - a;
    lemma_smoothstep_climbs(a, d, unit - b);
    assert(a + d == b && a + d + (unit - b) == unit);
    assert(e <= f) by (nonlinear_arith)
        requires
            e * unit * unit <= f * unit * unit,
            unit > 0,
    ;
}

/// The climb of the smoothstep from `a` to `a + d`, with `g` left to the end.
proof fn lemma_smoothstep_climbs(a: int, d: int, g: int)
    requires
        a >= 0,
        d >= 0,
        g >= 0,
    ensures
        a * a * (3 * (a + d + g) - 2 * a) <= (a + d) * (a + d) * (3 * (a + d + g) - 2 * (a + d)),
{
    let low = a * a;
    let high = (a + d) * (a + d);
    let wide = 2 * (a * d) + d * d;
    assert(high == low + wide) by (nonlinear_arith)
        requires
            high == (a + d) * (a + d),
            low == a * a,
            wide == 2 * (a * d) + d * d,
    ;
    assert(high * (a + d + 3 * g) - low * (a + 3 * d + 3 * g) == wide * (a + d) + 3 * (wide * g) - 2 * (
    low * d)) by (nonlinear_arith)
        requires
            high == low + wide,
    ;
    assert(wide * (a + d) - 2 * (low * d) == 3 * (a * d * d) + d * d * d) by (nonlinear_arith)
        requires
            low == a * a,
            wide == 2 * (a * d) + d * d,
    ;
    assert(a * d * d >= 0 && d * d * d >= 0 && wide >= 0) by (nonlinear_arith)
        requires
            a >= 0,
            d >= 0,
            wide == 2 * (a * d) + d * d,
    ;
    assert(wide * g >= 0) by (nonlinear_arith)
        requires
            wide >= 0,
            g >= 0,
    ;
    assert(3 * (a + d + g) - 2 * (a + d) == a + d + 3 * g);
    assert(3 * (a + d + g) - 2 * a == a + 3 * d + 3 * g);
}

/// The raw value of the smoothstep at a raw time between zero and one.
spec fn smooth(c: int) -> int {
    (((c * c) / 65536) * (196608 - 2 * c)) / 65536
}

proof fn lemma_smooth(t: Fixed)
    ensures
        ({
            let c = clamped(t, zero_s(), one_s()).raw as int;
            &&& 0 <= c <= 65536
            &&& t.raw <= 0 ==> c == 0
            &&& t.raw >= 65536 ==> c == 65536
            &&& 0 <= t.raw <= 65536 ==> c == t.raw
            &&& Curve::EaseInOut.eased(t).raw == smooth(c)
            &&& 0 <= smooth(c) <= 65536
        }),
{
    let c = clamped(t, zero_s(), one_s());
    assert(zero_s::<Fixed>().raw == 0 && one_s::<Fixed>().raw == 65536);
    let k = c.raw as int;
    assert(0 <= k <= 65536);
    let q = (k * k) / 65536;
    assert(0 <= k * k <= 65536 * 65536) by (nonlinear_arith)
        requires
            0 <= k <= 65536,
    ;
    assert(c.prod(c).raw == q);
    assert(Fixed::rat(2, 1).raw == 131072 && Fixed::rat(3, 1).raw == 196608);
    assert(Fixed::rat(2, 1).prod(c).raw == 2 * k);
    assert(Fixed::rat(3, 1).diff(Fixed::rat(2, 1).prod(c)).raw == 196608 - 2 * k);
    // The smoothstep ends at one, its largest value.
    assert(k * k * (196608 - 2 * k) <= 65536 * 65536 * 65536) by (nonlinear_arith)
        requires
            0 <= k <= 65536,
    {
        let d = 65536 - k;
        assert(65536 * 65536 * 65536 - k * k * (196608 - 2 * k) == d * d * (65536 + 2 * k))
            by (nonlinear_arith)
            requires
                d == 65536 - k,
        ;
        assert(d * d * (65536 + 2 * k) >= 0) by (nonlinear_arith)
            requires
                k >= 0,
        ;
    }
    assert(0 <= q * (196608 - 2 * k) <= 65536 * 65536) by (nonlinear_arith)
        requires
            0 <= k <= 65536,
            q == (k * k) / 65536,
            k * k * (196608 - 2 * k) <= 65536 * 65536 * 65536,
    {
        assert(0 <= q && q * 65536 <= k * k);
        assert(q * 65536 * (196608 - 2 * k) <= k * k * (196608 - 2 * k)) by (nonlinear_arith)
            requires
                q * 65536 <= k * k,
                k <= 65536,
        ;
    }
}

proof fn lemma_smooth_climbs(i: int, j: int)
    requires
        0 <= i <= j <= 65536,
    ensures
        smooth(i) <= smooth(j) + 1,
        i + 256 <= j ==> smooth(i) <= smooth(j),
{
    let q = (i * i) / 65536;
    let r = (j * j) / 65536;
    let u = j - i;
    let p = q * (196608 - 2 * i);
    let v = r * (196608 - 2 * j);
    assert(i * i <= j * j) by (nonlinear_arith)
        requires
            0 <= i <= j,
    ;
    assert(q * 65536 <= i * i < (q + 1) * 65536);
    assert(r * 65536 <= j * j < (r + 1) * 65536);
    assert(0 <= q <= r);
    let d = r - q;
    assert(v - p == d * (196608 - 2 * j) - 2 * q * u) by (nonlinear_arith)
        requires
            v == r * (196608 - 2 * j),
            p == q * (196608 - 2 * i),
            d == r - q,
            u == j - i,
    ;
    assert(j * j - i * i == u * (i + j)) by (nonlinear_arith)
        requires
            u == j - i,
    ;
    // A step between two squares with the same or neighbouring whole parts is
    // short, so the falling factor takes off less than one unit.
    assert(d * (196608 - 2 * j) >= d * 65536) by (nonlinear_arith)
        requires
            d >= 0,
            j <= 65536,
    ;
    assert(2 * q * u <= 65536 * (d + 1)) by {
        assert(u * (i + j) <= 65536 * (d + 1));
        assert(2 * i * u <= u * (i + j)) by (nonlinear_arith)
            requires
                u == j - i,
                0 <= i <= j,
        ;
        assert(q <= i) by (nonlinear_arith)
            requires
                q * 65536 <= i * i,
                0 <= i <= 65536,
        ;
        assert(2 * q * u <= 2 * i * u) by (nonlinear_arith)
            requires
                q <= i,
                u >= 0,
        ;
    }
    assert(v - p >= -65536);
    if i + 256 <= j {
        lemma_far_apart(i, u);
        assert(65536 * d >= u * (i + j) - 65535);
        assert(65536 * (v - p) >= (u * (i + j) - 65535) * (196608 - 2 * j) - 2 * i * i * u)
            by (nonlinear_arith)
            requires
                v - p == d * (196608 - 2 * j) - 2 * q * u,
                65536 * d >= u * (i + j) - 65535,
                q * 65536 <= i * i,
                u >= 0,
                j <= 65536,
        {
            assert(65536 * d * (196608 - 2 * j) >= (u * (i + j) - 65535) * (196608 - 2 * j))
                by (nonlinear_arith)
                requires
                    65536 * d >= u * (i + j) - 65535,
                    j <= 65536,
            ;
            assert(2 * (q * 65536) * u <= 2 * (i * i) * u) by (nonlinear_arith)
                requires
                    q * 65536 <= i * i,
                    u >= 0,
            ;
        }
        assert(v >= p);
    }
}

/// Over a step of 1/256 the curve climbs by more than rounding can hide.
proof fn lemma_far_apart(i: int, u: int)
    requires
        0 <= i,
        256 <= u,
        i + u <= 65536,
    ensures
        (u * (i + i + u) - 65535) * (196608 - 2 * (i + u)) - 2 * i * i * u >= 0,
{
    let e = 65536 - i - u;
    let full = u * (i + i + u) * (65536 + 2 * e) - 2 * i * i * u;
    let lost = 65535 * (65536 + 2 * e);
    assert(196608 - 2 * (i + u) == 65536 + 2 * e);
    assert((u * (i + i + u) - 65535) * (196608 - 2 * (i + u)) - 2 * i * i * u == full - lost)
        by (nonlinear_arith)
        requires
            196608 - 2 * (i + u) == 65536 + 2 * e,
            full == u * (i + i + u) * (65536 + 2 * e) - 2 * i * i * u,
            lost == 65535 * (65536 + 2 * e),
    ;
    // With 65536 = i + u + e, the climb has no negative part.
    assert(full == u * (6 * i * e + 3 * i * u + 3 * u * e + u * u)) by (nonlinear_arith)
        requires
            full == u * (i + i + u) * (65536 + 2 * e) - 2 * i * i * u,
            e == 65536 - i - u,
    ;
    assert(lost == 65535 * i + 65535 * u + 196605 * e);
    assert(u * (3 * i * u) >= 3 * 65536 * i) by (nonlinear_arith)
        requires
            u >= 256,
            i >= 0,
    ;
    assert(u * (3 * u * e) >= 3 * 65536 * e) by (nonlinear_arith)
        requires
            u >= 256,
            e >= 0,
    ;
    assert(u * (u * u) >= 65536 * u) by (nonlinear_arith)
        requires
            u >= 256,
    ;
    assert(u * (6 * i * e) >= 0) by (nonlinear_arith)
        requires
            u >= 0,
            i >= 0,
            e >= 0,
    ;
    assert(full == u * (6 * i * e) + u * (3 * i * u) + u * (3 * u * e) + u * (u * u))
        by (nonlinear_arith)
        requires
            full == u * (6 * i * e + 3 * i * u + 3 * u * e + u * u),
    ;
    assert(full >= 196608 * i + 196608 * e + 65536 * u);
}

proof fn lemma_zero_times(x: Fixed)
    ensures
        zero_s::<Fixed>().prod(x) == zero_s::<Fixed>(),
        x.prod(zero_s()) == zero_s::<Fixed>(),
{
    assert(0 * x.raw == 0 && x.raw * 0 == 0) by (nonlinear_arith);
}

proof fn lemma_one_times(x: Fixed)
    ensures
        one_s::<Fixed>().prod(x) == x,
        x.prod(one_s()) == x,
{
    assert((65536 * x.raw) / 65536 == x.raw);
}

proof fn lemma_bezier_ends(a: Fixed, b: Fixed)
    ensures
        bezier_at(a, b, zero_s()) == zero_s::<Fixed>(),
        bezier_at(a, b, one_s()) == one_s::<Fixed>(),
{
    let z = zero_s::<Fixed>();
    let o = one_s::<Fixed>();
    let three = Fixed::rat(3, 1);
    assert(o.diff(z) == o);
    assert(o.diff(o) == z);
    assert(z.sum(z) == z);
    assert(z.sum(o) == o);
    lemma_zero_times(a);
    lemma_zero_times(b);
    lemma_zero_times(three);
    lemma_zero_times(z);
    lemma_zero_times(o);
    lemma_one_times(three);
    lemma_one_times(o);
    lemma_one_times(z);
}

} // verus!
