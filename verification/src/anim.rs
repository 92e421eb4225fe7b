//! Tweens: values that move over time.
//!
//! A [`Timeline`] holds the tweens in flight. It is driven by [`Timeline::tick`],
//! which writes through signals and says when it wants to be called again.
//! Times are nanoseconds on the host's monotonic clock.
use vstd::prelude::*;

use crate::scalar::{
    abs, clamp, clamped, magnitude, one, one_s, secs, seconds, units, zero, zero_s, Scalar,
};
use crate::signal::{store_changes, store_set, Cell, Color, Number, Reactive, Signal, SignalStore, Signals};

verus! {

// --- curves ----------------------------------------------------------------

/// How a tween eases.
#[derive(Copy, Clone, Debug)]
pub enum Curve<S> {
    Linear,
    EaseInOut,
    /// Timing curve through the control points `(x1, y1)` and `(x2, y2)`,
    /// given as `[x1, y1, x2, y2]`.
    CubicBezier([S; 4]),
    /// A damped spring of unit mass. It runs on elapsed seconds; the tween's
    /// duration only caps it.
    Spring { stiffness: S, damping: S },
}

/// One coordinate of a cubic through 0, `a`, `b` and 1.
pub open spec fn bezier_at<S: Scalar>(a: S, b: S, t: S) -> S {
    let it = one_s::<S>().diff(t);
    let three = S::rat(3, 1);
    three.prod(it).prod(it).prod(t).prod(a).sum(three.prod(it).prod(t).prod(t).prod(b)).sum(
        t.prod(t).prod(t),
    )
}

/// The slope of that coordinate.
pub open spec fn bezier_slope<S: Scalar>(a: S, b: S, t: S) -> S {
    let it = one_s::<S>().diff(t);
    let three = S::rat(3, 1);
    three.prod(it).prod(it).prod(a).sum(S::rat(6, 1).prod(it).prod(t).prod(b.diff(a))).sum(
        three.prod(t).prod(t).prod(one_s::<S>().diff(b)),
    )
}

/// Where Newton's method stands after at most `steps` more steps from `t`: it
/// stops early once it is close enough, or the slope is too flat to follow.
pub open spec fn newton<S: Scalar>(x1: S, x2: S, x: S, t: S, steps: nat) -> S
    decreases steps,
{
    if steps == 0 {
        t
    } else {
        let err = bezier_at(x1, x2, t).diff(x);
        let slope = bezier_slope(x1, x2, t);
        if magnitude(err).less(S::rat(1, 10_000)) || magnitude(slope).less(S::rat(1, 1_000_000)) {
            t
        } else {
            newton(
                x1,
                x2,
                x,
                clamped(t.diff(err.quot(slope)), zero_s(), one_s()),
                (steps - 1) as nat,
            )
        }
    }
}

pub open spec fn bezier_y<S: Scalar>(x1: S, y1: S, x2: S, y2: S, x: S) -> S {
    bezier_at(y1, y2, newton(x1, x2, x, x, 8))
}

impl<S: Scalar> Curve<S> {
    /// Progress at time `t` of a curve that is no spring.
    pub open spec fn eased(self, t: S) -> S {
        let c = clamped(t, zero_s(), one_s());
        match self {
            Curve::Linear => c,
            Curve::EaseInOut => c.prod(c).prod(S::rat(3, 1).diff(S::rat(2, 1).prod(c))),
            Curve::CubicBezier(p) => bezier_y(p[0], p[1], p[2], p[3], c),
            Curve::Spring { .. } => c,
        }
    }

    /// Progress at normalised time `t`. Springs do not run on normalised time.
    pub fn eval(&self, t: S) -> (r: S)
        requires
            !(self is Spring),
        ensures
            r == self.eased(t),
    {
        let c: S = clamp(t, zero(), one());
        match *self {
            Curve::Linear => c,
            Curve::EaseInOut => c.times(c).times(units::<S>(3).minus(units::<S>(2).times(c))),
            Curve::CubicBezier(p) => cubic_bezier_y_at_x(p[0], p[1], p[2], p[3], c),
            Curve::Spring { .. } => c,
        }
    }
}

fn bezier_coordinate<S: Scalar>(a: S, b: S, t: S) -> (r: S)
    ensures
        r == bezier_at(a, b, t),
{
    let it: S = one::<S>().minus(t);
    let three: S = units(3);
    three.times(it).times(it).times(t).times(a).plus(
        three.times(it).times(t).times(t).times(b),
    ).plus(t.times(t).times(t))
}

fn bezier_derivative<S: Scalar>(a: S, b: S, t: S) -> (r: S)
    ensures
        r == bezier_slope(a, b, t),
{
    let it: S = one::<S>().minus(t);
    let three: S = units(3);
    three.times(it).times(it).times(a).plus(
        units::<S>(6).times(it).times(t).times(b.minus(a)),
    ).plus(three.times(t).times(t).times(one::<S>().minus(b)))
}

/// Solve for the curve's parameter at `x`, then evaluate its height there.
fn cubic_bezier_y_at_x<S: Scalar>(x1: S, y1: S, x2: S, y2: S, x: S) -> (r: S)
    ensures
        r == bezier_y(x1, y1, x2, y2, x),
{
    let mut t: S = x;
    let mut left: u32 = 8;
    while left > 0
        invariant
            left <= 8,
            newton(x1, x2, x, t, left as nat) == newton(x1, x2, x, x, 8),
        ensures
            t == newton(x1, x2, x, x, 8),
        decreases left,
    {
        let err: S = bezier_coordinate(x1, x2, t).minus(x);
        if abs(err).lt(S::ratio(1, 10_000)) {
            break ;
        }
        let slope: S = bezier_derivative(x1, x2, t);
        if abs(slope).lt(S::ratio(1, 1_000_000)) {
            break ;
        }
        t = clamp(t.minus(err.over(slope)), zero(), one());
        left = left - 1;
    }
    bezier_coordinate(y1, y2, t)
}

/// Position and velocity, `t` seconds after a spring of unit mass at rest at 0
/// is released toward 1.
pub open spec fn spring<S: Scalar>(k: S, c: S, t: S) -> (S, S) {
    let one = one_s::<S>();
    let none = zero_s::<S>();
    let w0 = k.hi(S::rat(1, 1_000_000)).root();
    let zeta = c.quot(S::rat(2, 1).prod(w0));
    if magnitude(zeta.diff(one)).less(S::rat(1, 10_000)) {
        let e = none.diff(w0).prod(t).expo();
        (one.diff(e.prod(one.sum(w0.prod(t)))), e.prod(w0.prod(w0).prod(t)))
    } else if zeta.less(one) {
        let wd = w0.prod(one.diff(zeta.prod(zeta)).root());
        let a = zeta.prod(w0);
        let e = none.diff(a).prod(t).expo();
        let cos = wd.prod(t).cosine();
        let sin = wd.prod(t).sine();
        (
            one.diff(e.prod(cos.sum(a.quot(wd).prod(sin)))),
            w0.prod(w0).quot(wd).prod(e).prod(sin),
        )
    } else {
        let disc = zeta.prod(zeta).diff(one).root();
        let r1 = none.diff(w0).prod(zeta.diff(disc));
        let r2 = none.diff(w0).prod(zeta.sum(disc));
        let a1 = none.diff(r2).quot(r1.diff(r2));
        let a2 = r1.quot(r1.diff(r2));
        let e1 = r1.prod(t).expo();
        let e2 = r2.prod(t).expo();
        (
            one.diff(a1.prod(e1)).diff(a2.prod(e2)),
            none.diff(a1).prod(r1).prod(e1).diff(a2.prod(r2).prod(e2)),
        )
    }
}

/// The spring's position and velocity.
pub fn spring_eval<S: Scalar>(k: S, c: S, t: S) -> (r: (S, S))
    ensures
        r == spring(k, c, t),
{
    let w0: S = k.larger(S::ratio(1, 1_000_000)).sqrt();
    let zeta: S = c.over(units::<S>(2).times(w0));
    if abs(zeta.minus(one())).lt(S::ratio(1, 10_000)) {
        let e: S = zero::<S>().minus(w0).times(t).exp();
        let x: S = one::<S>().minus(e.times(one::<S>().plus(w0.times(t))));
        let v: S = e.times(w0.times(w0).times(t));
        (x, v)
    } else if zeta.lt(one()) {
        let wd: S = w0.times(one::<S>().minus(zeta.times(zeta)).sqrt());
        let a: S = zeta.times(w0);
        let e: S = zero::<S>().minus(a).times(t).exp();
        let cos: S = wd.times(t).cos();
        let sin: S = wd.times(t).sin();
        let x: S = one::<S>().minus(e.times(cos.plus(a.over(wd).times(sin))));
        let v: S = w0.times(w0).over(wd).times(e).times(sin);
        (x, v)
    } else {
        let disc: S = zeta.times(zeta).minus(one()).sqrt();
        let r1: S = zero::<S>().minus(w0).times(zeta.minus(disc));
        let r2: S = zero::<S>().minus(w0).times(zeta.plus(disc));
        let a1: S = zero::<S>().minus(r2).over(r1.minus(r2));
        let a2: S = r1.over(r1.minus(r2));
        let e1: S = r1.times(t).exp();
        let e2: S = r2.times(t).exp();
        let x: S = one::<S>().minus(a1.times(e1)).minus(a2.times(e2));
        let v: S = zero::<S>().minus(a1).times(r1).times(e1).minus(a2.times(r2).times(e2));
        (x, v)
    }
}

// --- values that move ------------------------------------------------------

/// A value that can be part of the way to another.
pub trait Lerp<S: Scalar>: Reactive {
    /// `x` of the way from `self` to `to`.
    spec fn toward(self, to: Self, x: S) -> Self;

    fn lerp(self, to: Self, x: S) -> (r: Self)
        ensures
            r == self.toward(to, x),
    ;
}

pub open spec fn mixed<S: Scalar>(from: S, to: S, x: S) -> S {
    from.sum(to.diff(from).prod(x))
}

fn mix<S: Scalar>(from: S, to: S, x: S) -> (r: S)
    ensures
        r == mixed(from, to, x),
{
    from.plus(to.minus(from).times(x))
}

impl<S: Scalar> Lerp<S> for Number<S> {
    open spec fn toward(self, to: Number<S>, x: S) -> Number<S> {
        Number { value: mixed(self.value, to.value, x) }
    }

    fn lerp(self, to: Number<S>, x: S) -> (r: Number<S>) {
        Number { value: mix(self.value, to.value, x) }
    }
}

impl<S: Scalar> Lerp<S> for Color<S> {
    open spec fn toward(self, to: Color<S>, x: S) -> Color<S> {
        Color {
            rgba: [
                mixed(self.rgba[0], to.rgba[0], x),
                mixed(self.rgba[1], to.rgba[1], x),
                mixed(self.rgba[2], to.rgba[2], x),
                mixed(self.rgba[3], to.rgba[3], x),
            ],
        }
    }

    fn lerp(self, to: Color<S>, x: S) -> (r: Color<S>) {
        Color {
            rgba: [
                mix(self.rgba[0], to.rgba[0], x),
                mix(self.rgba[1], to.rgba[1], x),
                mix(self.rgba[2], to.rgba[2], x),
                mix(self.rgba[3], to.rgba[3], x),
            ],
        }
    }
}

// --- tweens ----------------------------------------------------------------

/// A value on its way.
#[derive(Copy, Clone, Debug)]
pub struct Tween<S, V> {
    /// Starting another tween under the same key replaces this one.
    pub key: u32,
    pub signal: Signal<V>,
    pub from: V,
    pub to: V,
    pub curve: Curve<S>,
    pub start: u64,
    pub duration: u64,
}

pub open spec fn since(start: u64, now: u64) -> u64 {
    if now < start {
        0
    } else {
        (now - start) as u64
    }
}

impl<S: Scalar, V: Lerp<S>> Tween<S, V> {
    /// The share of the tween's time that has passed.
    pub open spec fn elapsed_share(self, now: u64) -> S {
        seconds::<S>(since(self.start, now)).quot(
            seconds::<S>(self.duration).hi(S::rat(1, 1_000_000)),
        )
    }

    /// Whether the tween is over at `now`: its time has run out, or its spring
    /// has settled.
    pub open spec fn over_at(self, now: u64) -> bool {
        match self.curve {
            Curve::Spring { stiffness, damping } => {
                let (x, vel) = spring(stiffness, damping, seconds(since(self.start, now)));
                (magnitude(x.diff(one_s())).less(S::rat(1, 1000)) && magnitude(vel).less(
                    S::rat(1, 1000),
                )) || since(self.start, now) >= self.duration
            },
            _ => one_s::<S>().leq(self.elapsed_share(now)),
        }
    }

    /// How far along the tween is.
    pub open spec fn progress(self, now: u64) -> S {
        match self.curve {
            Curve::Spring { stiffness, damping } => spring(
                stiffness,
                damping,
                seconds(since(self.start, now)),
            ).0,
            _ => self.curve.eased(clamped(self.elapsed_share(now), zero_s(), one_s())),
        }
    }

    /// The value to show at `now`: the destination, once the tween is over.
    pub open spec fn shown(self, now: u64) -> V {
        if self.over_at(now) {
            self.to
        } else {
            self.from.toward(self.to, self.progress(now))
        }
    }

    /// Value and completion at `now`, without the final snap.
    fn sample(&self, now: u64) -> (r: (V, bool))
        ensures
            r.0 == self.from.toward(self.to, self.progress(now)),
            r.1 == self.over_at(now),
    {
        let elapsed: u64 = if now < self.start {
            0
        } else {
            now - self.start
        };
        match self.curve {
            Curve::Spring { stiffness, damping } => {
                let t: S = secs(elapsed);
                let (x, vel) = spring_eval(stiffness, damping, t);
                let settled: bool = abs(x.minus(one())).lt(S::ratio(1, 1000)) && abs(vel).lt(
                    S::ratio(1, 1000),
                );
                (self.from.lerp(self.to, x), settled || elapsed >= self.duration)
            },
            _ => {
                let total: S = secs::<S>(self.duration).larger(S::ratio(1, 1_000_000));
                let t_norm: S = secs::<S>(elapsed).over(total);
                let done: bool = one::<S>().le(t_norm);
                let eased: S = self.curve.eval(clamp(t_norm, zero(), one()));
                (self.from.lerp(self.to, eased), done)
            },
        }
    }
}

// --- tracks: tweens of one kind of value -----------------------------------

/// The tweens without those of a key.
pub open spec fn without_key<S, V>(ts: Seq<Tween<S, V>>, key: u32) -> Seq<Tween<S, V>> {
    ts.filter(|t: Tween<S, V>| t.key != key)
}

/// The tweens still running at `now`.
pub open spec fn running<S: Scalar, V: Lerp<S>>(ts: Seq<Tween<S, V>>, now: u64) -> Seq<
    Tween<S, V>,
> {
    ts.filter(|t: Tween<S, V>| !t.over_at(now))
}

/// The store after the first `k` tweens have written their values.
pub open spec fn driven<S: Scalar, V: Lerp<S>>(
    ts: Seq<Tween<S, V>>,
    store: Seq<Cell<V>>,
    now: u64,
    k: nat,
) -> Seq<Cell<V>>
    decreases k,
{
    if k == 0 {
        store
    } else {
        store_set(
            driven(ts, store, now, (k - 1) as nat),
            ts[k - 1].signal,
            ts[k - 1].shown(now),
        )
    }
}

/// Whether any of those writes changes a value.
pub open spec fn drive_changes<S: Scalar, V: Lerp<S>>(
    ts: Seq<Tween<S, V>>,
    store: Seq<Cell<V>>,
    now: u64,
    k: nat,
) -> bool
    decreases k,
{
    if k == 0 {
        false
    } else {
        drive_changes(ts, store, now, (k - 1) as nat) || store_changes(
            driven(ts, store, now, (k - 1) as nat),
            ts[k - 1].signal,
            ts[k - 1].shown(now),
        )
    }
}

/// The store after the first `k` tweens have written their destinations.
pub open spec fn arrived<S: Scalar, V: Lerp<S>>(
    ts: Seq<Tween<S, V>>,
    store: Seq<Cell<V>>,
    k: nat,
) -> Seq<Cell<V>>
    decreases k,
{
    if k == 0 {
        store
    } else {
        store_set(arrived(ts, store, (k - 1) as nat), ts[k - 1].signal, ts[k - 1].to)
    }
}

/// Write the destination of every tween of a track.
fn land<S: Scalar, V: Lerp<S>>(ts: &Vec<Tween<S, V>>, store: &mut SignalStore<V>)
    ensures
        final(store)@ == arrived(ts@, old(store)@, ts@.len()),
{
    let mut i: usize = 0;
    while i < ts.len()
        invariant
            i <= ts.len(),
            store@ == arrived(ts@, old(store)@, i as nat),
        decreases ts.len() - i,
    {
        let tw: Tween<S, V> = ts[i];
        store.set(tw.signal, tw.to);
        i = i + 1;
    }
}

fn drop_key<S: Scalar, V: Lerp<S>>(ts: &Vec<Tween<S, V>>, key: u32) -> (r: Vec<Tween<S, V>>)
    ensures
        r@ == without_key(ts@, key),
{
    let mut out: Vec<Tween<S, V>> = Vec::new();
    let mut i: usize = 0;
    proof {
        reveal(Seq::filter);
        assert(ts@.take(0) =~= Seq::empty());
    }
    while i < ts.len()
        invariant
            i <= ts.len(),
            out@ == without_key(ts@.take(i as int), key),
        decreases ts.len() - i,
    {
        proof {
            reveal(Seq::filter);
            assert(ts@.take(i + 1).drop_last() =~= ts@.take(i as int));
            assert(ts@.take(i + 1).last() == ts@[i as int]);
        }
        if ts[i].key != key {
            out.push(ts[i]);
        }
        i = i + 1;
    }
    assert(ts@.take(ts@.len() as int) =~= ts@);
    out
}

/// Advance every tween of a track; those that are over are dropped.
fn drive<S: Scalar, V: Lerp<S>>(
    ts: &mut Vec<Tween<S, V>>,
    store: &mut SignalStore<V>,
    now: u64,
) -> (r: bool)
    ensures
        final(ts)@ == running(old(ts)@, now),
        final(store)@ == driven(old(ts)@, old(store)@, now, old(ts)@.len()),
        r == drive_changes(old(ts)@, old(store)@, now, old(ts)@.len()),
{
    let mut out: Vec<Tween<S, V>> = Vec::new();
    let mut updated: bool = false;
    let mut i: usize = 0;
    proof {
        reveal(Seq::filter);
        assert(ts@.take(0) =~= Seq::empty());
    }
    while i < ts.len()
        invariant
            i <= ts.len(),
            ts@ == old(ts)@,
            out@ == running(ts@.take(i as int), now),
            store@ == driven(ts@, old(store)@, now, i as nat),
            updated == drive_changes(ts@, old(store)@, now, i as nat),
        decreases ts.len() - i,
    {
        proof {
            reveal(Seq::filter);
            assert(ts@.take(i + 1).drop_last() =~= ts@.take(i as int));
            assert(ts@.take(i + 1).last() == ts@[i as int]);
        }
        let tw: Tween<S, V> = ts[i];
        let (val, done) = tw.sample(now);
        let final_val: V = if done {
            tw.to
        } else {
            val
        };
        if store.set(tw.signal, final_val) {
            updated = true;
        }
        if !done {
            out.push(tw);
        }
        i = i + 1;
    }
    assert(ts@.take(ts@.len() as int) =~= ts@);
    *ts = out;
    updated
}

// --- the timeline ----------------------------------------------------------

/// What a tick did.
#[derive(Copy, Clone, Debug, PartialEq, Eq)]
pub struct TickResult {
    /// Whether any signal changed.
    pub updated: bool,
    /// When to tick again; never, if nothing moves.
    pub next_deadline: Option<u64>,
}

impl Default for TickResult {
    fn default() -> (r: Self)
        ensures
            !r.updated,
            r.next_deadline is None,
    {
        TickResult { updated: false, next_deadline: None }
    }
}

/// Every tween in flight.
#[derive(Debug)]
pub struct Timeline<S> {
    numbers: Vec<Tween<S, Number<S>>>,
    colors: Vec<Tween<S, Color<S>>>,
    tick_interval: u64,
}

/// The contents of a timeline, oldest tweens first.
#[verifier::ext_equal]
pub struct TimelineView<S> {
    pub numbers: Seq<Tween<S, Number<S>>>,
    pub colors: Seq<Tween<S, Color<S>>>,
    pub tick_interval: u64,
}

impl<S> View for Timeline<S> {
    type V = TimelineView<S>;

    closed spec fn view(&self) -> TimelineView<S> {
        TimelineView {
            numbers: self.numbers@,
            colors: self.colors@,
            tick_interval: self.tick_interval,
        }
    }
}

/// The default pause between ticks: 16 ms.
pub const TICK_INTERVAL: u64 = 16_000_000;

impl<S: Scalar> TimelineView<S> {
    pub open spec fn idle() -> TimelineView<S> {
        TimelineView { numbers: Seq::empty(), colors: Seq::empty(), tick_interval: TICK_INTERVAL }
    }

    pub open spec fn size(self) -> nat {
        self.numbers.len() + self.colors.len()
    }

    pub open spec fn stopped(self, key: u32) -> TimelineView<S> {
        TimelineView {
            numbers: without_key(self.numbers, key),
            colors: without_key(self.colors, key),
            ..self
        }
    }

    /// Whether each key is used once.
    pub open spec fn keys_unique(self) -> bool {
        &&& forall|i: int, j: int|
            0 <= i < j < self.numbers.len() ==> (#[trigger] self.numbers[i]).key != (
            #[trigger] self.numbers[j]).key
        &&& forall|i: int, j: int|
            0 <= i < j < self.colors.len() ==> (#[trigger] self.colors[i]).key != (
            #[trigger] self.colors[j]).key
        &&& forall|i: int, j: int|
            0 <= i < self.numbers.len() && 0 <= j < self.colors.len() ==> (
            #[trigger] self.numbers[i]).key != (#[trigger] self.colors[j]).key
    }

    /// The timeline after a number is sent to `to`.
    pub open spec fn number_started(
        self,
        key: u32,
        signal: Signal<Number<S>>,
        from: Number<S>,
        to: S,
        curve: Curve<S>,
        duration: u64,
        now: u64,
    ) -> TimelineView<S> {
        let t = self.stopped(key);
        if from.value.eqv(to) {
            t
        } else {
            TimelineView {
                numbers: t.numbers.push(
                    Tween {
                        key,
                        signal,
                        from,
                        to: Number { value: to },
                        curve,
                        start: now,
                        duration,
                    },
                ),
                ..t
            }
        }
    }

    /// The timeline after a colour is sent to `to`.
    pub open spec fn color_started(
        self,
        key: u32,
        signal: Signal<Color<S>>,
        from: Color<S>,
        to: Color<S>,
        curve: Curve<S>,
        duration: u64,
        now: u64,
    ) -> TimelineView<S> {
        let t = self.stopped(key);
        if from.unchanged(to) {
            t
        } else {
            TimelineView {
                colors: t.colors.push(
                    Tween { key, signal, from, to, curve, start: now, duration },
                ),
                ..t
            }
        }
    }

    /// The timeline without its tweens.
    pub open spec fn cleared(self) -> TimelineView<S> {
        TimelineView { numbers: Seq::empty(), colors: Seq::empty(), ..self }
    }

    /// The timeline after a tick.
    pub open spec fn advanced(self, now: u64) -> TimelineView<S> {
        TimelineView {
            numbers: running(self.numbers, now),
            colors: running(self.colors, now),
            ..self
        }
    }
}

impl<S: Scalar> Timeline<S> {
    pub fn new() -> (r: Self)
        ensures
            r@ == TimelineView::<S>::idle(),
    {
        Timeline { numbers: Vec::new(), colors: Vec::new(), tick_interval: TICK_INTERVAL }
    }

    /// Whether anything moves.
    pub fn active(&self) -> (r: bool)
        ensures
            r == (self@.size() > 0),
    {
        !self.is_empty()
    }

    /// Number of tweens.
    pub fn len(&self) -> (r: usize)
        requires
            self@.size() <= usize::MAX,
        ensures
            r == self@.size(),
    {
        self.numbers.len() + self.colors.len()
    }

    pub fn is_empty(&self) -> (r: bool)
        ensures
            r == (self@.size() == 0),
    {
        self.numbers.len() == 0 && self.colors.len() == 0
    }

    /// The tweens of numbers.
    pub fn numbers(&self) -> (r: &[Tween<S, Number<S>>])
        ensures
            r@ == self@.numbers,
    {
        self.numbers.as_slice()
    }

    /// The tweens of colours.
    pub fn colors(&self) -> (r: &[Tween<S, Color<S>>])
        ensures
            r@ == self@.colors,
    {
        self.colors.as_slice()
    }

    pub fn tick_interval(&self) -> (r: u64)
        ensures
            r == self@.tick_interval,
    {
        self.tick_interval
    }

    pub fn set_tick_interval(&mut self, dt: u64)
        ensures
            final(self)@ == (TimelineView { tick_interval: dt, ..old(self)@ }),
    {
        self.tick_interval = dt;
    }

    /// Send a number to `to`, from where it is now, so that turning round
    /// half way is smooth. Replaces the key's tween; starts none if the number
    /// is there already.
    pub fn start(
        &mut self,
        key: u32,
        signal: Signal<Number<S>>,
        to: S,
        curve: Curve<S>,
        duration: u64,
        now: u64,
        store: &SignalStore<Number<S>>,
    )
        requires
            store.holds(signal),
        ensures
            final(self)@ == old(self)@.number_started(
                key,
                signal,
                store@[signal.cell() as int].value,
                to,
                curve,
                duration,
                now,
            ),
    {
        self.stop(key);
        let from: Number<S> = store.get(signal);
        if from.value.same(to) {
            return ;
        }
        self.numbers.push(
            Tween { key, signal, from, to: Number { value: to }, curve, start: now, duration },
        );
    }

    /// Send a colour to `to`, as [`Timeline::start`] does a number.
    pub fn start_color(
        &mut self,
        key: u32,
        signal: Signal<Color<S>>,
        to: Color<S>,
        curve: Curve<S>,
        duration: u64,
        now: u64,
        store: &SignalStore<Color<S>>,
    )
        requires
            store.holds(signal),
        ensures
            final(self)@ == old(self)@.color_started(
                key,
                signal,
                store@[signal.cell() as int].value,
                to,
                curve,
                duration,
                now,
            ),
    {
        self.stop(key);
        let from: Color<S> = store.get(signal);
        if from.same_value(to) {
            return ;
        }
        self.colors.push(Tween { key, signal, from, to, curve, start: now, duration });
    }

    /// Drop the key's tween, leaving its value where it is.
    pub fn stop(&mut self, key: u32)
        ensures
            final(self)@ == old(self)@.stopped(key),
    {
        self.numbers = drop_key(&self.numbers, key);
        self.colors = drop_key(&self.colors, key);
    }

    /// Drop every tween.
    pub fn clear(&mut self)
        ensures
            final(self)@ == old(self)@.cleared(),
    {
        self.numbers.clear();
        self.colors.clear();
    }

    /// Bring every tween to its destination at once, and drop it.
    pub fn finish(&mut self, signals: &mut Signals<S>)
        ensures
            final(self)@ == old(self)@.cleared(),
            final(signals).flags == old(signals).flags,
            final(signals).numbers@ == arrived(
                old(self)@.numbers,
                old(signals).numbers@,
                old(self)@.numbers.len(),
            ),
            final(signals).colors@ == arrived(
                old(self)@.colors,
                old(signals).colors@,
                old(self)@.colors.len(),
            ),
    {
        land(&self.numbers, &mut signals.numbers);
        land(&self.colors, &mut signals.colors);
        self.clear();
    }

    /// Bring every tween to `now`, writing its value through its signal. A
    /// tween that is over writes its destination and is dropped.
    pub fn tick(&mut self, now: u64, signals: &mut Signals<S>) -> (r: TickResult)
        requires
            now + old(self)@.tick_interval <= u64::MAX,
        ensures
            final(self)@ == old(self)@.advanced(now),
            final(signals).flags == old(signals).flags,
            final(signals).numbers@ == driven(
                old(self)@.numbers,
                old(signals).numbers@,
                now,
                old(self)@.numbers.len(),
            ),
            final(signals).colors@ == driven(
                old(self)@.colors,
                old(signals).colors@,
                now,
                old(self)@.colors.len(),
            ),
            r.updated == (drive_changes(
                old(self)@.numbers,
                old(signals).numbers@,
                now,
                old(self)@.numbers.len(),
            ) || drive_changes(
                old(self)@.colors,
                old(signals).colors@,
                now,
                old(self)@.colors.len(),
            )),
            r.next_deadline == (if old(self)@.advanced(now).size() == 0 {
                None
            } else {
                Some((now + old(self)@.tick_interval) as u64)
            }),
    {
        let numbers_changed: bool = drive(&mut self.numbers, &mut signals.numbers, now);
        let colors_changed: bool = drive(&mut self.colors, &mut signals.colors, now);
        let next_deadline: Option<u64> = if self.is_empty() {
            None
        } else {
            Some(now + self.tick_interval)
        };
        TickResult { updated: numbers_changed || colors_changed, next_deadline }
    }
}

impl<S: Scalar> Default for Timeline<S> {
    fn default() -> (r: Self)
        ensures
            r@ == TimelineView::<S>::idle(),
    {
        Timeline::new()
    }
}

} // verus!
