//! Props that follow a source.
//!
//! A [`Bind`] is either a plain value or a source that is re-read when its
//! version moves, with or without an animation on the way.
use vstd::prelude::*;

use crate::anim::Curve;
use crate::scalar::Scalar;
use crate::signal::{store_changes, store_set, Cell, Reactive, Signal, SignalStore};

verus! {

/// A value derived from others. Whoever derives it refreshes its cell when
/// what it depends on changes.
#[derive(Debug)]
pub struct Computed<V> {
    cell: Signal<V>,
}

impl<V> Copy for Computed<V> {

}

impl<V> Clone for Computed<V> {
    fn clone(&self) -> (r: Self)
        ensures
            r == *self,
    {
        *self
    }
}

impl<V: Reactive> Computed<V> {
    /// The cell that holds the derived value.
    pub closed spec fn output(self) -> Signal<V> {
        self.cell
    }

    /// A derived value that is `value` for now.
    pub fn new(store: &mut SignalStore<V>, value: V) -> (r: Self)
        requires
            old(store)@.len() < u32::MAX,
        ensures
            r.output().cell() == old(store)@.len(),
            final(store)@ == old(store)@.push(Cell { value, version: 0 }),
    {
        Computed { cell: store.signal(value) }
    }

    /// Tell the derived value what it now is. Returns whether that is new.
    pub fn refresh(&self, store: &mut SignalStore<V>, value: V) -> (r: bool)
        ensures
            final(store)@ == store_set(old(store)@, self.output(), value),
            r == store_changes(old(store)@, self.output(), value),
    {
        store.set(self.cell, value)
    }

    fn read(&self, store: &SignalStore<V>) -> (r: V)
        requires
            store.holds(self.output()),
        ensures
            r == store@[self.output().cell() as int].value,
    {
        store.get(self.cell)
    }

    fn version(&self, store: &SignalStore<V>) -> (r: u64)
        requires
            store.holds(self.output()),
        ensures
            r == store@[self.output().cell() as int].version,
    {
        store.version(self.cell)
    }
}

/// What an animated prop follows.
#[derive(Debug)]
pub enum Source<V> {
    Signal(Signal<V>),
    Computed(Computed<V>),
}

impl<V> Copy for Source<V> {

}

impl<V> Clone for Source<V> {
    fn clone(&self) -> (r: Self)
        ensures
            r == *self,
    {
        *self
    }
}

impl<V: Reactive> Source<V> {
    /// The cell that is followed.
    pub open spec fn cell(self) -> nat {
        match self {
            Source::Signal(s) => s.cell(),
            Source::Computed(c) => c.output().cell(),
        }
    }
}

/// A source, and how to move to each new value of it.
#[derive(Copy, Clone, Debug)]
pub struct AnimatedBind<S, V> {
    pub source: Source<V>,
    pub curve: Curve<S>,
    pub duration: u64,
}

/// Follow `source`, easing to each new value.
pub fn animated<S: Scalar, V: Reactive>(
    source: Source<V>,
    curve: Curve<S>,
    duration: u64,
) -> (r: AnimatedBind<S, V>)
    ensures
        r == (AnimatedBind { source, curve, duration }),
{
    AnimatedBind { source, curve, duration }
}

/// Where a prop gets its value.
#[derive(Copy, Clone, Debug)]
pub enum Bind<S, V> {
    /// A constant.
    Value(V),
    /// Whatever a signal holds, at once.
    Signal(Signal<V>),
    /// Whatever a derivation yields, at once.
    Computed(Computed<V>),
    /// Whatever a source holds, eased to.
    Animated(AnimatedBind<S, V>),
}

impl<S: Scalar, V: Reactive> Bind<S, V> {
    /// The source cell, if there is one.
    pub open spec fn followed(self) -> Option<nat> {
        match self {
            Bind::Value(_) => None,
            Bind::Signal(s) => Some(s.cell()),
            Bind::Computed(c) => Some(c.output().cell()),
            Bind::Animated(a) => Some(a.source.cell()),
        }
    }

    /// Whether the source is in a store.
    pub open spec fn valid(self, store: Seq<Cell<V>>) -> bool {
        self.followed() matches Some(c) ==> c < store.len()
    }

    /// The value now.
    pub open spec fn current(self, store: Seq<Cell<V>>) -> V {
        match self {
            Bind::Value(v) => v,
            _ => store[self.followed()->Some_0 as int].value,
        }
    }

    /// The source's version; a constant stays at zero.
    pub open spec fn stamp(self, store: Seq<Cell<V>>) -> u64 {
        match self {
            Bind::Value(_) => 0,
            _ => store[self.followed()->Some_0 as int].version,
        }
    }

    pub fn read(&self, store: &SignalStore<V>) -> (r: V)
        requires
            self.valid(store@),
        ensures
            r == self.current(store@),
    {
        match self {
            Bind::Value(v) => *v,
            Bind::Signal(s) => store.get(*s),
            Bind::Computed(c) => c.read(store),
            Bind::Animated(a) => match a.source {
                Source::Signal(s) => store.get(s),
                Source::Computed(c) => c.read(store),
            },
        }
    }

    pub fn version(&self, store: &SignalStore<V>) -> (r: u64)
        requires
            self.valid(store@),
        ensures
            r == self.stamp(store@),
    {
        match self {
            Bind::Value(_) => 0,
            Bind::Signal(s) => store.version(*s),
            Bind::Computed(c) => c.version(store),
            Bind::Animated(a) => match a.source {
                Source::Signal(s) => store.version(s),
                Source::Computed(c) => c.version(store),
            },
        }
    }

    /// The easing, if the prop is animated.
    pub open spec fn easing(self) -> Option<(Curve<S>, u64)> {
        match self {
            Bind::Animated(a) => Some((a.curve, a.duration)),
            _ => None,
        }
    }

    pub fn animation(&self) -> (r: Option<(Curve<S>, u64)>)
        ensures
            r == self.easing(),
    {
        match self {
            Bind::Animated(a) => Some((a.curve, a.duration)),
            _ => None,
        }
    }

    /// Whether the prop can change.
    pub fn is_reactive(&self) -> (r: bool)
        ensures
            r == !(self is Value),
    {
        !matches!(self, Bind::Value(_))
    }
}

} // verus!
