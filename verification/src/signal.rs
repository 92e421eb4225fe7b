//! Reactive values.
//!
//! A [`Signal`] is a handle into a [`SignalStore`]. Every write that changes
//! the value bumps the cell's version, which is how observers notice.
use core::marker::PhantomData;

use vstd::prelude::*;

use crate::scalar::Scalar;

verus! {

/// A value that a signal can carry: it knows when a write would change
/// nothing.
pub trait Reactive: Copy + Sized {
    spec fn unchanged(self, other: Self) -> bool;

    fn same_value(self, other: Self) -> (r: bool)
        ensures
            r == self.unchanged(other),
    ;
}

impl Reactive for bool {
    open spec fn unchanged(self, other: bool) -> bool {
        self == other
    }

    fn same_value(self, other: bool) -> (r: bool) {
        self == other
    }
}

/// A number, as a signal carries it.
#[derive(Copy, Clone, Debug)]
pub struct Number<S> {
    pub value: S,
}

impl<S: Scalar> Reactive for Number<S> {
    open spec fn unchanged(self, other: Number<S>) -> bool {
        self.value.eqv(other.value)
    }

    fn same_value(self, other: Number<S>) -> (r: bool) {
        self.value.same(other.value)
    }
}

/// A linear RGBA colour, as a signal carries it.
#[derive(Copy, Clone, Debug)]
pub struct Color<S> {
    pub rgba: [S; 4],
}

impl<S: Scalar> Reactive for Color<S> {
    open spec fn unchanged(self, other: Color<S>) -> bool {
        crate::scalar::eqv4(self.rgba, other.rgba)
    }

    fn same_value(self, other: Color<S>) -> (r: bool) {
        crate::scalar::same4(self.rgba, other.rgba)
    }
}

/// A handle to one value of a [`SignalStore`].
#[derive(Debug)]
pub struct Signal<T> {
    index: u32,
    kind: PhantomData<T>,
}

impl<T> Copy for Signal<T> {

}

impl<T> Clone for Signal<T> {
    fn clone(&self) -> (r: Self)
        ensures
            r == *self,
    {
        *self
    }
}

impl<T> Signal<T> {
    /// The position of the cell it names.
    pub closed spec fn cell(self) -> nat {
        self.index as nat
    }
}

/// One stored value and the number of changes it has seen.
#[derive(Copy, Clone, Debug)]
pub struct Cell<T> {
    pub value: T,
    pub version: u64,
}

/// All the values of one type.
#[derive(Debug)]
pub struct SignalStore<T> {
    cells: Vec<Cell<T>>,
}

impl<T> View for SignalStore<T> {
    type V = Seq<Cell<T>>;

    closed spec fn view(&self) -> Seq<Cell<T>> {
        self.cells@
    }
}

/// The cell after `v` is written to it.
pub open spec fn written<T: Reactive>(c: Cell<T>, v: T) -> Cell<T> {
    if c.value.unchanged(v) {
        c
    } else {
        Cell { value: v, version: c.version.wrapping_add(1) }
    }
}

/// A store after `v` is written through a handle: only the named cell can
/// differ, and an unknown handle writes nothing.
pub open spec fn store_set<T: Reactive>(s: Seq<Cell<T>>, sig: Signal<T>, v: T) -> Seq<Cell<T>> {
    if sig.cell() < s.len() {
        s.update(sig.cell() as int, written(s[sig.cell() as int], v))
    } else {
        s
    }
}

/// Whether writing `v` through the handle changes anything.
pub open spec fn store_changes<T: Reactive>(s: Seq<Cell<T>>, sig: Signal<T>, v: T) -> bool {
    sig.cell() < s.len() && !s[sig.cell() as int].value.unchanged(v)
}

impl<T: Reactive> SignalStore<T> {
    /// Whether the handle names a cell of this store.
    pub open spec fn holds(&self, sig: Signal<T>) -> bool {
        sig.cell() < self@.len()
    }

    pub fn new() -> (r: Self)
        ensures
            r@ == Seq::<Cell<T>>::empty(),
    {
        SignalStore { cells: Vec::new() }
    }

    /// Allocate a signal that starts at `value`, version zero.
    pub fn signal(&mut self, value: T) -> (r: Signal<T>)
        requires
            old(self)@.len() < u32::MAX,
        ensures
            r.cell() == old(self)@.len(),
            final(self)@ == old(self)@.push(Cell { value, version: 0 }),
    {
        let index: u32 = self.cells.len() as u32;
        self.cells.push(Cell { value, version: 0 });
        Signal { index, kind: PhantomData }
    }

    /// Number of cells.
    pub fn len(&self) -> (r: usize)
        ensures
            r == self@.len(),
    {
        self.cells.len()
    }

    /// Whether the handle was made by this store.
    pub fn knows(&self, sig: Signal<T>) -> (r: bool)
        ensures
            r == self.holds(sig),
    {
        (sig.index as usize) < self.cells.len()
    }

    pub fn get(&self, sig: Signal<T>) -> (r: T)
        requires
            self.holds(sig),
        ensures
            r == self@[sig.cell() as int].value,
    {
        self.cells[sig.index as usize].value
    }

    pub fn version(&self, sig: Signal<T>) -> (r: u64)
        requires
            self.holds(sig),
        ensures
            r == self@[sig.cell() as int].version,
    {
        self.cells[sig.index as usize].version
    }

    /// Write `value`. A write of the value already held is dropped; anything
    /// else bumps the version. Returns whether the value changed.
    pub fn set(&mut self, sig: Signal<T>, value: T) -> (r: bool)
        ensures
            final(self)@ == store_set(old(self)@, sig, value),
            r == store_changes(old(self)@, sig, value),
    {
        let i: usize = sig.index as usize;
        if i < self.cells.len() {
            let c: Cell<T> = self.cells[i];
            if c.value.same_value(value) {
                assert(self.cells@.update(i as int, c) =~= self.cells@);
                false
            } else {
                self.cells.set(i, Cell { value, version: c.version.wrapping_add(1) });
                true
            }
        } else {
            false
        }
    }
}

impl<T: Reactive> Default for SignalStore<T> {
    fn default() -> (r: Self)
        ensures
            r@ == Seq::<Cell<T>>::empty(),
    {
        SignalStore::new()
    }
}

/// A write is observed through the version: it moves exactly when the value
/// does, and no other cell is touched.
pub proof fn write_is_visible<T: Reactive>(s: Seq<Cell<T>>, sig: Signal<T>, v: T)
    requires
        sig.cell() < s.len(),
    ensures
        store_set(s, sig, v).len() == s.len(),
        store_changes(s, sig, v) <==> store_set(s, sig, v)[sig.cell() as int].version
            != s[sig.cell() as int].version,
        store_changes(s, sig, v) ==> store_set(s, sig, v)[sig.cell() as int].value == v,
        !store_changes(s, sig, v) ==> store_set(s, sig, v) == s,
        forall|i: int|
            0 <= i < s.len() && i != sig.cell() ==> #[trigger] store_set(s, sig, v)[i] == s[i],
{
    let c = s[sig.cell() as int];
    assert(s.update(sig.cell() as int, c) =~= s);
}

/// The values of a scene, by type.
#[derive(Debug)]
pub struct Signals<S> {
    pub flags: SignalStore<bool>,
    pub numbers: SignalStore<Number<S>>,
    pub colors: SignalStore<Color<S>>,
}

impl<S: Scalar> Signals<S> {
    pub fn new() -> (r: Self)
        ensures
            r.flags@.len() == 0,
            r.numbers@.len() == 0,
            r.colors@.len() == 0,
    {
        Signals { flags: SignalStore::new(), numbers: SignalStore::new(), colors: SignalStore::new() }
    }
}

} // verus!
