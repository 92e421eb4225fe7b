//! What laws may ask of a scalar's arithmetic.
//!
//! Nothing here is taken for granted by any function: a law that needs one of
//! these properties asks for it. They are properties of IEEE floats as much as
//! of [`Fixed`]: floats that are no numbers are left out wherever they would
//! break an order, and rounding is only ever asked to keep the order.
use vstd::prelude::*;

use crate::scalar::{clamped, one_s, zero_s, Fixed, Scalar};

verus! {

/// Whether a value is a number. A float that is none equals nothing, not even
/// itself.
pub open spec fn number<S: Scalar>(a: S) -> bool {
    a.eqv(a)
}

/// Whether a value is a number that differences can be taken of.
pub open spec fn finite<S: Scalar>(a: S) -> bool {
    number(a) && number(a.diff(a))
}

/// How two values compare: what is no number compares with nothing; of two
/// numbers one is less or they are equal; the larger and the smaller of two
/// numbers are picked by that.
pub open spec fn compares<S: Scalar>(a: S, b: S) -> bool {
    &&& a.less(b) || a.leq(b) || a.eqv(b) ==> number(a) && number(b)
    &&& a.eqv(b) == b.eqv(a)
    &&& a.leq(b) == (a.less(b) || a.eqv(b))
    &&& number(a) && number(b) ==> a.less(b) || a.eqv(b) || b.less(a)
    &&& !(a.less(b) && b.less(a))
    &&& !(a.less(b) && a.eqv(b))
    &&& number(a) && number(b) ==> a.hi(b) == a || a.hi(b) == b
    &&& a.less(b) ==> a.hi(b) == b && b.hi(a) == b
    &&& number(a) && number(b) ==> a.lo(b) == a || a.lo(b) == b
    &&& a.less(b) ==> a.lo(b) == a && b.lo(a) == a
}

/// How comparisons chain.
pub open spec fn chains<S: Scalar>(a: S, b: S, c: S) -> bool {
    &&& a.leq(b) && b.leq(c) ==> a.leq(c)
    &&& a.less(b) && b.leq(c) ==> a.less(c)
    &&& a.leq(b) && b.less(c) ==> a.less(c)
}

/// Numbers are ordered, up to numeric equality.
pub open spec fn ordered_numbers<S: Scalar>() -> bool {
    &&& forall|a: S, b: S| #[trigger] compares(a, b)
    &&& forall|a: S, b: S, c: S| #[trigger] chains(a, b, c)
    &&& zero_s::<S>().less(one_s())
}

/// How sums, differences and products of two finite numbers keep the order.
pub open spec fn keeps_order<S: Scalar>(x: S, y: S, k: S) -> bool {
    &&& finite(x) && finite(y) ==> {
        &&& number(x.diff(y))
        &&& zero_s::<S>().less(x.diff(y)) == y.less(x)
        &&& zero_s::<S>().leq(x.diff(y)) == y.leq(x)
        &&& zero_s::<S>().leq(y) && y.leq(x) ==> finite(x.diff(y))
    }
    &&& finite(x) && finite(k) ==> number(x.sum(k))
    &&& finite(x) && finite(k) && zero_s::<S>().leq(k) ==> x.leq(x.sum(k))
    &&& finite(x) && finite(y) && finite(k) && x.leq(y) ==> x.sum(k).leq(y.sum(k)) && k.sum(x).leq(
        k.sum(y),
    )
    &&& finite(x) && zero_s::<S>().leq(k) && k.leq(one_s()) && zero_s::<S>().leq(x) ==> {
        &&& zero_s::<S>().leq(k.prod(x))
        &&& k.prod(x).leq(x)
        &&& zero_s::<S>().leq(x.prod(k))
        &&& x.prod(k).leq(x)
        &&& finite(k.prod(x)) && finite(x.prod(k))
    }
}

/// Arithmetic rounds without turning the order of two results round.
pub open spec fn rounds_in_order<S: Scalar>() -> bool {
    forall|x: S, y: S, k: S| #[trigger] keeps_order(x, y, k)
}

/// On ordered numbers a clamped value lies within its bounds, a value within
/// them is kept, and clamping again changes nothing.
pub proof fn clamp_stays_within<S: Scalar>(x: S, lo: S, hi: S)
    requires
        ordered_numbers::<S>(),
        number(x),
        lo.leq(hi),
    ensures
        number(clamped(x, lo, hi)),
        lo.leq(clamped(x, lo, hi)),
        clamped(x, lo, hi).leq(hi),
        lo.leq(x) && x.leq(hi) ==> clamped(x, lo, hi) == x,
        clamped(clamped(x, lo, hi), lo, hi) == clamped(x, lo, hi),
{
    assert(compares(x, lo) && compares(lo, x) && compares(x, hi) && compares(hi, x));
    assert(compares(lo, hi) && compares(hi, lo) && compares(lo, lo) && compares(hi, hi));
}

/// The larger of two numbers is at least each, and below whatever both are
/// below.
pub proof fn larger_is_least_upper_bound<S: Scalar>(a: S, b: S, x: S)
    requires
        ordered_numbers::<S>(),
        number(a),
        number(b),
    ensures
        number(a.hi(b)),
        a.leq(a.hi(b)),
        b.leq(a.hi(b)),
        a.hi(b).leq(x) <==> a.leq(x) && b.leq(x),
        a.hi(b).eqv(b.hi(a)),
        a.hi(a) == a,
{
    assert(compares(a, b) && compares(b, a) && compares(a, a) && compares(b, b));
    assert(chains(a, b, x) && chains(b, a, x));
}

/// The smaller of two numbers is at most each, and beyond whatever both are
/// beyond.
pub proof fn smaller_is_greatest_lower_bound<S: Scalar>(a: S, b: S, x: S)
    requires
        ordered_numbers::<S>(),
        number(a),
        number(b),
    ensures
        number(a.lo(b)),
        a.lo(b).leq(a),
        a.lo(b).leq(b),
        x.less(a.lo(b)) <==> x.less(a) && x.less(b),
        x.leq(a.lo(b)) <==> x.leq(a) && x.leq(b),
        a.lo(b).eqv(b.lo(a)),
        a.lo(a) == a,
{
    assert(compares(a, b) && compares(b, a) && compares(a, a) && compares(b, b));
    assert(chains(x, a, b) && chains(x, b, a));
}

/// Fixed-point numbers are ordered.
pub proof fn fixed_is_ordered()
    ensures
        ordered_numbers::<Fixed>(),
{
    assert(zero_s::<Fixed>().raw == 0 && one_s::<Fixed>().raw == 65536);
}

/// Fixed-point arithmetic rounds in order.
pub proof fn fixed_rounds_in_order()
    ensures
        rounds_in_order::<Fixed>(),
{
    assert(zero_s::<Fixed>().raw == 0 && one_s::<Fixed>().raw == 65536);
    assert forall|x: Fixed, y: Fixed, k: Fixed| #[trigger] keeps_order(x, y, k) by {
        if 0 <= k.raw <= 65536 && 0 <= x.raw {
            assert(0 <= k.raw * x.raw <= 65536 * x.raw && x.raw * k.raw == k.raw * x.raw)
                by (nonlinear_arith)
                requires
                    0 <= k.raw <= 65536,
                    0 <= x.raw,
            ;
        }
    }
}

} // verus!
