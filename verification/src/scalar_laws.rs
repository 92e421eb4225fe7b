//! What fixed-point arithmetic keeps of the arithmetic of numbers.
use vstd::prelude::*;

use crate::scalar::{
    clamped, eqv2, eqv4, hump, magnitude, one_s, saturated, zero_s, Fixed, Scalar, PI_RAW,
};
use crate::signal::{Color, Number, Reactive};

verus! {

/// Sums and differences are exact where they are in range, and undo each
/// other; beyond it they stay at its ends.
pub proof fn sums_undo_differences(a: Fixed, b: Fixed)
    ensures
        i64::MIN <= a.raw + b.raw <= i64::MAX ==> a.sum(b).raw == a.raw + b.raw && a.sum(b).diff(
            b,
        ) == a,
        i64::MIN <= a.raw - b.raw <= i64::MAX ==> a.diff(b).raw == a.raw - b.raw && a.diff(b).sum(
            b,
        ) == a,
        a.sum(b) == b.sum(a),
        a.raw + b.raw > i64::MAX ==> a.sum(b).raw == i64::MAX,
        a.raw + b.raw < i64::MIN ==> a.sum(b).raw == i64::MIN,
        a.sum(zero_s()) == a,
        a.diff(a) == zero_s::<Fixed>(),
{
    assert(zero_s::<Fixed>().raw == 0);
}

/// A product is within one place below the true one; one is neutral, zero
/// annuls.
pub proof fn products_round_down(a: Fixed, b: Fixed)
    requires
        -0x7fff_ffff_ffff_ffff_0000 <= a.raw * b.raw <= 0x7fff_ffff_ffff_ffff_0000,
    ensures
        a.prod(b).raw * 65536 <= a.raw * b.raw < (a.prod(b).raw + 1) * 65536,
        a.prod(b) == b.prod(a),
        a.prod(one_s()) == a,
        a.prod(zero_s()) == zero_s::<Fixed>(),
{
    assert(zero_s::<Fixed>().raw == 0 && one_s::<Fixed>().raw == 65536);
    assert(a.raw * b.raw == b.raw * a.raw) by (nonlinear_arith);
    assert(a.raw * 0 == 0 && (a.raw * 65536) / 65536 == a.raw);
}

/// A quotient is within one place below the true one.
pub proof fn quotients_round_down(a: Fixed, b: Fixed)
    requires
        b.raw > 0,
        i64::MIN <= (a.raw * 65536) / (b.raw as int) <= i64::MAX,
    ensures
        a.quot(b).raw * b.raw <= a.raw * 65536 < (a.quot(b).raw + 1) * b.raw,
        a.quot(one_s()) == a,
{
    let n = a.raw * 65536;
    let d = b.raw as int;
    assert((n / d) * d <= n < (n / d + 1) * d) by (nonlinear_arith)
        requires
            d > 0,
    ;
    assert(one_s::<Fixed>().raw == 65536);
    assert((a.raw * 65536) / 65536 == a.raw);
}

/// A rounded number is whole, and no further than a half away; a half goes up.
pub proof fn rounding_is_to_the_nearest(a: Fixed)
    requires
        a.raw <= 0x7fff_ffff_ffff_0000,
    ensures
        a.rnd().raw % 65536 == 0,
        -32768 < a.rnd().raw - a.raw <= 32768,
        a.raw % 65536 == 0 ==> a.rnd() == a,
{
}

/// The whole part of a number is the largest whole number not above it, zero
/// below zero.
pub proof fn whole_parts_are_floors(a: Fixed)
    ensures
        a.raw < 0 ==> a.whole() == 0,
        0 <= a.raw <= 0xffff_ffff_ffff ==> a.whole() * 65536 <= a.raw < (a.whole() + 1) * 65536,
{
}

/// The greater and the lesser of two numbers are those two, in order.
pub proof fn greater_and_lesser(a: Fixed, b: Fixed)
    ensures
        a.lo(b).raw <= a.hi(b).raw,
        a.lo(b) == a && a.hi(b) == b || a.lo(b) == b && a.hi(b) == a,
        a.less(b) <==> a.raw < b.raw,
        a.leq(b) <==> a.raw <= b.raw,
{
}

/// A magnitude is the number or its negative, whichever is not negative.
pub proof fn magnitudes_are_not_negative(a: Fixed)
    requires
        a.raw > i64::MIN,
    ensures
        magnitude(a).raw >= 0,
        magnitude(a).raw == a.raw || magnitude(a).raw == -a.raw,
        magnitude(a).raw == 0 <==> a.raw == 0,
{
    assert(zero_s::<Fixed>().raw == 0);
}

/// A clamped number is the nearest to it between the ends.
pub proof fn clamping_goes_to_the_nearest_end(a: Fixed, lo: Fixed, hi: Fixed)
    requires
        lo.raw <= hi.raw,
    ensures
        lo.raw <= clamped(a, lo, hi).raw <= hi.raw,
        lo.raw <= a.raw <= hi.raw ==> clamped(a, lo, hi) == a,
        a.raw < lo.raw ==> clamped(a, lo, hi) == lo,
        hi.raw < a.raw ==> clamped(a, lo, hi) == hi,
{
}

/// Pairs and quadruples are the same exactly where each part is.
pub proof fn sameness_is_of_every_part(a: [Fixed; 4], b: [Fixed; 4], c: [Fixed; 2], d: [Fixed; 2])
    ensures
        eqv4(a, b) <==> a[0] == b[0] && a[1] == b[1] && a[2] == b[2] && a[3] == b[3],
        eqv2(c, d) <==> c[0] == d[0] && c[1] == d[1],
        ({
            let x = Color { rgba: a };
            let y = Color { rgba: b };
            x.unchanged(y) <==> eqv4(a, b)
        }),
        ({
            let x = Number { value: a[0] };
            let y = Number { value: b[0] };
            x.unchanged(y) <==> a[0] == b[0]
        }),
{
}

/// The sine is odd, repeats every turn, is positive in the first half turn and
/// never beyond one; the cosine is the sine a quarter turn on.
pub proof fn sines_swing(a: Fixed, b: Fixed)
    requires
        b.raw == a.raw + 2 * PI_RAW,
        i64::MIN < a.raw,
    ensures
        a.sine() == b.sine(),
        0 < a.raw < PI_RAW ==> 0 <= a.sine().raw,
        -65536 <= a.sine().raw <= 65536,
        (saturated(-a.raw)).sine().raw == -a.sine().raw,
        a.raw <= 0x7fff_0000_0000_0000 ==> a.cosine() == saturated(a.raw + 102943).sine(),
{
    let turn = 2 * PI_RAW as int;
    let t = (a.raw as int) % turn;
    assert((a.raw + turn) % turn == t) by (nonlinear_arith)
        requires
            t == (a.raw as int) % turn,
            turn == 411774,
    ;
    lemma_bump(t);
    lemma_bump(t - PI_RAW);
    assert((-a.raw) % turn == if t == 0 {
        0
    } else {
        turn - t
    }) by {
        let q = (a.raw as int) / turn;
        assert(a.raw == q * turn + t);
        if t == 0 {
            vstd::arithmetic::div_mod::lemma_fundamental_div_mod_converse(-a.raw, turn, -q, 0);
        } else {
            vstd::arithmetic::div_mod::lemma_fundamental_div_mod_converse(
                -a.raw,
                turn,
                -q - 1,
                turn - t,
            );
        }
    }
    lemma_bump(turn - t);
    lemma_bump(turn - t - PI_RAW);
    lemma_bump(0);
}

proof fn lemma_bump(t: int)
    ensures
        0 <= t <= PI_RAW ==> 0 <= hump(t) <= 65536,
        hump(PI_RAW - t) == hump(t),
        hump(0) == 0,
        hump(PI_RAW as int) == 0,
{
    let p = PI_RAW as int;
    assert(4 * 65536 * t * (p - t) == 4 * 65536 * (p - t) * (p - (p - t))) by (nonlinear_arith);
    assert(p * p == 42389456769) by (nonlinear_arith)
        requires
            p == 205887,
    ;
    if 0 <= t <= p {
        assert(0 <= t * (p - t) && 4 * (t * (p - t)) <= p * p) by (nonlinear_arith)
            requires
                0 <= t <= p,
        ;
        assert(4 * 65536 * t * (p - t) == 65536 * (4 * (t * (p - t)))) by (nonlinear_arith);
    }
    assert(4 * 65536 * 0 * (p - 0) == 0);
    assert(4 * 65536 * p * (p - p) == 0) by (nonlinear_arith);
}

} // verus!
