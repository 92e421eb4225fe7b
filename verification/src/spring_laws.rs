//! What holds of springs.
use vstd::arithmetic::div_mod::{lemma_fundamental_div_mod, lemma_fundamental_div_mod_converse};
use vstd::prelude::*;

use crate::anim::spring;
use crate::scalar::{
    hump, is_root, magnitude, one_s, saturated, squared, whole_root, zero_s, Fixed, Scalar, PI_RAW,
};

verus! {

/// Every natural number has a whole root.
proof fn lemma_root(n: int)
    requires
        0 <= n,
    ensures
        is_root(whole_root(n), n),
    decreases n,
{
    if n == 0 {
        assert(is_root(0, 0));
    } else {
        lemma_root(n - 1);
        let r = whole_root(n - 1);
        if n < (r + 1) * (r + 1) {
            assert(is_root(r, n));
        } else {
            assert((r + 1) * (r + 1) <= n && n < (r + 2) * (r + 2)) by (nonlinear_arith)
                requires
                    0 <= r,
                    n - 1 < (r + 1) * (r + 1),
                    n >= (r + 1) * (r + 1),
            ;
            assert(is_root(r + 1, n));
        }
    }
}

/// The root of a number that is not negative is the largest whose square is
/// not above it, to the last place.
pub proof fn roots_are_floored(a: Fixed)
    requires
        0 <= a.raw,
    ensures
        0 <= a.root().raw,
        a.root().raw * a.root().raw <= a.raw * 65536,
        a.raw * 65536 < (a.root().raw + 1) * (a.root().raw + 1),
{
    let n = a.raw * 65536;
    lemma_root(n);
    let r = whole_root(n);
    assert(r <= 0x1_0000_0000_0000) by (nonlinear_arith)
        requires
            r * r <= n,
            n <= 0x7fff_ffff_ffff_ffff * 65536,
            0 <= r,
    ;
}

proof fn lemma_root_at_least(n: int, low: int)
    requires
        0 <= low,
        low * low <= n,
    ensures
        whole_root(n) >= low,
        whole_root(n) * whole_root(n) <= n,
        whole_root(n) >= 0,
{
    assert(n >= 0) by (nonlinear_arith)
        requires
            low * low <= n,
            low >= 0,
    ;
    lemma_root(n);
    let r = whole_root(n);
    if r < low {
        assert((r + 1) * (r + 1) <= low * low) by (nonlinear_arith)
            requires
                0 <= r < low,
        ;
    }
}

proof fn lemma_still()
    ensures
        zero_s::<Fixed>().raw == 0,
        one_s::<Fixed>().raw == 65536,
        zero_s::<Fixed>().expo() == one_s::<Fixed>(),
        zero_s::<Fixed>().sine() == zero_s::<Fixed>(),
        zero_s::<Fixed>().cosine().raw == 65535,
{
    let o = Fixed { raw: 65536 };
    assert(one_s::<Fixed>() == o);
    assert(o.raw * o.raw == 4294967296) by (nonlinear_arith)
        requires
            o.raw == 65536,
    ;
    assert(squared(o, 10) == o) by {
        reveal_with_fuel(squared, 11);
    }
    assert(saturated(65536 + (0i64 as int) / 1024) == o);
    assert(hump(0) == 0) by {
        assert(4 * 65536 * 0 * (PI_RAW - 0) == 0);
        assert(PI_RAW * PI_RAW == 42389456769);
    }
    assert(hump(102943) == 65535) by {
        assert(4 * 65536 * 102943 * (PI_RAW - 102943) == 262144 * 102943 * 102944);
        assert(PI_RAW * PI_RAW == 42389456769);
    }
    assert((0i64 as int) % (2 * PI_RAW) == 0);
    assert((0 + 102943int) % (2 * PI_RAW) == 102943);
}

proof fn lemma_times_zero(x: Fixed)
    ensures
        x.prod(zero_s()) == zero_s::<Fixed>(),
        zero_s::<Fixed>().prod(x) == zero_s::<Fixed>(),
        x.prod(one_s()) == x,
        one_s::<Fixed>().prod(x) == x,
{
    assert(zero_s::<Fixed>().raw == 0 && one_s::<Fixed>().raw == 65536);
    assert(x.raw * 0 == 0 && 0 * x.raw == 0) by (nonlinear_arith);
    assert((x.raw * 65536) / 65536 == x.raw && (65536 * x.raw) / 65536 == x.raw);
}

/// A spring that is released has not moved yet: its position is where it is
/// released, to the last place, and its velocity is zero; if it is overdamped,
/// to the last places, which grow with the damping.
pub proof fn springs_start_at_rest(k: Fixed, c: Fixed)
    requires
        0 < k.raw <= 0x100_0000_0000,
        c.raw <= 0x1_0000_0000,
    ensures
        0 <= spring(k, c, zero_s()).0.raw <= 1,
        !overdamped(k, c) ==> spring(k, c, zero_s()).1 == zero_s::<Fixed>(),
        overdamped(k, c) ==> -(c.raw as int / 65536) - 2 <= spring(k, c, zero_s()).1.raw <= 0,
{
    lemma_still();
    let z = zero_s::<Fixed>();
    let one = one_s::<Fixed>();
    let w0 = k.hi(Fixed::rat(1, 1_000_000)).root();
    let zeta = c.quot(Fixed::rat(2, 1).prod(w0));
    lemma_times_zero(w0);
    lemma_times_zero(z.diff(w0));
    lemma_times_zero(one);
    if magnitude(zeta.diff(one)).less(Fixed::rat(1, 10_000)) {
        lemma_times_zero(w0.prod(w0));
    } else if zeta.less(one) {
        let wd = w0.prod(one.diff(zeta.prod(zeta)).root());
        let a = zeta.prod(w0);
        lemma_times_zero(wd);
        lemma_times_zero(z.diff(a));
        lemma_times_zero(a.quot(wd));
        lemma_times_zero(w0.prod(w0).quot(wd));
        lemma_times_zero(Fixed { raw: 65535 });
        assert(z.diff(a).prod(z) == Fixed { raw: 0 });
    } else {
        lemma_overdamped(k, c);
        let (r1, r2, a1, a2) = parts(k, c);
        lemma_times_zero(r1);
        lemma_times_zero(r2);
        lemma_times_zero(a1);
        lemma_times_zero(a2);
        lemma_times_zero(z.diff(a1).prod(r1));
        lemma_times_zero(a2.prod(r2));
    }
}

/// Whether a spring is overdamped: it creeps, and swings not at all.
pub open spec fn overdamped(k: Fixed, c: Fixed) -> bool {
    let w0 = k.hi(Fixed::rat(1, 1_000_000)).root();
    let zeta = c.quot(Fixed::rat(2, 1).prod(w0));
    !magnitude(zeta.diff(one_s())).less(Fixed::rat(1, 10_000)) && !zeta.less(one_s())
}

/// The rates at which the two parts of an overdamped spring die down, slower
/// first, and the shares that they have.
spec fn parts(k: Fixed, c: Fixed) -> (Fixed, Fixed, Fixed, Fixed) {
    let w0 = k.hi(Fixed::rat(1, 1_000_000)).root();
    let zeta = c.quot(Fixed::rat(2, 1).prod(w0));
    let disc = zeta.prod(zeta).diff(one_s()).root();
    let r1 = zero_s::<Fixed>().diff(w0).prod(zeta.diff(disc));
    let r2 = zero_s::<Fixed>().diff(w0).prod(zeta.sum(disc));
    (r1, r2, zero_s::<Fixed>().diff(r2).quot(r1.diff(r2)), r1.quot(r1.diff(r2)))
}

proof fn lemma_overdamped(k: Fixed, c: Fixed)
    requires
        0 < k.raw <= 0x100_0000_0000,
        c.raw <= 0x1_0000_0000,
        overdamped(k, c),
    ensures
        ({
            let (r1, r2, a1, a2) = parts(k, c);
            let pull = zero_s::<Fixed>().diff(a1).prod(r1).raw;
            let hold = a2.prod(r2).raw;
            &&& 0 <= c.raw
            &&& r2.raw <= r1.raw <= 0
            &&& 65535 <= a1.raw + a2.raw <= 65536
            &&& -0x1_0000_0000_0000 <= a2.raw <= 0
            &&& 0 <= pull <= 0x4000_0000_0000_0000
            &&& 0 <= hold <= 0x4000_0000_0000_0000
            &&& -(c.raw as int / 65536) - 2 <= pull - hold <= 0
        }),
{
    lemma_still();
    let z = zero_s::<Fixed>();
    let one = one_s::<Fixed>();
    assert(Fixed::rat(1, 1_000_000).raw == 0);
    assert(Fixed::rat(1, 10_000).raw == 6);
    assert(Fixed::rat(2, 1).raw == 131072);
    let n = k.raw * 65536;
    lemma_root_at_least(n, 256);
    let w = whole_root(n);
    assert(w <= 0x1000_0000) by (nonlinear_arith)
        requires
            w * w <= n,
            n <= 0x100_0000_0000 * 65536,
            w >= 0,
    ;
    let w0 = k.hi(Fixed::rat(1, 1_000_000)).root();
    assert(w0.raw == w);
    let two = Fixed::rat(2, 1).prod(w0);
    assert(Fixed::rat(2, 1).raw * w0.raw == 131072 * w) by (nonlinear_arith)
        requires
            Fixed::rat(2, 1).raw == 131072,
            w0.raw == w,
    ;
    assert((131072 * w) / 65536 == 2 * w) by (nonlinear_arith);
    assert(two == saturated(2 * w));
    assert(two.raw == 2 * w);
    let zeta = c.quot(two);
    let g = (c.raw * 65536) / (2 * w);
    assert(g <= 0x80_0000_0000) by (nonlinear_arith)
        requires
            g == (c.raw * 65536) / (2 * w),
            c.raw <= 0x1_0000_0000,
            w >= 256,
    ;
    assert(c.raw >= 0) by {
        if c.raw < 0 {
            assert(g < 0) by (nonlinear_arith)
                requires
                    g == (c.raw * 65536) / (2 * w),
                    c.raw < 0,
                    w >= 256,
            ;
        }
    }
    assert(zeta.raw == g);
    assert(g >= 65542);
    let square = (g * g) / 65536;
    assert(65536 + 12 <= square && square <= 0x4000_0000_0000_0000) by (nonlinear_arith)
        requires
            square == (g * g) / 65536,
            65542 <= g <= 0x80_0000_0000,
    ;
    assert(zeta.prod(zeta).raw == square);
    let y = square - 65536;
    assert(zeta.prod(zeta).diff(one).raw == y);
    lemma_root_at_least(y * 65536, 886);
    lemma_root(y * 65536);
    let disc = whole_root(y * 65536);
    assert(disc < g) by (nonlinear_arith)
        requires
            disc * disc <= y * 65536,
            y == square - 65536,
            square == (g * g) / 65536,
            g >= 65542,
            disc >= 0,
    {
        assert(square * 65536 <= g * g);
        assert(disc * disc < g * g);
    }
    let root = zeta.prod(zeta).diff(one).root();
    assert(root.raw == disc);
    let r1 = z.diff(w0).prod(zeta.diff(root));
    let r2 = z.diff(w0).prod(zeta.sum(root));
    let p = (-w * (g - disc)) / 65536;
    let q = (-w * (g + disc)) / 65536;
    assert(-0x10_0000_0000_0000_0000 <= -w * (g - disc) <= 0 && -0x20_0000_0000_0000_0000 <= -w * (g
        + disc) <= 0) by (nonlinear_arith)
        requires
            0 <= w <= 0x1000_0000,
            0 <= disc < g <= 0x80_0000_0000,
    ;
    assert(r1.raw == p && r2.raw == q);
    assert(p - q >= 6) by (nonlinear_arith)
        requires
            p == (-w * (g - disc)) / 65536,
            q == (-w * (g + disc)) / 65536,
            w >= 256,
            disc >= 886,
    {
        assert(-w * (g - disc) - (-w * (g + disc)) == 2 * (w * disc)) by (nonlinear_arith);
        assert(w * disc >= 256 * 886) by (nonlinear_arith)
            requires
                w >= 256,
                disc >= 886,
        ;
    }
    let d = p - q;
    assert(r1.diff(r2).raw == d);
    // The slower rate is never much above the natural frequency.
    assert(g - disc <= 65540) by (nonlinear_arith)
        requires
            y * 65536 < (disc + 1) * (disc + 1),
            y == square - 65536,
            square == (g * g) / 65536,
            disc >= 886,
            g > disc,
    {
        assert(g * g < square * 65536 + 65536);
        assert(g * g < (disc + 1) * (disc + 1) + 65536 * 65536 + 65536);
        if g - disc > 65540 {
            assert(g * g >= (disc + 65541) * (disc + 65541)) by (nonlinear_arith)
                requires
                    g >= disc + 65541,
                    disc >= 0,
            ;
            assert((disc + 65541) * (disc + 65541) == disc * disc + 131082 * disc + 65541 * 65541)
                by (nonlinear_arith);
            assert((disc + 1) * (disc + 1) == disc * disc + 2 * disc + 1) by (nonlinear_arith);
        }
    }
    assert(-0x4000_0000 <= p <= 0) by (nonlinear_arith)
        requires
            p == (-w * (g - disc)) / 65536,
            0 <= w <= 0x1000_0000,
            0 <= g - disc <= 65540,
    {
        assert(0 <= w * (g - disc) <= 0x1000_0000 * 65540) by (nonlinear_arith)
            requires
                0 <= w <= 0x1000_0000,
                0 <= g - disc <= 65540,
        ;
        assert(-w * (g - disc) == -(w * (g - disc))) by (nonlinear_arith);
    }
    let a1 = z.diff(r2).quot(r1.diff(r2));
    let a2 = r1.quot(r1.diff(r2));
    let m = (-q * 65536) / d;
    let h = (p * 65536) / d;
    let rest = (p * 65536) % d;
    lemma_fundamental_div_mod(p * 65536, d);
    assert(0 <= rest < d);
    assert(-q * 65536 == d * (65536 - h) - rest) by (nonlinear_arith)
        requires
            -q == d - p,
            p * 65536 == d * h + rest,
    ;
    if rest == 0 {
        lemma_fundamental_div_mod_converse(-q * 65536, d, 65536 - h, 0);
    } else {
        assert(-q * 65536 == (65535 - h) * d + (d - rest)) by (nonlinear_arith)
            requires
                -q * 65536 == d * (65536 - h) - rest,
        ;
        lemma_fundamental_div_mod_converse(-q * 65536, d, 65535 - h, d - rest);
    }
    assert(65535 <= m + h <= 65536);
    assert(-0x1_0000_0000_0000 <= h <= 0) by (nonlinear_arith)
        requires
            h == (p * 65536) / d,
            -0x4000_0000 <= p <= 0,
            d >= 6,
    ;
    assert(a1.raw == m && a2.raw == h);
    assert(g * (2 * w) <= c.raw * 65536) by (nonlinear_arith)
        requires
            g == (c.raw * 65536) / (2 * w),
            w >= 256,
    ;
    assert(-p - q <= c.raw + 2) by (nonlinear_arith)
        requires
            p == (-w * (g - disc)) / 65536,
            q == (-w * (g + disc)) / 65536,
            g * (2 * w) <= c.raw * 65536,
    {
        assert(-w * (g - disc) + -w * (g + disc) == -(g * (2 * w))) by (nonlinear_arith);
    }
    lemma_balance(p, q, d, m, h, c.raw as int);
    assert(z.diff(a1).raw == -m);
    assert((-m) * p == -m * p);
}

/// What the two parts contribute to the velocity at the start balances.
proof fn lemma_balance(p: int, q: int, d: int, m: int, h: int, c: int)
    requires
        p <= 0,
        -0x4000_0000 <= p,
        q == p - d,
        6 <= d <= 0x80_0000_0000_0000,
        m == (-q * 65536) / d,
        h == (p * 65536) / d,
        m >= 0,
        -p - q <= c + 2,
        0 <= c,
    ensures
        0 <= (-m * p) / 65536 <= 0x4000_0000_0000_0000,
        0 <= (h * q) / 65536 <= 0x4000_0000_0000_0000,
        -(c / 65536) - 2 <= (-m * p) / 65536 - (h * q) / 65536 <= 0,
{
    let s1 = (-q * 65536) % d;
    let s2 = (p * 65536) % d;
    lemma_fundamental_div_mod(-q * 65536, d);
    lemma_fundamental_div_mod(p * 65536, d);
    let x = -m * p;
    let y = h * q;
    assert(h <= 0 && h * d > -0x4000_0000 * 65536 - d) by (nonlinear_arith)
        requires
            p * 65536 == d * h + s2,
            0 <= s2 < d,
            -0x4000_0000 <= p <= 0,
            d >= 6,
    ;
    assert(d * (x - y) == p * s1 + q * s2) by (nonlinear_arith)
        requires
            x == -m * p,
            y == h * q,
            -q * 65536 == d * m + s1,
            p * 65536 == d * h + s2,
    {
        assert(d * x == -(d * m) * p) by (nonlinear_arith)
            requires
                x == -m * p,
        ;
        assert(d * y == (d * h) * q) by (nonlinear_arith)
            requires
                y == h * q,
        ;
        assert((q * 65536 + s1) * p - (p * 65536 - s2) * q == p * s1 + q * s2)
            by (nonlinear_arith);
    }
    assert(p * s1 + q * s2 <= 0 && p * s1 + q * s2 > (p + q) * d - d) by (nonlinear_arith)
        requires
            p <= 0,
            q <= 0,
            0 <= s1 < d,
            0 <= s2 < d,
    {
        assert(p * s1 >= p * d && q * s2 >= q * d && p * s1 <= 0 && q * s2 <= 0)
            by (nonlinear_arith)
            requires
                p <= 0,
                q <= 0,
                0 <= s1 < d,
                0 <= s2 < d,
        ;
        assert((p + q) * d == p * d + q * d) by (nonlinear_arith);
    }
    assert(p + q - 1 < x - y <= 0) by (nonlinear_arith)
        requires
            d * (x - y) <= 0,
            d * (x - y) > (p + q) * d - d,
            d >= 6,
    ;
    assert(0 <= x) by (nonlinear_arith)
        requires
            x == -m * p,
            m >= 0,
            p <= 0,
    ;
    assert(-h <= 0x1000_0000_0000) by (nonlinear_arith)
        requires
            h <= 0,
            h * d > -0x4000_0000 * 65536 - d,
            d >= 6,
    ;
    assert(h * p <= 0x1000_0000_0000 * 0x4000_0000) by (nonlinear_arith)
        requires
            -0x1000_0000_0000 <= h <= 0,
            -0x4000_0000 <= p <= 0,
    ;
    assert(y == h * p - h * d) by (nonlinear_arith)
        requires
            y == h * q,
            q == p - d,
    ;
    assert(y <= 0x800_0000_0000_0000_0000);
}

// --- on the way ------------------------------------------------------------

proof fn lemma_squares(b: Fixed, n: nat)
    requires
        0 <= b.raw,
    ensures
        0 <= squared(b, n).raw,
    decreases n,
{
    if n > 0 {
        assert(0 <= (b.raw * b.raw) / 65536) by (nonlinear_arith);
        lemma_squares(saturated((b.raw * b.raw) / 65536), (n - 1) as nat);
    }
}

proof fn lemma_expo(x: Fixed)
    ensures
        0 <= x.expo().raw,
{
    if x.raw >= -67108864 {
        lemma_squares(saturated(65536 + (x.raw as int) / 1024), 10);
    }
}

proof fn lemma_prod_sign(a: Fixed, b: Fixed)
    requires
        0 <= a.raw,
        0 <= b.raw,
    ensures
        0 <= a.prod(b).raw,
        b.raw <= 65536 ==> a.prod(b).raw <= a.raw,
        0 <= a.quot(b).raw,
{
    assert(0 <= (a.raw * b.raw) / 65536) by (nonlinear_arith)
        requires
            0 <= a.raw,
            0 <= b.raw,
    ;
    if b.raw <= 65536 {
        assert((a.raw * b.raw) / 65536 <= a.raw) by (nonlinear_arith)
            requires
                0 <= a.raw,
                0 <= b.raw <= 65536,
        ;
    }
    if b.raw > 0 {
        assert(0 <= (a.raw * 65536) / (b.raw as int)) by (nonlinear_arith)
            requires
                0 <= a.raw,
                0 < b.raw,
        ;
    }
}

proof fn lemma_prod_rises(a: Fixed, b: Fixed, c: Fixed)
    requires
        a.raw <= b.raw,
        0 <= c.raw,
    ensures
        a.prod(c).raw <= b.prod(c).raw,
{
    assert((a.raw * c.raw) / 65536 <= (b.raw * c.raw) / 65536) by (nonlinear_arith)
        requires
            a.raw <= b.raw,
            0 <= c.raw,
    ;
}

proof fn lemma_hump(t: int)
    requires
        0 <= t <= PI_RAW,
    ensures
        0 <= hump(t),
{
    assert(0 <= (4 * 65536 * t * (PI_RAW - t)) / (PI_RAW * PI_RAW)) by (nonlinear_arith)
        requires
            0 <= t <= PI_RAW,
            PI_RAW == 205887,
    ;
}

/// Until a quarter of its natural swing is over, a spring moves toward its
/// goal and not past it, whether it is underdamped or critically damped.
pub proof fn springs_fall_short_at_first(k: Fixed, c: Fixed, t: Fixed)
    requires
        0 <= c.raw,
        0 <= t.raw,
        !overdamped(k, c),
        k.hi(Fixed::rat(1, 1_000_000)).root().prod(t).raw <= 102943,
    ensures
        spring(k, c, t).0.raw <= 65536,
        0 <= spring(k, c, t).1.raw,
{
    let z = zero_s::<Fixed>();
    let one = one_s::<Fixed>();
    assert(z.raw == 0 && one.raw == 65536);
    let w0 = k.hi(Fixed::rat(1, 1_000_000)).root();
    let zeta = c.quot(Fixed::rat(2, 1).prod(w0));
    lemma_root(k.hi(Fixed::rat(1, 1_000_000)).raw * 65536);
    assert(0 <= w0.raw);
    assert(Fixed::rat(2, 1).raw == 131072);
    lemma_prod_sign(Fixed::rat(2, 1), w0);
    lemma_prod_sign(c, Fixed::rat(2, 1).prod(w0));
    lemma_prod_sign(w0, w0);
    if magnitude(zeta.diff(one)).less(Fixed::rat(1, 10_000)) {
        let e = z.diff(w0).prod(t).expo();
        lemma_expo(z.diff(w0).prod(t));
        lemma_prod_sign(w0, t);
        lemma_prod_sign(e, one.sum(w0.prod(t)));
        lemma_prod_sign(w0.prod(w0), t);
        lemma_prod_sign(e, w0.prod(w0).prod(t));
    } else {
        let q = one.diff(zeta.prod(zeta));
        lemma_prod_sign(zeta, zeta);
        assert(q.raw <= 65536);
        let s = q.root();
        assert(0 <= s.raw <= 65536) by {
            if q.raw >= 0 {
                lemma_root(q.raw * 65536);
                let r = whole_root(q.raw * 65536);
                assert(r <= 65536) by (nonlinear_arith)
                    requires
                        r * r <= q.raw * 65536,
                        q.raw <= 65536,
                        r >= 0,
                ;
            }
        }
        let wd = w0.prod(s);
        let a = zeta.prod(w0);
        let e = z.diff(a).prod(t).expo();
        let cos = wd.prod(t).cosine();
        let sin = wd.prod(t).sine();
        lemma_prod_sign(w0, s);
        lemma_prod_rises(wd, w0, t);
        lemma_prod_sign(wd, t);
        lemma_expo(z.diff(a).prod(t));
        lemma_prod_sign(zeta, w0);
        let angle = wd.prod(t).raw as int;
        lemma_hump(angle);
        lemma_hump(angle + 102943);
        assert(angle % (2 * PI_RAW) == angle);
        assert((angle + 102943) % (2 * PI_RAW) == angle + 102943);
        lemma_prod_sign(a, wd);
        lemma_prod_sign(a.quot(wd), sin);
        lemma_prod_sign(e, cos.sum(a.quot(wd).prod(sin)));
        lemma_prod_sign(w0.prod(w0), wd);
        lemma_prod_sign(w0.prod(w0).quot(wd), e);
        lemma_prod_sign(w0.prod(w0).quot(wd).prod(e), sin);
    }
}

/// How fast the swing of a spring dies down: by half its damping, and by its
/// natural frequency where it is critically damped.
pub open spec fn decay(k: Fixed, c: Fixed) -> Fixed {
    let w0 = k.hi(Fixed::rat(1, 1_000_000)).root();
    let zeta = c.quot(Fixed::rat(2, 1).prod(w0));
    if magnitude(zeta.diff(one_s())).less(Fixed::rat(1, 10_000)) {
        w0
    } else {
        zeta.prod(w0)
    }
}

/// In the end a spring rests at its goal, whether it was underdamped or
/// critically damped.
pub proof fn springs_settle(k: Fixed, c: Fixed, t: Fixed)
    requires
        !overdamped(k, c),
        zero_s::<Fixed>().diff(decay(k, c)).prod(t).raw < -67108864,
    ensures
        spring(k, c, t) == (one_s::<Fixed>(), zero_s::<Fixed>()),
{
    let z = zero_s::<Fixed>();
    let one = one_s::<Fixed>();
    assert(z.raw == 0 && one.raw == 65536);
    let w0 = k.hi(Fixed::rat(1, 1_000_000)).root();
    let zeta = c.quot(Fixed::rat(2, 1).prod(w0));
    if magnitude(zeta.diff(one)).less(Fixed::rat(1, 10_000)) {
        lemma_times_zero(one.sum(w0.prod(t)));
        lemma_times_zero(w0.prod(w0).prod(t));
    } else {
        let wd = w0.prod(one.diff(zeta.prod(zeta)).root());
        let a = zeta.prod(w0);
        let cos = wd.prod(t).cosine();
        let sin = wd.prod(t).sine();
        lemma_times_zero(cos.sum(a.quot(wd).prod(sin)));
        lemma_times_zero(w0.prod(w0).quot(wd));
        lemma_times_zero(sin);
    }
}

proof fn lemma_squares_rise(a: Fixed, b: Fixed, n: nat)
    requires
        0 <= a.raw <= b.raw <= 65536,
    ensures
        0 <= squared(a, n).raw <= squared(b, n).raw <= 65536,
    decreases n,
{
    if n > 0 {
        assert(0 <= (a.raw * a.raw) / 65536 <= (b.raw * b.raw) / 65536 <= 65536)
            by (nonlinear_arith)
            requires
                0 <= a.raw <= b.raw <= 65536,
        ;
        lemma_squares_rise(
            saturated((a.raw * a.raw) / 65536),
            saturated((b.raw * b.raw) / 65536),
            (n - 1) as nat,
        );
    }
}

/// Up to zero the exponential rises, from nothing to one.
pub proof fn exponentials_rise(a: Fixed, b: Fixed)
    requires
        a.raw <= b.raw <= 0,
    ensures
        0 <= a.expo().raw <= b.expo().raw <= 65536,
        zero_s::<Fixed>().expo().raw == 65536,
{
    lemma_still();
    if b.raw >= -67108864 {
        let y = saturated(65536 + (b.raw as int) / 1024);
        if a.raw >= -67108864 {
            lemma_squares_rise(saturated(65536 + (a.raw as int) / 1024), y, 10);
        } else {
            lemma_squares_rise(y, y, 10);
        }
    }
}

/// An overdamped spring never passes its goal, but for the last place.
pub proof fn overdamped_springs_creep(k: Fixed, c: Fixed, t: Fixed)
    requires
        0 < k.raw <= 0x100_0000_0000,
        c.raw <= 0x1_0000_0000,
        0 <= t.raw,
        overdamped(k, c),
    ensures
        spring(k, c, t).0.raw <= 65537,
{
    lemma_overdamped(k, c);
    let (r1, r2, a1, a2) = parts(k, c);
    assert(one_s::<Fixed>().raw == 65536 && zero_s::<Fixed>().raw == 0);
    assert((r2.raw * t.raw) / 65536 <= (r1.raw * t.raw) / 65536 <= 0) by (nonlinear_arith)
        requires
            r2.raw <= r1.raw <= 0,
            0 <= t.raw,
    ;
    exponentials_rise(r2.prod(t), r1.prod(t));
    let e1 = r1.prod(t).expo().raw as int;
    let e2 = r2.prod(t).expo().raw as int;
    let m = a1.raw as int;
    let h = a2.raw as int;
    let x = (m * e1) / 65536;
    let y = (h * e2) / 65536;
    assert(m * e1 + h * e2 >= 0) by (nonlinear_arith)
        requires
            0 <= e2 <= e1,
            m + h >= 0,
            m >= 0,
    {
        assert(m * e1 >= m * e2) by (nonlinear_arith)
            requires
                e2 <= e1,
                m >= 0,
        ;
        assert(m * e2 + h * e2 == (m + h) * e2) by (nonlinear_arith);
        assert((m + h) * e2 >= 0) by (nonlinear_arith)
            requires
                m + h >= 0,
                e2 >= 0,
        ;
    }
    assert(0 <= x <= m && h <= y <= 0) by (nonlinear_arith)
        requires
            x == (m * e1) / 65536,
            y == (h * e2) / 65536,
            0 <= e1 <= 65536,
            0 <= e2 <= 65536,
            m >= 0,
            h <= 0,
    ;
    assert(x + y >= -1);
}

/// An overdamped spring rests at its goal in the end too, once its slower part
/// has died down.
pub proof fn overdamped_springs_settle(k: Fixed, c: Fixed, t: Fixed)
    requires
        0 < k.raw <= 0x100_0000_0000,
        c.raw <= 0x1_0000_0000,
        0 <= t.raw,
        overdamped(k, c),
        slower_rate(k, c).prod(t).raw < -67108864,
    ensures
        spring(k, c, t) == (one_s::<Fixed>(), zero_s::<Fixed>()),
{
    lemma_overdamped(k, c);
    let (r1, r2, a1, a2) = parts(k, c);
    assert(one_s::<Fixed>().raw == 65536 && zero_s::<Fixed>().raw == 0);
    assert((r2.raw * t.raw) / 65536 <= (r1.raw * t.raw) / 65536 <= 0) by (nonlinear_arith)
        requires
            r2.raw <= r1.raw <= 0,
            0 <= t.raw,
    ;
    lemma_times_zero(a1);
    lemma_times_zero(a2);
    lemma_times_zero(zero_s::<Fixed>().diff(a1).prod(r1));
    lemma_times_zero(a2.prod(r2));
}

/// The rate at which the slower part of an overdamped spring dies down.
pub open spec fn slower_rate(k: Fixed, c: Fixed) -> Fixed {
    let w0 = k.hi(Fixed::rat(1, 1_000_000)).root();
    let zeta = c.quot(Fixed::rat(2, 1).prod(w0));
    let disc = zeta.prod(zeta).diff(one_s()).root();
    zero_s::<Fixed>().diff(w0).prod(zeta.diff(disc))
}

} // verus!
