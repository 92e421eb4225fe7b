//! The numbers that layout, scrolling and animation are computed in.
//!
//! Everything in the crate that measures or blends is written over
//! [`Scalar`], so a host can run it on hardware floats. [`Fixed`] is the
//! crate's own implementation: a deterministic 64-bit fixed-point number.
use vstd::prelude::*;

verus! {

/// A number that positions, colours and durations are computed with.
///
/// Each executable operation returns exactly what the spec function named in
/// its contract says. Formulas elsewhere in the crate are stated as
/// compositions of these spec functions, in the order in which they are
/// evaluated, so they hold bit for bit on any implementation.
pub trait Scalar: Copy + Sized {
    /// The number closest to `n / d`.
    spec fn rat(n: i64, d: u32) -> Self;

    /// The number closest to the count `n`.
    spec fn cnt(n: u64) -> Self;

    /// A coordinate beyond every surface.
    spec fn huge() -> Self;

    spec fn sum(self, other: Self) -> Self;

    spec fn diff(self, other: Self) -> Self;

    spec fn prod(self, other: Self) -> Self;

    spec fn quot(self, other: Self) -> Self;

    /// The larger of the two.
    spec fn hi(self, other: Self) -> Self;

    /// The smaller of the two.
    spec fn lo(self, other: Self) -> Self;

    /// The nearest whole number.
    spec fn rnd(self) -> Self;

    /// The whole part as an integer, held to the range of `u32`.
    spec fn whole(self) -> u32;

    spec fn root(self) -> Self;

    spec fn expo(self) -> Self;

    spec fn sine(self) -> Self;

    spec fn cosine(self) -> Self;

    spec fn less(self, other: Self) -> bool;

    spec fn leq(self, other: Self) -> bool;

    /// Numeric equality. Need not be identity: a float's two zeros are equal
    /// numbers, and a float that is no number equals nothing.
    spec fn eqv(self, other: Self) -> bool;

    fn ratio(n: i64, d: u32) -> (r: Self)
        requires
            d > 0,
        ensures
            r == Self::rat(n, d),
    ;

    fn count(n: u64) -> (r: Self)
        ensures
            r == Self::cnt(n),
    ;

    fn far() -> (r: Self)
        ensures
            r == Self::huge(),
    ;

    fn plus(self, other: Self) -> (r: Self)
        ensures
            r == self.sum(other),
    ;

    fn minus(self, other: Self) -> (r: Self)
        ensures
            r == self.diff(other),
    ;

    fn times(self, other: Self) -> (r: Self)
        ensures
            r == self.prod(other),
    ;

    fn over(self, other: Self) -> (r: Self)
        ensures
            r == self.quot(other),
    ;

    fn larger(self, other: Self) -> (r: Self)
        ensures
            r == self.hi(other),
    ;

    fn smaller(self, other: Self) -> (r: Self)
        ensures
            r == self.lo(other),
    ;

    fn round(self) -> (r: Self)
        ensures
            r == self.rnd(),
    ;

    fn to_u32(self) -> (r: u32)
        ensures
            r == self.whole(),
    ;

    fn sqrt(self) -> (r: Self)
        ensures
            r == self.root(),
    ;

    fn exp(self) -> (r: Self)
        ensures
            r == self.expo(),
    ;

    fn sin(self) -> (r: Self)
        ensures
            r == self.sine(),
    ;

    fn cos(self) -> (r: Self)
        ensures
            r == self.cosine(),
    ;

    fn lt(self, other: Self) -> (r: bool)
        ensures
            r == self.less(other),
    ;

    fn le(self, other: Self) -> (r: bool)
        ensures
            r == self.leq(other),
    ;

    fn same(self, other: Self) -> (r: bool)
        ensures
            r == self.eqv(other),
    ;

    /// Whether the two are the same value in every bit.
    fn identical(self, other: Self) -> (r: bool)
        ensures
            r == (self == other),
    ;
}

// --- constants -------------------------------------------------------------

pub open spec fn zero_s<S: Scalar>() -> S {
    S::rat(0, 1)
}

pub open spec fn one_s<S: Scalar>() -> S {
    S::rat(1, 1)
}

pub fn zero<S: Scalar>() -> (r: S)
    ensures
        r == zero_s::<S>(),
{
    S::ratio(0, 1)
}

pub fn one<S: Scalar>() -> (r: S)
    ensures
        r == one_s::<S>(),
{
    S::ratio(1, 1)
}

/// The whole number `n`.
pub fn units<S: Scalar>(n: i64) -> (r: S)
    ensures
        r == S::rat(n, 1),
{
    S::ratio(n, 1)
}

/// `n` hundredths.
pub fn cent<S: Scalar>(n: i64) -> (r: S)
    ensures
        r == S::rat(n, 100),
{
    S::ratio(n, 100)
}

// --- derived operations ----------------------------------------------------

/// `x` held between `lo` and `hi`.
pub open spec fn clamped<S: Scalar>(x: S, lo: S, hi: S) -> S {
    if x.less(lo) {
        lo
    } else if hi.less(x) {
        hi
    } else {
        x
    }
}

pub fn clamp<S: Scalar>(x: S, lo: S, hi: S) -> (r: S)
    ensures
        r == clamped(x, lo, hi),
{
    if x.lt(lo) {
        lo
    } else if hi.lt(x) {
        hi
    } else {
        x
    }
}

/// The distance of `x` from zero.
pub open spec fn magnitude<S: Scalar>(x: S) -> S {
    if x.less(zero_s()) {
        zero_s::<S>().diff(x)
    } else {
        x
    }
}

pub fn abs<S: Scalar>(x: S) -> (r: S)
    ensures
        r == magnitude(x),
{
    if x.lt(zero()) {
        zero::<S>().minus(x)
    } else {
        x
    }
}

pub open spec fn eqv2<S: Scalar>(a: [S; 2], b: [S; 2]) -> bool {
    a[0].eqv(b[0]) && a[1].eqv(b[1])
}

pub fn same2<S: Scalar>(a: [S; 2], b: [S; 2]) -> (r: bool)
    ensures
        r == eqv2(a, b),
{
    a[0].same(b[0]) && a[1].same(b[1])
}

pub open spec fn eqv4<S: Scalar>(a: [S; 4], b: [S; 4]) -> bool {
    a[0].eqv(b[0]) && a[1].eqv(b[1]) && a[2].eqv(b[2]) && a[3].eqv(b[3])
}

pub fn same4<S: Scalar>(a: [S; 4], b: [S; 4]) -> (r: bool)
    ensures
        r == eqv4(a, b),
{
    a[0].same(b[0]) && a[1].same(b[1]) && a[2].same(b[2]) && a[3].same(b[3])
}

pub open spec fn pair<S>(v: S) -> [S; 2] {
    [v, v]
}

pub open spec fn quad<S>(v: S) -> [S; 4] {
    [v, v, v, v]
}

pub fn splat2<S: Scalar>(v: S) -> (r: [S; 2])
    ensures
        r == pair(v),
{
    [v, v]
}

pub fn splat4<S: Scalar>(v: S) -> (r: [S; 4])
    ensures
        r == quad(v),
{
    [v, v, v, v]
}

/// Seconds in a span of nanoseconds: the whole seconds plus the remaining
/// nanoseconds over 10^9, each rounded to the scalar first.
pub open spec fn seconds<S: Scalar>(nanos: u64) -> S {
    S::cnt((nanos / 1_000_000_000) as u64).sum(
        S::cnt((nanos % 1_000_000_000) as u64).quot(S::rat(1_000_000_000, 1)),
    )
}

pub fn secs<S: Scalar>(nanos: u64) -> (r: S)
    ensures
        r == seconds::<S>(nanos),
{
    S::count(nanos / 1_000_000_000).plus(
        S::count(nanos % 1_000_000_000).over(S::ratio(1_000_000_000, 1)),
    )
}

// --- fixed point -----------------------------------------------------------

/// Sixteen binary places in an `i64`. Operations round toward negative
/// infinity and saturate at the ends of the range.
#[derive(Copy, Clone, Debug, PartialEq, Eq, Structural)]
pub struct Fixed {
    pub raw: i64,
}

/// Raw units in one.
pub const ONE_RAW: i64 = 65536;

/// Raw units in pi.
pub const PI_RAW: i64 = 205887;

/// The `Fixed` whose raw value is `x`, held to the range.
pub open spec fn saturated(x: int) -> Fixed {
    Fixed {
        raw: if x > i64::MAX {
            i64::MAX
        } else if x < i64::MIN {
            i64::MIN
        } else {
            x as i64
        },
    }
}

/// Whether `r` is the whole part of the square root of `n`.
pub open spec fn is_root(r: int, n: int) -> bool {
    0 <= r && r * r <= n && n < (r + 1) * (r + 1)
}

pub open spec fn whole_root(n: int) -> int {
    choose|r: int| is_root(r, n)
}

/// One hump of the sine wave, as the parabola through its ends and its top.
/// `t` is a raw angle between zero and pi.
pub open spec fn hump(t: int) -> int {
    (4 * ONE_RAW * t * (PI_RAW - t)) / (PI_RAW * PI_RAW)
}

/// `b` squared `n` times over.
pub open spec fn squared(b: Fixed, n: nat) -> Fixed
    decreases n,
{
    if n == 0 {
        b
    } else {
        squared(saturated((b.raw * b.raw) / 65536), (n - 1) as nat)
    }
}

fn saturate(x: i128) -> (r: Fixed)
    ensures
        r == saturated(x as int),
{
    if x > i64::MAX as i128 {
        Fixed { raw: i64::MAX }
    } else if x < i64::MIN as i128 {
        Fixed { raw: i64::MIN }
    } else {
        Fixed { raw: x as i64 }
    }
}

/// Quotient rounded toward negative infinity.
fn floor_div(a: i128, d: i128) -> (r: i128)
    requires
        d > 0,
        -0x7fff_ffff_ffff_ffff_ffff_ffff_0000_0000 <= a - d,
        a + d <= 0x7fff_ffff_ffff_ffff_ffff_ffff_0000_0000,
    ensures
        r == (a as int) / (d as int),
{
    if a >= 0 {
        a / d
    } else {
        let up: i128 = (-a + (d - 1)) / d;
        proof {
            let x = a as int;
            let y = d as int;
            let q = (-x + (y - 1)) / y;
            assert(x / y == -q) by (nonlinear_arith)
                requires
                    y > 0,
                    q == (-x + (y - 1)) / y,
            ;
            assert(q <= -x + (y - 1)) by (nonlinear_arith)
                requires
                    y > 0,
                    x < 0,
                    q == (-x + (y - 1)) / y,
            ;
        }
        -up
    }
}

proof fn lemma_raw_product(a: i64, b: i64)
    ensures
        -0x4000_0000_0000_0000_0000_0000_0000_0000 <= a * b <= 0x4000_0000_0000_0000_0000_0000_0000_0000,
{
    assert(-0x4000_0000_0000_0000_0000_0000_0000_0000 <= a * b
        <= 0x4000_0000_0000_0000_0000_0000_0000_0000) by (nonlinear_arith)
        requires
            -0x8000_0000_0000_0000 <= a <= 0x7fff_ffff_ffff_ffff,
            -0x8000_0000_0000_0000 <= b <= 0x7fff_ffff_ffff_ffff,
    ;
}

proof fn lemma_root_unique(a: int, b: int, n: int)
    requires
        is_root(a, n),
        is_root(b, n),
    ensures
        a == b,
{
    if a < b {
        assert((a + 1) * (a + 1) <= b * b) by (nonlinear_arith)
            requires
                0 <= a < b,
        ;
    } else if b < a {
        assert((b + 1) * (b + 1) <= a * a) by (nonlinear_arith)
            requires
                0 <= b < a,
        ;
    }
}

/// The whole part of the square root of `n`, by bisection.
fn isqrt(n: u128) -> (r: u64)
    requires
        n < 0x1_0000_0000_0000_0000_0000,
    ensures
        is_root(r as int, n as int),
{
    let mut lo: u64 = 0;
    let mut hi: u64 = 0x100_0000_0000;
    while hi - lo > 1
        invariant
            lo < hi <= 0x100_0000_0000,
            lo * lo <= n,
            n < hi * hi,
        decreases hi - lo,
    {
        let mid: u64 = lo + (hi - lo) / 2;
        assert((mid as u128) * (mid as u128) <= 0x1_0000_0000_0000_0000_0000) by (nonlinear_arith)
            requires
                mid <= 0x100_0000_0000,
        ;
        if (mid as u128) * (mid as u128) <= n {
            lo = mid;
        } else {
            hi = mid;
        }
    }
    assert(hi == lo + 1);
    lo
}

/// A squared ten times over.
fn square_ten(b: Fixed) -> (r: Fixed)
    ensures
        r == squared(b, 10),
{
    let mut x: Fixed = b;
    let mut left: u32 = 10;
    while left > 0
        invariant
            left <= 10,
            squared(x, left as nat) == squared(b, 10),
        decreases left,
    {
        proof {
            lemma_raw_product(x.raw, x.raw);
        }
        x = saturate(floor_div(x.raw as i128 * x.raw as i128, 65536));
        left = left - 1;
    }
    x
}

impl Scalar for Fixed {
    open spec fn rat(n: i64, d: u32) -> Fixed {
        saturated((n * 65536) / (d as int))
    }

    open spec fn cnt(n: u64) -> Fixed {
        saturated(n * 65536)
    }

    open spec fn huge() -> Fixed {
        Fixed { raw: 0x1000_0000_0000_0000 }
    }

    open spec fn sum(self, other: Fixed) -> Fixed {
        saturated(self.raw + other.raw)
    }

    open spec fn diff(self, other: Fixed) -> Fixed {
        saturated(self.raw - other.raw)
    }

    open spec fn prod(self, other: Fixed) -> Fixed {
        saturated((self.raw * other.raw) / 65536)
    }

    /// Over zero, the quotient is the end of the range on the dividend's side.
    open spec fn quot(self, other: Fixed) -> Fixed {
        if other.raw > 0 {
            saturated((self.raw * 65536) / (other.raw as int))
        } else if other.raw < 0 {
            saturated((-self.raw * 65536) / (-other.raw))
        } else if self.raw > 0 {
            Fixed { raw: i64::MAX }
        } else if self.raw < 0 {
            Fixed { raw: i64::MIN }
        } else {
            Fixed { raw: 0 }
        }
    }

    open spec fn hi(self, other: Fixed) -> Fixed {
        if self.raw < other.raw {
            other
        } else {
            self
        }
    }

    open spec fn lo(self, other: Fixed) -> Fixed {
        if other.raw < self.raw {
            other
        } else {
            self
        }
    }

    /// Halves round up.
    open spec fn rnd(self) -> Fixed {
        saturated(((self.raw + 32768) / 65536) * 65536)
    }

    open spec fn whole(self) -> u32 {
        if self.raw < 0 {
            0
        } else if (self.raw as int) / 65536 > u32::MAX {
            u32::MAX
        } else {
            ((self.raw as int) / 65536) as u32
        }
    }

    /// The root of a negative number is zero.
    open spec fn root(self) -> Fixed {
        if self.raw < 0 {
            Fixed { raw: 0 }
        } else {
            saturated(whole_root(self.raw * 65536))
        }
    }

    /// `(1 + x / 1024)` to the power 1024, and zero where that base would be
    /// negative.
    open spec fn expo(self) -> Fixed {
        if self.raw < -67108864 {
            Fixed { raw: 0 }
        } else {
            squared(saturated(65536 + (self.raw as int) / 1024), 10)
        }
    }

    open spec fn sine(self) -> Fixed {
        let t = (self.raw as int) % (2 * PI_RAW);
        if t < PI_RAW {
            saturated(hump(t))
        } else {
            saturated(-hump(t - PI_RAW))
        }
    }

    /// The sine a quarter turn on.
    open spec fn cosine(self) -> Fixed {
        let t = (self.raw + 102943) % (2 * PI_RAW);
        if t < PI_RAW {
            saturated(hump(t))
        } else {
            saturated(-hump(t - PI_RAW))
        }
    }

    open spec fn less(self, other: Fixed) -> bool {
        self.raw < other.raw
    }

    open spec fn leq(self, other: Fixed) -> bool {
        self.raw <= other.raw
    }

    open spec fn eqv(self, other: Fixed) -> bool {
        self == other
    }

    fn ratio(n: i64, d: u32) -> (r: Fixed) {
        saturate(floor_div(n as i128 * 65536, d as i128))
    }

    fn count(n: u64) -> (r: Fixed) {
        saturate(n as i128 * 65536)
    }

    fn far() -> (r: Fixed) {
        Fixed { raw: 0x1000_0000_0000_0000 }
    }

    fn plus(self, other: Fixed) -> (r: Fixed) {
        saturate(self.raw as i128 + other.raw as i128)
    }

    fn minus(self, other: Fixed) -> (r: Fixed) {
        saturate(self.raw as i128 - other.raw as i128)
    }

    fn times(self, other: Fixed) -> (r: Fixed) {
        proof {
            lemma_raw_product(self.raw, other.raw);
        }
        saturate(floor_div(self.raw as i128 * other.raw as i128, 65536))
    }

    fn over(self, other: Fixed) -> (r: Fixed) {
        if other.raw > 0 {
            saturate(floor_div(self.raw as i128 * 65536, other.raw as i128))
        } else if other.raw < 0 {
            saturate(floor_div(-(self.raw as i128) * 65536, -(other.raw as i128)))
        } else if self.raw > 0 {
            Fixed { raw: i64::MAX }
        } else if self.raw < 0 {
            Fixed { raw: i64::MIN }
        } else {
            Fixed { raw: 0 }
        }
    }

    fn larger(self, other: Fixed) -> (r: Fixed) {
        if self.raw < other.raw {
            other
        } else {
            self
        }
    }

    fn smaller(self, other: Fixed) -> (r: Fixed) {
        if other.raw < self.raw {
            other
        } else {
            self
        }
    }

    fn round(self) -> (r: Fixed) {
        saturate(floor_div(self.raw as i128 + 32768, 65536) * 65536)
    }

    fn to_u32(self) -> (r: u32) {
        if self.raw < 0 {
            0
        } else if self.raw / 65536 > u32::MAX as i64 {
            u32::MAX
        } else {
            (self.raw / 65536) as u32
        }
    }

    fn sqrt(self) -> (r: Fixed) {
        if self.raw < 0 {
            Fixed { raw: 0 }
        } else {
            let n: u128 = self.raw as u128 * 65536;
            let r: u64 = isqrt(n);
            proof {
                let c = whole_root(self.raw * 65536);
                assert(is_root(r as int, self.raw * 65536));
                lemma_root_unique(r as int, c, self.raw * 65536);
            }
            saturate(r as i128)
        }
    }

    fn exp(self) -> (r: Fixed) {
        if self.raw < -67108864 {
            Fixed { raw: 0 }
        } else {
            square_ten(saturate(65536 + floor_div(self.raw as i128, 1024)))
        }
    }

    fn sin(self) -> (r: Fixed) {
        wave(self.raw as i128)
    }

    fn cos(self) -> (r: Fixed) {
        wave(self.raw as i128 + 102943)
    }

    fn lt(self, other: Fixed) -> (r: bool) {
        self.raw < other.raw
    }

    fn le(self, other: Fixed) -> (r: bool) {
        self.raw <= other.raw
    }

    fn same(self, other: Fixed) -> (r: bool) {
        self.raw == other.raw
    }

    fn identical(self, other: Fixed) -> (r: bool) {
        self.raw == other.raw
    }
}

/// The parabolic sine of a raw angle.
fn wave(raw: i128) -> (r: Fixed)
    requires
        -0x1_0000_0000_0000_0000 <= raw <= 0x1_0000_0000_0000_0000,
    ensures
        r == ({
            let t = (raw as int) % (2 * PI_RAW);
            if t < PI_RAW {
                saturated(hump(t))
            } else {
                saturated(-hump(t - PI_RAW))
            }
        }),
{
    let turns: i128 = floor_div(raw, 411774);
    let t: i128 = raw - turns * 411774;
    assert(t == (raw as int) % 411774);
    if t < 205887 {
        let h: i128 = half_wave(t);
        saturate(h)
    } else {
        let h: i128 = half_wave(t - 205887);
        saturate(-h)
    }
}

fn half_wave(t: i128) -> (r: i128)
    requires
        0 <= t < 205887,
    ensures
        r == hump(t as int),
        0 <= r <= 0x1_0000_0000,
{
    assert(0 <= 4 * ONE_RAW * t * (PI_RAW - t) <= 262144 * 205887 * 205887) by (nonlinear_arith)
        requires
            0 <= t < 205887,
            ONE_RAW == 65536,
            PI_RAW == 205887,
    ;
    assert(0 <= 262144 * t * (205887 - t) <= 262144 * 205887 * 205887) by (nonlinear_arith)
        requires
            0 <= t < 205887,
    ;
    assert(262144 * t * (205887 - t) == 4 * ONE_RAW * t * (PI_RAW - t)) by (nonlinear_arith)
        requires
            ONE_RAW == 65536,
            PI_RAW == 205887,
    ;
    assert(PI_RAW * PI_RAW == 42389456769) by (nonlinear_arith)
        requires
            PI_RAW == 205887,
    ;
    let p: i128 = 262144 * t * (205887 - t);
    p / 42389456769
}

} // verus!
