//! Fixed-point scalars and 2D vectors.
//!
//! Every continuous quantity of the simulation (position, velocity,
//! surface normal, timer seconds, impulse coefficients) is held as an
//! `i64` counting `FX_ONE`-ths of a world unit.  Multiplication and
//! division of such scalars truncate toward zero, matching the way the
//! surrounding executable code computes them, and every operation here
//! states its exact result over the mathematical integers.

use vstd::prelude::*;

verus! {

/// Number of fixed-point steps in one world unit.
pub const FX_ONE: i64 = 1_000_000;

/// Absolute value over the mathematical integers.
pub open spec fn iabs(a: int) -> int {
    if a >= 0 {
        a
    } else {
        -a
    }
}

/// Division truncating toward zero (the semantics of the executable
/// arithmetic below), for a positive divisor.
pub open spec fn tdiv(a: int, b: int) -> int {
    if a >= 0 {
        a / b
    } else {
        -((-a) / b)
    }
}

/// Product of two fixed-point scalars: `a * b / FX_ONE`, truncated
/// toward zero.
pub open spec fn fmul_s(a: int, b: int) -> int {
    tdiv(a * b, FX_ONE as int)
}

/// Quotient of two fixed-point scalars: `a * FX_ONE / b`, truncated
/// toward zero, for a positive divisor.
pub open spec fn fdiv_s(a: int, b: int) -> int {
    tdiv(a * FX_ONE as int, b)
}

/// Multiplies two fixed-point scalars exactly.
pub fn fmul(a: i64, b: i64) -> (r: i64)
    requires
        iabs(a as int) * iabs(b as int) <= i64::MAX * FX_ONE as int,
    ensures
        r == fmul_s(a as int, b as int),
        iabs(r as int) * FX_ONE as int <= iabs(a as int) * iabs(b as int),
{
    let negative: bool = (a < 0) != (b < 0);
    let ma: u128 = i64_abs(a) as u128;
    let mb: u128 = i64_abs(b) as u128;
    let m: u128 = (ma * mb) / (FX_ONE as u128);
    proof {
        assert(ma * mb == iabs(a as int) * iabs(b as int));
        assert(m == iabs(a as int) * iabs(b as int) / (FX_ONE as int));
        assert(m * FX_ONE as int <= iabs(a as int) * iabs(b as int)) by {
            vstd::arithmetic::div_mod::lemma_fundamental_div_mod(
                iabs(a as int) * iabs(b as int),
                FX_ONE as int,
            );
        }
        assert(m <= i64::MAX) by {
            vstd::arithmetic::div_mod::lemma_div_is_ordered(
                iabs(a as int) * iabs(b as int),
                i64::MAX * FX_ONE as int,
                FX_ONE as int,
            );
            assert(i64::MAX * FX_ONE as int / (FX_ONE as int) == i64::MAX) by {
                vstd::arithmetic::div_mod::lemma_div_multiples_vanish(
                    i64::MAX as int,
                    FX_ONE as int,
                );
            }
        }
    }
    proof {
        lemma_tdiv_sign(a as int, b as int, FX_ONE as int);
        assert((a < 0) != (b < 0) ==> a as int * b as int <= 0) by (nonlinear_arith);
        assert(!((a < 0) != (b < 0)) ==> a as int * b as int >= 0) by (nonlinear_arith);
        assert(m == iabs(a as int * b as int) / (FX_ONE as int));
        assert(a as int * b as int == 0 ==> m == 0);
    }
    let r: i64 = if negative {
        (-(m as i128)) as i64
    } else {
        m as i64
    };
    r
}

/// Magnitude of an `i64` as a `u64` (total, also at `i64::MIN`).
pub fn i64_abs(a: i64) -> (r: u64)
    ensures
        r == iabs(a as int),
{
    if a >= 0 {
        a as u64
    } else {
        (-(a as i128)) as u64
    }
}

/// Truncating division relates to the euclidean division of the
/// magnitudes: `tdiv(a * b, d)` is `|a| * |b| / d` with the product's
/// sign put back.
proof fn lemma_tdiv_sign(a: int, b: int, d: int)
    requires
        d > 0,
    ensures
        a * b >= 0 ==> tdiv(a * b, d) == iabs(a) * iabs(b) / d,
        a * b < 0 ==> tdiv(a * b, d) == -(iabs(a) * iabs(b) / d),
        iabs(a) * iabs(b) == iabs(a * b),
{
    assert(iabs(a) * iabs(b) == iabs(a * b)) by (nonlinear_arith);
}

/// Products grow with their factors.
pub proof fn lemma_mul_le(a: int, b: int, c: int, d: int)
    requires
        0 <= a <= c,
        0 <= b <= d,
    ensures
        a * b <= c * d,
{
    assert(a * b <= c * d) by (nonlinear_arith)
        requires
            0 <= a <= c,
            0 <= b <= d,
    ;
}

/// Divides two fixed-point scalars exactly (positive divisor).
pub fn fdiv(a: i64, b: i64) -> (r: i64)
    requires
        b > 0,
        iabs(a as int) * FX_ONE as int <= i64::MAX * b as int,
    ensures
        r == fdiv_s(a as int, b as int),
        iabs(r as int) * b as int <= iabs(a as int) * FX_ONE as int,
{
    let ma: u128 = i64_abs(a) as u128;
    let m: u128 = (ma * (FX_ONE as u128)) / (b as u128);
    proof {
        assert(m == iabs(a as int) * FX_ONE as int / (b as int));
        assert(m * b as int <= iabs(a as int) * FX_ONE as int) by {
            vstd::arithmetic::div_mod::lemma_fundamental_div_mod(
                iabs(a as int) * FX_ONE as int,
                b as int,
            );
        }
        assert(m <= i64::MAX) by {
            vstd::arithmetic::div_mod::lemma_div_is_ordered(
                iabs(a as int) * FX_ONE as int,
                i64::MAX * b as int,
                b as int,
            );
            vstd::arithmetic::div_mod::lemma_div_multiples_vanish(i64::MAX as int, b as int);
        }
        lemma_tdiv_sign(a as int, FX_ONE as int, b as int);
        assert((a < 0) ==> (((a as int) * (FX_ONE as int)) < 0)) by (nonlinear_arith);
        assert((a >= 0) ==> a as int * FX_ONE as int >= 0) by (nonlinear_arith);
        assert(a as int * FX_ONE as int == 0 ==> m == 0);
    }
    if a < 0 {
        (-(m as i128)) as i64
    } else {
        m as i64
    }
}

/// Halves a scalar, truncating toward zero.
pub fn halve(a: i64) -> (r: i64)
    ensures
        r == tdiv(a as int, 2),
{
    if a >= 0 {
        ((a as u64) / 2) as i64
    } else {
        (-(((-(a as i128)) as u128 / 2) as i128)) as i64
    }
}

/// Integer square root, defined by counting up.
pub open spec fn isqrt_s(n: nat) -> nat
    decreases n,
{
    if n == 0 {
        0
    } else {
        let r = isqrt_s((n - 1) as nat);
        if (r + 1) * (r + 1) <= n {
            (r + 1) as nat
        } else {
            r
        }
    }
}

/// `isqrt_s(n)` is the greatest integer whose square is at most `n`.
pub proof fn lemma_isqrt_s_bounds(n: nat)
    ensures
        isqrt_s(n) * isqrt_s(n) <= n,
        n < (isqrt_s(n) + 1) * (isqrt_s(n) + 1),
    decreases n,
{
    if n > 0 {
        lemma_isqrt_s_bounds((n - 1) as nat);
        let r = isqrt_s((n - 1) as nat);
        assert(r * r <= n - 1);
        assert(n - 1 < (r + 1) * (r + 1));
        if (r + 1) * (r + 1) <= n {
            assert(isqrt_s(n) == r + 1);
            assert(n <= (r + 1) * (r + 1));
            assert((r + 1) * (r + 1) < (r + 2) * (r + 2)) by (nonlinear_arith);
            assert(isqrt_s(n) * isqrt_s(n) == (r + 1) * (r + 1)) by (nonlinear_arith)
                requires
                    isqrt_s(n) == r + 1,
            ;
            assert((isqrt_s(n) + 1) * (isqrt_s(n) + 1) == (r + 2) * (r + 2)) by (nonlinear_arith)
                requires
                    isqrt_s(n) == r + 1,
            ;
        } else {
            assert(isqrt_s(n) == r);
        }
    } else {
        assert(isqrt_s(n) == 0);
        assert(n < (isqrt_s(n) + 1) * (isqrt_s(n) + 1)) by (nonlinear_arith)
            requires
                n == 0,
                isqrt_s(n) == 0,
        ;
    }
}

/// Any integer squeezed between the same squares is `isqrt_s(n)`.
pub proof fn lemma_isqrt_unique(n: nat, r: nat)
    requires
        r * r <= n,
        n < (r + 1) * (r + 1),
    ensures
        r == isqrt_s(n),
{
    lemma_isqrt_s_bounds(n);
    let s = isqrt_s(n);
    if r < s {
        assert((r + 1) * (r + 1) <= s * s) by (nonlinear_arith)
            requires
                r + 1 <= s,
        ;
    }
    if s < r {
        assert((s + 1) * (s + 1) <= r * r) by (nonlinear_arith)
            requires
                s + 1 <= r,
        ;
    }
}

/// Integer square root by binary search.
pub fn isqrt(n: u128) -> (r: u64)
    requires
        n < 0x4000_0000_0000_0000_0000_0000_0000_0000,
    ensures
        r == isqrt_s(n as nat),
{
    let mut lo: u128 = 0;
    let mut hi: u128 = 0x8000_0000_0000_0000;
    while lo + 1 < hi
        invariant
            lo < hi,
            hi <= 0x8000_0000_0000_0000,
            lo * lo <= n,
            n < hi * hi,
        decreases hi - lo,
    {
        let mid: u128 = lo + (hi - lo) / 2;
        proof {
            assert(mid * mid < 0x8000_0000_0000_0000 * 0x8000_0000_0000_0000)
                by (nonlinear_arith)
                requires
                    mid < 0x8000_0000_0000_0000,
            ;
        }
        if mid * mid <= n {
            lo = mid;
        } else {
            hi = mid;
        }
    }
    proof {
        assert(n < (lo + 1) * (lo + 1));
        lemma_isqrt_unique(n as nat, lo as nat);
    }
    lo as u64
}

/// Square root of a fixed-point scalar: `sqrt(x / FX_ONE) * FX_ONE`,
/// rounded down.
pub open spec fn sqrt_fx_s(x: int) -> int
    recommends
        x >= 0,
{
    isqrt_s((x * FX_ONE as int) as nat) as int
}

/// Square root of a nonnegative fixed-point scalar.
pub fn sqrt_fx(x: i64) -> (r: i64)
    requires
        0 <= x,
    ensures
        r == sqrt_fx_s(x as int),
        x <= FX_ONE ==> 0 <= r <= FX_ONE,
{
    proof {
        assert((x as int * FX_ONE as int) <= i64::MAX as int * FX_ONE as int) by (nonlinear_arith)
            requires
                0 <= x <= i64::MAX,
        ;
        assert((i64::MAX as int * FX_ONE as int) < u128::MAX) by (nonlinear_arith);
    }
    let n: u128 = (x as u128) * (FX_ONE as u128);
    proof {
        assert(n <= i64::MAX as int * FX_ONE as int);
        assert((i64::MAX as int * FX_ONE as int) < 0x4000_0000_0000_0000_0000_0000_0000_0000)
            by (nonlinear_arith);
        lemma_isqrt_s_bounds(n as nat);
        assert(isqrt_s(n as nat) * isqrt_s(n as nat) <= n);
        assert(isqrt_s(n as nat) <= i64::MAX) by (nonlinear_arith)
            requires
                isqrt_s(n as nat) * isqrt_s(n as nat) <= n,
                n <= i64::MAX as int * FX_ONE as int,
        ;
        if x <= FX_ONE {
            assert(n <= FX_ONE as int * FX_ONE as int) by (nonlinear_arith)
                requires
                    n == x as int * FX_ONE as int,
                    0 <= x <= FX_ONE,
            ;
            assert(isqrt_s(n as nat) <= FX_ONE) by (nonlinear_arith)
                requires
                    isqrt_s(n as nat) * isqrt_s(n as nat) <= n,
                    n <= FX_ONE as int * FX_ONE as int,
            ;
        }
    }
    isqrt(n) as i64
}

/// `x` raised to the `k`-th power, in fixed point.
pub open spec fn fpow_s(x: int, k: nat) -> int
    decreases k,
{
    if k == 0 {
        FX_ONE as int
    } else {
        fmul_s(fpow_s(x, (k - 1) as nat), x)
    }
}

/// A product of fixed-point scalars from the unit interval stays in the
/// unit interval.
pub proof fn lemma_fmul_unit_range(a: int, b: int)
    requires
        0 <= a <= FX_ONE,
        0 <= b <= FX_ONE,
    ensures
        0 <= fmul_s(a, b) <= FX_ONE,
        fmul_s(a, b) <= a,
{
    assert(0 <= a * b <= a * FX_ONE as int) by (nonlinear_arith)
        requires
            0 <= a,
            0 <= b <= FX_ONE,
    ;
    vstd::arithmetic::div_mod::lemma_div_is_ordered(a * b, a * FX_ONE as int, FX_ONE as int);
    vstd::arithmetic::div_mod::lemma_div_multiples_vanish(a, FX_ONE as int);
    assert(a * b / (FX_ONE as int) >= 0) by {
        vstd::arithmetic::div_mod::lemma_div_is_ordered(0, a * b, FX_ONE as int);
    }
}

/// `x` raised to the `k`-th power, for `x` in the unit interval.
pub fn fpow(x: i64, k: u32) -> (r: i64)
    requires
        0 <= x <= FX_ONE,
    ensures
        r == fpow_s(x as int, k as nat),
        0 <= r <= FX_ONE,
{
    let mut r: i64 = FX_ONE;
    let mut i: u32 = 0;
    while i < k
        invariant
            i <= k,
            0 <= x <= FX_ONE,
            r == fpow_s(x as int, i as nat),
            0 <= r <= FX_ONE,
        decreases k - i,
    {
        proof {
            lemma_fmul_unit_range(r as int, x as int);
        }
        r = fmul(r, x);
        i = i + 1;
    }
    r
}

/// `x` raised to the power `n / 2`, for `x` in the unit interval: the
/// exponent is counted in half steps so that both the plain powers and
/// the square-root-like attenuations of the movement rules share one
/// form.
pub open spec fn pow_half_s(x: int, n: nat) -> int {
    if n % 2 == 0 {
        fpow_s(x, n / 2)
    } else {
        fmul_s(fpow_s(x, n / 2), sqrt_fx_s(x))
    }
}

/// Zero raised to any positive power is zero.
pub proof fn lemma_fpow_zero(k: nat)
    requires
        k >= 1,
    ensures
        fpow_s(0, k) == 0,
    decreases k,
{
    if k > 1 {
        lemma_fpow_zero((k - 1) as nat);
    }
}

/// Zero raised to any positive number of half steps is zero.
pub proof fn lemma_pow_half_zero(n: nat)
    requires
        n >= 1,
    ensures
        pow_half_s(0, n) == 0,
{
    if n % 2 == 0 {
        lemma_fpow_zero(n / 2);
        assert(pow_half_s(0, n) == fpow_s(0, n / 2));
    } else {
        assert(isqrt_s((0 * FX_ONE as int) as nat) == 0);
        assert(sqrt_fx_s(0) == 0);
        assert(pow_half_s(0, n) == fmul_s(fpow_s(0, n / 2), 0));
        assert(fpow_s(0, n / 2) * 0 == 0);
        assert(fmul_s(fpow_s(0, n / 2), 0) == tdiv(0, FX_ONE as int));
        assert(tdiv(0, FX_ONE as int) == 0) by {
            vstd::arithmetic::div_mod::lemma_div_of0(FX_ONE as int);
        }
    }
}

/// `x` raised to `n` half steps, for `x` in the unit interval.
pub fn pow_half(x: i64, n: u32) -> (r: i64)
    requires
        0 <= x <= FX_ONE,
    ensures
        r == pow_half_s(x as int, n as nat),
        0 <= r <= FX_ONE,
{
    let p: i64 = fpow(x, n / 2);
    if n % 2 == 0 {
        p
    } else {
        let s: i64 = sqrt_fx(x);
        proof {
            lemma_isqrt_s_bounds((x as int * FX_ONE as int) as nat);
            lemma_fmul_unit_range(p as int, s as int);
        }
        fmul(p, s)
    }
}

/// A 2D vector of fixed-point scalars.
#[derive(Clone, Copy, PartialEq, Eq, Structural, Debug)]
pub struct Vec2Fx {
    pub x: i64,
    pub y: i64,
}

/// Both components of `v` are at most `b` in magnitude.
pub open spec fn v2_bounded(v: Vec2Fx, b: int) -> bool {
    iabs(v.x as int) <= b && iabs(v.y as int) <= b
}

impl Vec2Fx {
    /// The zero vector.
    pub fn zero() -> (r: Vec2Fx)
        ensures
            r == (Vec2Fx { x: 0, y: 0 }),
    {
        Vec2Fx { x: 0, y: 0 }
    }

    /// The unit vector pointing up.
    pub fn up() -> (r: Vec2Fx)
        ensures
            r == (Vec2Fx { x: 0, y: FX_ONE }),
    {
        Vec2Fx { x: 0, y: FX_ONE }
    }

    /// Componentwise sum.
    pub fn add(self, o: Vec2Fx) -> (r: Vec2Fx)
        requires
            i64::MIN <= self.x + o.x <= i64::MAX,
            i64::MIN <= self.y + o.y <= i64::MAX,
        ensures
            r.x == self.x + o.x,
            r.y == self.y + o.y,
    {
        Vec2Fx { x: self.x + o.x, y: self.y + o.y }
    }

    /// Componentwise negation.
    pub fn neg(self) -> (r: Vec2Fx)
        requires
            self.x > i64::MIN,
            self.y > i64::MIN,
        ensures
            r.x == -self.x,
            r.y == -self.y,
    {
        Vec2Fx { x: -self.x, y: -self.y }
    }

    /// Product with a fixed-point scalar.
    pub fn scale(self, s: i64) -> (r: Vec2Fx)
        requires
            iabs(self.x as int) * iabs(s as int) <= i64::MAX * FX_ONE as int,
            iabs(self.y as int) * iabs(s as int) <= i64::MAX * FX_ONE as int,
        ensures
            r.x == fmul_s(self.x as int, s as int),
            r.y == fmul_s(self.y as int, s as int),
    {
        Vec2Fx { x: fmul(self.x, s), y: fmul(self.y, s) }
    }

    /// Dot product of two fixed-point vectors.
    pub open spec fn dot_s(self, o: Vec2Fx) -> int {
        fmul_s(self.x as int, o.x as int) + fmul_s(self.y as int, o.y as int)
    }

    /// Dot product.
    pub fn dot(self, o: Vec2Fx) -> (r: i64)
        requires
            iabs(self.x as int) * iabs(o.x as int) <= i64::MAX * FX_ONE as int,
            iabs(self.y as int) * iabs(o.y as int) <= i64::MAX * FX_ONE as int,
            i64::MIN <= self.dot_s(o) <= i64::MAX,
        ensures
            r == self.dot_s(o),
    {
        let px: i64 = fmul(self.x, o.x);
        let py: i64 = fmul(self.y, o.y);
        proof {
            assert(iabs(px as int) * FX_ONE as int <= iabs(self.x as int) * iabs(o.x as int));
            assert(iabs(py as int) * FX_ONE as int <= iabs(self.y as int) * iabs(o.y as int));
        }
        px + py
    }
}

} // verus!
