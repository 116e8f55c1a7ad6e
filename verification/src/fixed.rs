//! Fixed-point scalar arithmetic.
//!
//! A scalar is an `i64` holding a real quantity times [`SCALE`], so one
//! thousandth of a world unit is the smallest step. Every stored scalar is
//! kept inside `[-BOUND, BOUND]`; operations that could leave that range
//! saturate at its edges, the fixed-point analogue of the degradation the
//! underlying model accepts for out-of-range inputs.

use vstd::prelude::*;

verus! {

/// Raw units per world unit.
pub const SCALE: i64 = 1000;

/// Largest representable raw magnitude (one million world units).
pub const BOUND: i64 = 1_000_000_000;

/// The scalar `a` is representable.
pub open spec fn in_range(a: int) -> bool {
    -BOUND <= a <= BOUND
}

/// Truncating (round-toward-zero) division, the rounding `i64` division uses.
pub open spec fn tdiv(a: int, b: int) -> int {
    if a >= 0 {
        a / b
    } else {
        -((-a) / b)
    }
}

/// Saturate `a` into the representable range.
pub open spec fn fx_clamp(a: int) -> int {
    if a > BOUND {
        BOUND as int
    } else if a < -BOUND {
        -(BOUND as int)
    } else {
        a
    }
}

/// Fixed-point product: `a * b / SCALE`, truncated, then saturated.
pub open spec fn fx_mul_spec(a: int, b: int) -> int {
    fx_clamp(tdiv(a * b, SCALE as int))
}

/// The product of two representable scalars fits comfortably in `i64`.
pub proof fn lemma_mul_in_bounds(a: int, b: int)
    requires
        -1_000_000_000 <= a <= 1_000_000_000,
        -1_000_000_000 <= b <= 1_000_000_000,
    ensures
        -1_000_000_000_000_000_000 <= a * b <= 1_000_000_000_000_000_000,
{
    assert(-1_000_000_000_000_000_000 <= a * b <= 1_000_000_000_000_000_000)
        by (nonlinear_arith)
        requires
            -1_000_000_000 <= a <= 1_000_000_000,
            -1_000_000_000 <= b <= 1_000_000_000,
    ;
}

/// Truncating division is an odd function of the dividend.
pub proof fn lemma_tdiv_odd(a: int, b: int)
    requires
        b >= 1,
    ensures
        tdiv(-a, b) == -tdiv(a, b),
{
    if a == 0 {
        vstd::arithmetic::div_mod::lemma_div_of0(b);
    }
}

/// Saturation is an odd function.
pub proof fn lemma_clamp_odd(a: int)
    ensures
        fx_clamp(-a) == -fx_clamp(a),
{
}

/// Truncating division shrinks magnitude: `|tdiv(a, b)| <= |a|` for `b >= 1`.
pub proof fn lemma_tdiv_magnitude(a: int, b: int)
    requires
        b >= 1,
    ensures
        a >= 0 ==> 0 <= tdiv(a, b) <= a,
        a < 0 ==> a <= tdiv(a, b) <= 0,
{
    if a >= 0 {
        vstd::arithmetic::div_mod::lemma_div_nonincreasing(a, b);
        vstd::arithmetic::div_mod::lemma_div_pos_is_pos(a, b);
    } else {
        vstd::arithmetic::div_mod::lemma_div_nonincreasing(-a, b);
        vstd::arithmetic::div_mod::lemma_div_pos_is_pos(-a, b);
    }
}

/// Saturate a scalar into the representable range.
pub fn clamp_fx(a: i64) -> (r: i64)
    ensures
        r == fx_clamp(a as int),
        in_range(r as int),
{
    if a > BOUND {
        BOUND
    } else if a < -BOUND {
        -BOUND
    } else {
        a
    }
}

/// Magnitude of a scalar.
pub open spec fn iabs(a: int) -> int {
    if a >= 0 {
        a
    } else {
        -a
    }
}

/// Magnitude of a representable scalar.
pub fn fx_abs(a: i64) -> (r: i64)
    requires
        in_range(a as int),
    ensures
        r == iabs(a as int),
{
    if a >= 0 {
        a
    } else {
        -a
    }
}

/// Fixed-point product of two representable scalars.
pub fn fx_mul(a: i64, b: i64) -> (r: i64)
    requires
        in_range(a as int),
        in_range(b as int),
    ensures
        r == fx_mul_spec(a as int, b as int),
        in_range(r as int),
{
    proof {
        lemma_mul_in_bounds(a as int, b as int);
    }
    let p: i64 = a * b;
    proof {
        lemma_tdiv_magnitude(p as int, SCALE as int);
    }
    let q: i64 = p / SCALE;
    clamp_fx(q)
}

/// `r` is the floor of the square root of `n`.
pub open spec fn sqrt_brackets(n: int, r: int) -> bool {
    &&& 0 <= r
    &&& r * r <= n
    &&& n < (r + 1) * (r + 1)
}

/// Floor of the square root, defined by counting up.
pub open spec fn floor_sqrt(n: int) -> int
    decreases n,
{
    if n <= 0 {
        0
    } else {
        let r = floor_sqrt(n - 1);
        if (r + 1) * (r + 1) <= n {
            r + 1
        } else {
            r
        }
    }
}

/// `floor_sqrt(n)` brackets `n` between consecutive squares.
pub proof fn lemma_floor_sqrt_bounds(n: int)
    requires
        0 <= n,
    ensures
        sqrt_brackets(n, floor_sqrt(n)),
    decreases n,
{
    if n == 0 {
        assert(floor_sqrt(0) == 0);
    } else {
        lemma_floor_sqrt_bounds(n - 1);
        let r = floor_sqrt(n - 1);
        assert(floor_sqrt(n) == if (r + 1) * (r + 1) <= n {
            r + 1
        } else {
            r
        });
        if (r + 1) * (r + 1) <= n {
            assert(sqrt_brackets(n, r + 1)) by (nonlinear_arith)
                requires
                    0 <= r,
                    n >= 1,
                    (r + 1) * (r + 1) <= n,
                    n - 1 < (r + 1) * (r + 1),
            ;
        } else {
            assert(sqrt_brackets(n, r));
        }
    }
}

/// The square root of a positive number is positive.
pub proof fn lemma_floor_sqrt_pos(n: int)
    requires
        n >= 1,
    ensures
        floor_sqrt(n) >= 1,
{
    lemma_floor_sqrt_bounds(n);
    let r = floor_sqrt(n);
    if r < 1 {
        assert(n < 1) by (nonlinear_arith)
            requires
                r == 0,
                n < (r + 1) * (r + 1),
        ;
    }
}

/// Only one value is bracketed that way, so the exec search below must land
/// on `floor_sqrt`.
pub proof fn lemma_floor_sqrt_unique(n: int, r: int)
    requires
        sqrt_brackets(n, r),
    ensures
        r == floor_sqrt(n),
{
    lemma_floor_sqrt_bounds(n);
    let s = floor_sqrt(n);
    if r < s {
        assert((r + 1) * (r + 1) <= s * s) by (nonlinear_arith)
            requires
                0 <= r,
                r + 1 <= s,
        ;
    }
    if s < r {
        assert((s + 1) * (s + 1) <= r * r) by (nonlinear_arith)
            requires
                0 <= s,
                s + 1 <= r,
        ;
    }
}

/// Floor of the square root, by binary search.
pub fn isqrt(n: i64) -> (r: i64)
    requires
        0 <= n <= 4_000_000_000_000_000_000,
    ensures
        r == floor_sqrt(n as int),
        0 <= r <= 2_000_000_000,
{
    let mut lo: i64 = 0;
    let mut hi: i64 = 2_000_000_001;
    assert(hi * hi > n) by (nonlinear_arith)
        requires
            hi == 2_000_000_001,
            n <= 4_000_000_000_000_000_000,
    ;
    while lo + 1 < hi
        invariant
            0 <= lo < hi <= 2_000_000_001,
            lo * lo <= n,
            n < hi * hi,
        decreases hi - lo,
    {
        let mid: i64 = lo + (hi - lo) / 2;
        assert(lo < mid < hi);
        assert(mid * mid <= 4_000_000_004_000_000_001) by (nonlinear_arith)
            requires
                0 <= mid <= 2_000_000_001,
        ;
        if mid * mid <= n {
            lo = mid;
        } else {
            hi = mid;
        }
    }
    proof {
        lemma_floor_sqrt_unique(n as int, lo as int);
    }
    lo
}

/// Floor division (rounding toward negative infinity), as Euclidean `/`
/// gives it for a positive divisor.
pub fn floor_div(a: i64, b: i64) -> (r: i64)
    requires
        1 <= b <= BOUND,
        -4_000_000_000 <= a <= 4_000_000_000,
    ensures
        r == a as int / b as int,
{
    if a >= 0 {
        a / b
    } else {
        let m: i64 = -a;
        let q: i64 = (m + b - 1) / b;
        proof {
            let mi = m as int;
            let bi = b as int;
            vstd::arithmetic::div_mod::lemma_fundamental_div_mod(mi, bi);
            vstd::arithmetic::div_mod::lemma_mod_bound(mi, bi);
            let qm = mi / bi;
            let rm = mi % bi;
            if rm == 0 {
                assert(mi + bi - 1 == qm * bi + (bi - 1) && -mi == (-qm) * bi + 0)
                    by (nonlinear_arith)
                    requires
                        mi == qm * bi + rm,
                        rm == 0,
                ;
                vstd::arithmetic::div_mod::lemma_fundamental_div_mod_converse(
                    mi + bi - 1,
                    bi,
                    qm,
                    bi - 1,
                );
                vstd::arithmetic::div_mod::lemma_fundamental_div_mod_converse(-mi, bi, -qm, 0);
            } else {
                assert(mi + bi - 1 == (qm + 1) * bi + (rm - 1) && -mi == (-qm - 1) * bi + (bi - rm))
                    by (nonlinear_arith)
                    requires
                        mi == qm * bi + rm,
                ;
                vstd::arithmetic::div_mod::lemma_fundamental_div_mod_converse(
                    mi + bi - 1,
                    bi,
                    qm + 1,
                    rm - 1,
                );
                vstd::arithmetic::div_mod::lemma_fundamental_div_mod_converse(
                    -mi,
                    bi,
                    -qm - 1,
                    bi - rm,
                );
            }
        }
        -q
    }
}

/// Floor (Euclidean) remainder: the result is in `[0, b)`.
pub fn floor_mod(a: i64, b: i64) -> (r: i64)
    requires
        1 <= b <= BOUND,
        -4_000_000_000 <= a <= 4_000_000_000,
    ensures
        r == a as int % b as int,
        0 <= r < b,
{
    let q: i64 = floor_div(a, b);
    proof {
        vstd::arithmetic::div_mod::lemma_fundamental_div_mod(a as int, b as int);
        vstd::arithmetic::div_mod::lemma_mod_bound(a as int, b as int);
    }
    a - q * b
}

/// One full turn in fixed-point radians.
pub const TWO_PI_FX: i64 = 6283;

/// Half a turn in fixed-point radians.
pub const PI_FX: i64 = 3142;

/// A quarter turn in fixed-point radians.
pub const HALF_PI_FX: i64 = 1571;

/// Saturate a scalar into `[-SCALE, SCALE]`, the range of a sine or cosine.
pub open spec fn unit_clamp(a: int) -> int {
    if a > SCALE {
        SCALE as int
    } else if a < -SCALE {
        -(SCALE as int)
    } else {
        a
    }
}

/// Odd polynomial `r - r^3/6 + r^5/120` on a quarter wave, the truncated
/// sine series, saturated to the unit range.
pub open spec fn sin_poly(r: int) -> int {
    let r2 = fx_mul_spec(r, r);
    let r3 = fx_mul_spec(r2, r);
    let r5 = fx_mul_spec(r3, r2);
    unit_clamp(r - tdiv(r3, 6) + tdiv(r5, 120))
}

/// Fixed-point sine: the angle is folded into one quarter wave by the
/// symmetries of the sine, then approximated by `sin_poly`.
pub open spec fn fx_sin_spec(a: int) -> int {
    let m = a % (TWO_PI_FX as int);
    let c = if m >= PI_FX {
        m - TWO_PI_FX
    } else {
        m
    };
    let q = if c > HALF_PI_FX {
        PI_FX - c
    } else if c < -HALF_PI_FX {
        -PI_FX - c
    } else {
        c
    };
    sin_poly(q)
}

/// Fixed-point cosine, as the sine shifted by a quarter turn.
pub open spec fn fx_cos_spec(a: int) -> int {
    fx_sin_spec(a + HALF_PI_FX)
}

/// Fixed-point sine of an angle in fixed-point radians.
pub fn fx_sin(a: i64) -> (r: i64)
    requires
        -2_000_000_000 <= a <= 2_000_000_000,
    ensures
        r == fx_sin_spec(a as int),
        -SCALE <= r <= SCALE,
{
    let m: i64 = floor_mod(a, TWO_PI_FX);
    let c: i64 = if m >= PI_FX {
        m - TWO_PI_FX
    } else {
        m
    };
    let q: i64 = if c > HALF_PI_FX {
        PI_FX - c
    } else if c < -HALF_PI_FX {
        -PI_FX - c
    } else {
        c
    };
    let q2: i64 = fx_mul(q, q);
    let q3: i64 = fx_mul(q2, q);
    let q5: i64 = fx_mul(q3, q2);
    proof {
        lemma_tdiv_magnitude(q3 as int, 6);
        lemma_tdiv_magnitude(q5 as int, 120);
    }
    let s: i64 = q - q3 / 6 + q5 / 120;
    if s > SCALE {
        SCALE
    } else if s < -SCALE {
        -SCALE
    } else {
        s
    }
}

/// Fixed-point cosine of an angle in fixed-point radians.
pub fn fx_cos(a: i64) -> (r: i64)
    requires
        -1_500_000_000 <= a <= 1_500_000_000,
    ensures
        r == fx_cos_spec(a as int),
        -SCALE <= r <= SCALE,
{
    fx_sin(a + HALF_PI_FX)
}

} // verus!
