use vstd::prelude::*;
use vstd::arithmetic::div_mod::*;

verus! {

/// Number of raw units per whole unit: every scalar in this library is a
/// fixed-point value whose mathematical meaning is `raw / SCALE`.
pub const SCALE: i64 = 65536;

/// Largest magnitude accepted for a raw coordinate of a point, a ray origin
/// or direction component, or a sphere radius (about 256 whole units).
pub const COORD_MAX: i64 = 16777216;

/// Largest raw magnitude accepted for a parametric distance along a ray
/// (about a million whole units).
pub const T_MAX: i64 = 68719476736;

/// Largest raw operand magnitude accepted by the fixed-point multiply and
/// divide helpers.
pub const FX_OP_MAX: i64 = 549755813888;

/// Integer division rounding toward zero, the rounding every executable
/// division in this library performs.
pub open spec fn div_trunc(n: int, d: int) -> int {
    if d >= 0 {
        if n >= 0 {
            n / d
        } else {
            -((-n) / d)
        }
    } else {
        if n >= 0 {
            -(n / (-d))
        } else {
            (-n) / (-d)
        }
    }
}

/// Fixed-point product: the exact integer product, rescaled back to scale
/// `SCALE`, rounding toward zero.
pub open spec fn fx_mul(a: int, b: int) -> int {
    div_trunc(a * b, SCALE as int)
}

/// Fixed-point quotient at scale `SCALE`, rounding toward zero.
pub open spec fn fx_div(a: int, b: int) -> int {
    div_trunc(a * (SCALE as int), b)
}

/// Floor of the square root of a non-negative integer.
pub open spec fn sqrt_floor(x: int) -> int
    decreases x,
{
    if x <= 0 {
        0
    } else {
        let r = sqrt_floor(x - 1);
        if (r + 1) * (r + 1) <= x {
            r + 1
        } else {
            r
        }
    }
}

/// `sqrt_floor(x)` is the unique non-negative integer whose square is at
/// most `x` while the next square is beyond `x`.
pub proof fn lemma_sqrt_floor_bounds(x: int)
    requires
        x >= 0,
    ensures
        sqrt_floor(x) >= 0,
        sqrt_floor(x) * sqrt_floor(x) <= x,
        x < (sqrt_floor(x) + 1) * (sqrt_floor(x) + 1),
    decreases x,
{
    if x == 0 {
    } else {
        lemma_sqrt_floor_bounds(x - 1);
        let r = sqrt_floor(x - 1);
        if (r + 1) * (r + 1) <= x {
            assert((r + 1) * (r + 1) < (r + 2) * (r + 2)) by (nonlinear_arith)
                requires
                    r >= 0,
            ;
        }
    }
}

/// Any integer meeting the floor-square-root bounds is `sqrt_floor(x)`.
pub proof fn lemma_sqrt_floor_unique(x: int, r: int)
    requires
        x >= 0,
        r >= 0,
        r * r <= x,
        x < (r + 1) * (r + 1),
    ensures
        r == sqrt_floor(x),
{
    lemma_sqrt_floor_bounds(x);
    let s = sqrt_floor(x);
    assert(r == s) by (nonlinear_arith)
        requires
            r >= 0,
            s >= 0,
            r * r <= x,
            x < (r + 1) * (r + 1),
            s * s <= x,
            x < (s + 1) * (s + 1),
    ;
}

/// Quotient and remainder facts for truncating division by a positive
/// divisor: the remainder has magnitude below `d` and the sign of `n`.
pub proof fn lemma_div_trunc_fundamental(n: int, d: int)
    requires
        d > 0,
    ensures
        n - d * div_trunc(n, d) <= d - 1,
        -(d - 1) <= n - d * div_trunc(n, d),
        n >= 0 ==> div_trunc(n, d) >= 0 && d * div_trunc(n, d) <= n,
        n <= 0 ==> div_trunc(n, d) <= 0 && n <= d * div_trunc(n, d),
{
    if n >= 0 {
        lemma_fundamental_div_mod(n, d);
        lemma_mod_division_less_than_divisor(n, d);
        lemma_div_pos_is_pos(n, d);
    } else {
        let m = -n;
        lemma_fundamental_div_mod(m, d);
        lemma_mod_division_less_than_divisor(m, d);
        lemma_div_pos_is_pos(m, d);
        assert(d * (-(m / d)) == -(d * (m / d))) by (nonlinear_arith);
    }
}

/// Truncating division by a positive divisor is monotone in the numerator.
pub proof fn lemma_div_trunc_ordered(n1: int, n2: int, d: int)
    requires
        d > 0,
        n1 <= n2,
    ensures
        div_trunc(n1, d) <= div_trunc(n2, d),
{
    if n1 >= 0 {
        lemma_div_is_ordered(n1, n2, d);
    } else if n2 < 0 {
        lemma_div_is_ordered(-n2, -n1, d);
    } else {
        lemma_div_pos_is_pos(-n1, d);
        lemma_div_pos_is_pos(n2, d);
    }
}

/// The magnitude of a truncated quotient never exceeds the numerator's.
pub proof fn lemma_div_trunc_bound(n: int, d: int)
    requires
        d != 0,
    ensures
        n >= 0 ==> -n <= div_trunc(n, d) <= n,
        n <= 0 ==> n <= div_trunc(n, d) <= -n,
        n >= 0 && d > 0 ==> 0 <= div_trunc(n, d),
        n <= 0 && d > 0 ==> div_trunc(n, d) <= 0,
{
    let m = if n >= 0 {
        n
    } else {
        -n
    };
    let e = if d >= 0 {
        d
    } else {
        -d
    };
    lemma_div_pos_is_pos(m, e);
    lemma_div_nonincreasing(m, e);
}

/// Signed division rounding toward zero, computed on magnitudes so that the
/// result is pinned exactly by `div_trunc`.
pub fn div_i128(n: i128, d: i128) -> (q: i128)
    requires
        d != 0,
        n > i128::MIN,
        d > i128::MIN,
    ensures
        q == div_trunc(n as int, d as int),
{
    let nm: u128 = if n >= 0 {
        n as u128
    } else {
        (-n) as u128
    };
    let dm: u128 = if d >= 0 {
        d as u128
    } else {
        (-d) as u128
    };
    let qm: u128 = nm / dm;
    proof {
        lemma_div_pos_is_pos(nm as int, dm as int);
        lemma_div_nonincreasing(nm as int, dm as int);
    }
    if (n >= 0) == (d >= 0) {
        qm as i128
    } else {
        -(qm as i128)
    }
}

/// Floor square root of an unsigned 128-bit value, by bisection.
pub fn isqrt_u128(x: u128) -> (r: u128)
    ensures
        r == sqrt_floor(x as int),
        r * r <= x,
{
    proof {
        lemma_sqrt_floor_bounds(x as int);
    }
    if x == 0 {
        return 0;
    }
    let mut lo: u128 = 0;
    let mut hi: u128 = 18446744073709551616;
    proof {
        assert((hi as int) * (hi as int) > x as int) by (nonlinear_arith)
            requires
                hi as int == 18446744073709551616,
                x as int <= 340282366920938463463374607431768211455,
        ;
    }
    while hi - lo > 1
        invariant
            lo < hi,
            hi <= 18446744073709551616,
            (lo as int) * (lo as int) <= x as int,
            (x as int) < (hi as int) * (hi as int),
        decreases hi - lo,
    {
        let mid: u128 = lo + (hi - lo) / 2;
        proof {
            assert(lo < mid && mid < hi);
            assert((mid as int) * (mid as int) <= 340282366920938463463374607431768211455int)
                by (nonlinear_arith)
                requires
                    0 <= mid as int <= 18446744073709551615,
            ;
        }
        if mid * mid <= x {
            lo = mid;
        } else {
            hi = mid;
        }
    }
    proof {
        lemma_sqrt_floor_unique(x as int, lo as int);
    }
    lo
}

/// Fixed-point multiply on raw scalars.
pub fn fx_mul_e(a: i64, b: i64) -> (r: i64)
    requires
        -FX_OP_MAX <= a <= FX_OP_MAX,
        -FX_OP_MAX <= b <= FX_OP_MAX,
    ensures
        r == fx_mul(a as int, b as int),
{
    proof {
        assert(-(FX_OP_MAX as int * FX_OP_MAX as int) <= (a as int) * (b as int) <= FX_OP_MAX
            as int * FX_OP_MAX as int) by (nonlinear_arith)
            requires
                -(FX_OP_MAX as int) <= a as int <= FX_OP_MAX as int,
                -(FX_OP_MAX as int) <= b as int <= FX_OP_MAX as int,
        ;
    }
    let p: i128 = (a as i128) * (b as i128);
    let q: i128 = div_i128(p, SCALE as i128);
    proof {
        lemma_div_trunc_fundamental(p as int, SCALE as int);
    }
    q as i64
}

/// Fixed-point divide on raw scalars; the divisor must be non-zero.
pub fn fx_div_e(a: i64, b: i64) -> (r: i64)
    requires
        -FX_OP_MAX <= a <= FX_OP_MAX,
        b != 0,
    ensures
        r == fx_div(a as int, b as int),
{
    let p: i128 = (a as i128) * (SCALE as i128);
    proof {
        assert(-(FX_OP_MAX as int * SCALE as int) <= (a as int) * (SCALE as int) <= FX_OP_MAX
            as int * SCALE as int) by (nonlinear_arith)
            requires
                -(FX_OP_MAX as int) <= a as int <= FX_OP_MAX as int,
        ;
    }
    let q: i128 = div_i128(p, b as i128);
    proof {
        lemma_div_trunc_bound(p as int, b as int);
    }
    q as i64
}

} // verus!
