//! Fixed-point scalar type for page coordinates and dimensions.
//!
//! All geometry in this crate is measured in PDF user-space points held as
//! thousandths ("milli-points") in an `i64`. Arithmetic saturates at
//! `FX_MAX`, far beyond any realistic page geometry, so every operation is
//! total and its result is pinned exactly by its contract.
use vstd::prelude::*;

verus! {

/// One point, in milli-points.
pub const FX_ONE: i64 = 1000;

/// Saturation bound for all fixed-point values (2^46 milli-points).
pub const FX_MAX: i64 = 70_368_744_177_664;

/// A fixed-point value in range.
pub open spec fn fx_ok(x: int) -> bool {
    -FX_MAX <= x <= FX_MAX
}

/// Saturate an unbounded value into the fixed-point range.
pub open spec fn fx_clamp(x: int) -> int {
    if x > FX_MAX {
        FX_MAX as int
    } else if x < -FX_MAX {
        -FX_MAX as int
    } else {
        x
    }
}

pub proof fn lemma_fx_clamp_ok(x: int)
    ensures
        fx_ok(fx_clamp(x)),
{
}

/// Convert whole points to fixed-point, saturating.
pub fn fx_from_int(n: i64) -> (r: i64)
    ensures
        r == fx_clamp(n * 1000),
{
    let wide: i128 = (n as i128) * 1000;
    clamp128(wide)
}

fn clamp128(x: i128) -> (r: i64)
    requires
        -0x4000_0000_0000_0000_0000_0000_0000_0000 < x < 0x4000_0000_0000_0000_0000_0000_0000_0000,
    ensures
        r == fx_clamp(x as int),
{
    if x > FX_MAX as i128 {
        FX_MAX
    } else if x < -(FX_MAX as i128) {
        -FX_MAX
    } else {
        x as i64
    }
}

/// Saturating addition.
pub fn fx_add(a: i64, b: i64) -> (r: i64)
    requires
        fx_ok(a as int),
        fx_ok(b as int),
    ensures
        r == fx_clamp(a + b),
        fx_ok(r as int),
{
    let s = a + b;
    if s > FX_MAX {
        FX_MAX
    } else if s < -FX_MAX {
        -FX_MAX
    } else {
        s
    }
}

/// Saturating subtraction.
pub fn fx_sub(a: i64, b: i64) -> (r: i64)
    requires
        fx_ok(a as int),
        fx_ok(b as int),
    ensures
        r == fx_clamp(a - b),
        fx_ok(r as int),
{
    let s = a - b;
    if s > FX_MAX {
        FX_MAX
    } else if s < -FX_MAX {
        -FX_MAX
    } else {
        s
    }
}

/// `max(a - b, 0)`: subtraction clamped at zero, for shrinking dimensions.
pub fn fx_sub_floor(a: i64, b: i64) -> (r: i64)
    requires
        fx_ok(a as int),
        fx_ok(b as int),
        0 <= b,
    ensures
        r == if a - b > 0 {
            a - b
        } else {
            0int
        },
        fx_ok(r as int),
{
    if a > b {
        a - b
    } else {
        0
    }
}

/// Maximum of two values.
pub fn fx_max(a: i64, b: i64) -> (r: i64)
    ensures
        r == if a >= b {
            a as int
        } else {
            b as int
        },
{
    if a >= b {
        a
    } else {
        b
    }
}

/// Minimum of two values.
pub fn fx_min(a: i64, b: i64) -> (r: i64)
    ensures
        r == if a <= b {
            a as int
        } else {
            b as int
        },
{
    if a <= b {
        a
    } else {
        b
    }
}

/// Saturating `a * n / d` on a non-negative value, for fractional scaling
/// such as the 1.2 line-height factor.
pub fn fx_frac(a: i64, n: i64, d: i64) -> (r: i64)
    requires
        fx_ok(a as int),
        0 <= a,
        1 <= n <= 100_000,
        1 <= d <= 100_000,
    ensures
        r == fx_clamp(a * n / (d as int)),
        0 <= r,
{
    proof {
        assert(0 <= a * n <= FX_MAX * 100_000) by (nonlinear_arith)
            requires
                0 <= a <= FX_MAX,
                1 <= n <= 100_000,
        ;
    }
    let wide: i128 = (a as i128) * (n as i128);
    let q: i128 = wide / (d as i128);
    proof {
        assert(0 <= (a * n) / (d as int) <= a * n) by (nonlinear_arith)
            requires
                0 <= a * n,
                1 <= d,
        ;
    }
    clamp128(q)
}

/// Saturating `a * k` for a non-negative count `k`.
pub fn fx_mul_count(a: i64, k: usize) -> (r: i64)
    requires
        fx_ok(a as int),
        0 <= a,
    ensures
        r == fx_clamp(a * k),
        0 <= r,
{
    proof {
        assert(0 <= a * k < 0x4000_0000_0000_0000_0000_0000_0000_0000) by (nonlinear_arith)
            requires
                0 <= a <= FX_MAX,
                0 <= k <= 0xffff_ffff_ffff_ffff,
        ;
    }
    let wide: i128 = (a as i128) * (k as i128);
    clamp128(wide)
}

/// Floor of `a / b` as a plain count, for line-capacity computations.
pub fn fx_div_count(a: i64, b: i64) -> (r: i64)
    requires
        0 <= a,
        0 < b,
    ensures
        r == a / b,
        0 <= r <= a,
{
    proof {
        assert(0 <= a / b <= a) by (nonlinear_arith)
            requires
                0 <= a,
                0 < b,
        ;
    }
    a / b
}

/// Floor of `a / b` as a count, saturating at the platform's maximum
/// count, as a float-to-`usize` conversion would.
pub fn fx_div_to_count(a: i64, b: i64) -> (r: usize)
    requires
        0 <= a,
        0 < b,
    ensures
        r == if a / b > usize::MAX {
            usize::MAX as int
        } else {
            a / b
        },
{
    proof {
        assert(0 <= a / b <= a) by (nonlinear_arith)
            requires
                0 <= a,
                0 < b,
        ;
    }
    let q = a / b;
    if (q as u64) > (usize::MAX as u64) {
        usize::MAX
    } else {
        q as usize
    }
}

/// Saturating `w * size / upem`: scale a raw font-unit advance to
/// fixed-point at the given size.
pub fn fx_scale_metric(w: i64, size: i64, upem: u16) -> (r: i64)
    requires
        0 <= w <= 0xffff_ffff,
        fx_ok(size as int),
        0 <= size,
        upem >= 1,
    ensures
        r == fx_clamp(w * size / upem as int),
        0 <= r,
{
    proof {
        assert(0 <= w * size <= 0xffff_ffff * FX_MAX) by (nonlinear_arith)
            requires
                0 <= w <= 0xffff_ffff,
                0 <= size <= FX_MAX,
        ;
    }
    let wide: i128 = (w as i128) * (size as i128);
    let q: i128 = wide / (upem as i128);
    proof {
        assert(0 <= (w * size) / (upem as int) <= w * size) by (nonlinear_arith)
            requires
                0 <= w * size,
                1 <= upem,
        ;
    }
    clamp128(q)
}

} // verus!
