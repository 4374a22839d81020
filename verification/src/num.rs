//! Exact integer helpers shared by the fixed-point arithmetic of the crate:
//! floor division by the fixed scales, rounding, integer square root and the
//! rational approximation of the sine used for aiming.

use vstd::prelude::*;

verus! {

/// One pixel expressed in atto-pixels (the unit of exact trajectory
/// evaluation).
pub const ATTO_PER_PX: i128 = 1_000_000_000_000_000_000;

/// Rounds `a` milli-units to whole units, half away from zero, as `f32::round`
/// does on the scaled value.
pub open spec fn round_milli_spec(a: int) -> int {
    if a >= 0 {
        (a + 500) / 1000
    } else {
        -((-a + 500) / 1000)
    }
}

/// Rounding of a milli-pixel value to whole pixels, half away from zero.
pub fn round_milli(a: i64) -> (r: i64)
    requires
        -1_000_000_000_000 <= a <= 1_000_000_000_000,
    ensures
        r == round_milli_spec(a as int),
{
    if a >= 0 {
        (((a as u64) + 500) / 1000) as i64
    } else {
        let n = (-a) as u64;
        -(((n + 500) / 1000) as i64)
    }
}

/// The grid cell that a position in atto-pixels falls in: the floor of the
/// position in whole pixels.
pub open spec fn cell_of_atto_spec(p: int) -> int {
    p / (ATTO_PER_PX as int)
}

/// Floor of an atto-pixel coordinate in whole pixels.
pub fn cell_of_atto(p: i128) -> (r: i64)
    requires
        -1_000_000_000_000_000_000_000_000_000_000 < p < 1_000_000_000_000_000_000_000_000_000_000,
    ensures
        r == cell_of_atto_spec(p as int),
{
    if p >= 0 {
        ((p as u128) / (ATTO_PER_PX as u128)) as i64
    } else {
        let n = (-p) as u128;
        let q = (n / (ATTO_PER_PX as u128)) as i64;
        let rem = n % (ATTO_PER_PX as u128);
        if rem == 0 {
            -q
        } else {
            -q - 1
        }
    }
}

/// The milli-pixel coordinate (floored) of a position in atto-pixels.
pub open spec fn milli_of_atto_spec(p: int) -> int {
    p / 1_000_000_000_000_000
}

/// Floor of an atto-pixel coordinate in milli-pixels.
pub fn milli_of_atto(p: i128) -> (r: i64)
    requires
        -1_000_000_000_000_000_000_000_000_000_000 < p < 1_000_000_000_000_000_000_000_000_000_000,
    ensures
        r == milli_of_atto_spec(p as int),
        -1_000_000_000_000_000 <= r <= 1_000_000_000_000_000,
{
    if p >= 0 {
        ((p as u128) / 1_000_000_000_000_000u128) as i64
    } else {
        let n = (-p) as u128;
        let q = (n / 1_000_000_000_000_000u128) as i64;
        let rem = n % 1_000_000_000_000_000u128;
        if rem == 0 {
            -q
        } else {
            -q - 1
        }
    }
}

/// Floor division of a milli-unit value by 1000 (towards negative
/// infinity).
pub fn floor_div_1000(a: i64) -> (r: i64)
    requires
        -1_000_000_000_000_000_000 <= a <= 1_000_000_000_000_000_000,
    ensures
        r == a as int / 1000,
{
    if a >= 0 {
        ((a as u64) / 1000) as i64
    } else {
        let n = (-a) as u64;
        let q = (n / 1000) as i64;
        if n % 1000 == 0 {
            -q
        } else {
            -q - 1
        }
    }
}

/// Integer square root: the largest `r` with `r * r <= n`.
pub fn isqrt(n: u64) -> (r: u64)
    ensures
        r * r <= n < (r + 1) * (r + 1),
{
    let mut lo: u64 = 0;
    let mut hi: u64 = 0x1_0000_0000;
    while lo + 1 < hi
        invariant
            lo < hi <= 0x1_0000_0000,
            lo * lo <= n,
            n < hi * hi,
        decreases hi - lo,
    {
        let mid = lo + (hi - lo) / 2;
        proof {
            assert(mid * mid < 0xffff_ffff_ffff_ffff) by (nonlinear_arith)
                requires
                    mid < 0x1_0000_0000,
            ;
        }
        if mid * mid <= n {
            lo = mid;
        } else {
            hi = mid;
        }
    }
    lo
}

/// The sine of an angle given in milli-degrees, scaled by 1000, by the exact
/// rational approximation 4x(180 - x) / (40500 - x(180 - x)) (with x in
/// degrees); the values at 0, +-30, +-90 and +-150 degrees are exact.
pub open spec fn sin_milli_spec(m: int) -> int {
    if m >= 0 {
        4000 * m * (180000 - m) / (40_500_000_000 - m * (180000 - m))
    } else {
        -(4000 * -m * (180000 + m) / (40_500_000_000 - -m * (180000 + m)))
    }
}

/// The cosine of an angle given in milli-degrees, scaled by 1000.
pub open spec fn cos_milli_spec(m: int) -> int {
    sin_milli_spec(90000 - abs_spec(m))
}

/// Absolute value.
pub open spec fn abs_spec(m: int) -> int {
    if m >= 0 {
        m
    } else {
        -m
    }
}

/// Sine of a milli-degree angle, scaled by 1000.
pub fn sin_milli(m: i64) -> (r: i64)
    requires
        -180_000 <= m <= 180_000,
    ensures
        r == sin_milli_spec(m as int),
        -1000 <= r <= 1000,
{
    let neg = m < 0;
    let x: u64 = if neg {
        (-m) as u64
    } else {
        m as u64
    };
    let d2: u64 = 180_000 - x;
    proof {
        assert(x * d2 <= 8_100_000_000) by (nonlinear_arith)
            requires
                0 <= x <= 180_000,
                d2 == 180_000 - x,
        ;
    }
    let t: u64 = x * d2;
    let num: u64 = 4000 * t;
    let den: u64 = 40_500_000_000 - t;
    let q = (num / den) as i64;
    proof {
        assert(num == 4000 * (x as int) * (180_000 - x as int)) by (nonlinear_arith)
            requires
                num == 4000 * t,
                t == x * d2,
                d2 == 180_000 - x,
        ;
        assert(q <= 1000) by (nonlinear_arith)
            requires
                q == num as int / den as int,
                num <= 4000 * 8_100_000_000,
                den >= 32_400_000_000,
        ;
    }
    if neg {
        -q
    } else {
        q
    }
}

/// Cosine of a milli-degree angle, scaled by 1000.
pub fn cos_milli(m: i64) -> (r: i64)
    requires
        -180_000 <= m <= 180_000,
    ensures
        r == cos_milli_spec(m as int),
        -1000 <= r <= 1000,
{
    let a: i64 = if m < 0 {
        -m
    } else {
        m
    };
    sin_milli(90_000 - a)
}

} // verus!
