//! Fixed-point quantities: an integer `n` stands for the real number `n / UNIT`.

use vstd::prelude::*;

verus! {

/// The integer that stands for the real number one.
pub const UNIT: u64 = 1_000_000;

/// The largest value a stored quantity can take.
pub open spec fn ceiling() -> int {
    u64::MAX as int
}

/// `x`, held at the largest storable quantity if it is beyond it.
pub open spec fn capped(x: int) -> int {
    if x > ceiling() {
        ceiling()
    } else {
        x
    }
}

/// The product of two fixed-point numbers, rounded down.
pub open spec fn scaled(a: int, b: int) -> int {
    (a * b) / (UNIT as int)
}

/// `a + b`, held at the largest storable quantity.
pub open spec fn raised(a: int, b: int) -> int {
    capped(a + b)
}

/// `a - b`, held at zero.
pub open spec fn lowered(a: int, b: int) -> int {
    if b >= a {
        0
    } else {
        a - b
    }
}

/// The product of two fixed-point numbers never exceeds a factor when the
/// other factor is at most one.
pub proof fn lemma_scaled_fraction(a: int, b: int)
    requires
        0 <= a,
        0 <= b <= UNIT,
    ensures
        0 <= scaled(a, b) <= a,
{
    assert(0 <= a * b <= a * (UNIT as int)) by (nonlinear_arith)
        requires
            0 <= a,
            0 <= b <= UNIT,
    ;
    assert((a * b) / (UNIT as int) <= a) by (nonlinear_arith)
        requires
            0 <= a * b <= a * (UNIT as int),
    ;
    assert(0 <= (a * b) / (UNIT as int)) by (nonlinear_arith)
        requires
            0 <= a * b,
    ;
}

/// The product of two fixed-point numbers grows with its second factor.
pub proof fn lemma_scaled_monotone(a: int, b: int, c: int)
    requires
        0 <= a,
        0 <= b <= c,
    ensures
        0 <= scaled(a, b) <= scaled(a, c),
{
    assert(0 <= a * b <= a * c) by (nonlinear_arith)
        requires
            0 <= a,
            0 <= b <= c,
    ;
    assert(0 <= (a * b) / (UNIT as int) <= (a * c) / (UNIT as int)) by (nonlinear_arith)
        requires
            0 <= a * b <= a * c,
    ;
}

/// Multiplies two fixed-point numbers, rounding down and stopping at the
/// largest storable quantity.
pub fn mul_unit(a: u64, b: u64) -> (r: u64)
    ensures
        r == capped(scaled(a as int, b as int)),
{
    assert(0 <= (a as int) * (b as int) <= 0xFFFF_FFFF_FFFF_FFFF * 0xFFFF_FFFF_FFFF_FFFF)
        by (nonlinear_arith)
        requires
            0 <= a <= 0xFFFF_FFFF_FFFF_FFFF,
            0 <= b <= 0xFFFF_FFFF_FFFF_FFFF,
    ;
    let wide: u128 = (a as u128) * (b as u128) / (UNIT as u128);
    if wide > u64::MAX as u128 {
        u64::MAX
    } else {
        wide as u64
    }
}

/// Adds two quantities, stopping at the largest storable quantity.
pub fn add_capped(a: u64, b: u64) -> (r: u64)
    ensures
        r == raised(a as int, b as int),
{
    if a > u64::MAX - b {
        u64::MAX
    } else {
        a + b
    }
}

/// Subtracts `b` from `a`, stopping at zero.
pub fn sub_floored(a: u64, b: u64) -> (r: u64)
    ensures
        r == lowered(a as int, b as int),
{
    if b >= a {
        0
    } else {
        a - b
    }
}

} // verus!
