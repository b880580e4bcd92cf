//! Fixed-point scale shared by every real-valued quantity of the engine.

use vstd::prelude::*;

verus! {

/// The number one in fixed point: a stored integer `n` stands for `n / UNIT`.
pub const UNIT: u64 = 1_000_000_000;

/// The count `x`, held at the largest `u64` when it lies above it.
pub open spec fn sat_u64(x: int) -> u64 {
    if x > u64::MAX {
        u64::MAX
    } else {
        x as u64
    }
}

/// The count `x`, held at the largest `usize` when it lies above it.
pub open spec fn sat_usize(x: int) -> usize {
    if x > usize::MAX {
        usize::MAX
    } else {
        x as usize
    }
}

/// The count `x`, held at the largest `i64` when it lies above it.
pub open spec fn sat_i64(x: int) -> i64 {
    if x > i64::MAX {
        i64::MAX
    } else {
        x as i64
    }
}

/// The product of two 64-bit quantities fits in 128 bits.
pub proof fn lemma_product_fits(a: int, b: int)
    requires
        0 <= a <= u64::MAX,
        0 <= b <= u64::MAX,
    ensures
        0 <= a * b <= u128::MAX,
        a * b <= 0xFFFF_FFFF_FFFF_FFFE_0000_0000_0000_0001,
{
    assert(0 <= a * b <= 0xFFFF_FFFF_FFFF_FFFF * 0xFFFF_FFFF_FFFF_FFFF) by (nonlinear_arith)
        requires
            0 <= a <= 0xFFFF_FFFF_FFFF_FFFF,
            0 <= b <= 0xFFFF_FFFF_FFFF_FFFF,
    ;
}

/// The product of two fixed-point numbers, rounded down to the next
/// representable value and held at the largest `u64`.
pub open spec fn scaled_product(x: u64, factor: u64) -> u64 {
    sat_u64((x * factor) / (UNIT as int))
}

/// Multiplies a fixed-point number by a fixed-point factor.
pub fn scale(x: u64, factor: u64) -> (product: u64)
    ensures
        product == scaled_product(x, factor),
        factor <= UNIT ==> product <= x,
        // within one unit of the exact product
        factor <= UNIT ==> product * UNIT <= x * factor < (product + 1) * UNIT,
{
    proof {
        lemma_product_fits(x as int, factor as int);
    }
    let wide: u128 = (x as u128) * (factor as u128);
    let q: u128 = wide / (UNIT as u128);
    proof {
        if factor <= UNIT {
            assert(x * factor <= x * UNIT) by (nonlinear_arith)
                requires
                    factor <= UNIT,
                    0 <= x,
            ;
            assert((x * factor) / (UNIT as int) <= x) by (nonlinear_arith)
                requires
                    x * factor <= x * UNIT,
                    UNIT > 0,
            ;
            assert(q * UNIT <= x * factor < (q + 1) * UNIT) by (nonlinear_arith)
                requires
                    q == (x * factor) / (UNIT as int),
                    UNIT > 0,
            ;
        }
    }
    if q > u64::MAX as u128 {
        u64::MAX
    } else {
        q as u64
    }
}

/// The whole number `index` in fixed point, held at the largest `i64`.
pub open spec fn whole(index: usize) -> i64 {
    sat_i64(index * UNIT)
}

/// Converts a grid coordinate to fixed point.
pub fn to_fixed(index: usize) -> (value: i64)
    ensures
        value == whole(index),
{
    proof {
        lemma_product_fits(index as int, UNIT as int);
    }
    let wide: u128 = (index as u128) * (UNIT as u128);
    if wide > i64::MAX as u128 {
        i64::MAX
    } else {
        wide as i64
    }
}

} // verus!
