//! Exact saturating arithmetic on `i64` values.
//!
//! Battery states are allowed to grow arbitrarily negative as a diagnostic
//! signal, so additions and subtractions on energies saturate at the `i64`
//! bounds instead of overflowing.  Every helper has an exact specification.

use vstd::prelude::*;

verus! {

/// The value `v` clamped to the range of `i64`.
pub open spec fn clamp_i64(v: int) -> int {
    if v > i64::MAX as int {
        i64::MAX as int
    } else if v < i64::MIN as int {
        i64::MIN as int
    } else {
        v
    }
}

/// Saturating addition.
pub fn add_sat(a: i64, b: i64) -> (r: i64)
    ensures
        r as int == clamp_i64(a + b),
{
    let s: i128 = a as i128 + b as i128;
    if s > i64::MAX as i128 {
        i64::MAX
    } else if s < i64::MIN as i128 {
        i64::MIN
    } else {
        s as i64
    }
}

/// Saturating subtraction.
pub fn sub_sat(a: i64, b: i64) -> (r: i64)
    ensures
        r as int == clamp_i64(a - b),
{
    let s: i128 = a as i128 - b as i128;
    if s > i64::MAX as i128 {
        i64::MAX
    } else if s < i64::MIN as i128 {
        i64::MIN
    } else {
        s as i64
    }
}

/// Saturating multiplication.
pub fn mul_sat(a: i64, b: i64) -> (r: i64)
    ensures
        r as int == clamp_i64(a * b),
{
    proof {
        assert(i128::MIN as int <= a as int * b as int <= i128::MAX as int) by (nonlinear_arith)
            requires
                i64::MIN as int <= a as int <= i64::MAX as int,
                i64::MIN as int <= b as int <= i64::MAX as int,
        ;
    }
    let p: i128 = a as i128 * b as i128;
    if p > i64::MAX as i128 {
        i64::MAX
    } else if p < i64::MIN as i128 {
        i64::MIN
    } else {
        p as i64
    }
}

/// A `u32` sum capped at the type's range.
pub open spec fn spec_add_u32(a: int, b: int) -> int {
    if a + b <= u32::MAX as int {
        a + b
    } else {
        u32::MAX as int
    }
}

/// Saturating addition on `u32` times.
pub fn add_sat_u32(a: u32, b: u32) -> (r: u32)
    ensures
        r as int == spec_add_u32(a as int, b as int),
{
    let s: u64 = a as u64 + b as u64;
    if s > u32::MAX as u64 {
        u32::MAX
    } else {
        s as u32
    }
}

/// Division truncated toward zero, as the hardware divides.
pub open spec fn trunc_div(a: int, b: int) -> int
    recommends
        b > 0,
{
    if a >= 0 {
        a / b
    } else {
        -((-a) / b)
    }
}

/// Executable counterpart of [`trunc_div`] on `i128`.  The quotient never
/// exceeds the dividend in magnitude.
pub fn i128_trunc_div(a: i128, b: i128) -> (r: i128)
    requires
        b > 0,
        a > i128::MIN,
    ensures
        r as int == trunc_div(a as int, b as int),
        a >= 0 ==> 0 <= r <= a,
        a < 0 ==> a <= r <= 0,
{
    if a >= 0 {
        let q: u128 = (a as u128) / (b as u128);
        proof {
            vstd::arithmetic::div_mod::lemma_div_basics_4(a as int, b as int);
            vstd::arithmetic::div_mod::lemma_div_basics_5(a as int, b as int);
        }
        q as i128
    } else {
        let n: u128 = (-a) as u128;
        let q: u128 = n / (b as u128);
        proof {
            vstd::arithmetic::div_mod::lemma_div_basics_4(n as int, b as int);
            vstd::arithmetic::div_mod::lemma_div_basics_5(n as int, b as int);
        }
        -(q as i128)
    }
}

/// How many whole seconds an `amount` of energy takes at a `rate`:
/// the quotient truncated toward zero, clamped to `u32`.  A non-positive
/// amount takes no time; a positive amount at a non-positive rate never
/// completes, which is reported as the largest representable duration.
pub open spec fn spec_duration(amount: int, rate: int) -> int {
    if amount <= 0 {
        0
    } else if rate <= 0 {
        u32::MAX as int
    } else if amount / rate > u32::MAX as int {
        u32::MAX as int
    } else {
        amount / rate
    }
}

/// Executable counterpart of [`spec_duration`].
pub fn duration_for(amount: i64, rate: i64) -> (r: u32)
    ensures
        r as int == spec_duration(amount as int, rate as int),
{
    if amount <= 0 {
        0
    } else if rate <= 0 {
        u32::MAX
    } else {
        let q: u64 = (amount as u64) / (rate as u64);
        if q > u32::MAX as u64 {
            u32::MAX
        } else {
            q as u32
        }
    }
}

} // verus!
