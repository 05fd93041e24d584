use vstd::prelude::*;
use crate::error::ContractError;

verus! {

/// Parts per million: the denominator of a fee rate.
pub const PPM: u128 = 1_000_000;

/// How a ratio computation can fail.
#[derive(Clone, Copy, Debug, PartialEq, Eq, Structural)]
pub enum RatioError {
    DivideByZero,
    Overflow,
}

/// Checked addition of two 64-bit counters.
pub fn add_u64(a: u64, b: u64) -> (r: Result<u64, ContractError>)
    ensures
        match r {
            Ok(v) => v == a + b,
            Err(e) => e == ContractError::Overflow && a + b > u64::MAX,
        },
{
    match a.checked_add(b) {
        Some(v) => Ok(v),
        None => Err(ContractError::Overflow),
    }
}

/// Checked addition of two 128-bit amounts.
pub fn add_u128(a: u128, b: u128) -> (r: Result<u128, ContractError>)
    ensures
        match r {
            Ok(v) => v == a + b,
            Err(e) => e == ContractError::Overflow && a + b > u128::MAX,
        },
{
    match a.checked_add(b) {
        Some(v) => Ok(v),
        None => Err(ContractError::Overflow),
    }
}

/// Checked subtraction of two 128-bit amounts.
pub fn sub_u128(a: u128, b: u128) -> (r: Result<u128, ContractError>)
    ensures
        match r {
            Ok(v) => v == a - b,
            Err(e) => e == ContractError::Overflow && a < b,
        },
{
    match a.checked_sub(b) {
        Some(v) => Ok(v),
        None => Err(ContractError::Overflow),
    }
}

/// Checked multiplication of two 128-bit amounts.
pub fn mul_u128(a: u128, b: u128) -> (r: Result<u128, ContractError>)
    ensures
        match r {
            Ok(v) => v == a * b,
            Err(e) => e == ContractError::Overflow && a * b > u128::MAX,
        },
{
    match a.checked_mul(b) {
        Some(v) => Ok(v),
        None => Err(ContractError::Overflow),
    }
}

/// `cosmwasm_std::Uint128::checked_multiply_ratio`: the floor of
/// `a * numerator / denominator`, computed with a 256-bit product, so that only
/// the quotient has to fit in 128 bits. A zero denominator and a quotient
/// that does not fit are reported, each by its own error.
#[verifier::external_body]
fn checked_multiply_ratio(a: u128, numerator: u128, denominator: u128) -> (r: Result<u128, RatioError>)
    ensures
        match r {
            Ok(v) => denominator != 0 && v == (a * numerator) / (denominator as int),
            Err(RatioError::DivideByZero) => denominator == 0,
            Err(RatioError::Overflow) => denominator != 0 && (a * numerator) / (denominator as int) > u128::MAX,
        },
{
    match cosmwasm_std::Uint128::new(a).checked_multiply_ratio(numerator, denominator) {
        Ok(v) => Ok(v.u128()),
        Err(cosmwasm_std::CheckedMultiplyRatioError::DivideByZero) => Err(RatioError::DivideByZero),
        Err(cosmwasm_std::CheckedMultiplyRatioError::Overflow) => Err(RatioError::Overflow),
    }
}

/// What `mul_ratio_u128` returns.
pub open spec fn mul_ratio_spec(a: u128, numerator: u128, denominator: u128) -> Result<u128, ContractError> {
    if denominator == 0 {
        Err(ContractError::InvalidInput)
    } else if (a * numerator) / (denominator as int) > u128::MAX {
        Err(ContractError::Overflow)
    } else {
        Ok(((a * numerator) / (denominator as int)) as u128)
    }
}

/// Multiply, then divide: the floor of `a * numerator / denominator`. The
/// product never overflows; the call fails with `Overflow` only where the
/// quotient does not fit, and with `InvalidInput` for a zero denominator.
pub fn mul_ratio_u128(a: u128, numerator: u128, denominator: u128) -> (r: Result<u128, ContractError>)
    ensures
        r == mul_ratio_spec(a, numerator, denominator),
{
    match checked_multiply_ratio(a, numerator, denominator) {
        Ok(v) => Ok(v),
        Err(RatioError::DivideByZero) => Err(ContractError::InvalidInput),
        Err(RatioError::Overflow) => Err(ContractError::Overflow),
    }
}

/// A ratio whose numerator does not exceed its denominator never exceeds the
/// amount it is taken of, so it cannot overflow.
pub proof fn lemma_ratio_bounded(a: u128, numerator: u128, denominator: u128)
    requires
        0 < denominator,
        numerator <= denominator,
    ensures
        (a * numerator) / (denominator as int) <= a,
        mul_ratio_spec(a, numerator, denominator) is Ok,
{
    assert(a * numerator <= a * denominator) by (nonlinear_arith)
        requires
            numerator <= denominator,
            0 <= a,
    ;
    assert((a * numerator) / (denominator as int) <= a) by (nonlinear_arith)
        requires
            a * numerator <= a * denominator,
            0 < denominator,
            0 <= a,
            0 <= numerator,
    ;
}

} // verus!
