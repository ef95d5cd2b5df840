//! Proportional shares computed with a wide intermediate product.

use vstd::prelude::*;

verus! {

/// `floor(amount * numerator / denominator)` over the mathematical integers.
pub open spec fn ratio_of(amount: u128, numerator: u128, denominator: u128) -> int
    recommends
        denominator > 0,
{
    (amount as int * numerator as int) / (denominator as int)
}

/// Relies on `cosmwasm_std::Uint128::checked_multiply_ratio`: it multiplies in
/// 256 bits, divides with truncation, and fails on a zero denominator or on a
/// quotient that does not fit in 128 bits.
#[verifier::external_body]
pub(crate) fn checked_multiply_ratio(amount: u128, numerator: u128, denominator: u128) -> (r:
    Option<u128>)
    ensures
        match r {
            Some(v) => denominator > 0 && v as int == ratio_of(amount, numerator, denominator),
            None => denominator == 0 || ratio_of(amount, numerator, denominator) > u128::MAX,
        },
{
    match cosmwasm_std::Uint128::new(amount).checked_multiply_ratio(numerator, denominator) {
        Ok(v) => Some(v.u128()),
        Err(_) => None,
    }
}

} // verus!
