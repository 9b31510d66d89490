//! The check on a pair of factors: neither may be one, and their product
//! has to fit.

use vstd::prelude::*;

verus! {

/// Why a pair of factors was refused.
#[derive(Clone, Copy, Debug, PartialEq, Eq, Structural)]
pub enum FactorError {
    /// One of the factors is one.
    TrivialFactor,
    /// The product does not fit in 64 bits.
    Overflow,
}

/// The product of two factors, or why they were refused. A factor of one
/// is refused first, whatever the other factor is.
pub open spec fn product_spec(a: u64, b: u64) -> Result<u64, FactorError> {
    if a == 1 || b == 1 {
        Err(FactorError::TrivialFactor)
    } else if a * b > u64::MAX {
        Err(FactorError::Overflow)
    } else {
        Ok((a * b) as u64)
    }
}

/// Multiplies two factors after checking that neither is one.
pub fn nontrivial_product(a: u64, b: u64) -> (res: Result<u64, FactorError>)
    ensures
        res == product_spec(a, b),
{
    if a == 1 || b == 1 {
        return Err(FactorError::TrivialFactor);
    }
    match a.checked_mul(b) {
        Some(product) => Ok(product),
        None => Err(FactorError::Overflow),
    }
}

/// The order of the factors does not matter.
pub proof fn lemma_product_commutes(a: u64, b: u64)
    ensures
        product_spec(a, b) == product_spec(b, a),
{
}

} // verus!
