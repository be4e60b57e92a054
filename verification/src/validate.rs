//! The rule that guards the engine: neither number may be zero.

use crate::euclid::{gcd, gcd_of};
use vstd::prelude::*;

verus! {

/// What the service says when it refuses a zero.
pub const ZERO_INPUT_MESSAGE: &'static str = "Computing the GCD with zero is boring.";

/// One of the two numbers is zero.
#[derive(Clone, Copy, Debug, PartialEq, Eq, Structural)]
pub struct ZeroInputError;

impl ZeroInputError {
    /// The words in which the refusal reaches the user.
    pub fn message(&self) -> (s: String)
        ensures
            s@ == ZERO_INPUT_MESSAGE@,
    {
        String::from_str(ZERO_INPUT_MESSAGE)
    }
}

/// Accepts a pair of numbers exactly when both are positive.
pub fn validate(n: u64, m: u64) -> (r: Result<(), ZeroInputError>)
    ensures
        r is Ok <==> n != 0 && m != 0,
{
    if n == 0 || m == 0 {
        Err(ZeroInputError)
    } else {
        Ok(())
    }
}

/// Validates a pair of numbers and, where it passes, hands it to the engine:
/// the greatest common divisor of two positive numbers, a refusal otherwise.
pub fn checked_gcd(n: u64, m: u64) -> (r: Result<u64, ZeroInputError>)
    ensures
        r is Ok <==> n != 0 && m != 0,
        r is Ok ==> r->Ok_0 == gcd_of(n as int, m as int),
{
    match validate(n, m) {
        Err(e) => Err(e),
        Ok(()) => Ok(gcd(n, m)),
    }
}

} // verus!
