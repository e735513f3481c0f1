//! The errors that the engine's operations return.

use vstd::prelude::*;

verus! {

/// Why an operation was rejected. An operation that returns one of these has
/// left every record it was given untouched.
#[derive(Debug, Clone, Copy, PartialEq, Eq, Structural)]
pub enum SwapV3Error {
    /// The operation envelope is malformed.
    InvalidInstruction,
    /// A wide multiply-divide had a zero denominator, or a result does not
    /// fit its integer type.
    Overflow,
    /// A tick index is out of bounds or misaligned, a range is empty, or more
    /// liquidity is removed from a tick than references it.
    InvalidTick,
    /// A pool is initialised at price zero, or a swap yields less than the
    /// caller's minimum.
    InvalidPriceLimit,
}

impl SwapV3Error {
    /// The number of an error: the variant's position in the declaration.
    pub open spec fn spec_code(self) -> u32 {
        match self {
            SwapV3Error::InvalidInstruction => 0,
            SwapV3Error::Overflow => 1,
            SwapV3Error::InvalidTick => 2,
            SwapV3Error::InvalidPriceLimit => 3,
        }
    }

    /// The words of `message`.
    pub open spec fn spec_message(self) -> Seq<char> {
        match self {
            SwapV3Error::InvalidInstruction => "Invalid Instruction"@,
            SwapV3Error::Overflow => "Calculation overflow"@,
            SwapV3Error::InvalidTick => "Invalid tick index"@,
            SwapV3Error::InvalidPriceLimit => "Invalid price limit"@,
        }
    }

    /// What the error says to a user.
    pub fn message(self) -> (r: &'static str)
        ensures
            r@ == self.spec_message(),
    {
        match self {
            SwapV3Error::InvalidInstruction => "Invalid Instruction",
            SwapV3Error::Overflow => "Calculation overflow",
            SwapV3Error::InvalidTick => "Invalid tick index",
            SwapV3Error::InvalidPriceLimit => "Invalid price limit",
        }
    }

    /// The number that stands for the error in a host program.
    #[verifier::when_used_as_spec(spec_code)]
    pub fn code(self) -> (r: u32)
        ensures
            r == self.spec_code(),
    {
        match self {
            SwapV3Error::InvalidInstruction => 0,
            SwapV3Error::Overflow => 1,
            SwapV3Error::InvalidTick => 2,
            SwapV3Error::InvalidPriceLimit => 3,
        }
    }
}

} // verus!
