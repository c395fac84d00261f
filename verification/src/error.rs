//! The ways in which encoding a number or reading an identifier can fail.

use vstd::prelude::*;

verus! {

/// Why the decoder of ULID strings refused a string.
#[derive(Debug, Clone, Copy, PartialEq, Eq, Structural)]
pub enum DecodeFailure {
    /// The string does not take twenty-six bytes.
    InvalidLength,
    /// The string holds a character that is no base-32 symbol.
    InvalidChar,
}

/// Why a number could not be encoded or an identifier could not be read.
#[derive(Debug, Clone, Copy, PartialEq, Eq, Structural)]
pub enum IdError {
    /// The radix is not one of 2 to 36.
    InvalidRadix,
    /// The time field is shorter than the scheme's, or holds a character that is
    /// not a digit of the scheme's alphabet.
    MalformedTimeField,
    /// The time field denotes a number below the scheme's bias, so that the time
    /// would be negative.
    ArithmeticUnderflow,
    /// The ULID decoder refused the string, for the reason given.
    ExternalDecodeFailure(DecodeFailure),
}

impl IdError {
    /// The failure in words.
    pub open spec fn message_text(self) -> Seq<char> {
        match self {
            IdError::InvalidRadix => "Radix must be between 2 and 36"@,
            IdError::MalformedTimeField => "The time field is malformed"@,
            IdError::ArithmeticUnderflow => "The time field lies before the epoch"@,
            IdError::ExternalDecodeFailure(DecodeFailure::InvalidLength) => "invalid length"@,
            IdError::ExternalDecodeFailure(DecodeFailure::InvalidChar) => "invalid character"@,
        }
    }

    /// The failure in words. For a string that the ULID decoder refused, these
    /// are the decoder's own.
    pub fn message(&self) -> (m: &'static str)
        ensures
            m@ == self.message_text(),
    {
        match self {
            IdError::InvalidRadix => "Radix must be between 2 and 36",
            IdError::MalformedTimeField => "The time field is malformed",
            IdError::ArithmeticUnderflow => "The time field lies before the epoch",
            IdError::ExternalDecodeFailure(DecodeFailure::InvalidLength) => "invalid length",
            IdError::ExternalDecodeFailure(DecodeFailure::InvalidChar) => "invalid character",
        }
    }
}

} // verus!
