use vstd::prelude::*;

verus! {

/// Why a hexadecimal string could not be turned into bytes.
#[derive(Clone, Copy, Debug, PartialEq, Eq, Structural)]
pub enum HexError {
    /// A character that is not a hexadecimal digit, with its position.
    InvalidCharacter { c: char, index: usize },
    /// The string has an odd number of digits.
    OddLength,
    /// The string does not have the length that the target needs.
    InvalidStringLength,
}

/// Everything that can stop a decode.
#[derive(Clone, Copy, Debug, PartialEq, Eq, Structural)]
pub enum DecodeError {
    /// The input is not a valid hexadecimal string.
    HexDecode(HexError),
    /// A read at `offset` asked for `requested` bytes, more than remain.
    InsufficientData { offset: usize, requested: u64 },
}

} // verus!
