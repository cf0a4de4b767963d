use vstd::prelude::*;

pub mod decode;
pub mod encode;
pub mod laws;
pub mod model;

verus! {

/// The ways a decode can fail.  Decoding is a single pass: every error is
/// terminal and no partial output is returned.
#[derive(Clone, Copy, Debug, PartialEq, Eq, Structural)]
pub enum DecodeError {
    /// The first byte is not the header character `x`.
    MalformedHeader,
    /// The first byte is the header, but the last byte is not the trailer `x`.
    MalformedTrailer,
    /// Structurally invalid: wrong overall length, a misplaced separator, a
    /// bad final-remainder length, or a reversed data field outside its
    /// 2-bit range.
    Corrupted,
    /// A body byte outside the 24-character alphabet, at the given 1-based
    /// position counted from just after the header.
    InvalidByte(usize),
    /// A consonant (or `x`/`-`) stands where a vowel is required.
    ExpectedVowel,
    /// A vowel (or `-`) stands where a consonant is required.
    ExpectedConsonant,
    /// The final checksum-only block does not match the derived residues.
    ChecksumMismatch,
}

} // verus!
