use vstd::prelude::*;

pub mod alphabet;
pub mod atbash;
pub mod bigint;
pub mod binary_encode;
pub mod caeser;
pub mod codec;
pub mod radix64;

verus! {

/// The ways an encoding or decoding operation can fail.
#[derive(Debug, Clone, Copy, PartialEq, Eq, Structural)]
pub enum EncodingError {
    /// An alphabet was constructed from fewer than two symbols, or from a
    /// sequence containing a duplicate symbol.
    InvalidAlphabet,
    /// A symbol string contained a character absent from the target alphabet;
    /// carries the offending byte and its position.
    InvalidSymbol { symbol: u8, index: usize },
    /// A printable-radix string had an invalid length, padding or character.
    MalformedEncoding,
}

/// Relies on `String::push`: appends exactly one character at the end.
#[verifier::external_body]
pub(crate) fn push_char(s: &mut String, c: char)
    ensures
        final(s)@ == old(s)@.push(c),
{
    s.push(c);
}

} // verus!
