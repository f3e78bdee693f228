//! Trusted declarations for the printable-radix bridge: the standard
//! 64-symbol text encoding of binary data, with `=` as its padding symbol,
//! as implemented by the `base64` crate's `STANDARD` engine.
//!
//! The encoded form of a byte sequence is named by the uninterpreted
//! function `radix64_of`; the two wrappers state of it only what the
//! crate's source shows: the output's length and symbol set, and that strict
//! decoding accepts exactly the encoder's outputs and inverts it.

use vstd::prelude::*;
use base64::Engine;
use base64::engine::general_purpose;

verus! {

/// The bytes the printable-radix bridge can emit: the 64 data symbols
/// (letters, digits, `+`, `/`) and the padding symbol `=`.
pub open spec fn is_radix64_byte(c: u8) -> bool {
    ||| (0x41 <= c && c <= 0x5A)  // 'A'..'Z'
    ||| (0x61 <= c && c <= 0x7A)  // 'a'..'z'
    ||| (0x30 <= c && c <= 0x39)  // '0'..'9'
    ||| c == 0x2B  // '+'
    ||| c == 0x2F  // '/'
    ||| c == 0x3D  // '='
}

/// The printable-radix encoding of a byte sequence. Its exact digit layout is
/// not restated here; the wrappers below pin down its length and symbol set,
/// and that decoding inverts it.
pub uninterp spec fn radix64_of(data: Seq<u8>) -> Seq<u8>;

/// Relies on `base64`'s `STANDARD` engine `encode`: the result is a function
/// of the input bytes alone, drawn from the 64 standard symbols plus `=`
/// padding, four output symbols for every three input bytes begun.
#[verifier::external_body]
pub(crate) fn radix64_encode(data: &[u8]) -> (r: Vec<u8>)
    ensures
        r@ == radix64_of(data@),
        r@.len() == 4 * ((data@.len() + 2) / 3),
        forall|i: int| 0 <= i < r@.len() ==> is_radix64_byte(#[trigger] r@[i]),
{
    general_purpose::STANDARD.encode(data).into_bytes()
}

/// Relies on `base64`'s `STANDARD` engine `decode`: with canonical padding
/// required and trailing bits rejected, it accepts exactly the strings the
/// engine's own `encode` produces, and returns the bytes it encoded.
#[verifier::external_body]
pub(crate) fn radix64_decode(s: &[u8]) -> (r: Option<Vec<u8>>)
    ensures
        r matches Some(v) ==> s@ == radix64_of(v@),
        r matches Some(v) ==> forall|b: Seq<u8>| s@ == #[trigger] radix64_of(b) ==> v@ == b,
        r is None ==> forall|b: Seq<u8>| s@ != #[trigger] radix64_of(b),
{
    match general_purpose::STANDARD.decode(s) {
        Ok(v) => Some(v),
        Err(_) => None,
    }
}

} // verus!
