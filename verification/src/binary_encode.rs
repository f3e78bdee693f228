//! The binary-to-number pipeline: arbitrary bytes are first re-encoded into
//! the printable radix-64 text alphabet, and that printable string is then
//! read as a number over the default 94-symbol alphabet. The inverse writes
//! the number back out over the default alphabet and decodes the result as
//! radix-64 text.

use vstd::prelude::*;
use num_bigint::BigInt;
use crate::EncodingError;
use crate::alphabet::{
    all_in_alphabet, default_alphabet, default_symbols, lemma_default_symbols_valid,
    valid_alphabet,
};
use crate::bigint::big_value;
use crate::codec::{encode_spec, lemma_encode_of_decode, num2str, str2num, sym_val};
use crate::radix64::{is_radix64_byte, radix64_decode, radix64_encode, radix64_of};

verus! {

/// Every string the printable-radix bridge can emit reads as a canonical
/// symbol string of the default alphabet: its bytes are all symbols of it,
/// and none of them — in particular not its first — is the default
/// alphabet's zero-valued symbol.
pub proof fn lemma_bridge_string_canonical(e: Seq<u8>)
    requires
        forall|i: int| 0 <= i < e.len() ==> is_radix64_byte(#[trigger] e[i]),
    ensures
        all_in_alphabet(e, default_symbols()),
        e.len() > 0 ==> e[0] != default_symbols()[0],
{
    assert forall|i: int| 0 <= i < e.len() implies default_symbols().contains(
        #[trigger] e[i],
    ) by {
        let c = e[i];
        assert(default_symbols()[c - 0x21] == c);
    }
    if e.len() > 0 {
        assert(default_symbols()[0] == 0x21);
    }
}

/// Reads a byte buffer as a single non-negative integer: the buffer's
/// printable radix-64 encoding, interpreted as a symbol string over the
/// default alphabet. Succeeds on every input, since the default alphabet
/// contains every symbol the bridge can emit; the empty buffer yields
/// exactly zero.
pub fn bin2num(data: &[u8]) -> (r: Result<BigInt, EncodingError>)
    ensures
        r matches Ok(n) && big_value(n) == sym_val(radix64_of(data@), default_symbols()),
        r matches Ok(n) && big_value(n) >= 0,
        forall|i: int| 0 <= i < radix64_of(data@).len() ==> is_radix64_byte(
            #[trigger] radix64_of(data@)[i],
        ),
        radix64_of(data@).len() == 4 * ((data@.len() + 2) / 3),
        data@.len() == 0 ==> (r matches Ok(n) && big_value(n) == 0),
{
    let e = radix64_encode(data);
    let alpha = default_alphabet();
    proof {
        lemma_bridge_string_canonical(e@);
    }
    match str2num(e.as_slice(), &alpha) {
        Ok(n) => Ok(n),
        Err(_) => vstd::pervasive::unreached(),
    }
}

/// Writes a non-negative integer back out as the byte buffer it encodes:
/// the integer's canonical symbol string over the default alphabet, decoded
/// as printable radix-64 text. Returns the unique buffer whose radix-64
/// encoding matches that string, and fails with `MalformedEncoding` exactly
/// when no buffer does — the expected outcome for an integer that was not
/// produced by `bin2num`.
pub fn num2bin(number: BigInt) -> (r: Result<Vec<u8>, EncodingError>)
    requires
        big_value(number) >= 0,
    ensures
        r matches Ok(v) ==> radix64_of(v@) == encode_spec(
            big_value(number),
            default_symbols(),
        ),
        forall|b: Seq<u8>|
            encode_spec(big_value(number), default_symbols()) == #[trigger] radix64_of(b) ==> (
            r matches Ok(v) && v@ == b),
        r matches Err(e) ==> (e == EncodingError::MalformedEncoding && forall|b: Seq<u8>|
            encode_spec(big_value(number), default_symbols()) != #[trigger] radix64_of(b)),
{
    let alpha = default_alphabet();
    let s = num2str(number, &alpha);
    match radix64_decode(s.as_slice()) {
        Some(v) => Ok(v),
        None => Err(EncodingError::MalformedEncoding),
    }
}

/// Round-trip law: for every byte buffer, reading it as a number and writing
/// that number back yields exactly the original buffer — the empty buffer
/// passing through the integer zero. Verified end to end across the bridge
/// and the positional codec.
pub fn bin_round_trip(data: &[u8]) -> (r: Vec<u8>)
    ensures
        r@ == data@,
{
    let n = match bin2num(data) {
        Ok(n) => n,
        Err(_) => vstd::pervasive::unreached(),
    };
    proof {
        let e = radix64_of(data@);
        lemma_default_symbols_valid();
        lemma_bridge_string_canonical(e);
        lemma_encode_of_decode(e, default_symbols());
        assert(encode_spec(big_value(n), default_symbols()) == e);
    }
    match num2bin(n) {
        Ok(v) => v,
        Err(_) => vstd::pervasive::unreached(),
    }
}

} // verus!
