//! The positional codec: conversion between a symbol string over an alphabet
//! and an arbitrary-precision non-negative integer, in most-significant-first
//! positional notation with base equal to the alphabet's length.

use vstd::prelude::*;
use vstd::arithmetic::div_mod::{
    lemma_div_decreases, lemma_div_pos_is_pos, lemma_fundamental_div_mod,
    lemma_fundamental_div_mod_converse_div, lemma_fundamental_div_mod_converse_mod,
    lemma_mod_bound,
};
use vstd::arithmetic::mul::{lemma_mul_inequality, lemma_mul_nonnegative};
use num_bigint::BigInt;
use crate::EncodingError;
use crate::alphabet::{Alphabet, all_in_alphabet, distinct_symbols, valid_alphabet};
use crate::bigint::{big_add_u64, big_div_u64, big_is_zero, big_mul_u64, big_rem_u64, big_to_u64, big_zero, big_value};

verus! {

/// The integer denoted by symbol string `s` over alphabet `a`: each symbol
/// contributes its digit value (its position in `a`) times the base raised to
/// the power of its distance from the string's end. The empty string denotes
/// zero.
pub open spec fn sym_val(s: Seq<u8>, a: Seq<u8>) -> int
    decreases s.len(),
{
    if s.len() == 0 {
        0
    } else {
        sym_val(s.drop_last(), a) * a.len() + a.index_of(s.last())
    }
}

/// The canonical symbol string denoting `n` over alphabet `a`: repeated
/// division by the base, least-significant digit written last. Zero is
/// denoted by the empty string, so no canonical string has a leading
/// zero-valued symbol.
pub open spec fn encode_spec(n: int, a: Seq<u8>) -> Seq<u8>
    decreases n,
        when n > 0 ==> a.len() >= 2
        via encode_spec_decreases
{
    if n <= 0 {
        Seq::empty()
    } else {
        encode_spec(n / a.len() as int, a).push(a[n % a.len() as int])
    }
}

#[via_fn]
proof fn encode_spec_decreases(n: int, a: Seq<u8>) {
    if n > 0 {
        lemma_div_decreases(n, a.len() as int);
        lemma_div_pos_is_pos(n, a.len() as int);
    }
}

/// The position of the first byte of `s` that is not a symbol of `a`;
/// `s.len()` when every byte is a symbol.
pub open spec fn first_invalid(s: Seq<u8>, a: Seq<u8>) -> int
    decreases s.len(),
{
    if s.len() == 0 {
        0
    } else if !a.contains(s.first()) {
        0
    } else {
        1 + first_invalid(s.drop_first(), a)
    }
}

/// In a duplicate-free alphabet, the index found for a symbol is the position
/// it was taken from.
proof fn lemma_index_of_at(a: Seq<u8>, i: int)
    requires
        distinct_symbols(a),
        0 <= i < a.len(),
    ensures
        a.index_of(a[i]) == i,
{
    assert(a.contains(a[i]));
    let j = a.index_of(a[i]);
    assert(0 <= j < a.len() && a[j] == a[i]);
}

/// A valid index for a contained symbol.
proof fn lemma_index_of_contains(a: Seq<u8>, c: u8)
    requires
        a.contains(c),
    ensures
        0 <= a.index_of(c) < a.len(),
        a[a.index_of(c)] == c,
{
}

/// Connects the index-based scan of the implementation to `first_invalid`.
proof fn lemma_first_invalid_at(s: Seq<u8>, a: Seq<u8>, i: int)
    requires
        0 <= i <= s.len(),
        forall|k: int| 0 <= k < i ==> a.contains(#[trigger] s[k]),
        i < s.len() ==> !a.contains(s[i]),
    ensures
        first_invalid(s, a) == i,
    decreases i,
{
    if s.len() == 0 {
    } else if i == 0 {
    } else {
        assert(a.contains(s.first()));
        let s2 = s.drop_first();
        assert forall|k: int| 0 <= k < i - 1 implies a.contains(#[trigger] s2[k]) by {
            assert(s2[k] == s[k + 1]);
        }
        assert(i - 1 < s2.len() ==> s2[i - 1] == s[i]);
        lemma_first_invalid_at(s2, a, i - 1);
    }
}

/// Law: decoding inverts encoding. For every non-negative integer `n` and
/// valid alphabet, the canonical symbol string denoting `n` is made of the
/// alphabet's symbols only and denotes exactly `n` — so `str2num` applied to
/// the output of `num2str` returns the original integer.
pub proof fn lemma_decode_of_encode(n: int, a: Seq<u8>)
    requires
        n >= 0,
        valid_alphabet(a),
    ensures
        all_in_alphabet(encode_spec(n, a), a),
        sym_val(encode_spec(n, a), a) == n,
    decreases n,
{
    let l = a.len() as int;
    if n > 0 {
        lemma_div_pos_is_pos(n, l);
        lemma_div_decreases(n, l);
        lemma_mod_bound(n, l);
        lemma_decode_of_encode(n / l, a);
        let e = encode_spec(n, a);
        let e0 = encode_spec(n / l, a);
        let d = n % l;
        assert(e == e0.push(a[d]));
        assert(e.drop_last() =~= e0);
        assert(e.last() == a[d]);
        lemma_index_of_at(a, d);
        lemma_fundamental_div_mod(n, l);
        assert(sym_val(e, a) == sym_val(e.drop_last(), a) * l + a.index_of(e.last()));
        assert(sym_val(e.drop_last(), a) == n / l);
        assert(sym_val(e, a) == (n / l) * l + d);
        assert(n == l * (n / l) + n % l);
        assert forall|i: int| 0 <= i < e.len() implies a.contains(#[trigger] e[i]) by {
            if i < e0.len() {
                assert(e[i] == e0[i]);
            } else {
                assert(e[i] == a[d]);
            }
        }
    }
}

/// Law: encoding inverts decoding on canonical strings. A symbol string with
/// no leading zero-valued symbol (in particular any string over symbols that
/// do not include the alphabet's first symbol) denotes a non-negative integer
/// whose canonical encoding is the string itself. Strings with leading
/// zero-valued symbols collapse under decoding, so the inverse holds in this
/// direction only.
pub proof fn lemma_encode_of_decode(e: Seq<u8>, a: Seq<u8>)
    requires
        valid_alphabet(a),
        all_in_alphabet(e, a),
        e.len() > 0 ==> e[0] != a[0],
    ensures
        sym_val(e, a) >= 0,
        e.len() > 0 ==> sym_val(e, a) > 0,
        encode_spec(sym_val(e, a), a) == e,
    decreases e.len(),
{
    let l = a.len() as int;
    if e.len() > 0 {
        let e0 = e.drop_last();
        let c = e.last();
        assert(a.contains(e[e.len() - 1]));
        lemma_index_of_contains(a, c);
        let d = a.index_of(c);
        let v0 = sym_val(e0, a);
        let v = sym_val(e, a);
        assert(v == v0 * l + d);
        if e.len() == 1 {
            assert(e0 =~= Seq::<u8>::empty());
            assert(v == d);
            assert(a[d] == c && c == e[0] && e[0] != a[0]);
            assert(d != 0);
            lemma_fundamental_div_mod_converse_div(v, l, 0, d);
            lemma_fundamental_div_mod_converse_mod(v, l, 0, d);
            assert(encode_spec(v, a) == encode_spec(0, a).push(a[d]));
            assert(encode_spec(0, a).push(a[d]) =~= e);
        } else {
            assert(e0[0] == e[0]);
            assert forall|i: int| 0 <= i < e0.len() implies a.contains(#[trigger] e0[i]) by {
                assert(e0[i] == e[i]);
            }
            lemma_encode_of_decode(e0, a);
            lemma_mul_inequality(1, v0, l);
            lemma_fundamental_div_mod_converse_div(v, l, v0, d);
            lemma_fundamental_div_mod_converse_mod(v, l, v0, d);
            assert(encode_spec(v, a) == encode_spec(v0, a).push(a[d]));
            assert(encode_spec(v0, a).push(a[d]) =~= e);
        }
    }
}

/// Converts a symbol string into the integer it denotes over `alphabet`,
/// reading most-significant symbols first. Succeeds exactly when every byte
/// of `s` is a symbol of the alphabet (in particular, the empty string
/// denotes zero); otherwise reports the first offending byte and where it
/// stands.
pub fn str2num(s: &[u8], alphabet: &Alphabet) -> (r: Result<BigInt, EncodingError>)
    requires
        alphabet.wf(),
    ensures
        all_in_alphabet(s@, alphabet@) ==> (r matches Ok(n) && big_value(n) == sym_val(
            s@,
            alphabet@,
        ) && big_value(n) >= 0),
        !all_in_alphabet(s@, alphabet@) ==> (r matches Err(e) && e == (EncodingError::InvalidSymbol {
            symbol: s@[first_invalid(s@, alphabet@)],
            index: first_invalid(s@, alphabet@) as usize,
        })),
{
    proof {
        alphabet.lemma_wf_valid();
    }
    let base = alphabet.base();
    let mut n = big_zero();
    let mut i: usize = 0;
    while i < s.len()
        invariant
            alphabet.wf(),
            valid_alphabet(alphabet@),
            i <= s@.len(),
            base == alphabet@.len(),
            forall|k: int| 0 <= k < i ==> alphabet@.contains(#[trigger] s@[k]),
            big_value(n) == sym_val(s@.take(i as int), alphabet@),
            big_value(n) >= 0,
        decreases s@.len() - i,
    {
        match alphabet.lookup(s[i]) {
            None => {
                proof {
                    lemma_first_invalid_at(s@, alphabet@, i as int);
                }
                return Err(EncodingError::InvalidSymbol { symbol: s[i], index: i });
            },
            Some(d) => {
                let t = big_mul_u64(&n, base as u64);
                n = big_add_u64(&t, d as u64);
                proof {
                    let pre = s@.take(i as int);
                    let post = s@.take(i + 1);
                    assert(post.drop_last() =~= pre);
                    assert(post.last() == s@[i as int]);
                    lemma_index_of_at(alphabet@, d as int);
                    assert(alphabet@.index_of(s@[i as int]) == d);
                    lemma_mul_nonnegative(sym_val(pre, alphabet@), alphabet@.len() as int);
                }
            },
        }
        i = i + 1;
    }
    proof {
        assert(s@.take(s@.len() as int) =~= s@);
    }
    Ok(n)
}

/// Converts a non-negative integer into its canonical symbol string over
/// `alphabet`: repeated division by the base, remainders mapped back through
/// the alphabet, most-significant symbol first. Zero yields the empty string,
/// the denotation of which is again zero.
pub fn num2str(number: BigInt, alphabet: &Alphabet) -> (r: Vec<u8>)
    requires
        alphabet.wf(),
        big_value(number) >= 0,
    ensures
        r@ == encode_spec(big_value(number), alphabet@),
{
    proof {
        alphabet.lemma_wf_valid();
    }
    let ghost n0 = big_value(number);
    let base = alphabet.base();
    let mut n = number;
    let mut out: Vec<u8> = Vec::new();
    loop
        invariant
            alphabet.wf(),
            base == alphabet@.len(),
            base >= 2,
            big_value(n) >= 0,
            encode_spec(n0, alphabet@) == encode_spec(big_value(n), alphabet@) + out@.reverse(),
        ensures
            big_value(n) == 0,
            encode_spec(n0, alphabet@) == out@.reverse(),
        decreases big_value(n),
    {
        if big_is_zero(&n) {
            break;
        }
        let ghost v = big_value(n);
        let d_big = big_rem_u64(&n, base as u64);
        proof {
            lemma_mod_bound(v, base as int);
        }
        let d64 = match big_to_u64(&d_big) {
            Some(w) => w,
            None => vstd::pervasive::unreached(),
        };
        let d = d64 as usize;
        out.push(alphabet.symbol_at(d));
        n = big_div_u64(&n, base as u64);
        proof {
            lemma_div_pos_is_pos(v, base as int);
            lemma_div_decreases(v, base as int);
            let a = alphabet@;
            let prev = out@.drop_last();
            assert(out@ =~= prev.push(a[v % base as int]));
            assert(encode_spec(v, a) == encode_spec(v / base as int, a).push(
                a[v % base as int],
            ));
            assert(prev.push(a[v % base as int]).reverse() =~= seq![a[v % base as int]]
                + prev.reverse());
            assert(encode_spec(v / base as int, a).push(a[v % base as int]) + prev.reverse()
                =~= encode_spec(v / base as int, a) + (seq![a[v % base as int]]
                + prev.reverse()));
        }
    }
    let mut r: Vec<u8> = Vec::new();
    let mut j: usize = 0;
    while j < out.len()
        invariant
            j <= out@.len(),
            r@ == out@.reverse().take(j as int),
        decreases out@.len() - j,
    {
        r.push(out[out.len() - 1 - j]);
        proof {
            assert(out@.reverse().take(j + 1) =~= out@.reverse().take(j as int).push(
                out@.reverse()[j as int],
            ));
        }
        j = j + 1;
    }
    proof {
        assert(out@.reverse().take(out@.len() as int) =~= out@.reverse());
    }
    r
}

} // verus!
