//! The shift cipher: each ASCII letter is rotated forward through its own
//! alphabet by a fixed amount, wrapping around; every other character
//! passes through unchanged.

use vstd::prelude::*;
use vstd::string::StrSliceExecFns;
use crate::push_char;

verus! {

/// A single character rotated forward by `shift` places: letters rotate
/// within their own case, modulo the 26-letter alphabet; anything else is
/// left alone. The code points 65 and 97 are `A` and `a`.
pub open spec fn caesar_char(c: char, shift: int) -> char {
    let n = c as u32;
    if 65 <= n && n <= 90 {
        ((65 + ((n - 65 + shift) % 26)) as u8) as char
    } else if 97 <= n && n <= 122 {
        ((97 + ((n - 97 + shift) % 26)) as u8) as char
    } else {
        c
    }
}

/// The rotation applied to every character of a sequence.
pub open spec fn caesar_spec(s: Seq<char>, shift: int) -> Seq<char> {
    Seq::new(s.len(), |i: int| caesar_char(s[i], shift))
}

/// Law: rotating forward by a shift and then by its complement modulo 26
/// returns every character to where it started — decryption undoes
/// encryption for any shift.
pub proof fn lemma_caesar_round_trip(s: Seq<char>, shift: u8)
    ensures
        caesar_spec(caesar_spec(s, shift as int), 26 - (shift as int % 26)) == s,
{
    let sh = shift as int;
    let back = 26 - (sh % 26);
    assert forall|i: int| 0 <= i < s.len() implies caesar_char(caesar_char(s[i], sh), back)
        == s[i] by {
        let c = s[i];
        let n = c as u32;
        if 65 <= n && n <= 90 {
            let x = n as int - 65;
            vstd::arithmetic::div_mod::lemma_mod_bound(x + sh, 26);
            let d = ((65 + ((n - 65 + sh) % 26)) as u8) as char;
            assert(caesar_char(c, sh) == d);
            assert(d as u32 == 65 + ((x + sh) % 26));
            lemma_caesar_shift_cancels(x, sh);
            assert(caesar_char(d, back) == ((n as u8) as char));
            vstd::utf8::char_u32_cast(((n as u8) as char), n);
            vstd::utf8::char_u32_cast(c, n);
        } else if 97 <= n && n <= 122 {
            let x = n as int - 97;
            vstd::arithmetic::div_mod::lemma_mod_bound(x + sh, 26);
            let d = ((97 + ((n - 97 + sh) % 26)) as u8) as char;
            assert(caesar_char(c, sh) == d);
            assert(d as u32 == 97 + ((x + sh) % 26));
            lemma_caesar_shift_cancels(x, sh);
            assert(caesar_char(d, back) == ((n as u8) as char));
            vstd::utf8::char_u32_cast(((n as u8) as char), n);
            vstd::utf8::char_u32_cast(c, n);
        }
    }
    assert(caesar_spec(caesar_spec(s, sh), back) =~= s);
}

/// A letter offset rotated forward by a shift and then by its complement
/// modulo the alphabet length lands back on itself.
proof fn lemma_caesar_shift_cancels(x: int, sh: int)
    requires
        0 <= x < 26,
        0 <= sh,
    ensures
        ((x + sh) % 26 + (26 - sh % 26)) % 26 == x,
{
    let t = sh % 26;
    assert((x + sh) % 26 == (x + t) % 26) by {
        vstd::arithmetic::div_mod::lemma_mod_mod(x + sh, 26, 1);
        vstd::arithmetic::div_mod::lemma_add_mod_noop(x, sh, 26);
        vstd::arithmetic::div_mod::lemma_add_mod_noop(x, t, 26);
        vstd::arithmetic::div_mod::lemma_mod_bound(sh, 26);
        vstd::arithmetic::div_mod::lemma_small_mod(x as nat, 26);
        vstd::arithmetic::div_mod::lemma_mod_twice(sh, 26);
    }
    vstd::arithmetic::div_mod::lemma_mod_bound(sh, 26);
    if x + t < 26 {
        vstd::arithmetic::div_mod::lemma_small_mod((x + t) as nat, 26);
        vstd::arithmetic::div_mod::lemma_mod_add_multiples_vanish(x, 26);
        vstd::arithmetic::div_mod::lemma_small_mod(x as nat, 26);
    } else {
        vstd::arithmetic::div_mod::lemma_mod_add_multiples_vanish(x + t - 26, 26);
        vstd::arithmetic::div_mod::lemma_small_mod((x + t - 26) as nat, 26);
        vstd::arithmetic::div_mod::lemma_mod_add_multiples_vanish(x, 26);
        vstd::arithmetic::div_mod::lemma_small_mod(x as nat, 26);
    }
}

/// Rotates every ASCII letter of `text` forward by `shift` places, wrapping
/// within its own case; other characters are unchanged. A shift of 0 or any
/// multiple of 26 returns the text as it was.
pub fn caesar_encrypt(text: &str, shift: u8) -> (r: String)
    ensures
        r@ == caesar_spec(text@, shift as int),
{
    let n = text.unicode_len();
    let mut out = String::new();
    let mut i: usize = 0;
    while i < n
        invariant
            n == text@.len(),
            i <= n,
            out@ == caesar_spec(text@, shift as int).take(i as int),
        decreases n - i,
    {
        let c = text.get_char(i);
        let code = c as u32;
        let d: char = if 65 <= code && code <= 90 {
            (((code - 65 + shift as u32) % 26 + 65) as u8) as char
        } else if 97 <= code && code <= 122 {
            (((code - 97 + shift as u32) % 26 + 97) as u8) as char
        } else {
            c
        };
        proof {
            assert(d == caesar_char(text@[i as int], shift as int));
            assert(caesar_spec(text@, shift as int).take(i + 1) =~= caesar_spec(
                text@,
                shift as int,
            ).take(i as int).push(caesar_char(text@[i as int], shift as int)));
        }
        push_char(&mut out, d);
        i = i + 1;
    }
    proof {
        assert(caesar_spec(text@, shift as int).take(n as int) =~= caesar_spec(
            text@,
            shift as int,
        ));
    }
    out
}

/// Undoes `caesar_encrypt` with the same shift: rotating forward by the
/// complement of the shift modulo 26 walks each letter back to where it
/// started.
pub fn caesar_decrypt(text: &str, shift: u8) -> (r: String)
    ensures
        r@ == caesar_spec(text@, 26 - (shift as int % 26)),
{
    caesar_encrypt(text, 26 - (shift % 26))
}

} // verus!
