//! The mirror substitution cipher: each ASCII letter is replaced by the
//! letter at the mirrored position of its alphabet, and every other
//! character passes through unchanged.

use vstd::prelude::*;
use vstd::string::StrSliceExecFns;
use crate::push_char;

verus! {

/// The mirror image of a single character: `A` and `Z` trade places, as do
/// `a` and `z`, and so on through both alphabets; anything else is left
/// alone. The sums 155 and 219 are the code points of `A + Z` and `a + z`.
pub open spec fn atbash_char(c: char) -> char {
    let n = c as u32;
    if 65 <= n && n <= 90 {
        ((155 - n) as u8) as char
    } else if 97 <= n && n <= 122 {
        ((219 - n) as u8) as char
    } else {
        c
    }
}

/// The mirror substitution applied to every character of a sequence.
pub open spec fn atbash_spec(s: Seq<char>) -> Seq<char> {
    Seq::new(s.len(), |i: int| atbash_char(s[i]))
}

/// Law: the mirror substitution is an involution — applying it twice gives
/// back the original text, so the cipher is its own inverse.
pub proof fn lemma_atbash_involution(s: Seq<char>)
    ensures
        atbash_spec(atbash_spec(s)) == s,
{
    assert forall|i: int| 0 <= i < s.len() implies atbash_char(atbash_char(s[i])) == s[i] by {
        let c = s[i];
        let n = c as u32;
        if 65 <= n && n <= 90 {
            let d = ((155 - n) as u8) as char;
            assert(d as u32 == 155 - n);
            assert(atbash_char(d) == ((n as u8) as char));
            vstd::utf8::char_u32_cast(((n as u8) as char), n);
            vstd::utf8::char_u32_cast(c, n);
        } else if 97 <= n && n <= 122 {
            let d = ((219 - n) as u8) as char;
            assert(d as u32 == 219 - n);
            assert(atbash_char(d) == ((n as u8) as char));
            vstd::utf8::char_u32_cast(((n as u8) as char), n);
            vstd::utf8::char_u32_cast(c, n);
        }
    }
    assert(atbash_spec(atbash_spec(s)) =~= s);
}

/// Applies the mirror substitution to each character of `text`. The result
/// has the same length, every ASCII letter mirrored within its own case and
/// every other character unchanged.
pub fn atbash_cipher(text: &str) -> (r: String)
    ensures
        r@ == atbash_spec(text@),
{
    let n = text.unicode_len();
    let mut out = String::new();
    let mut i: usize = 0;
    while i < n
        invariant
            n == text@.len(),
            i <= n,
            out@ == atbash_spec(text@).take(i as int),
        decreases n - i,
    {
        let c = text.get_char(i);
        let code = c as u32;
        let d: char = if 65 <= code && code <= 90 {
            ((155 - code) as u8) as char
        } else if 97 <= code && code <= 122 {
            ((219 - code) as u8) as char
        } else {
            c
        };
        proof {
            assert(d == atbash_char(text@[i as int]));
            assert(atbash_spec(text@).take(i + 1) =~= atbash_spec(text@).take(i as int).push(
                atbash_char(text@[i as int]),
            ));
        }
        push_char(&mut out, d);
        i = i + 1;
    }
    proof {
        assert(atbash_spec(text@).take(n as int) =~= atbash_spec(text@));
    }
    out
}

} // verus!
