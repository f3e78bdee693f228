//! Ordered, duplicate-free symbol sets that serve as digit alphabets.
//!
//! An alphabet assigns to each of its symbols a digit value equal to the
//! symbol's position, and its length is the numeric base of the positional
//! codec built on it.

use vstd::prelude::*;
use crate::EncodingError;

verus! {

/// No symbol occurs twice.
pub open spec fn distinct_symbols(a: Seq<u8>) -> bool {
    forall|i: int, j: int| 0 <= i < j < a.len() ==> a[i] != a[j]
}

/// What alphabet construction demands: at least two distinct symbols.
pub open spec fn valid_alphabet(a: Seq<u8>) -> bool {
    a.len() >= 2 && distinct_symbols(a)
}

/// Every byte of `s` is a symbol of `a`.
pub open spec fn all_in_alphabet(s: Seq<u8>, a: Seq<u8>) -> bool {
    forall|i: int| 0 <= i < s.len() ==> a.contains(#[trigger] s[i])
}

/// The default symbol set: every printable ASCII byte except the space,
/// `0x21` (`!`) through `0x7E` (`~`), in ascending byte order. Its ordering is
/// a compatibility contract: digit values are positional, so any change would
/// change every encoded value. Its 94 symbols cover digits, upper- and
/// lower-case letters and the common punctuation, and in particular every
/// symbol the printable-radix bridge can emit, while its first symbol (`!`)
/// is one the bridge never produces.
pub open spec fn default_symbols() -> Seq<u8> {
    Seq::new(94, |i: int| (0x21 + i) as u8)
}

/// An ordered, duplicate-free set of symbols, with a constant-time lookup
/// table from a symbol to its digit value.
pub struct Alphabet {
    symbols: Vec<u8>,
    table: Vec<Option<usize>>,
}

impl View for Alphabet {
    type V = Seq<u8>;

    closed spec fn view(&self) -> Seq<u8> {
        self.symbols@
    }
}

impl Alphabet {
    /// The internal invariant: the symbols are a valid alphabet and the table
    /// maps each byte to its digit value, or to nothing when the byte is not
    /// a symbol.
    pub closed spec fn wf(&self) -> bool {
        &&& valid_alphabet(self.symbols@)
        &&& self.table@.len() == 256
        &&& forall|c: int| 0 <= c < 256 ==> match #[trigger] self.table@[c] {
                Some(i) => i < self.symbols@.len() && self.symbols@[i as int] == c as u8,
                None => !self.symbols@.contains(c as u8),
            }
    }

    /// Builds an alphabet from an ordered symbol sequence. Succeeds exactly
    /// when the sequence has at least two symbols and no duplicate; any other
    /// input is rejected with `InvalidAlphabet`.
    pub fn new(symbols: Vec<u8>) -> (r: Result<Alphabet, EncodingError>)
        ensures
            valid_alphabet(symbols@) ==> (r matches Ok(a) && a.wf() && a@ == symbols@),
            !valid_alphabet(symbols@) ==> (r matches Err(e) && e == EncodingError::InvalidAlphabet),
    {
        if symbols.len() < 2 {
            return Err(EncodingError::InvalidAlphabet);
        }
        let mut table: Vec<Option<usize>> = Vec::new();
        let mut c: usize = 0;
        while c < 256
            invariant
                table@.len() == c,
                c <= 256,
                forall|k: int| 0 <= k < c ==> table@[k] is None,
            decreases 256 - c,
        {
            table.push(None);
            c = c + 1;
        }
        let mut i: usize = 0;
        while i < symbols.len()
            invariant
                i <= symbols@.len(),
                2 <= symbols@.len(),
                table@.len() == 256,
                distinct_symbols(symbols@.take(i as int)),
                forall|k: int| 0 <= k < 256 ==> match #[trigger] table@[k] {
                    Some(j) => j < i && symbols@[j as int] == k as u8,
                    None => !symbols@.take(i as int).contains(k as u8),
                },
            decreases symbols@.len() - i,
        {
            let s = symbols[i];
            match table[s as usize] {
                Some(j) => {
                    proof {
                        let j = table@[s as int]->Some_0;
                        assert(symbols@.take(i as int)[j as int] == symbols@[i as int]);
                        assert(!distinct_symbols(symbols@));
                    }
                    return Err(EncodingError::InvalidAlphabet);
                },
                None => {
                    table[s as usize] = Some(i);
                    proof {
                        assert forall|k: int| 0 <= k < 256 implies match #[trigger] table@[k] {
                            Some(j) => j < i + 1 && symbols@[j as int] == k as u8,
                            None => !symbols@.take(i + 1).contains(k as u8),
                        } by {
                            if table@[k] is None {
                                assert forall|m: int| 0 <= m < i + 1 implies #[trigger] symbols@.take(i + 1)[m] != k as u8 by {
                                    if m < i {
                                        assert(!symbols@.take(i as int).contains(k as u8));
                                        assert(symbols@.take(i as int)[m] == symbols@.take(i + 1)[m]);
                                    }
                                }
                            }
                        }
                        assert forall|a: int, b: int| 0 <= a < b < i + 1 implies
                            #[trigger] symbols@.take(i + 1)[a] != #[trigger] symbols@.take(i + 1)[b] by {
                            if b < i {
                                assert(symbols@.take(i as int)[a] != symbols@.take(i as int)[b]);
                            } else {
                                assert(b == i);
                                assert(!symbols@.take(i as int).contains(symbols@[i as int]));
                                assert(symbols@.take(i as int)[a] == symbols@.take(i + 1)[a]);
                            }
                        }
                    }
                },
            }
            i = i + 1;
        }
        proof {
            assert(symbols@.take(symbols@.len() as int) =~= symbols@);
        }
        Ok(Alphabet { symbols, table })
    }

    /// The numeric base: the number of symbols.
    pub fn base(&self) -> (r: usize)
        ensures
            r == self@.len(),
    {
        self.symbols.len()
    }

    /// The symbol whose digit value is `i`.
    pub fn symbol_at(&self, i: usize) -> (r: u8)
        requires
            self.wf(),
            i < self@.len(),
        ensures
            r == self@[i as int],
    {
        self.symbols[i]
    }

    /// The digit value of symbol `c`, or `None` when `c` is not a symbol of
    /// this alphabet.
    pub fn lookup(&self, c: u8) -> (r: Option<usize>)
        requires
            self.wf(),
        ensures
            match r {
                Some(i) => i < self@.len() && self@[i as int] == c,
                None => !self@.contains(c),
            },
    {
        self.table[c as usize]
    }

    /// A well-formed alphabet is valid; public counterpart of the invariant
    /// for callers that only hold the view.
    pub proof fn lemma_wf_valid(&self)
        requires
            self.wf(),
        ensures
            valid_alphabet(self@),
    {
    }
}

/// The default symbol set is a valid alphabet.
pub proof fn lemma_default_symbols_valid()
    ensures
        valid_alphabet(default_symbols()),
{
}

/// The default alphabet as a runtime value, with base 94.
pub fn default_alphabet() -> (r: Alphabet)
    ensures
        r.wf(),
        r@ == default_symbols(),
{
    let mut v: Vec<u8> = Vec::new();
    let mut i: usize = 0;
    while i < 94
        invariant
            i <= 94,
            v@.len() == i,
            forall|k: int| 0 <= k < i ==> v@[k] == (0x21 + k) as u8,
        decreases 94 - i,
    {
        v.push(0x21 + i as u8);
        i = i + 1;
    }
    proof {
        assert(v@ =~= default_symbols());
        assert(valid_alphabet(default_symbols()));
    }
    match Alphabet::new(v) {
        Ok(a) => a,
        Err(_) => vstd::pervasive::unreached(),
    }
}

} // verus!
