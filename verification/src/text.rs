//! Text values: UTF-16 encoding and decoding, the construction limit, and
//! the encode/decode round-trip law.

use crate::value::{Body, BodyV, Cell, CellV, Ownership, Variant, VariantV, ERR_VALUE};
use vstd::prelude::*;
use vstd::utf8::{char_is_scalar, char_u32_cast, is_scalar};

verus! {

/// The UTF-16 encoding of one character: one code unit for a scalar below
/// `0x10000`, else a high/low surrogate pair.
pub open spec fn utf16_encode_char(c: char) -> Seq<u16> {
    let u = c as u32;
    if u < 0x10000 {
        seq![u as u16]
    } else {
        seq![
            (0xd800 + ((u - 0x10000) / 0x400)) as u16,
            (0xdc00 + ((u - 0x10000) % 0x400)) as u16,
        ]
    }
}

/// The UTF-16 encoding of a character sequence.
pub open spec fn utf16_encode(s: Seq<char>) -> Seq<u16>
    decreases s.len(),
{
    if s.len() == 0 {
        Seq::empty()
    } else {
        utf16_encode_char(s[0]) + utf16_encode(s.drop_first())
    }
}

/// A code unit in the range reserved for the first unit of a surrogate pair.
pub open spec fn is_high_surrogate(w: u16) -> bool {
    0xd800 <= w < 0xdc00
}

/// A code unit in the range reserved for the second unit of a surrogate pair.
pub open spec fn is_low_surrogate(w: u16) -> bool {
    0xdc00 <= w < 0xe000
}

/// The character a surrogate pair stands for.
pub open spec fn combine_surrogates(hi: u16, lo: u16) -> char {
    (((0x10000 + (hi - 0xd800) * 0x400 + (lo - 0xdc00)) as u32) as char)
}

/// Lossy UTF-16 decoding: a well-placed surrogate pair becomes one
/// character, any unpaired surrogate becomes U+FFFD, and every other code
/// unit stands for itself.
pub open spec fn utf16_decode_lossy(units: Seq<u16>) -> Seq<char>
    decreases units.len(),
{
    if units.len() == 0 {
        Seq::empty()
    } else {
        let w = units[0];
        if is_high_surrogate(w) {
            if units.len() >= 2 && is_low_surrogate(units[1]) {
                seq![combine_surrogates(w, units[1])] + utf16_decode_lossy(units.skip(2))
            } else {
                seq!['\u{fffd}'] + utf16_decode_lossy(units.skip(1))
            }
        } else if is_low_surrogate(w) {
            seq!['\u{fffd}'] + utf16_decode_lossy(units.skip(1))
        } else {
            seq![((w as u32) as char)] + utf16_decode_lossy(units.skip(1))
        }
    }
}

/// Law: decoding the encoding of any character sequence gives the sequence
/// back; UTF-16 encoding loses nothing.
pub proof fn lemma_utf16_encode_decode(s: Seq<char>)
    ensures
        utf16_decode_lossy(utf16_encode(s)) == s,
    decreases s.len(),
{
    if s.len() == 0 {
        assert(utf16_decode_lossy(utf16_encode(s)) =~= s);
    } else {
        let c = s[0];
        char_is_scalar(c);
        let u = c as u32;
        let rest = utf16_encode(s.drop_first());
        lemma_utf16_encode_decode(s.drop_first());
        if u < 0x10000 {
            let w = u as u16;
            assert(w as u32 == u);
            char_u32_cast(c, u);
            let units = utf16_encode(s);
            assert(units =~= seq![w] + rest);
            assert(units[0] == w);
            assert(!is_high_surrogate(w) && !is_low_surrogate(w));
            assert(units.skip(1) =~= rest);
            assert(utf16_decode_lossy(units) =~= s);
        } else {
            let v = u - 0x10000;
            let hi = (0xd800 + v / 0x400) as u16;
            let lo = (0xdc00 + v % 0x400) as u16;
            assert(v < 0x100000);
            assert(0 <= v % 0x400 < 0x400);
            assert(v / 0x400 < 0x400) by {
                assert(v == 0x400 * (v / 0x400) + v % 0x400);
            }
            assert(is_high_surrogate(hi));
            assert(is_low_surrogate(lo));
            let units = utf16_encode(s);
            assert(units =~= seq![hi, lo] + rest);
            assert(units[0] == hi && units[1] == lo);
            assert(0x10000 + (hi - 0xd800) * 0x400 + (lo - 0xdc00) == u) by {
                assert(v == 0x400 * (v / 0x400) + v % 0x400);
            }
            char_u32_cast(c, u);
            assert(combine_surrogates(hi, lo) == c);
            assert(units.skip(2) =~= rest);
            assert(utf16_decode_lossy(units) =~= s);
        }
    }
}

/// Relies on `str::encode_utf16`: it yields exactly the UTF-16 encoding of
/// the string's characters, surrogate pairs for scalars beyond `0xFFFF`.
#[verifier::external_body]
pub(crate) fn encode_utf16_units(s: &str) -> (r: Vec<u16>)
    ensures
        r@ == utf16_encode(s@),
{
    s.encode_utf16().collect()
}

/// Relies on `String::from_utf16_lossy`: it decodes UTF-16, turning each
/// unpaired surrogate into the U+FFFD replacement character.
#[verifier::external_body]
pub(crate) fn decode_utf16_string(units: &Vec<u16>) -> (r: String)
    ensures
        r@ == utf16_decode_lossy(units@),
{
    String::from_utf16_lossy(units)
}

/// The value `from_text` builds: the encoded text when it fits the limit,
/// else the `#VALUE` error.
pub open spec fn spec_from_text(s: Seq<char>) -> VariantV {
    if utf16_encode(s).len() > crate::TEXT_LIMIT {
        VariantV::of_cell(CellV::Error(ERR_VALUE))
    } else {
        VariantV::of_cell(CellV::Text(utf16_encode(s)))
    }
}

/// The character sequence a value's text decodes to, for text values only.
pub open spec fn spec_as_text(b: BodyV) -> Option<Seq<char>> {
    match b {
        BodyV::Cell(CellV::Text(units)) => Some(utf16_decode_lossy(units)),
        _ => None,
    }
}

impl Variant {
    /// A text value holding the UTF-16 encoding of the given string. An
    /// encoding longer than [`crate::TEXT_LIMIT`] code units is never
    /// stored; the `#VALUE` error is returned instead.
    pub fn from_text(s: &str) -> (r: Variant)
        ensures
            r@ == spec_from_text(s@),
            r@.wf(),
    {
        let units = encode_utf16_units(s);
        if units.len() > crate::TEXT_LIMIT {
            Self::from_err(ERR_VALUE)
        } else {
            Variant { body: Body::Cell(Cell::Text(units)), owner: Ownership::OwnedByExtension }
        }
    }
}

/// Law: a string whose encoding fits the limit is stored by `from_text` and
/// read back by `as_text` unchanged.
pub proof fn lemma_text_round_trip(s: Seq<char>)
    requires
        utf16_encode(s).len() <= crate::TEXT_LIMIT,
    ensures
        spec_as_text(spec_from_text(s).body) == Some(s),
{
    lemma_utf16_encode_decode(s);
}

} // verus!
