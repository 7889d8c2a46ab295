use vstd::prelude::*;

use encoding::all::ISO_8859_1;
use encoding::{DecoderTrap, Encoding};

verus! {

/// The character that the Latin-1 byte `b` stands for: the code point of the
/// same value.
pub open spec fn latin1_char(b: u8) -> char {
    (b as u32) as char
}

/// The text that the Latin-1 bytes `s` stand for.
pub open spec fn latin1_text(s: Seq<u8>) -> Seq<char> {
    s.map_values(|b: u8| latin1_char(b))
}

/// Relies on `encoding::all::ISO_8859_1.decode` with `DecoderTrap::Strict`:
/// its single-byte table maps every byte to the code point of the same value,
/// so the decoding always succeeds and has one character per byte.
#[verifier::external_body]
pub(crate) fn decode_iso_8859_1(bytes: &[u8]) -> (r: Option<String>)
    ensures
        r is Some,
        r matches Some(s) ==> s@ == latin1_text(bytes@),
{
    ISO_8859_1.decode(bytes, DecoderTrap::Strict).ok()
}

} // verus!
