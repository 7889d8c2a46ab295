use vstd::prelude::*;

use crate::header::{header_of, parse_and_split, CreationDate, Header, HEADER_LENGTH};
use crate::latin1::{decode_iso_8859_1, latin1_text};
use crate::wthor::{Error, WthorFile};

verus! {

/// Width of one record of a player file.
pub const PLAYER_RECORD_SIZE: usize = 20;

/// Width of one record of a tournament file.
pub const TOURNAMENT_RECORD_SIZE: usize = 26;

/// The header fields that describe a name file.
#[derive(Clone, Copy, Debug, PartialEq, Eq, Structural)]
pub struct Metadata {
    pub file_creation_date: CreationDate,
}

impl Metadata {
    /// Keeps the creation date of `header`.
    pub fn from(header: &Header) -> (r: Metadata)
        ensures
            r.file_creation_date == header.file_creation_date,
    {
        Metadata { file_creation_date: header.file_creation_date }
    }
}

/// What the names of a name file stand for.
#[derive(Clone, Copy, Debug, PartialEq, Eq, Structural)]
pub enum RecordType {
    Players,
    Tournaments,
}

impl RecordType {
    /// Width in bytes of one record of this type.
    pub open spec fn width(self) -> int {
        match self {
            RecordType::Players => PLAYER_RECORD_SIZE as int,
            RecordType::Tournaments => TOURNAMENT_RECORD_SIZE as int,
        }
    }

    /// The record type whose width times `n2` is `len`, players first.
    pub open spec fn guessed(n2: u16, len: int) -> Option<RecordType> {
        if n2 * PLAYER_RECORD_SIZE == len {
            Some(RecordType::Players)
        } else if n2 * TOURNAMENT_RECORD_SIZE == len {
            Some(RecordType::Tournaments)
        } else {
            None
        }
    }

    fn guess_type(n2: u16, bytes_len: usize) -> (r: Option<RecordType>)
        ensures
            r == RecordType::guessed(n2, bytes_len as int),
    {
        let n2 = n2 as u64;
        assert(n2 * PLAYER_RECORD_SIZE <= 65535 * 20 && n2 * TOURNAMENT_RECORD_SIZE <= 65535 * 26)
            by (nonlinear_arith)
            requires
                n2 <= 65535,
        ;
        if n2 * (PLAYER_RECORD_SIZE as u64) == bytes_len as u64 {
            Some(RecordType::Players)
        } else if n2 * (TOURNAMENT_RECORD_SIZE as u64) == bytes_len as u64 {
            Some(RecordType::Tournaments)
        } else {
            None
        }
    }

    /// Width in bytes of one record of this type.
    pub fn record_size(&self) -> (r: usize)
        ensures
            r == self.width(),
    {
        match self {
            RecordType::Players => PLAYER_RECORD_SIZE,
            RecordType::Tournaments => TOURNAMENT_RECORD_SIZE,
        }
    }
}

/// `s` with every zero byte left out.
pub open spec fn strip_nul(s: Seq<u8>) -> Seq<u8>
    decreases s.len(),
{
    if s.len() == 0 {
        s
    } else if s.last() == 0 {
        strip_nul(s.drop_last())
    } else {
        strip_nul(s.drop_last()).push(s.last())
    }
}

/// The name that the record `rec` holds: its Latin-1 text without null
/// characters.
pub open spec fn name_of(rec: Seq<u8>) -> Seq<char> {
    latin1_text(strip_nul(rec))
}

/// The last byte of `rec` is zero.
pub open spec fn is_null_terminated(rec: Seq<u8>) -> bool {
    rec.len() > 0 && rec.last() == 0
}

/// The `i`-th record of width `width` of a name file body.
pub open spec fn name_record_at(body: Seq<u8>, width: int, i: int) -> Seq<u8> {
    body.subrange(i * width, (i + 1) * width)
}

/// `names` are the names that the first `names.len()` records of `body`
/// hold.
pub open spec fn names_decode(names: Seq<String>, body: Seq<u8>, width: int) -> bool {
    forall|i: int|
        0 <= i < names.len() ==> (#[trigger] names[i])@ == name_of(
            name_record_at(body, width, i),
        )
}

/// Some of the first `count` records of `body` is not null-terminated.
pub open spec fn some_record_unterminated(body: Seq<u8>, width: int, count: int) -> bool {
    exists|i: int|
        0 <= i < count && !is_null_terminated(#[trigger] name_record_at(body, width, i))
}

fn validate_null_termination(record: &[u8]) -> (r: Result<&[u8], Error>)
    ensures
        r matches Ok(rec) ==> is_null_terminated(record@) && rec@ == record@,
        r matches Err(e) ==> !is_null_terminated(record@) && e == Error::RecordNotNullTerminated,
{
    if record.len() > 0 && record[record.len() - 1] == 0 {
        Ok(record)
    } else {
        Err(Error::RecordNotNullTerminated)
    }
}

/// Decodes one name record: Latin-1 text with its null characters removed.
pub fn decode_record(record: &[u8]) -> (r: Result<String, Error>)
    ensures
        r matches Ok(s) && s@ == name_of(record@),
{
    let mut kept: Vec<u8> = Vec::new();
    let mut i: usize = 0;
    while i < record.len()
        invariant
            i <= record@.len(),
            kept@ == strip_nul(record@.subrange(0, i as int)),
        decreases record@.len() - i,
    {
        assert(record@.subrange(0, i + 1).drop_last() == record@.subrange(0, i as int));
        if record[i] != 0 {
            kept.push(record[i]);
        }
        i = i + 1;
    }
    assert(record@.subrange(0, record@.len() as int) == record@);
    match decode_iso_8859_1(kept.as_slice()) {
        Some(s) => Ok(s),
        None => Err(Error::EncodingNotIso8859_1),
    }
}

/// Decodes the `count` records of width `width` that fill `body`; the first
/// record that is not null-terminated ends decoding.
pub(crate) fn decode_names(body: &[u8], count: u16, width: usize) -> (r: Result<
    Vec<String>,
    Error,
>)
    requires
        count * width == body@.len(),
    ensures
        r matches Ok(names) ==> names@.len() == count && names_decode(names@, body@, width as int)
            && !some_record_unterminated(body@, width as int, count as int),
        r matches Err(e) ==> e == Error::RecordNotNullTerminated && some_record_unterminated(
            body@,
            width as int,
            count as int,
        ),
{
    let body_len = body.len();
    let mut names: Vec<String> = Vec::new();
    let mut i: u16 = 0;
    while i < count
        invariant
            i <= count,
            count * width == body@.len(),
            body@.len() == body_len,
            names@.len() == i,
            names_decode(names@, body@, width as int),
            forall|j: int|
                0 <= j < i ==> is_null_terminated(#[trigger] name_record_at(body@, width as int, j)),
        decreases count - i,
    {
        proof {
            vstd::arithmetic::mul::lemma_mul_inequality(i + 1, count as int, width as int);
            vstd::arithmetic::mul::lemma_mul_is_distributive_add_other_way(width as int, i as int, 1);
        }
        assert(i * width + width <= body@.len());
        let start = i as usize * width;
        let record = vstd::slice::slice_subrange(body, start, start + width);
        assert(record@ == name_record_at(body@, width as int, i as int));
        let record = match validate_null_termination(record) {
            Ok(rec) => rec,
            Err(e) => return Err(e),
        };
        match decode_record(record) {
            Ok(name) => names.push(name),
            Err(e) => return Err(e),
        }
        i = i + 1;
    }
    Ok(names)
}

/// A decoded name file.
#[derive(Clone, Debug)]
pub struct Records {
    pub metadata: Metadata,
    pub names: Vec<String>,
    pub record_type: RecordType,
}

/// The first header check of a name file that `h` fails, given that
/// `body_len` bytes follow the header.
pub open spec fn records_header_error(h: Header, body_len: int) -> Option<Error> {
    if h.n1 != 0 {
        Some(Error::InvalidN1Value)
    } else if h.n2 == 0 {
        Some(Error::InvalidN2Value)
    } else if h.p1 != 0 {
        Some(Error::InvalidP1Value)
    } else if h.p2 != 0 {
        Some(Error::InvalidP2Value)
    } else if RecordType::guessed(h.n2, body_len) is None {
        Some(Error::SizeMismatch)
    } else {
        None
    }
}

fn validate_header(header: &Header, bytes: &[u8]) -> (r: Result<RecordType, Error>)
    ensures
        r matches Ok(t) ==> records_header_error(*header, bytes@.len() as int) is None
            && RecordType::guessed(header.n2, bytes@.len() as int) == Some(t),
        r matches Err(e) ==> records_header_error(*header, bytes@.len() as int) == Some(e),
{
    if header.n1 != 0 {
        Err(Error::InvalidN1Value)
    } else if header.n2 == 0 {
        Err(Error::InvalidN2Value)
    } else if header.p1 != 0 {
        Err(Error::InvalidP1Value)
    } else if header.p2 != 0 {
        Err(Error::InvalidP2Value)
    } else {
        match RecordType::guess_type(header.n2, bytes.len()) {
            Some(t) => Ok(t),
            None => Err(Error::SizeMismatch),
        }
    }
}

/// The error that decoding `b` as a name file ends with, or `None` when it
/// succeeds.
pub open spec fn records_error(b: Seq<u8>) -> Option<Error> {
    if b.len() < HEADER_LENGTH {
        Some(Error::InvalidHeader)
    } else {
        let h = header_of(b);
        let body = b.subrange(HEADER_LENGTH as int, b.len() as int);
        match records_header_error(h, body.len() as int) {
            Some(e) => Some(e),
            None => match RecordType::guessed(h.n2, body.len() as int) {
                Some(t) => if some_record_unterminated(body, t.width(), h.n2 as int) {
                    Some(Error::RecordNotNullTerminated)
                } else {
                    None
                },
                None => Some(Error::SizeMismatch),
            },
        }
    }
}

/// `r` is the name file that `b` encodes.
pub open spec fn records_decode(r: Records, b: Seq<u8>) -> bool {
    let h = header_of(b);
    let body = b.subrange(HEADER_LENGTH as int, b.len() as int);
    &&& r.metadata.file_creation_date == h.file_creation_date
    &&& RecordType::guessed(h.n2, body.len() as int) == Some(r.record_type)
    &&& r.names@.len() == h.n2
    &&& names_decode(r.names@, body, r.record_type.width())
}

impl WthorFile for Records {
    type Output = Records;

    /// Success exactly when no check fails; the first failing check names the
    /// error.
    open spec fn decodes_to(bytes: Seq<u8>, r: Result<Records, Error>) -> bool {
        match r {
            Ok(recs) => records_error(bytes) is None && records_decode(recs, bytes),
            Err(e) => records_error(bytes) == Some(e),
        }
    }

    /// Decodes a player or tournament file; the record width is the one that
    /// `n2` records fill the body with exactly.
    fn parse(bytes: &[u8]) -> (r: Result<Records, Error>) {
        let (header, body) = match parse_and_split(bytes) {
            Some(split) => split,
            None => return Err(Error::InvalidHeader),
        };
        let record_type = match validate_header(&header, body) {
            Ok(t) => t,
            Err(e) => return Err(e),
        };
        let names = match decode_names(body, header.n2, record_type.record_size()) {
            Ok(names) => names,
            Err(e) => return Err(e),
        };
        Ok(Records { metadata: Metadata::from(&header), names, record_type })
    }
}

/// The Latin-1 bytes of `t`, one per character.
pub open spec fn latin1_bytes(t: Seq<char>) -> Seq<u8> {
    t.map_values(|c: char| (c as u32) as u8)
}

/// `s` followed by zero bytes up to `width` bytes in all.
pub open spec fn padded(s: Seq<u8>, width: int) -> Seq<u8> {
    s + Seq::new((width - s.len()) as nat, |i: int| 0u8)
}

proof fn lemma_strip_nul_shape(s: Seq<u8>)
    ensures
        strip_nul(s).len() <= s.len(),
        forall|i: int| 0 <= i < strip_nul(s).len() ==> #[trigger] strip_nul(s)[i] != 0,
        s.len() > 0 && s.last() == 0 ==> strip_nul(s).len() < s.len(),
    decreases s.len(),
{
    if s.len() > 0 {
        lemma_strip_nul_shape(s.drop_last());
    }
}

proof fn lemma_strip_nul_keeps_nonzero(s: Seq<u8>)
    requires
        forall|i: int| 0 <= i < s.len() ==> #[trigger] s[i] != 0,
    ensures
        strip_nul(s) == s,
    decreases s.len(),
{
    if s.len() > 0 {
        let before = s.drop_last();
        assert forall|i: int| 0 <= i < before.len() implies #[trigger] before[i] != 0 by {
            assert(before[i] == s[i]);
        }
        lemma_strip_nul_keeps_nonzero(before);
        assert(before.push(s.last()) == s);
    }
}

proof fn lemma_strip_nul_drops_padding(s: Seq<u8>, n: nat)
    ensures
        strip_nul(s + Seq::new(n, |i: int| 0u8)) == strip_nul(s),
    decreases n,
{
    let zeros = Seq::new(n, |i: int| 0u8);
    if n > 0 {
        let shorter = Seq::new((n - 1) as nat, |i: int| 0u8);
        assert((s + zeros).drop_last() == s + shorter);
        lemma_strip_nul_drops_padding(s, (n - 1) as nat);
    } else {
        assert(s + zeros == s);
    }
}

/// Decoding a name record yields one name, and writing that name back in
/// Latin-1, padded with zero bytes to the record width, gives a
/// null-terminated record of the same width that decodes to the same name.
pub proof fn lemma_name_round_trip(rec: Seq<u8>)
    requires
        is_null_terminated(rec),
    ensures
        latin1_bytes(name_of(rec)).len() < rec.len(),
        padded(latin1_bytes(name_of(rec)), rec.len() as int).len() == rec.len(),
        is_null_terminated(padded(latin1_bytes(name_of(rec)), rec.len() as int)),
        name_of(padded(latin1_bytes(name_of(rec)), rec.len() as int)) == name_of(rec),
{
    let kept = strip_nul(rec);
    lemma_strip_nul_shape(rec);
    let bytes = latin1_bytes(name_of(rec));
    assert(bytes == kept) by {
        assert forall|i: int| 0 <= i < kept.len() implies bytes[i] == kept[i] by {
            assert((((kept[i] as u32) as char) as u32) == kept[i] as u32);
        }
    }
    let n = (rec.len() - kept.len()) as nat;
    let out = padded(bytes, rec.len() as int);
    assert(out.last() == 0);
    lemma_strip_nul_drops_padding(kept, n);
    lemma_strip_nul_keeps_nonzero(kept);
}

} // verus!
