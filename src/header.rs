use vstd::prelude::*;

verus! {

/// Number of bytes in the fixed header that starts every file.
pub const HEADER_LENGTH: usize = 16;

/// Little-endian value of the two bytes of `b` at `at` and `at + 1`.
pub open spec fn le_u16(b: Seq<u8>, at: int) -> int {
    b[at] + 256 * b[at + 1]
}

/// Little-endian value of the four bytes of `b` from `at` on.
pub open spec fn le_u32(b: Seq<u8>, at: int) -> int {
    b[at] + 256 * b[at + 1] + 65536 * b[at + 2] + 16777216 * b[at + 3]
}

/// The date stored in the first four header bytes, kept as raw bytes.
#[derive(Clone, Copy, Debug, PartialEq, Eq, Structural)]
pub struct CreationDate {
    pub century: u8,
    pub year: u8,
    pub month: u8,
    pub day: u8,
}

/// The sixteen header bytes, decoded field by field and not yet validated.
#[derive(Clone, Copy, Debug, PartialEq, Eq, Structural)]
pub struct Header {
    pub file_creation_date: CreationDate,
    pub n1: u32,
    pub n2: u16,
    pub year_of_games: u16,
    pub p1: u8,
    pub p2: u8,
    pub p3: u8,
    pub reserved: u8,
}

/// The header that the first sixteen bytes of `b` encode.
pub open spec fn header_of(b: Seq<u8>) -> Header
    recommends
        b.len() >= HEADER_LENGTH,
{
    Header {
        file_creation_date: CreationDate { century: b[0], year: b[1], month: b[2], day: b[3] },
        n1: le_u32(b, 4) as u32,
        n2: le_u16(b, 8) as u16,
        year_of_games: le_u16(b, 10) as u16,
        p1: b[12],
        p2: b[13],
        p3: b[14],
        reserved: b[15],
    }
}

fn read_u16_le(b: &[u8], at: usize) -> (r: u16)
    requires
        at + 2 <= b@.len(),
    ensures
        r == le_u16(b@, at as int),
{
    b[at] as u16 + 256 * (b[at + 1] as u16)
}

fn read_u32_le(b: &[u8], at: usize) -> (r: u32)
    requires
        at + 4 <= b@.len(),
    ensures
        r == le_u32(b@, at as int),
{
    b[at] as u32 + 256 * (b[at + 1] as u32) + 65536 * (b[at + 2] as u32) + 16777216 * (
    b[at + 3] as u32)
}

/// Splits `bytes` into its decoded header and the bytes that follow it.
/// Fails exactly when fewer than sixteen bytes are given.
pub fn parse_and_split(bytes: &[u8]) -> (r: Option<(Header, &[u8])>)
    ensures
        r is None <==> bytes@.len() < HEADER_LENGTH,
        r matches Some((h, rest)) ==> h == header_of(bytes@) && rest@ == bytes@.subrange(
            HEADER_LENGTH as int,
            bytes@.len() as int,
        ),
{
    if bytes.len() < HEADER_LENGTH {
        return None;
    }
    let header = Header {
        file_creation_date: CreationDate {
            century: bytes[0],
            year: bytes[1],
            month: bytes[2],
            day: bytes[3],
        },
        n1: read_u32_le(bytes, 4),
        n2: read_u16_le(bytes, 8),
        year_of_games: read_u16_le(bytes, 10),
        p1: bytes[12],
        p2: bytes[13],
        p3: bytes[14],
        reserved: bytes[15],
    };
    let rest = vstd::slice::slice_subrange(bytes, HEADER_LENGTH, bytes.len());
    Some((header, rest))
}

impl Header {
    /// A game archive declares no secondary records.
    pub fn most_likely_game(&self) -> (r: bool)
        ensures
            r == (self.n2 == 0),
    {
        self.n2 == 0
    }

    /// Neither a game archive nor a solitaire file: a name file.
    pub fn most_likely_records(&self) -> (r: bool)
        ensures
            r == !(self.n2 == 0 || self.p2 == 1),
    {
        !(self.most_likely_game() || self.is_solitaire())
    }

    /// The solitaire flag is the value 1 in `p2`.
    pub fn is_solitaire(&self) -> (r: bool)
        ensures
            r == (self.p2 == 1),
    {
        self.p2 == 1
    }
}

} // verus!
