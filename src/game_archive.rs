use vstd::prelude::*;

use crate::header::{header_of, le_u16, parse_and_split, CreationDate, Header, HEADER_LENGTH};
use crate::wthor::{Error, WthorFile};

verus! {

/// The two board geometries that a game archive can record.
#[derive(Clone, Copy, Debug, PartialEq, Eq, Structural)]
pub enum BoardSize {
    EightSquared,
    TenSquared,
}

impl BoardSize {
    /// Number of ranks (and of files) of the board.
    pub open spec fn dimension(self) -> int {
        match self {
            BoardSize::EightSquared => 8,
            BoardSize::TenSquared => 10,
        }
    }

    /// A move byte is `(rank + 1) * code_base + (file + 1)`.
    pub open spec fn code_base(self) -> int {
        match self {
            BoardSize::EightSquared => 10,
            BoardSize::TenSquared => 12,
        }
    }

    /// Width of one game record: eight bytes of metadata, then one byte per
    /// square that can be played (all but the four of the opening position).
    pub open spec fn record_len(self) -> int {
        match self {
            BoardSize::EightSquared => 68,
            BoardSize::TenSquared => 104,
        }
    }

    /// Width in bytes of one game record.
    pub fn record_size_in_bytes(self) -> (r: usize)
        ensures
            r == self.record_len(),
    {
        match self {
            BoardSize::EightSquared => 68,
            BoardSize::TenSquared => 104,
        }
    }
}

/// The board size that the header flag `p1` selects, if any.
pub open spec fn board_size_of(p1: u8) -> Option<BoardSize> {
    if p1 == 0 || p1 == 8 {
        Some(BoardSize::EightSquared)
    } else if p1 == 10 {
        Some(BoardSize::TenSquared)
    } else {
        None
    }
}

/// A square of the board, counted from zero.
#[derive(Clone, Copy, Debug, PartialEq, Eq, Structural)]
pub struct Position {
    pub rank: u8,
    pub file: u8,
}

/// `p` lies on a board of size `bs`.
pub open spec fn is_on_board(bs: BoardSize, p: Position) -> bool {
    p.rank < bs.dimension() && p.file < bs.dimension()
}

/// The byte that records a move to `p`.
pub open spec fn move_code(bs: BoardSize, p: Position) -> int {
    (p.rank + 1) * bs.code_base() + (p.file + 1)
}

/// `b` records a move on a board of size `bs`: both of its digits in base
/// `code_base` name a rank and a file of the board.
pub open spec fn is_move_byte(bs: BoardSize, b: u8) -> bool {
    1 <= (b as int) / bs.code_base() <= bs.dimension() && 1 <= (b as int) % bs.code_base()
        <= bs.dimension()
}

/// The square that the move byte `b` names.
pub open spec fn position_of(bs: BoardSize, b: u8) -> Position {
    Position {
        rank: ((b as int) / bs.code_base() - 1) as u8,
        file: ((b as int) % bs.code_base() - 1) as u8,
    }
}

/// Decodes one move byte. Exactly the bytes `(rank + 1) * base + (file + 1)`,
/// with rank and file on the board, are accepted.
pub fn decode_move(board_size: BoardSize, byte: u8) -> (r: Result<Position, Error>)
    ensures
        r is Ok <==> is_move_byte(board_size, byte),
        r matches Ok(p) ==> p == position_of(board_size, byte),
        r matches Err(e) ==> e == Error::InvalidMove,
{
    let (base, dim): (u8, u8) = match board_size {
        BoardSize::EightSquared => (10, 8),
        BoardSize::TenSquared => (12, 10),
    };
    let rank_digit = byte / base;
    let file_digit = byte % base;
    if 1 <= rank_digit && rank_digit <= dim && 1 <= file_digit && file_digit <= dim {
        Ok(Position { rank: rank_digit - 1, file: file_digit - 1 })
    } else {
        Err(Error::InvalidMove)
    }
}

/// How many of the bytes below `n` are move bytes for `bs`.
pub open spec fn move_byte_count(bs: BoardSize, n: nat) -> nat
    decreases n,
{
    if n == 0 {
        0
    } else {
        move_byte_count(bs, (n - 1) as nat) + if is_move_byte(bs, (n - 1) as u8) {
            1nat
        } else {
            0nat
        }
    }
}

/// Of the 256 byte values, 64 are move bytes on the eight-squared board and
/// 100 on the ten-squared board: one per square.
pub proof fn lemma_move_byte_counts()
    ensures
        move_byte_count(BoardSize::EightSquared, 256) == 64,
        move_byte_count(BoardSize::TenSquared, 256) == 100,
{
    assert(move_byte_count(BoardSize::EightSquared, 10) == 0) by {
        reveal_with_fuel(move_byte_count, 11);
    }
    assert(move_byte_count(BoardSize::EightSquared, 20) == 8) by {
        reveal_with_fuel(move_byte_count, 11);
    }
    assert(move_byte_count(BoardSize::EightSquared, 30) == 16) by {
        reveal_with_fuel(move_byte_count, 11);
    }
    assert(move_byte_count(BoardSize::EightSquared, 40) == 24) by {
        reveal_with_fuel(move_byte_count, 11);
    }
    assert(move_byte_count(BoardSize::EightSquared, 50) == 32) by {
        reveal_with_fuel(move_byte_count, 11);
    }
    assert(move_byte_count(BoardSize::EightSquared, 60) == 40) by {
        reveal_with_fuel(move_byte_count, 11);
    }
    assert(move_byte_count(BoardSize::EightSquared, 70) == 48) by {
        reveal_with_fuel(move_byte_count, 11);
    }
    assert(move_byte_count(BoardSize::EightSquared, 80) == 56) by {
        reveal_with_fuel(move_byte_count, 11);
    }
    assert(move_byte_count(BoardSize::EightSquared, 90) == 64) by {
        reveal_with_fuel(move_byte_count, 11);
    }
    assert(move_byte_count(BoardSize::EightSquared, 100) == 64) by {
        reveal_with_fuel(move_byte_count, 11);
    }
    assert(move_byte_count(BoardSize::EightSquared, 110) == 64) by {
        reveal_with_fuel(move_byte_count, 11);
    }
    assert(move_byte_count(BoardSize::EightSquared, 120) == 64) by {
        reveal_with_fuel(move_byte_count, 11);
    }
    assert(move_byte_count(BoardSize::EightSquared, 130) == 64) by {
        reveal_with_fuel(move_byte_count, 11);
    }
    assert(move_byte_count(BoardSize::EightSquared, 140) == 64) by {
        reveal_with_fuel(move_byte_count, 11);
    }
    assert(move_byte_count(BoardSize::EightSquared, 150) == 64) by {
        reveal_with_fuel(move_byte_count, 11);
    }
    assert(move_byte_count(BoardSize::EightSquared, 160) == 64) by {
        reveal_with_fuel(move_byte_count, 11);
    }
    assert(move_byte_count(BoardSize::EightSquared, 170) == 64) by {
        reveal_with_fuel(move_byte_count, 11);
    }
    assert(move_byte_count(BoardSize::EightSquared, 180) == 64) by {
        reveal_with_fuel(move_byte_count, 11);
    }
    assert(move_byte_count(BoardSize::EightSquared, 190) == 64) by {
        reveal_with_fuel(move_byte_count, 11);
    }
    assert(move_byte_count(BoardSize::EightSquared, 200) == 64) by {
        reveal_with_fuel(move_byte_count, 11);
    }
    assert(move_byte_count(BoardSize::EightSquared, 210) == 64) by {
        reveal_with_fuel(move_byte_count, 11);
    }
    assert(move_byte_count(BoardSize::EightSquared, 220) == 64) by {
        reveal_with_fuel(move_byte_count, 11);
    }
    assert(move_byte_count(BoardSize::EightSquared, 230) == 64) by {
        reveal_with_fuel(move_byte_count, 11);
    }
    assert(move_byte_count(BoardSize::EightSquared, 240) == 64) by {
        reveal_with_fuel(move_byte_count, 11);
    }
    assert(move_byte_count(BoardSize::EightSquared, 250) == 64) by {
        reveal_with_fuel(move_byte_count, 11);
    }
    assert(move_byte_count(BoardSize::EightSquared, 256) == 64) by {
        reveal_with_fuel(move_byte_count, 7);
    }
    assert(move_byte_count(BoardSize::TenSquared, 12) == 0) by {
        reveal_with_fuel(move_byte_count, 13);
    }
    assert(move_byte_count(BoardSize::TenSquared, 24) == 10) by {
        reveal_with_fuel(move_byte_count, 13);
    }
    assert(move_byte_count(BoardSize::TenSquared, 36) == 20) by {
        reveal_with_fuel(move_byte_count, 13);
    }
    assert(move_byte_count(BoardSize::TenSquared, 48) == 30) by {
        reveal_with_fuel(move_byte_count, 13);
    }
    assert(move_byte_count(BoardSize::TenSquared, 60) == 40) by {
        reveal_with_fuel(move_byte_count, 13);
    }
    assert(move_byte_count(BoardSize::TenSquared, 72) == 50) by {
        reveal_with_fuel(move_byte_count, 13);
    }
    assert(move_byte_count(BoardSize::TenSquared, 84) == 60) by {
        reveal_with_fuel(move_byte_count, 13);
    }
    assert(move_byte_count(BoardSize::TenSquared, 96) == 70) by {
        reveal_with_fuel(move_byte_count, 13);
    }
    assert(move_byte_count(BoardSize::TenSquared, 108) == 80) by {
        reveal_with_fuel(move_byte_count, 13);
    }
    assert(move_byte_count(BoardSize::TenSquared, 120) == 90) by {
        reveal_with_fuel(move_byte_count, 13);
    }
    assert(move_byte_count(BoardSize::TenSquared, 132) == 100) by {
        reveal_with_fuel(move_byte_count, 13);
    }
    assert(move_byte_count(BoardSize::TenSquared, 144) == 100) by {
        reveal_with_fuel(move_byte_count, 13);
    }
    assert(move_byte_count(BoardSize::TenSquared, 156) == 100) by {
        reveal_with_fuel(move_byte_count, 13);
    }
    assert(move_byte_count(BoardSize::TenSquared, 168) == 100) by {
        reveal_with_fuel(move_byte_count, 13);
    }
    assert(move_byte_count(BoardSize::TenSquared, 180) == 100) by {
        reveal_with_fuel(move_byte_count, 13);
    }
    assert(move_byte_count(BoardSize::TenSquared, 192) == 100) by {
        reveal_with_fuel(move_byte_count, 13);
    }
    assert(move_byte_count(BoardSize::TenSquared, 204) == 100) by {
        reveal_with_fuel(move_byte_count, 13);
    }
    assert(move_byte_count(BoardSize::TenSquared, 216) == 100) by {
        reveal_with_fuel(move_byte_count, 13);
    }
    assert(move_byte_count(BoardSize::TenSquared, 228) == 100) by {
        reveal_with_fuel(move_byte_count, 13);
    }
    assert(move_byte_count(BoardSize::TenSquared, 240) == 100) by {
        reveal_with_fuel(move_byte_count, 13);
    }
    assert(move_byte_count(BoardSize::TenSquared, 252) == 100) by {
        reveal_with_fuel(move_byte_count, 13);
    }
    assert(move_byte_count(BoardSize::TenSquared, 256) == 100) by {
        reveal_with_fuel(move_byte_count, 5);
    }
}

/// The move bytes accepted for a board are exactly the codes of its squares,
/// each square having one code and each accepted byte naming one square.
pub proof fn lemma_move_codes_exact(bs: BoardSize, b: u8, p: Position)
    ensures
        is_move_byte(bs, b) <==> (exists|q: Position| is_on_board(bs, q) && move_code(bs, q) == b),
        is_move_byte(bs, b) ==> is_on_board(bs, position_of(bs, b)) && move_code(
            bs,
            position_of(bs, b),
        ) == b,
        is_on_board(bs, p) && move_code(bs, p) == b ==> is_move_byte(bs, b) && position_of(bs, b)
            == p,
{
    let base = bs.code_base();
    if is_move_byte(bs, b) {
        let q = position_of(bs, b);
        vstd::arithmetic::div_mod::lemma_fundamental_div_mod(b as int, base);
        assert(move_code(bs, q) == b);
    }
    assert forall|q: Position| is_on_board(bs, q) && move_code(bs, q) == b implies is_move_byte(
        bs,
        b,
    ) && position_of(bs, b) == q by {
        vstd::arithmetic::div_mod::lemma_fundamental_div_mod_converse(
            b as int,
            base,
            q.rank + 1,
            q.file + 1,
        );
    }
}

/// The header fields that describe a game archive.
#[derive(Clone, Copy, Debug, PartialEq, Eq, Structural)]
pub struct Metadata {
    pub file_creation_date: CreationDate,
    pub year_of_games: u16,
    pub board_size: BoardSize,
}

/// What `Metadata::try_from` yields for `h`.
pub open spec fn metadata_of(h: Header) -> Result<Metadata, Error> {
    match board_size_of(h.p1) {
        Some(board_size) => Ok(
            Metadata {
                file_creation_date: h.file_creation_date,
                year_of_games: h.year_of_games,
                board_size,
            },
        ),
        None => Err(Error::InvalidP1Value),
    }
}

impl Metadata {
    /// Reads the board size from `p1` and keeps the date fields.
    pub fn try_from(header: &Header) -> (r: Result<Metadata, Error>)
        ensures
            r == metadata_of(*header),
    {
        let board_size = match header.p1 {
            0 | 8 => BoardSize::EightSquared,
            10 => BoardSize::TenSquared,
            _ => return Err(Error::InvalidP1Value),
        };
        Ok(
            Metadata {
                file_creation_date: header.file_creation_date,
                year_of_games: header.year_of_games,
                board_size,
            },
        )
    }
}

/// The first header check of a game archive that `h` fails, given that
/// `body_len` bytes follow the header.
pub open spec fn archive_header_error(h: Header, body_len: int) -> Option<Error> {
    if h.n2 != 0 {
        Some(Error::InvalidN2Value)
    } else if h.p2 != 0 {
        Some(Error::InvalidP2Value)
    } else {
        match metadata_of(h) {
            Err(e) => Some(e),
            Ok(m) => if h.n1 * m.board_size.record_len() != body_len {
                Some(Error::SizeMismatch)
            } else {
                None
            },
        }
    }
}

/// Checks that `header` describes a game archive whose records fill `bytes`.
fn extract_metadata(header: &Header, bytes: &[u8]) -> (r: Result<Metadata, Error>)
    ensures
        r matches Ok(m) ==> archive_header_error(*header, bytes@.len() as int) is None
            && metadata_of(*header) == Ok::<Metadata, Error>(m),
        r matches Err(e) ==> archive_header_error(*header, bytes@.len() as int) == Some(e),
{
    if header.n2 != 0 {
        Err(Error::InvalidN2Value)
    } else if header.p2 != 0 {
        Err(Error::InvalidP2Value)
    } else {
        let metadata = match Metadata::try_from(header) {
            Ok(m) => m,
            Err(e) => return Err(e),
        };
        let size = metadata.board_size.record_size_in_bytes() as u64;
        assert(header.n1 * size <= 4294967295 * 104) by (nonlinear_arith)
            requires
                header.n1 <= 4294967295,
                size <= 104,
        ;
        let predicted_size = header.n1 as u64 * size;
        if predicted_size != bytes.len() as u64 {
            return Err(Error::SizeMismatch);
        }
        Ok(metadata)
    }
}

/// One decoded game record.
#[derive(Clone, Debug)]
pub struct Game {
    pub tournament_label_number: u16,
    pub black_player_number: u16,
    pub white_player_number: u16,
    pub real_score: u8,
    pub theoretical_score: u8,
    pub moves: Vec<Position>,
}

/// The moves that the move bytes `s` record, in order; a zero byte records no
/// move and is skipped.
pub open spec fn decoded_moves(bs: BoardSize, s: Seq<u8>) -> Seq<Position>
    decreases s.len(),
{
    if s.len() == 0 {
        Seq::empty()
    } else {
        let before = decoded_moves(bs, s.drop_last());
        if s.last() == 0 {
            before
        } else {
            before.push(position_of(bs, s.last()))
        }
    }
}

/// Number of zero bytes in `s`.
pub open spec fn zero_count(s: Seq<u8>) -> int
    decreases s.len(),
{
    if s.len() == 0 {
        0
    } else {
        zero_count(s.drop_last()) + if s.last() == 0 {
            1int
        } else {
            0int
        }
    }
}

/// Every byte of `s` is zero or a move byte for `bs`.
pub open spec fn moves_valid(bs: BoardSize, s: Seq<u8>) -> bool {
    forall|i: int| 0 <= i < s.len() ==> s[i] == 0 || is_move_byte(bs, #[trigger] s[i])
}

/// The move bytes of a game record.
pub open spec fn move_bytes(rec: Seq<u8>) -> Seq<u8> {
    rec.subrange(8, rec.len() as int)
}

/// `g` is what the game record `rec` holds on a board of size `bs`.
pub open spec fn game_decodes(g: Game, bs: BoardSize, rec: Seq<u8>) -> bool {
    &&& g.tournament_label_number == le_u16(rec, 0)
    &&& g.black_player_number == le_u16(rec, 2)
    &&& g.white_player_number == le_u16(rec, 4)
    &&& g.real_score == rec[6]
    &&& g.theoretical_score == rec[7]
    &&& g.moves@ == decoded_moves(bs, move_bytes(rec))
}

/// Decodes one game record, which must be exactly one record wide.
pub fn parse_game(metadata: &Metadata, game: &[u8]) -> (r: Result<Game, Error>)
    ensures
        game@.len() != metadata.board_size.record_len() ==> r == Err::<Game, Error>(
            Error::InvalidSize,
        ),
        game@.len() == metadata.board_size.record_len() ==> (r is Ok <==> moves_valid(
            metadata.board_size,
            move_bytes(game@),
        )),
        r matches Ok(g) ==> game_decodes(g, metadata.board_size, game@),
        r matches Err(e) ==> (e == Error::InvalidSize || e == Error::InvalidMove) && (e
            == Error::InvalidSize <==> game@.len() != metadata.board_size.record_len()),
{
    let bs = metadata.board_size;
    if bs.record_size_in_bytes() != game.len() {
        return Err(Error::InvalidSize);
    }
    let tournament_label_number = game[0] as u16 + 256 * (game[1] as u16);
    let black_player_number = game[2] as u16 + 256 * (game[3] as u16);
    let white_player_number = game[4] as u16 + 256 * (game[5] as u16);
    let real_score = game[6];
    let theoretical_score = game[7];

    let ghost all = move_bytes(game@);
    let mut moves: Vec<Position> = Vec::new();
    let mut i: usize = 8;
    while i < game.len()
        invariant
            8 <= i <= game@.len(),
            game@.len() == bs.record_len(),
            bs == metadata.board_size,
            all == move_bytes(game@),
            moves@ == decoded_moves(bs, all.subrange(0, i - 8)),
            moves_valid(bs, all.subrange(0, i - 8)),
        decreases game@.len() - i,
    {
        let byte = game[i];
        assert(all.subrange(0, i - 8 + 1).drop_last() == all.subrange(0, i - 8));
        if byte != 0 {
            match decode_move(bs, byte) {
                Ok(p) => moves.push(p),
                Err(e) => {
                    assert(!is_move_byte(bs, all[i - 8]));
                    return Err(e);
                },
            }
        }
        i = i + 1;
    }
    assert(all.subrange(0, all.len() as int) == all);
    Ok(
        Game {
            tournament_label_number,
            black_player_number,
            white_player_number,
            real_score,
            theoretical_score,
            moves,
        },
    )
}

/// A decoded game archive.
#[derive(Clone, Debug)]
pub struct GameArchive {
    pub metadata: Metadata,
    pub games: Vec<Game>,
}

/// The bytes that follow the header.
pub open spec fn body_of(b: Seq<u8>) -> Seq<u8> {
    b.subrange(HEADER_LENGTH as int, b.len() as int)
}

/// The `i`-th game record of an archive body.
pub open spec fn record_at(body: Seq<u8>, bs: BoardSize, i: int) -> Seq<u8> {
    body.subrange(i * bs.record_len(), (i + 1) * bs.record_len())
}

/// The error that decoding `b` as a game archive ends with, or `None` when it
/// succeeds.
pub open spec fn archive_error(b: Seq<u8>) -> Option<Error> {
    if b.len() < HEADER_LENGTH {
        Some(Error::InvalidHeader)
    } else {
        let h = header_of(b);
        match archive_header_error(h, b.len() - HEADER_LENGTH) {
            Some(e) => Some(e),
            None => match metadata_of(h) {
                Ok(m) => if exists|i: int|
                    0 <= i < h.n1 && !moves_valid(
                        m.board_size,
                        move_bytes(#[trigger] record_at(body_of(b), m.board_size, i)),
                    ) {
                    Some(Error::InvalidMove)
                } else {
                    None
                },
                Err(e) => Some(e),
            },
        }
    }
}

/// `a` is the archive that `b` encodes: the header's metadata, and one game per
/// declared record, in order.
pub open spec fn archive_decodes(a: GameArchive, b: Seq<u8>) -> bool {
    let h = header_of(b);
    &&& metadata_of(h) == Ok::<Metadata, Error>(a.metadata)
    &&& a.games@.len() == h.n1
    &&& forall|i: int|
        0 <= i < h.n1 ==> game_decodes(
            #[trigger] a.games@[i],
            a.metadata.board_size,
            record_at(body_of(b), a.metadata.board_size, i),
        )
}

impl WthorFile for GameArchive {
    type Output = GameArchive;

    /// Success exactly when no check fails; the first failing check names the
    /// error.
    open spec fn decodes_to(bytes: Seq<u8>, r: Result<GameArchive, Error>) -> bool {
        match r {
            Ok(a) => archive_error(bytes) is None && archive_decodes(a, bytes),
            Err(e) => archive_error(bytes) == Some(e),
        }
    }

    /// Decodes a whole game archive: the header, then `n1` records that must
    /// fill the rest of `bytes` exactly. The first error found ends decoding.
    fn parse(bytes: &[u8]) -> (r: Result<GameArchive, Error>) {
        let (header, body) = match parse_and_split(bytes) {
            Some(split) => split,
            None => return Err(Error::InvalidHeader),
        };
        let metadata = match extract_metadata(&header, body) {
            Ok(m) => m,
            Err(e) => return Err(e),
        };
        let bs = metadata.board_size;
        let step = bs.record_size_in_bytes();
        let ghost b = bytes@;
        assert(body@ == body_of(b));
        assert(b.len() >= HEADER_LENGTH);
        let body_len = body.len();
        let mut games: Vec<Game> = Vec::new();
        let mut i: u32 = 0;
        while i < header.n1
            invariant
                i <= header.n1,
                b == bytes@,
                header == header_of(b),
                metadata_of(header) == Ok::<Metadata, Error>(metadata),
                bs == metadata.board_size,
                step == bs.record_len(),
                body@ == body_of(b),
                header.n1 * step == body@.len(),
                body@.len() == body_len,
                b.len() >= HEADER_LENGTH,
                archive_header_error(header, b.len() - HEADER_LENGTH) is None,
                games@.len() == i,
                forall|j: int|
                    0 <= j < i ==> game_decodes(
                        #[trigger] games@[j],
                        bs,
                        record_at(body@, bs, j),
                    ),
                forall|j: int|
                    0 <= j < i ==> moves_valid(bs, move_bytes(#[trigger] record_at(body@, bs, j))),
            decreases header.n1 - i,
        {
            proof {
                vstd::arithmetic::mul::lemma_mul_inequality(i + 1, header.n1 as int, step as int);
                vstd::arithmetic::mul::lemma_mul_is_distributive_add_other_way(
                    step as int,
                    i as int,
                    1,
                );
            }
            assert(i * step + step <= body@.len());
            let start = i as usize * step;
            let record = vstd::slice::slice_subrange(body, start, start + step);
            assert(record@ == record_at(body@, bs, i as int));
            match parse_game(&metadata, record) {
                Ok(g) => games.push(g),
                Err(e) => {
                    assert(!moves_valid(bs, move_bytes(record_at(body_of(b), bs, i as int))));
                    return Err(e);
                },
            }
            i = i + 1;
        }
        Ok(GameArchive { metadata, games })
    }
}

/// Each game's moves and skipped zero bytes together fill its record's move
/// bytes.
pub proof fn lemma_moves_and_zeros_fill(bs: BoardSize, s: Seq<u8>)
    ensures
        decoded_moves(bs, s).len() + zero_count(s) == s.len(),
    decreases s.len(),
{
    if s.len() > 0 {
        lemma_moves_and_zeros_fill(bs, s.drop_last());
    }
}

/// A decoded game archive holds exactly `n1` games, and the width of each game
/// record is its eight metadata bytes plus one byte per decoded move plus one
/// byte per skipped zero.
pub proof fn lemma_archive_accounts_for_bytes(a: GameArchive, b: Seq<u8>)
    requires
        archive_error(b) is None,
        archive_decodes(a, b),
    ensures
        a.games@.len() == header_of(b).n1,
        forall|i: int|
            0 <= i < a.games@.len() ==> 8 + (#[trigger] a.games@[i]).moves@.len() + zero_count(
                move_bytes(record_at(body_of(b), a.metadata.board_size, i)),
            ) == a.metadata.board_size.record_len(),
{
    let bs = a.metadata.board_size;
    assert forall|i: int| 0 <= i < a.games@.len() implies 8 + (#[trigger] a.games@[i]).moves@.len()
        + zero_count(move_bytes(record_at(body_of(b), bs, i))) == bs.record_len() by {
        let rec = record_at(body_of(b), bs, i);
        assert(game_decodes(a.games@[i], bs, rec));
        vstd::arithmetic::mul::lemma_mul_inequality(i + 1, header_of(b).n1 as int, bs.record_len());
        vstd::arithmetic::mul::lemma_mul_is_distributive_add_other_way(bs.record_len(), i, 1);
        lemma_moves_and_zeros_fill(bs, move_bytes(rec));
    }
}

} // verus!
