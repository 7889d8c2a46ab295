use vstd::prelude::*;

use crate::game_archive::{archive_decodes, archive_error, GameArchive};
use crate::header::{header_of, parse_and_split, Header, HEADER_LENGTH};
use crate::name_file::{self, name_file_error};
use crate::records::{
    names_decode, Metadata, RecordType, Records, PLAYER_RECORD_SIZE, TOURNAMENT_RECORD_SIZE,
};
use crate::wthor::{Error, WthorFile};

verus! {

/// What a file turned out to hold.
#[derive(Clone, Debug)]
pub enum FileContents {
    /// A solitaire file; its body is not interpreted.
    Solitaire(Header),
    /// A game archive.
    Games(GameArchive),
    /// A player or a tournament name file.
    Names(Records),
}

/// The record type of a name file whose header is `h` and whose body is
/// `body`: tournaments when their width fits, else players.
pub open spec fn name_file_kind(h: Header, body: Seq<u8>) -> RecordType {
    if name_file_error(TOURNAMENT_RECORD_SIZE as int, h, body) is None {
        RecordType::Tournaments
    } else {
        RecordType::Players
    }
}

/// The error that recognising and decoding `b` ends with, or `None` when it
/// succeeds.
pub open spec fn dispatch_error(b: Seq<u8>) -> Option<Error> {
    if b.len() < HEADER_LENGTH {
        Some(Error::InvalidHeader)
    } else {
        let h = header_of(b);
        let body = b.subrange(HEADER_LENGTH as int, b.len() as int);
        if h.p2 == 1 {
            None
        } else if h.n2 == 0 {
            archive_error(b)
        } else if name_file_error(TOURNAMENT_RECORD_SIZE as int, h, body) is None
            || name_file_error(PLAYER_RECORD_SIZE as int, h, body) is None {
            None
        } else {
            Some(Error::UnrecognizedFormat)
        }
    }
}

/// Recognises the kind of file that `bytes` holds and decodes it. The
/// solitaire flag is looked at first, then `n2`: zero for a game archive,
/// else a name file, whose record width is found by trying the tournament
/// width and then the player width.
pub fn decode(bytes: &[u8]) -> (r: Result<FileContents, Error>)
    ensures
        r matches Err(e) ==> dispatch_error(bytes@) == Some(e),
        r is Ok ==> dispatch_error(bytes@) is None,
        r matches Ok(FileContents::Solitaire(h)) ==> bytes@.len() >= HEADER_LENGTH && h
            == header_of(bytes@) && h.p2 == 1,
        r matches Ok(FileContents::Games(a)) ==> bytes@.len() >= HEADER_LENGTH && header_of(
            bytes@,
        ).p2 != 1 && header_of(bytes@).n2 == 0 && archive_decodes(a, bytes@),
        r matches Ok(FileContents::Names(n)) ==> bytes@.len() >= HEADER_LENGTH && {
            let h = header_of(bytes@);
            let body = bytes@.subrange(HEADER_LENGTH as int, bytes@.len() as int);
            &&& h.p2 != 1
            &&& h.n2 != 0
            &&& n.metadata.file_creation_date == h.file_creation_date
            &&& n.record_type == name_file_kind(h, body)
            &&& n.names@.len() == h.n2
            &&& names_decode(n.names@, body, n.record_type.width())
        },
{
    let (header, body) = match parse_and_split(bytes) {
        Some(split) => split,
        None => return Err(Error::InvalidHeader),
    };
    if header.is_solitaire() {
        return Ok(FileContents::Solitaire(header));
    }
    if header.most_likely_game() {
        return match <GameArchive as WthorFile>::parse(bytes) {
            Ok(a) => Ok(FileContents::Games(a)),
            Err(e) => Err(e),
        };
    }
    let metadata = Metadata::from(&header);
    match name_file::parse(TOURNAMENT_RECORD_SIZE, &header, body) {
        Ok(names) => {
            return Ok(
                FileContents::Names(
                    Records { metadata, names, record_type: RecordType::Tournaments },
                ),
            );
        },
        Err(_) => {},
    }
    match name_file::parse(PLAYER_RECORD_SIZE, &header, body) {
        Ok(names) => Ok(
            FileContents::Names(Records { metadata, names, record_type: RecordType::Players }),
        ),
        Err(_) => Err(Error::UnrecognizedFormat),
    }
}

} // verus!
