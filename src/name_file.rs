use vstd::prelude::*;

use crate::header::Header;
use crate::records::{decode_names, names_decode, some_record_unterminated};
use crate::wthor::Error;

verus! {

/// Why the body of a name file could not be decoded with a given record width.
#[derive(Clone, Copy, Debug, PartialEq, Eq, Structural)]
pub enum NameFileError {
    InvalidN1Value,
    InvalidN2Value,
    InvalidP1Value,
    InvalidP2Value,
    SizeMismatch,
    RecordNotNullTerminated,
    EncodingNotIso8859_1,
}

/// The error that decoding `body` as `h.n2` name records of width
/// `record_size` ends with, or `None` when it succeeds.
pub open spec fn name_file_error(record_size: int, h: Header, body: Seq<u8>) -> Option<
    NameFileError,
> {
    if h.n1 != 0 {
        Some(NameFileError::InvalidN1Value)
    } else if h.n2 == 0 {
        Some(NameFileError::InvalidN2Value)
    } else if h.p1 != 0 {
        Some(NameFileError::InvalidP1Value)
    } else if h.p2 != 0 {
        Some(NameFileError::InvalidP2Value)
    } else if h.n2 * record_size != body.len() {
        Some(NameFileError::SizeMismatch)
    } else if some_record_unterminated(body, record_size, h.n2 as int) {
        Some(NameFileError::RecordNotNullTerminated)
    } else {
        None
    }
}

/// Decodes the body of a name file whose records are `record_size` bytes wide.
pub fn parse(record_size: usize, header: &Header, bytes: &[u8]) -> (r: Result<
    Vec<String>,
    NameFileError,
>)
    ensures
        r matches Ok(names) ==> name_file_error(record_size as int, *header, bytes@) is None
            && names@.len() == header.n2 && names_decode(names@, bytes@, record_size as int),
        r matches Err(e) ==> name_file_error(record_size as int, *header, bytes@) == Some(e),
{
    if header.n1 != 0 {
        return Err(NameFileError::InvalidN1Value);
    }
    if header.n2 == 0 {
        return Err(NameFileError::InvalidN2Value);
    }
    if header.p1 != 0 {
        return Err(NameFileError::InvalidP1Value);
    }
    if header.p2 != 0 {
        return Err(NameFileError::InvalidP2Value);
    }
    assert(header.n2 * record_size <= 65535 * 18446744073709551615) by (nonlinear_arith)
        requires
            header.n2 <= 65535,
            record_size <= 18446744073709551615,
    ;
    if header.n2 as u128 * record_size as u128 != bytes.len() as u128 {
        return Err(NameFileError::SizeMismatch);
    }
    match decode_names(bytes, header.n2, record_size) {
        Ok(names) => Ok(names),
        Err(Error::RecordNotNullTerminated) => Err(NameFileError::RecordNotNullTerminated),
        Err(_) => Err(NameFileError::EncodingNotIso8859_1),
    }
}

} // verus!
