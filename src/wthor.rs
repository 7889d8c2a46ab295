use vstd::prelude::*;

verus! {

/// Why a byte sequence could not be decoded.
#[derive(Clone, Copy, Debug, PartialEq, Eq, Structural)]
pub enum Error {
    // Header errors
    InvalidHeader,
    InvalidN1Value,
    InvalidN2Value,
    InvalidP2Value,
    InvalidP1Value,
    SizeMismatch,
    // Game record errors
    InvalidMove,
    InvalidSize,
    // Name record errors
    RecordNotNullTerminated,
    EncodingNotIso8859_1,
    // Neither name record width fits the file
    UnrecognizedFormat,
}

/// A kind of file that can be decoded from its bytes.
pub trait WthorFile {
    type Output;

    /// `r` is what decoding `bytes` as this kind of file yields.
    spec fn decodes_to(bytes: Seq<u8>, r: Result<Self::Output, Error>) -> bool;

    fn parse(bytes: &[u8]) -> (r: Result<Self::Output, Error>)
        ensures
            Self::decodes_to(bytes@, r),
    ;
}

/// Decodes `bytes` as a file of kind `W`.
pub fn parse<W: WthorFile>(bytes: &[u8]) -> (r: Result<W::Output, Error>)
    ensures
        W::decodes_to(bytes@, r),
{
    W::parse(bytes)
}

} // verus!
