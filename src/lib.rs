//! Decoder for the WTHOR archive format, which records Othello games,
//! player names and tournament names in fixed-size binary records.
//!
//! - game archives (`.wtb`) hold one fixed-width record per game;
//! - name files (`.jou`, `.trn`) hold one fixed-width, null-terminated
//!   Latin-1 name per record;
//! - solitaire files are recognised by their header only.
//!
//! Every decoding function is total: it returns a value or a structured
//! error for every byte sequence, and each contract states which.

pub mod dispatch;
pub mod game_archive;
pub mod header;
pub mod infer;
pub mod latin1;
pub mod name_file;
pub mod records;
pub mod wthor;

pub use header::CreationDate;
pub use wthor::{parse, Error, WthorFile};
