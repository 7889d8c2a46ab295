use wthor::game_archive::{decode_move, BoardSize, GameArchive, Position};
use wthor::header::parse_and_split;
use wthor::{parse, Error};

fn header(n1: u32, n2: u16, p1: u8, p2: u8) -> Vec<u8> {
    let mut h = vec![20, 24, 5, 17];
    h.extend_from_slice(&n1.to_le_bytes());
    h.extend_from_slice(&n2.to_le_bytes());
    h.extend_from_slice(&2004u16.to_le_bytes());
    h.extend_from_slice(&[p1, p2, 0, 0]);
    h
}

fn record(width: usize, tournament: u16, black: u16, white: u16, scores: [u8; 2], moves: &[u8]) -> Vec<u8> {
    let mut r = Vec::new();
    r.extend_from_slice(&tournament.to_le_bytes());
    r.extend_from_slice(&black.to_le_bytes());
    r.extend_from_slice(&white.to_le_bytes());
    r.extend_from_slice(&scores);
    r.extend_from_slice(moves);
    r.resize(width, 0);
    r
}

#[test]
fn end_to_end_single_game() {
    let mut bytes = header(1, 0, 0, 0);
    bytes.extend(record(68, 1, 2, 3, [37, 37], &[44]));
    let archive = parse::<GameArchive>(&bytes).unwrap();
    assert_eq!(archive.metadata.board_size, BoardSize::EightSquared);
    assert_eq!(archive.metadata.year_of_games, 2004);
    assert_eq!(archive.games.len(), 1);
    let game = &archive.games[0];
    assert_eq!(game.tournament_label_number, 1);
    assert_eq!(game.black_player_number, 2);
    assert_eq!(game.white_player_number, 3);
    assert_eq!(game.real_score, 37);
    assert_eq!(game.theoretical_score, 37);
    assert_eq!(game.moves, vec![Position { rank: 3, file: 3 }]);
}

#[test]
fn size_mismatch_with_one_byte_missing() {
    let mut bytes = header(1, 0, 0, 0);
    bytes.extend(record(67, 1, 2, 3, [37, 37], &[44]));
    assert_eq!(parse::<GameArchive>(&bytes).unwrap_err(), Error::SizeMismatch);
}

#[test]
fn size_mismatch_with_one_byte_too_many() {
    let mut bytes = header(1, 0, 0, 0);
    bytes.extend(record(69, 1, 2, 3, [37, 37], &[44]));
    assert_eq!(parse::<GameArchive>(&bytes).unwrap_err(), Error::SizeMismatch);
}

#[test]
fn short_header_is_rejected() {
    for len in 0..16 {
        let bytes = vec![0u8; len];
        assert_eq!(parse::<GameArchive>(&bytes).unwrap_err(), Error::InvalidHeader);
    }
    assert!(parse_and_split(&[0u8; 15]).is_none());
}

#[test]
fn header_fields_are_little_endian() {
    let mut bytes = header(0x0403_0201, 0x0605, 8, 1);
    bytes.extend_from_slice(&[9, 9]);
    let (h, rest) = parse_and_split(&bytes).unwrap();
    assert_eq!(h.n1, 0x0403_0201);
    assert_eq!(h.n2, 0x0605);
    assert_eq!(h.year_of_games, 2004);
    assert_eq!((h.p1, h.p2, h.p3, h.reserved), (8, 1, 0, 0));
    assert_eq!(h.file_creation_date.century, 20);
    assert_eq!(h.file_creation_date.day, 17);
    assert_eq!(rest, &[9, 9]);
    assert!(h.is_solitaire());
    assert!(!h.most_likely_game());
    assert!(!h.most_likely_records());
}

#[test]
fn header_checks_name_the_violated_field() {
    let bytes = header(0, 1, 0, 0);
    assert_eq!(parse::<GameArchive>(&bytes).unwrap_err(), Error::InvalidN2Value);
    let bytes = header(0, 0, 0, 2);
    assert_eq!(parse::<GameArchive>(&bytes).unwrap_err(), Error::InvalidP2Value);
    let bytes = header(0, 0, 9, 0);
    assert_eq!(parse::<GameArchive>(&bytes).unwrap_err(), Error::InvalidP1Value);
}

#[test]
fn empty_archive_decodes() {
    let bytes = header(0, 0, 8, 0);
    let archive = parse::<GameArchive>(&bytes).unwrap();
    assert!(archive.games.is_empty());
}

#[test]
fn invalid_move_byte_fails_the_whole_file() {
    let mut bytes = header(2, 0, 0, 0);
    bytes.extend(record(68, 1, 2, 3, [40, 40], &[44, 45]));
    bytes.extend(record(68, 1, 2, 3, [40, 40], &[44, 19]));
    assert_eq!(parse::<GameArchive>(&bytes).unwrap_err(), Error::InvalidMove);
}

#[test]
fn zero_bytes_are_skipped_anywhere() {
    let mut bytes = header(1, 0, 0, 0);
    bytes.extend(record(68, 0, 0, 0, [0, 0], &[0, 56, 0, 0, 88, 0, 11]));
    let archive = parse::<GameArchive>(&bytes).unwrap();
    assert_eq!(
        archive.games[0].moves,
        vec![
            Position { rank: 4, file: 5 },
            Position { rank: 7, file: 7 },
            Position { rank: 0, file: 0 }
        ]
    );
}

#[test]
fn ten_squared_records() {
    let mut bytes = header(2, 0, 10, 0);
    bytes.extend(record(104, 7, 8, 9, [50, 51], &[13, 130]));
    bytes.extend(record(104, 1, 1, 1, [0, 0], &[]));
    let archive = parse::<GameArchive>(&bytes).unwrap();
    assert_eq!(archive.metadata.board_size, BoardSize::TenSquared);
    assert_eq!(archive.games.len(), 2);
    assert_eq!(
        archive.games[0].moves,
        vec![Position { rank: 0, file: 0 }, Position { rank: 9, file: 9 }]
    );
    assert!(archive.games[1].moves.is_empty());
}

#[test]
fn record_bytes_are_accounted_for() {
    let moves = [44, 0, 45, 0, 0, 46, 53];
    let mut bytes = header(1, 0, 0, 0);
    bytes.extend(record(68, 0, 0, 0, [0, 0], &moves));
    let archive = parse::<GameArchive>(&bytes).unwrap();
    assert_eq!(archive.games.len(), 1);
    let zeros = bytes[16 + 8..].iter().filter(|b| **b == 0).count();
    assert_eq!(8 + archive.games[0].moves.len() + zeros, 68);
    assert_eq!(archive.games[0].moves.len(), 4);
}

#[test]
fn move_codec_accepts_exactly_the_square_codes() {
    let mut eight = 0;
    let mut ten = 0;
    for b in 0..=255u8 {
        if let Ok(p) = decode_move(BoardSize::EightSquared, b) {
            eight += 1;
            assert!(p.rank < 8 && p.file < 8);
            assert_eq!((p.rank as u32 + 1) * 10 + p.file as u32 + 1, b as u32);
        }
        if let Ok(p) = decode_move(BoardSize::TenSquared, b) {
            ten += 1;
            assert!(p.rank < 10 && p.file < 10);
            assert_eq!((p.rank as u32 + 1) * 12 + p.file as u32 + 1, b as u32);
        }
    }
    assert_eq!(eight, 64);
    assert_eq!(ten, 100);
}

#[test]
fn move_codec_rejects_in_range_lookalikes() {
    for b in [0u8, 10, 19, 20, 29, 89, 90, 91, 99, 255] {
        assert_eq!(decode_move(BoardSize::EightSquared, b), Err(Error::InvalidMove));
    }
    for b in [0u8, 12, 23, 24, 131, 132, 143, 255] {
        assert_eq!(decode_move(BoardSize::TenSquared, b), Err(Error::InvalidMove));
    }
    assert_eq!(decode_move(BoardSize::EightSquared, 18), Ok(Position { rank: 0, file: 7 }));
    assert_eq!(decode_move(BoardSize::EightSquared, 81), Ok(Position { rank: 7, file: 0 }));
    assert_eq!(decode_move(BoardSize::TenSquared, 22), Ok(Position { rank: 0, file: 9 }));
}

#[test]
fn record_sizes() {
    assert_eq!(BoardSize::EightSquared.record_size_in_bytes(), 68);
    assert_eq!(BoardSize::TenSquared.record_size_in_bytes(), 104);
}
