use magpie::othello::{Board, Stone};
use wthor::game_archive::{Game, GameArchive, Position};
use wthor::infer::{infer_play_order, next_stone, InferError, MAX_MOVES};

fn game(moves: Vec<Position>) -> Game {
    Game {
        tournament_label_number: 0,
        black_player_number: 0,
        white_player_number: 0,
        real_score: 0,
        theoretical_score: 0,
        moves,
    }
}

fn at(rank: u8, file: u8) -> Position {
    Position { rank, file }
}

#[test]
fn perpendicular_opening_alternates() {
    // f5 d6 c3 d3
    let g = game(vec![at(4, 5), at(5, 3), at(2, 2), at(2, 3)]);
    let ordered = infer_play_order(&g).unwrap();
    let stones: Vec<Stone> = ordered.moves.iter().map(|m| m.stone).collect();
    assert_eq!(stones, vec![Stone::Black, Stone::White, Stone::Black, Stone::White]);
    assert_eq!(ordered.moves[0].bitboard, 1u64 << (63 - (4 * 8 + 5)));
    assert_eq!(ordered.moves[3].position, at(2, 3));
}

#[test]
fn diagonal_and_parallel_openings_alternate() {
    // f5 f6 e6 f4 (diagonal), f5 f4 e3 f6 (parallel)
    for moves in [
        vec![at(4, 5), at(5, 5), at(5, 4), at(3, 5)],
        vec![at(4, 5), at(3, 5), at(2, 4), at(5, 5)],
    ] {
        let ordered = infer_play_order(&game(moves)).unwrap();
        let stones: Vec<Stone> = ordered.moves.iter().map(|m| m.stone).collect();
        assert_eq!(stones, vec![Stone::Black, Stone::White, Stone::Black, Stone::White]);
    }
}

#[test]
fn decoded_game_replays() {
    let mut bytes = vec![20, 24, 1, 1, 1, 0, 0, 0, 0, 0, 0, 0, 0, 0, 0, 0];
    let mut rec = vec![0u8; 68];
    rec[8..12].copy_from_slice(&[56, 64, 33, 34]);
    bytes.extend(rec);
    let archive = wthor::parse::<GameArchive>(&bytes).unwrap();
    let ordered = infer_play_order(&archive.games[0]).unwrap();
    assert_eq!(ordered.moves.len(), 4);
    assert_eq!(ordered.moves[1].stone, Stone::White);
}

#[test]
fn forced_pass_repeats_the_colour() {
    assert_eq!(next_stone(Stone::Black, false), Stone::Black);
    assert_eq!(next_stone(Stone::White, false), Stone::White);
    assert_eq!(next_stone(Stone::Black, true), Stone::White);
    assert_eq!(next_stone(Stone::White, true), Stone::Black);
    let replies = [true, true, false, true];
    let mut stone = Stone::Black;
    let mut seen = vec![stone];
    for r in replies {
        stone = next_stone(stone, r);
        seen.push(stone);
    }
    assert_eq!(
        seen,
        vec![Stone::Black, Stone::White, Stone::Black, Stone::Black, Stone::White]
    );
}

#[test]
fn inference_errors() {
    let too_many = game(vec![at(4, 5); MAX_MOVES + 1]);
    assert_eq!(infer_play_order(&too_many).unwrap_err(), InferError::InvalidMoveQuantity);
    let off_board = game(vec![at(8, 0)]);
    assert_eq!(infer_play_order(&off_board).unwrap_err(), InferError::PositionOutOfBounds);
    let illegal = game(vec![at(0, 0)]);
    assert_eq!(infer_play_order(&illegal).unwrap_err(), InferError::IllegalMove);
    let empty = infer_play_order(&game(vec![])).unwrap();
    assert!(empty.moves.is_empty());
}

struct Lcg(u64);

impl Lcg {
    fn next(&mut self) -> usize {
        self.0 = self.0.wrapping_mul(6364136223846793005).wrapping_add(1442695040888963407);
        (self.0 >> 33) as usize
    }
}

/// Plays a random legal game with magpie and returns its moves, the colour
/// of each, and whether some colour had to move twice in a row.
fn random_game(seed: u64) -> (Vec<Position>, Vec<Stone>, bool) {
    let mut rng = Lcg(seed);
    let mut board = Board::standard();
    let mut stone = Stone::Black;
    let mut moves = Vec::new();
    let mut stones = Vec::new();
    let mut passed = false;
    loop {
        let options: Vec<_> = board.moves_for(stone).hot_bits().collect();
        if options.is_empty() {
            if board.moves_for(stone.flip()).is_empty() {
                break;
            }
            stone = stone.flip();
            passed = true;
            continue;
        }
        let pos = options[rng.next() % options.len()];
        board.play(stone, pos);
        moves.push(at(pos.rank(), pos.file()));
        stones.push(stone);
        stone = stone.flip();
    }
    (moves, stones, passed)
}

#[test]
fn forced_pass_in_a_real_game() {
    let mut found = false;
    for seed in 0..2000u64 {
        let (moves, stones, passed) = random_game(seed);
        let ordered = infer_play_order(&game(moves.clone())).unwrap();
        let inferred: Vec<Stone> = ordered.moves.iter().map(|m| m.stone).collect();
        assert_eq!(inferred, stones);
        let repeats = stones.windows(2).any(|w| w[0] == w[1]);
        if passed && repeats {
            found = true;
            break;
        }
    }
    assert!(found);
}

#[test]
fn same_moves_give_the_same_order() {
    let (moves, _, _) = random_game(42);
    let a = infer_play_order(&game(moves.clone())).unwrap();
    let b = infer_play_order(&game(moves)).unwrap();
    assert_eq!(a.moves.len(), b.moves.len());
    for (x, y) in a.moves.iter().zip(b.moves.iter()) {
        assert_eq!((x.stone, x.bitboard, x.position), (y.stone, y.bitboard, y.position));
    }
}
