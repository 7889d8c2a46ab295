use vstd::prelude::*;

use magpie::othello::{Board, Stone};
use magpie::othello::Position as Square;

use crate::game_archive::{Game, Position};

verus! {

/// magpie's stone colour, a plain two-variant enum, seen with its variants.
#[verifier::external_type_specification]
pub struct ExStone(Stone);

/// The other colour.
pub open spec fn opposite(stone: Stone) -> Stone {
    match stone {
        Stone::Black => Stone::White,
        Stone::White => Stone::Black,
    }
}

/// Relies on `magpie::othello::Stone::flip`: the other colour.
pub assume_specification[ Stone::flip ](stone: Stone) -> (r: Stone)
    ensures
        r == opposite(stone),
;

/// The one-bit mask of the square at `rank` and `file`: bits run from the
/// most significant one, rank by rank and, within a rank, file by file.
pub open spec fn square_bit(rank: u8, file: u8) -> u64 {
    0x8000_0000_0000_0000u64 >> ((8 * rank + file) as u64)
}

/// Whether the Othello rules let the side to move (Black when `black_moves`)
/// play on `square` of the board whose stones are `black` and `white`.
pub uninterp spec fn legal_of(black: u64, white: u64, black_moves: bool, square: u64) -> bool;

/// The black and white stones after the side to move plays on `square`.
pub uninterp spec fn after_play_of(black: u64, white: u64, black_moves: bool, square: u64) -> (
    u64,
    u64,
);

/// Whether the given side has a legal move on the board.
pub uninterp spec fn can_move_of(black: u64, white: u64, black_moves: bool) -> bool;

/// Relies on `magpie::othello::Board::is_legal_move`, on the board that
/// `Board::try_from((black, white))` builds (it fails only when the two sets
/// of stones meet) and the square that `Position::try_from((rank, file))`
/// builds (it fails only off the board).
#[verifier::external_body]
fn is_legal(black: u64, white: u64, stone: Stone, rank: u8, file: u8) -> (r: bool)
    requires
        black & white == 0,
        rank < 8,
        file < 8,
    ensures
        r == legal_of(black, white, stone == Stone::Black, square_bit(rank, file)),
{
    let board = Board::try_from((black, white)).unwrap();
    board.is_legal_move(stone, Square::try_from((rank, file)).unwrap())
}

/// Relies on `magpie::othello::Board::play` and `Board::bits_for`, on the
/// board and square built as for `is_legal`. A legal move lands on an empty
/// square and turns only opponent stones, so the two sets stay apart.
#[verifier::external_body]
fn play(black: u64, white: u64, stone: Stone, rank: u8, file: u8) -> (r: (u64, u64))
    requires
        black & white == 0,
        rank < 8,
        file < 8,
        legal_of(black, white, stone == Stone::Black, square_bit(rank, file)),
    ensures
        r == after_play_of(black, white, stone == Stone::Black, square_bit(rank, file)),
        r.0 & r.1 == 0,
{
    let mut board = Board::try_from((black, white)).unwrap();
    board.play(stone, Square::try_from((rank, file)).unwrap());
    (board.bits_for(Stone::Black).raw(), board.bits_for(Stone::White).raw())
}

/// Relies on `magpie::othello::Board::moves_for` and `Bitboard::is_empty`, on
/// the board built as for `is_legal`.
#[verifier::external_body]
fn can_move(black: u64, white: u64, stone: Stone) -> (r: bool)
    requires
        black & white == 0,
    ensures
        r == can_move_of(black, white, stone == Stone::Black),
{
    let board = Board::try_from((black, white)).unwrap();
    !board.moves_for(stone).is_empty()
}

/// Black stones of the opening position: e4 and d5.
pub const START_BLACK: u64 = 0x0000_0008_1000_0000;

/// White stones of the opening position: d4 and e5.
pub const START_WHITE: u64 = 0x0000_0010_0800_0000;

/// Most moves that a game on the eight-squared board can have.
pub const MAX_MOVES: usize = 60;

/// Why the colours of a game's moves could not be inferred.
#[derive(Clone, Copy, Debug, PartialEq, Eq, Structural)]
pub enum InferError {
    InvalidMoveQuantity,
    PositionOutOfBounds,
    IllegalMove,
}

/// One move with the colour that played it.
#[derive(Clone, Copy, Debug)]
pub struct Move {
    pub stone: Stone,
    pub bitboard: u64,
    pub position: Position,
}

/// A game's moves, each with the colour that played it.
#[derive(Clone, Debug)]
pub struct OrderedGame {
    pub moves: Vec<Move>,
}

/// `pos` lies on the eight-squared board.
pub open spec fn on_standard_board(pos: Position) -> bool {
    pos.rank < 8 && pos.file < 8
}

/// The one-bit mask of square `pos`.
pub open spec fn square_mask(pos: Position) -> u64 {
    square_bit(pos.rank, pos.file)
}

/// The colour that plays after `stone` has moved: the opponent when it has a
/// legal move, else `stone` again.
pub open spec fn stone_after(stone: Stone, opponent_can_move: bool) -> Stone {
    if opponent_can_move {
        opposite(stone)
    } else {
        stone
    }
}

/// The colours of a game's moves when `replies[i]` tells whether the
/// opponent of the `i`-th mover could move after it: Black opens.
pub open spec fn play_colors(replies: Seq<bool>) -> Seq<Stone>
    decreases replies.len(),
{
    if replies.len() == 0 {
        seq![Stone::Black]
    } else {
        let before = play_colors(replies.drop_last());
        before.push(stone_after(before.last(), replies.last()))
    }
}

/// Turn order: Black opens; after each move the opponent plays next when it
/// can move, and the same colour plays again when it cannot. So when every
/// opponent can reply the colours alternate Black, White, Black, ...
pub proof fn lemma_turn_order(replies: Seq<bool>)
    ensures
        play_colors(replies).len() == replies.len() + 1,
        play_colors(replies)[0] == Stone::Black,
        forall|i: int|
            0 <= i < replies.len() ==> #[trigger] play_colors(replies)[i + 1] == if replies[i] {
                opposite(play_colors(replies)[i])
            } else {
                play_colors(replies)[i]
            },
        (forall|i: int| 0 <= i < replies.len() ==> #[trigger] replies[i]) ==> forall|i: int|
            0 <= i <= replies.len() ==> #[trigger] play_colors(replies)[i] == if i % 2 == 0 {
                Stone::Black
            } else {
                Stone::White
            },
    decreases replies.len(),
{
    if replies.len() > 0 {
        let before = replies.drop_last();
        lemma_turn_order(before);
        assert forall|i: int| 0 <= i < replies.len() implies #[trigger] play_colors(replies)[i + 1]
            == if replies[i] {
            opposite(play_colors(replies)[i])
        } else {
            play_colors(replies)[i]
        } by {
            if i < replies.len() - 1 {
                assert(before[i] == replies[i]);
            }
        }
        if forall|i: int| 0 <= i < replies.len() ==> #[trigger] replies[i] {
            assert forall|j: int| 0 <= j < before.len() implies #[trigger] before[j] by {
                assert(before[j] == replies[j]);
            }
            assert(replies[replies.len() - 1]);
        }
    }
}

/// Chooses the colour of the next move.
pub fn next_stone(stone: Stone, opponent_can_move: bool) -> (r: Stone)
    ensures
        r == stone_after(stone, opponent_can_move),
{
    if opponent_can_move {
        stone.flip()
    } else {
        stone
    }
}

fn as_bitboard(pos: &Position) -> (r: Result<u64, InferError>)
    ensures
        r is Ok <==> on_standard_board(*pos),
        r matches Ok(b) ==> b == square_mask(*pos),
        r matches Err(e) ==> e == InferError::PositionOutOfBounds,
{
    if pos.rank > 7 || pos.file > 7 {
        Err(InferError::PositionOutOfBounds)
    } else {
        Ok(0x8000_0000_0000_0000u64 >> (8 * pos.rank + pos.file) as u64)
    }
}

/// The replay of `moves` from the opening position, Black first: the black and
/// white stones afterwards, and for each move whether the opponent of its
/// player could move after it. The player of each move is then
/// `play_colors(replies)[i]`.
pub open spec fn replay(moves: Seq<Position>) -> (u64, u64, Seq<bool>)
    decreases moves.len(),
{
    if moves.len() == 0 {
        (START_BLACK, START_WHITE, Seq::empty())
    } else {
        let before = replay(moves.drop_last());
        let stone = play_colors(before.2).last();
        let after = after_play_of(
            before.0,
            before.1,
            stone == Stone::Black,
            square_mask(moves.last()),
        );
        (after.0, after.1, before.2.push(can_move_of(after.0, after.1, opposite(stone) == Stone::Black)))
    }
}

/// The colour that plays next after `moves`.
pub open spec fn to_move(moves: Seq<Position>) -> Stone {
    play_colors(replay(moves).2).last()
}

/// The rules let the side to move after `moves` play on `pos`.
pub open spec fn legal_after(moves: Seq<Position>, pos: Position) -> bool {
    legal_of(replay(moves).0, replay(moves).1, to_move(moves) == Stone::Black, square_mask(pos))
}

/// The error that replaying `moves` ends with, or `None` when every move is
/// on the board and legal in turn: the first move that is off the board or
/// that the rules reject decides.
pub open spec fn order_error(moves: Seq<Position>) -> Option<InferError>
    decreases moves.len(),
{
    if moves.len() == 0 {
        None
    } else {
        match order_error(moves.drop_last()) {
            Some(e) => Some(e),
            None => if !on_standard_board(moves.last()) {
                Some(InferError::PositionOutOfBounds)
            } else if !legal_after(moves.drop_last(), moves.last()) {
                Some(InferError::IllegalMove)
            } else {
                None
            },
        }
    }
}

/// `g` records `moves` with their masks and the colours of the replay.
pub open spec fn ordered_as_replayed(g: OrderedGame, moves: Seq<Position>) -> bool {
    &&& g.moves@.len() == moves.len()
    &&& forall|i: int|
        0 <= i < moves.len() ==> (#[trigger] g.moves@[i]).position == moves[i]
            && g.moves@[i].bitboard == square_mask(moves[i]) && g.moves@[i].stone == play_colors(
            replay(moves).2,
        )[i]
}

proof fn lemma_order_error_prefix(moves: Seq<Position>, k: int)
    requires
        0 <= k <= moves.len(),
        order_error(moves.take(k)) is Some,
    ensures
        order_error(moves) == order_error(moves.take(k)),
    decreases moves.len(),
{
    if k < moves.len() {
        assert(moves.drop_last().take(k) == moves.take(k));
        lemma_order_error_prefix(moves.drop_last(), k);
    } else {
        assert(moves.take(k) == moves);
    }
}

proof fn lemma_replay_prefix(moves: Seq<Position>, k: int)
    requires
        0 <= k <= moves.len(),
    ensures
        replay(moves.take(k)).2 == replay(moves).2.take(k),
        replay(moves).2.len() == moves.len(),
    decreases moves.len(),
{
    if moves.len() > 0 {
        lemma_replay_prefix(moves.drop_last(), if k < moves.len() { k } else { 0 });
        if k < moves.len() {
            assert(moves.drop_last().take(k) == moves.take(k));
            assert(replay(moves).2.take(k) == replay(moves.drop_last()).2.take(k));
        } else {
            assert(moves.take(k) == moves);
        }
    }
}

/// The colour of move `i + 1` of `moves` follows from that of move `i` by
/// the turn rule: the opponent when, on the board after moves `0..=i`, it
/// has a legal move, else the same colour again.
pub open spec fn follows_turn_rule(moves: Seq<Position>, i: int) -> bool {
    let c = play_colors(replay(moves).2);
    let board = replay(moves.take(i + 1));
    c[i + 1] == if can_move_of(board.0, board.1, opposite(c[i]) == Stone::Black) {
        opposite(c[i])
    } else {
        c[i]
    }
}

/// The colours of a replay follow the turn rule: Black plays the first move,
/// and after each move the opponent plays next exactly when it has a legal
/// move on the board that the move left, else the same colour plays again.
/// So when every move but the last leaves the opponent a reply, the colours
/// alternate Black, White, Black, ...
pub proof fn lemma_replay_turn_rule(moves: Seq<Position>)
    ensures
        play_colors(replay(moves).2)[0] == Stone::Black,
        forall|i: int| 0 <= i < moves.len() ==> #[trigger] follows_turn_rule(moves, i),
        (forall|i: int| 0 <= i < moves.len() - 1 ==> #[trigger] replay(moves).2[i]) ==> forall|i: int|
            0 <= i < moves.len() ==> #[trigger] play_colors(replay(moves).2)[i] == if i % 2 == 0 {
                Stone::Black
            } else {
                Stone::White
            },
{
    let replies = replay(moves).2;
    lemma_replay_prefix(moves, 0);
    lemma_turn_order(replies);
    assert forall|i: int| 0 <= i < moves.len() implies #[trigger] follows_turn_rule(moves, i) by {
        let pre = moves.take(i + 1);
        lemma_replay_prefix(moves, i + 1);
        lemma_replay_prefix(moves, i);
        assert(pre.drop_last() == moves.take(i));
        let before = replay(moves.take(i)).2;
        assert(before == replies.take(i));
        lemma_turn_order(before);
        lemma_colors_prefix(replies, i);
        let c = play_colors(replies);
        assert(play_colors(before).last() == c[i]);
        assert(replay(pre).2 == replies.take(i + 1));
        assert(replies.take(i + 1)[i] == replies[i]);
        assert(replies[i] == can_move_of(replay(pre).0, replay(pre).1, opposite(c[i]) == Stone::Black));
    }
    if moves.len() > 0 && forall|i: int| 0 <= i < moves.len() - 1 ==> #[trigger] replies[i] {
        let k = moves.len() - 1;
        let first = replies.take(k);
        assert forall|i: int| 0 <= i < first.len() implies #[trigger] first[i] by {
            assert(first[i] == replies[i]);
        }
        lemma_turn_order(first);
        lemma_colors_prefix(replies, k);
        assert forall|i: int| 0 <= i < moves.len() implies #[trigger] play_colors(replies)[i]
            == if i % 2 == 0 {
            Stone::Black
        } else {
            Stone::White
        } by {
            assert(play_colors(replies)[i] == play_colors(first)[i]);
        }
    }
}

proof fn lemma_colors_prefix(replies: Seq<bool>, k: int)
    requires
        0 <= k <= replies.len(),
    ensures
        play_colors(replies.take(k)) == play_colors(replies).take(k + 1),
    decreases replies.len(),
{
    lemma_turn_order(replies);
    if k < replies.len() {
        assert(replies.drop_last().take(k) == replies.take(k));
        lemma_colors_prefix(replies.drop_last(), k);
        lemma_turn_order(replies.drop_last());
        assert(play_colors(replies).take(k + 1) == play_colors(replies.drop_last()).take(k + 1));
    } else {
        assert(replies.take(k) == replies);
    }
}

/// Replays `moves` from the opening position, Black first, and records the
/// colour of each move.
fn infer_order(moves: &Vec<Position>) -> (r: Result<OrderedGame, InferError>)
    ensures
        r is Ok <==> order_error(moves@) is None,
        r matches Err(e) ==> order_error(moves@) == Some(e),
        r matches Ok(g) ==> ordered_as_replayed(g, moves@),
{
    let mut black: u64 = START_BLACK;
    let mut white: u64 = START_WHITE;
    let mut stone = Stone::Black;
    let mut inferred: Vec<Move> = Vec::new();
    assert(START_BLACK & START_WHITE == 0) by (bit_vector);
    let mut i: usize = 0;
    while i < moves.len()
        invariant
            i <= moves@.len(),
            black & white == 0,
            ({
                let st = replay(moves@.take(i as int));
                black == st.0 && white == st.1 && stone == play_colors(st.2).last()
                    && st.2.len() == i
            }),
            order_error(moves@.take(i as int)) is None,
            inferred@.len() == i,
            forall|j: int|
                0 <= j < i ==> (#[trigger] inferred@[j]).position == moves@[j]
                    && inferred@[j].bitboard == square_mask(moves@[j]) && inferred@[j].stone
                    == play_colors(replay(moves@.take(i as int)).2)[j],
        decreases moves@.len() - i,
    {
        let ghost done = moves@.take(i as int);
        let ghost next = moves@.take(i + 1);
        assert(next.drop_last() == done);
        assert(next.last() == moves@[i as int]);
        proof {
            lemma_turn_order(replay(done).2);
        }
        let pos = moves[i];
        let bitboard = match as_bitboard(&pos) {
            Ok(b) => b,
            Err(e) => {
                proof {
                    lemma_order_error_prefix(moves@, i + 1);
                }
                return Err(e);
            },
        };
        if !is_legal(black, white, stone, pos.rank, pos.file) {
            proof {
                lemma_order_error_prefix(moves@, i + 1);
            }
            return Err(InferError::IllegalMove);
        }
        let (b, w) = play(black, white, stone, pos.rank, pos.file);
        black = b;
        white = w;
        inferred.push(Move { stone, bitboard, position: pos });
        let opponent_can_move = can_move(black, white, stone.flip());
        stone = next_stone(stone, opponent_can_move);
        proof {
            lemma_turn_order(replay(next).2);
            assert(replay(next).2 == replay(done).2.push(opponent_can_move));
            assert forall|j: int| 0 <= j <= i implies play_colors(replay(next).2)[j]
                == play_colors(replay(done).2)[j] by {
                lemma_colors_prefix(replay(next).2, i as int);
                assert(replay(next).2.take(i as int) == replay(done).2);
            }
        }
        i = i + 1;
    }
    assert(moves@.take(i as int) == moves@);
    Ok(OrderedGame { moves: inferred })
}

/// Infers which colour played each move of `game` on the eight-squared board:
/// succeeds exactly when there are at most `MAX_MOVES` moves, each on the
/// board and legal in turn, and then gives each move the colour of the replay.
pub fn infer_play_order(game: &Game) -> (r: Result<OrderedGame, InferError>)
    ensures
        game.moves@.len() > MAX_MOVES ==> r == Err::<OrderedGame, InferError>(
            InferError::InvalidMoveQuantity,
        ),
        game.moves@.len() <= MAX_MOVES ==> (r is Ok <==> order_error(game.moves@) is None),
        game.moves@.len() <= MAX_MOVES ==> (r matches Err(e) ==> order_error(game.moves@) == Some(
            e,
        )),
        r matches Ok(g) ==> ordered_as_replayed(g, game.moves@),
{
    if game.moves.len() > MAX_MOVES {
        return Err(InferError::InvalidMoveQuantity);
    }
    infer_order(&game.moves)
}

} // verus!
