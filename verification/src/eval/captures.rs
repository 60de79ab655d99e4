//! Which pieces can capture on each square.

use super::check::SafetyChecks;
use super::iter::{piece_into_iter, square};
use crate::board::{
    index_position, lemma_index_position, lemma_position_index, square_index, valid_position,
    Board, Position,
};
use crate::game::GameState;
use crate::rules::{piece_targets, sq_at, GameView};
use vstd::prelude::*;

verus! {

/// The squares that the piece on `p` reaches and that hold a piece.
pub open spec fn capture_targets(g: GameView, p: Position) -> Seq<Position> {
    piece_targets(g, p).filter(|t: Position| sq_at(g.squares, t) is Some)
}

/// `s` once for each time `c` occurs in `targets`.
pub open spec fn repeat_for(targets: Seq<Position>, c: Position, s: Position) -> Seq<Position>
    decreases targets.len(),
{
    if targets.len() == 0 {
        Seq::empty()
    } else {
        repeat_for(targets.drop_last(), c, s) + if targets.last() == c { seq![s] } else { Seq::empty() }
    }
}

/// The squares of the first `n` squares (in board order) whose piece
/// captures on `c`, once per way of reaching it.
pub open spec fn capture_sources(g: GameView, c: Position, n: int) -> Seq<Position>
    decreases n,
{
    if n <= 0 {
        Seq::empty()
    } else {
        let s = index_position(n - 1);
        capture_sources(g, c, n - 1) + repeat_for(capture_targets(g, s), c, s)
    }
}

impl<B: SafetyChecks> GameState<B> {
    /// The squares that the piece on a position can capture on, in the order
    /// its moves are tried.
    pub fn get_possible_captures_of_position(&self, position: &Position) -> (captures: Vec<Position>)
        requires
            valid_position(*position),
        ensures
            captures@ == capture_targets(self@, *position),
    {
        let mut captures: Vec<Position> = Vec::new();
        let ghost pred = |t: Position| sq_at(self@.squares, t) is Some;
        if let Some(square_piece) = square(self, position) {
            let targets = piece_into_iter(self, *position);
            proof {
                self.lemma_len();
                crate::rules::lemma_piece_targets_valid(self@, *position);
            }
            let mut i: usize = 0;
            while i < targets.len()
                invariant
                    i <= targets@.len(),
                    targets@ == piece_targets(self@, *position),
                    pred == (|t: Position| sq_at(self@.squares, t) is Some),
                    forall|k: int| 0 <= k < targets@.len() ==> valid_position(#[trigger] targets@[k]),
                    captures@ == targets@.take(i as int).filter(pred),
                decreases targets@.len() - i,
            {
                let possible_position = targets[i];
                proof {
                    reveal_with_fuel(Seq::<_>::filter, 1);
                    assert(targets@.take(i + 1).drop_last() =~= targets@.take(i as int));
                }
                let is_capture = square(self, &possible_position).is_some();
                if is_capture {
                    captures.push(possible_position);
                } else if !is_capture && square_piece.piece == crate::board::PieceType::Pawn
                    && crate::game::abs_diff(position.file, position.file) != 0 {
                    captures.push(Position { rank: position.rank, file: possible_position.file });
                }
                assert(captures@ =~= targets@.take(i + 1).filter(pred));
                i += 1;
            }
            assert(targets@.take(targets@.len() as int) =~= targets@);
        } else {
            assert(piece_targets(self@, *position) =~= Seq::<Position>::empty());
            assert(Seq::<Position>::empty().filter(pred) =~= Seq::<Position>::empty());
        }
        captures
    }

    /// For each square (rank by rank), the squares whose pieces can capture
    /// on it.
    pub fn get_possible_captures(&self) -> (board_captures: Vec<Vec<Position>>)
        ensures
            board_captures@.len() == 64,
            forall|p: Position| valid_position(p) ==> #[trigger] board_captures@[square_index(p)]@ == capture_sources(self@, p, 64),
    {
        let mut board_captures: Vec<Vec<Position>> = Vec::new();
        let mut k: usize = 0;
        while k < 64
            invariant
                k <= 64,
                board_captures@.len() == k,
                forall|j: int| 0 <= j < k ==> #[trigger] board_captures@[j]@.len() == 0,
            decreases 64 - k,
        {
            board_captures.push(Vec::new());
            k += 1;
        }
        proof {
            assert forall|j: int| 0 <= j < 64 implies #[trigger] board_captures@[j]@ == capture_sources(self@, index_position(j), 0) by {
                assert(board_captures@[j]@ =~= Seq::<Position>::empty());
            }
        }
        let mut s: usize = 0;
        while s < 64
            invariant
                s <= 64,
                board_captures@.len() == 64,
                forall|j: int| 0 <= j < 64 ==> #[trigger] board_captures@[j]@ == capture_sources(self@, index_position(j), s as int),
            decreases 64 - s,
        {
            proof {
                lemma_position_index(s as int);
            }
            let source_position = Position { rank: s / 8, file: s % 8 };
            let captures = self.get_possible_captures_of_position(&source_position);
            proof {
                self.lemma_len();
                crate::rules::lemma_piece_targets_valid(self@, source_position);
                crate::rules::lemma_filter_subset(piece_targets(self@, source_position), |t: Position| sq_at(self@.squares, t) is Some);
            }
            let mut i: usize = 0;
            while i < captures.len()
                invariant
                    s < 64,
                    i <= captures@.len(),
                    source_position == index_position(s as int),
                    captures@ == capture_targets(self@, source_position),
                    forall|k: int| 0 <= k < captures@.len() ==> valid_position(#[trigger] captures@[k]),
                    board_captures@.len() == 64,
                    forall|j: int| 0 <= j < 64 ==> #[trigger] board_captures@[j]@ == capture_sources(self@, index_position(j), s as int)
                        + repeat_for(captures@.take(i as int), index_position(j), source_position),
                decreases captures@.len() - i,
            {
                let capture = captures[i];
                let idx = capture.rank * 8 + capture.file;
                proof {
                    lemma_index_position(capture);
                }
                let mut cell = board_captures[idx].clone();
                cell.push(source_position);
                let ghost old_board = board_captures@;
                board_captures.set(idx, cell);
                proof {
                    assert(captures@.take(i + 1).drop_last() =~= captures@.take(i as int));
                    assert(captures@.take(i + 1).last() == capture);
                    assert forall|j: int| 0 <= j < 64 implies #[trigger] board_captures@[j]@ == capture_sources(self@, index_position(j), s as int)
                        + repeat_for(captures@.take(i + 1), index_position(j), source_position) by {
                        lemma_position_index(j);
                        let r_old = repeat_for(captures@.take(i as int), index_position(j), source_position);
                        let r_new = repeat_for(captures@.take(i + 1), index_position(j), source_position);
                        if j == idx {
                            assert(index_position(j) == capture);
                            assert(r_new == r_old + seq![source_position]);
                            assert(board_captures@[j]@ =~= old_board[j]@.push(source_position));
                        } else {
                            assert(index_position(j) != capture) by {
                                lemma_index_position(capture);
                            }
                            assert(r_new == r_old + Seq::<Position>::empty());
                            assert(board_captures@[j] == old_board[j]);
                        }
                    }
                }
                i += 1;
            }
            proof {
                assert(captures@.take(captures@.len() as int) =~= captures@);
                assert forall|j: int| 0 <= j < 64 implies #[trigger] board_captures@[j]@ == capture_sources(self@, index_position(j), s + 1) by {
                    let c = index_position(j);
                    assert(index_position(s as int) == source_position);
                    assert(capture_sources(self@, c, s + 1) == capture_sources(self@, c, s as int)
                        + repeat_for(capture_targets(self@, source_position), c, source_position));
                }
            }
            s += 1;
        }
        proof {
            assert forall|p: Position| valid_position(p) implies #[trigger] board_captures@[square_index(p)]@ == capture_sources(self@, p, 64) by {
                lemma_index_position(p);
            }
        }
        board_captures
    }
}

} // verus!
