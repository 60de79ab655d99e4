//! Legal moves: the moves of a piece that do not leave its king attacked.

use super::check::{only_empty_and_safe, SafetyChecks};
use super::iter::{piece_into_iter, square, step_from};
use crate::board::{
    board_model, index_position, lemma_position_index, valid_position, Board, Piece, PieceType,
    Player, Position,
};
use crate::game::{
    stored_fn, GameState, Move, MoveAction, MoveActionType, MoveError, PromotionPieces,
};
use crate::rules::{
    all_legal_moves, all_legal_moves_upto, all_positions, castling_allowed, castling_consistent,
    has_king, is_empty, holds_enemy, king_position, legal_moves, lemma_king_square_after_move,
    lemma_moves_to_targets, lemma_piece_targets_ok, may_promote, move_kind, move_keeps_king_safe,
    move_makeable, move_of, moved_game, moves_to_targets, piece_targets, pseudo_moves, sq_at,
    stored_keeps_owner, target_moves, target_ok, GameView,
};
use vstd::prelude::*;

verus! {

/// A game in which the player to move has a king and whose castling rights
/// are consistent: the moves of its pieces can be listed.
pub open spec fn playable(g: GameView) -> bool {
    &&& g.squares.len() == 64
    &&& has_king(g.squares, g.player)
    &&& castling_consistent(g)
}

pub proof fn lemma_stored_keeps_owner<B: Board>()
    ensures
        stored_keeps_owner(stored_fn::<B>()),
{
    assert forall|o: Option<Piece>, v: Option<Piece>| v is Some implies (#[trigger] stored_fn::<B>()(o, v)) is Some
        && stored_fn::<B>()(o, v).unwrap().player == v.unwrap().player by {
        B::lemma_stored(o, v);
    }
    assert forall|o: Option<Piece>| #[trigger] stored_fn::<B>()(o, None) is None by {
        B::lemma_stored(o, None);
    }
}

/// A move that `clone_and_move_with_checks` may try with the king on `king`.
pub open spec fn safe_to_try(g: GameView, m: MoveAction, king: Position) -> bool {
    &&& g.squares.len() == 64
    &&& valid_position(m.mv.source)
    &&& valid_position(m.mv.target)
    &&& valid_position(king)
    &&& sq_at(g.squares, king) is Some
    &&& sq_at(g.squares, king).unwrap().piece == PieceType::King
    &&& sq_at(g.squares, m.mv.source) is Some
    &&& sq_at(g.squares, m.mv.source).unwrap().player == sq_at(g.squares, king).unwrap().player
    &&& m.mv.source != king ==> sq_at(g.squares, m.mv.source).unwrap().piece != PieceType::King
    &&& target_ok(g, m.mv.source, m.mv.target)
}

impl<B: SafetyChecks> GameState<B> {
    /// A copy of the game with a move made without checks.
    pub fn clone_and_move(&self, mv: &MoveAction) -> (result: Result<GameState<B>, MoveError>)
        requires
            valid_position(mv.mv.source),
            valid_position(mv.mv.target),
            move_makeable(self@.squares, *mv),
        ensures
            result is Ok <==> move_kind(self@.squares, *mv) is Some,
            result matches Ok(g) ==> g@ == moved_game(self@, *mv, move_kind(self@.squares, *mv).unwrap(), stored_fn::<B>()),
            result matches Ok(g) ==> g.cached_hash() is None,
            result matches Err(e) ==> e == crate::game::move_error(self@.squares, *mv),
    {
        let mut new_game = self.clone();
        match new_game.do_move_no_checks(mv) {
            Ok(()) => Ok(new_game),
            Err(e) => Err(e),
        }
    }

    /// A copy of the game with a move made, if the move keeps the king on
    /// `king_position` (or the king itself, if it moves) out of attack; for
    /// castling, the king must also start out of check and pass only over
    /// empty squares that are not attacked.
    pub fn clone_and_move_with_checks(&self, move_action: &MoveAction, king_position: &Position) -> (result: Option<GameState<B>>)
        requires
            safe_to_try(self@, *move_action, *king_position),
        ensures
            result is Some <==> move_keeps_king_safe(self@, *move_action, *king_position, stored_fn::<B>()),
            result matches Some(g) ==> g@ == moved_game(self@, *move_action, move_kind(self@.squares, *move_action).unwrap(), stored_fn::<B>()),
            result matches Some(g) ==> g.cached_hash() is None,
    {
        let mv = &move_action.mv;
        let is_king = mv.source == *king_position;
        let player = square(self, king_position).unwrap().player;
        assert(move_makeable(self@.squares, move_of(mv.source, mv.target, move_action.move_type)));
        assert(move_of(mv.source, mv.target, move_action.move_type) == *move_action);

        // Before moving, check if it is a castling and it is valid
        if is_king && crate::game::abs_diff(mv.source.file, mv.target.file) == 2 {
            let can_castle = if mv.target.file == 2 {
                only_empty_and_safe(self.board(), step_from(&mv.source, 0, -1), &player).is_some()
                    && only_empty_and_safe(self.board(), step_from(&mv.source, 0, -2), &player).is_some()
            } else {
                only_empty_and_safe(self.board(), step_from(&mv.source, 0, 1), &player).is_some()
                    && only_empty_and_safe(self.board(), step_from(&mv.source, 0, 2), &player).is_some()
            };
            let castling_is_safe = can_castle && !self.board().is_piece_unsafe(king_position);
            if !castling_is_safe {
                return None;
            }
        }
        assert(castling_allowed(self@, *mv, *king_position, player));

        // Move
        let new_game = match self.clone_and_move(move_action) {
            Ok(g) => g,
            Err(_) => {
                return None;
            },
        };

        // After moving, check if the king is in check
        let current_king_position = if is_king { mv.target } else { *king_position };
        proof {
            lemma_stored_keeps_owner::<B>();
            lemma_king_square_after_move(self@, *move_action, *king_position, stored_fn::<B>());
        }
        if new_game.board().is_piece_unsafe(&current_king_position) {
            return None;
        }
        Some(new_game)
    }

    /// The moves of the piece on a position, ignoring checks: a plain move to
    /// each target, and for a pawn about to promote (for the player to move)
    /// the plain move followed by the four promotions.
    pub fn get_possible_moves_no_checks(&self, position: Position) -> (moves: Vec<MoveAction>)
        requires
            valid_position(position),
        ensures
            moves@ == pseudo_moves(self@, position),
    {
        let is_pawn = match square(self, &position) {
            Some(piece) => piece.piece == PieceType::Pawn,
            None => false,
        };
        let can_promote = is_pawn && position.rank == B::can_promote_rank(&self.player());
        assert(can_promote == may_promote(self@, position));
        let targets = piece_into_iter(self, position);
        let mut moves: Vec<MoveAction> = Vec::new();
        let mut i: usize = 0;
        while i < targets.len()
            invariant
                i <= targets.len(),
                moves@ == moves_to_targets(position, targets@.take(i as int), can_promote),
            decreases targets.len() - i,
        {
            let target = targets[i];
            let mv = Move { source: position, target };
            let ghost before = moves@;
            if can_promote {
                moves.push(MoveAction { mv, move_type: MoveActionType::Normal });
                moves.push(MoveAction { mv, move_type: MoveActionType::Promotion(PromotionPieces::Knight) });
                moves.push(MoveAction { mv, move_type: MoveActionType::Promotion(PromotionPieces::Bishop) });
                moves.push(MoveAction { mv, move_type: MoveActionType::Promotion(PromotionPieces::Rook) });
                moves.push(MoveAction { mv, move_type: MoveActionType::Promotion(PromotionPieces::Queen) });
            } else {
                moves.push(MoveAction { mv, move_type: MoveActionType::Normal });
            }
            assert(moves@ =~= before + target_moves(position, target, can_promote));
            assert(targets@.take(i + 1).drop_last() =~= targets@.take(i as int));
            i += 1;
        }
        assert(targets@.take(targets.len() as int) =~= targets@);
        moves
    }

    /// The moves of a list that keep the king on `king_position` safe.
    fn filter_king_safe(&self, pseudo: &Vec<MoveAction>, king_position: &Position) -> (moves: Vec<MoveAction>)
        requires
            forall|j: int| 0 <= j < pseudo@.len() ==> safe_to_try(self@, #[trigger] pseudo@[j], *king_position),
        ensures
            moves@ == pseudo@.filter(|m: MoveAction| move_keeps_king_safe(self@, m, *king_position, stored_fn::<B>())),
    {
        let ghost pred = |m: MoveAction| move_keeps_king_safe(self@, m, *king_position, stored_fn::<B>());
        let mut moves: Vec<MoveAction> = Vec::new();
        let mut i: usize = 0;
        while i < pseudo.len()
            invariant
                i <= pseudo.len(),
                moves@ == pseudo@.take(i as int).filter(pred),
                pred == (|m: MoveAction| move_keeps_king_safe(self@, m, *king_position, stored_fn::<B>())),
                forall|j: int| 0 <= j < pseudo@.len() ==> safe_to_try(self@, #[trigger] pseudo@[j], *king_position),
            decreases pseudo.len() - i,
        {
            let mv = pseudo[i];
            assert(safe_to_try(self@, pseudo@[i as int], *king_position));
            let keeps = self.clone_and_move_with_checks(&mv, king_position).is_some();
            if keeps {
                moves.push(mv);
            }
            proof {
                reveal_with_fuel(Seq::<_>::filter, 1);
                let next = pseudo@.take(i + 1);
                assert(next.drop_last() =~= pseudo@.take(i as int));
                assert(next.last() == mv);
                assert(moves@ =~= next.filter(pred));
            }
            i += 1;
        }
        assert(pseudo@.take(pseudo.len() as int) =~= pseudo@);
        moves
    }

    /// The legal moves of the piece on a position for the player to move.
    pub fn get_possible_moves_from_game(&self, position: Position) -> (moves: Vec<MoveAction>)
        requires
            valid_position(position),
            self@.squares.len() == 64,
            castling_consistent(self@),
            sq_at(self@.squares, position) is Some && sq_at(self@.squares, position).unwrap().piece != PieceType::King
                ==> has_king(self@.squares, self@.player) && sq_at(self@.squares, position).unwrap().player == self@.player,
        ensures
            moves@ == legal_moves(self@, position, stored_fn::<B>()),
    {
        let piece = match square(self, &position) {
            Some(piece) => piece,
            None => {
                return Vec::new();
            },
        };
        let is_king = piece.piece == PieceType::King;
        let king_position = if is_king {
            position
        } else {
            self.board().find_king(&self.player())
        };
        proof {
            if !is_king {
                crate::eval::check::lemma_king_index_from(self@.squares, self@.player, 0);
                lemma_position_index(crate::rules::king_index_from(self@.squares, self@.player, 0));
            }
        }
        let pseudo = self.get_possible_moves_no_checks(position);
        proof {
            lemma_piece_targets_ok(self@, position);
            lemma_moves_to_targets(position, piece_targets(self@, position), may_promote(self@, position));
            assert forall|j: int| 0 <= j < pseudo@.len() implies safe_to_try(self@, #[trigger] pseudo@[j], king_position) by {
                let k = choose|k: int| 0 <= k < piece_targets(self@, position).len() && piece_targets(self@, position)[k] == pseudo_moves(self@, position)[j].mv.target;
                assert(target_ok(self@, position, piece_targets(self@, position)[k]));
            }
        }
        self.filter_king_safe(&pseudo, &king_position)
    }

    /// The legal moves of all the pieces of the player to move, piece by
    /// piece in board order.
    pub fn get_all_possible_moves(&self) -> (moves: Vec<MoveAction>)
        requires
            playable(self@),
        ensures
            moves@ == all_legal_moves(self@, stored_fn::<B>()),
    {
        let player = self.player();
        let mut moves: Vec<MoveAction> = Vec::new();
        let mut i: usize = 0;
        while i < 64
            invariant
                i <= 64,
                playable(self@),
                player == self@.player,
                moves@ == all_legal_moves_upto(self@, i as int, stored_fn::<B>()),
            decreases 64 - i,
        {
            let position = Position { rank: i / 8, file: i % 8 };
            proof {
                lemma_position_index(i as int);
            }
            match square(self, &position) {
                Some(piece) => {
                    if piece.player == player {
                        let piece_moves = self.get_possible_moves_from_game(position);
                        let ghost before = moves@;
                        let mut j: usize = 0;
                        while j < piece_moves.len()
                            invariant
                                j <= piece_moves.len(),
                                moves@ == before + piece_moves@.take(j as int),
                            decreases piece_moves.len() - j,
                        {
                            moves.push(piece_moves[j]);
                            j += 1;
                            assert(moves@ =~= before + piece_moves@.take(j as int));
                        }
                        assert(piece_moves@.take(piece_moves.len() as int) =~= piece_moves@);
                    } else {
                        assert(moves@ =~= moves@ + Seq::<MoveAction>::empty());
                    }
                },
                None => {
                    assert(moves@ =~= moves@ + Seq::<MoveAction>::empty());
                },
            }
            assert(index_position(i as int) == position);
            assert(moves@ == all_legal_moves_upto(self@, (i + 1) as int, stored_fn::<B>()));
            i += 1;
        }
        moves
    }
}

/// The king whose safety decides the legal moves of the piece on `p`: the
/// piece itself if it is a king, else the first king of the player to move.
pub open spec fn guarded_king(g: GameView, p: Position) -> Position {
    if sq_at(g.squares, p) is Some && sq_at(g.squares, p).unwrap().piece == PieceType::King {
        p
    } else {
        king_position(g.squares, g.player)
    }
}

/// A legal move can be tried safely and keeps its king out of attack.
pub proof fn lemma_legal_move_safe<B: Board>(g: GameView, p: Position, m: MoveAction)
    requires
        valid_position(p),
        g.squares.len() == 64,
        sq_at(g.squares, p) is Some,
        sq_at(g.squares, p).unwrap().player == g.player,
        has_king(g.squares, g.player),
        castling_consistent(g),
        legal_moves(g, p, stored_fn::<B>()).contains(m),
    ensures
        safe_to_try(g, m, guarded_king(g, p)),
        move_keeps_king_safe(g, m, guarded_king(g, p), stored_fn::<B>()),
        m.mv.source == p,
{
    let king = guarded_king(g, p);
    crate::eval::check::lemma_king_index_from(g.squares, g.player, 0);
    lemma_position_index(crate::rules::king_index_from(g.squares, g.player, 0));
    let pred = |x: MoveAction| move_keeps_king_safe(g, x, king, stored_fn::<B>());
    let pseudo = pseudo_moves(g, p);
    assert(legal_moves(g, p, stored_fn::<B>()) == pseudo.filter(pred));
    crate::rules::lemma_filter_subset(pseudo, pred);
    let i = choose|i: int| 0 <= i < pseudo.filter(pred).len() && pseudo.filter(pred)[i] == m;
    pseudo.lemma_filter_pred(pred, i);
    assert(pseudo.contains(pseudo.filter(pred)[i]));
    lemma_piece_targets_ok(g, p);
    lemma_moves_to_targets(p, piece_targets(g, p), may_promote(g, p));
    let j = choose|j: int| 0 <= j < pseudo.len() && pseudo[j] == m;
    let k = choose|k: int| 0 <= k < piece_targets(g, p).len() && piece_targets(g, p)[k] == pseudo[j].mv.target;
    assert(target_ok(g, p, piece_targets(g, p)[k]));
}

/// A move keeps the board at 64 squares.
pub proof fn lemma_moved_len(g: GameView, action: MoveAction, stored: spec_fn(Option<Piece>, Option<Piece>) -> Option<Piece>)
    requires
        g.squares.len() == 64,
        valid_position(action.mv.source),
        valid_position(action.mv.target),
        move_kind(g.squares, action) is Some,
        move_makeable(g.squares, action),
    ensures
        moved_game(g, action, move_kind(g.squares, action).unwrap(), stored).squares.len() == 64,
{
    crate::board::lemma_index_position(action.mv.source);
    crate::board::lemma_index_position(action.mv.target);
    let kind = move_kind(g.squares, action).unwrap();
    match kind {
        crate::game::MoveExtraInfo::EnPassant => {
            let piece = sq_at(g.squares, action.mv.source).unwrap();
            let behind = crate::rules::step(action.mv.target, -(crate::board::spec_pawn_direction(piece.player) as int), 0).unwrap();
            crate::board::lemma_index_position(behind);
        },
        crate::game::MoveExtraInfo::CastleKingside => {
            crate::board::lemma_index_position(crate::rules::step(action.mv.source, 0, 3).unwrap());
            crate::board::lemma_index_position(crate::rules::step(action.mv.source, 0, 1).unwrap());
        },
        crate::game::MoveExtraInfo::CastleQueenside => {
            crate::board::lemma_index_position(crate::rules::step(action.mv.source, 0, -4).unwrap());
            crate::board::lemma_index_position(crate::rules::step(action.mv.source, 0, -1).unwrap());
        },
        _ => {},
    }
}

} // verus!
