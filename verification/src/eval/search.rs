//! The search for the best move: negamax with alpha-beta pruning, with
//! threefold repetition scored as a draw.

use super::check::SafetyChecks;
use super::feedback::{SearchFeedback, SilentSearchFeedback};
use super::history::{GameHistory, HashedHistory, HistoryError};
use super::iter::square;
use super::legal::{guarded_king, lemma_legal_move_safe, safe_to_try};
use super::play::both_kings;
use super::negamax::{
    first_move_reaches, lemma_first_update, lemma_root_exact, reached_at,
    best_so_far, best_value, lemma_best_final, lemma_best_update, lemma_has_legal_move, lemma_negated_window,
    lemma_upto_prefix, lemma_value_range, move_bound, move_gain, move_value, move_values, window_bound, lemma_best_value,
    negamax,
};
use super::score::{spec_neg, Branch, GameMove, GameResult, MateType, Score, WeightedMove};
use crate::board::{
    index_position, lemma_position_index, opponent, valid_position, Board, Piece, PieceType,
    Player, Position,
};
use crate::game::{stored_fn, GameState, MoveAction, MoveActionType, ZobristKeys};
use crate::text::{push_decimal, push_str_chars, string_from_chars};
use crate::rules::{
    has_king, is_attacked, king_position, legal_moves, move_keeps_king_safe, move_kind, moved_game, sq_at, GameView,
    all_legal_moves, all_legal_moves_upto,
};
use core::ops::{Add, Neg, Sub};
use vstd::prelude::*;

verus! {

/// A flag that asks a running search to stop.
pub trait HasStopSignal {
    /// Whether the flag can ever ask for a stop.
    spec fn may_stop(&self) -> bool;

    /// Whether the search should stop now.
    fn stop(&mut self) -> (stop: bool)
        ensures
            stop ==> old(self).may_stop(),
            final(self).may_stop() == old(self).may_stop(),
    ;
}

/// The flag that never asks for a stop.
impl HasStopSignal for () {
    open spec fn may_stop(&self) -> bool {
        false
    }

    fn stop(&mut self) -> (stop: bool) {
        false
    }
}

/// The score of the parent move and the alpha-beta window.
pub struct SearchScores {
    pub parent: Score,
    pub alpha: Score,
    pub beta: Score,
}

impl SearchScores {
    /// No parent score and the widest window.
    pub fn new() -> (scores: SearchScores)
        ensures
            scores.parent.0 == 0,
            scores.alpha.0 == crate::eval::score_min(),
            scores.beta.0 == crate::eval::score_max(),
    {
        SearchScores { parent: Score::from(0), alpha: Score::lowest(), beta: Score::highest() }
    }
}

/// The best branch found, if any, and whether the search was stopped.
pub struct SearchResult {
    pub branch: Option<Branch>,
    pub stopped: bool,
}

/// A move of the player to move that the rules allow.
pub open spec fn is_legal_move(g: GameView, m: MoveAction, stored: spec_fn(Option<Piece>, Option<Piece>) -> Option<Piece>) -> bool {
    &&& valid_position(m.mv.source)
    &&& sq_at(g.squares, m.mv.source) is Some
    &&& sq_at(g.squares, m.mv.source).unwrap().player == g.player
    &&& legal_moves(g, m.mv.source, stored).contains(m)
}

/// The game after a legal move.
pub open spec fn after_move(g: GameView, m: MoveAction, stored: spec_fn(Option<Piece>, Option<Piece>) -> Option<Piece>) -> GameView {
    moved_game(g, m, move_kind(g.squares, m).unwrap(), stored)
}

/// What a search `depth` plies deep, after the positions hashed in
/// `history`, says of the line it returns with first move `first` and score
/// `score`: the score is the negamax value of the game, and the first move
/// reaches it.
pub open spec fn searched_best(
    keys: Seq<u64>,
    g: GameView,
    history: Seq<(MoveAction, u64)>,
    depth: nat,
    first: MoveAction,
    score: int,
    stored: spec_fn(Option<Piece>, Option<Piece>) -> Option<Piece>,
) -> bool {
    let all = all_legal_moves(g, stored);
    let value = negamax(keys, g, history, depth, 0, stored);
    &&& value is Some
    &&& score == value.unwrap()
    &&& first_move_reaches(all, move_values(keys, g, history, all, depth, 0, stored), first, score, crate::eval::score_min(), crate::eval::score_max())
}

/// Each move of a line is legal in the game that the moves before it lead to.
pub open spec fn legal_line(g: GameView, line: Seq<WeightedMove>, stored: spec_fn(Option<Piece>, Option<Piece>) -> Option<Piece>) -> bool
    decreases line.len(),
{
    if line.len() == 0 {
        true
    } else {
        &&& is_legal_move(g, line[0].mv, stored)
        &&& legal_line(after_move(g, line[0].mv, stored), line.skip(1), stored)
    }
}

/// Some piece of the player to move has a legal move.
#[verifier::opaque]
pub open spec fn has_legal_move(g: GameView, stored: spec_fn(Option<Piece>, Option<Piece>) -> Option<Piece>) -> bool {
    exists|i: int|
        0 <= i < 64 && #[trigger] g.squares[i] is Some && g.squares[i].unwrap().player == g.player
            && legal_moves(g, index_position(i), stored).len() > 0
}

/// The player to move is in check.
pub open spec fn in_check(g: GameView) -> bool {
    is_attacked(g.squares, king_position(g.squares, g.player), g.player)
}

/// The mate of a game: none while a legal move exists; else checkmate if the
/// player to move is in check, stalemate if not.
pub open spec fn spec_mate(g: GameView, stored: spec_fn(Option<Piece>, Option<Piece>) -> Option<Piece>) -> Option<MateType> {
    if has_legal_move(g, stored) {
        None
    } else if in_check(g) {
        Some(MateType::Checkmate)
    } else {
        Some(MateType::Stalemate)
    }
}

/// A game is mated exactly when the player to move has no legal move: it
/// is checkmate when that player's king is attacked, and stalemate when it
/// is not.
pub proof fn lemma_mate_iff_no_move(g: GameView, stored: spec_fn(Option<Piece>, Option<Piece>) -> Option<Piece>)
    ensures
        spec_mate(g, stored) is None <==> all_legal_moves(g, stored).len() > 0,
        spec_mate(g, stored) == Some(MateType::Checkmate) <==>
            all_legal_moves(g, stored).len() == 0 && is_attacked(g.squares, king_position(g.squares, g.player), g.player),
        spec_mate(g, stored) == Some(MateType::Stalemate) <==>
            all_legal_moves(g, stored).len() == 0 && !is_attacked(g.squares, king_position(g.squares, g.player), g.player),
{
    super::negamax::lemma_has_legal_move(g, stored);
}

proof fn lemma_line_extend(g: GameView, w: WeightedMove, rest: Seq<WeightedMove>, stored: spec_fn(Option<Piece>, Option<Piece>) -> Option<Piece>)
    requires
        is_legal_move(g, w.mv, stored),
        legal_line(after_move(g, w.mv, stored), rest, stored),
    ensures
        legal_line(g, seq![w] + rest, stored),
{
    assert((seq![w] + rest).skip(1) =~= rest);
    assert((seq![w] + rest)[0] == w);
}

impl<B: SafetyChecks> GameState<B> {
    /// Makes a legal move and scores it: by the piece it takes, or as a
    /// draw on the third repetition, or (below the last ply) by the best
    /// answer of the other player, with the mates found there.
    #[verifier::rlimit(40)]
    fn search_child<S: HasStopSignal, F: SearchFeedback>(
        &self,
        possible_move: MoveAction,
        kp: &Position,
        local_score: Score,
        parent: Score,
        beta: Score,
        local_alpha: Score,
        current_depth: u32,
        max_depth: u32,
        history: &mut HashedHistory,
        keys: &ZobristKeys,
        stop_signal: &mut S,
        feedback: &mut F,
        searched_moves: u32,
    ) -> (result: (Option<Branch>, bool, u32))
        requires
            both_kings(self@),
            is_legal_move(self@, possible_move, stored_fn::<B>()),
            safe_to_try(self@, possible_move, *kp),
            move_keeps_king_safe(self@, possible_move, *kp, stored_fn::<B>()),
            current_depth <= max_depth,
            keys.wf(),
            old(history).wf(),
            old(history).entries().len() + (max_depth - current_depth) + 1 < usize::MAX,
            local_score.0 == move_gain(self@, possible_move),
        ensures
            final(history).wf(),
            final(history).entries() == old(history).entries(),
            result.0 matches Some(b) ==> b.moves@.len() > 0 && legal_line(self@, b.moves@, stored_fn::<B>()),
            result.0 is Some,
            result.0 matches Some(b) ==> b.moves@[0].mv == possible_move,
            !result.1 ==> move_bound(
                result.0.unwrap().score.0 as int,
                move_value(keys@, self@, old(history).entries(), possible_move, (max_depth - current_depth) as nat, parent.0 as int, stored_fn::<B>()),
                local_alpha.0 as int,
                beta.0 as int,
            ),
            result.1 ==> old(stop_signal).may_stop(),
            final(stop_signal).may_stop() == old(stop_signal).may_stop(),
        decreases max_depth - current_depth, 0nat,
    {
        let ghost stored = stored_fn::<B>();
        let ghost hist0 = history.entries();
        let ghost depth = (max_depth - current_depth) as nat;
        let ghost value = move_value(keys@, self@, hist0, possible_move, depth, parent.0 as int, stored);
        let player = self.player();
        let is_leaf_node = current_depth == max_depth;
        let mut stopped = false;
        let mut searched_moves = searched_moves;
        let mut recursive_game = match self.clone_and_move_with_checks(&possible_move, &kp) {
            Some(g) => g,
            None => {
                return (None, false, searched_moves);
            },
        };
        let ghost after = recursive_game@;
        assert(after == super::search::after_move(self@, possible_move, stored));

        // Threefold repetition
        let hash = recursive_game.hash(keys);
        assert(hash.0 == crate::game::game_hash(keys@, after));
        history.push(possible_move, hash);
        let repetition_count = history.count(&hash);
        let threefold_repetition = repetition_count >= 3;

        let mut moves: Vec<WeightedMove> = Vec::new();
        moves.push(WeightedMove { mv: possible_move, score: local_score });
        let mut branch = Branch {
            moves,
            // Negamax: negate score from previous move
            score: local_score.sub(parent),
            searched: 0,
            result: None,
        };
        proof {
            assert(legal_line(after, branch.moves@.skip(1), stored));
            lemma_line_extend(self@, branch.moves@[0], branch.moves@.skip(1), stored);
            assert(seq![branch.moves@[0]] + branch.moves@.skip(1) =~= branch.moves@);
        }

        feedback.update(current_depth, searched_moves, branch.score.value());

        // Recursion
        if threefold_repetition {
            // Enforce draw
            branch.score = Score::stalemate();
            branch.result = Some(GameResult::Draw);
        } else if !is_leaf_node && {
            proof {
                recursive_game.lemma_len();
            }
            recursive_game.has_both_kings()
        } {
            let search_result = recursive_game.get_best_move_recursive_alpha_beta(
                current_depth + 1,
                max_depth,
                // beta becomes the alpha of the other player, and viceversa
                SearchScores { parent: branch.score, alpha: beta.neg(), beta: local_alpha.neg() },
                history,
                keys,
                stop_signal,
                feedback,
            );
            stopped = search_result.stopped;
            proof {
                lemma_has_legal_move(after, stored);
            }
            match search_result.branch {
                Some(mut next_moves) => {
                    let ghost y = next_moves.score.0;
                    proof {
                        let moves = all_legal_moves(after, stored);
                        let next = hist0.push((possible_move, hash.0));
                        let best = best_value(keys@, after, next, moves, (depth - 1) as nat, branch.score.0 as int, stored);
                        lemma_best_value(keys@, after, next, moves, (depth - 1) as nat, branch.score.0 as int, stored);
                        let k = choose|k: int| 0 <= k < moves.len()
                            && #[trigger] move_value(keys@, after, next, moves[k], (depth - 1) as nat, branch.score.0 as int, stored) == best;
                        lemma_value_range(keys@, after, next, moves[k], (depth - 1) as nat, branch.score.0 as int, stored);
                        if !stopped {
                            lemma_negated_window(y, best as i32, local_alpha.0, beta.0);
                        }
                        assert(value == spec_neg(best as i32) as int);
                    }
                    let ghost first = branch.moves@[0];
                    let ghost rest = next_moves.moves@;
                    branch.moves.append(&mut next_moves.moves);
                    proof {
                        assert(branch.moves@ =~= seq![first] + rest);
                        lemma_line_extend(self@, first, rest, stored);
                    }
                    // notice the score of the child branch is negated
                    branch.score = next_moves.score.neg();
                    branch.searched = next_moves.searched;
                    branch.result = next_moves.result;
                },
                None => {
                    // check or stale mate?
                    let enemy_player_king_position = recursive_game.board().find_king(&player.opponent());
                    proof {
                        crate::eval::check::lemma_king_index_from(after.squares, opponent(player), 0);
                        lemma_position_index(crate::rules::king_index_from(after.squares, opponent(player), 0));
                    }
                    let is_check_mate = recursive_game.board().is_piece_unsafe(&enemy_player_king_position);
                    if is_check_mate {
                        branch.score = branch.score.add(Score::piece_value(PieceType::King));
                        branch.result = Some(GameResult::Win(player));
                    } else {
                        // Stalemate
                        branch.score = Score::stalemate();
                        branch.result = Some(GameResult::Draw);
                    }
                },
            }
            searched_moves = searched_moves.saturating_add(branch.searched);
        }

        let _ = history.pop();
        proof {
            assert(history.entries() =~= hist0);
        }
        (Some(branch), stopped, searched_moves)
    }

    /// Negamax with alpha-beta pruning from `current_depth` to `max_depth`
    /// plies: the best line of the player to move, scored for that player,
    /// with the moves made kept in `history`. Unless stopped, the score is
    /// the negamax value when it lies strictly inside the window of
    /// `scores`, an upper bound of it at or below alpha and a lower bound at
    /// or above beta.
    #[verifier::rlimit(100)]
    #[verifier::spinoff_prover]
    pub fn get_best_move_recursive_alpha_beta<S: HasStopSignal, F: SearchFeedback>(
        &self,
        current_depth: u32,
        max_depth: u32,
        scores: SearchScores,
        history: &mut HashedHistory,
        keys: &ZobristKeys,
        stop_signal: &mut S,
        feedback: &mut F,
    ) -> (result: SearchResult)
        requires
            both_kings(self@),
            current_depth <= max_depth,
            keys.wf(),
            old(history).wf(),
            old(history).entries().len() + (max_depth - current_depth) + 1 < usize::MAX,
        ensures
            final(history).wf(),
            final(history).entries() == old(history).entries(),
            result.branch matches Some(b) ==> b.moves@.len() > 0 && legal_line(self@, b.moves@, stored_fn::<B>()),
            result.branch is Some ==> has_legal_move(self@, stored_fn::<B>()),
            !result.stopped && result.branch is None ==> !has_legal_move(self@, stored_fn::<B>()),
            !result.stopped && result.branch is Some ==> first_move_reaches(
                all_legal_moves(self@, stored_fn::<B>()),
                move_values(keys@, self@, old(history).entries(), all_legal_moves(self@, stored_fn::<B>()), (max_depth - current_depth) as nat, scores.parent.0 as int, stored_fn::<B>()),
                result.branch.unwrap().moves@[0].mv,
                result.branch.unwrap().score.0 as int,
                scores.alpha.0 as int,
                scores.beta.0 as int,
            ),
            !result.stopped && result.branch is Some ==> window_bound(
                result.branch.unwrap().score.0 as int,
                best_value(keys@, self@, old(history).entries(), all_legal_moves(self@, stored_fn::<B>()), (max_depth - current_depth) as nat, scores.parent.0 as int, stored_fn::<B>()),
                scores.alpha.0 as int,
                scores.beta.0 as int,
            ),
            result.stopped ==> old(stop_signal).may_stop(),
            final(stop_signal).may_stop() == old(stop_signal).may_stop(),
        decreases max_depth - current_depth, 1nat,
    {
        let player = self.player();
        let board = self.board();
        let mut best_move: Option<Branch> = None;
        let mut searched_moves: u32 = 0;
        proof {
            crate::eval::check::lemma_king_index_from(self@.squares, self@.player, 0);
            lemma_position_index(crate::rules::king_index_from(self@.squares, self@.player, 0));
        }
        let king_position = board.find_king(&player);
        let mut local_alpha = scores.alpha;
        let is_leaf_node = current_depth == max_depth;
        let mut stopped = false;
        let ghost stored = stored_fn::<B>();
        let ghost hist0 = history.entries();
        let ghost depth = (max_depth - current_depth) as nat;
        let ghost all = all_legal_moves(self@, stored);
        let ghost mut seen: Seq<MoveAction> = Seq::empty();
        let ghost mut best_idx: int = 0;
        proof {
            assert(seen =~= all_legal_moves_upto(self@, 0, stored));
        }

        let mut i: usize = 0;
        'main_loop: while i < 64
            invariant_except_break
                i <= 64,
                !stopped,
                seen == all_legal_moves_upto(self@, i as int, stored),
                best_move is None ==> forall|k: int|
                    0 <= k < i && #[trigger] self@.squares[k] is Some && self@.squares[k].unwrap().player == self@.player
                        ==> legal_moves(self@, index_position(k), stored).len() == 0,
            invariant
                hist0 == old(history).entries(),
                depth == (max_depth - current_depth) as nat,
                all == all_legal_moves(self@, stored),
                seen.len() <= all.len(),
                forall|k: int| 0 <= k < seen.len() ==> #[trigger] seen[k] == all[k],
                best_move is None ==> seen.len() == 0 && local_alpha == scores.alpha,
                best_move matches Some(b) ==> local_alpha == b.score,
                !stopped ==> (best_move matches Some(b) ==> {
                    &&& 0 <= best_idx < seen.len()
                    &&& seen[best_idx] == b.moves@[0].mv
                    &&& scores.alpha.0 < b.score.0 < scores.beta.0 ==> reached_at(
                        move_values(keys@, self@, hist0, seen, depth, scores.parent.0 as int, stored),
                        best_idx,
                        b.score.0 as int,
                    )
                }),
                !stopped ==> (best_move matches Some(b) ==> best_so_far(
                    b.score.0 as int,
                    move_values(keys@, self@, hist0, seen, depth, scores.parent.0 as int, stored),
                    scores.alpha.0 as int,
                    scores.beta.0 as int,
                )),
                both_kings(self@),
                player == self@.player,
                stored == stored_fn::<B>(),
                king_position == crate::rules::king_position(self@.squares, self@.player),
                valid_position(king_position),
                keys.wf(),
                current_depth <= max_depth,
                is_leaf_node == (current_depth == max_depth),
                history.wf(),
                history.entries() == old(history).entries(),
                old(history).entries().len() + (max_depth - current_depth) + 1 < usize::MAX,
                best_move matches Some(b) ==> b.moves@.len() > 0 && legal_line(self@, b.moves@, stored),
                best_move is Some ==> has_legal_move(self@, stored),
                stop_signal.may_stop() == old(stop_signal).may_stop(),
                stopped ==> old(stop_signal).may_stop(),
            ensures
                history.wf(),
                history.entries() == old(history).entries(),
                best_move matches Some(b) ==> b.moves@.len() > 0 && legal_line(self@, b.moves@, stored),
                best_move is Some ==> has_legal_move(self@, stored),
                !stopped && best_move is None ==> forall|k: int|
                    0 <= k < 64 && #[trigger] self@.squares[k] is Some && self@.squares[k].unwrap().player == self@.player
                        ==> legal_moves(self@, index_position(k), stored).len() == 0,
                stop_signal.may_stop() == old(stop_signal).may_stop(),
                stopped ==> old(stop_signal).may_stop(),
                hist0 == old(history).entries(),
                depth == (max_depth - current_depth) as nat,
                all == all_legal_moves(self@, stored),
                seen.len() <= all.len(),
                forall|k: int| 0 <= k < seen.len() ==> #[trigger] seen[k] == all[k],
                best_move is None ==> seen.len() == 0 && local_alpha == scores.alpha,
                best_move matches Some(b) ==> local_alpha == b.score,
                !stopped ==> (best_move matches Some(b) ==> {
                    &&& 0 <= best_idx < seen.len()
                    &&& seen[best_idx] == b.moves@[0].mv
                    &&& scores.alpha.0 < b.score.0 < scores.beta.0 ==> reached_at(
                        move_values(keys@, self@, hist0, seen, depth, scores.parent.0 as int, stored),
                        best_idx,
                        b.score.0 as int,
                    )
                }),
                !stopped ==> (best_move matches Some(b) ==> best_so_far(
                    b.score.0 as int,
                    move_values(keys@, self@, hist0, seen, depth, scores.parent.0 as int, stored),
                    scores.alpha.0 as int,
                    scores.beta.0 as int,
                )),
                !stopped ==> (best_move matches Some(b) && b.score.0 < scores.beta.0 ==> seen == all),
            decreases 64 - i,
        {
            proof {
                lemma_position_index(i as int);
            }
            let position = Position { rank: i / 8, file: i % 8 };
            let ghost start_none = best_move is None;
            let owned = match square(self, &position) {
                Some(piece) => piece.player == player,
                None => false,
            };
            if owned {
                let possible_moves = self.get_possible_moves_from_game(position);
                let ghost legal = legal_moves(self@, position, stored);
                let kp = match square(self, &position) {
                    Some(piece) => if piece.piece == PieceType::King { position } else { king_position },
                    None => king_position,
                };
                assert(kp == guarded_king(self@, position));
                proof {
                    assert(all_legal_moves_upto(self@, i as int + 1, stored) == all_legal_moves_upto(self@, i as int, stored) + legal);
                    assert(seen =~= all_legal_moves_upto(self@, i as int, stored) + legal.take(0));
                }
                let mut done = false;
                let mut j: usize = 0;
                while j < possible_moves.len()
                    invariant_except_break
                        j <= possible_moves.len(),
                        best_move is None ==> j == 0,
                        !stopped,
                        !done,
                        seen == all_legal_moves_upto(self@, i as int, stored) + legal.take(j as int),
                    invariant
                hist0 == old(history).entries(),
                depth == (max_depth - current_depth) as nat,
                all == all_legal_moves(self@, stored),
                seen.len() <= all.len(),
                forall|k: int| 0 <= k < seen.len() ==> #[trigger] seen[k] == all[k],
                best_move is None ==> seen.len() == 0 && local_alpha == scores.alpha,
                best_move matches Some(b) ==> local_alpha == b.score,
                !stopped ==> (best_move matches Some(b) ==> {
                    &&& 0 <= best_idx < seen.len()
                    &&& seen[best_idx] == b.moves@[0].mv
                    &&& scores.alpha.0 < b.score.0 < scores.beta.0 ==> reached_at(
                        move_values(keys@, self@, hist0, seen, depth, scores.parent.0 as int, stored),
                        best_idx,
                        b.score.0 as int,
                    )
                }),
                !stopped ==> (best_move matches Some(b) ==> best_so_far(
                    b.score.0 as int,
                    move_values(keys@, self@, hist0, seen, depth, scores.parent.0 as int, stored),
                    scores.alpha.0 as int,
                    scores.beta.0 as int,
                )),
                        all_legal_moves_upto(self@, i as int + 1, stored) == all_legal_moves_upto(self@, i as int, stored) + legal,
                        i < 64,
                        position == index_position(i as int),
                        valid_position(position),
                        sq_at(self@.squares, position) is Some,
                        sq_at(self@.squares, position).unwrap().player == self@.player,
                        possible_moves@ == legal,
                        legal == legal_moves(self@, position, stored),
                        kp == guarded_king(self@, position),
                        best_move is None ==> start_none,
                        start_none ==> forall|k: int|
                            0 <= k < i && #[trigger] self@.squares[k] is Some && self@.squares[k].unwrap().player == self@.player
                                ==> legal_moves(self@, index_position(k), stored).len() == 0,
                        both_kings(self@),
                        player == self@.player,
                        stored == stored_fn::<B>(),
                        king_position == crate::rules::king_position(self@.squares, self@.player),
                        keys.wf(),
                        current_depth <= max_depth,
                        is_leaf_node == (current_depth == max_depth),
                        history.wf(),
                        history.entries() == old(history).entries(),
                        old(history).entries().len() + (max_depth - current_depth) + 1 < usize::MAX,
                        best_move matches Some(b) ==> b.moves@.len() > 0 && legal_line(self@, b.moves@, stored),
                        best_move is Some ==> has_legal_move(self@, stored),
                        stop_signal.may_stop() == old(stop_signal).may_stop(),
                        stopped ==> old(stop_signal).may_stop(),
                    ensures
                        history.wf(),
                        history.entries() == old(history).entries(),
                        best_move matches Some(b) ==> b.moves@.len() > 0 && legal_line(self@, b.moves@, stored),
                        best_move is Some ==> has_legal_move(self@, stored),
                        stop_signal.may_stop() == old(stop_signal).may_stop(),
                        stopped ==> old(stop_signal).may_stop(),
                        stopped ==> done,
                        done && !stopped ==> best_move is Some,
                        !done && best_move is None ==> legal.len() == 0,
                        hist0 == old(history).entries(),
                        depth == (max_depth - current_depth) as nat,
                        all == all_legal_moves(self@, stored),
                        seen.len() <= all.len(),
                        forall|k: int| 0 <= k < seen.len() ==> #[trigger] seen[k] == all[k],
                        best_move is None ==> seen.len() == 0 && local_alpha == scores.alpha,
                        best_move matches Some(b) ==> local_alpha == b.score,
                        !stopped ==> (best_move matches Some(b) ==> {
                            &&& 0 <= best_idx < seen.len()
                            &&& seen[best_idx] == b.moves@[0].mv
                            &&& scores.alpha.0 < b.score.0 < scores.beta.0 ==> reached_at(
                                move_values(keys@, self@, hist0, seen, depth, scores.parent.0 as int, stored),
                                best_idx,
                                b.score.0 as int,
                            )
                        }),
                        !stopped ==> (best_move matches Some(b) ==> best_so_far(
                            b.score.0 as int,
                            move_values(keys@, self@, hist0, seen, depth, scores.parent.0 as int, stored),
                            scores.alpha.0 as int,
                            scores.beta.0 as int,
                        )),
                        !done ==> seen == all_legal_moves_upto(self@, i as int, stored) + legal,
                        done && !stopped ==> (best_move matches Some(b) && b.score.0 >= scores.beta.0),
                    decreases possible_moves.len() - j,
                {
                    let possible_move = possible_moves[j];
                    proof {
                        assert(legal.contains(legal[j as int]));
                        lemma_legal_move_safe::<B>(self@, position, possible_move);
                        assert(self@.squares[i as int] is Some);
                    }
                    if stop_signal.stop() {
                        feedback.write_line(String::from_str("Search stopped"));
                        stopped = true;
                        done = true;
                        break;
                    }
                    let mut cutoff = false;
                    let mv = possible_move.mv;
                    searched_moves = searched_moves.saturating_add(1);

                    // Evaluate this move locally
                    let local_score = match square(self, &mv.target) {
                        Some(piece) => Score::piece_value(piece.piece),
                        None => match possible_move.move_type {
                            MoveActionType::Promotion(promotion_piece) => Score::piece_value(promotion_piece.piece_type()),
                            _ => Score::from(0),
                        },
                    };

                    let (child, child_stopped, child_searched) = self.search_child(
                        possible_move,
                        &kp,
                        local_score,
                        scores.parent,
                        scores.beta,
                        local_alpha,
                        current_depth,
                        max_depth,
                        history,
                        keys,
                        stop_signal,
                        feedback,
                        searched_moves,
                    );
                    searched_moves = child_searched;
                    stopped = child_stopped;
                    let branch = match child {
                        Some(branch) => branch,
                        None => {
                            j += 1;
                            continue;
                        },
                    };
                    let ghost best_before: Option<int> = if best_move is Some {
                        Some(best_move->0.score.0 as int)
                    } else {
                        None
                    };
                    let ghost seen_before = seen;
                    let ghost x = branch.score.0 as int;
                    let ghost a_before = local_alpha.0 as int;
                    let ghost idx_before = best_idx;
                    proof {
                        seen = seen.push(possible_move);
                        assert(seen == all_legal_moves_upto(self@, i as int, stored) + legal.take(j + 1)) by {
                            assert(legal.take(j + 1) =~= legal.take(j as int).push(legal[j as int]));
                        }
                        lemma_upto_prefix(self@, i as int + 1, stored);
                        assert forall|k: int| 0 <= k < seen.len() implies #[trigger] seen[k] == all[k] by {
                            assert(seen[k] == all_legal_moves_upto(self@, i as int + 1, stored)[k]);
                        }
                        assert(move_values(keys@, self@, hist0, seen, depth, scores.parent.0 as int, stored)
                            =~= move_values(keys@, self@, hist0, seen_before, depth, scores.parent.0 as int, stored).push(
                                move_value(keys@, self@, hist0, possible_move, depth, scores.parent.0 as int, stored)));
                    }

                    let better = match &best_move {
                        Some(current_best_move) => branch.score.0 > current_best_move.score.0
                            || (branch.score.0 == current_best_move.score.0
                                && branch.moves.len() < current_best_move.moves.len()),
                        None => true,
                    };
                    if better {
                        best_move = Some(branch);
                        proof {
                            best_idx = seen_before.len() as int;
                        }
                    }
                    proof {
                        assert(has_legal_move(self@, stored)) by {
                            reveal(has_legal_move);
                            assert(legal.len() > 0);
                        }
                    }

                    match &best_move {
                        Some(best_move_branch) => {
                            let best_move_score = best_move_branch.score;
                            // If the best move is a mate in more than one, don't cutoff the search yet,
                            // because there's a chance that the remaining moves are mates in less
                            let is_mate_in_more_than_one = best_move_score.0 >= Score::piece_value(PieceType::King).0
                                && best_move_branch.moves.len() > 1;
                            if best_move_score.0 >= scores.beta.0 && !is_mate_in_more_than_one {
                                // Fail hard beta cutoff
                                cutoff = true;
                            }
                            // This will be the beta of the next recursion
                            local_alpha = best_move_score;
                        },
                        None => {},
                    }
                    proof {
                        if !stopped {
                            lemma_first_update(
                                best_before,
                                move_values(keys@, self@, hist0, seen_before, depth, scores.parent.0 as int, stored),
                                idx_before,
                                x,
                                move_value(keys@, self@, hist0, possible_move, depth, scores.parent.0 as int, stored),
                                a_before,
                                scores.alpha.0 as int,
                                scores.beta.0 as int,
                                better,
                            );
                            assert(seen[idx_before] == seen_before[idx_before] || best_before is None);
                            assert(seen[seen_before.len() as int] == possible_move);
                            lemma_best_update(
                                best_before,
                                move_values(keys@, self@, hist0, seen_before, depth, scores.parent.0 as int, stored),
                                x,
                                move_value(keys@, self@, hist0, possible_move, depth, scores.parent.0 as int, stored),
                                a_before,
                                scores.alpha.0 as int,
                                scores.beta.0 as int,
                                better,
                            );
                        }
                    }

                    if stopped || cutoff {
                        done = true;
                        break;
                    }
                    j += 1;
                }
                if done {
                    break 'main_loop;
                }
                assert(best_move is None ==> legal_moves(self@, index_position(i as int), stored).len() == 0);
            }
            proof {
                assert(self@.squares[i as int] == sq_at(self@.squares, position));
                assert(index_position(i as int) == position);
                assert forall|k: int|
                    0 <= k < i + 1 && #[trigger] self@.squares[k] is Some && self@.squares[k].unwrap().player == self@.player
                        && best_move is None implies legal_moves(self@, index_position(k), stored).len() == 0 by {
                    if k == i {
                        assert(owned);
                    }
                }
                assert(seen == all_legal_moves_upto(self@, i as int + 1, stored)) by {
                    if !owned {
                        assert(all_legal_moves_upto(self@, i as int + 1, stored) =~= all_legal_moves_upto(self@, i as int, stored));
                    }
                }
            }
            i += 1;
        }

        proof {
            reveal(has_legal_move);
            if !stopped {
                if best_move is Some {
                    let b = best_move->0;
                    lemma_has_legal_move(self@, stored);
                    let vs = move_values(keys@, self@, hist0, seen, depth, scores.parent.0 as int, stored);
                    let va = move_values(keys@, self@, hist0, all, depth, scores.parent.0 as int, stored);
                    assert(all[best_idx] == b.moves@[0].mv);
                    if scores.alpha.0 < b.score.0 < scores.beta.0 {
                        if vs[best_idx] == b.score.0 {
                            assert(va[best_idx] == vs[best_idx]);
                        } else {
                            let j = choose|j: int| 0 <= j < best_idx && #[trigger] vs[j] == b.score.0;
                            assert(va[j] == vs[j]);
                        }
                        assert(reached_at(va, best_idx, b.score.0 as int));
                    }
                    assert(first_move_reaches(all, va, b.moves@[0].mv, b.score.0 as int, scores.alpha.0 as int, scores.beta.0 as int));
                    lemma_best_final(
                        keys@,
                        self@,
                        hist0,
                        seen,
                        all,
                        depth,
                        scores.parent.0 as int,
                        stored,
                        b.score.0 as int,
                        scores.alpha.0 as int,
                        scores.beta.0 as int,
                    );
                }
            }
        }
        match &mut best_move {
            Some(best) => {
                best.searched = searched_moves;
            },
            None => {},
        }
        SearchResult { branch: best_move, stopped }
    }

    /// The best move at depth zero: a legal move with the best immediate
    /// score, which is the branch's score; `None` exactly when there is no
    /// legal move.
    pub fn get_best_move_shallow(&self, keys: &ZobristKeys) -> (branch: Option<Branch>)
        requires
            both_kings(self@),
            keys.wf(),
        ensures
            branch is None <==> !has_legal_move(self@, stored_fn::<B>()),
            branch matches Some(b) ==> b.moves@.len() > 0 && legal_line(self@, b.moves@, stored_fn::<B>()),
            branch matches Some(b) ==> {
                let value = negamax(keys@, self@, Seq::empty(), 0, 0, stored_fn::<B>());
                &&& value is Some
                &&& b.score.0 == value.unwrap()
            },
    {
        let mut history = HashedHistory::new();
        proof {
            assert(history.entries() =~= Seq::<(MoveAction, u64)>::empty());
        }
        let result = self.get_best_move_recursive_alpha_beta(
            0,
            0,
            SearchScores::new(),
            &mut history,
            keys,
            &mut (),
            &mut SilentSearchFeedback(),
        );
        proof {
            lemma_has_legal_move(self@, stored_fn::<B>());
            if !result.stopped && result.branch is Some {
                lemma_root_exact(
                    keys@,
                    self@,
                    Seq::<(MoveAction, u64)>::empty(),
                    all_legal_moves(self@, stored_fn::<B>()),
                    0,
                    stored_fn::<B>(),
                    result.branch.unwrap().score.0 as int,
                );
            }
        }
        result.branch
    }

    /// The mate of the game: `None` while the player to move has a legal
    /// move; else checkmate if that player is in check, stalemate if not.
    pub fn is_mate(&self, keys: &ZobristKeys) -> (mate: Option<MateType>)
        requires
            both_kings(self@),
            keys.wf(),
        ensures
            mate == spec_mate(self@, stored_fn::<B>()),
    {
        if self.get_best_move_shallow(keys).is_none() {
            let board = self.board();
            proof {
                crate::eval::check::lemma_king_index_from(self@.squares, self@.player, 0);
                lemma_position_index(crate::rules::king_index_from(self@.squares, self@.player, 0));
            }
            let king_position = board.find_king(&self.player());
            return if board.is_piece_unsafe(&king_position) {
                Some(MateType::Checkmate)
            } else {
                Some(MateType::Stalemate)
            };
        }
        None
    }

    /// The best line of the player to move, searched `search_depth` plies
    /// deep, with the repetitions of the game whose moves are `history`
    /// (played from the initial position); `None` if `history` cannot be
    /// replayed, if there is no legal move, or if the search was stopped
    /// before any move was scored. Unless the search may be stopped, the
    /// line's score is the negamax value of the game (the pruning changes
    /// no score), and its first move reaches that value, or ties it with a
    /// shorter line after an earlier move that reaches it.
    pub fn get_best_move_recursive<S: HasStopSignal, F: SearchFeedback>(
        &self,
        history: &GameHistory,
        search_depth: u32,
        keys: &ZobristKeys,
        stop_signal: &mut S,
        feedback: &mut F,
    ) -> (branch: Option<Branch>)
        requires
            both_kings(self@),
            keys.wf(),
            history@.len() + search_depth + 2 < usize::MAX,
            forall|i: int| 0 <= i < history@.len() ==> valid_position(#[trigger] history@[i].mv.source) && valid_position(history@[i].mv.target),
        ensures
            branch matches Some(b) ==> b.moves@.len() > 0 && legal_line(self@, b.moves@, stored_fn::<B>()),
            super::history::replay(crate::game::initial_view(), history@) is None ==> branch is None,
            branch is Some ==> has_legal_move(self@, stored_fn::<B>()),
            !old(stop_signal).may_stop() && super::history::replay(crate::game::initial_view(), history@) is Some
                ==> (branch is None <==> !has_legal_move(self@, stored_fn::<B>())),
            !old(stop_signal).may_stop() ==> (branch matches Some(b) ==> searched_best(
                keys@,
                self@,
                super::history::replayed_entries(keys@, history@),
                search_depth as nat,
                b.moves@[0].mv,
                b.score.0 as int,
                stored_fn::<B>(),
            )),
            final(stop_signal).may_stop() == old(stop_signal).may_stop(),
    {
        let mut hashed_history = match HashedHistory::from(history, keys) {
            Ok(h) => h,
            Err(_) => {
                return None;
            },
        };
        hashed_history.reserve(search_depth as usize);
        let result = self.get_best_move_recursive_alpha_beta(
            0,
            search_depth,
            SearchScores::new(),
            &mut hashed_history,
            keys,
            stop_signal,
            feedback,
        );
        proof {
            lemma_has_legal_move(self@, stored_fn::<B>());
            if !result.stopped && result.branch is Some {
                lemma_root_exact(
                    keys@,
                    self@,
                    super::history::replayed_entries(keys@, history@),
                    all_legal_moves(self@, stored_fn::<B>()),
                    search_depth as nat,
                    stored_fn::<B>(),
                    result.branch.unwrap().score.0 as int,
                );
            }
        }
        result.branch
    }

    /// The move to play: the first move of the best line, or the mate that
    /// leaves no move; the outcome is also written to `feedback`.
    pub fn get_best_move_with_logger<S: HasStopSignal, F: SearchFeedback>(
        &self,
        history: &GameHistory,
        search_depth: u32,
        keys: &ZobristKeys,
        stop_signal: &mut S,
        feedback: &mut F,
    ) -> (best: GameMove)
        requires
            both_kings(self@),
            keys.wf(),
            history@.len() + search_depth + 2 < usize::MAX,
            forall|i: int| 0 <= i < history@.len() ==> valid_position(#[trigger] history@[i].mv.source) && valid_position(history@[i].mv.target),
        ensures
            best matches GameMove::Normal(m) ==> is_legal_move(self@, m, stored_fn::<B>()),
            best matches GameMove::Mate(t) ==> (t == MateType::Checkmate <==> in_check(self@)),
            !has_legal_move(self@, stored_fn::<B>()) ==> best is Mate,
            !old(stop_signal).may_stop() && super::history::replay(crate::game::initial_view(), history@) is Some
                ==> (best is Mate <==> !has_legal_move(self@, stored_fn::<B>())),
            !old(stop_signal).may_stop() ==> (best matches GameMove::Normal(m) ==> exists|score: int| #[trigger] searched_best(
                keys@,
                self@,
                super::history::replayed_entries(keys@, history@),
                search_depth as nat,
                m,
                score,
                stored_fn::<B>(),
            )),
    {
        let player = self.player();
        let best_branch = self.get_best_move_recursive(history, search_depth, keys, stop_signal, feedback);
        match best_branch {
            None => {
                // check or stale mate?
                proof {
                    crate::eval::check::lemma_king_index_from(self@.squares, self@.player, 0);
                    lemma_position_index(crate::rules::king_index_from(self@.squares, self@.player, 0));
                }
                let king_position = self.board().find_king(&player);
                let is_check_mate = self.board().is_piece_unsafe(&king_position);
                let mut log: Vec<char> = Vec::new();
                let enemy = if player.opponent() == Player::White { "white" } else { "black" };
                if is_check_mate {
                    push_str_chars(&mut log, "Checkmate, ");
                    push_str_chars(&mut log, enemy);
                    push_str_chars(&mut log, " wins");
                } else {
                    push_str_chars(&mut log, "Stalemate caused by ");
                    push_str_chars(&mut log, enemy);
                }
                feedback.write_line(string_from_chars(&log));
                if is_check_mate {
                    GameMove::Mate(MateType::Checkmate)
                } else {
                    GameMove::Mate(MateType::Stalemate)
                }
            },
            Some(branch) => {
                let mut log: Vec<char> = Vec::new();
                push_str_chars(&mut log, "Best branch ");
                branch.score.push_text(&mut log, true);
                push_str_chars(&mut log, " after ");
                push_decimal(&mut log, branch.searched as u64);
                push_str_chars(&mut log, ":");
                let mut branch_moves: Vec<MoveAction> = Vec::new();
                let mut k: usize = 0;
                while k < branch.moves.len()
                    invariant
                        k <= branch.moves@.len(),
                        branch_moves@.len() == k,
                    decreases branch.moves@.len() - k,
                {
                    branch_moves.push(branch.moves[k].mv);
                    k += 1;
                }
                match self.move_branch_names(&branch_moves, keys) {
                    Some(names) => {
                        let mut k: usize = 0;
                        while k < names.len() && k < branch.moves.len()
                            invariant
                                k <= names@.len(),
                            decreases names@.len() - k,
                        {
                            push_str_chars(&mut log, " ");
                            push_str_chars(&mut log, names[k].as_str());
                            branch.moves[k].score.push_text(&mut log, true);
                            k += 1;
                        }
                    },
                    None => {},
                }
                feedback.write_line(string_from_chars(&log));
                proof {
                    assert(branch.moves@.skip(0) =~= branch.moves@);
                    if !old(stop_signal).may_stop() {
                        assert(searched_best(
                            keys@,
                            self@,
                            super::history::replayed_entries(keys@, history@),
                            search_depth as nat,
                            branch.moves@[0].mv,
                            branch.score.0 as int,
                            stored_fn::<B>(),
                        ));
                    }
                }
                GameMove::Normal(branch.moves[0].mv)
            },
        }
    }
}

} // verus!
