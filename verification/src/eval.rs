//! Move generation with legality checks, evaluation and search.

mod captures;
mod check;
mod feedback;
mod history;
mod iter;
mod kings;
mod legal;
mod negamax;
mod names;
mod play;
mod score;
mod search;

pub use captures::{capture_sources, capture_targets};
pub use check::{enemy, find_player_king, one_king, only_empty_and_safe, only_enemy, piece_is_unsafe, player_in_check, SafetyChecks};
pub use feedback::{
    EngineFeedback, EngineFeedbackMessage, EngineInfoMessage, EngineMessage, PeriodicalSearchFeedback, SearchFeedback,
    SearchMove, SearchNodeFeedback, SearchTreeFeedback, SilentSearchFeedback,
};
pub use history::{count_hash, lemma_push_pop, play_move, replay, replayed_entries, GameHistory, HashedHistory, HistoryError};
pub use iter::{only_en_passant, piece_into_iter, square};
pub use legal::playable;
pub use names::{
    ambiguous, check_sign_with, disambiguation, is_capture, is_castling, is_en_passant, letter_seq, name_body,
    name_step_ok, needs_promotion, piece_letter, rival_at, rival_in_file, rival_in_rank, spec_move_name, MoveNameError,
};
pub use negamax::{
    best_so_far, best_value, first_move_reaches, reached_at, lemma_best_value, lemma_has_legal_move, lemma_negated_window, mate_value, move_bound, move_gain,
    move_value, move_values, negamax, window_bound,
};
pub use kings::{capture_attacked, lemma_legal_move_keeps_kings, lemma_piece_captures, passed_pawn_stands};
pub use play::{both_kings, lemma_generated_moves_allowed, lemma_initial_both_kings, move_allowed, owner_legal_moves};
pub use search::{
    after_move, has_legal_move, in_check, is_legal_move, legal_line, searched_best, spec_mate, HasStopSignal, SearchResult,
    SearchScores,
};
pub use score::{
    lemma_neg_neg, saturate, score_max, score_min, spec_neg, spec_piece_value, spec_stalemate, Branch, GameMove,
    GameResult, MateType, Score, WeightedMove,
};
