//! The negamax value of a position: what the alpha-beta search computes,
//! stated without its pruning.

use super::history::count_hash;
use super::play::both_kings;
use super::score::{saturate, score_max, score_min, spec_neg, spec_piece_value, spec_stalemate};
use super::search::{after_move, has_legal_move};
use crate::board::{opponent, Piece, PieceType, Player};
use crate::game::{game_hash, promoted_type, MoveAction, MoveActionType, PromotionPieces};
use crate::rules::{all_legal_moves, all_legal_moves_upto, is_attacked, king_position, legal_moves, sq_at, GameView};
use crate::board::{index_position, lemma_position_index};
use vstd::prelude::*;

verus! {

/// The immediate gain of a move: the value of the piece it takes, or of the
/// piece a pawn promotes to, or nothing.
pub open spec fn move_gain(g: GameView, m: MoveAction) -> int {
    match sq_at(g.squares, m.mv.target) {
        Some(piece) => spec_piece_value(piece.piece),
        None => match m.move_type {
            MoveActionType::Promotion(p) => spec_piece_value(promoted_type(p)),
            _ => 0,
        },
    }
}

/// The immediate gain of a move is the value of the piece on its target (a
/// pawn 100, a knight or a bishop 300, a rook 500, a queen 900, a king the
/// highest score) or, onto an empty square, of the piece a pawn promotes
/// to; any other move onto an empty square gains nothing. At the last ply
/// of a search with no positions behind it, a move scores its gain.
pub proof fn lemma_move_gain(
    keys: Seq<u64>,
    g: GameView,
    m: MoveAction,
    stored: spec_fn(Option<Piece>, Option<Piece>) -> Option<Piece>,
)
    ensures
        sq_at(g.squares, m.mv.target) matches Some(p) ==> move_gain(g, m) == match p.piece {
            PieceType::Pawn => 100,
            PieceType::Knight => 300,
            PieceType::Bishop => 300,
            PieceType::Rook => 500,
            PieceType::Queen => 900,
            PieceType::King => 2147483647int,
        },
        sq_at(g.squares, m.mv.target) is None ==> move_gain(g, m) == match m.move_type {
            MoveActionType::Promotion(PromotionPieces::Queen) => 900int,
            MoveActionType::Promotion(PromotionPieces::Rook) => 500,
            MoveActionType::Promotion(PromotionPieces::Bishop) => 300,
            MoveActionType::Promotion(PromotionPieces::Knight) => 300,
            MoveActionType::Normal => 0,
        },
        move_value(keys, g, Seq::empty(), m, 0, 0, stored) == move_gain(g, m),
{
    let after = after_move(g, m, stored);
    let hash = game_hash(keys, after);
    let next = Seq::<(MoveAction, u64)>::empty().push((m, hash));
    assert(next.drop_last() =~= Seq::<(MoveAction, u64)>::empty());
    assert(count_hash(next, hash) == 1) by {
        reveal_with_fuel(count_hash, 2);
    }
}

/// The negamax score of a move for the player who makes it, `depth` more
/// plies deep, after the positions hashed in `history`: its gain over the
/// score of the move before (`parent`); a draw when the position it reaches
/// comes for the third time; below the last ply (and where a king is
/// missing) the gain; else the negated value of the reply, or a mate or a
/// stalemate when no reply is legal.
pub open spec fn move_value(
    keys: Seq<u64>,
    g: GameView,
    history: Seq<(MoveAction, u64)>,
    m: MoveAction,
    depth: nat,
    parent: int,
    stored: spec_fn(Option<Piece>, Option<Piece>) -> Option<Piece>,
) -> int
    decreases depth, 0nat, 0nat,
{
    let after = after_move(g, m, stored);
    let hash = game_hash(keys, after);
    let own = saturate(move_gain(g, m) - parent) as int;
    let next = history.push((m, hash));
    if count_hash(next, hash) >= 3 {
        spec_stalemate()
    } else if depth == 0 || !both_kings(after) {
        own
    } else if all_legal_moves(after, stored).len() == 0 {
        mate_value(g.player, after, own)
    } else {
        let reply = best_value(keys, after, next, all_legal_moves(after, stored), (depth - 1) as nat, own, stored);
        spec_neg(saturate(reply)) as int
    }
}

/// The score of a move that leaves the other player no legal move: a win
/// worth a king if it gives check, else a stalemate.
pub open spec fn mate_value(player: Player, after: GameView, own: int) -> int {
    let enemy = opponent(player);
    if is_attacked(after.squares, king_position(after.squares, enemy), enemy) {
        saturate(own + spec_piece_value(PieceType::King)) as int
    } else {
        spec_stalemate()
    }
}

/// The best of the negamax scores of some moves (of at least one).
pub open spec fn best_value(
    keys: Seq<u64>,
    g: GameView,
    history: Seq<(MoveAction, u64)>,
    moves: Seq<MoveAction>,
    depth: nat,
    parent: int,
    stored: spec_fn(Option<Piece>, Option<Piece>) -> Option<Piece>,
) -> int
    decreases depth, 1nat, moves.len(),
{
    if moves.len() <= 1 {
        move_value(keys, g, history, moves[0], depth, parent, stored)
    } else {
        let rest = best_value(keys, g, history, moves.drop_last(), depth, parent, stored);
        let last = move_value(keys, g, history, moves.last(), depth, parent, stored);
        if last > rest { last } else { rest }
    }
}

/// The negamax value of a game for the player to move, `depth` plies below
/// its moves: the best score of its legal moves, or `None` without one.
pub open spec fn negamax(
    keys: Seq<u64>,
    g: GameView,
    history: Seq<(MoveAction, u64)>,
    depth: nat,
    parent: int,
    stored: spec_fn(Option<Piece>, Option<Piece>) -> Option<Piece>,
) -> Option<int> {
    let moves = all_legal_moves(g, stored);
    if moves.len() == 0 {
        None
    } else {
        Some(best_value(keys, g, history, moves, depth, parent, stored))
    }
}

/// What the score `v` of a search with the window (`alpha`, `beta`) tells
/// of the value `m` of its position: an upper bound at or below `alpha`, a
/// lower bound at or above `beta`, the value itself in between.
pub open spec fn window_bound(v: int, m: int, alpha: int, beta: int) -> bool {
    &&& (v < beta && v <= alpha ==> m <= v)
    &&& (v > alpha && v >= beta ==> m >= v)
    &&& (alpha < v && v < beta ==> m == v)
}

/// What the score `x` of a move tells of its value `m`, searched with the
/// window (`alpha`, `beta`) of the position it is made in.
pub open spec fn move_bound(x: int, m: int, alpha: int, beta: int) -> bool {
    &&& (x < beta ==> m <= x)
    &&& (x < beta && x > alpha ==> m == x)
    &&& (x >= beta && x > alpha ==> m >= x)
}

/// The reply's bound, negated, bounds the move.
pub proof fn lemma_negated_window(y: i32, mc: i32, alpha: i32, beta: i32)
    requires
        window_bound(y as int, mc as int, spec_neg(beta) as int, spec_neg(alpha) as int),
    ensures
        move_bound(spec_neg(y) as int, spec_neg(mc) as int, alpha as int, beta as int),
{
}

/// The best of some moves' scores is one of them and no lower than any.
pub proof fn lemma_best_value(
    keys: Seq<u64>,
    g: GameView,
    history: Seq<(MoveAction, u64)>,
    moves: Seq<MoveAction>,
    depth: nat,
    parent: int,
    stored: spec_fn(Option<Piece>, Option<Piece>) -> Option<Piece>,
)
    requires
        moves.len() > 0,
    ensures
        forall|k: int| 0 <= k < moves.len() ==>
            #[trigger] move_value(keys, g, history, moves[k], depth, parent, stored) <= best_value(keys, g, history, moves, depth, parent, stored),
        exists|k: int| 0 <= k < moves.len() &&
            #[trigger] move_value(keys, g, history, moves[k], depth, parent, stored) == best_value(keys, g, history, moves, depth, parent, stored),
    decreases moves.len(),
{
    if moves.len() > 1 {
        let rest = moves.drop_last();
        lemma_best_value(keys, g, history, rest, depth, parent, stored);
        assert forall|k: int| 0 <= k < moves.len() implies
            #[trigger] move_value(keys, g, history, moves[k], depth, parent, stored) <= best_value(keys, g, history, moves, depth, parent, stored) by {
            if k < rest.len() {
                assert(moves[k] == rest[k]);
            }
        }
        let k = choose|k: int| 0 <= k < rest.len() &&
            #[trigger] move_value(keys, g, history, rest[k], depth, parent, stored) == best_value(keys, g, history, rest, depth, parent, stored);
        assert(moves[k] == rest[k]);
        let n = moves.len() - 1;
        assert(moves[n] == moves.last());
        if move_value(keys, g, history, moves[n], depth, parent, stored) > best_value(keys, g, history, rest, depth, parent, stored) {
            assert(move_value(keys, g, history, moves[n], depth, parent, stored) == best_value(keys, g, history, moves, depth, parent, stored));
        } else {
            assert(move_value(keys, g, history, moves[k], depth, parent, stored) == best_value(keys, g, history, moves, depth, parent, stored));
        }
    } else {
        assert(move_value(keys, g, history, moves[0], depth, parent, stored) == best_value(keys, g, history, moves, depth, parent, stored));
    }
}

/// At the last ply of a search with no positions behind it (the shallow
/// search), the value of a game is the largest immediate gain of its legal
/// moves: no legal move gains more, and one gains that much.
pub proof fn lemma_shallow_value(
    keys: Seq<u64>,
    g: GameView,
    stored: spec_fn(Option<Piece>, Option<Piece>) -> Option<Piece>,
)
    requires
        all_legal_moves(g, stored).len() > 0,
    ensures
        negamax(keys, g, Seq::empty(), 0, 0, stored) is Some,
        forall|k: int| 0 <= k < all_legal_moves(g, stored).len() ==>
            #[trigger] move_gain(g, all_legal_moves(g, stored)[k]) <= negamax(keys, g, Seq::empty(), 0, 0, stored).unwrap(),
        exists|k: int| 0 <= k < all_legal_moves(g, stored).len() &&
            #[trigger] move_gain(g, all_legal_moves(g, stored)[k]) == negamax(keys, g, Seq::empty(), 0, 0, stored).unwrap(),
{
    let moves = all_legal_moves(g, stored);
    let h = Seq::<(MoveAction, u64)>::empty();
    lemma_best_value(keys, g, h, moves, 0, 0, stored);
    assert forall|k: int| 0 <= k < moves.len() implies
        #[trigger] move_gain(g, moves[k]) <= negamax(keys, g, h, 0, 0, stored).unwrap() by {
        lemma_move_gain(keys, g, moves[k], stored);
        assert(move_value(keys, g, h, moves[k], 0, 0, stored) <= best_value(keys, g, h, moves, 0, 0, stored));
    }
    let k = choose|k: int| 0 <= k < moves.len() &&
        #[trigger] move_value(keys, g, h, moves[k], 0, 0, stored) == best_value(keys, g, h, moves, 0, 0, stored);
    lemma_move_gain(keys, g, moves[k], stored);
    assert(move_gain(g, moves[k]) == negamax(keys, g, h, 0, 0, stored).unwrap());
}

/// A move that leaves the other player no legal move, searched at least a
/// ply deep and not repeating a position for the third time, wins the
/// highest score when it gives check (and gains at least what the move
/// before gained), and is a stalemate, worse than losing a queen, when it
/// does not. A move that reaches a position for the third time is a draw
/// scored as a stalemate.
pub proof fn lemma_mate_scores(
    keys: Seq<u64>,
    g: GameView,
    history: Seq<(MoveAction, u64)>,
    m: MoveAction,
    depth: nat,
    parent: int,
    stored: spec_fn(Option<Piece>, Option<Piece>) -> Option<Piece>,
)
    requires
        -2147483647 <= parent <= 2147483647,
    ensures
        ({
            let after = after_move(g, m, stored);
            let hash = game_hash(keys, after);
            let value = move_value(keys, g, history, m, depth, parent, stored);
            &&& count_hash(history.push((m, hash)), hash) >= 3 ==> value == spec_stalemate()
            &&& (count_hash(history.push((m, hash)), hash) < 3 && depth > 0 && both_kings(after)
                && all_legal_moves(after, stored).len() == 0) ==> {
                let enemy = opponent(g.player);
                let checked = is_attacked(after.squares, king_position(after.squares, enemy), enemy);
                &&& (checked && parent <= move_gain(g, m)) ==> value == 2147483647
                &&& !checked ==> value == spec_stalemate() && value < -900
            }
        }),
{
}

/// What the best score `v` of the moves searched so far, whose values are
/// `values`, tells of them under the window (`alpha`, `beta`): below `beta`
/// no value exceeds it, and above `alpha` one of them is worth it (at least
/// it, from `beta` on).
pub open spec fn best_so_far(v: int, values: Seq<int>, alpha: int, beta: int) -> bool {
    &&& (v < beta ==> forall|k: int| 0 <= k < values.len() ==> #[trigger] values[k] <= v)
    &&& (v > alpha ==> exists|k: int| 0 <= k < values.len()
        && (v < beta ==> #[trigger] values[k] == v) && (v >= beta ==> values[k] >= v))
}

/// Searching one more move keeps `best_so_far`: the move's score `x` (with
/// `a` the best score before it, or `alpha` for the first move) bounds its
/// value `m`, and the best score becomes `x` when it is no lower.
pub proof fn lemma_best_update(best: Option<int>, values: Seq<int>, x: int, m: int, a: int, alpha: int, beta: int, replaced: bool)
    requires
        best matches Some(v) ==> best_so_far(v, values, alpha, beta) && a == v,
        best is None ==> values.len() == 0 && a == alpha,
        move_bound(x, m, a, beta),
        replaced ==> (best matches Some(v) ==> x >= v),
        !replaced ==> (best matches Some(v) && x <= v),
    ensures
        best_so_far(if replaced { x } else { best.unwrap() }, values.push(m), alpha, beta),
{
    let vals = values.push(m);
    let n = values.len() as int;
    assert(vals[n] == m);
    assert forall|k: int| 0 <= k < values.len() implies #[trigger] vals[k] == values[k] by {}
    let v = if replaced { x } else { best.unwrap() };
    if v > alpha {
        match best {
            Some(old) => {
                if v == old && old > alpha {
                    let k = choose|k: int| 0 <= k < values.len()
                        && (old < beta ==> #[trigger] values[k] == old) && (old >= beta ==> values[k] >= old);
                    assert(vals[k] == values[k]);
                } else {
                    assert(replaced && x > a);
                }
            },
            None => {},
        }
    }
}

/// The values of moves.
pub open spec fn move_values(
    keys: Seq<u64>,
    g: GameView,
    history: Seq<(MoveAction, u64)>,
    moves: Seq<MoveAction>,
    depth: nat,
    parent: int,
    stored: spec_fn(Option<Piece>, Option<Piece>) -> Option<Piece>,
) -> Seq<int> {
    moves.map_values(|m: MoveAction| move_value(keys, g, history, m, depth, parent, stored))
}

/// Once a prefix of the moves is searched (all of them unless the best
/// score reached `beta`), the best score bounds their best value as the
/// window says.
pub proof fn lemma_best_final(
    keys: Seq<u64>,
    g: GameView,
    history: Seq<(MoveAction, u64)>,
    seen: Seq<MoveAction>,
    moves: Seq<MoveAction>,
    depth: nat,
    parent: int,
    stored: spec_fn(Option<Piece>, Option<Piece>) -> Option<Piece>,
    v: int,
    alpha: int,
    beta: int,
)
    requires
        moves.len() > 0,
        seen.len() <= moves.len(),
        forall|k: int| 0 <= k < seen.len() ==> seen[k] == moves[k],
        v < beta ==> seen.len() == moves.len(),
        best_so_far(v, move_values(keys, g, history, seen, depth, parent, stored), alpha, beta),
    ensures
        window_bound(v, best_value(keys, g, history, moves, depth, parent, stored), alpha, beta),
{
    let vals = move_values(keys, g, history, seen, depth, parent, stored);
    let best = best_value(keys, g, history, moves, depth, parent, stored);
    lemma_best_value(keys, g, history, moves, depth, parent, stored);
    if v < beta {
        let k = choose|k: int| 0 <= k < moves.len() && #[trigger] move_value(keys, g, history, moves[k], depth, parent, stored) == best;
        assert(vals[k] == move_value(keys, g, history, seen[k], depth, parent, stored));
        assert(vals[k] <= v);
    }
    if v > alpha {
        let k = choose|k: int| 0 <= k < vals.len() && (v < beta ==> #[trigger] vals[k] == v) && (v >= beta ==> vals[k] >= v);
        assert(vals[k] == move_value(keys, g, history, moves[k], depth, parent, stored));
    }
}

/// The legal moves listed up to a square start the list of all of them.
pub proof fn lemma_upto_prefix(g: GameView, n: int, stored: spec_fn(Option<Piece>, Option<Piece>) -> Option<Piece>)
    requires
        0 <= n <= 64,
    ensures
        all_legal_moves_upto(g, n, stored).len() <= all_legal_moves(g, stored).len(),
        forall|k: int| 0 <= k < all_legal_moves_upto(g, n, stored).len() ==>
            #[trigger] all_legal_moves_upto(g, n, stored)[k] == all_legal_moves(g, stored)[k],
    decreases 64 - n,
{
    if n < 64 {
        lemma_upto_prefix(g, n + 1, stored);
        let a = all_legal_moves_upto(g, n, stored);
        let b = all_legal_moves_upto(g, n + 1, stored);
        assert forall|k: int| 0 <= k < a.len() implies #[trigger] a[k] == all_legal_moves(g, stored)[k] by {
            assert(b[k] == a[k]);
        }
    }
}

/// No legal move is listed up to a square exactly when no piece of the
/// player to move before it has one.
proof fn lemma_upto_empty(g: GameView, n: int, stored: spec_fn(Option<Piece>, Option<Piece>) -> Option<Piece>)
    requires
        0 <= n <= 64,
    ensures
        all_legal_moves_upto(g, n, stored).len() == 0 <==> forall|i: int|
            0 <= i < n && #[trigger] g.squares[i] is Some && g.squares[i].unwrap().player == g.player
                ==> legal_moves(g, index_position(i), stored).len() == 0,
    decreases n,
{
    if n > 0 {
        lemma_upto_empty(g, n - 1, stored);
        lemma_position_index(n - 1);
        assert(sq_at(g.squares, index_position(n - 1)) == g.squares[n - 1]);
    }
}

/// The player to move has a legal move exactly when `all_legal_moves` lists
/// one.
pub proof fn lemma_has_legal_move(g: GameView, stored: spec_fn(Option<Piece>, Option<Piece>) -> Option<Piece>)
    ensures
        has_legal_move(g, stored) <==> all_legal_moves(g, stored).len() > 0,
{
    reveal(has_legal_move);
    lemma_upto_empty(g, 64, stored);
}

/// Scores stay in the range of `i32`.
pub proof fn lemma_value_range(
    keys: Seq<u64>,
    g: GameView,
    history: Seq<(MoveAction, u64)>,
    m: MoveAction,
    depth: nat,
    parent: int,
    stored: spec_fn(Option<Piece>, Option<Piece>) -> Option<Piece>,
)
    ensures
        i32::MIN <= move_value(keys, g, history, m, depth, parent, stored) <= i32::MAX,
{
}

/// The value at index `i` is `v`, or an earlier value is.
pub open spec fn reached_at(values: Seq<int>, i: int, v: int) -> bool {
    ||| values[i] == v
    ||| exists|j: int| 0 <= j < i && #[trigger] values[j] == v
}

/// Searching one more move keeps track of the best line's first move (at
/// index `i` of the moves searched): inside the window its value is the
/// best score, or an earlier move's is (the line then tied that score with
/// fewer moves).
pub proof fn lemma_first_update(best: Option<int>, values: Seq<int>, i: int, x: int, m: int, a: int, alpha: int, beta: int, replaced: bool)
    requires
        best matches Some(v) ==> a == v && 0 <= i < values.len() && (alpha < v < beta ==> reached_at(values, i, v)),
        best is None ==> a == alpha,
        move_bound(x, m, a, beta),
        replaced ==> (best matches Some(v) ==> x >= v),
        !replaced ==> (best matches Some(v) && x <= v),
    ensures
        ({
            let v2 = if replaced { x } else { best.unwrap() };
            let i2 = if replaced { values.len() as int } else { i };
            &&& 0 <= i2 < values.len() + 1
            &&& alpha < v2 < beta ==> reached_at(values.push(m), i2, v2)
        }),
{
    let vals = values.push(m);
    let n = values.len() as int;
    assert(vals[n] == m);
    if replaced {
        if alpha < x < beta {
            match best {
                Some(v) => {
                    if x == v {
                        if values[i] == v {
                            assert(vals[i] == v);
                        } else {
                            let j = choose|j: int| 0 <= j < i && #[trigger] values[j] == v;
                            assert(vals[j] == values[j]);
                        }
                    }
                },
                None => {},
            }
        }
    } else {
        let v = best.unwrap();
        if alpha < v < beta {
            if values[i] == v {
                assert(vals[i] == values[i]);
            } else {
                let j = choose|j: int| 0 <= j < i && #[trigger] values[j] == v;
                assert(vals[j] == values[j]);
            }
        }
    }
}

/// The first move of the best line is one of `moves` and, when the score
/// `v` lies strictly inside the window, reaches it: its value is `v`, or the
/// value of a move listed before it is (the line then tied that score with
/// fewer moves, and the search prefers the shorter line).
pub open spec fn first_move_reaches(moves: Seq<MoveAction>, values: Seq<int>, first: MoveAction, v: int, alpha: int, beta: int) -> bool {
    exists|i: int| 0 <= i < moves.len() && #[trigger] moves[i] == first && (alpha < v < beta ==> reached_at(values, i, v))
}

/// Below a move scored from a parent score of at most zero, as at the root
/// of a search, no move is worth less than the lowest score.
pub proof fn lemma_root_value_floor(
    keys: Seq<u64>,
    g: GameView,
    history: Seq<(MoveAction, u64)>,
    m: MoveAction,
    depth: nat,
    parent: int,
    stored: spec_fn(Option<Piece>, Option<Piece>) -> Option<Piece>,
)
    requires
        parent <= 0,
    ensures
        score_min() <= move_value(keys, g, history, m, depth, parent, stored) <= i32::MAX,
{
}

/// At the root of a search (parent score zero) the best value lies within
/// the range of scores, so the widest window gives it exactly.
pub proof fn lemma_root_exact(
    keys: Seq<u64>,
    g: GameView,
    history: Seq<(MoveAction, u64)>,
    moves: Seq<MoveAction>,
    depth: nat,
    stored: spec_fn(Option<Piece>, Option<Piece>) -> Option<Piece>,
    v: int,
)
    requires
        moves.len() > 0,
        window_bound(v, best_value(keys, g, history, moves, depth, 0, stored), score_min(), score_max()),
    ensures
        v == best_value(keys, g, history, moves, depth, 0, stored),
{
    lemma_best_value(keys, g, history, moves, depth, 0, stored);
    let k = choose|k: int| 0 <= k < moves.len()
        && #[trigger] move_value(keys, g, history, moves[k], depth, 0, stored) == best_value(keys, g, history, moves, depth, 0, stored);
    lemma_root_value_floor(keys, g, history, moves[k], depth, 0, stored);
}

} // verus!
