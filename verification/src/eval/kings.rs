//! Captures and kings: every capture the rules allow is of an attacked
//! piece, so in a position where the player not to move is not in check a
//! legal move never takes a king.

use crate::board::{
    index_position, lemma_index_position, lemma_position_index, opponent, square_index, valid_position, Piece, PieceType,
    Player, Position,
};
use crate::board::Board;
use crate::game::{promoted_type, stored_fn, MoveAction, MoveExtraInfo, MoveInfo};
use super::legal::{guarded_king, lemma_legal_move_safe, safe_to_try};
use super::play::{both_kings, lemma_upto_source};
use super::search::after_move;
use super::legal::lemma_moved_len;
use crate::rules::{
    all_positions, board_fuel, clear_walk, diagonal_targets, en_passant_target, enemy_slider, holds, holds_enemy,
    is_attacked, is_empty, king_targets, kingside_castle_target, knight_targets, lemma_all_add, lemma_ray_first_hits, leap,
    mul_dir, only_empty, only_empty_or_enemy, only_enemy, opt_seq, pass_rank, pawn_targets, piece_targets,
    queenside_castle_target, ray_first, ray_targets, sq_at, step, straight_targets, unit_direction, walk, GameView,
    move_kind, move_makeable, moved_squares, all_legal_moves, legal_moves, pseudo_moves, moves_to_targets,
    lemma_moves_to_targets, lemma_filter_subset, may_promote, move_keeps_king_safe, castling_consistent, has_king,
    king_index_from, king_position, moved_rights, spec_can_castle_kingside, spec_can_castle_queenside, move_of,
    castling_allowed, empty_and_safe, target_ok, castle_file_ok,
};
use crate::eval::check::lemma_king_index_from;
use crate::game::GameInfo;
use crate::board::spec_pawn_direction;
use vstd::prelude::*;

verus! {

/// If `t` holds a piece of the other player than the owner of `p`, the
/// owner of `p` attacks `t`.
pub open spec fn capture_attacked(g: GameView, p: Position, t: Position) -> bool {
    let owner = sq_at(g.squares, p).unwrap().player;
    holds_enemy(g.squares, t, owner) ==> is_attacked(g.squares, t, opponent(owner))
}

/// A capture along a ray ends on the first piece met, past empty squares.
proof fn lemma_ray_capture(squares: Seq<Option<Piece>>, p: Position, dr: int, df: int, player: Player, fuel: nat, t: Position) -> (n: int)
    requires
        valid_position(p),
        unit_direction(dr, df),
        ray_targets(squares, p, dr, df, player, fuel).contains(t),
        holds_enemy(squares, t, player),
    ensures
        1 <= n <= fuel,
        walk(p, dr, df, n) == Some(t),
        clear_walk(squares, p, dr, df, n),
    decreases fuel,
{
    let all = ray_targets(squares, p, dr, df, player, fuel);
    assert(walk(p, dr, df, 1) == step(p, dr, df));
    let q = step(p, dr, df).unwrap();
    let i = choose|i: int| 0 <= i < all.len() && all[i] == t;
    if is_empty(squares, q) {
        let rest = ray_targets(squares, q, dr, df, player, (fuel - 1) as nat);
        assert(all == seq![q] + rest);
        if i == 0 {
            assert(t == q);
            assert(false);
            0
        } else {
            assert(rest[i - 1] == t);
            assert(rest.contains(t));
            let m = lemma_ray_capture(squares, q, dr, df, player, (fuel - 1) as nat, t);
            assert(walk(q, dr, df, m) == walk(p, dr, df, m + 1));
            assert forall|j: int| 1 <= j < m + 1 implies (#[trigger] walk(p, dr, df, j)) is Some && is_empty(squares, walk(p, dr, df, j).unwrap()) by {
                if j > 1 {
                    assert(walk(q, dr, df, j - 1) == walk(p, dr, df, j));
                    assert(walk(q, dr, df, j - 1) is Some);
                }
            }
            m + 1
        }
    } else {
        assert(all == seq![q]);
        assert(t == q);
        1
    }
}

/// Walking back from the end of a walk retraces it.
proof fn lemma_walk_back(p: Position, dr: int, df: int, n: int, k: int)
    requires
        valid_position(p),
        unit_direction(dr, df),
        0 <= k <= n,
        walk(p, dr, df, n) is Some,
    ensures
        walk(walk(p, dr, df, n).unwrap(), -dr, -df, k) == (if k == n { Some(p) } else { walk(p, dr, df, n - k) }),
{
}

/// A capture by a sliding piece is of an attacked piece.
proof fn lemma_ray_capture_attacked(g: GameView, p: Position, dr: int, df: int, t: Position)
    requires
        valid_position(p),
        unit_direction(dr, df),
        sq_at(g.squares, p) is Some,
        (dr != 0 && df != 0) ==> (sq_at(g.squares, p).unwrap().piece == PieceType::Bishop || sq_at(g.squares, p).unwrap().piece == PieceType::Queen),
        (dr == 0 || df == 0) ==> (sq_at(g.squares, p).unwrap().piece == PieceType::Rook || sq_at(g.squares, p).unwrap().piece == PieceType::Queen),
        ray_targets(g.squares, p, dr, df, sq_at(g.squares, p).unwrap().player, board_fuel()).contains(t),
        holds_enemy(g.squares, t, sq_at(g.squares, p).unwrap().player),
    ensures
        is_attacked(g.squares, t, opponent(sq_at(g.squares, p).unwrap().player)),
{
    let sq = g.squares;
    let owner = sq_at(sq, p).unwrap().player;
    let n = lemma_ray_capture(sq, p, dr, df, owner, board_fuel(), t);
    assert(valid_position(t));
    assert forall|j: int| 1 <= j < n implies (#[trigger] walk(t, -dr, -df, j)) is Some && is_empty(sq, walk(t, -dr, -df, j).unwrap()) by {
        lemma_walk_back(p, dr, df, n, j);
        assert(walk(p, dr, df, n - j) is Some);
    }
    lemma_walk_back(p, dr, df, n, n);
    lemma_ray_first_hits(sq, t, -dr, -df, n, board_fuel());
    assert(ray_first(sq, t, -dr, -df, board_fuel()) == sq_at(sq, p));
    assert(opponent(opponent(owner)) == owner);
    if dr == -1 && df == -1 {
        assert(enemy_slider(sq, t, 1, 1, owner, PieceType::Bishop, PieceType::Queen));
    } else if dr == -1 && df == 1 {
        assert(enemy_slider(sq, t, 1, -1, owner, PieceType::Bishop, PieceType::Queen));
    } else if dr == 1 && df == -1 {
        assert(enemy_slider(sq, t, -1, 1, owner, PieceType::Bishop, PieceType::Queen));
    } else if dr == 1 && df == 1 {
        assert(enemy_slider(sq, t, -1, -1, owner, PieceType::Bishop, PieceType::Queen));
    } else if dr == 0 && df == -1 {
        assert(enemy_slider(sq, t, 0, 1, owner, PieceType::Rook, PieceType::Queen));
    } else if dr == 0 && df == 1 {
        assert(enemy_slider(sq, t, 0, -1, owner, PieceType::Rook, PieceType::Queen));
    } else if dr == -1 && df == 0 {
        assert(enemy_slider(sq, t, 1, 0, owner, PieceType::Rook, PieceType::Queen));
    } else {
        assert(enemy_slider(sq, t, -1, 0, owner, PieceType::Rook, PieceType::Queen));
    }
}

/// The captures along a ray are of attacked pieces.
proof fn lemma_ray_captures(g: GameView, p: Position, dr: int, df: int)
    requires
        valid_position(p),
        unit_direction(dr, df),
        sq_at(g.squares, p) is Some,
        (dr != 0 && df != 0) ==> (sq_at(g.squares, p).unwrap().piece == PieceType::Bishop || sq_at(g.squares, p).unwrap().piece == PieceType::Queen),
        (dr == 0 || df == 0) ==> (sq_at(g.squares, p).unwrap().piece == PieceType::Rook || sq_at(g.squares, p).unwrap().piece == PieceType::Queen),
    ensures
        all_positions(ray_targets(g.squares, p, dr, df, sq_at(g.squares, p).unwrap().player, board_fuel()), |t: Position| capture_attacked(g, p, t)),
{
    let r = ray_targets(g.squares, p, dr, df, sq_at(g.squares, p).unwrap().player, board_fuel());
    assert forall|i: int| 0 <= i < r.len() implies capture_attacked(g, p, #[trigger] r[i]) by {
        assert(r.contains(r[i]));
        if holds_enemy(g.squares, r[i], sq_at(g.squares, p).unwrap().player) {
            lemma_ray_capture_attacked(g, p, dr, df, r[i]);
        }
    }
}

/// A leap onto an enemy piece is a capture of an attacked piece when the
/// attack patterns hold the reverse leap.
proof fn lemma_leap_capture(g: GameView, p: Position, dr: int, df: int)
    requires
        valid_position(p),
        sq_at(g.squares, p) is Some,
        (sq_at(g.squares, p).unwrap().piece == PieceType::Knight && ((dr == -1 || dr == 1) && (df == -2 || df == 2) || (dr == -2 || dr == 2) && (df == -1 || df == 1)))
            || (sq_at(g.squares, p).unwrap().piece == PieceType::King && -1 <= dr <= 1 && -1 <= df <= 1 && !(dr == 0 && df == 0)),
    ensures
        all_positions(leap(g.squares, p, dr, df, sq_at(g.squares, p).unwrap().player), |t: Position| capture_attacked(g, p, t)),
{
    let sq = g.squares;
    let piece = sq_at(sq, p).unwrap();
    let owner = piece.player;
    let l = leap(sq, p, dr, df, owner);
    assert(opponent(opponent(owner)) == owner);
    assert forall|i: int| 0 <= i < l.len() implies capture_attacked(g, p, #[trigger] l[i]) by {
        let t = l[i];
        assert(step(p, dr, df) == Some(t));
        assert(step(t, -dr, -df) == Some(p));
        assert(holds(sq, step(t, -dr, -df), piece));
    }
}

proof fn lemma_pawn_captures(g: GameView, p: Position)
    requires
        valid_position(p),
        sq_at(g.squares, p) is Some,
        sq_at(g.squares, p).unwrap().piece == PieceType::Pawn,
    ensures
        all_positions(piece_targets(g, p), |t: Position| capture_attacked(g, p, t)),
{
    let sq = g.squares;
    let piece = sq_at(sq, p).unwrap();
    let owner = piece.player;
    let f = |t: Position| capture_attacked(g, p, t);
    assert(opponent(opponent(owner)) == owner);
    let d = spec_pawn_direction(owner) as int;
    assert(spec_pawn_direction(opponent(owner)) as int == -d);
    let forward = only_empty(sq, step(p, d, 0));
    let pass = if p.rank == pass_rank(owner) && forward is Some { only_empty(sq, step(p, 2 * d, 0)) } else { None };
    let cl = only_enemy(sq, step(p, d, -1), owner);
    let cr = only_enemy(sq, step(p, d, 1), owner);
    let el = en_passant_target(sq, step(p, d, -1), d, owner, g.last_move);
    let er = en_passant_target(sq, step(p, d, 1), d, owner, g.last_move);
    assert(all_positions(opt_seq(forward), f));
    assert(all_positions(opt_seq(pass), f));
    assert(all_positions(opt_seq(cl), f)) by {
        if let Some(t) = cl {
            assert(step(t, -d, 1) == Some(p));
            assert(holds(sq, step(t, -d, 1), piece));
        }
    }
    assert(all_positions(opt_seq(cr), f)) by {
        if let Some(t) = cr {
            assert(step(t, -d, -1) == Some(p));
            assert(holds(sq, step(t, -d, -1), piece));
        }
    }
    assert(all_positions(opt_seq(el), f));
    assert(all_positions(opt_seq(er), f));
    lemma_all_add(opt_seq(forward), opt_seq(pass), f);
    lemma_all_add(opt_seq(forward) + opt_seq(pass), opt_seq(cl), f);
    lemma_all_add(opt_seq(forward) + opt_seq(pass) + opt_seq(cl), opt_seq(cr), f);
    lemma_all_add(opt_seq(forward) + opt_seq(pass) + opt_seq(cl) + opt_seq(cr), opt_seq(el), f);
    lemma_all_add(opt_seq(forward) + opt_seq(pass) + opt_seq(cl) + opt_seq(cr) + opt_seq(el), opt_seq(er), f);
    assert(piece_targets(g, p) == pawn_targets(sq, p, owner, g.last_move));
}

proof fn lemma_knight_captures(g: GameView, p: Position)
    requires
        valid_position(p),
        sq_at(g.squares, p) is Some,
        sq_at(g.squares, p).unwrap().piece == PieceType::Knight,
    ensures
        all_positions(piece_targets(g, p), |t: Position| capture_attacked(g, p, t)),
{
    let sq = g.squares;
    let piece = sq_at(sq, p).unwrap();
    let owner = piece.player;
    let f = |t: Position| capture_attacked(g, p, t);
    assert(opponent(opponent(owner)) == owner);
    lemma_leap_capture(g, p, -1, -2);
    lemma_leap_capture(g, p, -1, 2);
    lemma_leap_capture(g, p, -2, -1);
    lemma_leap_capture(g, p, -2, 1);
    lemma_leap_capture(g, p, 2, -1);
    lemma_leap_capture(g, p, 2, 1);
    lemma_leap_capture(g, p, 1, -2);
    lemma_leap_capture(g, p, 1, 2);
    let l1 = leap(sq, p, -1, -2, owner);
    let l2 = leap(sq, p, -1, 2, owner);
    let l3 = leap(sq, p, -2, -1, owner);
    let l4 = leap(sq, p, -2, 1, owner);
    let l5 = leap(sq, p, 2, -1, owner);
    let l6 = leap(sq, p, 2, 1, owner);
    let l7 = leap(sq, p, 1, -2, owner);
    let l8 = leap(sq, p, 1, 2, owner);
    lemma_all_add(l1, l2, f);
    lemma_all_add(l1 + l2, l3, f);
    lemma_all_add(l1 + l2 + l3, l4, f);
    lemma_all_add(l1 + l2 + l3 + l4, l5, f);
    lemma_all_add(l1 + l2 + l3 + l4 + l5, l6, f);
    lemma_all_add(l1 + l2 + l3 + l4 + l5 + l6, l7, f);
    lemma_all_add(l1 + l2 + l3 + l4 + l5 + l6 + l7, l8, f);
    assert(piece_targets(g, p) == knight_targets(sq, p, owner));
}

proof fn lemma_king_captures(g: GameView, p: Position)
    requires
        valid_position(p),
        sq_at(g.squares, p) is Some,
        sq_at(g.squares, p).unwrap().piece == PieceType::King,
    ensures
        all_positions(piece_targets(g, p), |t: Position| capture_attacked(g, p, t)),
{
    let sq = g.squares;
    let piece = sq_at(sq, p).unwrap();
    let owner = piece.player;
    let f = |t: Position| capture_attacked(g, p, t);
    assert(opponent(opponent(owner)) == owner);
    let ks = kingside_castle_target(sq, p, owner, g.info);
    let qs = queenside_castle_target(sq, p, owner, g.info);
    assert(all_positions(opt_seq(ks), f));
    assert(all_positions(opt_seq(qs), f));
    lemma_leap_capture(g, p, -1, -1);
    lemma_leap_capture(g, p, -1, 0);
    lemma_leap_capture(g, p, -1, 1);
    lemma_leap_capture(g, p, 0, -1);
    lemma_leap_capture(g, p, 0, 1);
    lemma_leap_capture(g, p, 1, -1);
    lemma_leap_capture(g, p, 1, 0);
    lemma_leap_capture(g, p, 1, 1);
    let l1 = leap(sq, p, -1, -1, owner);
    let l2 = leap(sq, p, -1, 0, owner);
    let l3 = leap(sq, p, -1, 1, owner);
    let l4 = leap(sq, p, 0, -1, owner);
    let l5 = leap(sq, p, 0, 1, owner);
    let l6 = leap(sq, p, 1, -1, owner);
    let l7 = leap(sq, p, 1, 0, owner);
    let l8 = leap(sq, p, 1, 1, owner);
    lemma_all_add(l1, l2, f);
    lemma_all_add(l1 + l2, l3, f);
    lemma_all_add(l1 + l2 + l3, l4, f);
    lemma_all_add(l1 + l2 + l3 + l4, l5, f);
    lemma_all_add(l1 + l2 + l3 + l4 + l5, l6, f);
    lemma_all_add(l1 + l2 + l3 + l4 + l5 + l6, l7, f);
    lemma_all_add(l1 + l2 + l3 + l4 + l5 + l6 + l7, l8, f);
    lemma_all_add(l1 + l2 + l3 + l4 + l5 + l6 + l7 + l8, opt_seq(ks), f);
    lemma_all_add(l1 + l2 + l3 + l4 + l5 + l6 + l7 + l8 + opt_seq(ks), opt_seq(qs), f);
    assert(piece_targets(g, p) == king_targets(sq, p, owner, g.info));
}

#[verifier::rlimit(30)]
proof fn lemma_slider_captures(g: GameView, p: Position)
    requires
        valid_position(p),
        sq_at(g.squares, p) is Some,
        sq_at(g.squares, p).unwrap().piece == PieceType::Bishop || sq_at(g.squares, p).unwrap().piece == PieceType::Rook
            || sq_at(g.squares, p).unwrap().piece == PieceType::Queen,
    ensures
        all_positions(piece_targets(g, p), |t: Position| capture_attacked(g, p, t)),
{
    let sq = g.squares;
    let piece = sq_at(sq, p).unwrap();
    let owner = piece.player;
    let f = |t: Position| capture_attacked(g, p, t);
    assert(opponent(opponent(owner)) == owner);
    let diagonal = piece.piece == PieceType::Bishop || piece.piece == PieceType::Queen;
    let straight = piece.piece == PieceType::Rook || piece.piece == PieceType::Queen;
    let r1 = ray_targets(sq, p, -1, -1, owner, board_fuel());
    let r2 = ray_targets(sq, p, -1, 1, owner, board_fuel());
    let r3 = ray_targets(sq, p, 1, -1, owner, board_fuel());
    let r4 = ray_targets(sq, p, 1, 1, owner, board_fuel());
    let r5 = ray_targets(sq, p, 0, -1, owner, board_fuel());
    let r6 = ray_targets(sq, p, 0, 1, owner, board_fuel());
    let r7 = ray_targets(sq, p, -1, 0, owner, board_fuel());
    let r8 = ray_targets(sq, p, 1, 0, owner, board_fuel());
    if diagonal {
        lemma_ray_captures(g, p, -1, -1);
        lemma_ray_captures(g, p, -1, 1);
        lemma_ray_captures(g, p, 1, -1);
        lemma_ray_captures(g, p, 1, 1);
        lemma_all_add(r1, r2, f);
        lemma_all_add(r1 + r2, r3, f);
        lemma_all_add(r1 + r2 + r3, r4, f);
        assert(diagonal_targets(sq, p, owner) == r1 + r2 + r3 + r4);
    }
    if straight {
        lemma_ray_captures(g, p, 0, -1);
        lemma_ray_captures(g, p, 0, 1);
        lemma_ray_captures(g, p, -1, 0);
        lemma_ray_captures(g, p, 1, 0);
        lemma_all_add(r5, r6, f);
        lemma_all_add(r5 + r6, r7, f);
        lemma_all_add(r5 + r6 + r7, r8, f);
        assert(straight_targets(sq, p, owner) == r5 + r6 + r7 + r8);
    }
    if piece.piece == PieceType::Queen {
        lemma_all_add(r1 + r2 + r3 + r4, r5 + r6 + r7 + r8, f);
    }
}

/// The captures of a piece are of attacked pieces.
pub proof fn lemma_piece_captures(g: GameView, p: Position)
    requires
        valid_position(p),
        sq_at(g.squares, p) is Some,
    ensures
        all_positions(piece_targets(g, p), |t: Position| capture_attacked(g, p, t)),
{
    match sq_at(g.squares, p).unwrap().piece {
        PieceType::Pawn => lemma_pawn_captures(g, p),
        PieceType::Knight => lemma_knight_captures(g, p),
        PieceType::King => lemma_king_captures(g, p),
        _ => lemma_slider_captures(g, p),
    }
}

/// The square behind the target of an en passant capture, where the
/// captured pawn stands.
pub open spec fn behind_target(sq: Seq<Option<Piece>>, m: MoveAction) -> Position {
    step(m.mv.target, -(spec_pawn_direction(sq_at(sq, m.mv.source).unwrap().player) as int), 0).unwrap()
}

/// The square of the rook that castling moves, and the square it lands on.
pub open spec fn castling_rook(m: MoveAction, kind: MoveExtraInfo) -> Option<(Position, Position)> {
    match kind {
        MoveExtraInfo::CastleKingside => Some((step(m.mv.source, 0, 3).unwrap(), step(m.mv.source, 0, 1).unwrap())),
        MoveExtraInfo::CastleQueenside => Some((step(m.mv.source, 0, -4).unwrap(), step(m.mv.source, 0, -1).unwrap())),
        _ => None,
    }
}

/// What a square holds after a move on a board that stores what it is
/// given: the source and the squares the move empties hold nothing, the
/// target holds the moving or promoted piece, the castling rook lands beside
/// the king, and every other square keeps its piece.
pub open spec fn square_after(sq: Seq<Option<Piece>>, m: MoveAction, q: Position) -> Option<Piece> {
    let piece = sq_at(sq, m.mv.source).unwrap();
    let kind = move_kind(sq, m).unwrap();
    let rook = castling_rook(m, kind);
    if q == m.mv.source {
        None
    } else if q == m.mv.target {
        match kind {
            MoveExtraInfo::Promotion(p) => Some(Piece { piece: promoted_type(p), player: piece.player }),
            _ => Some(piece),
        }
    } else if kind == MoveExtraInfo::EnPassant && q == behind_target(sq, m) {
        None
    } else if rook is Some && q == rook.unwrap().0 {
        None
    } else if rook is Some && q == rook.unwrap().1 {
        sq_at(sq, rook.unwrap().0)
    } else {
        sq_at(sq, q)
    }
}

/// The squares of a move can be told apart: the en passant square and the
/// castling rook's squares are neither the source nor the target.
proof fn lemma_move_squares_distinct(sq: Seq<Option<Piece>>, m: MoveAction)
    requires
        valid_position(m.mv.source),
        valid_position(m.mv.target),
        m.mv.source != m.mv.target,
        move_kind(sq, m) is Some,
        move_makeable(sq, m),
    ensures
        move_kind(sq, m).unwrap() == MoveExtraInfo::EnPassant ==> {
            let b = behind_target(sq, m);
            valid_position(b) && b != m.mv.source && b != m.mv.target
        },
        castling_rook(m, move_kind(sq, m).unwrap()) matches Some((rs, rt)) ==> {
            &&& valid_position(rs) && valid_position(rt)
            &&& rs != rt && rs != m.mv.source && rs != m.mv.target && rt != m.mv.source && rt != m.mv.target
            &&& rs.file != 4
        },
{
}

/// A move on a board that stores what it is given leaves each square as
/// `square_after` says.
proof fn lemma_square_after(sq: Seq<Option<Piece>>, m: MoveAction, stored: spec_fn(Option<Piece>, Option<Piece>) -> Option<Piece>, q: Position)
    requires
        sq.len() == 64,
        valid_position(m.mv.source),
        valid_position(m.mv.target),
        valid_position(q),
        m.mv.source != m.mv.target,
        move_kind(sq, m) is Some,
        move_makeable(sq, m),
        forall|o: Option<Piece>, v: Option<Piece>| #[trigger] stored(o, v) == v,
    ensures
        sq_at(moved_squares(sq, m, move_kind(sq, m).unwrap(), stored), q) == square_after(sq, m, q),
{
    lemma_move_squares_distinct(sq, m);
    lemma_index_position(m.mv.source);
    lemma_index_position(m.mv.target);
    lemma_index_position(q);
    match castling_rook(m, move_kind(sq, m).unwrap()) {
        Some((rs, rt)) => {
            lemma_index_position(rs);
            lemma_index_position(rt);
        },
        None => {},
    }
    if move_kind(sq, m).unwrap() == MoveExtraInfo::EnPassant {
        lemma_index_position(behind_target(sq, m));
    }
}

/// A move of `all_legal_moves` is made by a piece of the player to move,
/// to one of its targets, and keeps its king safe.
proof fn lemma_legal_move_facts<B: Board>(g: GameView, m: MoveAction)
    requires
        both_kings(g),
        all_legal_moves(g, stored_fn::<B>()).contains(m),
    ensures
        valid_position(m.mv.source),
        sq_at(g.squares, m.mv.source) is Some,
        sq_at(g.squares, m.mv.source).unwrap().player == g.player,
        piece_targets(g, m.mv.source).contains(m.mv.target),
        safe_to_try(g, m, guarded_king(g, m.mv.source)),
        move_keeps_king_safe(g, m, guarded_king(g, m.mv.source), stored_fn::<B>()),
{
    lemma_upto_source(g, 64, m, stored_fn::<B>());
    let i = choose|i: int| 0 <= i < 64 && #[trigger] sq_at(g.squares, index_position(i)) is Some
        && sq_at(g.squares, index_position(i)).unwrap().player == g.player
        && legal_moves(g, index_position(i), stored_fn::<B>()).contains(m);
    let p = index_position(i);
    lemma_position_index(i);
    lemma_legal_move_safe::<B>(g, p, m);
    let king = guarded_king(g, p);
    let pred = |x: MoveAction| move_keeps_king_safe(g, x, king, stored_fn::<B>());
    let pseudo = pseudo_moves(g, p);
    assert(legal_moves(g, p, stored_fn::<B>()) == pseudo.filter(pred));
    lemma_filter_subset(pseudo, pred);
    let j = choose|j: int| 0 <= j < pseudo.filter(pred).len() && pseudo.filter(pred)[j] == m;
    assert(pseudo.contains(pseudo.filter(pred)[j]));
    lemma_moves_to_targets(p, piece_targets(g, p), may_promote(g, p));
    let k = choose|k: int| 0 <= k < pseudo.len() && pseudo[k] == m;
    let l = choose|l: int| 0 <= l < piece_targets(g, p).len() && piece_targets(g, p)[l] == pseudo[k].mv.target;
    assert(piece_targets(g, p)[l] == m.mv.target);
}

/// A pawn reaches an empty square on another file only by taking en passant
/// the pawn that passed in the last move, which stands behind that square.
proof fn lemma_en_passant_passed(g: GameView, p: Position, t: Position)
    requires
        valid_position(p),
        sq_at(g.squares, p) is Some,
        sq_at(g.squares, p).unwrap().piece == PieceType::Pawn,
        piece_targets(g, p).contains(t),
        is_empty(g.squares, t),
        t.file != p.file,
    ensures
        g.last_move matches Some(lm) && lm.info == MoveExtraInfo::Passed
            && step(t, -(spec_pawn_direction(sq_at(g.squares, p).unwrap().player) as int), 0) == Some(lm.mv.target),
{
    let sq = g.squares;
    let owner = sq_at(sq, p).unwrap().player;
    let d = spec_pawn_direction(owner) as int;
    let f = |q: Position| is_empty(sq, q) && q.file != p.file ==> (g.last_move matches Some(lm)
        && lm.info == MoveExtraInfo::Passed && step(q, -d, 0) == Some(lm.mv.target));
    let forward = only_empty(sq, step(p, d, 0));
    let pass = if p.rank == pass_rank(owner) && forward is Some { only_empty(sq, step(p, 2 * d, 0)) } else { None };
    let cl = only_enemy(sq, step(p, d, -1), owner);
    let cr = only_enemy(sq, step(p, d, 1), owner);
    let el = en_passant_target(sq, step(p, d, -1), d, owner, g.last_move);
    let er = en_passant_target(sq, step(p, d, 1), d, owner, g.last_move);
    assert(all_positions(opt_seq(forward), f));
    assert(all_positions(opt_seq(pass), f));
    assert(all_positions(opt_seq(cl), f));
    assert(all_positions(opt_seq(cr), f));
    assert(all_positions(opt_seq(el), f));
    assert(all_positions(opt_seq(er), f));
    lemma_all_add(opt_seq(forward), opt_seq(pass), f);
    lemma_all_add(opt_seq(forward) + opt_seq(pass), opt_seq(cl), f);
    lemma_all_add(opt_seq(forward) + opt_seq(pass) + opt_seq(cl), opt_seq(cr), f);
    lemma_all_add(opt_seq(forward) + opt_seq(pass) + opt_seq(cl) + opt_seq(cr), opt_seq(el), f);
    lemma_all_add(opt_seq(forward) + opt_seq(pass) + opt_seq(cl) + opt_seq(cr) + opt_seq(el), opt_seq(er), f);
    let targets = piece_targets(g, p);
    assert(targets == pawn_targets(sq, p, owner, g.last_move));
    let k = choose|k: int| 0 <= k < targets.len() && targets[k] == t;
    assert(f(targets[k]));
}

/// After a pawn passed two squares in the last move, a pawn stands on the
/// square it reached.
pub open spec fn passed_pawn_stands(g: GameView) -> bool {
    match g.last_move {
        Some(lm) => lm.info == MoveExtraInfo::Passed && valid_position(lm.mv.target) ==> {
            &&& sq_at(g.squares, lm.mv.target) is Some
            &&& sq_at(g.squares, lm.mv.target).unwrap().piece == PieceType::Pawn
        },
        None => true,
    }
}

/// A move only takes castling rights away, and a king's move takes all of
/// its player's.
proof fn lemma_rights_shrink(sq: Seq<Option<Piece>>, info: GameInfo, m: MoveAction)
    requires
        sq_at(sq, m.mv.source) is Some,
    ensures
        forall|x: Player| #[trigger] spec_can_castle_kingside(moved_rights(sq, info, m.mv), x) ==> spec_can_castle_kingside(info, x),
        forall|x: Player| #[trigger] spec_can_castle_queenside(moved_rights(sq, info, m.mv), x) ==> spec_can_castle_queenside(info, x),
        sq_at(sq, m.mv.source).unwrap().piece == PieceType::King ==> {
            let player = sq_at(sq, m.mv.source).unwrap().player;
            &&& !spec_can_castle_kingside(moved_rights(sq, info, m.mv), player)
            &&& !spec_can_castle_queenside(moved_rights(sq, info, m.mv), player)
        },
{
}

/// The other player's king, on `kp`, is on the board after a move that
/// neither takes it nor lands a rook on it: where it stood, or where the
/// castling rook's move carried it.
proof fn lemma_other_king_after(sq: Seq<Option<Piece>>, m: MoveAction, kp: Position, owner: Player) -> (w: Position)
    requires
        sq.len() == 64,
        valid_position(m.mv.source),
        valid_position(m.mv.target),
        valid_position(kp),
        m.mv.source != m.mv.target,
        move_kind(sq, m) is Some,
        move_makeable(sq, m),
        sq_at(sq, kp) == Some(Piece { piece: PieceType::King, player: owner }),
        kp != m.mv.source,
        kp != m.mv.target,
        move_kind(sq, m).unwrap() == MoveExtraInfo::EnPassant ==> kp != behind_target(sq, m),
        castling_rook(m, move_kind(sq, m).unwrap()) matches Some((rs, rt)) ==> is_empty(sq, rt),
    ensures
        valid_position(w),
        square_after(sq, m, w) == Some(Piece { piece: PieceType::King, player: owner }),
{
    lemma_move_squares_distinct(sq, m);
    match castling_rook(m, move_kind(sq, m).unwrap()) {
        Some((rs, rt)) => if kp == rs { rt } else { kp },
        None => kp,
    }
}

/// The mover's king is on the board after a move to an empty or enemy
/// square: on the target if it moved, else where it stood.
proof fn lemma_mover_king_after(sq: Seq<Option<Piece>>, m: MoveAction, kp: Position) -> (w: Position)
    requires
        sq.len() == 64,
        valid_position(m.mv.source),
        valid_position(m.mv.target),
        valid_position(kp),
        m.mv.source != m.mv.target,
        move_kind(sq, m) is Some,
        move_makeable(sq, m),
        sq_at(sq, kp) == Some(Piece { piece: PieceType::King, player: sq_at(sq, m.mv.source).unwrap().player }),
        is_empty(sq, m.mv.target) || holds_enemy(sq, m.mv.target, sq_at(sq, m.mv.source).unwrap().player),
    ensures
        valid_position(w),
        square_after(sq, m, w) == Some(Piece { piece: PieceType::King, player: sq_at(sq, m.mv.source).unwrap().player }),
{
    lemma_move_squares_distinct(sq, m);
    if sq_at(sq, m.mv.source).unwrap().piece == PieceType::King {
        m.mv.target
    } else {
        kp
    }
}

/// After a move, a king of a player who keeps a castling right stood on the
/// same square before, and so stands on a file that the right allows.
proof fn lemma_consistent_after(g: GameView, m: MoveAction)
    requires
        g.squares.len() == 64,
        castling_consistent(g),
        valid_position(m.mv.source),
        valid_position(m.mv.target),
        m.mv.source != m.mv.target,
        sq_at(g.squares, m.mv.source) is Some,
        move_kind(g.squares, m) is Some,
        move_makeable(g.squares, m),
    ensures
        forall|q: Position|
            valid_position(q) && (#[trigger] square_after(g.squares, m, q)) is Some
                && square_after(g.squares, m, q).unwrap().piece == PieceType::King
            ==> castle_file_ok(moved_rights(g.squares, g.info, m.mv), square_after(g.squares, m, q).unwrap().player, q.file),
{
    let sq = g.squares;
    lemma_move_squares_distinct(sq, m);
    lemma_rights_shrink(sq, g.info, m);
    let rook = castling_rook(m, move_kind(sq, m).unwrap());
    assert forall|q: Position|
        valid_position(q) && (#[trigger] square_after(sq, m, q)) is Some
            && square_after(sq, m, q).unwrap().piece == PieceType::King
        implies castle_file_ok(moved_rights(sq, g.info, m.mv), square_after(sq, m, q).unwrap().player, q.file) by {
        let x = square_after(sq, m, q).unwrap().player;
        let after_rights = moved_rights(sq, g.info, m.mv);
        assert(spec_can_castle_kingside(after_rights, x) ==> spec_can_castle_kingside(g.info, x));
        assert(spec_can_castle_queenside(after_rights, x) ==> spec_can_castle_queenside(g.info, x));
        if q == m.mv.target {
            assert(!spec_can_castle_kingside(after_rights, x) && !spec_can_castle_queenside(after_rights, x));
        } else if rook is Some && q == rook.unwrap().1 {
            let rs = rook.unwrap().0;
            lemma_index_position(rs);
            assert(sq[square_index(rs)] == sq_at(sq, rs));
        } else {
            lemma_index_position(q);
            assert(sq[square_index(q)] == sq_at(sq, q));
            assert(index_position(square_index(q)) == q);
            assert(castle_file_ok(g.info, x, q.file));
        }
    }
}

/// In a position where the player not to move is not in check and the pawn
/// that passed in the last move stands where it went, every legal move,
/// on a board that stores what it is given, leaves both players a king and
/// the castling rights consistent with where the kings stand; a pawn that
/// passes stands where it went.
pub proof fn lemma_legal_move_keeps_kings<B: Board>(g: GameView, m: MoveAction)
    requires
        both_kings(g),
        !is_attacked(g.squares, king_position(g.squares, opponent(g.player)), opponent(g.player)),
        passed_pawn_stands(g),
        forall|o: Option<Piece>, v: Option<Piece>| #[trigger] B::stored(o, v) == v,
        all_legal_moves(g, stored_fn::<B>()).contains(m),
    ensures
        both_kings(after_move(g, m, stored_fn::<B>())),
        passed_pawn_stands(after_move(g, m, stored_fn::<B>())),
{
    let sq = g.squares;
    let stored = stored_fn::<B>();
    let p = m.mv.source;
    let t = m.mv.target;
    let player = g.player;
    let opp = opponent(player);
    lemma_legal_move_facts::<B>(g, m);
    let piece = sq_at(sq, p).unwrap();
    assert(m == move_of(p, t, m.move_type));
    assert(target_ok(g, p, t));
    assert(move_makeable(sq, m));
    let kind = move_kind(sq, m).unwrap();
    assert forall|o: Option<Piece>, v: Option<Piece>| #[trigger] stored(o, v) == v by {
        assert(B::stored(o, v) == v);
    }
    let after = moved_squares(sq, m, kind, stored);
    let h = after_move(g, m, stored);
    assert(h.squares == after);
    lemma_moved_len(g, m, stored);
    let rook = castling_rook(m, kind);
    assert(rook matches Some((rs, rt)) ==> is_empty(sq, rt)) by {
        if rook is Some {
            assert(castling_allowed(g, m.mv, guarded_king(g, p), player));
        }
    }
    // The other player's king is neither taken nor in the way.
    lemma_king_index_from(sq, opp, 0);
    let ki = king_index_from(sq, opp, 0);
    let kp = index_position(ki);
    lemma_position_index(ki);
    assert(kp != t) by {
        lemma_piece_captures(g, p);
        let k = choose|k: int| 0 <= k < piece_targets(g, p).len() && piece_targets(g, p)[k] == t;
        assert(capture_attacked(g, p, piece_targets(g, p)[k]));
    }
    if kind == MoveExtraInfo::EnPassant {
        lemma_en_passant_passed(g, p, t);
    }
    let wo = lemma_other_king_after(sq, m, kp, opp);
    lemma_square_after(sq, m, stored, wo);
    lemma_index_position(wo);
    assert(after[square_index(wo)] == Some(Piece { piece: PieceType::King, player: opp }));
    // The mover's king.
    lemma_king_index_from(sq, player, 0);
    let pi = king_index_from(sq, player, 0);
    lemma_position_index(pi);
    let wp = lemma_mover_king_after(sq, m, index_position(pi));
    lemma_square_after(sq, m, stored, wp);
    lemma_index_position(wp);
    assert(after[square_index(wp)] == Some(Piece { piece: PieceType::King, player }));
    assert(has_king(after, Player::White) && has_king(after, Player::Black)) by {
        assert(player == Player::White || player == Player::Black);
    }
    lemma_consistent_after(g, m);
    assert forall|i: int|
        0 <= i < 64 && (#[trigger] after[i]) is Some && after[i].unwrap().piece == PieceType::King
        implies castle_file_ok(h.info, after[i].unwrap().player, index_position(i).file) by {
        let q = index_position(i);
        lemma_position_index(i);
        lemma_square_after(sq, m, stored, q);
        assert(after[i] == square_after(sq, m, q));
    }
    lemma_square_after(sq, m, stored, t);
}

} // verus!
