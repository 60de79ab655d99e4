//! The squares each piece reaches, ignoring checks.

use crate::board::{
    spec_pawn_direction, try_move, valid_position, Board, Direction, ModifiableBoard, Piece,
    PieceType, Player, Position,
};
use crate::game::{CastlingRights, GameState, MoveExtraInfo, MoveInfo};
use crate::rules::{
    board_fuel, diagonal_targets, en_passant_target, holds_enemy, is_empty, king_targets,
    kingside_castle_target, knight_targets, leap, only_empty, only_empty_or_enemy, only_enemy,
    opt_seq, pass_rank, pawn_targets, piece_targets, queenside_castle_target, ray_targets, sq_at,
    step, straight_targets,
};
use vstd::prelude::*;

verus! {

/// The position one step away, if it lies on the board.
pub fn step_from(p: &Position, dr: i8, df: i8) -> (q: Option<Position>)
    requires
        valid_position(*p),
        -16 <= dr <= 16,
        -16 <= df <= 16,
    ensures
        q == step(*p, dr as int, df as int),
        q matches Some(x) ==> valid_position(x),
{
    try_move(p, &Direction { row_inc: dr, col_inc: df })
}

/// The square of a game at a position.
pub fn square<B: Board>(game: &GameState<B>, p: &Position) -> (s: Option<Piece>)
    requires
        valid_position(*p),
    ensures
        s == sq_at(game@.squares, *p),
{
    proof {
        game.lemma_spec_at(*p);
    }
    game.at(p)
}

/// The position, if its square is empty.
pub fn only_empty_at<B: Board>(game: &GameState<B>, p: Option<Position>) -> (q: Option<Position>)
    requires
        p matches Some(x) ==> valid_position(x),
    ensures
        q == only_empty(game@.squares, p),
{
    match p {
        Some(x) => if square(game, &x).is_none() { Some(x) } else { None },
        None => None,
    }
}

/// The position, if it holds a piece of the other player.
pub fn only_enemy_at<B: Board>(game: &GameState<B>, p: Option<Position>, player: Player) -> (q: Option<Position>)
    requires
        p matches Some(x) ==> valid_position(x),
    ensures
        q == only_enemy(game@.squares, p, player),
{
    match p {
        Some(x) => match square(game, &x) {
            Some(piece) => if piece.player != player { Some(x) } else { None },
            None => None,
        },
        None => None,
    }
}

/// The position, if it is empty or holds a piece of the other player.
pub fn only_empty_or_enemy_at<B: Board>(game: &GameState<B>, p: Option<Position>, player: Player) -> (q: Option<Position>)
    requires
        p matches Some(x) ==> valid_position(x),
    ensures
        q == only_empty_or_enemy(game@.squares, p, player),
{
    match p {
        Some(x) => match square(game, &x) {
            Some(piece) => if piece.player != player { Some(x) } else { None },
            None => Some(x),
        },
        None => None,
    }
}

fn push_opt(v: &mut Vec<Position>, p: Option<Position>)
    ensures
        final(v)@ == old(v)@ + opt_seq(p),
{
    match p {
        Some(x) => {
            v.push(x);
            assert(final(v)@ =~= old(v)@ + opt_seq(p));
        },
        None => {
            assert(old(v)@ + opt_seq(p) =~= old(v)@);
        },
    }
}

/// The en passant capture onto `p`, if the last move was the pass of the
/// pawn behind it.
pub fn only_en_passant<B: Board>(
    game: &GameState<B>,
    position: Option<Position>,
    direction: i8,
    player: &Player,
    last_move: &Option<MoveInfo>,
) -> (target: Option<Position>)
    requires
        position matches Some(x) ==> valid_position(x),
        direction == 1 || direction == -1,
    ensures
        target == en_passant_target(game@.squares, position, direction as int, *player, *last_move),
{
    match only_empty_at(game, position) {
        Some(position_value) => {
            let behind = step_from(&position_value, -direction, 0);
            match (last_move, only_enemy_at(game, behind, *player)) {
                (Some(last_move_info), Some(passed_position)) => {
                    if passed_position == last_move_info.mv.target && last_move_info.info == MoveExtraInfo::Passed {
                        position
                    } else {
                        None
                    }
                },
                _ => None,
            }
        },
        None => None,
    }
}

/// The squares a pawn of `player` on `p` reaches.
fn pawn_moves<B: Board>(game: &GameState<B>, p: &Position, player: Player) -> (targets: Vec<Position>)
    requires
        valid_position(*p),
    ensures
        targets@ == pawn_targets(game@.squares, *p, player, game@.last_move),
{
    let direction: i8 = match player {
        Player::White => 1,
        Player::Black => -1,
    };
    let can_pass = match player {
        Player::White => p.rank == 1,
        Player::Black => p.rank == 6,
    };
    let mut targets: Vec<Position> = Vec::new();
    let forward = only_empty_at(game, step_from(p, direction, 0));
    push_opt(&mut targets, forward);
    let pass = if can_pass && forward.is_some() {
        only_empty_at(game, step_from(p, 2 * direction, 0))
    } else {
        None
    };
    push_opt(&mut targets, pass);
    push_opt(&mut targets, only_enemy_at(game, step_from(p, direction, -1), player));
    push_opt(&mut targets, only_enemy_at(game, step_from(p, direction, 1), player));
    let last_move = game.last_move();
    push_opt(&mut targets, only_en_passant(game, step_from(p, direction, -1), direction, &player, last_move));
    push_opt(&mut targets, only_en_passant(game, step_from(p, direction, 1), direction, &player, last_move));
    targets
}

/// Appends the square one step away, if it is empty or holds an enemy piece.
fn push_leap<B: Board>(game: &GameState<B>, targets: &mut Vec<Position>, p: &Position, dr: i8, df: i8, player: Player)
    requires
        valid_position(*p),
        -2 <= dr <= 2,
        -2 <= df <= 2,
    ensures
        final(targets)@ == old(targets)@ + leap(game@.squares, *p, dr as int, df as int, player),
{
    push_opt(targets, only_empty_or_enemy_at(game, step_from(p, dr, df), player));
}

fn knight_moves<B: Board>(game: &GameState<B>, p: &Position, player: Player) -> (targets: Vec<Position>)
    requires
        valid_position(*p),
    ensures
        targets@ == knight_targets(game@.squares, *p, player),
{
    let mut targets: Vec<Position> = Vec::new();
    push_leap(game, &mut targets, p, -1, -2, player);
    push_leap(game, &mut targets, p, -1, 2, player);
    push_leap(game, &mut targets, p, -2, -1, player);
    push_leap(game, &mut targets, p, -2, 1, player);
    push_leap(game, &mut targets, p, 2, -1, player);
    push_leap(game, &mut targets, p, 2, 1, player);
    push_leap(game, &mut targets, p, 1, -2, player);
    push_leap(game, &mut targets, p, 1, 2, player);
    assert(targets@ =~= knight_targets(game@.squares, *p, player));
    targets
}

/// Appends the squares a sliding piece reaches in one direction.
fn push_ray<B: Board>(game: &GameState<B>, targets: &mut Vec<Position>, p: &Position, dr: i8, df: i8, player: Player)
    requires
        valid_position(*p),
        -1 <= dr <= 1,
        -1 <= df <= 1,
    ensures
        final(targets)@ == old(targets)@ + ray_targets(game@.squares, *p, dr as int, df as int, player, board_fuel()),
{
    let mut current = *p;
    let mut fuel: usize = 8;
    let ghost start = old(targets)@;
    loop
        invariant
            valid_position(current),
            fuel <= 8,
            -1 <= dr <= 1,
            -1 <= df <= 1,
            start == old(targets)@,
            start + ray_targets(game@.squares, *p, dr as int, df as int, player, board_fuel())
                == targets@ + ray_targets(game@.squares, current, dr as int, df as int, player, fuel as nat),
        decreases fuel,
    {
        if fuel == 0 {
            assert(targets@ + ray_targets(game@.squares, current, dr as int, df as int, player, 0) =~= targets@);
            return;
        }
        match step_from(&current, dr, df) {
            None => {
                assert(targets@ + ray_targets(game@.squares, current, dr as int, df as int, player, fuel as nat) =~= targets@);
                return;
            },
            Some(q) => match square(game, &q) {
                None => {
                    let ghost before = targets@;
                    targets.push(q);
                    assert(before + ray_targets(game@.squares, current, dr as int, df as int, player, fuel as nat)
                        =~= targets@ + ray_targets(game@.squares, q, dr as int, df as int, player, (fuel - 1) as nat));
                    current = q;
                    fuel = fuel - 1;
                },
                Some(piece) => {
                    if piece.player != player {
                        let ghost before = targets@;
                        targets.push(q);
                        assert(before + ray_targets(game@.squares, current, dr as int, df as int, player, fuel as nat) =~= targets@);
                    } else {
                        assert(targets@ + ray_targets(game@.squares, current, dr as int, df as int, player, fuel as nat) =~= targets@);
                    }
                    return;
                },
            },
        }
    }
}

fn diagonal_moves<B: Board>(game: &GameState<B>, targets: &mut Vec<Position>, p: &Position, player: Player)
    requires
        valid_position(*p),
    ensures
        final(targets)@ == old(targets)@ + diagonal_targets(game@.squares, *p, player),
{
    push_ray(game, targets, p, -1, -1, player);
    push_ray(game, targets, p, -1, 1, player);
    push_ray(game, targets, p, 1, -1, player);
    push_ray(game, targets, p, 1, 1, player);
    assert(final(targets)@ =~= old(targets)@ + diagonal_targets(game@.squares, *p, player));
}

fn straight_moves<B: Board>(game: &GameState<B>, targets: &mut Vec<Position>, p: &Position, player: Player)
    requires
        valid_position(*p),
    ensures
        final(targets)@ == old(targets)@ + straight_targets(game@.squares, *p, player),
{
    push_ray(game, targets, p, 0, -1, player);
    push_ray(game, targets, p, 0, 1, player);
    push_ray(game, targets, p, -1, 0, player);
    push_ray(game, targets, p, 1, 0, player);
    assert(final(targets)@ =~= old(targets)@ + straight_targets(game@.squares, *p, player));
}

fn king_moves<B: Board>(game: &GameState<B>, p: &Position, player: Player) -> (targets: Vec<Position>)
    requires
        valid_position(*p),
    ensures
        targets@ == king_targets(game@.squares, *p, player, game@.info),
{
    let mut targets: Vec<Position> = Vec::new();
    push_leap(game, &mut targets, p, -1, -1, player);
    push_leap(game, &mut targets, p, -1, 0, player);
    push_leap(game, &mut targets, p, -1, 1, player);
    push_leap(game, &mut targets, p, 0, -1, player);
    push_leap(game, &mut targets, p, 0, 1, player);
    push_leap(game, &mut targets, p, 1, -1, player);
    push_leap(game, &mut targets, p, 1, 0, player);
    push_leap(game, &mut targets, p, 1, 1, player);
    proof {
        game.lemma_castling_info();
    }
    let kingside = if !game.can_castle_kingside(player) {
        None
    } else if only_empty_at(game, step_from(p, 0, 1)).is_some() {
        only_empty_at(game, step_from(p, 0, 2))
    } else {
        None
    };
    assert(kingside == kingside_castle_target(game@.squares, *p, player, game@.info));
    push_opt(&mut targets, kingside);
    let queenside = if !game.can_castle_queenside(player) {
        None
    } else if only_empty_at(game, step_from(p, 0, -1)).is_some()
        && only_empty_at(game, step_from(p, 0, -3)).is_some() {
        only_empty_at(game, step_from(p, 0, -2))
    } else {
        None
    };
    assert(queenside == queenside_castle_target(game@.squares, *p, player, game@.info));
    push_opt(&mut targets, queenside);
    assert(targets@ =~= king_targets(game@.squares, *p, player, game@.info));
    targets
}

/// The squares the piece on a position reaches, ignoring checks, in the
/// order the engine tries them (nothing for an empty square).
pub fn piece_into_iter<B: Board>(game: &GameState<B>, position: Position) -> (targets: Vec<Position>)
    requires
        valid_position(position),
    ensures
        targets@ == piece_targets(game@, position),
{
    match square(game, &position) {
        None => Vec::new(),
        Some(Piece { piece, player }) => match piece {
            PieceType::Pawn => pawn_moves(game, &position, player),
            PieceType::Knight => knight_moves(game, &position, player),
            PieceType::Bishop => {
                let mut targets = Vec::new();
                diagonal_moves(game, &mut targets, &position, player);
                assert(targets@ =~= diagonal_targets(game@.squares, position, player));
                targets
            },
            PieceType::Rook => {
                let mut targets = Vec::new();
                straight_moves(game, &mut targets, &position, player);
                assert(targets@ =~= straight_targets(game@.squares, position, player));
                targets
            },
            PieceType::Queen => {
                let mut targets = Vec::new();
                diagonal_moves(game, &mut targets, &position, player);
                straight_moves(game, &mut targets, &position, player);
                assert(targets@ =~= diagonal_targets(game@.squares, position, player) + straight_targets(game@.squares, position, player));
                targets
            },
            PieceType::King => king_moves(game, &position, player),
        },
    }
}

} // verus!
