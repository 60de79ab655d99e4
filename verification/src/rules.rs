//! The rules of chess as this engine plays them, stated over the 64 squares
//! of a board: which squares a piece reaches, which squares a player attacks,
//! what a move does to a game, and which moves are legal.

use crate::board::{
    index_position, lemma_index_position, opponent, position_if_valid, valid_position, spec_can_promote_rank, spec_home_rank,
    spec_pawn_direction, spec_promotion_rank, square_index, Piece, PieceType, Player, Position,
};
use crate::game::{
    promoted_type, GameInfo, Move, MoveAction, MoveActionType, MoveExtraInfo, MoveInfo,
    PromotionPieces,
};
use vstd::prelude::*;

verus! {

/// What the rules need of a game: its squares (rank by rank), the player to
/// move, the last move and the castling rights.
pub struct GameView {
    pub squares: Seq<Option<Piece>>,
    pub player: Player,
    pub last_move: Option<MoveInfo>,
    pub info: GameInfo,
}

/// The square at a position.
pub open spec fn sq_at(squares: Seq<Option<Piece>>, p: Position) -> Option<Piece> {
    squares[square_index(p)]
}

/// The position one step away, if it lies on the board.
pub open spec fn step(p: Position, dr: int, df: int) -> Option<Position> {
    position_if_valid(p.rank + dr, p.file + df)
}

pub open spec fn is_empty(squares: Seq<Option<Piece>>, p: Position) -> bool {
    sq_at(squares, p) is None
}

/// The position holds a piece of the other player.
pub open spec fn holds_enemy(squares: Seq<Option<Piece>>, p: Position, player: Player) -> bool {
    sq_at(squares, p) is Some && sq_at(squares, p).unwrap().player != player
}

/// The position holds a given piece.
pub open spec fn holds(squares: Seq<Option<Piece>>, p: Option<Position>, piece: Piece) -> bool {
    p is Some && sq_at(squares, p.unwrap()) == Some(piece)
}

pub open spec fn opt_seq(p: Option<Position>) -> Seq<Position> {
    match p {
        Some(q) => seq![q],
        None => Seq::empty(),
    }
}

/// The step, if it lands on an empty square.
pub open spec fn only_empty(squares: Seq<Option<Piece>>, p: Option<Position>) -> Option<Position> {
    match p {
        Some(q) => if is_empty(squares, q) { Some(q) } else { None },
        None => None,
    }
}

/// The step, if it lands on a piece of the other player.
pub open spec fn only_enemy(squares: Seq<Option<Piece>>, p: Option<Position>, player: Player) -> Option<Position> {
    match p {
        Some(q) => if holds_enemy(squares, q, player) { Some(q) } else { None },
        None => None,
    }
}

/// The step, if it lands on an empty square or on a piece of the other player.
pub open spec fn only_empty_or_enemy(squares: Seq<Option<Piece>>, p: Option<Position>, player: Player) -> Option<Position> {
    match p {
        Some(q) => if is_empty(squares, q) || holds_enemy(squares, q, player) { Some(q) } else { None },
        None => None,
    }
}

/// The first piece met walking from `p` in a direction (`fuel` bounds the walk).
pub open spec fn ray_first(squares: Seq<Option<Piece>>, p: Position, dr: int, df: int, fuel: nat) -> Option<Piece>
    decreases fuel,
{
    if fuel == 0 {
        None
    } else {
        match step(p, dr, df) {
            None => None,
            Some(q) => match sq_at(squares, q) {
                Some(piece) => Some(piece),
                None => ray_first(squares, q, dr, df, (fuel - 1) as nat),
            },
        }
    }
}

/// The squares a sliding piece reaches walking in a direction: the empty
/// squares, and the first piece of the other player.
pub open spec fn ray_targets(squares: Seq<Option<Piece>>, p: Position, dr: int, df: int, player: Player, fuel: nat) -> Seq<Position>
    decreases fuel,
{
    if fuel == 0 {
        Seq::empty()
    } else {
        match step(p, dr, df) {
            None => Seq::empty(),
            Some(q) => if is_empty(squares, q) {
                seq![q] + ray_targets(squares, q, dr, df, player, (fuel - 1) as nat)
            } else if holds_enemy(squares, q, player) {
                seq![q]
            } else {
                Seq::empty()
            },
        }
    }
}

/// Enough steps to cross the board.
pub open spec fn board_fuel() -> nat {
    8
}

/// The first piece in a direction is an enemy piece of one of two types.
pub open spec fn enemy_slider(squares: Seq<Option<Piece>>, p: Position, dr: int, df: int, enemy: Player, a: PieceType, b: PieceType) -> bool {
    let first = ray_first(squares, p, dr, df, board_fuel());
    first is Some && first.unwrap().player == enemy && (first.unwrap().piece == a || first.unwrap().piece == b)
}

/// A position is attacked by the other player than `player`.
pub open spec fn is_attacked(squares: Seq<Option<Piece>>, p: Position, player: Player) -> bool {
    let enemy = opponent(player);
    let d = spec_pawn_direction(player) as int;
    let pawn = Piece { piece: PieceType::Pawn, player: enemy };
    let knight = Piece { piece: PieceType::Knight, player: enemy };
    let king = Piece { piece: PieceType::King, player: enemy };
    ||| holds(squares, step(p, d, -1), pawn)
    ||| holds(squares, step(p, d, 1), pawn)
    ||| holds(squares, step(p, -1, -2), knight)
    ||| holds(squares, step(p, -1, 2), knight)
    ||| holds(squares, step(p, -2, -1), knight)
    ||| holds(squares, step(p, -2, 1), knight)
    ||| holds(squares, step(p, 2, -1), knight)
    ||| holds(squares, step(p, 2, 1), knight)
    ||| holds(squares, step(p, 1, -2), knight)
    ||| holds(squares, step(p, 1, 2), knight)
    ||| enemy_slider(squares, p, -1, -1, enemy, PieceType::Bishop, PieceType::Queen)
    ||| enemy_slider(squares, p, -1, 1, enemy, PieceType::Bishop, PieceType::Queen)
    ||| enemy_slider(squares, p, 1, -1, enemy, PieceType::Bishop, PieceType::Queen)
    ||| enemy_slider(squares, p, 1, 1, enemy, PieceType::Bishop, PieceType::Queen)
    ||| enemy_slider(squares, p, 0, -1, enemy, PieceType::Rook, PieceType::Queen)
    ||| enemy_slider(squares, p, 0, 1, enemy, PieceType::Rook, PieceType::Queen)
    ||| enemy_slider(squares, p, -1, 0, enemy, PieceType::Rook, PieceType::Queen)
    ||| enemy_slider(squares, p, 1, 0, enemy, PieceType::Rook, PieceType::Queen)
    ||| holds(squares, step(p, -1, -1), king)
    ||| holds(squares, step(p, -1, 0), king)
    ||| holds(squares, step(p, -1, 1), king)
    ||| holds(squares, step(p, 0, -1), king)
    ||| holds(squares, step(p, 0, 1), king)
    ||| holds(squares, step(p, 1, -1), king)
    ||| holds(squares, step(p, 1, 0), king)
    ||| holds(squares, step(p, 1, 1), king)
}

/// The en passant capture onto `p`: `p` is empty, the square behind it holds
/// an enemy piece, and that piece is the pawn that passed in the last move.
pub open spec fn en_passant_target(squares: Seq<Option<Piece>>, p: Option<Position>, direction: int, player: Player, last_move: Option<MoveInfo>) -> Option<Position> {
    match only_empty(squares, p) {
        None => None,
        Some(q) => match (last_move, only_enemy(squares, step(q, -direction, 0), player)) {
            (Some(lm), Some(passed)) =>
                if passed == lm.mv.target && lm.info == MoveExtraInfo::Passed { p } else { None },
            _ => None,
        },
    }
}

/// The rank from which a pawn of a player may advance two squares.
pub open spec fn pass_rank(player: Player) -> usize {
    match player {
        Player::White => 1,
        Player::Black => 6,
    }
}

/// The squares a pawn reaches, in the order the engine tries them.
pub open spec fn pawn_targets(squares: Seq<Option<Piece>>, p: Position, player: Player, last_move: Option<MoveInfo>) -> Seq<Position> {
    let d = spec_pawn_direction(player) as int;
    let forward = only_empty(squares, step(p, d, 0));
    let pass = if p.rank == pass_rank(player) && forward is Some {
        only_empty(squares, step(p, 2 * d, 0))
    } else {
        None
    };
    opt_seq(forward)
        + opt_seq(pass)
        + opt_seq(only_enemy(squares, step(p, d, -1), player))
        + opt_seq(only_enemy(squares, step(p, d, 1), player))
        + opt_seq(en_passant_target(squares, step(p, d, -1), d, player, last_move))
        + opt_seq(en_passant_target(squares, step(p, d, 1), d, player, last_move))
}

/// The squares one step away that are empty or hold an enemy piece.
pub open spec fn leap(squares: Seq<Option<Piece>>, p: Position, dr: int, df: int, player: Player) -> Seq<Position> {
    opt_seq(only_empty_or_enemy(squares, step(p, dr, df), player))
}

pub open spec fn knight_targets(squares: Seq<Option<Piece>>, p: Position, player: Player) -> Seq<Position> {
    leap(squares, p, -1, -2, player) + leap(squares, p, -1, 2, player)
        + leap(squares, p, -2, -1, player) + leap(squares, p, -2, 1, player)
        + leap(squares, p, 2, -1, player) + leap(squares, p, 2, 1, player)
        + leap(squares, p, 1, -2, player) + leap(squares, p, 1, 2, player)
}

pub open spec fn diagonal_targets(squares: Seq<Option<Piece>>, p: Position, player: Player) -> Seq<Position> {
    ray_targets(squares, p, -1, -1, player, board_fuel())
        + ray_targets(squares, p, -1, 1, player, board_fuel())
        + ray_targets(squares, p, 1, -1, player, board_fuel())
        + ray_targets(squares, p, 1, 1, player, board_fuel())
}

pub open spec fn straight_targets(squares: Seq<Option<Piece>>, p: Position, player: Player) -> Seq<Position> {
    ray_targets(squares, p, 0, -1, player, board_fuel())
        + ray_targets(squares, p, 0, 1, player, board_fuel())
        + ray_targets(squares, p, -1, 0, player, board_fuel())
        + ray_targets(squares, p, 1, 0, player, board_fuel())
}

pub open spec fn spec_can_castle_kingside(info: GameInfo, player: Player) -> bool {
    match player {
        Player::White => info.white_kingside_castling_allowed,
        Player::Black => info.black_kingside_castling_allowed,
    }
}

pub open spec fn spec_can_castle_queenside(info: GameInfo, player: Player) -> bool {
    match player {
        Player::White => info.white_queenside_castling_allowed,
        Player::Black => info.black_queenside_castling_allowed,
    }
}

/// The king's target of castling kingside: the castling right holds and the
/// two squares to the right are empty.
pub open spec fn kingside_castle_target(squares: Seq<Option<Piece>>, p: Position, player: Player, info: GameInfo) -> Option<Position> {
    if spec_can_castle_kingside(info, player) && only_empty(squares, step(p, 0, 1)) is Some {
        only_empty(squares, step(p, 0, 2))
    } else {
        None
    }
}

/// The king's target of castling queenside: the castling right holds and the
/// three squares to the left are empty.
pub open spec fn queenside_castle_target(squares: Seq<Option<Piece>>, p: Position, player: Player, info: GameInfo) -> Option<Position> {
    if spec_can_castle_queenside(info, player) && only_empty(squares, step(p, 0, -1)) is Some
        && only_empty(squares, step(p, 0, -3)) is Some {
        only_empty(squares, step(p, 0, -2))
    } else {
        None
    }
}

pub open spec fn king_targets(squares: Seq<Option<Piece>>, p: Position, player: Player, info: GameInfo) -> Seq<Position> {
    leap(squares, p, -1, -1, player) + leap(squares, p, -1, 0, player)
        + leap(squares, p, -1, 1, player) + leap(squares, p, 0, -1, player)
        + leap(squares, p, 0, 1, player) + leap(squares, p, 1, -1, player)
        + leap(squares, p, 1, 0, player) + leap(squares, p, 1, 1, player)
        + opt_seq(kingside_castle_target(squares, p, player, info))
        + opt_seq(queenside_castle_target(squares, p, player, info))
}

/// The squares the piece on a position reaches, ignoring checks, in the
/// order the engine tries them.
pub open spec fn piece_targets(g: GameView, p: Position) -> Seq<Position> {
    match sq_at(g.squares, p) {
        None => Seq::empty(),
        Some(piece) => match piece.piece {
            PieceType::Pawn => pawn_targets(g.squares, p, piece.player, g.last_move),
            PieceType::Knight => knight_targets(g.squares, p, piece.player),
            PieceType::Bishop => diagonal_targets(g.squares, p, piece.player),
            PieceType::Rook => straight_targets(g.squares, p, piece.player),
            PieceType::Queen => diagonal_targets(g.squares, p, piece.player) + straight_targets(g.squares, p, piece.player),
            PieceType::King => king_targets(g.squares, p, piece.player, g.info),
        },
    }
}

/// The moves to one target: a plain move, or a plain move followed by the
/// four promotions when the pawn may promote.
pub open spec fn target_moves(source: Position, target: Position, promote: bool) -> Seq<MoveAction> {
    let mv = Move { source, target };
    if promote {
        seq![
            MoveAction { mv, move_type: MoveActionType::Normal },
            MoveAction { mv, move_type: MoveActionType::Promotion(PromotionPieces::Knight) },
            MoveAction { mv, move_type: MoveActionType::Promotion(PromotionPieces::Bishop) },
            MoveAction { mv, move_type: MoveActionType::Promotion(PromotionPieces::Rook) },
            MoveAction { mv, move_type: MoveActionType::Promotion(PromotionPieces::Queen) },
        ]
    } else {
        seq![MoveAction { mv, move_type: MoveActionType::Normal }]
    }
}

/// The moves to each target in turn.
pub open spec fn moves_to_targets(source: Position, targets: Seq<Position>, promote: bool) -> Seq<MoveAction>
    decreases targets.len(),
{
    if targets.len() == 0 {
        Seq::empty()
    } else {
        moves_to_targets(source, targets.drop_last(), promote) + target_moves(source, targets.last(), promote)
    }
}

/// The piece on a position is a pawn about to promote for the player to move.
pub open spec fn may_promote(g: GameView, p: Position) -> bool {
    sq_at(g.squares, p) is Some && sq_at(g.squares, p).unwrap().piece == PieceType::Pawn
        && p.rank == spec_can_promote_rank(g.player)
}

/// The moves of the piece on a position, ignoring checks.
pub open spec fn pseudo_moves(g: GameView, p: Position) -> Seq<MoveAction> {
    moves_to_targets(p, piece_targets(g, p), may_promote(g, p))
}

/// The kind of a move, or `None` when the move cannot be made.
pub open spec fn move_kind(squares: Seq<Option<Piece>>, action: MoveAction) -> Option<MoveExtraInfo> {
    let mv = action.mv;
    match sq_at(squares, mv.source) {
        None => None,
        Some(piece) => match piece.piece {
            PieceType::Pawn => {
                if mv.source.rank - mv.target.rank == 2 || mv.target.rank - mv.source.rank == 2 {
                    Some(MoveExtraInfo::Passed)
                } else if mv.source.file != mv.target.file && is_empty(squares, mv.target) {
                    Some(MoveExtraInfo::EnPassant)
                } else if mv.target.rank == spec_promotion_rank(piece.player) {
                    match action.move_type {
                        MoveActionType::Normal => None,
                        MoveActionType::Promotion(p) => Some(MoveExtraInfo::Promotion(p)),
                    }
                } else {
                    Some(MoveExtraInfo::Other)
                }
            },
            PieceType::King => {
                if mv.source.file - mv.target.file == 2 || mv.target.file - mv.source.file == 2 {
                    if mv.target.file == 2 {
                        Some(MoveExtraInfo::CastleQueenside)
                    } else if mv.target.file == 6 {
                        Some(MoveExtraInfo::CastleKingside)
                    } else {
                        None
                    }
                } else {
                    Some(MoveExtraInfo::Other)
                }
            },
            _ => Some(MoveExtraInfo::Other),
        },
    }
}

/// A move of the engine can be made without a missing square: the en passant
/// capture has an enemy piece behind its target, and castling has a rook
/// square three or four files away.
pub open spec fn move_makeable(squares: Seq<Option<Piece>>, action: MoveAction) -> bool {
    let mv = action.mv;
    match move_kind(squares, action) {
        Some(MoveExtraInfo::EnPassant) => {
            let player = sq_at(squares, mv.source).unwrap().player;
            let behind = step(mv.target, -(spec_pawn_direction(player) as int), 0);
            behind is Some && holds_enemy(squares, behind.unwrap(), player)
        },
        Some(MoveExtraInfo::CastleKingside) => step(mv.source, 0, 3) is Some,
        Some(MoveExtraInfo::CastleQueenside) => step(mv.source, 0, -4) is Some,
        _ => true,
    }
}

/// Moves the content of a square, as a board with `stored` does.
pub open spec fn move_squares(squares: Seq<Option<Piece>>, source: Position, target: Position, stored: spec_fn(Option<Piece>, Option<Piece>) -> Option<Piece>) -> Seq<Option<Piece>> {
    if source == target {
        squares.update(square_index(source), None)
    } else {
        squares.update(square_index(target), stored(sq_at(squares, target), sq_at(squares, source)))
            .update(square_index(source), None)
    }
}

/// Stores a value on a square, as a board with `stored` does.
pub open spec fn store_square(squares: Seq<Option<Piece>>, p: Position, value: Option<Piece>, stored: spec_fn(Option<Piece>, Option<Piece>) -> Option<Piece>) -> Seq<Option<Piece>> {
    squares.update(square_index(p), stored(sq_at(squares, p), value))
}

/// The squares after a move of a given kind.
pub open spec fn moved_squares(squares: Seq<Option<Piece>>, action: MoveAction, kind: MoveExtraInfo, stored: spec_fn(Option<Piece>, Option<Piece>) -> Option<Piece>) -> Seq<Option<Piece>> {
    let mv = action.mv;
    let piece = sq_at(squares, mv.source).unwrap();
    let after = move_squares(squares, mv.source, mv.target, stored);
    match kind {
        MoveExtraInfo::EnPassant => {
            let behind = step(mv.target, -(spec_pawn_direction(piece.player) as int), 0).unwrap();
            store_square(after, behind, None, stored)
        },
        MoveExtraInfo::Promotion(p) =>
            store_square(after, mv.target, Some(Piece { piece: promoted_type(p), player: piece.player }), stored),
        MoveExtraInfo::CastleKingside =>
            move_squares(after, step(mv.source, 0, 3).unwrap(), step(mv.source, 0, 1).unwrap(), stored),
        MoveExtraInfo::CastleQueenside =>
            move_squares(after, step(mv.source, 0, -4).unwrap(), step(mv.source, 0, -1).unwrap(), stored),
        _ => after,
    }
}

pub open spec fn without_kingside(info: GameInfo, player: Player) -> GameInfo {
    match player {
        Player::White => GameInfo { white_kingside_castling_allowed: false, ..info },
        Player::Black => GameInfo { black_kingside_castling_allowed: false, ..info },
    }
}

pub open spec fn without_queenside(info: GameInfo, player: Player) -> GameInfo {
    match player {
        Player::White => GameInfo { white_queenside_castling_allowed: false, ..info },
        Player::Black => GameInfo { black_queenside_castling_allowed: false, ..info },
    }
}

/// The castling right lost when a rook leaves or is taken on a square.
pub open spec fn rook_square_rights(info: GameInfo, p: Position, owner: Player) -> GameInfo {
    if p.rank == spec_home_rank(owner) && p.file == 0 {
        without_queenside(info, owner)
    } else if p.rank == spec_home_rank(owner) && p.file == 7 {
        without_kingside(info, owner)
    } else {
        info
    }
}

/// The castling rights after a move.
pub open spec fn moved_rights(squares: Seq<Option<Piece>>, info: GameInfo, mv: Move) -> GameInfo {
    let piece = sq_at(squares, mv.source).unwrap();
    let after_mover = if piece.piece == PieceType::King {
        without_queenside(without_kingside(info, piece.player), piece.player)
    } else if piece.piece == PieceType::Rook {
        rook_square_rights(info, mv.source, piece.player)
    } else {
        info
    };
    match sq_at(squares, mv.target) {
        Some(captured) => if captured.piece == PieceType::Rook {
            rook_square_rights(after_mover, mv.target, captured.player)
        } else {
            after_mover
        },
        None => after_mover,
    }
}

/// The game after a move of a given kind.
pub open spec fn moved_game(g: GameView, action: MoveAction, kind: MoveExtraInfo, stored: spec_fn(Option<Piece>, Option<Piece>) -> Option<Piece>) -> GameView {
    GameView {
        squares: moved_squares(g.squares, action, kind, stored),
        player: opponent(g.player),
        last_move: Some(MoveInfo { mv: action.mv, info: kind }),
        info: moved_rights(g.squares, g.info, action.mv),
    }
}

/// The position of the first king of a player, rank by rank.
pub open spec fn king_index_from(squares: Seq<Option<Piece>>, player: Player, i: int) -> int
    decreases 64 - i,
{
    if i >= 64 {
        64
    } else if squares[i] == Some(Piece { piece: PieceType::King, player }) {
        i
    } else {
        king_index_from(squares, player, i + 1)
    }
}

pub open spec fn has_king(squares: Seq<Option<Piece>>, player: Player) -> bool {
    exists|i: int| 0 <= i < 64 && squares[i] == Some(Piece { piece: PieceType::King, player })
}

pub open spec fn king_position(squares: Seq<Option<Piece>>, player: Player) -> Position {
    index_position(king_index_from(squares, player, 0))
}

/// An empty square that the other player does not attack.
pub open spec fn empty_and_safe(squares: Seq<Option<Piece>>, p: Option<Position>, player: Player) -> bool {
    match only_empty(squares, p) {
        Some(q) => !is_attacked(squares, q, player),
        None => false,
    }
}

/// A castling move passes only over empty squares that the other player
/// does not attack, and starts out of check.
pub open spec fn castling_allowed(g: GameView, mv: Move, king: Position, player: Player) -> bool {
    if mv.source == king && (mv.source.file - mv.target.file == 2 || mv.target.file - mv.source.file == 2) {
        (if mv.target.file == 2 {
            empty_and_safe(g.squares, step(mv.source, 0, -1), player) && empty_and_safe(g.squares, step(mv.source, 0, -2), player)
        } else {
            empty_and_safe(g.squares, step(mv.source, 0, 1), player) && empty_and_safe(g.squares, step(mv.source, 0, 2), player)
        }) && !is_attacked(g.squares, king, player)
    } else {
        true
    }
}

/// A move of the player's pieces leaves the player's king (standing on
/// `king`, or moving) out of attack.
pub open spec fn move_keeps_king_safe(g: GameView, action: MoveAction, king: Position, stored: spec_fn(Option<Piece>, Option<Piece>) -> Option<Piece>) -> bool {
    let player = sq_at(g.squares, king).unwrap().player;
    &&& castling_allowed(g, action.mv, king, player)
    &&& move_kind(g.squares, action) is Some
    &&& {
        let after = moved_game(g, action, move_kind(g.squares, action).unwrap(), stored);
        let new_king = if action.mv.source == king { action.mv.target } else { king };
        !is_attacked(after.squares, new_king, sq_at(after.squares, new_king).unwrap().player)
    }
}

/// The legal moves of the piece on a position, for the player to move.
pub open spec fn legal_moves(g: GameView, p: Position, stored: spec_fn(Option<Piece>, Option<Piece>) -> Option<Piece>) -> Seq<MoveAction> {
    let king = if sq_at(g.squares, p) is Some && sq_at(g.squares, p).unwrap().piece == PieceType::King {
        p
    } else {
        king_position(g.squares, g.player)
    };
    if sq_at(g.squares, p) is None {
        Seq::empty()
    } else {
        pseudo_moves(g, p).filter(|m: MoveAction| move_keeps_king_safe(g, m, king, stored))
    }
}

/// A king of `player` on `file` may hold the castling rights it holds: each
/// right either castles from the e-file to the g- or c-file, or leads off
/// the board (kingside from the g-file, queenside from the b- or c-file).
/// A king in a corner is where castling takes a rook from, so a right there
/// could be carried to a file from which it leads to another square.
pub open spec fn castle_file_ok(info: GameInfo, player: Player, file: usize) -> bool {
    &&& spec_can_castle_kingside(info, player) ==> (file == 4 || file == 6)
    &&& spec_can_castle_queenside(info, player) ==> (file == 4 || file == 1 || file == 2)
}

/// Every king stands on a file from which its castling rights lead to the
/// c- or g-file, or nowhere.
pub open spec fn castling_consistent(g: GameView) -> bool {
    forall|i: int|
        0 <= i < 64 && (#[trigger] g.squares[i]) is Some && g.squares[i].unwrap().piece == PieceType::King
            ==> castle_file_ok(g.info, g.squares[i].unwrap().player, index_position(i).file)
}

/// The legal moves of all the pieces of the player to move, piece by piece
/// in board order, for the first `n` squares.
pub open spec fn all_legal_moves_upto(g: GameView, n: int, stored: spec_fn(Option<Piece>, Option<Piece>) -> Option<Piece>) -> Seq<MoveAction>
    decreases n,
{
    if n <= 0 {
        Seq::empty()
    } else {
        let p = index_position(n - 1);
        all_legal_moves_upto(g, n - 1, stored) + if sq_at(g.squares, p) is Some && sq_at(g.squares, p).unwrap().player == g.player {
            legal_moves(g, p, stored)
        } else {
            Seq::empty()
        }
    }
}

/// The legal moves of the player to move.
pub open spec fn all_legal_moves(g: GameView, stored: spec_fn(Option<Piece>, Option<Piece>) -> Option<Piece>) -> Seq<MoveAction> {
    all_legal_moves_upto(g, 64, stored)
}

/// The move from `p` to `t` of a given type.
pub open spec fn move_of(p: Position, t: Position, mt: MoveActionType) -> MoveAction {
    MoveAction { mv: Move { source: p, target: t }, move_type: mt }
}

/// What a move from `p` to `t` needs for the engine to try it safely: `t` is
/// on the board and empty or held by the other player, an en passant capture
/// has a piece of the other player behind `t`, and castling keeps to the
/// c- and g-files with a rook square beyond.
pub open spec fn target_ok(g: GameView, p: Position, t: Position) -> bool {
    let piece = sq_at(g.squares, p).unwrap();
    &&& valid_position(t)
    &&& is_empty(g.squares, t) || holds_enemy(g.squares, t, piece.player)
    &&& forall|mt: MoveActionType| move_makeable(g.squares, #[trigger] move_of(p, t, mt))
    &&& (piece.piece == PieceType::King && (p.file - t.file == 2 || t.file - p.file == 2)) ==> (t.file == 2 || t.file == 6)
}

pub proof fn lemma_ray_targets_ok(squares: Seq<Option<Piece>>, p: Position, dr: int, df: int, player: Player, fuel: nat)
    requires
        valid_position(p),
    ensures
        forall|i: int| 0 <= i < ray_targets(squares, p, dr, df, player, fuel).len() ==> {
            let t = #[trigger] ray_targets(squares, p, dr, df, player, fuel)[i];
            valid_position(t) && (is_empty(squares, t) || holds_enemy(squares, t, player))
        },
    decreases fuel,
{
    if fuel > 0 {
        match step(p, dr, df) {
            None => {},
            Some(q) => {
                lemma_ray_targets_ok(squares, q, dr, df, player, (fuel - 1) as nat);
                let rest = ray_targets(squares, q, dr, df, player, (fuel - 1) as nat);
                if is_empty(squares, q) {
                    let all = ray_targets(squares, p, dr, df, player, fuel);
                    assert(all == seq![q] + rest);
                    assert forall|i: int| 0 <= i < all.len() implies {
                        let t = #[trigger] all[i];
                        valid_position(t) && (is_empty(squares, t) || holds_enemy(squares, t, player))
                    } by {
                        if i > 0 {
                            assert(all[i] == rest[i - 1]);
                        }
                    }
                }
            },
        }
    }
}

/// Every position of a sequence satisfies a predicate.
pub open spec fn all_positions(s: Seq<Position>, f: spec_fn(Position) -> bool) -> bool {
    forall|i: int| 0 <= i < s.len() ==> f(#[trigger] s[i])
}

pub proof fn lemma_all_add(a: Seq<Position>, b: Seq<Position>, f: spec_fn(Position) -> bool)
    requires
        all_positions(a, f),
        all_positions(b, f),
    ensures
        all_positions(a + b, f),
{
    assert forall|i: int| 0 <= i < (a + b).len() implies f(#[trigger] (a + b)[i]) by {
        if i < a.len() {
            assert((a + b)[i] == a[i]);
        } else {
            assert((a + b)[i] == b[i - a.len()]);
        }
    }
}

/// The squares a pawn reaches are safe for the engine to try.
proof fn lemma_pawn_targets_ok(g: GameView, p: Position)
    requires
        valid_position(p),
        g.squares.len() == 64,
        sq_at(g.squares, p) is Some,
        sq_at(g.squares, p).unwrap().piece == PieceType::Pawn,
    ensures
        all_positions(piece_targets(g, p), |t: Position| target_ok(g, p, t)),
{
    let piece = sq_at(g.squares, p).unwrap();
    let player = piece.player;
    let sq = g.squares;
    let f = |t: Position| target_ok(g, p, t);
    let d = spec_pawn_direction(player) as int;
    let forward = only_empty(sq, step(p, d, 0));
    let pass = if p.rank == pass_rank(player) && forward is Some { only_empty(sq, step(p, 2 * d, 0)) } else { None };
    let cl = only_enemy(sq, step(p, d, -1), player);
    let cr = only_enemy(sq, step(p, d, 1), player);
    let el = en_passant_target(sq, step(p, d, -1), d, player, g.last_move);
    let er = en_passant_target(sq, step(p, d, 1), d, player, g.last_move);
    assert forall|mt: MoveActionType| forward is Some implies move_makeable(sq, #[trigger] move_of(p, forward.unwrap(), mt)) by {}
    assert forall|mt: MoveActionType| pass is Some implies move_makeable(sq, #[trigger] move_of(p, pass.unwrap(), mt)) by {}
    assert forall|mt: MoveActionType| cl is Some implies move_makeable(sq, #[trigger] move_of(p, cl.unwrap(), mt)) by {}
    assert forall|mt: MoveActionType| cr is Some implies move_makeable(sq, #[trigger] move_of(p, cr.unwrap(), mt)) by {}
    assert forall|mt: MoveActionType| el is Some implies move_makeable(sq, #[trigger] move_of(p, el.unwrap(), mt)) by {}
    assert forall|mt: MoveActionType| er is Some implies move_makeable(sq, #[trigger] move_of(p, er.unwrap(), mt)) by {}
    assert(all_positions(opt_seq(forward), f));
    assert(all_positions(opt_seq(pass), f));
    assert(all_positions(opt_seq(cl), f));
    assert(all_positions(opt_seq(cr), f));
    assert(all_positions(opt_seq(el), f));
    assert(all_positions(opt_seq(er), f));
    lemma_all_add(opt_seq(forward), opt_seq(pass), f);
    lemma_all_add(opt_seq(forward) + opt_seq(pass), opt_seq(cl), f);
    lemma_all_add(opt_seq(forward) + opt_seq(pass) + opt_seq(cl), opt_seq(cr), f);
    lemma_all_add(opt_seq(forward) + opt_seq(pass) + opt_seq(cl) + opt_seq(cr), opt_seq(el), f);
    lemma_all_add(opt_seq(forward) + opt_seq(pass) + opt_seq(cl) + opt_seq(cr) + opt_seq(el), opt_seq(er), f);
}

/// A leap of a knight or a king is safe for the engine to try.
proof fn lemma_leap_ok(g: GameView, p: Position, dr: int, df: int)
    requires
        valid_position(p),
        g.squares.len() == 64,
        sq_at(g.squares, p) is Some,
        sq_at(g.squares, p).unwrap().piece != PieceType::Pawn,
        -1 <= df <= 1 || sq_at(g.squares, p).unwrap().piece != PieceType::King,
    ensures
        all_positions(leap(g.squares, p, dr, df, sq_at(g.squares, p).unwrap().player), |t: Position| target_ok(g, p, t)),
{
    let player = sq_at(g.squares, p).unwrap().player;
    let l = only_empty_or_enemy(g.squares, step(p, dr, df), player);
    assert forall|mt: MoveActionType| l is Some implies move_makeable(g.squares, #[trigger] move_of(p, l.unwrap(), mt)) by {}
}

proof fn lemma_knight_targets_ok(g: GameView, p: Position)
    requires
        valid_position(p),
        g.squares.len() == 64,
        sq_at(g.squares, p) is Some,
        sq_at(g.squares, p).unwrap().piece == PieceType::Knight,
    ensures
        all_positions(piece_targets(g, p), |t: Position| target_ok(g, p, t)),
{
    let player = sq_at(g.squares, p).unwrap().player;
    let sq = g.squares;
    let f = |t: Position| target_ok(g, p, t);
    lemma_leap_ok(g, p, -1, -2);
    lemma_leap_ok(g, p, -1, 2);
    lemma_leap_ok(g, p, -2, -1);
    lemma_leap_ok(g, p, -2, 1);
    lemma_leap_ok(g, p, 2, -1);
    lemma_leap_ok(g, p, 2, 1);
    lemma_leap_ok(g, p, 1, -2);
    lemma_leap_ok(g, p, 1, 2);
    let l1 = leap(sq, p, -1, -2, player);
    let l2 = leap(sq, p, -1, 2, player);
    let l3 = leap(sq, p, -2, -1, player);
    let l4 = leap(sq, p, -2, 1, player);
    let l5 = leap(sq, p, 2, -1, player);
    let l6 = leap(sq, p, 2, 1, player);
    let l7 = leap(sq, p, 1, -2, player);
    let l8 = leap(sq, p, 1, 2, player);
    lemma_all_add(l1, l2, f);
    lemma_all_add(l1 + l2, l3, f);
    lemma_all_add(l1 + l2 + l3, l4, f);
    lemma_all_add(l1 + l2 + l3 + l4, l5, f);
    lemma_all_add(l1 + l2 + l3 + l4 + l5, l6, f);
    lemma_all_add(l1 + l2 + l3 + l4 + l5 + l6, l7, f);
    lemma_all_add(l1 + l2 + l3 + l4 + l5 + l6 + l7, l8, f);
}

/// A ray of a sliding piece is safe for the engine to try.
proof fn lemma_ray_ok(g: GameView, p: Position, dr: int, df: int)
    requires
        valid_position(p),
        g.squares.len() == 64,
        sq_at(g.squares, p) is Some,
        sq_at(g.squares, p).unwrap().piece == PieceType::Bishop || sq_at(g.squares, p).unwrap().piece == PieceType::Rook
            || sq_at(g.squares, p).unwrap().piece == PieceType::Queen,
    ensures
        all_positions(ray_targets(g.squares, p, dr, df, sq_at(g.squares, p).unwrap().player, board_fuel()), |t: Position| target_ok(g, p, t)),
{
    let player = sq_at(g.squares, p).unwrap().player;
    lemma_ray_targets_ok(g.squares, p, dr, df, player, board_fuel());
    let r = ray_targets(g.squares, p, dr, df, player, board_fuel());
    assert forall|i: int| 0 <= i < r.len() implies target_ok(g, p, #[trigger] r[i]) by {
        assert forall|mt: MoveActionType| move_makeable(g.squares, #[trigger] move_of(p, r[i], mt)) by {}
    }
}

proof fn lemma_slider_targets_ok(g: GameView, p: Position)
    requires
        valid_position(p),
        g.squares.len() == 64,
        sq_at(g.squares, p) is Some,
        sq_at(g.squares, p).unwrap().piece == PieceType::Bishop || sq_at(g.squares, p).unwrap().piece == PieceType::Rook
            || sq_at(g.squares, p).unwrap().piece == PieceType::Queen,
    ensures
        all_positions(piece_targets(g, p), |t: Position| target_ok(g, p, t)),
{
    let player = sq_at(g.squares, p).unwrap().player;
    let sq = g.squares;
    let f = |t: Position| target_ok(g, p, t);
    lemma_ray_ok(g, p, -1, -1);
    lemma_ray_ok(g, p, -1, 1);
    lemma_ray_ok(g, p, 1, -1);
    lemma_ray_ok(g, p, 1, 1);
    lemma_ray_ok(g, p, 0, -1);
    lemma_ray_ok(g, p, 0, 1);
    lemma_ray_ok(g, p, -1, 0);
    lemma_ray_ok(g, p, 1, 0);
    let r1 = ray_targets(sq, p, -1, -1, player, board_fuel());
    let r2 = ray_targets(sq, p, -1, 1, player, board_fuel());
    let r3 = ray_targets(sq, p, 1, -1, player, board_fuel());
    let r4 = ray_targets(sq, p, 1, 1, player, board_fuel());
    let r5 = ray_targets(sq, p, 0, -1, player, board_fuel());
    let r6 = ray_targets(sq, p, 0, 1, player, board_fuel());
    let r7 = ray_targets(sq, p, -1, 0, player, board_fuel());
    let r8 = ray_targets(sq, p, 1, 0, player, board_fuel());
    lemma_all_add(r1, r2, f);
    lemma_all_add(r1 + r2, r3, f);
    lemma_all_add(r1 + r2 + r3, r4, f);
    lemma_all_add(r5, r6, f);
    lemma_all_add(r5 + r6, r7, f);
    lemma_all_add(r5 + r6 + r7, r8, f);
    lemma_all_add(r1 + r2 + r3 + r4, r5 + r6 + r7 + r8, f);
    assert(diagonal_targets(sq, p, player) == r1 + r2 + r3 + r4);
    assert(straight_targets(sq, p, player) == r5 + r6 + r7 + r8);
}

proof fn lemma_king_targets_ok(g: GameView, p: Position)
    requires
        valid_position(p),
        g.squares.len() == 64,
        sq_at(g.squares, p) is Some,
        sq_at(g.squares, p).unwrap().piece == PieceType::King,
        castling_consistent(g),
    ensures
        all_positions(piece_targets(g, p), |t: Position| target_ok(g, p, t)),
{
    let player = sq_at(g.squares, p).unwrap().player;
    let sq = g.squares;
    let f = |t: Position| target_ok(g, p, t);
    let ks = kingside_castle_target(sq, p, player, g.info);
    let qs = queenside_castle_target(sq, p, player, g.info);
    assert(index_position(square_index(p)) == p);
    assert(sq[square_index(p)] == sq_at(sq, p));
    assert forall|mt: MoveActionType| ks is Some implies move_makeable(sq, #[trigger] move_of(p, ks.unwrap(), mt)) by {}
    assert forall|mt: MoveActionType| qs is Some implies move_makeable(sq, #[trigger] move_of(p, qs.unwrap(), mt)) by {}
    assert(all_positions(opt_seq(ks), f));
    assert(all_positions(opt_seq(qs), f));
    lemma_leap_ok(g, p, -1, -1);
    lemma_leap_ok(g, p, -1, 0);
    lemma_leap_ok(g, p, -1, 1);
    lemma_leap_ok(g, p, 0, -1);
    lemma_leap_ok(g, p, 0, 1);
    lemma_leap_ok(g, p, 1, -1);
    lemma_leap_ok(g, p, 1, 0);
    lemma_leap_ok(g, p, 1, 1);
    let l1 = leap(sq, p, -1, -1, player);
    let l2 = leap(sq, p, -1, 0, player);
    let l3 = leap(sq, p, -1, 1, player);
    let l4 = leap(sq, p, 0, -1, player);
    let l5 = leap(sq, p, 0, 1, player);
    let l6 = leap(sq, p, 1, -1, player);
    let l7 = leap(sq, p, 1, 0, player);
    let l8 = leap(sq, p, 1, 1, player);
    lemma_all_add(l1, l2, f);
    lemma_all_add(l1 + l2, l3, f);
    lemma_all_add(l1 + l2 + l3, l4, f);
    lemma_all_add(l1 + l2 + l3 + l4, l5, f);
    lemma_all_add(l1 + l2 + l3 + l4 + l5, l6, f);
    lemma_all_add(l1 + l2 + l3 + l4 + l5 + l6, l7, f);
    lemma_all_add(l1 + l2 + l3 + l4 + l5 + l6 + l7, l8, f);
    lemma_all_add(l1 + l2 + l3 + l4 + l5 + l6 + l7 + l8, opt_seq(ks), f);
    lemma_all_add(l1 + l2 + l3 + l4 + l5 + l6 + l7 + l8 + opt_seq(ks), opt_seq(qs), f);
}

/// The squares a piece reaches are safe for the engine to try.
pub proof fn lemma_piece_targets_ok(g: GameView, p: Position)
    requires
        valid_position(p),
        g.squares.len() == 64,
        sq_at(g.squares, p) is Some,
        castling_consistent(g),
    ensures
        all_positions(piece_targets(g, p), |t: Position| target_ok(g, p, t)),
{
    match sq_at(g.squares, p).unwrap().piece {
        PieceType::Pawn => lemma_pawn_targets_ok(g, p),
        PieceType::Knight => lemma_knight_targets_ok(g, p),
        PieceType::King => lemma_king_targets_ok(g, p),
        _ => lemma_slider_targets_ok(g, p),
    }
}

/// `k` steps of `d` (a step of -1, 0 or 1).
pub open spec fn mul_dir(k: int, d: int) -> int {
    if d == 1 {
        k
    } else if d == -1 {
        -k
    } else {
        0
    }
}

/// The position `k` steps away in a direction, if it lies on the board.
pub open spec fn walk(p: Position, dr: int, df: int, k: int) -> Option<Position> {
    position_if_valid(p.rank + mul_dir(k, dr), p.file + mul_dir(k, df))
}

/// A unit direction: each coordinate is -1, 0 or 1, and not both 0.
pub open spec fn unit_direction(dr: int, df: int) -> bool {
    -1 <= dr <= 1 && -1 <= df <= 1 && !(dr == 0 && df == 0)
}

/// Walking from `p`, the squares before the `n`-th step are empty.
pub open spec fn clear_walk(squares: Seq<Option<Piece>>, p: Position, dr: int, df: int, n: int) -> bool {
    forall|j: int| 1 <= j < n ==> (#[trigger] walk(p, dr, df, j)) is Some && is_empty(squares, walk(p, dr, df, j).unwrap())
}

/// The first piece in a direction, found `n` steps away past empty squares.
pub proof fn lemma_ray_first_hits(squares: Seq<Option<Piece>>, p: Position, dr: int, df: int, n: int, fuel: nat)
    requires
        valid_position(p),
        unit_direction(dr, df),
        1 <= n <= fuel,
        walk(p, dr, df, n) is Some,
        sq_at(squares, walk(p, dr, df, n).unwrap()) is Some,
        clear_walk(squares, p, dr, df, n),
    ensures
        ray_first(squares, p, dr, df, fuel) == sq_at(squares, walk(p, dr, df, n).unwrap()),
    decreases n,
{
    assert(walk(p, dr, df, 1) == step(p, dr, df));
    if n > 1 {
        assert(walk(p, dr, df, 1) is Some);
        let q = step(p, dr, df).unwrap();
        assert forall|j: int| 1 <= j < n - 1 implies (#[trigger] walk(q, dr, df, j)) is Some && is_empty(squares, walk(q, dr, df, j).unwrap()) by {
            assert(walk(q, dr, df, j) == walk(p, dr, df, j + 1));
            assert(walk(p, dr, df, j + 1) is Some);
        }
        assert(walk(q, dr, df, n - 1) == walk(p, dr, df, n));
        lemma_ray_first_hits(squares, q, dr, df, n - 1, (fuel - 1) as nat);
    }
}

/// Where the first piece in a direction stands.
pub proof fn lemma_ray_first_found(squares: Seq<Option<Piece>>, p: Position, dr: int, df: int, fuel: nat) -> (n: int)
    requires
        valid_position(p),
        unit_direction(dr, df),
        ray_first(squares, p, dr, df, fuel) is Some,
    ensures
        1 <= n <= fuel,
        walk(p, dr, df, n) is Some,
        sq_at(squares, walk(p, dr, df, n).unwrap()) == ray_first(squares, p, dr, df, fuel),
        clear_walk(squares, p, dr, df, n),
    decreases fuel,
{
    assert(walk(p, dr, df, 1) == step(p, dr, df));
    let q = step(p, dr, df).unwrap();
    if sq_at(squares, q) is Some {
        1
    } else {
        let m = lemma_ray_first_found(squares, q, dr, df, (fuel - 1) as nat);
        assert(walk(q, dr, df, m) == walk(p, dr, df, m + 1));
        assert forall|j: int| 1 <= j < m + 1 implies (#[trigger] walk(p, dr, df, j)) is Some && is_empty(squares, walk(p, dr, df, j).unwrap()) by {
            if j > 1 {
                assert(walk(q, dr, df, j - 1) == walk(p, dr, df, j));
                assert(walk(q, dr, df, j - 1) is Some);
            }
        }
        m + 1
    }
}

/// The squares a piece reaches lie on the board.
pub proof fn lemma_piece_targets_valid(g: GameView, p: Position)
    requires
        valid_position(p),
        g.squares.len() == 64,
    ensures
        forall|i: int| 0 <= i < piece_targets(g, p).len() ==> valid_position(#[trigger] piece_targets(g, p)[i]),
{
    let ok = |t: Position| target_ok(g, p, t);
    let v = |t: Position| valid_position(t);
    if sq_at(g.squares, p) is None {
        return;
    }
    let piece = sq_at(g.squares, p).unwrap();
    if piece.piece == PieceType::King {
        let player = piece.player;
        let sq = g.squares;
        let ks = kingside_castle_target(sq, p, player, g.info);
        let qs = queenside_castle_target(sq, p, player, g.info);
        let ls = seq![leap(sq, p, -1, -1, player), leap(sq, p, -1, 0, player), leap(sq, p, -1, 1, player), leap(sq, p, 0, -1, player),
            leap(sq, p, 0, 1, player), leap(sq, p, 1, -1, player), leap(sq, p, 1, 0, player), leap(sq, p, 1, 1, player)];
        lemma_leap_ok(g, p, -1, -1);
        lemma_leap_ok(g, p, -1, 0);
        lemma_leap_ok(g, p, -1, 1);
        lemma_leap_ok(g, p, 0, -1);
        lemma_leap_ok(g, p, 0, 1);
        lemma_leap_ok(g, p, 1, -1);
        lemma_leap_ok(g, p, 1, 0);
        lemma_leap_ok(g, p, 1, 1);
        let targets = piece_targets(g, p);
        assert(targets == ls[0] + ls[1] + ls[2] + ls[3] + ls[4] + ls[5] + ls[6] + ls[7] + opt_seq(ks) + opt_seq(qs));
        assert forall|i: int| 0 <= i < targets.len() implies valid_position(#[trigger] targets[i]) by {
            let mut acc = 0int;
            let a0 = ls[0].len();
            let a1 = a0 + ls[1].len();
            let a2 = a1 + ls[2].len();
            let a3 = a2 + ls[3].len();
            let a4 = a3 + ls[4].len();
            let a5 = a4 + ls[5].len();
            let a6 = a5 + ls[6].len();
            let a7 = a6 + ls[7].len();
            let a8 = a7 + opt_seq(ks).len();
            if i < a0 {
                assert(ok(ls[0][i]));
            } else if i < a1 {
                assert(ok(ls[1][i - a0]));
            } else if i < a2 {
                assert(ok(ls[2][i - a1]));
            } else if i < a3 {
                assert(ok(ls[3][i - a2]));
            } else if i < a4 {
                assert(ok(ls[4][i - a3]));
            } else if i < a5 {
                assert(ok(ls[5][i - a4]));
            } else if i < a6 {
                assert(ok(ls[6][i - a5]));
            } else if i < a7 {
                assert(ok(ls[7][i - a6]));
            } else if i < a8 {
                assert(targets[i] == ks.unwrap());
            } else {
                assert(targets[i] == qs.unwrap());
            }
        }
    } else {
        match piece.piece {
            PieceType::Pawn => lemma_pawn_targets_ok(g, p),
            PieceType::Knight => lemma_knight_targets_ok(g, p),
            _ => lemma_slider_targets_ok(g, p),
        }
        assert forall|i: int| 0 <= i < piece_targets(g, p).len() implies valid_position(#[trigger] piece_targets(g, p)[i]) by {
            assert(ok(piece_targets(g, p)[i]));
        }
    }
}

/// What every board's `stored` keeps: storing a piece leaves a piece of the
/// same player, and storing nothing leaves nothing.
pub open spec fn stored_keeps_owner(stored: spec_fn(Option<Piece>, Option<Piece>) -> Option<Piece>) -> bool {
    &&& forall|o: Option<Piece>, v: Option<Piece>| v is Some ==> (#[trigger] stored(o, v)) is Some && stored(o, v).unwrap().player == v.unwrap().player
    &&& forall|o: Option<Piece>| #[trigger] stored(o, None) is None
}

/// After a move of one of the king's player's pieces to an empty or enemy
/// square, the king's square (its target, if the king moves) holds a piece
/// of that player.
pub proof fn lemma_king_square_after_move(g: GameView, action: MoveAction, king: Position, stored: spec_fn(Option<Piece>, Option<Piece>) -> Option<Piece>)
    requires
        g.squares.len() == 64,
        valid_position(action.mv.source),
        valid_position(action.mv.target),
        valid_position(king),
        stored_keeps_owner(stored),
        sq_at(g.squares, king) is Some,
        sq_at(g.squares, king).unwrap().piece == PieceType::King,
        sq_at(g.squares, action.mv.source) is Some,
        sq_at(g.squares, action.mv.source).unwrap().player == sq_at(g.squares, king).unwrap().player,
        action.mv.source != king ==> sq_at(g.squares, action.mv.source).unwrap().piece != PieceType::King,
        is_empty(g.squares, action.mv.target) || holds_enemy(g.squares, action.mv.target, sq_at(g.squares, king).unwrap().player),
        move_kind(g.squares, action) is Some,
        move_makeable(g.squares, action),
    ensures
        ({
            let after = moved_squares(g.squares, action, move_kind(g.squares, action).unwrap(), stored);
            let new_king = if action.mv.source == king { action.mv.target } else { king };
            &&& sq_at(after, new_king) is Some
            &&& sq_at(after, new_king).unwrap().player == sq_at(g.squares, king).unwrap().player
            &&& after.len() == 64
        }),
{
    let sq = g.squares;
    let mv = action.mv;
    let kind = move_kind(sq, action).unwrap();
    let player = sq_at(sq, king).unwrap().player;
    let piece = sq_at(sq, mv.source).unwrap();
    lemma_index_position(mv.source);
    lemma_index_position(mv.target);
    lemma_index_position(king);
    let moved = move_squares(sq, mv.source, mv.target, stored);
    assert(mv.source != mv.target);
    assert(stored(sq_at(sq, mv.target), Some(piece)) is Some);
    assert(sq_at(moved, mv.target) == stored(sq_at(sq, mv.target), Some(piece)));
    if mv.source == king {
        assert(sq_at(moved, mv.target) is Some && sq_at(moved, mv.target).unwrap().player == player);
        match kind {
            MoveExtraInfo::CastleKingside => {
                let rs = step(mv.source, 0, 3).unwrap();
                let rt = step(mv.source, 0, 1).unwrap();
                lemma_index_position(rs);
                lemma_index_position(rt);
            },
            MoveExtraInfo::CastleQueenside => {
                let rs = step(mv.source, 0, -4).unwrap();
                let rt = step(mv.source, 0, -1).unwrap();
                lemma_index_position(rs);
                lemma_index_position(rt);
            },
            _ => {},
        }
    } else {
        assert(king != mv.target);
        assert(sq_at(moved, king) == sq_at(sq, king));
        match kind {
            MoveExtraInfo::EnPassant => {
                let behind = step(mv.target, -(spec_pawn_direction(piece.player) as int), 0).unwrap();
                lemma_index_position(behind);
                assert(behind != king);
            },
            _ => {},
        }
    }
}

/// Every move to targets starts at the source and ends on one of the targets.
pub proof fn lemma_moves_to_targets(source: Position, targets: Seq<Position>, promote: bool)
    ensures
        forall|j: int| 0 <= j < moves_to_targets(source, targets, promote).len() ==>
            (#[trigger] moves_to_targets(source, targets, promote)[j]).mv.source == source
            && exists|k: int| 0 <= k < targets.len() && targets[k] == moves_to_targets(source, targets, promote)[j].mv.target,
    decreases targets.len(),
{
    if targets.len() > 0 {
        lemma_moves_to_targets(source, targets.drop_last(), promote);
        let prefix = moves_to_targets(source, targets.drop_last(), promote);
        let last = target_moves(source, targets.last(), promote);
        let all = moves_to_targets(source, targets, promote);
        assert(all == prefix + last);
        assert forall|j: int| 0 <= j < all.len() implies
            (#[trigger] all[j]).mv.source == source
            && exists|k: int| 0 <= k < targets.len() && targets[k] == all[j].mv.target by {
            if j < prefix.len() {
                assert(all[j] == prefix[j]);
                let k = choose|k: int| 0 <= k < targets.drop_last().len() && targets.drop_last()[k] == prefix[j].mv.target;
                assert(targets[k] == targets.drop_last()[k]);
            } else {
                assert(all[j] == last[j - prefix.len()]);
                assert(targets[targets.len() - 1] == targets.last());
            }
        }
    }
}

/// What a filter keeps comes from the filtered sequence.
pub proof fn lemma_filter_subset<A>(s: Seq<A>, pred: spec_fn(A) -> bool)
    ensures
        forall|i: int| 0 <= i < s.filter(pred).len() ==> s.contains(#[trigger] s.filter(pred)[i]),
    decreases s.len(),
{
    reveal_with_fuel(Seq::<_>::filter, 1);
    if s.len() > 0 {
        lemma_filter_subset(s.drop_last(), pred);
        let f = s.filter(pred);
        let sub = s.drop_last().filter(pred);
        assert forall|i: int| 0 <= i < f.len() implies s.contains(#[trigger] f[i]) by {
            if i < sub.len() {
                assert(f[i] == sub[i]);
                let j = choose|j: int| 0 <= j < s.drop_last().len() && s.drop_last()[j] == sub[i];
                assert(s[j] == s.drop_last()[j]);
            } else {
                assert(f[i] == s.last());
                assert(s[s.len() - 1] == s.last());
            }
        }
    }
}

} // verus!
