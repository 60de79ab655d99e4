//! Which squares a player attacks, and where the kings are.

use super::iter::step_from;
use crate::board::{
    board_model, index_position, lemma_index_position, lemma_position_index, opponent,
    spec_pawn_direction, valid_position, Board, Piece, PieceType,
    Player, Position, SimpleBoard, CompactBoard,
};
use crate::rules::{
    board_fuel, empty_and_safe, enemy_slider, has_king, holds, is_attacked, king_index_from,
    king_position, only_empty, ray_first, sq_at, step,
};
use vstd::prelude::*;

verus! {

/// The square of a board at a position.
pub fn board_square<B: Board>(board: &B, p: &Position) -> (s: Option<Piece>)
    requires
        valid_position(*p),
    ensures
        s == sq_at(board_model(board), *p),
{
    proof {
        B::lemma_valid_key(*p);
        lemma_index_position(*p);
    }
    board.at(p)
}

/// The king-finding and attack checks that the engine needs of a board.
pub trait SafetyChecks: Board {
    /// The position of the first king of a player, rank by rank.
    fn find_king(&self, player: &Player) -> (position: Position)
        requires
            has_king(board_model(self), *player),
        ensures
            position == king_position(board_model(self), *player),
            valid_position(position),
    ;

    /// The position is attacked by the other player than `player` (when no
    /// piece of that other player stands on it).
    fn is_position_unsafe(&self, position: &Position, player: &Player) -> (unsafe_: bool)
        requires
            valid_position(*position),
        ensures
            !crate::rules::holds_enemy(board_model(self), *position, *player) ==> unsafe_ == is_attacked(board_model(self), *position, *player),
    ;

    /// The piece on the position is attacked by the other player.
    fn is_piece_unsafe(&self, position: &Position) -> (unsafe_: bool)
        requires
            valid_position(*position),
            sq_at(board_model(self), *position) is Some,
        ensures
            unsafe_ == is_attacked(board_model(self), *position, sq_at(board_model(self), *position).unwrap().player),
    ;
}

pub proof fn lemma_king_index_from(squares: Seq<Option<Piece>>, player: Player, i: int)
    requires
        0 <= i <= 64,
        squares.len() == 64,
    ensures
        i <= king_index_from(squares, player, i) <= 64,
        king_index_from(squares, player, i) < 64 ==> squares[king_index_from(squares, player, i)] == Some(Piece { piece: PieceType::King, player }),
        (exists|j: int| i <= j < 64 && squares[j] == Some(Piece { piece: PieceType::King, player })) ==> king_index_from(squares, player, i) < 64,
    decreases 64 - i,
{
    if i < 64 {
        lemma_king_index_from(squares, player, i + 1);
    }
}

/// The position of the first king of a player, rank by rank, found by
/// walking the board.
pub fn find_king<B: Board>(board: &B, player: &Player) -> (position: Position)
    requires
        has_king(board_model(board), *player),
    ensures
        position == king_position(board_model(board), *player),
        valid_position(position),
{
    let ghost squares = board_model(board);
    let king = Piece { piece: PieceType::King, player: *player };
    let mut i: usize = 0;
    while i < 64
        invariant
            i <= 64,
            squares == board_model(board),
            king == (Piece { piece: PieceType::King, player: *player }),
            king_index_from(squares, *player, 0) == king_index_from(squares, *player, i as int),
        decreases 64 - i,
    {
        let p = Position { rank: i / 8, file: i % 8 };
        proof {
            lemma_position_index(i as int);
        }
        if board_square(board, &p) == Some(king) {
            proof {
                lemma_king_index_from(squares, *player, 0);
            }
            return p;
        }
        i += 1;
    }
    proof {
        lemma_king_index_from(squares, *player, 0);
    }
    Position { rank: 0, file: 0 }
}

/// The square one step away holds the given piece.
fn holds_at<B: Board>(board: &B, p: &Position, dr: i8, df: i8, piece: Piece) -> (found: bool)
    requires
        valid_position(*p),
        -2 <= dr <= 2,
        -2 <= df <= 2,
    ensures
        found == holds(board_model(board), step(*p, dr as int, df as int), piece),
{
    match step_from(p, dr, df) {
        Some(q) => board_square(board, &q) == Some(piece),
        None => false,
    }
}

/// The first piece walking from `p` in a direction.
fn first_piece<B: Board>(board: &B, p: &Position, dr: i8, df: i8) -> (first: Option<Piece>)
    requires
        valid_position(*p),
        -1 <= dr <= 1,
        -1 <= df <= 1,
    ensures
        first == ray_first(board_model(board), *p, dr as int, df as int, board_fuel()),
{
    let mut current = *p;
    let mut fuel: usize = 8;
    loop
        invariant
            valid_position(current),
            fuel <= 8,
            -1 <= dr <= 1,
            -1 <= df <= 1,
            ray_first(board_model(board), *p, dr as int, df as int, board_fuel())
                == ray_first(board_model(board), current, dr as int, df as int, fuel as nat),
        decreases fuel,
    {
        if fuel == 0 {
            return None;
        }
        match step_from(&current, dr, df) {
            None => {
                return None;
            },
            Some(q) => match board_square(board, &q) {
                Some(piece) => {
                    return Some(piece);
                },
                None => {
                    current = q;
                    fuel = fuel - 1;
                },
            },
        }
    }
}

/// The first piece in a direction is an enemy piece of one of two types.
fn enemy_slider_at<B: Board>(board: &B, p: &Position, dr: i8, df: i8, enemy: Player, a: PieceType, b: PieceType) -> (found: bool)
    requires
        valid_position(*p),
        -1 <= dr <= 1,
        -1 <= df <= 1,
    ensures
        found == enemy_slider(board_model(board), *p, dr as int, df as int, enemy, a, b),
{
    match first_piece(board, p, dr, df) {
        Some(piece) => piece.player == enemy && (piece.piece == a || piece.piece == b),
        None => false,
    }
}

/// The position is attacked by the other player than `player`; enemy pawns
/// attack from one rank ahead in `enemy_pawn_direction`.
pub fn is_position_unsafe<B: Board>(board: &B, position: &Position, player: &Player, enemy_pawn_direction: i8) -> (unsafe_: bool)
    requires
        valid_position(*position),
        enemy_pawn_direction == spec_pawn_direction(*player),
    ensures
        unsafe_ == is_attacked(board_model(board), *position, *player),
{
    let enemy = player.opponent();
    let d = enemy_pawn_direction;
    let pawn = Piece { piece: PieceType::Pawn, player: enemy };
    let knight = Piece { piece: PieceType::Knight, player: enemy };
    let king = Piece { piece: PieceType::King, player: enemy };

    // 1. Pawns
    if holds_at(board, position, d, -1, pawn) || holds_at(board, position, d, 1, pawn) {
        return true;
    }
    // 2. Knights
    if holds_at(board, position, -1, -2, knight) || holds_at(board, position, -1, 2, knight)
        || holds_at(board, position, -2, -1, knight) || holds_at(board, position, -2, 1, knight)
        || holds_at(board, position, 2, -1, knight) || holds_at(board, position, 2, 1, knight)
        || holds_at(board, position, 1, -2, knight) || holds_at(board, position, 1, 2, knight) {
        return true;
    }
    // 3. Bishops or queens on diagonals
    if enemy_slider_at(board, position, -1, -1, enemy, PieceType::Bishop, PieceType::Queen)
        || enemy_slider_at(board, position, -1, 1, enemy, PieceType::Bishop, PieceType::Queen)
        || enemy_slider_at(board, position, 1, -1, enemy, PieceType::Bishop, PieceType::Queen)
        || enemy_slider_at(board, position, 1, 1, enemy, PieceType::Bishop, PieceType::Queen) {
        return true;
    }
    // 4. Rooks or queens on files or ranks
    if enemy_slider_at(board, position, 0, -1, enemy, PieceType::Rook, PieceType::Queen)
        || enemy_slider_at(board, position, 0, 1, enemy, PieceType::Rook, PieceType::Queen)
        || enemy_slider_at(board, position, -1, 0, enemy, PieceType::Rook, PieceType::Queen)
        || enemy_slider_at(board, position, 1, 0, enemy, PieceType::Rook, PieceType::Queen) {
        return true;
    }
    // 5. King
    if holds_at(board, position, -1, -1, king) || holds_at(board, position, -1, 0, king)
        || holds_at(board, position, -1, 1, king) || holds_at(board, position, 0, -1, king)
        || holds_at(board, position, 0, 1, king) || holds_at(board, position, 1, -1, king)
        || holds_at(board, position, 1, 0, king) || holds_at(board, position, 1, 1, king) {
        return true;
    }
    false
}

/// The position is attacked by the other player than `player`.
pub fn is_position_unsafe_generic<B: Board>(board: &B, position: &Position, player: &Player) -> (unsafe_: bool)
    requires
        valid_position(*position),
    ensures
        unsafe_ == is_attacked(board_model(board), *position, *player),
{
    let pd = -B::pawn_progress_direction(&player.opponent());
    is_position_unsafe(board, position, player, pd)
}

/// The piece on the position is attacked by the other player.
pub fn is_piece_unsafe<B: Board>(board: &B, position: &Position) -> (unsafe_: bool)
    requires
        valid_position(*position),
        sq_at(board_model(board), *position) is Some,
    ensures
        unsafe_ == is_attacked(board_model(board), *position, sq_at(board_model(board), *position).unwrap().player),
{
    let piece = board_square(board, position).unwrap();
    is_position_unsafe_generic(board, position, &piece.player)
}

/// The position, if its square is empty and the other player does not
/// attack it.
pub fn only_empty_and_safe<B: Board>(board: &B, position: Option<Position>, player: &Player) -> (safe: Option<Position>)
    requires
        position matches Some(p) ==> valid_position(p),
    ensures
        safe is Some <==> empty_and_safe(board_model(board), position, *player),
        safe is Some ==> safe == position,
{
    match position {
        Some(p) => {
            if board_square(board, &p).is_none() {
                if is_position_unsafe_generic(board, &p, player) {
                    None
                } else {
                    position
                }
            } else {
                None
            }
        },
        None => None,
    }
}

/// The player has exactly one king on the board.
pub open spec fn one_king(squares: Seq<Option<Piece>>, player: Player) -> bool {
    &&& has_king(squares, player)
    &&& forall|i: int, j: int|
        0 <= i < 64 && 0 <= j < 64 && #[trigger] squares[i] == Some(Piece { piece: PieceType::King, player })
            && #[trigger] squares[j] == Some(Piece { piece: PieceType::King, player }) ==> i == j
}

/// The position of the king of a player who has exactly one.
pub fn find_player_king<B: Board>(board: &B, player: &Player) -> (position: Position)
    requires
        one_king(board_model(board), *player),
    ensures
        position == king_position(board_model(board), *player),
        valid_position(position),
        sq_at(board_model(board), position) == Some(Piece { piece: PieceType::King, player: *player }),
{
    proof {
        lemma_king_index_from(board_model(board), *player, 0);
        crate::board::lemma_position_index(king_index_from(board_model(board), *player, 0));
    }
    find_king(board, player)
}

/// The piece on the position is attacked by the other player.
pub fn piece_is_unsafe<B: Board>(board: &B, position: &Position) -> (unsafe_: bool)
    requires
        valid_position(*position),
        sq_at(board_model(board), *position) is Some,
    ensures
        unsafe_ == is_attacked(board_model(board), *position, sq_at(board_model(board), *position).unwrap().player),
{
    is_piece_unsafe(board, position)
}

/// The king on `king_position` is in check.
pub fn player_in_check<B: Board>(board: &B, king_position: &Position) -> (check: bool)
    requires
        valid_position(*king_position),
        sq_at(board_model(board), *king_position) is Some,
    ensures
        check == is_attacked(board_model(board), *king_position, sq_at(board_model(board), *king_position).unwrap().player),
{
    let king_player = board_square(board, king_position).unwrap().player;
    let pd = -B::pawn_progress_direction(&enemy(&king_player));
    is_position_unsafe(board, king_position, &king_player, pd)
}

/// The other player.
pub fn enemy(player: &Player) -> (other: Player)
    ensures
        other == opponent(*player),
{
    match player {
        Player::White => Player::Black,
        Player::Black => Player::White,
    }
}

/// The position, if a piece of the other player stands on it.
pub fn only_enemy<B: Board>(board: &B, position: Option<Position>, player: &Player) -> (enemy_position: Option<Position>)
    requires
        position matches Some(p) ==> valid_position(p),
    ensures
        enemy_position == crate::rules::only_enemy(board_model(board), position, *player),
{
    match position {
        Some(p) => match board_square(board, &p) {
            Some(piece) => {
                if piece.player != *player {
                    position
                } else {
                    None
                }
            },
            None => None,
        },
        None => None,
    }
}

impl SafetyChecks for SimpleBoard {
    fn find_king(&self, player: &Player) -> (position: Position) {
        find_king(self, player)
    }

    fn is_position_unsafe(&self, position: &Position, player: &Player) -> (unsafe_: bool) {
        is_position_unsafe_generic(self, position, player)
    }

    fn is_piece_unsafe(&self, position: &Position) -> (unsafe_: bool) {
        is_piece_unsafe(self, position)
    }
}

impl SafetyChecks for CompactBoard {
    fn find_king(&self, player: &Player) -> (position: Position) {
        find_king(self, player)
    }

    fn is_position_unsafe(&self, position: &Position, player: &Player) -> (unsafe_: bool) {
        is_position_unsafe_generic(self, position, player)
    }

    fn is_piece_unsafe(&self, position: &Position) -> (unsafe_: bool) {
        is_piece_unsafe(self, position)
    }
}

} // verus!
