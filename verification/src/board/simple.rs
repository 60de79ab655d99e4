//! The plainest board: one optional piece per square.

use super::{
    index_position, initial_square, square_index, valid_position, Board, ModifiableBoard, Piece,
    PieceType, Player, Position,
};
use vstd::prelude::*;

verus! {

#[derive(Copy, Clone, Debug, PartialEq)]
pub struct SimpleBoard {
    squares: [Option<Piece>; 64],
}

/// The piece on a square of the initial position.
pub fn initial_piece(rank: usize, file: usize) -> (piece: Option<Piece>)
    requires
        rank < 8,
        file < 8,
    ensures
        piece == initial_square(Position { rank, file }),
{
    let player = if rank <= 1 { Player::White } else { Player::Black };
    if rank == 1 || rank == 6 {
        Some(Piece { piece: PieceType::Pawn, player })
    } else if rank == 0 || rank == 7 {
        let piece = if file == 0 || file == 7 {
            PieceType::Rook
        } else if file == 1 || file == 6 {
            PieceType::Knight
        } else if file == 2 || file == 5 {
            PieceType::Bishop
        } else if file == 3 {
            PieceType::Queen
        } else {
            PieceType::King
        };
        Some(Piece { piece, player })
    } else {
        None
    }
}

/// 64 empty squares.
fn empty_squares() -> (squares: [Option<Piece>; 64])
    ensures
        forall|j: int| 0 <= j < 64 ==> #[trigger] squares@[j] is None,
{
    let mut squares: [Option<Piece>; 64] = [None; 64];
    let mut i: usize = 0;
    while i < 64
        invariant
            i <= 64,
            forall|j: int| 0 <= j < i ==> #[trigger] squares@[j] is None,
        decreases 64 - i,
    {
        squares[i] = None;
        i += 1;
    }
    squares
}

impl SimpleBoard {
    /// The board of the initial position.
    pub fn new() -> (board: Self)
        ensures
            forall|p: Position| valid_position(p) ==> #[trigger] board.spec_at(p) == initial_square(p),
    {
        let mut squares: [Option<Piece>; 64] = [None; 64];
        let mut i: usize = 0;
        while i < 64
            invariant
                i <= 64,
                forall|j: int| 0 <= j < i ==> #[trigger] squares@[j] == initial_square(index_position(j)),
            decreases 64 - i,
        {
            squares[i] = initial_piece(i / 8, i % 8);
            i += 1;
        }
        SimpleBoard { squares }
    }
}

impl Default for SimpleBoard {
    fn default() -> (board: Self)
        ensures
            forall|p: Position| valid_position(p) ==> #[trigger] board.spec_at(p) is None,
    {
        SimpleBoard { squares: empty_squares() }
    }
}

impl ModifiableBoard<Position, Option<Piece>> for SimpleBoard {
    open spec fn valid_key(key: Position) -> bool {
        valid_position(key)
    }

    closed spec fn spec_at(&self, key: Position) -> Option<Piece> {
        self.squares@[square_index(key)]
    }

    open spec fn vacant() -> Option<Piece> {
        None
    }

    open spec fn stored(old: Option<Piece>, value: Option<Piece>) -> Option<Piece> {
        value
    }

    fn at(&self, pos: &Position) -> (value: Option<Piece>) {
        self.squares[pos.rank * 8 + pos.file]
    }

    fn update(&mut self, pos: &Position, value: Option<Piece>) {
        self.squares[pos.rank * 8 + pos.file] = value;
    }

    fn move_piece(&mut self, source: &Position, target: &Position) {
        let s = source.rank * 8 + source.file;
        let t = target.rank * 8 + target.file;
        self.squares[t] = self.squares[s];
        self.squares[s] = None;
    }
}

impl Board for SimpleBoard {
    proof fn lemma_valid_key(p: Position) {
    }

    proof fn lemma_vacant() {
    }

    proof fn lemma_stored(old: Option<Piece>, value: Option<Piece>) {
    }

    fn new_board() -> (board: Self) {
        SimpleBoard::new()
    }

    fn empty_board() -> (board: Self) {
        SimpleBoard { squares: empty_squares() }
    }

    fn duplicate(&self) -> (copy: Self) {
        SimpleBoard { squares: self.squares }
    }
}

} // verus!
