//! A board of one byte per square.
//!
//! A square byte is `0b00vPpppp`: `v` is set when a piece stands on the
//! square, `P` is set for a black piece, and `pppp` is the piece type, from 0
//! (pawn) to 5 (king).

use super::{
    index_position, initial_square, square_index, valid_position, Board, ModifiableBoard, Piece,
    PieceType, Player, Position,
};
use vstd::prelude::*;

verus! {

/// The code of a piece type.
pub open spec fn type_code(piece: PieceType) -> u8 {
    match piece {
        PieceType::Pawn => 0,
        PieceType::Knight => 1,
        PieceType::Bishop => 2,
        PieceType::Rook => 3,
        PieceType::Queen => 4,
        PieceType::King => 5,
    }
}

/// The byte that stores the content of a square.
pub open spec fn encode_square(value: Option<Piece>) -> u8 {
    match value {
        None => 0,
        Some(piece) => (0x20 + (if piece.player == Player::Black { 0x10int } else { 0 }) + type_code(piece.piece)) as u8,
    }
}

/// The content that a square byte stores.
pub open spec fn decode_square(byte: u8) -> Option<Piece> {
    if byte < 0x20 {
        None
    } else {
        let player = if byte >= 0x30 { Player::Black } else { Player::White };
        let piece = match byte % 16 {
            0 => PieceType::Pawn,
            1 => PieceType::Knight,
            2 => PieceType::Bishop,
            3 => PieceType::Rook,
            4 => PieceType::Queen,
            _ => PieceType::King,
        };
        Some(Piece { piece, player })
    }
}

/// The bytes that encode some square content.
pub open spec fn valid_square_byte(byte: u8) -> bool {
    byte == 0 || (0x20 <= byte < 0x40 && byte % 16 <= 5)
}

/// Decoding gives back what was encoded, and every encoding is valid.
pub proof fn lemma_square_roundtrip(value: Option<Piece>)
    ensures
        decode_square(encode_square(value)) == value,
        valid_square_byte(encode_square(value)),
{
}

/// One square of a compact board.
#[derive(Copy, Clone, Debug, PartialEq)]
struct Square(u8);

impl Square {
    /// The square that stores `value`.
    fn from(value: Option<Piece>) -> (square: Square)
        ensures
            square.0 == encode_square(value),
    {
        match value {
            Some(piece) => {
                let player_bits: u8 = match piece.player {
                    Player::White => 0b0000_0000u8,
                    Player::Black => 0b0001_0000u8,
                };
                assert(0x20u8 | 0u8 == 0x20u8 && 0x20u8 | 0x10u8 == 0x30u8) by (bit_vector);
                let mut square_byte: u8 = 0b0010_0000u8 | player_bits;
                let code: u8 = match piece.piece {
                    PieceType::Pawn => 0b0000_0000u8,
                    PieceType::Knight => 0b0000_0001u8,
                    PieceType::Bishop => 0b0000_0010u8,
                    PieceType::Rook => 0b0000_0011u8,
                    PieceType::Queen => 0b0000_0100u8,
                    PieceType::King => 0b0000_0101u8,
                };
                let high = square_byte;
                assert(high == 0x20u8 || high == 0x30u8);
                assert((high == 0x20u8 || high == 0x30u8) && code <= 5 ==> high | code == high + code) by (bit_vector);
                square_byte |= code;
                Square(square_byte)
            },
            None => Square(0),
        }
    }

    /// The content that the square stores.
    fn into(self) -> (value: Option<Piece>)
        requires
            valid_square_byte(self.0),
        ensures
            value == decode_square(self.0),
    {
        let b = self.0;
        assert(b & 0b0010_0000u8 == 0 <==> b < 0x20) by (bit_vector)
            requires b == 0 || (0x20 <= b < 0x40);
        if b & 0b0010_0000u8 == 0 {
            return None;
        }
        assert(b & 0b0001_0000u8 != 0 <==> b >= 0x30) by (bit_vector)
            requires 0x20 <= b < 0x40;
        assert(b & 0b0000_1111u8 == b % 16) by (bit_vector);
        let player = match b & 0b0001_0000u8 != 0 {
            true => Player::Black,
            false => Player::White,
        };
        let piece = match b & 0b0000_1111u8 {
            0 => PieceType::Pawn,
            1 => PieceType::Knight,
            2 => PieceType::Bishop,
            3 => PieceType::Rook,
            4 => PieceType::Queen,
            _ => PieceType::King,
        };
        Some(Piece { piece, player })
    }
}

/// A board that stores each square in one byte, rank by rank.
#[derive(Debug, PartialEq)]
pub struct CompactBoard {
    squares: [Square; 64],
}

impl CompactBoard {
    /// Every square byte encodes some content.
    #[verifier::type_invariant]
    closed spec fn wf(&self) -> bool {
        forall|i: int| 0 <= i < 64 ==> #[trigger] valid_square_byte(self.squares@[i].0)
    }

    /// The board of the initial position.
    pub fn new() -> (board: Self)
        ensures
            forall|p: Position| valid_position(p) ==> #[trigger] board.spec_at(p) == initial_square(p),
    {
        let mut squares: [Square; 64] = [Square(0); 64];
        let mut i: usize = 0;
        while i < 64
            invariant
                i <= 64,
                forall|j: int| 0 <= j < 64 ==> #[trigger] valid_square_byte(squares@[j].0),
                forall|j: int| 0 <= j < i ==> #[trigger] decode_square(squares@[j].0) == initial_square(index_position(j)),
            decreases 64 - i,
        {
            let value = super::simple::initial_piece(i / 8, i % 8);
            proof {
                lemma_square_roundtrip(value);
            }
            squares[i] = Square::from(value);
            i += 1;
        }
        CompactBoard { squares }
    }

    /// A board without pieces.
    fn empty() -> (board: Self)
        ensures
            forall|p: Position| valid_position(p) ==> #[trigger] board.spec_at(p) is None,
    {
        CompactBoard { squares: [Square(0); 64] }
    }
}

impl Clone for CompactBoard {
    fn clone(&self) -> (copy: Self)
        ensures
            copy == *self,
    {
        proof {
            use_type_invariant(self);
        }
        CompactBoard { squares: self.squares }
    }
}

impl Default for CompactBoard {
    fn default() -> (board: Self)
        ensures
            forall|p: Position| valid_position(p) ==> #[trigger] board.spec_at(p) is None,
    {
        CompactBoard::empty()
    }
}

impl ModifiableBoard<Position, Option<Piece>> for CompactBoard {
    open spec fn valid_key(key: Position) -> bool {
        valid_position(key)
    }

    closed spec fn spec_at(&self, key: Position) -> Option<Piece> {
        decode_square(self.squares@[square_index(key)].0)
    }

    open spec fn vacant() -> Option<Piece> {
        None
    }

    open spec fn stored(old: Option<Piece>, value: Option<Piece>) -> Option<Piece> {
        value
    }

    fn at(&self, pos: &Position) -> (value: Option<Piece>) {
        proof {
            use_type_invariant(self);
        }
        let i = pos.rank * 8 + pos.file;
        assert(valid_square_byte(self.squares@[i as int].0));
        self.squares[i].into()
    }

    fn update(&mut self, pos: &Position, value: Option<Piece>) {
        proof {
            use_type_invariant(&*self);
            lemma_square_roundtrip(value);
        }
        self.squares[pos.rank * 8 + pos.file] = Square::from(value);
    }

    fn move_piece(&mut self, source: &Position, target: &Position) {
        proof {
            use_type_invariant(&*self);
        }
        let s = source.rank * 8 + source.file;
        let t = target.rank * 8 + target.file;
        self.squares[t] = self.squares[s];
        self.squares[s] = Square(0);
    }
}

impl Board for CompactBoard {
    proof fn lemma_valid_key(p: Position) {
    }

    proof fn lemma_vacant() {
    }

    proof fn lemma_stored(old: Option<Piece>, value: Option<Piece>) {
    }

    fn new_board() -> (board: Self) {
        CompactBoard::new()
    }

    fn empty_board() -> (board: Self) {
        CompactBoard::empty()
    }

    fn duplicate(&self) -> (copy: Self) {
        proof {
            use_type_invariant(self);
        }
        CompactBoard { squares: self.squares }
    }
}

} // verus!
