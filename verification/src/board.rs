//! Pieces, positions and the board abstraction shared by all the board
//! representations.

mod bitboards;
mod compact;
mod fen;
mod iter;
mod simple;

pub use fen::{board_from_fen, board_from_fen_chars, fen_board, fen_letter, fen_letter_of, fen_piece, fen_piece_of, fen_scan, lemma_fen_letter, FenScan};
pub use bitboards::{
    aligned, between, bit_index, lemma_between_symmetric, distance, find_player_king_fast, has_bit, king_hits, knight_hits, pawn_hits, piece_is_unsafe_fast,
    scan_hits, set_positions, set_positions_from, slider_reaches, step_hit, BitboardIter, Bitboards, PlayerBitboards,
};
pub use compact::{decode_square, encode_square, lemma_square_roundtrip, type_code, valid_square_byte, CompactBoard};
pub use simple::SimpleBoard;
pub use iter::{
    board_from, select, selects, take_while_empty_or_player_spec, take_while_empty_spec, usable_direction, walk_from, BoardIter, DirectionIter, IterateByPiece,
    IterateByPlayer, IterateByPlayerPiece, IterateEmpty, IteratePlayerOrEmpty, IterateSkipWhileEmpty, IterateWhileEmpty,
    IterateWhileEmptyOrPlayer, IterableBoard, PositionFilters, PositionIter, PositionIterator, SquareFilter,
};



use crate::text::{str_chars, string_from_chars};
use vstd::prelude::*;

verus! {

#[derive(Copy, Clone, Debug, PartialEq, Eq, Hash, Structural)]
pub enum PieceType {
    Pawn,
    Knight,
    Bishop,
    Rook,
    Queen,
    King,
}

#[derive(Copy, Clone, Debug, PartialEq, Eq, Structural)]
pub enum Player {
    White,
    Black,
}

#[derive(Copy, Clone, Debug, PartialEq, Eq, Structural)]
pub struct Piece {
    pub piece: PieceType,
    pub player: Player,
}

#[derive(Copy, Clone, Debug, PartialEq, Eq, Hash, Structural)]
pub struct Position {
    pub rank: usize,
    pub file: usize,
}

/// A step on the board, in ranks and files.
#[derive(Copy, Clone, Debug, PartialEq, Eq, Structural)]
pub struct Direction {
    pub row_inc: i8,
    pub col_inc: i8,
}

/// The other player.
pub open spec fn opponent(player: Player) -> Player {
    match player {
        Player::White => Player::Black,
        Player::Black => Player::White,
    }
}

impl core::ops::Not for Player {
    type Output = Player;

    fn not(self) -> (other: Player)
        ensures
            other == opponent(self),
    {
        match self {
            Player::White => Player::Black,
            Player::Black => Player::White,
        }
    }
}

impl vstd::std_specs::ops::NotSpecImpl for Player {
    open spec fn obeys_not_spec() -> bool {
        true
    }

    open spec fn not_req(self) -> bool {
        true
    }

    open spec fn not_spec(self) -> Player {
        opponent(self)
    }
}

impl Player {
    /// The other player (the same as `!player`).
    pub fn opponent(self) -> (other: Player)
        ensures
            other == opponent(self),
    {
        match self {
            Player::White => Player::Black,
            Player::Black => Player::White,
        }
    }
}

/// A position lies on the board.
pub open spec fn valid_position(p: Position) -> bool {
    p.rank < 8 && p.file < 8
}

/// The index of a position in a sequence of 64 squares, rank by rank.
pub open spec fn square_index(p: Position) -> int {
    p.rank * 8 + p.file
}

/// The position of the square at an index of a sequence of 64 squares.
pub open spec fn index_position(i: int) -> Position {
    Position { rank: (i / 8) as usize, file: (i % 8) as usize }
}

pub proof fn lemma_index_position(p: Position)
    requires
        valid_position(p),
    ensures
        0 <= square_index(p) < 64,
        index_position(square_index(p)) == p,
{
}

pub proof fn lemma_position_index(i: int)
    requires
        0 <= i < 64,
    ensures
        valid_position(index_position(i)),
        square_index(index_position(i)) == i,
{
}

/// The position of `(rank, file)`, if it lies on the board.
pub open spec fn position_if_valid(rank: int, file: int) -> Option<Position> {
    if 0 <= rank < 8 && 0 <= file < 8 {
        Some(Position { rank: rank as usize, file: file as usize })
    } else {
        None
    }
}

/// The position written as a file letter and a rank digit, such as "e4".
pub open spec fn parse_position(cs: Seq<char>) -> Option<Position> {
    if cs.len() == 2 && 'a' <= cs[0] && cs[0] <= 'h' && '1' <= cs[1] && cs[1] <= '8' {
        Some(Position {
            rank: (cs[1] as int - '1' as int) as usize,
            file: (cs[0] as int - 'a' as int) as usize,
        })
    } else {
        None
    }
}

/// The name of a position, such as "e4".
pub open spec fn position_name(p: Position) -> Seq<char> {
    seq![(('a' as int) + p.file) as char, (('1' as int) + p.rank) as char]
}

/// The name of a square reads back as that square.
pub proof fn lemma_position_name_parses(p: Position)
    requires
        valid_position(p),
    ensures
        parse_position(position_name(p)) == Some(p),
{
}

/// The characters of a position's name (file letter, rank digit).
pub fn position_name_chars(p: &Position) -> (name: (char, char))
    requires
        valid_position(*p),
    ensures
        seq![name.0, name.1] == position_name(*p),
{
    let file_char = match p.file {
        0 => 'a',
        1 => 'b',
        2 => 'c',
        3 => 'd',
        4 => 'e',
        5 => 'f',
        6 => 'g',
        _ => 'h',
    };
    let rank_char = match p.rank {
        0 => '1',
        1 => '2',
        2 => '3',
        3 => '4',
        4 => '5',
        5 => '6',
        6 => '7',
        _ => '8',
    };
    (file_char, rank_char)
}

/// Parses a position from its characters.
pub fn parse_position_chars(cs: &Vec<char>) -> (pos: Option<Position>)
    ensures
        pos == parse_position(cs@),
{
    if cs.len() != 2 {
        return None;
    }
    let f = cs[0];
    let r = cs[1];
    if 'a' <= f && f <= 'h' && '1' <= r && r <= '8' {
        let file = (f as u32 - 'a' as u32) as usize;
        let rank = (r as u32 - '1' as u32) as usize;
        Some(Position { rank, file })
    } else {
        None
    }
}

impl Position {
    /// Parses a position written as a file letter and a rank digit ("e4").
    pub fn try_from_str(pos_str: &str) -> (pos: Option<Position>)
        ensures
            pos == (if pos_str.len() == 2 {
                parse_position(pos_str@)
            } else {
                None
            }),
    {
        if pos_str.len() != 2 {
            return None;
        }
        let cs = str_chars(pos_str);
        parse_position_chars(&cs)
    }

    /// The name of a position on the board: its file letter and rank digit
    /// ("e4"), which `try_from_str` reads back as the position.
    pub fn to_text(&self) -> (name: String)
        requires
            valid_position(*self),
        ensures
            name@ == position_name(*self),
            parse_position(name@) == Some(*self),
    {
        let (f, r) = position_name_chars(self);
        let mut cs: Vec<char> = Vec::new();
        cs.push(f);
        cs.push(r);
        proof {
            assert(cs@ =~= position_name(*self));
            lemma_position_name_parses(*self);
        }
        string_from_chars(&cs)
    }
}

/// The rank where the pieces of a player start.
pub open spec fn spec_home_rank(player: Player) -> usize {
    match player {
        Player::White => 0,
        Player::Black => 7,
    }
}

/// The rank from which a pawn of a player moves to promotion.
pub open spec fn spec_can_promote_rank(player: Player) -> usize {
    match player {
        Player::White => 6,
        Player::Black => 1,
    }
}

/// The rank where a pawn of a player promotes.
pub open spec fn spec_promotion_rank(player: Player) -> usize {
    match player {
        Player::White => 7,
        Player::Black => 0,
    }
}

/// The rank direction in which the pawns of a player advance.
pub open spec fn spec_pawn_direction(player: Player) -> i8 {
    match player {
        Player::White => 1i8,
        Player::Black => -1i8,
    }
}

/// The piece that stands on a square of the initial position.
pub open spec fn initial_square(p: Position) -> Option<Piece> {
    let player = if p.rank <= 1 { Player::White } else { Player::Black };
    if p.rank == 1 || p.rank == 6 {
        Some(Piece { piece: PieceType::Pawn, player })
    } else if p.rank == 0 || p.rank == 7 {
        let piece = if p.file == 0 || p.file == 7 {
            PieceType::Rook
        } else if p.file == 1 || p.file == 6 {
            PieceType::Knight
        } else if p.file == 2 || p.file == 5 {
            PieceType::Bishop
        } else if p.file == 3 {
            PieceType::Queen
        } else {
            PieceType::King
        };
        Some(Piece { piece, player })
    } else {
        None
    }
}

/// A representation that maps keys (positions) to values (squares).
pub trait ModifiableBoard<K, V>: Sized {
    /// The keys that the representation holds.
    spec fn valid_key(key: K) -> bool;

    /// The value stored under a key.
    spec fn spec_at(&self, key: K) -> V;

    /// The value of a vacated key.
    spec fn vacant() -> V;

    /// The value that a key holds after `update` stores `value` over `old`.
    spec fn stored(old: V, value: V) -> V;

    fn at(&self, pos: &K) -> (value: V)
        requires
            Self::valid_key(*pos),
        ensures
            value == self.spec_at(*pos),
    ;

    fn update(&mut self, pos: &K, value: V)
        requires
            Self::valid_key(*pos),
        ensures
            forall|k: K|
                Self::valid_key(k) ==> #[trigger] final(self).spec_at(k) == (if k == *pos {
                    Self::stored(old(self).spec_at(k), value)
                } else {
                    old(self).spec_at(k)
                }),
    ;

    fn move_piece(&mut self, source: &K, target: &K)
        requires
            Self::valid_key(*source),
            Self::valid_key(*target),
        ensures
            forall|k: K|
                Self::valid_key(k) ==> #[trigger] final(self).spec_at(k) == (if k == *source {
                    Self::vacant()
                } else if k == *target {
                    Self::stored(old(self).spec_at(k), old(self).spec_at(*source))
                } else {
                    old(self).spec_at(k)
                }),
    ;
}

/// Storing over an empty square, storing nothing, or storing a piece of the
/// other player leaves exactly the stored value.
pub open spec fn stores_exactly(old: Option<Piece>, value: Option<Piece>) -> bool {
    old is None || value is None || old.unwrap().player != value.unwrap().player
}

/// The 64 squares of a board, rank by rank.
pub open spec fn board_model<B: ModifiableBoard<Position, Option<Piece>>>(b: &B) -> Seq<Option<Piece>> {
    Seq::new(64, |i: int| b.spec_at(index_position(i)))
}

/// The board abstraction that games are played on.
pub trait Board: ModifiableBoard<Position, Option<Piece>> {
    proof fn lemma_valid_key(p: Position)
        ensures
            Self::valid_key(p) == valid_position(p),
    ;

    proof fn lemma_vacant()
        ensures
            Self::vacant() == None::<Piece>,
    ;

    proof fn lemma_stored(old: Option<Piece>, value: Option<Piece>)
        ensures
            stores_exactly(old, value) ==> Self::stored(old, value) == value,
            value is Some ==> Self::stored(old, value) is Some,
            value is Some ==> Self::stored(old, value).unwrap().player == value.unwrap().player,
    ;

    /// The board of the initial position.
    fn new_board() -> (board: Self)
        ensures
            forall|p: Position| valid_position(p) ==> #[trigger] board.spec_at(p) == initial_square(p),
    ;

    /// A board without pieces.
    fn empty_board() -> (board: Self)
        ensures
            forall|p: Position| valid_position(p) ==> #[trigger] board.spec_at(p) is None,
    ;

    /// A copy of the board.
    fn duplicate(&self) -> (copy: Self)
        ensures
            forall|p: Position| valid_position(p) ==> #[trigger] copy.spec_at(p) == self.spec_at(p),
    ;

    /// The content of a square.
    fn square(&self, pos: &Position) -> (value: Option<Piece>)
        requires
            valid_position(*pos),
        ensures
            value == self.spec_at(*pos),
    {
        proof {
            Self::lemma_valid_key(*pos);
        }
        self.at(pos)
    }

    /// The rank where the pieces of a player start.
    fn home_rank(player: &Player) -> (rank: usize)
        ensures
            rank == spec_home_rank(*player),
    {
        match player {
            Player::White => 0,
            Player::Black => 7,
        }
    }

    /// The rank from which a pawn of a player moves to promotion.
    fn can_promote_rank(player: &Player) -> (rank: usize)
        ensures
            rank == spec_can_promote_rank(*player),
    {
        match player {
            Player::White => 6,
            Player::Black => 1,
        }
    }

    /// The rank where a pawn of a player promotes.
    fn promotion_rank(player: &Player) -> (rank: usize)
        ensures
            rank == spec_promotion_rank(*player),
    {
        match player {
            Player::White => 7,
            Player::Black => 0,
        }
    }

    /// The rank direction in which the pawns of a player advance.
    fn pawn_progress_direction(player: &Player) -> (direction: i8)
        ensures
            direction == spec_pawn_direction(*player),
    {
        match player {
            Player::White => 1,
            Player::Black => -1,
        }
    }
}

/// The position one step in a direction from `position`, if it lies on the
/// board.
pub fn try_move(position: &Position, direction: &Direction) -> (target: Option<Position>)
    requires
        position.rank <= 127,
        position.file <= 127,
        -128 <= position.rank + direction.row_inc <= 127,
        -128 <= position.file + direction.col_inc <= 127,
    ensures
        target == position_if_valid(position.rank + direction.row_inc, position.file + direction.col_inc),
{
    let row: i8 = position.rank as i8 + direction.row_inc;
    let col: i8 = position.file as i8 + direction.col_inc;
    if !(0 <= row && row < 8) {
        return None;
    }
    if !(0 <= col && col < 8) {
        return None;
    }
    Some(Position { rank: row as usize, file: col as usize })
}

/// The Unicode chess symbol of a piece.
pub open spec fn unicode_piece(piece: PieceType, player: Player) -> char {
    match (player, piece) {
        (Player::White, PieceType::Pawn) => '♙',
        (Player::White, PieceType::Knight) => '♘',
        (Player::White, PieceType::Bishop) => '♗',
        (Player::White, PieceType::Rook) => '♖',
        (Player::White, PieceType::Queen) => '♕',
        (Player::White, PieceType::King) => '♔',
        (Player::Black, PieceType::Pawn) => '♟',
        (Player::Black, PieceType::Knight) => '♞',
        (Player::Black, PieceType::Bishop) => '♝',
        (Player::Black, PieceType::Rook) => '♜',
        (Player::Black, PieceType::Queen) => '♛',
        (Player::Black, PieceType::King) => '♚',
    }
}

/// The Unicode chess symbol of a piece.
pub fn get_unicode_piece(piece: PieceType, player: Player) -> (symbol: char)
    ensures
        symbol == unicode_piece(piece, player),
{
    match (player, piece) {
        (Player::White, PieceType::Pawn) => '♙',
        (Player::White, PieceType::Knight) => '♘',
        (Player::White, PieceType::Bishop) => '♗',
        (Player::White, PieceType::Rook) => '♖',
        (Player::White, PieceType::Queen) => '♕',
        (Player::White, PieceType::King) => '♔',
        (Player::Black, PieceType::Pawn) => '♟',
        (Player::Black, PieceType::Knight) => '♞',
        (Player::Black, PieceType::Bishop) => '♝',
        (Player::Black, PieceType::Rook) => '♜',
        (Player::Black, PieceType::Queen) => '♛',
        (Player::Black, PieceType::King) => '♚',
    }
}

/// A square of the board diagram: the symbol of its piece (or a space)
/// between brackets.
pub open spec fn square_text(square: Option<Piece>) -> Seq<char> {
    seq!['[', match square { Some(p) => unicode_piece(p.piece, p.player), None => ' ' }, ']']
}

/// The squares of a rank from file `f` on, in the board diagram.
pub open spec fn rank_squares_text<B: ModifiableBoard<Position, Option<Piece>>>(board: &B, rank: int, f: int) -> Seq<char>
    decreases 8 - f,
{
    if f >= 8 || f < 0 {
        Seq::empty()
    } else {
        square_text(board.spec_at(Position { rank: rank as usize, file: f as usize })) + rank_squares_text(board, rank, f + 1)
    }
}

/// The rows of the board diagram for the ranks below `rank`, from the
/// highest down, each after a line feed.
pub open spec fn ranks_text<B: ModifiableBoard<Position, Option<Piece>>>(board: &B, rank: int) -> Seq<char>
    decreases rank,
{
    if rank <= 0 {
        Seq::empty()
    } else {
        seq!['\n', crate::text::digit_char(rank as nat), ' '] + rank_squares_text(board, rank - 1, 0) + ranks_text(board, rank - 1)
    }
}

/// The board diagram (as written where no terminal shows colors): a line
/// of file letters, then ranks 8 to 1, each with its number and its
/// squares, and a final line feed.
pub open spec fn board_text<B: ModifiableBoard<Position, Option<Piece>>>(board: &B) -> Seq<char> {
    seq![' ', ' ', ' ', 'a', ' ', ' ', 'b', ' ', ' ', 'c', ' ', ' ', 'd', ' ', ' ', 'e', ' ', ' ', 'f', ' ', ' ', 'g', ' ', ' ', 'h', ' ']
        + ranks_text(board, 8) + seq!['\n']
}

/// The board diagram (as written where no terminal shows colors).
pub fn format_board<B: Board>(board: &B) -> (text: String)
    ensures
        text@ == board_text(board),
{
    proof {
        reveal_strlit("   a  b  c  d  e  f  g  h ");
    }
    let mut out: Vec<char> = Vec::new();
    crate::text::push_str_chars(&mut out, "   a  b  c  d  e  f  g  h ");
    let ghost header = out@;
    let mut rank: usize = 8;
    while rank > 0
        invariant
            rank <= 8,
            header + ranks_text(board, 8) == out@ + ranks_text(board, rank as int),
        decreases rank,
    {
        let ghost before = out@;
        out.push('\n');
        let digit = crate::text::digit_to_char(rank as u32);
        out.push(digit);
        out.push(' ');
        let mut file: usize = 0;
        let ghost row_start = out@;
        while file < 8
            invariant
                1 <= rank <= 8,
                file <= 8,
                out@ + rank_squares_text(board, rank - 1, file as int) == row_start + rank_squares_text(board, rank - 1, 0),
            decreases 8 - file,
        {
            let p = Position { rank: rank - 1, file };
            proof {
                B::lemma_valid_key(p);
            }
            let square = board.at(&p);
            let ghost before_square = out@;
            out.push('[');
            match square {
                Some(piece) => out.push(get_unicode_piece(piece.piece, piece.player)),
                None => out.push(' '),
            }
            out.push(']');
            assert(out@ =~= before_square + square_text(square));
            assert(before_square + rank_squares_text(board, rank - 1, file as int)
                =~= out@ + rank_squares_text(board, rank - 1, file + 1));
            file += 1;
        }
        proof {
            assert(out@ =~= before + seq!['\n', crate::text::digit_char(rank as nat), ' '] + rank_squares_text(board, rank - 1, 0));
            assert(before + ranks_text(board, rank as int) =~= out@ + ranks_text(board, rank - 1));
        }
        rank -= 1;
    }
    out.push('\n');
    assert(out@ =~= board_text(board));
    crate::text::string_from_chars(&out)
}

} // verus!
