//! Iterators over the positions of a board: generators (one position, the
//! positions in a direction, the whole board) and filters on what the
//! squares hold.

use super::{Bitboards, CompactBoard, SimpleBoard, index_position, lemma_index_position, opponent, position_if_valid, square_index, try_move, valid_position, Board, Direction, Piece, PieceType, Player, Position};
use core::marker::PhantomData;
use vstd::prelude::*;

verus! {

/// What a filter keeps of a square's content.
#[derive(Copy, Clone, Debug, PartialEq, Eq, Structural)]
pub enum SquareFilter {
    Empty,
    Player(Player),
    Piece(PieceType),
    PlayerPiece(Player, PieceType),
    PlayerOrEmpty(Player),
    Occupied,
}

/// Whether a filter keeps a square's content.
pub open spec fn selects(square: Option<Piece>, filter: SquareFilter) -> bool {
    match filter {
        SquareFilter::Empty => square is None,
        SquareFilter::Player(player) => square matches Some(p) && p.player == player,
        SquareFilter::Piece(piece) => square matches Some(p) && p.piece == piece,
        SquareFilter::PlayerPiece(player, piece) => square matches Some(p) && p.player == player && p.piece == piece,
        SquareFilter::PlayerOrEmpty(player) => square is None || (square matches Some(p) && p.player == player),
        SquareFilter::Occupied => square is Some,
    }
}

/// The positions of `s` whose squares on `board` a filter keeps, in order.
pub open spec fn select<B: Board>(board: &B, s: Seq<Position>, filter: SquareFilter) -> Seq<Position>
    decreases s.len(),
{
    if s.len() == 0 {
        Seq::empty()
    } else if selects(board.spec_at(s[0]), filter) {
        seq![s[0]] + select(board, s.skip(1), filter)
    } else {
        select(board, s.skip(1), filter)
    }
}

/// The positions of `s` up to the first one whose square is not empty.
pub open spec fn take_while_empty_spec<B: Board>(board: &B, s: Seq<Position>) -> Seq<Position>
    decreases s.len(),
{
    if s.len() == 0 || board.spec_at(s[0]) is Some {
        Seq::empty()
    } else {
        seq![s[0]] + take_while_empty_spec(board, s.skip(1))
    }
}

/// The positions of `s` while their squares are empty, then the first
/// occupied one if it holds a piece of `player`.
pub open spec fn take_while_empty_or_player_spec<B: Board>(board: &B, s: Seq<Position>, player: Player) -> Seq<Position>
    decreases s.len(),
{
    if s.len() == 0 {
        Seq::empty()
    } else if board.spec_at(s[0]) is None {
        seq![s[0]] + take_while_empty_or_player_spec(board, s.skip(1), player)
    } else if board.spec_at(s[0]).unwrap().player == player {
        seq![s[0]]
    } else {
        Seq::empty()
    }
}

/// An iterator over positions of a board.
pub trait PositionIterator<'a, B: Board + 'a>: Sized {
    /// The board.
    spec fn board(&self) -> &'a B;

    /// The positions still to come, in order.
    spec fn remaining(&self) -> Seq<Position>;

    /// The board.
    fn representation(&self) -> (board: &'a B)
        ensures
            board == self.board(),
    ;

    /// The next position, if any.
    fn next(&mut self) -> (position: Option<Position>)
        ensures
            final(self).board() == old(self).board(),
            match position {
                Some(p) => old(self).remaining().len() > 0 && p == old(self).remaining()[0] && valid_position(p)
                    && final(self).remaining() == old(self).remaining().skip(1),
                None => old(self).remaining().len() == 0 && final(self).remaining().len() == 0,
            },
    ;

    /// An iterator at the same place.
    fn duplicate(&self) -> (copy: Self)
        ensures
            copy.board() == self.board(),
            copy.remaining() == self.remaining(),
    ;
}

/// The filters of a position iterator.
pub trait PositionFilters<'a, B: Board + 'a>: PositionIterator<'a, B> {
    /// The positions to come whose squares are empty.
    fn only_empty(&self) -> (filtered: IterateEmpty<'a, Self, B>)
        ensures
            filtered.board() == self.board(),
            filtered.remaining() == select(self.board(), self.remaining(), SquareFilter::Empty),
    {
        IterateEmpty::new(self.duplicate())
    }

    /// The positions to come whose squares hold a piece of `player`.
    fn only_player(&self, player: Player) -> (filtered: IterateByPlayer<'a, Self, B>)
        ensures
            filtered.board() == self.board(),
            filtered.remaining() == select(self.board(), self.remaining(), SquareFilter::Player(player)),
    {
        IterateByPlayer::new(self.duplicate(), player)
    }

    /// The positions to come whose squares hold a piece of the other player.
    fn only_enemy(&self, player: Player) -> (filtered: IterateByPlayer<'a, Self, B>)
        ensures
            filtered.board() == self.board(),
            filtered.remaining() == select(self.board(), self.remaining(), SquareFilter::Player(opponent(player))),
    {
        IterateByPlayer::new(self.duplicate(), player.opponent())
    }

    /// The positions to come whose squares hold a piece of a type.
    fn only_piece(&self, piece: PieceType) -> (filtered: IterateByPiece<'a, Self, B>)
        ensures
            filtered.board() == self.board(),
            filtered.remaining() == select(self.board(), self.remaining(), SquareFilter::Piece(piece)),
    {
        IterateByPiece::new(self.duplicate(), piece)
    }

    /// The positions to come whose squares hold a piece of a type of the
    /// other player.
    fn only_enemy_piece(&self, player: Player, piece: PieceType) -> (filtered: IterateByPlayerPiece<'a, Self, B>)
        ensures
            filtered.board() == self.board(),
            filtered.remaining() == select(self.board(), self.remaining(), SquareFilter::PlayerPiece(opponent(player), piece)),
    {
        IterateByPlayerPiece::new(self.duplicate(), player.opponent(), piece)
    }

    /// The positions to come whose squares are empty or hold a piece of the
    /// other player.
    fn only_empty_or_enemy(&self, player: Player) -> (filtered: IteratePlayerOrEmpty<'a, Self, B>)
        ensures
            filtered.board() == self.board(),
            filtered.remaining() == select(self.board(), self.remaining(), SquareFilter::PlayerOrEmpty(opponent(player))),
    {
        IteratePlayerOrEmpty::new(self.duplicate(), player.opponent())
    }

    /// The positions to come up to the first whose square holds a piece.
    fn take_while_empty(&self) -> (taken: IterateWhileEmpty<'a, Self, B>)
        ensures
            taken.board() == self.board(),
            taken.remaining() == take_while_empty_spec(self.board(), self.remaining()),
    {
        IterateWhileEmpty::new(self.duplicate())
    }

    /// The positions to come while their squares are empty, then the first
    /// occupied one if it holds a piece of the other player.
    fn take_while_empty_or_enemy(&self, player: Player) -> (taken: IterateWhileEmptyOrPlayer<'a, Self, B>)
        ensures
            taken.board() == self.board(),
            taken.remaining() == take_while_empty_or_player_spec(self.board(), self.remaining(), opponent(player)),
    {
        IterateWhileEmptyOrPlayer::new(self.duplicate(), player.opponent())
    }

    /// The positions to come whose squares hold a piece.
    fn skip_while_empty(&self) -> (filtered: IterateSkipWhileEmpty<'a, Self, B>)
        ensures
            filtered.board() == self.board(),
            filtered.remaining() == select(self.board(), self.remaining(), SquareFilter::Occupied),
    {
        IterateSkipWhileEmpty::new(self.duplicate())
    }
}

impl<'a, B: Board + 'a, I: PositionIterator<'a, B>> PositionFilters<'a, B> for I {}

/// Boards whose positions can be iterated.
pub trait IterableBoard: Board + Sized {
    /// The position one step from `position` in `direction`, if on the
    /// board.
    fn try_move(&self, position: &Position, direction: &Direction) -> (iter: PositionIter<'_, Self>)
        requires
            position.rank <= 127,
            position.file <= 127,
            -128 <= position.rank + direction.row_inc <= 127,
            -128 <= position.file + direction.col_inc <= 127,
        ensures
            iter.board() == self,
            iter.remaining() == match position_if_valid(position.rank + direction.row_inc, position.file + direction.col_inc) {
                Some(p) => seq![p],
                None => Seq::<Position>::empty(),
            },
    {
        PositionIter::new(self, try_move(position, direction))
    }

    /// The iterator over one position.
    fn position_iter(&self, position: &Position) -> (iter: PositionIter<'_, Self>)
        requires
            valid_position(*position),
        ensures
            iter.board() == self,
            iter.remaining() == seq![*position],
    {
        PositionIter::new(self, Some(*position))
    }

    /// The iterator over the whole board.
    fn board_iter(&self) -> (iter: BoardIter<'_, Self>)
        ensures
            iter.board() == self,
            iter.remaining() == board_from(0),
    {
        BoardIter::new(self)
    }

    /// The iterator over the positions in a direction from `position`.
    fn direction_iterator(&self, position: &Position, direction: &Direction) -> (iter: DirectionIter<'_, Self>)
        requires
            valid_position(*position),
            usable_direction(*direction),
        ensures
            iter.board() == self,
            iter.remaining() == walk_from(*position, *direction),
    {
        DirectionIter::new(self, Some(*position), *direction)
    }
}

/// Takes positions from `iter` until one whose square a filter keeps.
fn next_selected<'a, B: Board + 'a, I: PositionIterator<'a, B>>(iter: &mut I, filter: SquareFilter) -> (position: Option<Position>)
    ensures
        final(iter).board() == old(iter).board(),
        select(old(iter).board(), old(iter).remaining(), filter) == match position {
            Some(p) => seq![p] + select(final(iter).board(), final(iter).remaining(), filter),
            None => Seq::<Position>::empty(),
        },
        position is None ==> select(final(iter).board(), final(iter).remaining(), filter).len() == 0,
        position matches Some(p) ==> valid_position(p),
{
    let ghost board = iter.board();
    loop
        invariant
            iter.board() == board,
            board == old(iter).board(),
            select(board, old(iter).remaining(), filter) == select(board, iter.remaining(), filter),
        decreases iter.remaining().len(),
    {
        let ghost before = iter.remaining();
        match iter.next() {
            None => {
                return None;
            },
            Some(p) => {
                let square = iter.representation().square(&p);
                if selects_exec(square, filter) {
                    return Some(p);
                }
            },
        }
    }
}

fn selects_exec(square: Option<Piece>, filter: SquareFilter) -> (keep: bool)
    ensures
        keep == selects(square, filter),
{
    match filter {
        SquareFilter::Empty => square.is_none(),
        SquareFilter::Player(player) => match square {
            Some(p) => p.player == player,
            None => false,
        },
        SquareFilter::Piece(piece) => match square {
            Some(p) => p.piece == piece,
            None => false,
        },
        SquareFilter::PlayerPiece(player, piece) => match square {
            Some(p) => p.player == player && p.piece == piece,
            None => false,
        },
        SquareFilter::PlayerOrEmpty(player) => match square {
            Some(p) => p.player == player,
            None => true,
        },
        SquareFilter::Occupied => square.is_some(),
    }
}

/// An iterator over one position, or none.
pub struct PositionIter<'a, B: Board> {
    representation: &'a B,
    position: Option<Position>,
}

impl<'a, B: Board + 'a> PositionIter<'a, B> {
    #[verifier::type_invariant]
    spec fn on_board(&self) -> bool {
        self.position matches Some(p) ==> valid_position(p)
    }

    /// The iterator over `position`, if any.
    pub fn new(representation: &'a B, position: Option<Position>) -> (iter: Self)
        requires
            position matches Some(p) ==> valid_position(p),
        ensures
            iter.board() == representation,
            iter.remaining() == match position {
                Some(p) => seq![p],
                None => Seq::<Position>::empty(),
            },
    {
        PositionIter { representation, position }
    }
}

impl<'a, B: Board + 'a> PositionIterator<'a, B> for PositionIter<'a, B> {
    closed spec fn board(&self) -> &'a B {
        self.representation
    }

    closed spec fn remaining(&self) -> Seq<Position> {
        match self.position {
            Some(p) => seq![p],
            None => Seq::empty(),
        }
    }

    fn representation(&self) -> (board: &'a B) {
        self.representation
    }

    fn next(&mut self) -> (position: Option<Position>) {
        proof {
            use_type_invariant(&*self);
        }
        let current = self.position;
        self.position = None;
        assert(seq![current.unwrap()].skip(1) =~= Seq::<Position>::empty());
        current
    }

    fn duplicate(&self) -> (copy: Self) {
        proof {
            use_type_invariant(self);
        }
        PositionIter { representation: self.representation, position: self.position }
    }
}

/// The positions met stepping from `p` in a direction, until the edge.
pub open spec fn walk_from(p: Position, d: Direction) -> Seq<Position>
    decreases walk_measure(p, d),
    when valid_position(p) && (d.row_inc != 0 || d.col_inc != 0)
{
    match position_if_valid(p.rank + d.row_inc, p.file + d.col_inc) {
        None => Seq::empty(),
        Some(q) => seq![q] + walk_from(q, d),
    }
}

/// How many steps at most remain from `p` in a direction.
pub open spec fn walk_measure(p: Position, d: Direction) -> int {
    if d.row_inc > 0 {
        7 - p.rank
    } else if d.row_inc < 0 {
        p.rank as int
    } else if d.col_inc > 0 {
        7 - p.file
    } else {
        p.file as int
    }
}

/// A direction that moves and whose steps fit in `i8` from any square.
pub open spec fn usable_direction(d: Direction) -> bool {
    &&& d.row_inc != 0 || d.col_inc != 0
    &&& d.row_inc <= 120 && d.col_inc <= 120
}

/// An iterator over the positions in a direction from a position (the
/// position itself excluded).
pub struct DirectionIter<'a, B: Board> {
    representation: &'a B,
    position: Option<Position>,
    direction: Direction,
}

impl<'a, B: Board + 'a> DirectionIter<'a, B> {
    #[verifier::type_invariant]
    spec fn consistent(&self) -> bool {
        &&& self.position matches Some(p) ==> valid_position(p)
        &&& usable_direction(self.direction)
    }

    /// The iterator from `position` (if any) in `direction`.
    pub fn new(representation: &'a B, position: Option<Position>, direction: Direction) -> (iter: Self)
        requires
            position matches Some(p) ==> valid_position(p),
            usable_direction(direction),
        ensures
            iter.board() == representation,
            iter.remaining() == match position {
                Some(p) => walk_from(p, direction),
                None => Seq::<Position>::empty(),
            },
    {
        DirectionIter { representation, position, direction }
    }
}

impl<'a, B: Board + 'a> PositionIterator<'a, B> for DirectionIter<'a, B> {
    closed spec fn board(&self) -> &'a B {
        self.representation
    }

    closed spec fn remaining(&self) -> Seq<Position> {
        match self.position {
            Some(p) => walk_from(p, self.direction),
            None => Seq::empty(),
        }
    }

    fn representation(&self) -> (board: &'a B) {
        self.representation
    }

    fn next(&mut self) -> (position: Option<Position>) {
        proof {
            use_type_invariant(&*self);
        }
        let next = match self.position {
            Some(p) => try_move(&p, &self.direction),
            None => None,
        };
        proof {
            if let Some(q) = next {
                assert((seq![q] + walk_from(q, self.direction)).skip(1) =~= walk_from(q, self.direction));
            }
        }
        self.position = next;
        next
    }

    fn duplicate(&self) -> (copy: Self) {
        proof {
            use_type_invariant(self);
        }
        DirectionIter { representation: self.representation, position: self.position, direction: self.direction }
    }
}

/// The positions of a board from index `start` on, rank by rank.
pub open spec fn board_from(start: int) -> Seq<Position> {
    Seq::new((64 - start) as nat, |i: int| index_position(start + i))
}

/// An iterator over all the positions of a board, rank by rank.
pub struct BoardIter<'a, B: Board> {
    representation: &'a B,
    position: Position,
}

impl<'a, B: Board + 'a> BoardIter<'a, B> {
    #[verifier::type_invariant]
    spec fn on_board_or_past(&self) -> bool {
        valid_position(self.position) || (self.position.rank == 8 && self.position.file == 0)
    }

    /// The iterator from the first position.
    pub fn new(representation: &'a B) -> (iter: Self)
        ensures
            iter.board() == representation,
            iter.remaining() == board_from(0),
    {
        BoardIter { representation, position: Position { rank: 0, file: 0 } }
    }
}

impl<'a, B: Board + 'a> PositionIterator<'a, B> for BoardIter<'a, B> {
    closed spec fn board(&self) -> &'a B {
        self.representation
    }

    closed spec fn remaining(&self) -> Seq<Position> {
        board_from(square_index(self.position))
    }

    fn representation(&self) -> (board: &'a B) {
        self.representation
    }

    fn next(&mut self) -> (position: Option<Position>) {
        proof {
            use_type_invariant(&*self);
        }
        if self.position.rank > 7 {
            assert(board_from(64) =~= Seq::<Position>::empty());
            return None;
        }
        let current = self.position;
        proof {
            lemma_index_position(current);
        }
        if self.position.file == 7 {
            self.position = Position { rank: current.rank + 1, file: 0 };
        } else {
            self.position = Position { rank: current.rank, file: current.file + 1 };
        }
        assert(board_from(square_index(current)).skip(1) =~= board_from(square_index(self.position)));
        Some(current)
    }

    fn duplicate(&self) -> (copy: Self) {
        proof {
            use_type_invariant(self);
        }
        BoardIter { representation: self.representation, position: self.position }
    }
}

/// The positions of an iterator whose squares are empty.
pub struct IterateEmpty<'a, I, B: Board> {
    iter: I,
    _unused: PhantomData<&'a B>,
}

impl<'a, B: Board + 'a, I: PositionIterator<'a, B>> IterateEmpty<'a, I, B> {
    /// Filters the positions of `iter`.
    pub fn new(iter: I) -> (filtered: Self)
        ensures
            filtered.board() == iter.board(),
            filtered.remaining() == select(iter.board(), iter.remaining(), SquareFilter::Empty),
    {
        IterateEmpty { iter, _unused: PhantomData }
    }
}

impl<'a, B: Board + 'a, I: PositionIterator<'a, B>> PositionIterator<'a, B> for IterateEmpty<'a, I, B> {
    closed spec fn board(&self) -> &'a B {
        self.iter.board()
    }

    closed spec fn remaining(&self) -> Seq<Position> {
        select(self.iter.board(), self.iter.remaining(), SquareFilter::Empty)
    }

    fn representation(&self) -> (board: &'a B) {
        self.iter.representation()
    }

    fn next(&mut self) -> (position: Option<Position>) {
        let filter = SquareFilter::Empty;
        let position = next_selected(&mut self.iter, filter);
        proof {
            if let Some(p) = position {
                let rest = select(self.iter.board(), self.iter.remaining(), filter);
                assert((seq![p] + rest).skip(1) =~= rest);
            }
        }
        position
    }

    fn duplicate(&self) -> (copy: Self) {
        IterateEmpty { iter: self.iter.duplicate(), _unused: PhantomData }
    }
}

/// The positions of an iterator whose squares hold a piece of a player.
pub struct IterateByPlayer<'a, I, B: Board> {
    iter: I,
    player: Player,
    _unused: PhantomData<&'a B>,
}

impl<'a, B: Board + 'a, I: PositionIterator<'a, B>> IterateByPlayer<'a, I, B> {
    /// Filters the positions of `iter`.
    pub fn new(iter: I, player: Player) -> (filtered: Self)
        ensures
            filtered.board() == iter.board(),
            filtered.remaining() == select(iter.board(), iter.remaining(), SquareFilter::Player(player)),
    {
        IterateByPlayer { iter, player, _unused: PhantomData }
    }
}

impl<'a, B: Board + 'a, I: PositionIterator<'a, B>> PositionIterator<'a, B> for IterateByPlayer<'a, I, B> {
    closed spec fn board(&self) -> &'a B {
        self.iter.board()
    }

    closed spec fn remaining(&self) -> Seq<Position> {
        select(self.iter.board(), self.iter.remaining(), SquareFilter::Player(self.player))
    }

    fn representation(&self) -> (board: &'a B) {
        self.iter.representation()
    }

    fn next(&mut self) -> (position: Option<Position>) {
        let filter = SquareFilter::Player(self.player);
        let position = next_selected(&mut self.iter, filter);
        proof {
            if let Some(p) = position {
                let rest = select(self.iter.board(), self.iter.remaining(), filter);
                assert((seq![p] + rest).skip(1) =~= rest);
            }
        }
        position
    }

    fn duplicate(&self) -> (copy: Self) {
        IterateByPlayer { iter: self.iter.duplicate(), player: self.player, _unused: PhantomData }
    }
}

/// The positions of an iterator whose squares hold a piece of a type.
pub struct IterateByPiece<'a, I, B: Board> {
    iter: I,
    piece: PieceType,
    _unused: PhantomData<&'a B>,
}

impl<'a, B: Board + 'a, I: PositionIterator<'a, B>> IterateByPiece<'a, I, B> {
    /// Filters the positions of `iter`.
    pub fn new(iter: I, piece: PieceType) -> (filtered: Self)
        ensures
            filtered.board() == iter.board(),
            filtered.remaining() == select(iter.board(), iter.remaining(), SquareFilter::Piece(piece)),
    {
        IterateByPiece { iter, piece, _unused: PhantomData }
    }
}

impl<'a, B: Board + 'a, I: PositionIterator<'a, B>> PositionIterator<'a, B> for IterateByPiece<'a, I, B> {
    closed spec fn board(&self) -> &'a B {
        self.iter.board()
    }

    closed spec fn remaining(&self) -> Seq<Position> {
        select(self.iter.board(), self.iter.remaining(), SquareFilter::Piece(self.piece))
    }

    fn representation(&self) -> (board: &'a B) {
        self.iter.representation()
    }

    fn next(&mut self) -> (position: Option<Position>) {
        let filter = SquareFilter::Piece(self.piece);
        let position = next_selected(&mut self.iter, filter);
        proof {
            if let Some(p) = position {
                let rest = select(self.iter.board(), self.iter.remaining(), filter);
                assert((seq![p] + rest).skip(1) =~= rest);
            }
        }
        position
    }

    fn duplicate(&self) -> (copy: Self) {
        IterateByPiece { iter: self.iter.duplicate(), piece: self.piece, _unused: PhantomData }
    }
}

/// The positions of an iterator whose squares hold a piece of a player and a type.
pub struct IterateByPlayerPiece<'a, I, B: Board> {
    iter: I,
    player: Player,
    piece: PieceType,
    _unused: PhantomData<&'a B>,
}

impl<'a, B: Board + 'a, I: PositionIterator<'a, B>> IterateByPlayerPiece<'a, I, B> {
    /// Filters the positions of `iter`.
    pub fn new(iter: I, player: Player, piece: PieceType) -> (filtered: Self)
        ensures
            filtered.board() == iter.board(),
            filtered.remaining() == select(iter.board(), iter.remaining(), SquareFilter::PlayerPiece(player, piece)),
    {
        IterateByPlayerPiece { iter, player, piece, _unused: PhantomData }
    }
}

impl<'a, B: Board + 'a, I: PositionIterator<'a, B>> PositionIterator<'a, B> for IterateByPlayerPiece<'a, I, B> {
    closed spec fn board(&self) -> &'a B {
        self.iter.board()
    }

    closed spec fn remaining(&self) -> Seq<Position> {
        select(self.iter.board(), self.iter.remaining(), SquareFilter::PlayerPiece(self.player, self.piece))
    }

    fn representation(&self) -> (board: &'a B) {
        self.iter.representation()
    }

    fn next(&mut self) -> (position: Option<Position>) {
        let filter = SquareFilter::PlayerPiece(self.player, self.piece);
        let position = next_selected(&mut self.iter, filter);
        proof {
            if let Some(p) = position {
                let rest = select(self.iter.board(), self.iter.remaining(), filter);
                assert((seq![p] + rest).skip(1) =~= rest);
            }
        }
        position
    }

    fn duplicate(&self) -> (copy: Self) {
        IterateByPlayerPiece { iter: self.iter.duplicate(), player: self.player, piece: self.piece, _unused: PhantomData }
    }
}

/// The positions of an iterator whose squares are empty or hold a piece of a player.
pub struct IteratePlayerOrEmpty<'a, I, B: Board> {
    iter: I,
    player: Player,
    _unused: PhantomData<&'a B>,
}

impl<'a, B: Board + 'a, I: PositionIterator<'a, B>> IteratePlayerOrEmpty<'a, I, B> {
    /// Filters the positions of `iter`.
    pub fn new(iter: I, player: Player) -> (filtered: Self)
        ensures
            filtered.board() == iter.board(),
            filtered.remaining() == select(iter.board(), iter.remaining(), SquareFilter::PlayerOrEmpty(player)),
    {
        IteratePlayerOrEmpty { iter, player, _unused: PhantomData }
    }
}

impl<'a, B: Board + 'a, I: PositionIterator<'a, B>> PositionIterator<'a, B> for IteratePlayerOrEmpty<'a, I, B> {
    closed spec fn board(&self) -> &'a B {
        self.iter.board()
    }

    closed spec fn remaining(&self) -> Seq<Position> {
        select(self.iter.board(), self.iter.remaining(), SquareFilter::PlayerOrEmpty(self.player))
    }

    fn representation(&self) -> (board: &'a B) {
        self.iter.representation()
    }

    fn next(&mut self) -> (position: Option<Position>) {
        let filter = SquareFilter::PlayerOrEmpty(self.player);
        let position = next_selected(&mut self.iter, filter);
        proof {
            if let Some(p) = position {
                let rest = select(self.iter.board(), self.iter.remaining(), filter);
                assert((seq![p] + rest).skip(1) =~= rest);
            }
        }
        position
    }

    fn duplicate(&self) -> (copy: Self) {
        IteratePlayerOrEmpty { iter: self.iter.duplicate(), player: self.player, _unused: PhantomData }
    }
}

/// The positions of an iterator whose squares hold a piece.
pub struct IterateSkipWhileEmpty<'a, I, B: Board> {
    iter: I,
    _unused: PhantomData<&'a B>,
}

impl<'a, B: Board + 'a, I: PositionIterator<'a, B>> IterateSkipWhileEmpty<'a, I, B> {
    /// Filters the positions of `iter`.
    pub fn new(iter: I) -> (filtered: Self)
        ensures
            filtered.board() == iter.board(),
            filtered.remaining() == select(iter.board(), iter.remaining(), SquareFilter::Occupied),
    {
        IterateSkipWhileEmpty { iter, _unused: PhantomData }
    }
}

impl<'a, B: Board + 'a, I: PositionIterator<'a, B>> PositionIterator<'a, B> for IterateSkipWhileEmpty<'a, I, B> {
    closed spec fn board(&self) -> &'a B {
        self.iter.board()
    }

    closed spec fn remaining(&self) -> Seq<Position> {
        select(self.iter.board(), self.iter.remaining(), SquareFilter::Occupied)
    }

    fn representation(&self) -> (board: &'a B) {
        self.iter.representation()
    }

    fn next(&mut self) -> (position: Option<Position>) {
        let filter = SquareFilter::Occupied;
        let position = next_selected(&mut self.iter, filter);
        proof {
            if let Some(p) = position {
                let rest = select(self.iter.board(), self.iter.remaining(), filter);
                assert((seq![p] + rest).skip(1) =~= rest);
            }
        }
        position
    }

    fn duplicate(&self) -> (copy: Self) {
        IterateSkipWhileEmpty { iter: self.iter.duplicate(), _unused: PhantomData }
    }
}

/// The positions of an iterator up to the first whose square holds a piece.
pub struct IterateWhileEmpty<'a, I, B: Board> {
    iter: I,
    stop: bool,
    _unused: PhantomData<&'a B>,
}

impl<'a, B: Board + 'a, I: PositionIterator<'a, B>> IterateWhileEmpty<'a, I, B> {
    /// Takes the positions of `iter` while their squares are empty.
    pub fn new(iter: I) -> (taken: Self)
        ensures
            taken.board() == iter.board(),
            taken.remaining() == take_while_empty_spec(iter.board(), iter.remaining()),
    {
        IterateWhileEmpty { iter, stop: false, _unused: PhantomData }
    }
}

impl<'a, B: Board + 'a, I: PositionIterator<'a, B>> PositionIterator<'a, B> for IterateWhileEmpty<'a, I, B> {
    closed spec fn board(&self) -> &'a B {
        self.iter.board()
    }

    closed spec fn remaining(&self) -> Seq<Position> {
        if self.stop {
            Seq::empty()
        } else {
            take_while_empty_spec(self.iter.board(), self.iter.remaining())
        }
    }

    fn representation(&self) -> (board: &'a B) {
        self.iter.representation()
    }

    fn next(&mut self) -> (position: Option<Position>) {
        if self.stop {
            return None;
        }
        if let Some(position) = self.iter.next() {
            if self.iter.representation().square(&position).is_none() {
                proof {
                    let rest = take_while_empty_spec(self.iter.board(), self.iter.remaining());
                    assert((seq![position] + rest).skip(1) =~= rest);
                }
                return Some(position);
            }
        }
        self.stop = true;
        None
    }

    fn duplicate(&self) -> (copy: Self) {
        IterateWhileEmpty { iter: self.iter.duplicate(), stop: self.stop, _unused: PhantomData }
    }
}

/// The positions of an iterator while their squares are empty, then the
/// first occupied one if it holds a piece of the player.
pub struct IterateWhileEmptyOrPlayer<'a, I, B: Board> {
    iter: I,
    player: Player,
    stop: bool,
    _unused: PhantomData<&'a B>,
}

impl<'a, B: Board + 'a, I: PositionIterator<'a, B>> IterateWhileEmptyOrPlayer<'a, I, B> {
    /// Takes the positions of `iter` while their squares are empty, then
    /// the first occupied one if it holds a piece of `player`.
    pub fn new(iter: I, player: Player) -> (taken: Self)
        ensures
            taken.board() == iter.board(),
            taken.remaining() == take_while_empty_or_player_spec(iter.board(), iter.remaining(), player),
    {
        IterateWhileEmptyOrPlayer { iter, player, stop: false, _unused: PhantomData }
    }
}

impl<'a, B: Board + 'a, I: PositionIterator<'a, B>> PositionIterator<'a, B> for IterateWhileEmptyOrPlayer<'a, I, B> {
    closed spec fn board(&self) -> &'a B {
        self.iter.board()
    }

    closed spec fn remaining(&self) -> Seq<Position> {
        if self.stop {
            Seq::empty()
        } else {
            take_while_empty_or_player_spec(self.iter.board(), self.iter.remaining(), self.player)
        }
    }

    fn representation(&self) -> (board: &'a B) {
        self.iter.representation()
    }

    fn next(&mut self) -> (position: Option<Position>) {
        if self.stop {
            return None;
        }
        if let Some(position) = self.iter.next() {
            match self.iter.representation().square(&position) {
                None => {
                    proof {
                        let rest = take_while_empty_or_player_spec(self.iter.board(), self.iter.remaining(), self.player);
                        assert((seq![position] + rest).skip(1) =~= rest);
                    }
                    return Some(position);
                },
                Some(piece) => {
                    if piece.player == self.player {
                        self.stop = true;
                        proof {
                            assert(seq![position].skip(1) =~= Seq::<Position>::empty());
                        }
                        return Some(position);
                    }
                },
            }
        }
        self.stop = true;
        None
    }

    fn duplicate(&self) -> (copy: Self) {
        IterateWhileEmptyOrPlayer { iter: self.iter.duplicate(), player: self.player, stop: self.stop, _unused: PhantomData }
    }
}

impl IterableBoard for SimpleBoard {}

impl IterableBoard for CompactBoard {}

impl IterableBoard for Bitboards {}

} // verus!
