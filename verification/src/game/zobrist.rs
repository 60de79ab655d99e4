//! Zobrist hashing of game positions.
//!
//! Every (square, player, piece) triple, the black turn, each lost castling
//! right and each en passant file has a random key; the hash of a position
//! is the exclusive or of the keys of what it holds.

use crate::board::{square_index, valid_position, Piece, PieceType, Player, Position};
use rand::rngs::StdRng;
use rand::{Rng, SeedableRng};
use vstd::prelude::*;

verus! {

/// The standard random number generator of `rand`.
#[verifier::external_type_specification]
#[verifier::external_body]
pub struct ExStdRng(StdRng);

/// `StdRng::seed_from_u64` of `rand`: a generator seeded with `seed`.
/// Nothing is stated of the numbers it will draw.
#[verifier::external_body]
fn seeded_rng(seed: u64) -> StdRng {
    StdRng::seed_from_u64(seed)
}

/// `Rng::gen::<u64>` of `rand` on the generator: the next random number.
/// It may be any number.
#[verifier::external_body]
fn next_random(rng: &mut StdRng) -> u64 {
    rng.gen::<u64>()
}

/// The number of keys: 768 for pieces on squares, one for the black turn,
/// four for lost castling rights and eight for en passant files.
pub open spec fn key_count() -> nat {
    781
}

pub open spec fn player_index(player: Player) -> int {
    match player {
        Player::White => 0,
        Player::Black => 1,
    }
}

pub open spec fn piece_index(piece: PieceType) -> int {
    match piece {
        PieceType::Pawn => 0,
        PieceType::Knight => 1,
        PieceType::Bishop => 2,
        PieceType::Rook => 3,
        PieceType::Queen => 4,
        PieceType::King => 5,
    }
}

/// The index of the key of a piece on a square.
pub open spec fn piece_key_index(p: Position, piece: Piece) -> int {
    (square_index(p) * 2 + player_index(piece.player)) * 6 + piece_index(piece.piece)
}

pub open spec fn turn_key_index() -> int {
    768
}

pub open spec fn kingside_key_index(player: Player) -> int {
    769 + 2 * player_index(player)
}

pub open spec fn queenside_key_index(player: Player) -> int {
    770 + 2 * player_index(player)
}

pub open spec fn en_passant_key_index(file: int) -> int {
    773 + file
}

/// The random keys of the hash, drawn in order from the standard generator
/// seeded with 0.
#[derive(Clone, Debug, PartialEq)]
pub struct ZobristKeys {
    keys: Vec<u64>,
}

impl ZobristKeys {
    pub closed spec fn view(&self) -> Seq<u64> {
        self.keys@
    }

    pub closed spec fn wf(&self) -> bool {
        self.keys@.len() == key_count()
    }

    /// Draws the keys.
    pub fn new() -> (keys: ZobristKeys)
        ensures
            keys.wf(),
    {
        let mut rng = seeded_rng(0);
        let mut keys: Vec<u64> = Vec::new();
        let mut i: usize = 0;
        while i < 781
            invariant
                i <= 781,
                keys@.len() == i,
            decreases 781 - i,
        {
            keys.push(next_random(&mut rng));
            i += 1;
        }
        ZobristKeys { keys }
    }

    pub fn key(&self, index: usize) -> (key: u64)
        requires
            self.wf(),
            index < key_count(),
        ensures
            key == self@[index as int],
    {
        self.keys[index]
    }
}

/// The key of a piece on a square.
pub open spec fn piece_key(keys: Seq<u64>, p: Position, piece: Piece) -> u64 {
    keys[piece_key_index(p, piece)]
}

/// The key of the content of a square (0 for an empty square).
pub open spec fn square_key(keys: Seq<u64>, i: int, square: Option<Piece>) -> u64 {
    match square {
        Some(piece) => keys[(i * 2 + player_index(piece.player)) * 6 + piece_index(piece.piece)],
        None => 0,
    }
}

/// The exclusive or of the keys of the first `n` squares.
pub open spec fn squares_hash(keys: Seq<u64>, squares: Seq<Option<Piece>>, n: int) -> u64
    decreases n,
{
    if n <= 0 {
        0
    } else {
        squares_hash(keys, squares, n - 1) ^ square_key(keys, n - 1, squares[n - 1])
    }
}

/// A position hash.
#[derive(Copy, Clone, Debug, PartialEq, Eq, Structural)]
pub struct ZobristHash(pub u64);

pub type GameHash = ZobristHash;

fn piece_index_of(piece: PieceType) -> (i: usize)
    ensures
        i == piece_index(piece),
{
    match piece {
        PieceType::Pawn => 0,
        PieceType::Knight => 1,
        PieceType::Bishop => 2,
        PieceType::Rook => 3,
        PieceType::Queen => 4,
        PieceType::King => 5,
    }
}

fn player_index_of(player: Player) -> (i: usize)
    ensures
        i == player_index(player),
{
    match player {
        Player::White => 0,
        Player::Black => 1,
    }
}

impl ZobristHash {
    /// Flips the turn.
    pub fn switch_turn(&mut self, keys: &ZobristKeys)
        requires
            keys.wf(),
        ensures
            final(self).0 == old(self).0 ^ keys@[turn_key_index()],
    {
        self.0 = self.0 ^ keys.key(768);
    }

    /// Flips the kingside castling right of a player.
    pub fn switch_kingside_castling(&mut self, keys: &ZobristKeys, player: Player)
        requires
            keys.wf(),
        ensures
            final(self).0 == old(self).0 ^ keys@[kingside_key_index(player)],
    {
        self.0 = self.0 ^ keys.key(769 + 2 * player_index_of(player));
    }

    /// Flips the queenside castling right of a player.
    pub fn switch_queenside_castling(&mut self, keys: &ZobristKeys, player: Player)
        requires
            keys.wf(),
        ensures
            final(self).0 == old(self).0 ^ keys@[queenside_key_index(player)],
    {
        self.0 = self.0 ^ keys.key(770 + 2 * player_index_of(player));
    }

    /// Flips the en passant availability on a file.
    pub fn switch_en_passant_file(&mut self, keys: &ZobristKeys, file: usize)
        requires
            keys.wf(),
            file < 8,
        ensures
            final(self).0 == old(self).0 ^ keys@[en_passant_key_index(file as int)],
    {
        self.0 = self.0 ^ keys.key(773 + file);
    }

    /// Replaces the content of a square: removes the old piece and adds the
    /// new one.
    pub fn update_piece(&mut self, keys: &ZobristKeys, position: &Position, old_piece: Option<Piece>, new_piece: Option<Piece>)
        requires
            keys.wf(),
            valid_position(*position),
        ensures
            final(self).0 == old(self).0 ^ square_key(keys@, square_index(*position), old_piece)
                ^ square_key(keys@, square_index(*position), new_piece),
    {
        let square = position.rank * 8 + position.file;
        let removed = match old_piece {
            Some(piece) => keys.key((square * 2 + player_index_of(piece.player)) * 6 + piece_index_of(piece.piece)),
            None => 0,
        };
        let added = match new_piece {
            Some(piece) => keys.key((square * 2 + player_index_of(piece.player)) * 6 + piece_index_of(piece.piece)),
            None => 0,
        };
        self.0 = self.0 ^ removed ^ added;
    }

    /// Moves a piece from one square to another.
    pub fn move_piece(&mut self, keys: &ZobristKeys, source: &Position, target: &Position, moved_piece: Piece)
        requires
            keys.wf(),
            valid_position(*source),
            valid_position(*target),
        ensures
            final(self).0 == old(self).0 ^ piece_key(keys@, *source, moved_piece) ^ piece_key(keys@, *target, moved_piece),
    {
        let player = player_index_of(moved_piece.player);
        let piece = piece_index_of(moved_piece.piece);
        let s = source.rank * 8 + source.file;
        let t = target.rank * 8 + target.file;
        self.0 = self.0 ^ keys.key((s * 2 + player) * 6 + piece) ^ keys.key((t * 2 + player) * 6 + piece);
    }

    /// The hash of the squares alone.
    pub fn from_squares(keys: &ZobristKeys, squares: &Vec<Option<Piece>>) -> (hash: ZobristHash)
        requires
            keys.wf(),
            squares@.len() == 64,
        ensures
            hash.0 == squares_hash(keys@, squares@, 64),
    {
        let mut hash: u64 = 0;
        let mut i: usize = 0;
        while i < 64
            invariant
                i <= 64,
                keys.wf(),
                squares@.len() == 64,
                hash == squares_hash(keys@, squares@, i as int),
            decreases 64 - i,
        {
            let k = match squares[i] {
                Some(piece) => keys.key((i * 2 + player_index_of(piece.player)) * 6 + piece_index_of(piece.piece)),
                None => 0,
            };
            hash = hash ^ k;
            i += 1;
        }
        ZobristHash(hash)
    }
}

/// Exclusive or is associative and commutative, and undoes itself.
pub proof fn lemma_xor_algebra(a: u64, b: u64, c: u64)
    ensures
        (a ^ b) ^ c == a ^ (b ^ c),
        a ^ b == b ^ a,
        a ^ a == 0,
        a ^ 0 == a,
{
    assert((a ^ b) ^ c == a ^ (b ^ c)) by (bit_vector);
    assert(a ^ b == b ^ a) by (bit_vector);
    assert(a ^ a == 0) by (bit_vector);
    assert(a ^ 0 == a) by (bit_vector);
}

/// Replacing the content of one square changes the hash of the squares by
/// the keys of the old and of the new content: the incremental update of
/// `update_piece` agrees with hashing the new squares from scratch.
pub proof fn lemma_squares_hash_update(keys: Seq<u64>, squares: Seq<Option<Piece>>, i: int, value: Option<Piece>, n: int)
    requires
        0 <= i < n <= squares.len(),
    ensures
        squares_hash(keys, squares.update(i, value), n) == squares_hash(keys, squares, n)
            ^ square_key(keys, i, squares[i]) ^ square_key(keys, i, value),
    decreases n,
{
    let new_squares = squares.update(i, value);
    let old_key = square_key(keys, i, squares[i]);
    let new_key = square_key(keys, i, value);
    if n - 1 == i {
        assert(squares_hash(keys, new_squares, n - 1) == squares_hash(keys, squares, n - 1)) by {
            lemma_squares_hash_prefix(keys, squares, new_squares, n - 1);
        }
        let h = squares_hash(keys, squares, n - 1);
        lemma_xor_algebra(h, old_key, old_key);
        lemma_xor_algebra(old_key, old_key, new_key);
        lemma_xor_algebra(h ^ old_key, old_key, new_key);
        lemma_xor_algebra(h, 0, new_key);
        lemma_xor_algebra(h, old_key ^ old_key, new_key);
    } else {
        lemma_squares_hash_update(keys, squares, i, value, n - 1);
        let h = squares_hash(keys, squares, n - 1);
        let k = square_key(keys, n - 1, squares[n - 1]);
        assert(new_squares[n - 1] == squares[n - 1]);
        lemma_xor_algebra(h ^ old_key, new_key, k);
        lemma_xor_algebra(h, old_key, new_key ^ k);
        lemma_xor_algebra(new_key, k, 0);
        lemma_xor_algebra(k, new_key, 0);
        lemma_xor_algebra(h, old_key, k ^ new_key);
        lemma_xor_algebra(h ^ old_key, k, new_key);
        lemma_xor_algebra(h, old_key, k);
        lemma_xor_algebra(h, k, old_key);
        lemma_xor_algebra(old_key, k, 0);
        lemma_xor_algebra(k, old_key, 0);
        lemma_xor_algebra(h ^ k, old_key, new_key);
        assert(h ^ (old_key ^ k) == h ^ (k ^ old_key));
    }
}

/// Squares that agree below `n` have the same hash below `n`.
pub proof fn lemma_squares_hash_prefix(keys: Seq<u64>, a: Seq<Option<Piece>>, b: Seq<Option<Piece>>, n: int)
    requires
        n <= a.len(),
        n <= b.len(),
        forall|j: int| 0 <= j < n ==> a[j] == b[j],
    ensures
        squares_hash(keys, a, n) == squares_hash(keys, b, n),
    decreases n,
{
    if n > 0 {
        lemma_squares_hash_prefix(keys, a, b, n - 1);
    }
}

} // verus!
