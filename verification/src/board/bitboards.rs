//! A board of bitboards: for each player and piece type, a 64-bit word whose
//! bit `rank * 8 + file` is set where such a piece stands.

use super::{
    index_position, initial_square, lemma_index_position, lemma_position_index, square_index,
    try_move, valid_position, Board, Direction, ModifiableBoard, Piece, PieceType, Player, Position,
};
use crate::rules::{
    board_fuel, clear_walk, enemy_slider, has_king, holds, holds_enemy, is_attacked, is_empty, king_index_from, king_position,
    lemma_ray_first_found, lemma_ray_first_hits, ray_first, sq_at, step, unit_direction, walk,
};
use crate::board::{board_model, opponent, spec_pawn_direction};
use crate::eval::SafetyChecks;
use vstd::prelude::*;

verus! {

pub type Bitboard = u64;

/// Bit `i` of a bitboard is set.
pub open spec fn has_bit(b: u64, i: u64) -> bool {
    b & (1u64 << i) != 0
}

/// The bit index of a position.
pub open spec fn bit_index(p: Position) -> u64 {
    square_index(p) as u64
}

pub proof fn lemma_bit_set(b: u64, i: u64, j: u64)
    requires
        i < 64,
        j < 64,
    ensures
        has_bit(b | (1u64 << i), j) == (has_bit(b, j) || i == j),
{
    assert(has_bit(b | (1u64 << i), j) == (has_bit(b, j) || i == j)) by (bit_vector)
        requires i < 64, j < 64;
}

pub proof fn lemma_bit_clear(b: u64, i: u64, j: u64)
    requires
        i < 64,
        j < 64,
    ensures
        has_bit(b & !(1u64 << i), j) == (has_bit(b, j) && i != j),
{
    assert(has_bit(b & !(1u64 << i), j) == (has_bit(b, j) && i != j)) by (bit_vector)
        requires i < 64, j < 64;
}

pub proof fn lemma_bit_or(a: u64, b: u64, j: u64)
    requires
        j < 64,
    ensures
        has_bit(a | b, j) == (has_bit(a, j) || has_bit(b, j)),
{
    assert(has_bit(a | b, j) == (has_bit(a, j) || has_bit(b, j))) by (bit_vector)
        requires j < 64;
}

pub proof fn lemma_bit_and(a: u64, b: u64, j: u64)
    requires
        j < 64,
    ensures
        has_bit(a & b, j) == (has_bit(a, j) && has_bit(b, j)),
{
    assert(has_bit(a & b, j) == (has_bit(a, j) && has_bit(b, j))) by (bit_vector)
        requires j < 64;
}

pub proof fn lemma_no_bit_of_zero(j: u64)
    requires
        j < 64,
    ensures
        !has_bit(0, j),
{
    assert(!has_bit(0, j)) by (bit_vector)
        requires j < 64;
}

/// A bitboard without set bits is zero.
pub proof fn lemma_zero_iff_no_bits(b: u64)
    ensures
        b == 0 <==> forall|j: u64| j < 64 ==> !#[trigger] has_bit(b, j),
{
    if b == 0 {
        assert forall|j: u64| j < 64 implies !#[trigger] has_bit(b, j) by {
            lemma_no_bit_of_zero(j);
        }
    } else {
        lemma_lowest_bit(b);
    }
}

/// The lowest set bit of a non-zero bitboard.
pub proof fn lemma_lowest_bit(b: u64)
    requires
        b != 0,
    ensures
        b.trailing_zeros() < 64,
        has_bit(b, b.trailing_zeros() as u64),
        forall|j: u64| j < b.trailing_zeros() ==> !#[trigger] has_bit(b, j),
{
    vstd::std_specs::bits::axiom_u64_trailing_zeros(b);
    let t = b.trailing_zeros() as u64;
    assert(t < 64 && (b >> t) & 1u64 == 1u64 ==> has_bit(b, t)) by (bit_vector);
    assert forall|j: u64| j < b.trailing_zeros() implies !#[trigger] has_bit(b, j) by {
        assert((b >> j) & 1u64 == 0u64);
        assert(j < 64 && (b >> j) & 1u64 == 0u64 ==> !has_bit(b, j)) by (bit_vector);
    }
}

fn rank_and_file_to_bitboard_index(rank: usize, file: usize) -> (index: usize)
    requires
        rank < 8,
        file < 8,
    ensures
        index == rank * 8 + file,
        index < 64,
{
    rank * 8 + file
}

fn bitboard_from_rank_and_file(rank: usize, file: usize) -> (b: Bitboard)
    requires
        rank < 8,
        file < 8,
    ensures
        b == 1u64 << ((rank * 8 + file) as u64),
{
    let index = rank_and_file_to_bitboard_index(rank, file) as u64;
    1u64 << index
}

fn bitboard_from_position(position: &Position) -> (b: Bitboard)
    requires
        valid_position(*position),
    ensures
        b == 1u64 << bit_index(*position),
{
    bitboard_from_rank_and_file(position.rank, position.file)
}

fn check_bitboard(bitboard: Bitboard, position: &Position) -> (set: bool)
    requires
        valid_position(*position),
    ensures
        set == has_bit(bitboard, bit_index(*position)),
{
    bitboard & bitboard_from_position(position) != 0
}

/// Bit masks and `&`: a mask of one bit tests that bit, an empty mask tests
/// nothing, and a union of masks tests each.
pub proof fn lemma_mask_and(x: u64, a: u64, b: u64)
    ensures
        (x & (a | b) != 0) == ((x & a != 0) || (x & b != 0)),
        x & 0u64 == 0,
{
    assert((x & (a | b) != 0) == ((x & a != 0) || (x & b != 0))) by (bit_vector);
    assert(x & 0u64 == 0) by (bit_vector);
}

/// The bit of a position one step away, or no bit off the board.
pub open spec fn step_mask(p: Position, dr: int, df: int) -> u64 {
    match step(p, dr, df) {
        Some(q) => 1u64 << bit_index(q),
        None => 0u64,
    }
}

/// Bitboard `b` has the bit of the position one step away.
pub open spec fn step_hit(b: u64, p: Position, dr: int, df: int) -> bool {
    match step(p, dr, df) {
        Some(q) => has_bit(b, bit_index(q)),
        None => false,
    }
}

proof fn lemma_step_mask(x: u64, p: Position, dr: int, df: int)
    ensures
        (x & step_mask(p, dr, df) != 0) == step_hit(x, p, dr, df),
{
    lemma_mask_and(x, 0, 0);
}

fn step_bit(p: &Position, dr: i8, df: i8) -> (b: Bitboard)
    requires
        valid_position(*p),
        -2 <= dr <= 2,
        -2 <= df <= 2,
    ensures
        b == step_mask(*p, dr as int, df as int),
{
    match try_move(p, &Direction { row_inc: dr, col_inc: df }) {
        Some(q) => bitboard_from_position(&q),
        None => 0,
    }
}

/// A piece of bitboard `b` stands a knight's move away from `p`.
pub open spec fn knight_hits(b: u64, p: Position) -> bool {
    ||| step_hit(b, p, -1, -2)
    ||| step_hit(b, p, -1, 2)
    ||| step_hit(b, p, -2, -1)
    ||| step_hit(b, p, -2, 1)
    ||| step_hit(b, p, 2, -1)
    ||| step_hit(b, p, 2, 1)
    ||| step_hit(b, p, 1, -2)
    ||| step_hit(b, p, 1, 2)
}

/// A piece of bitboard `b` stands a king's move away from `p`.
pub open spec fn king_hits(b: u64, p: Position) -> bool {
    ||| step_hit(b, p, -1, -1)
    ||| step_hit(b, p, -1, 0)
    ||| step_hit(b, p, -1, 1)
    ||| step_hit(b, p, 0, -1)
    ||| step_hit(b, p, 0, 1)
    ||| step_hit(b, p, 1, -1)
    ||| step_hit(b, p, 1, 0)
    ||| step_hit(b, p, 1, 1)
}

/// The rank step from a square to the pawns of `attacker` that attack it.
pub open spec fn pawn_attack_rank(attacker: Player) -> int {
    match attacker {
        Player::White => -1,
        Player::Black => 1,
    }
}

/// A pawn of bitboard `b`, of player `attacker`, attacks `p`.
pub open spec fn pawn_hits(b: u64, p: Position, attacker: Player) -> bool {
    step_hit(b, p, pawn_attack_rank(attacker), -1) || step_hit(b, p, pawn_attack_rank(attacker), 1)
}

/// The sign of a difference: -1, 0 or 1.
pub open spec fn sign(x: int) -> int {
    if x > 0 {
        1
    } else if x < 0 {
        -1
    } else {
        0
    }
}

pub open spec fn abs_int(x: int) -> int {
    if x < 0 { -x } else { x }
}

/// Two different positions on a rank, a file or a diagonal.
pub open spec fn aligned(s: Position, t: Position) -> bool {
    let dr = s.rank - t.rank;
    let df = s.file - t.file;
    s != t && (dr == 0 || df == 0 || abs_int(dr) == abs_int(df))
}

/// The number of steps from `t` to `s` along their line.
pub open spec fn distance(s: Position, t: Position) -> int {
    let dr = abs_int(s.rank - t.rank);
    let df = abs_int(s.file - t.file);
    if dr > df { dr } else { df }
}

/// Position `q` lies strictly between `s` and `t` on their line.
pub open spec fn between(s: Position, t: Position, q: Position) -> bool {
    &&& aligned(s, t)
    &&& exists|j: int| 1 <= j < distance(s, t) && #[trigger] walk(t, sign(s.rank - t.rank), sign(s.file - t.file), j) == Some(q)
}

/// Being strictly between two positions does not depend on their order, and
/// nothing is between positions that share no rank, file or diagonal.
pub proof fn lemma_between_symmetric(s: Position, t: Position, q: Position)
    requires
        valid_position(s),
        valid_position(t),
    ensures
        between(s, t, q) == between(t, s, q),
        !aligned(s, t) ==> !between(s, t, q),
{
    if aligned(s, t) {
        lemma_aligned_walk(s, t);
        lemma_aligned_walk(t, s);
        let n = distance(s, t);
        assert(distance(t, s) == n);
        let dr = sign(s.rank - t.rank);
        let df = sign(s.file - t.file);
        assert(sign(t.rank - s.rank) == -dr);
        assert(sign(t.file - s.file) == -df);
        if between(s, t, q) {
            let j = choose|j: int| 1 <= j < n && #[trigger] walk(t, dr, df, j) == Some(q);
            assert(walk(s, -dr, -df, n - j) == Some(q));
        }
        if between(t, s, q) {
            let j = choose|j: int| 1 <= j < n && #[trigger] walk(s, -dr, -df, j) == Some(q);
            assert(walk(t, dr, df, n - j) == Some(q));
        }
    }
}

/// Aligned positions: one is a whole number of steps from the other, and
/// every step between lies on the board.
pub proof fn lemma_aligned_walk(s: Position, t: Position)
    requires
        valid_position(s),
        valid_position(t),
        aligned(s, t),
    ensures
        1 <= distance(s, t) <= 7,
        crate::rules::unit_direction(sign(s.rank - t.rank), sign(s.file - t.file)),
        walk(t, sign(s.rank - t.rank), sign(s.file - t.file), distance(s, t)) == Some(s),
        forall|j: int| 0 <= j <= distance(s, t) ==> (#[trigger] walk(t, sign(s.rank - t.rank), sign(s.file - t.file), j)) is Some,
{
}

/// Walking `n` steps in a unit direction reaches a position aligned with
/// the start, in that direction and at that distance.
pub proof fn lemma_walk_aligned(t: Position, dr: int, df: int, n: int)
    requires
        valid_position(t),
        crate::rules::unit_direction(dr, df),
        n >= 1,
        walk(t, dr, df, n) is Some,
    ensures
        aligned(walk(t, dr, df, n).unwrap(), t),
        sign(walk(t, dr, df, n).unwrap().rank - t.rank) == dr,
        sign(walk(t, dr, df, n).unwrap().file - t.file) == df,
        distance(walk(t, dr, df, n).unwrap(), t) == n,
        dr == 0 || df == 0 ==> walk(t, dr, df, n).unwrap().rank == t.rank || walk(t, dr, df, n).unwrap().file == t.file,
        dr != 0 && df != 0 ==> abs_int(walk(t, dr, df, n).unwrap().rank - t.rank) == abs_int(walk(t, dr, df, n).unwrap().file - t.file),
{
}

/// The bits of the positions strictly between two positions on a rank, a
/// file or a diagonal (no bits for other pairs).
pub fn in_between_bits(source: &Position, target: &Position) -> (b: Bitboard)
    requires
        valid_position(*source),
        valid_position(*target),
    ensures
        forall|i: u64| i < 64 ==> (#[trigger] has_bit(b, i) <==> between(*source, *target, index_position(i as int))),
{
    let dr: i8 = if source.rank > target.rank { 1 } else if source.rank < target.rank { -1 } else { 0 };
    let df: i8 = if source.file > target.file { 1 } else if source.file < target.file { -1 } else { 0 };
    let rank_diff = crate::game::abs_diff(source.rank, target.rank);
    let file_diff = crate::game::abs_diff(source.file, target.file);
    let is_aligned = (rank_diff != 0 || file_diff != 0) && (rank_diff == 0 || file_diff == 0 || rank_diff == file_diff);
    if !is_aligned {
        proof {
            assert forall|i: u64| i < 64 implies (#[trigger] has_bit(0u64, i) <==> between(*source, *target, index_position(i as int))) by {
                lemma_no_bit_of_zero(i);
            }
        }
        return 0;
    }
    let n = if rank_diff > file_diff { rank_diff } else { file_diff };
    proof {
        lemma_aligned_walk(*source, *target);
    }
    let ghost d_r = sign(source.rank - target.rank);
    let ghost d_f = sign(source.file - target.file);
    assert(dr == d_r && df == d_f);
    assert(n == distance(*source, *target));
    let mut mask: Bitboard = 0;
    let mut current = *target;
    let mut j: usize = 1;
    proof {
        assert forall|i: u64| i < 64 implies (#[trigger] has_bit(mask, i) <==> exists|k: int| 1 <= k < j && #[trigger] walk(*target, d_r, d_f, k) == Some(index_position(i as int))) by {
            lemma_no_bit_of_zero(i);
        }
        assert(walk(*target, d_r, d_f, 0) == Some(*target));
    }
    while j < n
        invariant
            1 <= j <= n,
            n == distance(*source, *target),
            n <= 7,
            valid_position(*target),
            crate::rules::unit_direction(d_r, d_f),
            dr == d_r && df == d_f,
            forall|k: int| 0 <= k <= distance(*source, *target) ==> (#[trigger] walk(*target, d_r, d_f, k)) is Some,
            walk(*target, d_r, d_f, j - 1) == Some(current),
            forall|i: u64| i < 64 ==> (#[trigger] has_bit(mask, i) <==> exists|k: int| 1 <= k < j && #[trigger] walk(*target, d_r, d_f, k) == Some(index_position(i as int))),
        decreases n - j,
    {
        assert(walk(*target, d_r, d_f, j as int) is Some);
        assert(walk(*target, d_r, d_f, j as int) == step(current, d_r, d_f));
        let next = try_move(&current, &Direction { row_inc: dr, col_inc: df }).unwrap();
        let ghost old_mask = mask;
        let bit = bitboard_from_position(&next);
        mask = mask | bit;
        proof {
            lemma_index_position(next);
            assert forall|i: u64| i < 64 implies (#[trigger] has_bit(mask, i) <==> exists|k: int| 1 <= k < j + 1 && #[trigger] walk(*target, d_r, d_f, k) == Some(index_position(i as int))) by {
                lemma_bit_set(old_mask, bit_index(next), i);
                lemma_position_index(i as int);
                if i == bit_index(next) {
                    assert(walk(*target, d_r, d_f, j as int) == Some(index_position(i as int)));
                } else {
                    if exists|k: int| 1 <= k < j + 1 && #[trigger] walk(*target, d_r, d_f, k) == Some(index_position(i as int)) {
                        let k = choose|k: int| 1 <= k < j + 1 && #[trigger] walk(*target, d_r, d_f, k) == Some(index_position(i as int));
                        if k == j {
                            assert(index_position(i as int) == next);
                            assert(square_index(next) == i);
                        }
                    }
                }
            }
        }
        current = next;
        j += 1;
    }
    mask
}

/// The bitboards of one player, one per piece type.
#[derive(Copy, Clone, Debug, PartialEq)]
pub struct PlayerBitboards {
    player: Player,
    pawns: Bitboard,
    knights: Bitboard,
    bishops: Bitboard,
    rooks: Bitboard,
    queens: Bitboard,
    kings: Bitboard,
}

/// The positions of the set bits of `b` from bit `i` on, in increasing
/// order of their bits.
pub open spec fn set_positions_from(b: u64, i: int) -> Seq<Position>
    decreases 64 - i,
{
    if i < 0 || i >= 64 {
        Seq::empty()
    } else {
        (if has_bit(b, i as u64) { seq![index_position(i)] } else { Seq::empty() }) + set_positions_from(b, i + 1)
    }
}

/// The positions of the set bits of `b`, in increasing order of their bits.
pub open spec fn set_positions(b: u64) -> Seq<Position> {
    set_positions_from(b, 0)
}

/// Bitboards that agree from bit `i` on have the same positions from there.
proof fn lemma_set_positions_agree(a: u64, b: u64, i: int)
    requires
        0 <= i <= 64,
        forall|k: u64| i <= k < 64 ==> #[trigger] has_bit(a, k) == has_bit(b, k),
    ensures
        set_positions_from(a, i) == set_positions_from(b, i),
    decreases 64 - i,
{
    if i < 64 {
        assert(has_bit(a, i as u64) == has_bit(b, i as u64));
        lemma_set_positions_agree(a, b, i + 1);
    }
}

/// Without set bits in `[i, j)`, the positions from `i` are those from `j`.
proof fn lemma_set_positions_skip(b: u64, i: int, j: int)
    requires
        0 <= i <= j <= 64,
        forall|k: u64| i <= k < j ==> !#[trigger] has_bit(b, k),
    ensures
        set_positions_from(b, i) == set_positions_from(b, j),
    decreases j - i,
{
    if i < j {
        assert(!has_bit(b, i as u64));
        lemma_set_positions_skip(b, i + 1, j);
        assert(set_positions_from(b, i) =~= set_positions_from(b, i + 1));
    }
}

/// The positions of the set bits of a bitboard, lowest bit first.
pub struct BitboardIter {
    bitboard: Bitboard,
}

impl BitboardIter {
    /// The bits not yet visited.
    pub closed spec fn bits(&self) -> u64 {
        self.bitboard
    }

    /// The positions still to come: those of the bits not yet visited, in
    /// increasing order.
    pub closed spec fn remaining(&self) -> Seq<Position> {
        set_positions(self.bitboard)
    }

    /// The position of the lowest set bit, which is then cleared; `None` once
    /// no bit is left. The iteration thus yields the positions of the set
    /// bits in increasing order, each once.
    pub fn next(&mut self) -> (position: Option<Position>)
        ensures
            match position {
                Some(p) => old(self).remaining().len() > 0 && p == old(self).remaining()[0]
                    && final(self).remaining() == old(self).remaining().skip(1),
                None => old(self).remaining().len() == 0 && final(self).remaining().len() == 0,
            },
            old(self).bits() == 0 ==> position is None && final(self).bits() == 0,
            old(self).bits() != 0 ==> {
                let t = old(self).bits().trailing_zeros() as u64;
                &&& t < 64
                &&& has_bit(old(self).bits(), t)
                &&& forall|j: u64| j < t ==> !#[trigger] has_bit(old(self).bits(), j)
                &&& position == Some(index_position(t as int))
                &&& final(self).bits() == old(self).bits() & !(1u64 << t)
            },
    {
        if self.bitboard == 0 {
            proof {
                lemma_zero_iff_no_bits(self.bitboard);
                lemma_set_positions_skip(self.bitboard, 0, 64);
                assert(set_positions_from(self.bitboard, 64) =~= Seq::<Position>::empty());
            }
            return None;
        }
        let ghost b = self.bitboard;
        proof {
            lemma_lowest_bit(self.bitboard);
        }
        let index = self.bitboard.trailing_zeros() as usize;
        self.bitboard &= !(1u64 << (index as u64));
        proof {
            let t = index as int;
            let b2 = self.bitboard;
            lemma_set_positions_skip(b, 0, t);
            assert(set_positions_from(b, t) == seq![index_position(t)] + set_positions_from(b, t + 1));
            assert forall|k: u64| 0 <= k < 64 implies #[trigger] has_bit(b2, k) == (has_bit(b, k) && k != t) by {
                lemma_bit_clear(b, index as u64, k);
            }
            assert forall|k: u64| 0 <= k < t + 1 implies !#[trigger] has_bit(b2, k) by {}
            lemma_set_positions_skip(b2, 0, t + 1);
            assert forall|k: u64| t + 1 <= k < 64 implies #[trigger] has_bit(b2, k) == has_bit(b, k) by {}
            lemma_set_positions_agree(b2, b, t + 1);
            assert((seq![index_position(t)] + set_positions_from(b, t + 1)).skip(1) =~= set_positions_from(b, t + 1));
        }
        let rank = index / 8;
        let file = index % 8;
        Some(Position { rank, file })
    }
}

/// The piece type stored in bit `i` of a player's bitboards, the first of
/// pawn, knight, bishop, rook, queen, king whose bitboard has it set.
pub open spec fn decode_bits(pawns: u64, knights: u64, bishops: u64, rooks: u64, queens: u64, kings: u64, i: u64) -> Option<PieceType> {
    if has_bit(pawns, i) {
        Some(PieceType::Pawn)
    } else if has_bit(knights, i) {
        Some(PieceType::Knight)
    } else if has_bit(bishops, i) {
        Some(PieceType::Bishop)
    } else if has_bit(rooks, i) {
        Some(PieceType::Rook)
    } else if has_bit(queens, i) {
        Some(PieceType::Queen)
    } else if has_bit(kings, i) {
        Some(PieceType::King)
    } else {
        None
    }
}

/// Bitboards of the initial position.
pub open spec fn initial_bits(player: Player, piece: PieceType) -> u64 {
    match player {
        Player::White => match piece {
            PieceType::Pawn => 0x0000_0000_0000_ff00u64,
            PieceType::Knight => 0x0000_0000_0000_0042u64,
            PieceType::Bishop => 0x0000_0000_0000_0024u64,
            PieceType::Rook => 0x0000_0000_0000_0081u64,
            PieceType::Queen => 0x0000_0000_0000_0008u64,
            PieceType::King => 0x0000_0000_0000_0010u64,
        },
        Player::Black => match piece {
            PieceType::Pawn => 0x00ff_0000_0000_0000u64,
            PieceType::Knight => 0x4200_0000_0000_0000u64,
            PieceType::Bishop => 0x2400_0000_0000_0000u64,
            PieceType::Rook => 0x8100_0000_0000_0000u64,
            PieceType::Queen => 0x0800_0000_0000_0000u64,
            PieceType::King => 0x1000_0000_0000_0000u64,
        },
    }
}

impl PlayerBitboards {
    /// The player whose pieces these are.
    pub closed spec fn owner(&self) -> Player {
        self.player
    }

    /// The bitboard of a piece type.
    pub closed spec fn piece_bits(&self, piece: PieceType) -> u64 {
        match piece {
            PieceType::Pawn => self.pawns,
            PieceType::Knight => self.knights,
            PieceType::Bishop => self.bishops,
            PieceType::Rook => self.rooks,
            PieceType::Queen => self.queens,
            PieceType::King => self.kings,
        }
    }

    /// The piece type stored in bit `i`.
    pub closed spec fn decoded(&self, i: u64) -> Option<PieceType> {
        decode_bits(self.pawns, self.knights, self.bishops, self.rooks, self.queens, self.kings, i)
    }

    /// At most one piece type is stored in bit `i`.
    pub closed spec fn single_at(&self, i: u64) -> bool {
        forall|t: PieceType| #[trigger] has_bit(self.piece_bits(t), i) ==> self.decoded(i) == Some(t)
    }

    pub proof fn lemma_decoded(&self, i: u64)
        ensures
            self.decoded(i) is Some ==> has_bit(self.piece_bits(self.decoded(i).unwrap()), i),
            self.decoded(i) is None ==> forall|t: PieceType| !#[trigger] has_bit(self.piece_bits(t), i),
    {
        if self.decoded(i) is None {
            assert forall|t: PieceType| !#[trigger] has_bit(self.piece_bits(t), i) by {
                match t {
                    PieceType::Pawn => {},
                    PieceType::Knight => {},
                    PieceType::Bishop => {},
                    PieceType::Rook => {},
                    PieceType::Queen => {},
                    PieceType::King => {},
                }
            }
        }
    }

    /// Bitboards without pieces.
    pub fn default(player: Player) -> (bitboards: PlayerBitboards)
        ensures
            bitboards.owner() == player,
            forall|t: PieceType| #[trigger] bitboards.piece_bits(t) == 0,
    {
        PlayerBitboards { player, pawns: 0, knights: 0, bishops: 0, rooks: 0, queens: 0, kings: 0 }
    }

    /// The bitboards of a player's pieces in the initial position.
    pub fn new(player: Player) -> (bitboards: PlayerBitboards)
        ensures
            bitboards.owner() == player,
            forall|t: PieceType| #[trigger] bitboards.piece_bits(t) == initial_bits(player, t),
    {
        let white = match player {
            Player::White => true,
            Player::Black => false,
        };
        PlayerBitboards {
            player,
            pawns: if white { 0x0000_0000_0000_ff00u64 } else { 0x00ff_0000_0000_0000u64 },
            knights: if white { 0x0000_0000_0000_0042u64 } else { 0x4200_0000_0000_0000u64 },
            bishops: if white { 0x0000_0000_0000_0024u64 } else { 0x2400_0000_0000_0000u64 },
            rooks: if white { 0x0000_0000_0000_0081u64 } else { 0x8100_0000_0000_0000u64 },
            queens: if white { 0x0000_0000_0000_0008u64 } else { 0x0800_0000_0000_0000u64 },
            kings: if white { 0x0000_0000_0000_0010u64 } else { 0x1000_0000_0000_0000u64 },
        }
    }

    /// A piece of this player stands on the position.
    pub fn has_position(&self, position: &Position) -> (found: bool)
        requires
            valid_position(*position),
        ensures
            found == (self.decoded(bit_index(*position)) is Some),
    {
        proof {
            self.lemma_decoded(bit_index(*position));
            lemma_combined_bit(self, bit_index(*position));
        }
        check_bitboard(self.combined(), position)
    }

    /// The bits of the positions strictly between two positions on a rank,
    /// a file or a diagonal.
    pub fn in_between(source: &Position, target: &Position) -> (b: Bitboard)
        requires
            valid_position(*source),
            valid_position(*target),
        ensures
            forall|i: u64| i < 64 ==> (#[trigger] has_bit(b, i) <==> between(*source, *target, index_position(i as int))),
    {
        in_between_bits(source, target)
    }

    /// A pawn of this player attacks the position.
    pub fn pawn_can_attack(&self, target_position: &Position) -> (attack: bool)
        requires
            valid_position(*target_position),
        ensures
            attack == pawn_hits(self.piece_bits(PieceType::Pawn), *target_position, self.owner()),
    {
        let d: i8 = match self.player {
            Player::White => -1,
            Player::Black => 1,
        };
        let a = step_bit(target_position, d, -1);
        let b = step_bit(target_position, d, 1);
        proof {
            lemma_mask_and(self.pawns, a, b);
            lemma_step_mask(self.pawns, *target_position, d as int, -1);
            lemma_step_mask(self.pawns, *target_position, d as int, 1);
        }
        self.pawns & (a | b) != 0
    }

    /// A knight of this player attacks the position.
    pub fn knight_can_attack(&self, target_position: &Position) -> (attack: bool)
        requires
            valid_position(*target_position),
        ensures
            attack == knight_hits(self.piece_bits(PieceType::Knight), *target_position),
    {
        let p = target_position;
        let m1 = step_bit(p, -1, -2);
        let m2 = step_bit(p, -1, 2);
        let m3 = step_bit(p, -2, -1);
        let m4 = step_bit(p, -2, 1);
        let m5 = step_bit(p, 2, -1);
        let m6 = step_bit(p, 2, 1);
        let m7 = step_bit(p, 1, -2);
        let m8 = step_bit(p, 1, 2);
        let x = self.knights;
        proof {
            lemma_mask_and(x, m1, m2);
            lemma_mask_and(x, m1 | m2, m3);
            lemma_mask_and(x, m1 | m2 | m3, m4);
            lemma_mask_and(x, m1 | m2 | m3 | m4, m5);
            lemma_mask_and(x, m1 | m2 | m3 | m4 | m5, m6);
            lemma_mask_and(x, m1 | m2 | m3 | m4 | m5 | m6, m7);
            lemma_mask_and(x, m1 | m2 | m3 | m4 | m5 | m6 | m7, m8);
            lemma_step_mask(x, *p, -1, -2);
            lemma_step_mask(x, *p, -1, 2);
            lemma_step_mask(x, *p, -2, -1);
            lemma_step_mask(x, *p, -2, 1);
            lemma_step_mask(x, *p, 2, -1);
            lemma_step_mask(x, *p, 2, 1);
            lemma_step_mask(x, *p, 1, -2);
            lemma_step_mask(x, *p, 1, 2);
        }
        x & (m1 | m2 | m3 | m4 | m5 | m6 | m7 | m8) != 0
    }

    /// The king of this player attacks the position.
    pub fn king_can_attack(&self, target_position: &Position) -> (attack: bool)
        requires
            valid_position(*target_position),
        ensures
            attack == king_hits(self.piece_bits(PieceType::King), *target_position),
    {
        let p = target_position;
        let m1 = step_bit(p, -1, -1);
        let m2 = step_bit(p, -1, 0);
        let m3 = step_bit(p, -1, 1);
        let m4 = step_bit(p, 0, -1);
        let m5 = step_bit(p, 0, 1);
        let m6 = step_bit(p, 1, -1);
        let m7 = step_bit(p, 1, 0);
        let m8 = step_bit(p, 1, 1);
        let x = self.kings;
        proof {
            lemma_mask_and(x, m1, m2);
            lemma_mask_and(x, m1 | m2, m3);
            lemma_mask_and(x, m1 | m2 | m3, m4);
            lemma_mask_and(x, m1 | m2 | m3 | m4, m5);
            lemma_mask_and(x, m1 | m2 | m3 | m4 | m5, m6);
            lemma_mask_and(x, m1 | m2 | m3 | m4 | m5 | m6, m7);
            lemma_mask_and(x, m1 | m2 | m3 | m4 | m5 | m6 | m7, m8);
            lemma_step_mask(x, *p, -1, -1);
            lemma_step_mask(x, *p, -1, 0);
            lemma_step_mask(x, *p, -1, 1);
            lemma_step_mask(x, *p, 0, -1);
            lemma_step_mask(x, *p, 0, 1);
            lemma_step_mask(x, *p, 1, -1);
            lemma_step_mask(x, *p, 1, 0);
            lemma_step_mask(x, *p, 1, 1);
        }
        x & (m1 | m2 | m3 | m4 | m5 | m6 | m7 | m8) != 0
    }

    /// A piece of the given type stands on the position.
    pub fn has_piece(&self, position: &Position, piece: &PieceType) -> (found: bool)
        requires
            valid_position(*position),
        ensures
            found == has_bit(self.piece_bits(*piece), bit_index(*position)),
    {
        check_bitboard(self.by_piece(piece), position)
    }

    /// An iterator over the set bits of a bitboard.
    pub fn into_iter(bitboard: Bitboard) -> (iter: BitboardIter)
        ensures
            iter.bits() == bitboard,
            iter.remaining() == set_positions(bitboard),
    {
        BitboardIter { bitboard }
    }

    /// An iterator over the positions of the pieces of a type.
    pub fn piece_iter(&self, piece: &PieceType) -> (iter: BitboardIter)
        ensures
            iter.bits() == self.piece_bits(*piece),
            iter.remaining() == set_positions(self.piece_bits(*piece)),
    {
        BitboardIter { bitboard: self.by_piece(piece) }
    }

    /// The union of the six bitboards: a bit is set exactly where a piece
    /// of the player stands.
    pub fn combined(&self) -> (b: Bitboard)
        ensures
            b == self.spec_combined(),
            b == self.piece_bits(PieceType::Pawn) | self.piece_bits(PieceType::Knight) | self.piece_bits(PieceType::Bishop)
                | self.piece_bits(PieceType::Rook) | self.piece_bits(PieceType::Queen) | self.piece_bits(PieceType::King),
            forall|p: Position| valid_position(p) ==> (#[trigger] has_bit(b, bit_index(p)) <==> self.decoded(bit_index(p)) is Some),
    {
        let b = self.pawns | self.knights | self.bishops | self.rooks | self.queens | self.kings;
        proof {
            assert(b == self.spec_combined());
            assert forall|p: Position| valid_position(p) implies (#[trigger] has_bit(b, bit_index(p))
                <==> self.decoded(bit_index(p)) is Some) by {
                lemma_combined_bit(self, bit_index(p));
            }
        }
        b
    }

    pub closed spec fn spec_combined(&self) -> u64 {
        self.pawns | self.knights | self.bishops | self.rooks | self.queens | self.kings
    }

    /// The bitboard of a piece type.
    pub fn by_piece(&self, piece: &PieceType) -> (b: Bitboard)
        ensures
            b == self.piece_bits(*piece),
    {
        match piece {
            PieceType::Pawn => self.pawns,
            PieceType::Knight => self.knights,
            PieceType::Bishop => self.bishops,
            PieceType::Rook => self.rooks,
            PieceType::Queen => self.queens,
            PieceType::King => self.kings,
        }
    }

    /// The piece type on a position.
    pub fn at(&self, pos: &Position) -> (piece: Option<PieceType>)
        requires
            valid_position(*pos),
        ensures
            piece == self.decoded(bit_index(*pos)),
    {
        let position_mask = bitboard_from_position(pos);
        if self.pawns & position_mask != 0 {
            Some(PieceType::Pawn)
        } else if self.knights & position_mask != 0 {
            Some(PieceType::Knight)
        } else if self.bishops & position_mask != 0 {
            Some(PieceType::Bishop)
        } else if self.rooks & position_mask != 0 {
            Some(PieceType::Rook)
        } else if self.queens & position_mask != 0 {
            Some(PieceType::Queen)
        } else if self.kings & position_mask != 0 {
            Some(PieceType::King)
        } else {
            None
        }
    }

    /// Stores a piece type on a position by setting its bit, or clears the
    /// position from every bitboard.
    pub fn update(&mut self, pos: &Position, value: Option<PieceType>)
        requires
            valid_position(*pos),
        ensures
            final(self).owner() == old(self).owner(),
            forall|t: PieceType| #[trigger] final(self).piece_bits(t) == (match value {
                Some(v) => if t == v { old(self).piece_bits(t) | (1u64 << bit_index(*pos)) } else { old(self).piece_bits(t) },
                None => old(self).piece_bits(t) & !(1u64 << bit_index(*pos)),
            }),
    {
        let mask = bitboard_from_position(pos);
        match value {
            Some(piece) => {
                match piece {
                    PieceType::Pawn => self.pawns = self.pawns | mask,
                    PieceType::Knight => self.knights = self.knights | mask,
                    PieceType::Bishop => self.bishops = self.bishops | mask,
                    PieceType::Rook => self.rooks = self.rooks | mask,
                    PieceType::Queen => self.queens = self.queens | mask,
                    PieceType::King => self.kings = self.kings | mask,
                }
            },
            None => {
                let negate_mask = !mask;
                self.pawns = self.pawns & negate_mask;
                self.knights = self.knights & negate_mask;
                self.bishops = self.bishops & negate_mask;
                self.rooks = self.rooks & negate_mask;
                self.queens = self.queens & negate_mask;
                self.kings = self.kings & negate_mask;
            },
        }
    }

    /// Moves the bits of `source` to `target` in the bitboards that hold
    /// `source`, and clears `target` in the others.
    pub fn move_piece(&mut self, source: &Position, target: &Position)
        requires
            valid_position(*source),
            valid_position(*target),
        ensures
            final(self).owner() == old(self).owner(),
            forall|t: PieceType| #[trigger] final(self).piece_bits(t) == moved_bits(old(self).piece_bits(t), *source, *target),
    {
        let source_mask = bitboard_from_position(source);
        let set_mask = bitboard_from_position(target);
        let clear_mask = !set_mask;
        self.pawns = move_bit(self.pawns, source_mask, set_mask, clear_mask);
        self.knights = move_bit(self.knights, source_mask, set_mask, clear_mask);
        self.bishops = move_bit(self.bishops, source_mask, set_mask, clear_mask);
        self.rooks = move_bit(self.rooks, source_mask, set_mask, clear_mask);
        self.queens = move_bit(self.queens, source_mask, set_mask, clear_mask);
        self.kings = move_bit(self.kings, source_mask, set_mask, clear_mask);
    }
}

/// A bitboard after `PlayerBitboards::move_piece`.
pub open spec fn moved_bits(b: u64, source: Position, target: Position) -> u64 {
    if b & (1u64 << bit_index(source)) != 0 {
        b | (1u64 << bit_index(target))
    } else {
        b & !(1u64 << bit_index(target))
    }
}

fn move_bit(bitboard: Bitboard, source_mask: Bitboard, set_mask: Bitboard, clear_mask: Bitboard) -> (moved: Bitboard)
    ensures
        moved == (if bitboard & source_mask != 0 { bitboard | set_mask } else { bitboard & clear_mask }),
{
    if bitboard & source_mask != 0 {
        bitboard | set_mask
    } else {
        bitboard & clear_mask
    }
}

proof fn lemma_combined_bit(pb: &PlayerBitboards, i: u64)
    requires
        i < 64,
    ensures
        has_bit(pb.spec_combined(), i) == (pb.decoded(i) is Some),
{
    lemma_bit_or(pb.pawns, pb.knights, i);
    lemma_bit_or(pb.pawns | pb.knights, pb.bishops, i);
    lemma_bit_or(pb.pawns | pb.knights | pb.bishops, pb.rooks, i);
    lemma_bit_or(pb.pawns | pb.knights | pb.bishops | pb.rooks, pb.queens, i);
    lemma_bit_or(pb.pawns | pb.knights | pb.bishops | pb.rooks | pb.queens, pb.kings, i);
}

/// The six bitboards, by piece type.
proof fn lemma_fields(pb: PlayerBitboards)
    ensures
        pb.piece_bits(PieceType::Pawn) == pb.pawns,
        pb.piece_bits(PieceType::Knight) == pb.knights,
        pb.piece_bits(PieceType::Bishop) == pb.bishops,
        pb.piece_bits(PieceType::Rook) == pb.rooks,
        pb.piece_bits(PieceType::Queen) == pb.queens,
        pb.piece_bits(PieceType::King) == pb.kings,
{
}

/// Clearing a position from every bitboard of a player.
proof fn lemma_cleared(old: PlayerBitboards, new: PlayerBitboards, p: u64)
    requires
        p < 64,
        new.owner() == old.owner(),
        forall|t: PieceType| #[trigger] new.piece_bits(t) == old.piece_bits(t) & !(1u64 << p),
    ensures
        forall|i: u64| i < 64 ==> #[trigger] new.decoded(i) == (if i == p { None } else { old.decoded(i) }),
        forall|i: u64| i < 64 && old.single_at(i) ==> #[trigger] new.single_at(i),
        new.single_at(p),
{
    lemma_fields(old);
    lemma_fields(new);
    assert forall|i: u64| i < 64 implies #[trigger] new.decoded(i) == (if i == p { None } else { old.decoded(i) }) by {
        lemma_bit_clear(old.pawns, p, i);
        lemma_bit_clear(old.knights, p, i);
        lemma_bit_clear(old.bishops, p, i);
        lemma_bit_clear(old.rooks, p, i);
        lemma_bit_clear(old.queens, p, i);
        lemma_bit_clear(old.kings, p, i);
    }
    assert forall|i: u64| i < 64 && (old.single_at(i) || i == p) implies #[trigger] new.single_at(i) by {
        assert forall|t: PieceType| #[trigger] has_bit(new.piece_bits(t), i) implies new.decoded(i) == Some(t) by {
            lemma_bit_clear(old.piece_bits(t), p, i);
        }
    }
}

/// Setting the bit of a piece type on a position that holds nothing.
proof fn lemma_set_on_empty(old: PlayerBitboards, new: PlayerBitboards, p: u64, v: PieceType)
    requires
        p < 64,
        old.decoded(p) is None,
        new.owner() == old.owner(),
        forall|t: PieceType| #[trigger] new.piece_bits(t) == (if t == v { old.piece_bits(t) | (1u64 << p) } else { old.piece_bits(t) }),
    ensures
        forall|i: u64| i < 64 ==> #[trigger] new.decoded(i) == (if i == p { Some(v) } else { old.decoded(i) }),
        forall|i: u64| i < 64 && old.single_at(i) ==> #[trigger] new.single_at(i),
        new.single_at(p),
{
    old.lemma_decoded(p);
    assert forall|i: u64| i < 64 implies #[trigger] new.decoded(i) == (if i == p { Some(v) } else { old.decoded(i) }) by {
        lemma_bit_set(old.piece_bits(v), p, i);
        assert(new.piece_bits(PieceType::Pawn) == new.pawns);
        assert(new.piece_bits(PieceType::Knight) == new.knights);
        assert(new.piece_bits(PieceType::Bishop) == new.bishops);
        assert(new.piece_bits(PieceType::Rook) == new.rooks);
        assert(new.piece_bits(PieceType::Queen) == new.queens);
        assert(new.piece_bits(PieceType::King) == new.kings);
        assert(old.piece_bits(PieceType::Pawn) == old.pawns);
        assert(old.piece_bits(PieceType::Knight) == old.knights);
        assert(old.piece_bits(PieceType::Bishop) == old.bishops);
        assert(old.piece_bits(PieceType::Rook) == old.rooks);
        assert(old.piece_bits(PieceType::Queen) == old.queens);
        assert(old.piece_bits(PieceType::King) == old.kings);
    }
    assert forall|i: u64| i < 64 && (old.single_at(i) || i == p) implies #[trigger] new.single_at(i) by {
        assert forall|t: PieceType| #[trigger] has_bit(new.piece_bits(t), i) implies new.decoded(i) == Some(t) by {
            lemma_bit_set(old.piece_bits(v), p, i);
            if i == p && t != v {
                assert(!has_bit(old.piece_bits(t), p));
            }
        }
    }
}

/// The bitboards of both players.
#[derive(Debug, PartialEq)]
pub struct Bitboards {
    white: PlayerBitboards,
    black: PlayerBitboards,
}

/// The piece that bit `i` of both players' bitboards stores.
pub open spec fn decode_piece(white: Option<PieceType>, black: Option<PieceType>) -> Option<Piece> {
    match white {
        Some(t) => Some(Piece { piece: t, player: Player::White }),
        None => match black {
            Some(t) => Some(Piece { piece: t, player: Player::Black }),
            None => None,
        },
    }
}

impl Bitboards {
    /// Bit `i` is set in at most one of the twelve bitboards.
    pub closed spec fn bit_ok(&self, i: u64) -> bool {
        &&& self.white.single_at(i)
        &&& self.black.single_at(i)
        &&& !(self.white.decoded(i) is Some && self.black.decoded(i) is Some)
    }

    #[verifier::type_invariant]
    closed spec fn inv(&self) -> bool {
        &&& self.white.owner() == Player::White
        &&& self.black.owner() == Player::Black
        &&& forall|i: u64| i < 64 ==> #[trigger] self.bit_ok(i)
    }

    /// A board without pieces.
    pub fn default() -> (board: Self)
        ensures
            forall|p: Position| valid_position(p) ==> #[trigger] board.spec_at(p) is None,
    {
        let white = PlayerBitboards::default(Player::White);
        let black = PlayerBitboards::default(Player::Black);
        proof {
            lemma_fields(white);
            lemma_fields(black);
            assert forall|i: u64| i < 64 implies white.decoded(i) is None && black.decoded(i) is None by {
                lemma_no_bit_of_zero(i);
            }
            assert forall|i: u64| i < 64 implies #[trigger] (Bitboards { white, black }).bit_ok(i) by {
                lemma_no_bit_of_zero(i);
                assert forall|t: PieceType| !#[trigger] has_bit(white.piece_bits(t), i) && !has_bit(black.piece_bits(t), i) by {}
            }
        }
        Bitboards { white, black }
    }

    /// The board of the initial position.
    pub fn new() -> (board: Self)
        ensures
            forall|p: Position| valid_position(p) ==> #[trigger] board.spec_at(p) == initial_square(p),
    {
        let white = PlayerBitboards::new(Player::White);
        let black = PlayerBitboards::new(Player::Black);
        proof {
            lemma_initial_bits();
            lemma_fields(white);
            lemma_fields(black);
            assert forall|i: u64| i < 64 implies #[trigger] (Bitboards { white, black }).bit_ok(i) by {
                assert forall|t: PieceType| #[trigger] has_bit(white.piece_bits(t), i) implies white.decoded(i) == Some(t) by {}
                assert forall|t: PieceType| #[trigger] has_bit(black.piece_bits(t), i) implies black.decoded(i) == Some(t) by {}
            }
            assert forall|p: Position| valid_position(p) implies #[trigger] (Bitboards { white, black }).spec_at(p) == initial_square(p) by {
                lemma_index_position(p);
            }
        }
        Bitboards { white, black }
    }

    /// The bitboards of a player.
    pub fn by_player(&self, player: &Player) -> (bitboards: &PlayerBitboards)
        ensures
            bitboards.owner() == *player,
            *bitboards == self.player_bits(*player),
            forall|p: Position| valid_position(p) ==> #[trigger] self.spec_at(p) == (match bitboards.decoded(bit_index(p)) {
                Some(t) => Some(Piece { piece: t, player: *player }),
                None => match self.spec_at(p) {
                    Some(q) => if q.player == *player { None } else { Some(q) },
                    None => None,
                },
            }),
    {
        proof {
            use_type_invariant(self);
            assert forall|p: Position| valid_position(p) implies #[trigger] self.spec_at(p) == (match (if *player == Player::White { self.white } else { self.black }).decoded(bit_index(p)) {
                Some(t) => Some(Piece { piece: t, player: *player }),
                None => match self.spec_at(p) {
                    Some(q) => if q.player == *player { None } else { Some(q) },
                    None => None,
                },
            }) by {
                lemma_index_position(p);
                assert(self.bit_ok(bit_index(p)));
            }
        }
        match player {
            Player::White => &self.white,
            Player::Black => &self.black,
        }
    }

    /// The player whose piece stands on the position.
    pub fn player_at_position(&self, position: &Position) -> (player: Option<Player>)
        requires
            valid_position(*position),
        ensures
            player == (match self.spec_at(*position) {
                Some(piece) => Some(piece.player),
                None => None,
            }),
    {
        if self.white.has_position(position) {
            Some(Player::White)
        } else if self.black.has_position(position) {
            Some(Player::Black)
        } else {
            None
        }
    }
}

/// The set bits of the bitboards of the initial position.
proof fn lemma_initial_bits()
    ensures
        forall|i: u64| i < 64 ==> (#[trigger] has_bit(0x0000_0000_0000_ff00u64, i) <==> 8 <= i < 16),
        forall|i: u64| i < 64 ==> (#[trigger] has_bit(0x0000_0000_0000_0042u64, i) <==> (i == 1 || i == 6)),
        forall|i: u64| i < 64 ==> (#[trigger] has_bit(0x0000_0000_0000_0024u64, i) <==> (i == 2 || i == 5)),
        forall|i: u64| i < 64 ==> (#[trigger] has_bit(0x0000_0000_0000_0081u64, i) <==> (i == 0 || i == 7)),
        forall|i: u64| i < 64 ==> (#[trigger] has_bit(0x0000_0000_0000_0008u64, i) <==> i == 3),
        forall|i: u64| i < 64 ==> (#[trigger] has_bit(0x0000_0000_0000_0010u64, i) <==> i == 4),
        forall|i: u64| i < 64 ==> (#[trigger] has_bit(0x00ff_0000_0000_0000u64, i) <==> 48 <= i < 56),
        forall|i: u64| i < 64 ==> (#[trigger] has_bit(0x4200_0000_0000_0000u64, i) <==> (i == 57 || i == 62)),
        forall|i: u64| i < 64 ==> (#[trigger] has_bit(0x2400_0000_0000_0000u64, i) <==> (i == 58 || i == 61)),
        forall|i: u64| i < 64 ==> (#[trigger] has_bit(0x8100_0000_0000_0000u64, i) <==> (i == 56 || i == 63)),
        forall|i: u64| i < 64 ==> (#[trigger] has_bit(0x0800_0000_0000_0000u64, i) <==> i == 59),
        forall|i: u64| i < 64 ==> (#[trigger] has_bit(0x1000_0000_0000_0000u64, i) <==> i == 60),
{
    assert forall|i: u64| i < 64 implies (#[trigger] has_bit(0x0000_0000_0000_ff00u64, i) <==> 8 <= i < 16) by {
        assert(i < 64 ==> ((0x0000_0000_0000_ff00u64 & (1u64 << i) != 0) <==> (8 <= i && i < 16))) by (bit_vector);
    }
    assert forall|i: u64| i < 64 implies (#[trigger] has_bit(0x0000_0000_0000_0042u64, i) <==> (i == 1 || i == 6)) by {
        assert(i < 64 ==> ((0x0000_0000_0000_0042u64 & (1u64 << i) != 0) <==> (i == 1 || i == 6))) by (bit_vector);
    }
    assert forall|i: u64| i < 64 implies (#[trigger] has_bit(0x0000_0000_0000_0024u64, i) <==> (i == 2 || i == 5)) by {
        assert(i < 64 ==> ((0x0000_0000_0000_0024u64 & (1u64 << i) != 0) <==> (i == 2 || i == 5))) by (bit_vector);
    }
    assert forall|i: u64| i < 64 implies (#[trigger] has_bit(0x0000_0000_0000_0081u64, i) <==> (i == 0 || i == 7)) by {
        assert(i < 64 ==> ((0x0000_0000_0000_0081u64 & (1u64 << i) != 0) <==> (i == 0 || i == 7))) by (bit_vector);
    }
    assert forall|i: u64| i < 64 implies (#[trigger] has_bit(0x0000_0000_0000_0008u64, i) <==> i == 3) by {
        assert(i < 64 ==> ((0x0000_0000_0000_0008u64 & (1u64 << i) != 0) <==> i == 3)) by (bit_vector);
    }
    assert forall|i: u64| i < 64 implies (#[trigger] has_bit(0x0000_0000_0000_0010u64, i) <==> i == 4) by {
        assert(i < 64 ==> ((0x0000_0000_0000_0010u64 & (1u64 << i) != 0) <==> i == 4)) by (bit_vector);
    }
    assert forall|i: u64| i < 64 implies (#[trigger] has_bit(0x00ff_0000_0000_0000u64, i) <==> 48 <= i < 56) by {
        assert(i < 64 ==> ((0x00ff_0000_0000_0000u64 & (1u64 << i) != 0) <==> (48 <= i && i < 56))) by (bit_vector);
    }
    assert forall|i: u64| i < 64 implies (#[trigger] has_bit(0x4200_0000_0000_0000u64, i) <==> (i == 57 || i == 62)) by {
        assert(i < 64 ==> ((0x4200_0000_0000_0000u64 & (1u64 << i) != 0) <==> (i == 57 || i == 62))) by (bit_vector);
    }
    assert forall|i: u64| i < 64 implies (#[trigger] has_bit(0x2400_0000_0000_0000u64, i) <==> (i == 58 || i == 61)) by {
        assert(i < 64 ==> ((0x2400_0000_0000_0000u64 & (1u64 << i) != 0) <==> (i == 58 || i == 61))) by (bit_vector);
    }
    assert forall|i: u64| i < 64 implies (#[trigger] has_bit(0x8100_0000_0000_0000u64, i) <==> (i == 56 || i == 63)) by {
        assert(i < 64 ==> ((0x8100_0000_0000_0000u64 & (1u64 << i) != 0) <==> (i == 56 || i == 63))) by (bit_vector);
    }
    assert forall|i: u64| i < 64 implies (#[trigger] has_bit(0x0800_0000_0000_0000u64, i) <==> i == 59) by {
        assert(i < 64 ==> ((0x0800_0000_0000_0000u64 & (1u64 << i) != 0) <==> i == 59)) by (bit_vector);
    }
    assert forall|i: u64| i < 64 implies (#[trigger] has_bit(0x1000_0000_0000_0000u64, i) <==> i == 60) by {
        assert(i < 64 ==> ((0x1000_0000_0000_0000u64 & (1u64 << i) != 0) <==> i == 60)) by (bit_vector);
    }
}

impl ModifiableBoard<Position, Option<Piece>> for Bitboards {
    open spec fn valid_key(key: Position) -> bool {
        valid_position(key)
    }

    closed spec fn spec_at(&self, key: Position) -> Option<Piece> {
        decode_piece(self.white.decoded(bit_index(key)), self.black.decoded(bit_index(key)))
    }

    open spec fn vacant() -> Option<Piece> {
        None
    }

    open spec fn stored(old: Option<Piece>, value: Option<Piece>) -> Option<Piece> {
        value
    }

    fn at(&self, pos: &Position) -> (value: Option<Piece>) {
        if let Some(piece) = self.white.at(pos) {
            Some(Piece { player: Player::White, piece })
        } else if let Some(piece) = self.black.at(pos) {
            Some(Piece { player: Player::Black, piece })
        } else {
            None
        }
    }

    fn update(&mut self, pos: &Position, value: Option<Piece>) {
        proof {
            use_type_invariant(&*self);
            lemma_index_position(*pos);
        }
        let ghost p = bit_index(*pos);
        let ghost old_white = self.white;
        let ghost old_black = self.black;
        let player_at_position = self.player_at_position(pos);
        let mut white = self.white;
        let mut black = self.black;
        // Whatever stood on the square leaves it.
        match player_at_position {
            Some(Player::White) => white.update(pos, None),
            Some(Player::Black) => black.update(pos, None),
            None => {},
        }
        proof {
            assert(self.bit_ok(p));
            match player_at_position {
                Some(Player::White) => lemma_cleared(old_white, white, p),
                Some(Player::Black) => lemma_cleared(old_black, black, p),
                None => {},
            }
        }
        let ghost mid_white = white;
        let ghost mid_black = black;
        match value {
            Some(piece) => match piece.player {
                Player::White => white.update(pos, Some(piece.piece)),
                Player::Black => black.update(pos, Some(piece.piece)),
            },
            None => {},
        }
        proof {
            match value {
                Some(piece) => match piece.player {
                    Player::White => lemma_set_on_empty(mid_white, white, p, piece.piece),
                    Player::Black => lemma_set_on_empty(mid_black, black, p, piece.piece),
                },
                None => {},
            }
            assert forall|i: u64| i < 64 implies #[trigger] (Bitboards { white, black }).bit_ok(i) by {
                assert(self.bit_ok(i));
            }
            assert forall|k: Position| valid_position(k) implies #[trigger] (Bitboards { white, black }).spec_at(k) == (if k == *pos {
                value
            } else {
                self.spec_at(k)
            }) by {
                lemma_index_position(k);
            }
        }
        *self = Bitboards { white, black };
    }

    fn move_piece(&mut self, source: &Position, target: &Position) {
        let source_square = self.at(source);
        self.update(target, source_square);
        self.update(source, None);
    }
}

impl Board for Bitboards {
    proof fn lemma_valid_key(p: Position) {
    }

    proof fn lemma_vacant() {
    }

    proof fn lemma_stored(old: Option<Piece>, value: Option<Piece>) {
    }

    fn new_board() -> (board: Self) {
        Bitboards::new()
    }

    fn empty_board() -> (board: Self) {
        Bitboards::default()
    }

    fn duplicate(&self) -> (copy: Self) {
        proof {
            use_type_invariant(self);
        }
        Bitboards { white: self.white, black: self.black }
    }
}

impl Clone for Bitboards {
    fn clone(&self) -> (copy: Self)
        ensures
            copy == *self,
    {
        proof {
            use_type_invariant(self);
        }
        Bitboards { white: self.white, black: self.black }
    }
}

/// An attacker on `a` reaches `position` along a line of an allowed kind
/// (a rank or a file when `straight`, a diagonal when `diagonal`) past
/// squares that `all` leaves empty.
pub open spec fn slider_reaches(all: u64, position: Position, a: Position, diagonal: bool, straight: bool) -> bool {
    &&& (straight && (a.rank == position.rank || a.file == position.file))
        || (diagonal && abs_int(a.rank - position.rank) == abs_int(a.file - position.file))
    &&& forall|i: u64| i < 64 && #[trigger] between(a, position, index_position(i as int)) ==> !has_bit(all, i)
}

proof fn lemma_bit_cleared_smaller(x: u64, t: u64)
    requires
        t < 64,
        has_bit(x, t),
    ensures
        x & !(1u64 << t) < x,
{
    assert(t < 64 && has_bit(x, t) ==> x & !(1u64 << t) < x) by (bit_vector);
}

/// Some attacker of `attackers` reaches `position` along an allowed line
/// past squares that `all` leaves empty.
fn slider_attack(all: Bitboard, attackers: Bitboard, position: &Position, diagonal: bool, straight: bool) -> (found: bool)
    requires
        valid_position(*position),
    ensures
        found == exists|i: u64| i < 64 && #[trigger] has_bit(attackers, i) && slider_reaches(all, *position, index_position(i as int), diagonal, straight),
{
    let mut iter = PlayerBitboards::into_iter(attackers);
    loop
        invariant
            valid_position(*position),
            forall|i: u64| i < 64 && #[trigger] has_bit(iter.bits(), i) ==> has_bit(attackers, i),
            forall|i: u64| i < 64 && has_bit(attackers, i) && !#[trigger] has_bit(iter.bits(), i)
                ==> !slider_reaches(all, *position, index_position(i as int), diagonal, straight),
        decreases iter.bits(),
    {
        let ghost before = iter.bits();
        match iter.next() {
            None => {
                proof {
                    lemma_zero_iff_no_bits(before);
                    assert forall|i: u64| i < 64 && #[trigger] has_bit(attackers, i)
                        implies !slider_reaches(all, *position, index_position(i as int), diagonal, straight) by {
                        assert(!has_bit(before, i));
                    }
                }
                return false;
            },
            Some(attacker_position) => {
                let ghost t = before.trailing_zeros() as u64;
                proof {
                    lemma_position_index(t as int);
                    lemma_bit_cleared_smaller(before, t);
                    assert forall|i: u64| i < 64 implies (#[trigger] has_bit(iter.bits(), i) == (has_bit(before, i) && i != t)) by {
                        lemma_bit_clear(before, t, i);
                    }
                }
                let in_line = (straight && (attacker_position.rank == position.rank || attacker_position.file == position.file))
                    || (diagonal && crate::game::abs_diff(attacker_position.rank, position.rank) == crate::game::abs_diff(attacker_position.file, position.file));
                if in_line {
                    let in_between_mask = PlayerBitboards::in_between(&attacker_position, position);
                    proof {
                        lemma_zero_iff_no_bits(in_between_mask & all);
                        assert forall|i: u64| i < 64 implies (#[trigger] has_bit(in_between_mask & all, i) == (has_bit(in_between_mask, i) && has_bit(all, i))) by {
                            lemma_bit_and(in_between_mask, all, i);
                        }
                    }
                    if in_between_mask & all == 0 {
                        proof {
                            assert(index_position(t as int) == attacker_position);
                            assert forall|k: u64| k < 64 && #[trigger] between(attacker_position, *position, index_position(k as int))
                                implies !has_bit(all, k) by {
                                assert(has_bit(in_between_mask, k));
                                assert(!has_bit(in_between_mask & all, k));
                            }
                            assert(slider_reaches(all, *position, index_position(t as int), diagonal, straight));
                        }
                        return true;
                    }
                    proof {
                        let i = choose|i: u64| i < 64 && #[trigger] has_bit(in_between_mask & all, i);
                        assert(has_bit(in_between_mask, i) && has_bit(all, i));
                        assert(index_position(t as int) == attacker_position);
                        assert(between(attacker_position, *position, index_position(i as int)));
                        assert(!slider_reaches(all, *position, index_position(t as int), diagonal, straight));
                    }
                } else {
                    proof {
                        assert(index_position(t as int) == attacker_position);
                    }
                }
            },
        }
    }
}

impl Bitboards {
    /// A bit of a player's bitboard of a piece type is set exactly where such
    /// a piece of that player stands; a bit of the union of all bitboards is
    /// set exactly where some piece stands.
    proof fn lemma_bits_model(&self)
        requires
            self.inv(),
        ensures
            forall|q: Position, t: PieceType|
                valid_position(q) ==> (#[trigger] has_bit(self.player_bits(Player::White).piece_bits(t), bit_index(q))
                    <==> self.spec_at(q) == Some(Piece { piece: t, player: Player::White })),
            forall|q: Position, t: PieceType|
                valid_position(q) ==> (#[trigger] has_bit(self.player_bits(Player::Black).piece_bits(t), bit_index(q))
                    <==> self.spec_at(q) == Some(Piece { piece: t, player: Player::Black })),
            forall|i: u64|
                i < 64 ==> (#[trigger] has_bit(self.white.spec_combined() | self.black.spec_combined(), i) <==> self.spec_at(index_position(i as int)) is Some),
    {
        assert forall|q: Position, t: PieceType| valid_position(q) implies (#[trigger] has_bit(self.player_bits(Player::White).piece_bits(t), bit_index(q))
            <==> self.spec_at(q) == Some(Piece { piece: t, player: Player::White })) by {
            lemma_index_position(q);
            assert(self.bit_ok(bit_index(q)));
            self.white.lemma_decoded(bit_index(q));
        }
        assert forall|q: Position, t: PieceType| valid_position(q) implies (#[trigger] has_bit(self.player_bits(Player::Black).piece_bits(t), bit_index(q))
            <==> self.spec_at(q) == Some(Piece { piece: t, player: Player::Black })) by {
            lemma_index_position(q);
            assert(self.bit_ok(bit_index(q)));
            self.black.lemma_decoded(bit_index(q));
        }
        assert forall|i: u64| i < 64 implies (#[trigger] has_bit(self.white.spec_combined() | self.black.spec_combined(), i)
            <==> self.spec_at(index_position(i as int)) is Some) by {
            lemma_position_index(i as int);
            lemma_bit_or(self.white.spec_combined(), self.black.spec_combined(), i);
            lemma_combined_bit(&self.white, i);
            lemma_combined_bit(&self.black, i);
        }
    }

    /// The bitboards of a player.
    pub closed spec fn player_bits(&self, player: Player) -> PlayerBitboards {
        match player {
            Player::White => self.white,
            Player::Black => self.black,
        }
    }
}

/// The first piece of a player in a direction is of type `t`.
pub open spec fn first_is(squares: Seq<Option<Piece>>, p: Position, dr: int, df: int, piece: Piece) -> bool {
    ray_first(squares, p, dr, df, board_fuel()) == Some(piece)
}

/// The first piece along some allowed line from `p` is `piece`.
pub open spec fn first_on_lines(squares: Seq<Option<Piece>>, p: Position, piece: Piece, diagonal: bool, straight: bool) -> bool {
    ||| diagonal && (first_is(squares, p, -1, -1, piece) || first_is(squares, p, -1, 1, piece) || first_is(squares, p, 1, -1, piece) || first_is(squares, p, 1, 1, piece))
    ||| straight && (first_is(squares, p, 0, -1, piece) || first_is(squares, p, 0, 1, piece) || first_is(squares, p, -1, 0, piece) || first_is(squares, p, 1, 0, piece))
}

impl Bitboards {
    /// The attacker scan of a sliding piece type agrees with the first
    /// pieces along the lines from `p`.
    #[verifier::spinoff_prover]
    #[verifier::rlimit(40)]
    proof fn lemma_slider_equiv(&self, p: Position, enemy: Player, t: PieceType, diagonal: bool, straight: bool)
        requires
            self.inv(),
            valid_position(p),
            !(self.spec_at(p) is Some && self.spec_at(p).unwrap().player == enemy),
        ensures
            (exists|i: u64| i < 64 && #[trigger] has_bit(self.player_bits(enemy).piece_bits(t), i)
                && slider_reaches(self.white.spec_combined() | self.black.spec_combined(), p, index_position(i as int), diagonal, straight))
                <==> first_on_lines(board_model(self), p, Piece { piece: t, player: enemy }, diagonal, straight),
    {
        let all = self.white.spec_combined() | self.black.spec_combined();
        let model = board_model(self);
        let piece = Piece { piece: t, player: enemy };
        self.lemma_bits_model();
        assert forall|q: Position| valid_position(q) implies #[trigger] sq_at(model, q) == self.spec_at(q) by {
            lemma_index_position(q);
        }
        if exists|i: u64| i < 64 && #[trigger] has_bit(self.player_bits(enemy).piece_bits(t), i) && slider_reaches(all, p, index_position(i as int), diagonal, straight) {
            let i = choose|i: u64| i < 64 && #[trigger] has_bit(self.player_bits(enemy).piece_bits(t), i) && slider_reaches(all, p, index_position(i as int), diagonal, straight);
            lemma_position_index(i as int);
            let a = index_position(i as int);
            assert(bit_index(a) == i);
            assert(self.spec_at(a) == Some(piece));
            assert(a != p);
            assert(aligned(a, p));
            lemma_aligned_walk(a, p);
            let dr = sign(a.rank - p.rank);
            let df = sign(a.file - p.file);
            let n = distance(a, p);
            assert forall|j: int| 1 <= j < n implies (#[trigger] walk(p, dr, df, j)) is Some && is_empty(model, walk(p, dr, df, j).unwrap()) by {
                let q = walk(p, dr, df, j).unwrap();
                lemma_index_position(q);
                assert(between(a, p, index_position(bit_index(q) as int)));
                assert(!has_bit(all, bit_index(q)));
            }
            lemma_ray_first_hits(model, p, dr, df, n, board_fuel());
            assert(first_is(model, p, dr, df, piece));
        }
        if first_on_lines(model, p, piece, diagonal, straight) {
            let (dr, df) = if diagonal && first_is(model, p, -1, -1, piece) {
                (-1int, -1int)
            } else if diagonal && first_is(model, p, -1, 1, piece) {
                (-1int, 1int)
            } else if diagonal && first_is(model, p, 1, -1, piece) {
                (1int, -1int)
            } else if diagonal && first_is(model, p, 1, 1, piece) {
                (1int, 1int)
            } else if first_is(model, p, 0, -1, piece) {
                (0int, -1int)
            } else if first_is(model, p, 0, 1, piece) {
                (0int, 1int)
            } else if first_is(model, p, -1, 0, piece) {
                (-1int, 0int)
            } else {
                (1int, 0int)
            };
            assert(first_is(model, p, dr, df, piece));
            assert(diagonal && dr != 0 && df != 0 || straight && (dr == 0 || df == 0));
            let n = lemma_ray_first_found(model, p, dr, df, board_fuel());
            let a = walk(p, dr, df, n).unwrap();
            lemma_walk_aligned(p, dr, df, n);
            lemma_index_position(a);
            let i = bit_index(a);
            assert(has_bit(self.player_bits(enemy).piece_bits(t), i));
            assert(index_position(i as int) == a);
            assert forall|k: u64| k < 64 && #[trigger] between(a, p, index_position(k as int)) implies !has_bit(all, k) by {
                let j = choose|j: int| 1 <= j < distance(a, p) && #[trigger] walk(p, sign(a.rank - p.rank), sign(a.file - p.file), j) == Some(index_position(k as int));
                assert(walk(p, dr, df, j) is Some && is_empty(model, walk(p, dr, df, j).unwrap()));
                lemma_position_index(k as int);
            }
            assert(slider_reaches(all, p, index_position(i as int), diagonal, straight));
        }
    }
}

/// The position of the first king of a player, rank by rank, is the lowest
/// set bit of the player's king bitboard.
proof fn lemma_first_king(squares: Seq<Option<Piece>>, player: Player, k: int)
    requires
        squares.len() == 64,
        0 <= k < 64,
        squares[k] == Some(Piece { piece: PieceType::King, player }),
        forall|j: int| 0 <= j < k ==> squares[j] != Some(Piece { piece: PieceType::King, player }),
    ensures
        king_index_from(squares, player, 0) == k,
{
    lemma_first_king_from(squares, player, k, 0);
}

proof fn lemma_first_king_from(squares: Seq<Option<Piece>>, player: Player, k: int, i: int)
    requires
        squares.len() == 64,
        0 <= i <= k < 64,
        squares[k] == Some(Piece { piece: PieceType::King, player }),
        forall|j: int| 0 <= j < k ==> squares[j] != Some(Piece { piece: PieceType::King, player }),
    ensures
        king_index_from(squares, player, i) == k,
    decreases k - i,
{
    if i < k {
        lemma_first_king_from(squares, player, k, i + 1);
    }
}

/// Some attacker of a piece type of `enemy` reaches `p` along an allowed
/// line, by the bitboards.
pub open spec fn scan_hits(bb: &Bitboards, p: Position, enemy: Player, t: PieceType, diagonal: bool, straight: bool) -> bool {
    exists|i: u64| i < 64 && #[trigger] has_bit(bb.player_bits(enemy).piece_bits(t), i)
        && slider_reaches(bb.all_bits(), p, index_position(i as int), diagonal, straight)
}

impl Bitboards {
    /// The union of all twelve bitboards.
    pub closed spec fn all_bits(&self) -> u64 {
        self.white.spec_combined() | self.black.spec_combined()
    }

    /// A bit of a piece type one step away agrees with the square there.
    proof fn lemma_step_bits(&self, p: Position, enemy: Player)
        requires
            self.inv(),
            valid_position(p),
        ensures
            forall|t: PieceType, dr: int, df: int|
                (#[trigger] step_hit(self.player_bits(enemy).piece_bits(t), p, dr, df))
                    == holds(board_model(self), step(p, dr, df), Piece { piece: t, player: enemy }),
    {
        let model = board_model(self);
        self.lemma_bits_model();
        assert forall|t: PieceType, dr: int, df: int|
            (#[trigger] step_hit(self.player_bits(enemy).piece_bits(t), p, dr, df))
                == holds(model, step(p, dr, df), Piece { piece: t, player: enemy }) by {
            if step(p, dr, df) is Some {
                let q = step(p, dr, df).unwrap();
                lemma_index_position(q);
                assert(sq_at(model, q) == self.spec_at(q));
            }
        }
    }

    /// The attack test on bitboards agrees with the attack rules on the
    /// squares, for a position without a piece of the attacking player.
    #[verifier::rlimit(40)]
    proof fn lemma_attack_equiv(&self, p: Position, player: Player)
        requires
            self.inv(),
            valid_position(p),
        ensures
            !holds_enemy(board_model(self), p, player) ==> (is_attacked(board_model(self), p, player) == (
                pawn_hits(self.player_bits(opponent(player)).piece_bits(PieceType::Pawn), p, opponent(player))
                || knight_hits(self.player_bits(opponent(player)).piece_bits(PieceType::Knight), p)
                || scan_hits(self, p, opponent(player), PieceType::Bishop, true, false)
                || scan_hits(self, p, opponent(player), PieceType::Rook, false, true)
                || scan_hits(self, p, opponent(player), PieceType::Queen, true, true)
                || king_hits(self.player_bits(opponent(player)).piece_bits(PieceType::King), p))),
    {
        let model = board_model(self);
        let enemy = opponent(player);
        if !holds_enemy(model, p, player) {
            lemma_index_position(p);
            assert(sq_at(model, p) == self.spec_at(p));
            assert(!(self.spec_at(p) is Some && self.spec_at(p).unwrap().player == enemy));
            self.lemma_slider_equiv(p, enemy, PieceType::Bishop, true, false);
            self.lemma_slider_equiv(p, enemy, PieceType::Rook, false, true);
            self.lemma_slider_equiv(p, enemy, PieceType::Queen, true, true);
            self.lemma_step_bits(p, enemy);
            let d = spec_pawn_direction(player) as int;
            assert(pawn_attack_rank(enemy) == d);
            let pawn = Piece { piece: PieceType::Pawn, player: enemy };
            let knight = Piece { piece: PieceType::Knight, player: enemy };
            let king = Piece { piece: PieceType::King, player: enemy };
            let bishop = Piece { piece: PieceType::Bishop, player: enemy };
            let rook = Piece { piece: PieceType::Rook, player: enemy };
            let queen = Piece { piece: PieceType::Queen, player: enemy };
            assert(pawn_hits(self.player_bits(enemy).piece_bits(PieceType::Pawn), p, enemy)
                == (holds(model, step(p, d, -1), pawn) || holds(model, step(p, d, 1), pawn)));
            assert(knight_hits(self.player_bits(enemy).piece_bits(PieceType::Knight), p)
                == (holds(model, step(p, -1, -2), knight) || holds(model, step(p, -1, 2), knight)
                || holds(model, step(p, -2, -1), knight) || holds(model, step(p, -2, 1), knight)
                || holds(model, step(p, 2, -1), knight) || holds(model, step(p, 2, 1), knight)
                || holds(model, step(p, 1, -2), knight) || holds(model, step(p, 1, 2), knight)));
            assert(king_hits(self.player_bits(enemy).piece_bits(PieceType::King), p)
                == (holds(model, step(p, -1, -1), king) || holds(model, step(p, -1, 0), king)
                || holds(model, step(p, -1, 1), king) || holds(model, step(p, 0, -1), king)
                || holds(model, step(p, 0, 1), king) || holds(model, step(p, 1, -1), king)
                || holds(model, step(p, 1, 0), king) || holds(model, step(p, 1, 1), king)));
            assert forall|dr: int, df: int| #[trigger] enemy_slider(model, p, dr, df, enemy, PieceType::Bishop, PieceType::Queen)
                == (first_is(model, p, dr, df, bishop) || first_is(model, p, dr, df, queen)) by {}
            assert forall|dr: int, df: int| #[trigger] enemy_slider(model, p, dr, df, enemy, PieceType::Rook, PieceType::Queen)
                == (first_is(model, p, dr, df, rook) || first_is(model, p, dr, df, queen)) by {}
        }
    }
}

impl SafetyChecks for Bitboards {
    fn find_king(&self, player: &Player) -> (position: Position) {
        proof {
            use_type_invariant(self);
            self.lemma_bits_model();
        }
        let player_bitboards = self.by_player(player);
        let mut iter = player_bitboards.piece_iter(&PieceType::King);
        let ghost kings = iter.bits();
        let ghost model = board_model(self);
        proof {
            let w = choose|w: int| 0 <= w < 64 && model[w] == Some(Piece { piece: PieceType::King, player: *player });
            lemma_position_index(w);
            assert(has_bit(kings, w as u64));
            lemma_no_bit_of_zero(w as u64);
            assert(kings != 0);
        }
        let king_position = iter.next();
        proof {
            let t = kings.trailing_zeros() as int;
            assert(0 <= t < 64);
            lemma_position_index(t);
            assert(bit_index(index_position(t)) == t);
            assert(model[t] == Some(Piece { piece: PieceType::King, player: *player }));
            assert forall|j: int| 0 <= j < t implies model[j] != Some(Piece { piece: PieceType::King, player: *player }) by {
                lemma_position_index(j);
                assert(!has_bit(kings, j as u64));
            }
            lemma_first_king(model, *player, t);
        }
        king_position.unwrap()
    }

    fn is_position_unsafe(&self, position: &Position, player: &Player) -> (unsafe_: bool) {
        proof {
            use_type_invariant(self);
            self.lemma_attack_equiv(*position, *player);
        }
        let enemy = player.opponent();
        let enemy_bitboards = self.by_player(&enemy);
        let all_pieces_bitboard = self.white.combined() | self.black.combined();

        // 1. Pawns
        if enemy_bitboards.pawn_can_attack(position) {
            return true;
        }
        // 2. Knights
        if enemy_bitboards.knight_can_attack(position) {
            return true;
        }
        // 3. Bishops
        if slider_attack(all_pieces_bitboard, enemy_bitboards.by_piece(&PieceType::Bishop), position, true, false) {
            return true;
        }
        // 4. Rooks
        if slider_attack(all_pieces_bitboard, enemy_bitboards.by_piece(&PieceType::Rook), position, false, true) {
            return true;
        }
        // 5. Queens
        if slider_attack(all_pieces_bitboard, enemy_bitboards.by_piece(&PieceType::Queen), position, true, true) {
            return true;
        }
        // 6. King
        if enemy_bitboards.king_can_attack(position) {
            return true;
        }
        false
    }

    fn is_piece_unsafe(&self, position: &Position) -> (unsafe_: bool) {
        proof {
            lemma_index_position(*position);
        }
        let player = self.at(position).unwrap().player;
        self.is_position_unsafe(position, &player)
    }
}

/// The position of the lowest set bit of a player's king bitboard.
pub fn find_player_king_fast(player_bitboards: &PlayerBitboards) -> (position: Position)
    requires
        player_bitboards.piece_bits(PieceType::King) != 0,
    ensures
        position == index_position(player_bitboards.piece_bits(PieceType::King).trailing_zeros() as int),
        has_bit(player_bitboards.piece_bits(PieceType::King), bit_index(position)),
        valid_position(position),
{
    let mut iter = player_bitboards.piece_iter(&PieceType::King);
    let king_position = iter.next();
    proof {
        let t = player_bitboards.piece_bits(PieceType::King).trailing_zeros() as int;
        lemma_position_index(t);
    }
    king_position.unwrap()
}

/// The piece on the position is attacked by the other player, by the
/// bitboards.
pub fn piece_is_unsafe_fast(board: &Bitboards, position: &Position) -> (unsafe_: bool)
    requires
        valid_position(*position),
        sq_at(board_model(board), *position) is Some,
    ensures
        unsafe_ == is_attacked(board_model(board), *position, sq_at(board_model(board), *position).unwrap().player),
{
    board.is_piece_unsafe(position)
}

} // verus!
