//! The piece-placement field of FEN: ranks from the eighth down to the
//! first, separated by '/', each listing its squares from the a-file, with a
//! letter per piece (upper case for white) and a digit per run of empty
//! squares.

use super::{
    index_position, lemma_position_index, square_index, valid_position, Board, Piece, PieceType,
    Player, Position,
};
use crate::text::{digit_value, str_chars};
use vstd::prelude::*;

verus! {

/// The piece of a FEN letter.
pub open spec fn fen_piece(c: char) -> Option<Piece> {
    let player = if 'a' <= c && c <= 'z' { Player::Black } else { Player::White };
    let piece = if c == 'p' || c == 'P' {
        Some(PieceType::Pawn)
    } else if c == 'n' || c == 'N' {
        Some(PieceType::Knight)
    } else if c == 'b' || c == 'B' {
        Some(PieceType::Bishop)
    } else if c == 'r' || c == 'R' {
        Some(PieceType::Rook)
    } else if c == 'q' || c == 'Q' {
        Some(PieceType::Queen)
    } else if c == 'k' || c == 'K' {
        Some(PieceType::King)
    } else {
        None
    };
    match piece {
        Some(p) => Some(Piece { piece: p, player }),
        None => None,
    }
}

/// The FEN letter of a piece.
pub open spec fn fen_letter(piece: Piece) -> char {
    let lower = match piece.piece {
        PieceType::Pawn => 'p',
        PieceType::Knight => 'n',
        PieceType::Bishop => 'b',
        PieceType::Rook => 'r',
        PieceType::Queen => 'q',
        PieceType::King => 'k',
    };
    let upper = match piece.piece {
        PieceType::Pawn => 'P',
        PieceType::Knight => 'N',
        PieceType::Bishop => 'B',
        PieceType::Rook => 'R',
        PieceType::Queen => 'Q',
        PieceType::King => 'K',
    };
    match piece.player {
        Player::White => upper,
        Player::Black => lower,
    }
}

/// The FEN letter of a piece reads back as that piece.
pub proof fn lemma_fen_letter(piece: Piece)
    ensures
        fen_piece(fen_letter(piece)) == Some(piece),
{
}

/// The ranks read so far (from the eighth), the squares of the rank being
/// read, and whether every character was acceptable.
pub struct FenScan {
    pub ranks: Seq<Seq<Option<Piece>>>,
    pub current: Seq<Option<Piece>>,
    pub ok: bool,
}

/// Reads the characters of a FEN placement from left to right: a '/' ends a
/// rank; a digit adds that many empty squares and a letter a piece, to a
/// rank that holds at most seven squares so far.
pub open spec fn fen_scan(cs: Seq<char>) -> FenScan
    decreases cs.len(),
{
    if cs.len() == 0 {
        FenScan { ranks: Seq::empty(), current: Seq::empty(), ok: true }
    } else {
        let s = fen_scan(cs.drop_last());
        let c = cs.last();
        if !s.ok {
            s
        } else if c == '/' {
            FenScan { ranks: s.ranks.push(s.current), current: Seq::empty(), ok: true }
        } else if s.current.len() > 7 {
            FenScan { ok: false, ..s }
        } else {
            match digit_value(c) {
                Some(n) => FenScan { current: s.current + Seq::new(n, |i: int| None::<Piece>), ..s },
                None => match fen_piece(c) {
                    Some(p) => FenScan { current: s.current.push(Some(p)), ..s },
                    None => FenScan { ok: false, ..s },
                },
            }
        }
    }
}

/// The 64 squares (rank by rank from the first) of a FEN placement with
/// eight ranks of eight squares.
pub open spec fn fen_board(cs: Seq<char>) -> Option<Seq<Option<Piece>>> {
    let s = fen_scan(cs);
    let ranks = s.ranks.push(s.current);
    if s.ok && ranks.len() == 8 && forall|k: int| 0 <= k < 8 ==> (#[trigger] ranks[k]).len() == 8 {
        Some(Seq::new(64, |i: int| ranks[7 - i / 8][i % 8]))
    } else {
        None
    }
}

/// The piece of a FEN letter.
pub fn fen_piece_of(c: char) -> (piece: Option<Piece>)
    ensures
        piece == fen_piece(c),
{
    let player = if 'a' <= c && c <= 'z' { Player::Black } else { Player::White };
    let piece = if c == 'p' || c == 'P' {
        Some(PieceType::Pawn)
    } else if c == 'n' || c == 'N' {
        Some(PieceType::Knight)
    } else if c == 'b' || c == 'B' {
        Some(PieceType::Bishop)
    } else if c == 'r' || c == 'R' {
        Some(PieceType::Rook)
    } else if c == 'q' || c == 'Q' {
        Some(PieceType::Queen)
    } else if c == 'k' || c == 'K' {
        Some(PieceType::King)
    } else {
        None
    };
    match piece {
        Some(p) => Some(Piece { piece: p, player }),
        None => None,
    }
}

/// The FEN letter of a piece.
pub fn fen_letter_of(piece: Piece) -> (c: char)
    ensures
        c == fen_letter(piece),
{
    match piece.player {
        Player::White => match piece.piece {
            PieceType::Pawn => 'P',
            PieceType::Knight => 'N',
            PieceType::Bishop => 'B',
            PieceType::Rook => 'R',
            PieceType::Queen => 'Q',
            PieceType::King => 'K',
        },
        Player::Black => match piece.piece {
            PieceType::Pawn => 'p',
            PieceType::Knight => 'n',
            PieceType::Bishop => 'b',
            PieceType::Rook => 'r',
            PieceType::Queen => 'q',
            PieceType::King => 'k',
        },
    }
}

/// Once the scan fails it stays failed, and completed ranks stay completed.
proof fn lemma_fen_scan_prefix(cs: Seq<char>, n: int)
    requires
        0 <= n <= cs.len(),
    ensures
        !fen_scan(cs.take(n)).ok ==> !fen_scan(cs).ok,
        fen_scan(cs).ok ==> fen_scan(cs.take(n)).ranks.len() <= fen_scan(cs).ranks.len()
            && forall|k: int| 0 <= k < fen_scan(cs.take(n)).ranks.len() ==> #[trigger] fen_scan(cs).ranks[k] == fen_scan(cs.take(n)).ranks[k],
        fen_scan(cs).ok ==> fen_scan(cs.take(n)).ranks.len() < fen_scan(cs).ranks.len()
            || fen_scan(cs.take(n)).ranks == fen_scan(cs).ranks,
    decreases cs.len() - n,
{
    if n < cs.len() {
        lemma_fen_scan_prefix(cs, n + 1);
        let a = cs.take(n + 1);
        assert(a.drop_last() =~= cs.take(n));
    } else {
        assert(cs.take(n) =~= cs);
    }
}

/// Parses the piece placement of a FEN string, on an empty board.
pub fn board_from_fen<B: Board>(fen: &str) -> (board: Option<B>)
    ensures
        board is Some <==> fen_board(fen@) is Some,
        board matches Some(b) ==> forall|p: Position| valid_position(p) ==> #[trigger] b.spec_at(p) == fen_board(fen@).unwrap()[square_index(p)],
{
    let cs = str_chars(fen);
    board_from_fen_chars(&cs)
}

/// Parses the piece placement of FEN characters, on an empty board.
pub fn board_from_fen_chars<B: Board>(cs: &Vec<char>) -> (board: Option<B>)
    ensures
        board is Some <==> fen_board(cs@) is Some,
        board matches Some(b) ==> forall|p: Position| valid_position(p) ==> #[trigger] b.spec_at(p) == fen_board(cs@).unwrap()[square_index(p)],
{
    let mut done: Vec<Option<Piece>> = Vec::new();
    let mut current: Vec<Option<Piece>> = Vec::new();
    let mut rank_count: usize = 0;
    let mut i: usize = 0;
    while i < cs.len()
        invariant
            i <= cs.len(),
            cs@ == cs@,
            fen_scan(cs@.take(i as int)).ok,
            rank_count == fen_scan(cs@.take(i as int)).ranks.len(),
            rank_count <= 7,
            forall|k: int| 0 <= k < rank_count ==> (#[trigger] fen_scan(cs@.take(i as int)).ranks[k]).len() == 8,
            done@.len() == 8 * rank_count,
            forall|j: int| 0 <= j < done@.len() ==> #[trigger] done@[j] == fen_scan(cs@.take(i as int)).ranks[j / 8][j % 8],
            current@ == fen_scan(cs@.take(i as int)).current,
        decreases cs.len() - i,
    {
        let c = cs[i];
        let ghost prev = fen_scan(cs@.take(i as int));
        proof {
            assert(cs@.take(i + 1).drop_last() =~= cs@.take(i as int));
            assert(cs@.take(i + 1).last() == c);
        }
        if c == '/' {
            if current.len() != 8 || rank_count == 7 {
                proof {
                    lemma_fen_scan_prefix(cs@, i + 1);
                    assert(cs@.take(cs@.len() as int) =~= cs@);
                    let s = fen_scan(cs@);
                    if s.ok {
                        let ranks = s.ranks.push(s.current);
                        if current.len() != 8 {
                            assert(ranks[rank_count as int] == fen_scan(cs@.take(i + 1)).ranks[rank_count as int]);
                        }
                    }
                }
                return None;
            }
            let mut j: usize = 0;
            while j < 8
                invariant
                    j <= 8,
                    current@.len() == 8,
                    done@.len() == 8 * rank_count + j,
                    forall|k: int| 0 <= k < 8 * rank_count ==> #[trigger] done@[k] == prev.ranks[k / 8][k % 8],
                    forall|k: int| 8 * rank_count <= k < done@.len() ==> #[trigger] done@[k] == current@[k - 8 * rank_count],
                decreases 8 - j,
            {
                done.push(current[j]);
                j += 1;
            }
            let ghost cur = current@;
            current = Vec::new();
            rank_count += 1;
            proof {
                let next = fen_scan(cs@.take(i + 1));
                assert(next.ranks == prev.ranks.push(cur));
                assert forall|k: int| 0 <= k < done@.len() implies #[trigger] done@[k] == next.ranks[k / 8][k % 8] by {
                    if k < 8 * (rank_count - 1) {
                        assert(next.ranks[k / 8] == prev.ranks[k / 8]);
                    } else {
                        assert(k / 8 == rank_count - 1);
                    }
                }
            }
        } else {
            if current.len() > 7 {
                proof {
                    lemma_fen_scan_prefix(cs@, i + 1);
                    assert(cs@.take(cs@.len() as int) =~= cs@);
                }
                return None;
            }
            if '0' <= c && c <= '9' {
                let n = (c as u32 - '0' as u32) as usize;
                let ghost before = current@;
                let mut j: usize = 0;
                while j < n
                    invariant
                        j <= n,
                        n <= 9,
                        current@ == before + Seq::new(j as nat, |k: int| None::<Piece>),
                    decreases n - j,
                {
                    current.push(None);
                    j += 1;
                    assert(current@ =~= before + Seq::new(j as nat, |k: int| None::<Piece>));
                }
                assert(digit_value(c) == Some(n as nat));
            } else {
                match fen_piece_of(c) {
                    Some(p) => {
                        current.push(Some(p));
                    },
                    None => {
                        proof {
                            lemma_fen_scan_prefix(cs@, i + 1);
                            assert(cs@.take(cs@.len() as int) =~= cs@);
                        }
                        return None;
                    },
                }
            }
        }
        i += 1;
    }
    assert(cs@.take(cs@.len() as int) =~= cs@);
    if rank_count != 7 || current.len() != 8 {
        proof {
            let s = fen_scan(cs@);
            let ranks = s.ranks.push(s.current);
            assert(ranks[rank_count as int] == current@);
        }
        return None;
    }
    let ghost s = fen_scan(cs@);
    let ghost ranks = s.ranks.push(s.current);
    let ghost squares = fen_board(cs@).unwrap();
    assert forall|k: int| 0 <= k < 8 implies (#[trigger] ranks[k]).len() == 8 by {}
    let mut board = B::empty_board();
    let mut idx: usize = 0;
    while idx < 64
        invariant
            idx <= 64,
            rank_count == 7,
            done@.len() == 56,
            current@.len() == 8,
            ranks.len() == 8,
            forall|j: int| 0 <= j < 56 ==> #[trigger] done@[j] == ranks[j / 8][j % 8],
            current@ == ranks[7],
            squares == Seq::new(64, |i: int| ranks[7 - i / 8][i % 8]),
            forall|p: Position| valid_position(p) ==> #[trigger] board.spec_at(p) == (if square_index(p) < idx {
                squares[square_index(p)]
            } else {
                None
            }),
        decreases 64 - idx,
    {
        let rank = idx / 8;
        let file = idx % 8;
        // Rank `rank` is the (7 - rank)-th rank of the placement.
        let k = 7 - rank;
        let value = if k == 7 { current[file] } else { done[k * 8 + file] };
        proof {
            if k != 7 {
                assert((k * 8 + file) / 8 == k);
                assert((k * 8 + file) % 8 == file);
            }
            lemma_position_index(idx as int);
            B::lemma_valid_key(index_position(idx as int));
        }
        let pos = Position { rank, file };
        let ghost old_board = board;
        board.update(&pos, value);
        proof {
            assert forall|p: Position| valid_position(p) implies #[trigger] board.spec_at(p) == (if square_index(p) < idx + 1 {
                squares[square_index(p)]
            } else {
                None
            }) by {
                B::lemma_valid_key(p);
                B::lemma_stored(old_board.spec_at(p), value);
            }
        }
        idx += 1;
    }
    Some(board)
}

} // verus!
