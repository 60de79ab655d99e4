//! Standard algebraic names of moves ("Nbd7", "exd6", "O-O", "e8=Q+").

use super::check::SafetyChecks;
use super::iter::{piece_into_iter, square};
use super::play::{both_kings, move_allowed};
use super::search::{has_legal_move, in_check};
use crate::board::{
    index_position, lemma_position_index, parse_position, position_name, position_name_chars, spec_promotion_rank,
    valid_position, Board, Piece, PieceType, Player, Position,
};
use crate::game::{promoted_type, stored_fn, GameState, MoveAction, MoveActionType, PromotionPieces, ZobristKeys};
use crate::rules::{move_kind, moved_game, piece_targets, sq_at, GameView};
use crate::text::string_from_chars;
use vstd::prelude::*;

verus! {

/// Why a move has no name.
#[derive(Copy, Clone, Debug, PartialEq, Eq, Structural)]
pub enum MoveNameError {
    /// No piece stands on the source square.
    NoPiece,
    /// A pawn reaches the last rank and the move names no promotion piece.
    MissingPromotion,
    /// The move cannot be made.
    InvalidMove,
}

/// The letter of a piece type in a move name; pawns have none.
pub open spec fn piece_letter(piece: PieceType) -> Option<char> {
    match piece {
        PieceType::Pawn => None,
        PieceType::Knight => Some('N'),
        PieceType::Bishop => Some('B'),
        PieceType::Rook => Some('R'),
        PieceType::Queen => Some('Q'),
        PieceType::King => Some('K'),
    }
}

fn piece_char(piece: &PieceType) -> (c: Option<char>)
    ensures
        c == piece_letter(*piece),
{
    match piece {
        PieceType::Knight => Some('N'),
        PieceType::Bishop => Some('B'),
        PieceType::Rook => Some('R'),
        PieceType::Queen => Some('Q'),
        PieceType::King => Some('K'),
        _ => None,
    }
}

/// The letter of a piece type, if any, as a sequence.
pub open spec fn letter_seq(piece: PieceType) -> Seq<char> {
    match piece_letter(piece) {
        Some(c) => seq![c],
        None => Seq::empty(),
    }
}

/// The source piece is a king moving two files.
pub open spec fn is_castling(g: GameView, m: MoveAction) -> bool {
    let piece = sq_at(g.squares, m.mv.source).unwrap();
    piece.piece == PieceType::King && (m.mv.source.file - m.mv.target.file == 2 || m.mv.target.file - m.mv.source.file == 2)
}

/// Another piece of the same type and player as the moving piece reaches the
/// target.
#[verifier::opaque]
pub open spec fn rival_at(g: GameView, m: MoveAction, k: int) -> bool {
    let q = index_position(k);
    let piece = sq_at(g.squares, m.mv.source).unwrap();
    &&& 0 <= k < 64
    &&& q != m.mv.source
    &&& sq_at(g.squares, q) is Some
    &&& sq_at(g.squares, q).unwrap().player == g.player
    &&& sq_at(g.squares, q).unwrap().piece == piece.piece
    &&& piece_targets(g, q).contains(m.mv.target)
}

pub open spec fn ambiguous(g: GameView, m: MoveAction) -> bool {
    exists|k: int| #[trigger] rival_at(g, m, k)
}

/// A rival stands on the rank of the source.
pub open spec fn rival_in_rank(g: GameView, m: MoveAction) -> bool {
    exists|k: int| #[trigger] rival_at(g, m, k) && index_position(k).rank == m.mv.source.rank
}

/// A rival stands on the file of the source, on another rank.
pub open spec fn rival_in_file(g: GameView, m: MoveAction) -> bool {
    exists|k: int|
        #[trigger] rival_at(g, m, k) && index_position(k).rank != m.mv.source.rank && index_position(k).file == m.mv.source.file
}

/// A pawn leaves its file for an empty square.
pub open spec fn is_en_passant(g: GameView, m: MoveAction) -> bool {
    let piece = sq_at(g.squares, m.mv.source).unwrap();
    piece.piece == PieceType::Pawn && m.mv.source.file != m.mv.target.file && sq_at(g.squares, m.mv.target) is None
}

pub open spec fn is_capture(g: GameView, m: MoveAction) -> bool {
    sq_at(g.squares, m.mv.target) is Some || is_en_passant(g, m)
}

/// What tells the moving piece apart from its rivals.
pub open spec fn disambiguation(g: GameView, m: MoveAction) -> Seq<char> {
    let piece = sq_at(g.squares, m.mv.source).unwrap();
    let name = position_name(m.mv.source);
    if is_en_passant(g, m) || (piece.piece == PieceType::Pawn && is_capture(g, m)) {
        seq![name[0]]
    } else if rival_in_file(g, m) && rival_in_rank(g, m) {
        name
    } else if rival_in_rank(g, m) {
        seq![name[0]]
    } else if rival_in_file(g, m) {
        seq![name[1]]
    } else if ambiguous(g, m) {
        seq![name[0]]
    } else {
        Seq::empty()
    }
}

/// A part of a move name that names a square fits position `q`: it is
/// empty, the file letter of `q`, its rank digit, or its whole name.
pub open spec fn fits_position(d: Seq<char>, q: Position) -> bool {
    ||| d.len() == 0
    ||| d == seq![position_name(q)[0]]
    ||| d == seq![position_name(q)[1]]
    ||| d == position_name(q)
}

/// The letters and digits of square names: two squares have the same file
/// letter exactly when they share a file, the same rank digit exactly when
/// they share a rank, and no file letter is a rank digit.
pub proof fn lemma_name_chars(p: Position, q: Position)
    requires
        valid_position(p),
        valid_position(q),
    ensures
        (position_name(p)[0] == position_name(q)[0]) <==> p.file == q.file,
        (position_name(p)[1] == position_name(q)[1]) <==> p.rank == q.rank,
        position_name(p)[0] != position_name(q)[1],
        (position_name(p) == position_name(q)) <==> p == q,
{
    crate::board::lemma_position_name_parses(p);
    crate::board::lemma_position_name_parses(q);
    let np = position_name(p);
    let nq = position_name(q);
    assert(np[0] as int == 'a' as int + p.file);
    assert(nq[0] as int == 'a' as int + q.file);
    assert(np[1] as int == '1' as int + p.rank);
    assert(nq[1] as int == '1' as int + q.rank);
    if np == nq {
        assert(parse_position(np) == parse_position(nq));
    }
}

/// A rival stands on the board, elsewhere than the source.
proof fn lemma_rival_elsewhere(g: GameView, m: MoveAction, k: int)
    requires
        rival_at(g, m, k),
    ensures
        0 <= k < 64,
        index_position(k) != m.mv.source,
{
    reveal(rival_at);
}

/// The single character `c` fits no square whose file letter and rank
/// digit both differ from it.
proof fn lemma_char_not_fitting(d: Seq<char>, c: char, q: Position)
    requires
        d == seq![c],
        c != position_name(q)[0],
        c != position_name(q)[1],
    ensures
        !fits_position(d, q),
{
    let nq = position_name(q);
    assert(d.len() == 1 && d[0] == c);
    if d == seq![nq[0]] {
        assert(d[0] == nq[0]);
    }
    if d == seq![nq[1]] {
        assert(d[0] == nq[1]);
    }
}

/// The disambiguation fits no rival.
#[verifier::spinoff_prover]
proof fn lemma_rival_not_fitting(g: GameView, m: MoveAction, k: int)
    requires
        valid_position(m.mv.source),
        sq_at(g.squares, m.mv.source) is Some,
        sq_at(g.squares, m.mv.source).unwrap().piece != PieceType::Pawn,
        rival_at(g, m, k),
    ensures
        !fits_position(disambiguation(g, m), index_position(k)),
{
    let src = m.mv.source;
    let d = disambiguation(g, m);
    let q = index_position(k);
    lemma_rival_elsewhere(g, m, k);
    lemma_position_index(k);
    lemma_name_chars(src, q);
    lemma_name_chars(q, src);
    let ns = position_name(src);
    let nq = position_name(q);
    assert(ambiguous(g, m));
    assert(!is_en_passant(g, m));
    if rival_in_file(g, m) && rival_in_rank(g, m) {
        assert(d == ns);
        assert(ns != nq);
        assert(d.len() == 2);
    } else if rival_in_rank(g, m) {
        assert(q.file != src.file);
        assert(d == seq![ns[0]]);
        lemma_char_not_fitting(d, ns[0], q);
    } else if rival_in_file(g, m) {
        assert(q.rank != src.rank);
        assert(d == seq![ns[1]]);
        lemma_char_not_fitting(d, ns[1], q);
    } else {
        assert(q.file != src.file);
        assert(d == seq![ns[0]]);
        lemma_char_not_fitting(d, ns[0], q);
    }
}

/// The disambiguation of a move of a piece (not a pawn) tells its source
/// apart from every other piece of the same kind and player that reaches
/// the target: it fits the source and fits none of them. It is empty when
/// there is no such piece, and a single character unless such pieces stand
/// both on the source's rank and on its file.
pub proof fn lemma_disambiguation_identifies(g: GameView, m: MoveAction)
    requires
        valid_position(m.mv.source),
        sq_at(g.squares, m.mv.source) is Some,
        sq_at(g.squares, m.mv.source).unwrap().piece != PieceType::Pawn,
    ensures
        fits_position(disambiguation(g, m), m.mv.source),
        forall|k: int| #[trigger] rival_at(g, m, k) ==> !fits_position(disambiguation(g, m), index_position(k)),
        !ambiguous(g, m) ==> disambiguation(g, m).len() == 0,
        disambiguation(g, m).len() <= 1 || (rival_in_rank(g, m) && rival_in_file(g, m)),
{
    assert forall|k: int| #[trigger] rival_at(g, m, k) implies !fits_position(disambiguation(g, m), index_position(k)) by {
        lemma_rival_not_fitting(g, m, k);
    }
}

/// No `x` is part of a square's name.
proof fn lemma_name_has_no_x(p: Position)
    requires
        valid_position(p),
    ensures
        forall|i: int| 0 <= i < position_name(p).len() ==> position_name(p)[i] != 'x',
        position_name(p).len() == 2,
{
    let n = position_name(p);
    assert(n[0] as int == 'a' as int + p.file);
    assert(n[1] as int == '1' as int + p.rank);
}

/// The name of a move that is not castling marks a capture with an `x`,
/// and has one exactly when the move captures: a piece stands on its
/// target, or a pawn leaves its file. It ends with the target square, or,
/// when a pawn promotes, with `=` and the letter of the piece it becomes.
pub proof fn lemma_name_body_parts(g: GameView, m: MoveAction)
    requires
        valid_position(m.mv.source),
        valid_position(m.mv.target),
        sq_at(g.squares, m.mv.source) is Some,
        !is_castling(g, m),
    ensures
        name_body(g, m).contains('x') <==> (sq_at(g.squares, m.mv.target) is Some
            || (sq_at(g.squares, m.mv.source).unwrap().piece == PieceType::Pawn && m.mv.source.file != m.mv.target.file)),
        !(needs_promotion(g, m) && m.move_type is Promotion) ==>
            name_body(g, m).len() >= 2 && name_body(g, m).subrange(name_body(g, m).len() - 2, name_body(g, m).len() as int)
                == position_name(m.mv.target),
        needs_promotion(g, m) ==> match m.move_type {
            MoveActionType::Promotion(p) => {
                let n = name_body(g, m);
                &&& n.len() >= 2
                &&& n[n.len() - 2] == '='
                &&& n[n.len() - 1] == match p {
                    PromotionPieces::Knight => 'N',
                    PromotionPieces::Bishop => 'B',
                    PromotionPieces::Rook => 'R',
                    PromotionPieces::Queen => 'Q',
                }
            },
            _ => true,
        },
{
    let piece = sq_at(g.squares, m.mv.source).unwrap();
    let a = letter_seq(piece.piece);
    let b = disambiguation(g, m);
    let c: Seq<char> = if is_capture(g, m) { seq!['x'] } else { Seq::empty() };
    let d = position_name(m.mv.target);
    let e: Seq<char> = if needs_promotion(g, m) {
        match m.move_type {
            MoveActionType::Promotion(p) => seq!['='] + letter_seq(promoted_type(p)),
            _ => Seq::empty(),
        }
    } else {
        Seq::empty()
    };
    let n = name_body(g, m);
    assert(n == a + b + c + d + e);
    lemma_name_has_no_x(m.mv.source);
    lemma_name_has_no_x(m.mv.target);
    let ns = position_name(m.mv.source);
    assert(forall|i: int| 0 <= i < a.len() ==> a[i] != 'x');
    assert(forall|i: int| 0 <= i < b.len() ==> b[i] != 'x') by {
        assert(b.len() == 0 || b == seq![ns[0]] || b == seq![ns[1]] || b == ns);
        assert forall|i: int| 0 <= i < b.len() implies b[i] != 'x' by {
            if b == seq![ns[0]] {
                assert(b[i] == ns[0]);
            } else if b == seq![ns[1]] {
                assert(b[i] == ns[1]);
            }
        }
    }
    assert(forall|i: int| 0 <= i < e.len() ==> e[i] != 'x');
    let ab = a + b;
    let abc = ab + c;
    let abcd = abc + d;
    assert(forall|i: int| 0 <= i < ab.len() ==> ab[i] != 'x');
    if is_capture(g, m) {
        assert(n[abc.len() - 1] == 'x');
    } else {
        assert(c.len() == 0);
        assert(forall|i: int| 0 <= i < abcd.len() ==> abcd[i] != 'x') by {
            assert(abc =~= ab);
        }
        assert(forall|i: int| 0 <= i < n.len() ==> n[i] != 'x');
    }
    if e.len() == 0 {
        assert(n =~= abcd);
        assert(n.subrange(n.len() - 2, n.len() as int) =~= d);
    }
}

/// The check sign of a move names what the move leaves the other player
/// in: `#` exactly when it is checkmate, `+` exactly when it is a check
/// with a legal reply, and nothing exactly when it is no check.
pub proof fn lemma_check_sign(after: GameView, stored: spec_fn(Option<Piece>, Option<Piece>) -> Option<Piece>)
    ensures
        check_sign_with(after, stored) == seq!['#'] <==> crate::eval::spec_mate(after, stored) == Some(crate::eval::MateType::Checkmate),
        check_sign_with(after, stored) == seq!['+'] <==> in_check(after) && crate::eval::spec_mate(after, stored) is None,
        check_sign_with(after, stored).len() == 0 <==> !in_check(after),
{
    let sign = check_sign_with(after, stored);
    let mate = seq!['#'];
    let check = seq!['+'];
    assert(mate[0] == '#' && check[0] == '+');
    assert(mate != check) by {
        if mate == check {
            assert(mate[0] == check[0]);
        }
    }
    if in_check(after) {
        if has_legal_move(after, stored) {
            assert(sign == check);
        } else {
            assert(sign == mate);
        }
    } else {
        assert(sign.len() == 0);
    }
}

/// A pawn of the player to move reaches the promotion rank.
pub open spec fn needs_promotion(g: GameView, m: MoveAction) -> bool {
    let piece = sq_at(g.squares, m.mv.source).unwrap();
    piece.piece == PieceType::Pawn && m.mv.target.rank == spec_promotion_rank(g.player)
}

/// The name of a move before its check sign.
pub open spec fn name_body(g: GameView, m: MoveAction) -> Seq<char> {
    let piece = sq_at(g.squares, m.mv.source).unwrap();
    if is_castling(g, m) {
        if m.mv.target.file == 2 {
            seq!['O', '-', 'O', '-', 'O']
        } else {
            seq!['O', '-', 'O']
        }
    } else {
        letter_seq(piece.piece) + disambiguation(g, m) + (if is_capture(g, m) { seq!['x'] } else { Seq::empty() })
            + position_name(m.mv.target) + if needs_promotion(g, m) {
            match m.move_type {
                MoveActionType::Promotion(p) => seq!['='] + letter_seq(promoted_type(p)),
                _ => Seq::empty(),
            }
        } else {
            Seq::empty()
        }
    }
}

/// The name of a move, or why it has none.
#[verifier::opaque]
pub open spec fn spec_move_name(g: GameView, m: MoveAction, stored: spec_fn(Option<Piece>, Option<Piece>) -> Option<Piece>) -> Result<Seq<char>, MoveNameError> {
    if sq_at(g.squares, m.mv.source) is None {
        Err(MoveNameError::NoPiece)
    } else if !is_castling(g, m) && needs_promotion(g, m) && !(m.move_type is Promotion) {
        Err(MoveNameError::MissingPromotion)
    } else if !move_allowed(g, m, stored) {
        Err(MoveNameError::InvalidMove)
    } else {
        let after = moved_game(g, m, move_kind(g.squares, m).unwrap(), stored);
        if !both_kings(after) {
            Err(MoveNameError::InvalidMove)
        } else {
            Ok(name_body(g, m) + check_sign_with(after, stored))
        }
    }
}

/// The check sign of the game after the move, for a board that stores as
/// `stored` does.
pub open spec fn check_sign_with(after: GameView, stored: spec_fn(Option<Piece>, Option<Piece>) -> Option<Piece>) -> Seq<char> {
    if in_check(after) {
        if has_legal_move(after, stored) {
            seq!['+']
        } else {
            seq!['#']
        }
    } else {
        Seq::empty()
    }
}

fn contains_position(v: &Vec<Position>, p: Position) -> (found: bool)
    ensures
        found == v@.contains(p),
{
    let mut i: usize = 0;
    while i < v.len()
        invariant
            i <= v.len(),
            forall|j: int| 0 <= j < i ==> v@[j] != p,
        decreases v.len() - i,
    {
        if v[i] == p {
            assert(v@[i as int] == p);
            return true;
        }
        i += 1;
    }
    false
}

impl<B: SafetyChecks> GameState<B> {
    /// Whether another piece like the moving one reaches the target, one on
    /// the source's rank, and one on its file.
    fn rivals(&self, move_action: &MoveAction) -> (flags: (bool, bool, bool))
        requires
            valid_position(move_action.mv.source),
            sq_at(self@.squares, move_action.mv.source) is Some,
        ensures
            flags.0 == ambiguous(self@, *move_action),
            flags.1 == rival_in_rank(self@, *move_action),
            flags.2 == rival_in_file(self@, *move_action),
    {
        let player = self.player();
        let mv = move_action.mv;
        let src_piece = square(self, &mv.source).unwrap();
        let mut ambiguous_piece_exists = false;
        let mut piece_in_same_file = false;
        let mut piece_in_same_rank = false;
        let ghost g = self@;
        let mut i: usize = 0;
        while i < 64
            invariant
                i <= 64,
                g == self@,
                valid_position(mv.source),
                mv == move_action.mv,
                player == g.player,
                src_piece == sq_at(g.squares, mv.source).unwrap(),
                ambiguous_piece_exists == exists|k: int| 0 <= k < i && #[trigger] rival_at(g, *move_action, k),
                piece_in_same_rank == exists|k: int| 0 <= k < i && #[trigger] rival_at(g, *move_action, k) && index_position(k).rank == mv.source.rank,
                piece_in_same_file == exists|k: int|
                    0 <= k < i && #[trigger] rival_at(g, *move_action, k) && index_position(k).rank != mv.source.rank
                        && index_position(k).file == mv.source.file,
            decreases 64 - i,
        {
            proof {
                lemma_position_index(i as int);
            }
            let q = Position { rank: i / 8, file: i % 8 };
            let rival = if q == mv.source {
                false
            } else {
                match square(self, &q) {
                    Some(piece) => {
                        if piece.player == player && piece.piece == src_piece.piece {
                            let targets = piece_into_iter(self, q);
                            contains_position(&targets, mv.target)
                        } else {
                            false
                        }
                    },
                    None => false,
                }
            };
            assert(q == index_position(i as int));
            assert(rival == rival_at(g, *move_action, i as int)) by {
                reveal(rival_at);
            }
            if rival {
                ambiguous_piece_exists = true;
                if q.rank == mv.source.rank {
                    piece_in_same_rank = true;
                } else if q.file == mv.source.file {
                    piece_in_same_file = true;
                }
            }
            i += 1;
        }
        proof {
            assert forall|k: int| #[trigger] rival_at(g, *move_action, k) implies 0 <= k < 64 by {
                reveal(rival_at);
            }
        }
        (ambiguous_piece_exists, piece_in_same_rank, piece_in_same_file)
    }

    /// The name of a move before its check sign.
    #[verifier::rlimit(40)]
    fn name_body_chars(&self, move_action: &MoveAction) -> (result: Result<Vec<char>, MoveNameError>)
        requires
            valid_position(move_action.mv.source),
            valid_position(move_action.mv.target),
            sq_at(self@.squares, move_action.mv.source) is Some,
            is_castling(self@, *move_action) ==> move_action.mv.target.file == 2 || move_action.mv.target.file == 6,
        ensures
            !is_castling(self@, *move_action) && needs_promotion(self@, *move_action) && !(move_action.move_type is Promotion)
                ==> result == Err::<Vec<char>, MoveNameError>(MoveNameError::MissingPromotion),
            !(!is_castling(self@, *move_action) && needs_promotion(self@, *move_action) && !(move_action.move_type is Promotion))
                ==> (result matches Ok(chars) && chars@ == name_body(self@, *move_action)),
    {
        let player = self.player();
        let mv = move_action.mv;
        let mut name: Vec<char> = Vec::new();
        let src_piece = square(self, &mv.source).unwrap();
        let is_castling = src_piece.piece == PieceType::King && crate::game::abs_diff(mv.source.file, mv.target.file) == 2;
        if is_castling {
            // Castling doesn't need piece or position
            if mv.target.file == 2 {
                name.push('O');
                name.push('-');
                name.push('O');
                name.push('-');
                name.push('O');
            } else {
                name.push('O');
                name.push('-');
                name.push('O');
            }
            assert(name@ =~= name_body(self@, *move_action));
            return Ok(name);
        }
        let tgt_piece_opt = square(self, &mv.target);
        if let Some(c) = piece_char(&src_piece.piece) {
            name.push(c);
        }
        let ghost after_letter = name@;
        let is_pawn = src_piece.piece == PieceType::Pawn;
        let is_en_passant = is_pawn && mv.source.file != mv.target.file && tgt_piece_opt.is_none();
        let (ambiguous_piece_exists, piece_in_same_rank, piece_in_same_file) = self.rivals(move_action);
        let is_capture = tgt_piece_opt.is_some() || is_en_passant;
        let (source_file, source_rank) = position_name_chars(&mv.source);

        if is_en_passant || (is_pawn && is_capture) {
            name.push(source_file);
        } else if piece_in_same_file && piece_in_same_rank {
            // Same type of pieces in same rank and file: file and rank suffix
            name.push(source_file);
            name.push(source_rank);
        } else if piece_in_same_rank {
            // Same type of pieces in same rank but different file: file suffix
            name.push(source_file);
        } else if piece_in_same_file {
            // Same type of pieces in same file but different rank: rank suffix
            name.push(source_rank);
        } else if ambiguous_piece_exists {
            // Another piece not in the same rank or file: file suffix
            name.push(source_file);
        }
        assert(name@ =~= after_letter + disambiguation(self@, *move_action));
        let ghost after_disambiguation = name@;

        if is_capture {
            name.push('x');
        }
        let (target_file, target_rank) = position_name_chars(&mv.target);
        name.push(target_file);
        name.push(target_rank);
        let ghost before_promotion = name@;
        assert(before_promotion =~= after_letter + disambiguation(self@, *move_action)
            + (if self::is_capture(self@, *move_action) { seq!['x'] } else { Seq::empty() }) + position_name(mv.target));

        // Is promotion?
        if is_pawn && mv.target.rank == B::promotion_rank(&player) {
            match move_action.move_type {
                MoveActionType::Promotion(promotion_piece) => {
                    name.push('=');
                    if let Some(c) = piece_char(&promotion_piece.piece_type()) {
                        name.push(c);
                    }
                },
                _ => {
                    return Err(MoveNameError::MissingPromotion);
                },
            }
        }
        assert(name@ =~= name_body(self@, *move_action));
        Ok(name)
    }

    /// The standard algebraic name of a move of the player to move.
    pub fn move_name(&self, move_action: &MoveAction, keys: &ZobristKeys) -> (name: Result<String, MoveNameError>)
        requires
            both_kings(self@),
            keys.wf(),
            valid_position(move_action.mv.source),
            valid_position(move_action.mv.target),
            sq_at(self@.squares, move_action.mv.source) is Some && is_castling(self@, *move_action)
                ==> move_action.mv.target.file == 2 || move_action.mv.target.file == 6,
        ensures
            match spec_move_name(self@, *move_action, stored_fn::<B>()) {
                Ok(chars) => (name matches Ok(s) && s@ == chars),
                Err(e) => name == Err::<String, MoveNameError>(e),
            },
    {
        reveal(spec_move_name);
        let player = self.player();
        if square(self, &move_action.mv.source).is_none() {
            return Err(MoveNameError::NoPiece);
        }
        let mut name = match self.name_body_chars(move_action) {
            Ok(chars) => chars,
            Err(e) => {
                return Err(e);
            },
        };

        // Is check?
        let mut new_game = self.clone_unhashed();
        if new_game.do_move(move_action).is_none() {
            return Err(MoveNameError::InvalidMove);
        }
        proof {
            new_game.lemma_len();
        }
        if !new_game.has_both_kings() {
            return Err(MoveNameError::InvalidMove);
        }
        let enemy_king_position = new_game.board().find_king(&player.opponent());
        proof {
            crate::eval::check::lemma_king_index_from(new_game@.squares, new_game@.player, 0);
            lemma_position_index(crate::rules::king_index_from(new_game@.squares, new_game@.player, 0));
        }
        let causes_check = new_game.board().is_piece_unsafe(&enemy_king_position);
        if causes_check {
            let is_checkmate = new_game.get_best_move_shallow(keys).is_none();
            name.push(if is_checkmate { '#' } else { '+' });
        }
        Ok(string_from_chars(&name))
    }
}

/// The names of the moves of a line played from `g`, each in the game that
/// the moves before it lead to; `None` once a move has no name.
#[verifier::opaque]
pub open spec fn line_names(g: GameView, moves: Seq<MoveAction>, stored: spec_fn(Option<Piece>, Option<Piece>) -> Option<Piece>) -> Option<Seq<Seq<char>>>
    decreases moves.len(),
{
    if moves.len() == 0 {
        Some(Seq::empty())
    } else {
        let m = moves[0];
        if !valid_position(m.mv.source) || !valid_position(m.mv.target) || !both_kings(g)
            || (sq_at(g.squares, m.mv.source) is Some && is_castling(g, m) && m.mv.target.file != 2 && m.mv.target.file != 6) {
            None
        } else {
            match spec_move_name(g, m, stored) {
                Ok(name) => match line_names(moved_game(g, m, move_kind(g.squares, m).unwrap(), stored), moves.skip(1), stored) {
                    Some(rest) => Some(seq![name] + rest),
                    None => None,
                },
                Err(_) => None,
            }
        }
    }
}

/// A move whose name can be asked for: on the board, from a game where both
/// players have a king, and not a king's two-file move to another file than
/// c or g.
pub open spec fn name_step_ok(g: GameView, m: MoveAction) -> bool {
    valid_position(m.mv.source) && valid_position(m.mv.target) && both_kings(g)
        && !(sq_at(g.squares, m.mv.source) is Some && is_castling(g, m) && m.mv.target.file != 2 && m.mv.target.file != 6)
}

/// One step of `line_names`.
proof fn lemma_line_names_step(g: GameView, moves: Seq<MoveAction>, stored: spec_fn(Option<Piece>, Option<Piece>) -> Option<Piece>)
    requires
        moves.len() > 0,
    ensures
        line_names(g, moves, stored) == (if !name_step_ok(g, moves[0]) {
            None
        } else {
            match spec_move_name(g, moves[0], stored) {
                Ok(name) => match line_names(moved_game(g, moves[0], move_kind(g.squares, moves[0]).unwrap(), stored), moves.skip(1), stored) {
                    Some(r) => Some(seq![name] + r),
                    None => None,
                },
                Err(_) => None,
            }
        }),
{
    reveal(line_names);
}

impl<B: SafetyChecks> GameState<B> {
    /// The name of a move, then the move made; `None` if the move has no
    /// name or leaves the game unchanged.
    fn name_and_play(&mut self, mv: MoveAction, keys: &ZobristKeys) -> (name: Option<String>)
        requires
            keys.wf(),
        ensures
            name_step_ok(old(self)@, mv) && spec_move_name(old(self)@, mv, stored_fn::<B>()) is Ok <==> name is Some,
            name matches Some(n) ==> spec_move_name(old(self)@, mv, stored_fn::<B>()) == Ok::<Seq<char>, MoveNameError>(n@)
                && final(self)@ == moved_game(old(self)@, mv, move_kind(old(self)@.squares, mv).unwrap(), stored_fn::<B>()),
    {
        proof {
            self.lemma_len();
        }
        if mv.mv.source.rank >= 8 || mv.mv.source.file >= 8 || mv.mv.target.rank >= 8 || mv.mv.target.file >= 8 {
            return None;
        }
        if !self.has_both_kings() {
            return None;
        }
        let castling_bad = match square(self, &mv.mv.source) {
            Some(piece) => piece.piece == PieceType::King && crate::game::abs_diff(mv.mv.source.file, mv.mv.target.file) == 2
                && mv.mv.target.file != 2 && mv.mv.target.file != 6,
            None => false,
        };
        if castling_bad {
            return None;
        }
        let name = match self.move_name(&mv, keys) {
            Ok(name) => name,
            Err(_) => {
                return None;
            },
        };
        proof {
            reveal(spec_move_name);
        }
        if self.do_move(&mv).is_none() {
            return None;
        }
        Some(name)
    }

    /// The names of the moves of a line played from this game.
    pub fn move_branch_names(&self, moves: &Vec<MoveAction>, keys: &ZobristKeys) -> (names: Option<Vec<String>>)
        requires
            keys.wf(),
        ensures
            match line_names(self@, moves@, stored_fn::<B>()) {
                Some(expected) => (names matches Some(v) && v@.map_values(|s: String| s@) == expected),
                None => names is None,
            },
    {
        let mut new_game = self.clone_unhashed();
        let mut move_names: Vec<String> = Vec::new();
        let mut i: usize = 0;
        proof {
            assert(moves@.skip(0) =~= moves@);
            match line_names(self@, moves@, stored_fn::<B>()) {
                Some(r) => {
                    assert(move_names@.map_values(|s: String| s@) + r =~= r);
                },
                None => {},
            }
        }
        while i < moves.len()
            invariant
                keys.wf(),
                i <= moves@.len(),
                line_names(self@, moves@, stored_fn::<B>()) == match line_names(new_game@, moves@.skip(i as int), stored_fn::<B>()) {
                    Some(rest) => Some(move_names@.map_values(|s: String| s@) + rest),
                    None => None::<Seq<Seq<char>>>,
                },
            decreases moves@.len() - i,
        {
            let mv = moves[i];
            let ghost before = new_game@;
            let ghost rest = moves@.skip(i as int);
            proof {
                assert(rest[0] == mv);
                assert(rest.skip(1) =~= moves@.skip(i + 1));
                lemma_line_names_step(before, rest, stored_fn::<B>());
            }
            let name = match new_game.name_and_play(mv, keys) {
                Some(name) => name,
                None => {
                    return None;
                },
            };
            let ghost names_before = move_names@.map_values(|s: String| s@);
            move_names.push(name);
            proof {
                assert(move_names@.map_values(|s: String| s@) =~= names_before.push(name@));
                match line_names(new_game@, moves@.skip(i + 1), stored_fn::<B>()) {
                    Some(r) => {
                        assert(names_before + (seq![name@] + r) =~= move_names@.map_values(|s: String| s@) + r);
                    },
                    None => {},
                }
            }
            i += 1;
        }
        proof {
            assert(moves@.skip(moves@.len() as int) =~= Seq::<MoveAction>::empty());
            assert(line_names(new_game@, Seq::<MoveAction>::empty(), stored_fn::<B>()) == Some(Seq::<Seq<char>>::empty())) by {
                reveal(line_names);
            }
            assert(move_names@.map_values(|s: String| s@) + Seq::<Seq<char>>::empty() =~= move_names@.map_values(|s: String| s@));
        }
        Some(move_names)
    }
}

} // verus!
