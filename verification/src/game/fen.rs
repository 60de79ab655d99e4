//! Games in Forsyth-Edwards Notation: placement, active color, castling
//! availability, en passant square, halfmove clock and fullmove number.

use super::state::{GameMobilityData, GameState};
use super::{GameInfo, Move, MoveExtraInfo, MoveInfo};
use crate::board::{
    board_from_fen_chars, board_model, parse_position_chars, fen_board, fen_letter_of, index_position, lemma_index_position,
    lemma_position_index, opponent, parse_position, position_name, position_name_chars, lemma_position_name_parses,
    valid_position, Board, Player, Position,
};
use crate::rules::{spec_can_castle_kingside, spec_can_castle_queenside, GameView};
use crate::board::{fen_letter, fen_piece, fen_scan, lemma_fen_letter, FenScan, ModifiableBoard, Piece};
use crate::text::{digit_value, digit_char, digit_to_char, str_chars, string_from_chars};
use vstd::prelude::*;

verus! {

/// The player of the active-color field.
pub open spec fn fen_player(cs: Seq<char>) -> Option<Player> {
    if cs == seq!['w'] {
        Some(Player::White)
    } else if cs == seq!['b'] {
        Some(Player::Black)
    } else {
        None
    }
}

/// The ranks a pawn of `player` passes from, over and to.
pub open spec fn pass_ranks(player: Player) -> (usize, usize, usize) {
    match player {
        Player::White => (1, 2, 3),
        Player::Black => (6, 5, 4),
    }
}

/// The last move that the en passant field records, with `player` to move:
/// none for "-", else the pass of the other player's pawn over the named
/// square (`None` when the field is malformed).
pub open spec fn fen_last_move(player: Player, cs: Seq<char>) -> Option<Option<MoveInfo>> {
    if cs == seq!['-'] {
        Some(None)
    } else {
        match parse_position(cs) {
            None => None,
            Some(p) => {
                let (source_rank, passed_rank, target_rank) = pass_ranks(opponent(player));
                if p.rank != passed_rank {
                    None
                } else {
                    Some(Some(MoveInfo {
                        mv: Move {
                            source: Position { rank: source_rank, file: p.file },
                            target: Position { rank: target_rank, file: p.file },
                        },
                        info: MoveExtraInfo::EnPassant,
                    }))
                }
            },
        }
    }
}

/// The castling rights of the castling-availability field.
pub open spec fn fen_castling(cs: Seq<char>) -> GameInfo {
    GameInfo {
        white_kingside_castling_allowed: cs.contains('K'),
        white_queenside_castling_allowed: cs.contains('Q'),
        black_kingside_castling_allowed: cs.contains('k'),
        black_queenside_castling_allowed: cs.contains('q'),
    }
}

/// The game of the six fields of a FEN record.
pub open spec fn fen_game(fields: Seq<Seq<char>>) -> Option<GameView> {
    if fields.len() != 6 {
        None
    } else {
        match (fen_board(fields[0]), fen_player(fields[1])) {
            (Some(squares), Some(player)) => match fen_last_move(player, fields[3]) {
                Some(last_move) => Some(GameView { squares, player, last_move, info: fen_castling(fields[2]) }),
                None => None,
            },
            _ => None,
        }
    }
}

fn contains_char(cs: &Vec<char>, c: char) -> (found: bool)
    ensures
        found == cs@.contains(c),
{
    let mut i: usize = 0;
    while i < cs.len()
        invariant
            i <= cs.len(),
            forall|j: int| 0 <= j < i ==> cs@[j] != c,
        decreases cs.len() - i,
    {
        if cs[i] == c {
            return true;
        }
        i += 1;
    }
    false
}

fn is_single(cs: &Vec<char>, c: char) -> (single: bool)
    ensures
        single == (cs@ == seq![c]),
{
    if cs.len() == 1 && cs[0] == c {
        assert(cs@ =~= seq![c]);
        true
    } else {
        false
    }
}

/// The FEN of a rank from file `f` on, after `empties` empty squares.
pub open spec fn fen_rank_from(squares: Seq<Option<Piece>>, rank: int, f: int, empties: nat) -> Seq<char>
    decreases 8 - f,
{
    if f >= 8 {
        if empties > 0 { seq![digit_char(empties)] } else { Seq::empty() }
    } else {
        match squares[rank * 8 + f] {
            None => fen_rank_from(squares, rank, f + 1, empties + 1),
            Some(piece) => (if empties > 0 { seq![digit_char(empties)] } else { Seq::empty() })
                + seq![fen_letter(piece)] + fen_rank_from(squares, rank, f + 1, 0),
        }
    }
}

/// The FEN placement of the ranks from `rank` down to the first, separated
/// by '/'.
pub open spec fn fen_ranks_from(squares: Seq<Option<Piece>>, rank: int) -> Seq<char>
    decreases rank,
{
    if rank <= 0 {
        fen_rank_from(squares, 0, 0, 0)
    } else {
        fen_rank_from(squares, rank, 0, 0) + seq!['/'] + fen_ranks_from(squares, rank - 1)
    }
}

/// The FEN placement field, from the eighth rank to the first.
pub open spec fn fen_placement(squares: Seq<Option<Piece>>) -> Seq<char> {
    fen_ranks_from(squares, 7)
}

/// The castling field: "KQkq" for the rights that remain, or "-".
pub open spec fn fen_castling_field(info: GameInfo) -> Seq<char> {
    let s = (if info.white_kingside_castling_allowed { seq!['K'] } else { Seq::empty() })
        + (if info.white_queenside_castling_allowed { seq!['Q'] } else { Seq::empty() })
        + (if info.black_kingside_castling_allowed { seq!['k'] } else { Seq::empty() })
        + (if info.black_queenside_castling_allowed { seq!['q'] } else { Seq::empty() });
    if s.len() == 0 { seq!['-'] } else { s }
}

/// The en passant field: the square behind the target of an en passant last
/// move, or "-".
pub open spec fn fen_en_passant_field(player: Player, last_move: Option<MoveInfo>) -> Seq<char> {
    match last_move {
        Some(MoveInfo { mv, info: MoveExtraInfo::EnPassant }) => {
            let rank = match player {
                Player::White => mv.target.rank + 1,
                Player::Black => mv.target.rank - 1,
            };
            position_name(Position { rank: rank as usize, file: mv.target.file })
        },
        _ => seq!['-'],
    }
}

/// The FEN record of a game; the halfmove clock is 0 and the fullmove
/// number 1.
pub open spec fn spec_fen(g: GameView) -> Seq<char> {
    fen_placement(g.squares) + seq![' '] + (if g.player == Player::White { seq!['w'] } else { seq!['b'] }) + seq![' ']
        + fen_castling_field(g.info) + seq![' '] + fen_en_passant_field(g.player, g.last_move) + seq![' ', '0', ' ', '1']
}

/// The last move leaves an en passant field that names a square.
pub open spec fn en_passant_nameable(player: Player, last_move: Option<MoveInfo>) -> bool {
    match last_move {
        Some(MoveInfo { mv, info: MoveExtraInfo::EnPassant }) => {
            valid_position(mv.target) && match player {
                Player::White => mv.target.rank + 1 < 8,
                Player::Black => mv.target.rank >= 1,
            }
        },
        _ => true,
    }
}

/// Appends the FEN of a rank.
fn push_fen_rank(out: &mut Vec<char>, squares: &Vec<Option<Piece>>, rank: usize)
    requires
        squares@.len() == 64,
        rank < 8,
    ensures
        final(out)@ == old(out)@ + fen_rank_from(squares@, rank as int, 0, 0),
{
    let mut empties: usize = 0;
    let mut f: usize = 0;
    let ghost start = old(out)@;
    while f < 8
        invariant
            f <= 8,
            empties <= f,
            squares@.len() == 64,
            rank < 8,
            out@ + fen_rank_from(squares@, rank as int, f as int, empties as nat) == start + fen_rank_from(squares@, rank as int, 0, 0),
        decreases 8 - f,
    {
        match squares[rank * 8 + f] {
            None => {
                empties += 1;
            },
            Some(piece) => {
                let ghost before = out@;
                if empties > 0 {
                    out.push(digit_to_char(empties as u32));
                }
                out.push(fen_letter_of(piece));
                proof {
                    let d: Seq<char> = if empties > 0 { seq![digit_char(empties as nat)] } else { Seq::empty() };
                    assert(out@ =~= before + d + seq![fen_letter(piece)]);
                    assert(fen_rank_from(squares@, rank as int, f as int, empties as nat) == d + seq![fen_letter(piece)] + fen_rank_from(squares@, rank as int, f + 1, 0));
                    assert(out@ + fen_rank_from(squares@, rank as int, f + 1, 0) =~= before + fen_rank_from(squares@, rank as int, f as int, empties as nat));
                }
                empties = 0;
            },
        }
        f += 1;
    }
    let ghost before = out@;
    if empties > 0 {
        out.push(digit_to_char(empties as u32));
    }
    assert(out@ =~= before + fen_rank_from(squares@, rank as int, 8, empties as nat));
}

/// Appends the FEN placement of 64 squares.
fn push_placement(fen: &mut Vec<char>, squares: &Vec<Option<Piece>>)
    requires
        squares@.len() == 64,
    ensures
        final(fen)@ == old(fen)@ + fen_placement(squares@),
{
    let ghost start = fen@;
    let mut rank: usize = 8;
    while rank > 0
        invariant
            rank <= 8,
            squares@.len() == 64,
            fen@ + (if rank > 0 { fen_ranks_from(squares@, rank - 1) } else { Seq::empty() }) == start + fen_placement(squares@),
        decreases rank,
    {
        rank -= 1;
        let ghost before = fen@;
        push_fen_rank(fen, squares, rank);
        if rank > 0 {
            fen.push('/');
            assert(fen_ranks_from(squares@, rank as int) == fen_rank_from(squares@, rank as int, 0, 0) + seq!['/'] + fen_ranks_from(squares@, rank - 1));
            assert(fen@ + fen_ranks_from(squares@, rank - 1) =~= before + fen_ranks_from(squares@, rank as int));
        } else {
            assert(fen@ =~= before + fen_ranks_from(squares@, 0));
        }
    }
    assert(fen@ =~= start + fen_placement(squares@));
}

/// Appends the castling field.
fn push_castling(fen: &mut Vec<char>, info: &GameInfo)
    ensures
        final(fen)@ == old(fen)@ + fen_castling_field(*info),
{
    let ghost start = fen@;
    let mut any = false;
    if info.can_castle_kingside(&Player::White) {
        fen.push('K');
        any = true;
    }
    if info.can_castle_queenside(&Player::White) {
        fen.push('Q');
        any = true;
    }
    if info.can_castle_kingside(&Player::Black) {
        fen.push('k');
        any = true;
    }
    if info.can_castle_queenside(&Player::Black) {
        fen.push('q');
        any = true;
    }
    if !any {
        fen.push('-');
    }
    assert(fen@ =~= start + fen_castling_field(*info));
}

/// Appends the en passant field.
fn push_en_passant(fen: &mut Vec<char>, player: Player, last_move: &Option<MoveInfo>)
    requires
        en_passant_nameable(player, *last_move),
    ensures
        final(fen)@ == old(fen)@ + fen_en_passant_field(player, *last_move),
{
    let ghost start = fen@;
    match *last_move {
        Some(MoveInfo { mv: Move { source: _, target }, info: MoveExtraInfo::EnPassant }) => {
            let rank = match player {
                Player::White => target.rank + 1,
                Player::Black => target.rank - 1,
            };
            let (file_char, rank_char) = position_name_chars(&Position { rank, file: target.file });
            fen.push(file_char);
            fen.push(rank_char);
        },
        _ => {
            fen.push('-');
        },
    }
    assert(fen@ =~= start + fen_en_passant_field(player, *last_move));
}

impl<B: Board> GameState<B> {
    /// The squares of the game, rank by rank.
    fn squares(&self) -> (squares: Vec<Option<Piece>>)
        ensures
            squares@ == self@.squares,
    {
        proof {
            self.lemma_len();
        }
        let mut squares: Vec<Option<Piece>> = Vec::new();
        let mut i: usize = 0;
        while i < 64
            invariant
                i <= 64,
                self@.squares.len() == 64,
                squares@ == self@.squares.take(i as int),
            decreases 64 - i,
        {
            proof {
                lemma_position_index(i as int);
                self.lemma_spec_at(index_position(i as int));
            }
            let value = self.at(&Position { rank: i / 8, file: i % 8 });
            assert(value == self@.squares[i as int]);
            squares.push(value);
            i += 1;
            assert(squares@ =~= self@.squares.take(i as int));
        }
        assert(squares@ =~= self@.squares);
        squares
    }

    /// The FEN record of the game (halfmove clock 0, fullmove number 1).
    pub fn to_fen(&self) -> (fen: String)
        requires
            en_passant_nameable(self@.player, self@.last_move),
        ensures
            fen@ == spec_fen(self@),
    {
        let squares = self.squares();
        proof {
            self.lemma_len();
        }
        let mut fen: Vec<char> = Vec::new();
        push_placement(&mut fen, &squares);
        fen.push(' ');
        match self.player() {
            Player::White => fen.push('w'),
            Player::Black => fen.push('b'),
        }
        fen.push(' ');
        push_castling(&mut fen, self.info());
        fen.push(' ');
        push_en_passant(&mut fen, self.player(), self.last_move());
        fen.push(' ');
        fen.push('0');
        fen.push(' ');
        fen.push('1');
        assert(fen@ =~= spec_fen(self@));
        string_from_chars(&fen)
    }

    /// Parses the six fields of a FEN record (the halfmove clock and the
    /// fullmove number are not read).
    pub fn try_from_fen(fen: &[&str]) -> (game: Option<Self>)
        ensures
            game is Some <==> fen_game(fen@.map_values(|s: &str| s@)) is Some,
            game matches Some(g) ==> g@ == fen_game(fen@.map_values(|s: &str| s@)).unwrap() && g.cached_hash() is None,
    {
        let mut fields: Vec<Vec<char>> = Vec::new();
        let mut i: usize = 0;
        while i < fen.len()
            invariant
                i <= fen@.len(),
                fields@.len() == i,
                fields@.map_values(|w: Vec<char>| w@) == fen@.take(i as int).map_values(|s: &str| s@),
            decreases fen@.len() - i,
        {
            let ghost before = fields@;
            let chars = str_chars(fen[i]);
            assert(chars@ == fen@[i as int]@);
            fields.push(chars);
            i += 1;
            let ghost lhs = fields@.map_values(|w: Vec<char>| w@);
            let ghost rhs = fen@.take(i as int).map_values(|s: &str| s@);
            let ghost old_lhs = before.map_values(|w: Vec<char>| w@);
            let ghost old_rhs = fen@.take(i - 1).map_values(|s: &str| s@);
            assert forall|j: int| 0 <= j < i implies #[trigger] lhs[j] == rhs[j] by {
                if j < i - 1 {
                    assert(fields@[j] == before[j]);
                    assert(old_lhs[j] == old_rhs[j]);
                }
            }
            assert(lhs =~= rhs);
        }
        assert(fen@.take(fen@.len() as int) =~= fen@);
        Self::try_from_fen_fields(&fields)
    }

    /// Parses the six fields of a FEN record, as characters.
    pub fn try_from_fen_fields(fen: &Vec<Vec<char>>) -> (game: Option<Self>)
        ensures
            game is Some <==> fen_game(fen@.map_values(|w: Vec<char>| w@)) is Some,
            game matches Some(g) ==> g@ == fen_game(fen@.map_values(|w: Vec<char>| w@)).unwrap() && g.cached_hash() is None,
    {
        let ghost fields = fen@.map_values(|w: Vec<char>| w@);
        if fen.len() != 6 {
            return None;
        }
        assert(fields[0] == fen@[0]@ && fields[1] == fen@[1]@ && fields[2] == fen@[2]@ && fields[3] == fen@[3]@);
        let board = match board_from_fen_chars::<B>(&fen[0]) {
            Some(b) => b,
            None => {
                return None;
            },
        };

        let player = if is_single(&fen[1], 'w') {
            Player::White
        } else if is_single(&fen[1], 'b') {
            Player::Black
        } else {
            return None;
        };

        let last_move = if !is_single(&fen[3], '-') {
            let en_passant_pos = match parse_position_chars(&fen[3]) {
                Some(p) => p,
                None => {
                    return None;
                },
            };
            // Player who made the en passant in the previous move
            let passed_pawn_player = player.opponent();
            let (source_rank, passed_rank, target_rank): (usize, usize, usize) = match passed_pawn_player {
                Player::White => (1, 2, 3),
                Player::Black => (6, 5, 4),
            };

            if en_passant_pos.rank != passed_rank {
                return None;
            }

            Some(MoveInfo {
                mv: Move {
                    source: Position { rank: source_rank, file: en_passant_pos.file },
                    target: Position { rank: target_rank, file: en_passant_pos.file },
                },
                info: MoveExtraInfo::EnPassant,
            })
        } else {
            None
        };

        let info = GameInfo {
            white_kingside_castling_allowed: contains_char(&fen[2], 'K'),
            white_queenside_castling_allowed: contains_char(&fen[2], 'Q'),
            black_kingside_castling_allowed: contains_char(&fen[2], 'k'),
            black_queenside_castling_allowed: contains_char(&fen[2], 'q'),
        };

        let game = GameState::with_data(board, GameMobilityData { player, last_move, info, hash: None });
        proof {
            let squares = fen_board(fields[0]).unwrap();
            assert forall|i: int| 0 <= i < 64 implies #[trigger] game@.squares[i] == squares[i] by {
                lemma_position_index(i);
            }
            assert(game@.squares =~= squares);
        }
        Some(game)
    }
}

/// One character of the placement scan of `fen_scan`.
pub open spec fn scan_step(s: FenScan, c: char) -> FenScan {
    if !s.ok {
        s
    } else if c == '/' {
        FenScan { ranks: s.ranks.push(s.current), current: Seq::empty(), ok: true }
    } else if s.current.len() > 7 {
        FenScan { ok: false, ..s }
    } else {
        match digit_value(c) {
            Some(n) => FenScan { current: s.current + Seq::new(n, |i: int| None::<Piece>), ..s },
            None => match fen_piece(c) {
                Some(p) => FenScan { current: s.current.push(Some(p)), ..s },
                None => FenScan { ok: false, ..s },
            },
        }
    }
}

/// The placement scan continued from a state over more characters.
pub open spec fn scan_from(s: FenScan, cs: Seq<char>) -> FenScan
    decreases cs.len(),
{
    if cs.len() == 0 {
        s
    } else {
        scan_step(scan_from(s, cs.drop_last()), cs.last())
    }
}

/// The state before any character is scanned.
pub open spec fn scan_start() -> FenScan {
    FenScan { ranks: Seq::empty(), current: Seq::empty(), ok: true }
}

proof fn lemma_scan_from_start(cs: Seq<char>)
    ensures
        fen_scan(cs) == scan_from(scan_start(), cs),
    decreases cs.len(),
{
    if cs.len() > 0 {
        lemma_scan_from_start(cs.drop_last());
    }
}

proof fn lemma_scan_append(s: FenScan, a: Seq<char>, b: Seq<char>)
    ensures
        scan_from(s, a + b) == scan_from(scan_from(s, a), b),
    decreases b.len(),
{
    if b.len() == 0 {
        assert(a + b =~= a);
    } else {
        lemma_scan_append(s, a, b.drop_last());
        assert((a + b).drop_last() =~= a + b.drop_last());
        assert((a + b).last() == b.last());
    }
}

/// The squares of a rank, from the a-file up to (not including) file `f`.
pub open spec fn rank_squares(squares: Seq<Option<Piece>>, rank: int, f: int) -> Seq<Option<Piece>> {
    Seq::new(f as nat, |j: int| squares[rank * 8 + j])
}

/// The letter of a piece is no digit and no separator.
proof fn lemma_letter_not_digit(piece: Piece)
    ensures
        digit_value(fen_letter(piece)) is None,
        fen_letter(piece) != '/',
{
}

/// Scanning the FEN of a rank from file `f`, after `e` empty squares whose
/// count is still to be written, completes the rank.
proof fn lemma_scan_rank(squares: Seq<Option<Piece>>, rank: int, f: int, e: nat, s: FenScan)
    requires
        squares.len() == 64,
        0 <= rank < 8,
        e <= f <= 8,
        s.ok,
        s.current == rank_squares(squares, rank, f - e),
        forall|j: int| f - e <= j < f ==> (#[trigger] squares[rank * 8 + j]) is None,
    ensures
        scan_from(s, fen_rank_from(squares, rank, f, e)) == (FenScan { current: rank_squares(squares, rank, 8), ..s }),
    decreases 8 - f,
{
    let text = fen_rank_from(squares, rank, f, e);
    if f >= 8 {
        if e > 0 {
            assert(text.drop_last() =~= Seq::<char>::empty());
            assert(scan_from(s, text.drop_last()) == s);
            assert(digit_value(digit_char(e)) == Some(e));
            assert(scan_from(s, text) == scan_step(s, digit_char(e)));
            assert(s.current + Seq::new(e, |i: int| None::<Piece>) =~= rank_squares(squares, rank, 8));
        } else {
            assert(text =~= Seq::<char>::empty());
            assert(s.current =~= rank_squares(squares, rank, 8));
        }
    } else {
        match squares[rank * 8 + f] {
            None => {
                lemma_scan_rank(squares, rank, f + 1, e + 1, s);
                assert(text == fen_rank_from(squares, rank, f + 1, e + 1));
            },
            Some(piece) => {
                let d: Seq<char> = if e > 0 { seq![digit_char(e)] } else { Seq::empty() };
                let rest = fen_rank_from(squares, rank, f + 1, 0);
                assert(text == d + seq![fen_letter(piece)] + rest);
                lemma_scan_append(s, d + seq![fen_letter(piece)], rest);
                lemma_scan_append(s, d, seq![fen_letter(piece)]);
                let s1 = scan_from(s, d);
                assert(s1 == (FenScan { current: rank_squares(squares, rank, f), ..s })) by {
                    if e > 0 {
                        assert(d.drop_last() =~= Seq::<char>::empty());
                        assert(scan_from(s, d.drop_last()) == s);
                        assert(d.last() == digit_char(e));
                        assert(digit_value(digit_char(e)) == Some(e));
                        assert(s1 == scan_step(s, digit_char(e)));
                        assert(s.current + Seq::new(e, |i: int| None::<Piece>) =~= rank_squares(squares, rank, f));
                    } else {
                        assert(s.current =~= rank_squares(squares, rank, f));
                    }
                }
                let l = seq![fen_letter(piece)];
                assert(l.drop_last() =~= Seq::<char>::empty());
                lemma_letter_not_digit(piece);
                lemma_fen_letter(piece);
                let s2 = scan_from(s1, l);
                assert(scan_from(s1, l.drop_last()) == s1);
                assert(s2 == scan_step(s1, fen_letter(piece)));
                assert(s2 == (FenScan { current: rank_squares(squares, rank, f + 1), ..s })) by {
                    assert(rank_squares(squares, rank, f).push(Some(piece)) =~= rank_squares(squares, rank, f + 1));
                }
                lemma_scan_rank(squares, rank, f + 1, 0, s2);
                assert(scan_from(s, d + l) == s2);
                assert(scan_from(s, text) == scan_from(s2, rest));
            },
        }
    }
}

/// Scanning the FEN of the ranks from `rank` down to the first completes
/// them one after another.
proof fn lemma_scan_ranks(squares: Seq<Option<Piece>>, rank: int, s: FenScan)
    requires
        squares.len() == 64,
        0 <= rank < 8,
        s.ok,
        s.current.len() == 0,
    ensures
        scan_from(s, fen_ranks_from(squares, rank)) == (FenScan {
            ranks: s.ranks + Seq::new(rank as nat, |k: int| rank_squares(squares, rank - k, 8)),
            current: rank_squares(squares, 0, 8),
            ok: true,
        }),
    decreases rank,
{
    assert(s.current =~= rank_squares(squares, rank, 0));
    if rank <= 0 {
        lemma_scan_rank(squares, 0, 0, 0, s);
        assert(s.ranks + Seq::new(0, |k: int| rank_squares(squares, rank - k, 8)) =~= s.ranks);
    } else {
        let text = fen_rank_from(squares, rank, 0, 0);
        let rest = fen_ranks_from(squares, rank - 1);
        let sep = seq!['/'];
        assert(fen_ranks_from(squares, rank) == text + sep + rest);
        lemma_scan_append(s, text + sep, rest);
        lemma_scan_append(s, text, sep);
        lemma_scan_rank(squares, rank, 0, 0, s);
        let s1 = scan_from(s, text);
        assert(sep.drop_last() =~= Seq::<char>::empty());
        assert(scan_from(s1, sep.drop_last()) == s1);
        let s2 = scan_from(s1, sep);
        assert(s2 == scan_step(s1, '/'));
        lemma_scan_ranks(squares, rank - 1, s2);
        assert(s2.ranks + Seq::new((rank - 1) as nat, |k: int| rank_squares(squares, rank - 1 - k, 8))
            =~= s.ranks + Seq::new(rank as nat, |k: int| rank_squares(squares, rank - k, 8)));
    }
}

/// The FEN placement of 64 squares reads back as those squares.
pub proof fn lemma_placement_roundtrip(squares: Seq<Option<Piece>>)
    requires
        squares.len() == 64,
    ensures
        fen_board(fen_placement(squares)) == Some(squares),
{
    lemma_scan_from_start(fen_placement(squares));
    lemma_scan_ranks(squares, 7, scan_start());
    let sc = fen_scan(fen_placement(squares));
    let ranks = sc.ranks.push(sc.current);
    assert(ranks =~= Seq::new(8, |k: int| rank_squares(squares, 7 - k, 8)));
    assert forall|k: int| 0 <= k < 8 implies (#[trigger] ranks[k]).len() == 8 by {
    }
    assert forall|i: int| 0 <= i < 64 implies #[trigger] squares[i] == ranks[7 - i / 8][i % 8] by {
        lemma_position_index(i);
    }
    assert(Seq::new(64, |i: int| ranks[7 - i / 8][i % 8]) =~= squares);
}

/// The castling field reads back as the castling rights it lists.
proof fn lemma_castling_roundtrip(info: GameInfo)
    ensures
        fen_castling(fen_castling_field(info)) == info,
{
    let a: Seq<char> = if info.white_kingside_castling_allowed { seq!['K'] } else { Seq::empty() };
    let b: Seq<char> = if info.white_queenside_castling_allowed { seq!['Q'] } else { Seq::empty() };
    let c: Seq<char> = if info.black_kingside_castling_allowed { seq!['k'] } else { Seq::empty() };
    let d: Seq<char> = if info.black_queenside_castling_allowed { seq!['q'] } else { Seq::empty() };
    let s = a + b + c + d;
    let field = fen_castling_field(info);
    assert forall|x: char| x == 'K' || x == 'Q' || x == 'k' || x == 'q' implies
        (field.contains(x) <==> (s.len() > 0 && s.contains(x))) by {
        if s.len() == 0 {
            assert(field =~= seq!['-']);
            if field.contains(x) {
                let i = choose|i: int| 0 <= i < field.len() && field[i] == x;
                assert(field[0] == '-');
            }
        }
    }
    assert(s.contains('K') <==> info.white_kingside_castling_allowed) by {
        if info.white_kingside_castling_allowed {
            assert(s[0] == 'K');
        }
    }
    assert(s.contains('Q') <==> info.white_queenside_castling_allowed) by {
        if info.white_queenside_castling_allowed {
            assert(s[a.len() as int] == 'Q');
        }
    }
    assert(s.contains('k') <==> info.black_kingside_castling_allowed) by {
        if info.black_kingside_castling_allowed {
            assert(s[(a.len() + b.len()) as int] == 'k');
        }
    }
    assert(s.contains('q') <==> info.black_queenside_castling_allowed) by {
        if info.black_queenside_castling_allowed {
            assert(s[(a.len() + b.len() + c.len()) as int] == 'q');
        }
    }
}

/// A last move that the en passant field records as it is: none, or the
/// pass of the other player's pawn in the form a FEN record reads back.
pub open spec fn fen_recordable(player: Player, last_move: Option<MoveInfo>) -> bool {
    match last_move {
        None => true,
        Some(lm) => {
            let (source_rank, passed_rank, target_rank) = pass_ranks(opponent(player));
            &&& lm.info == MoveExtraInfo::EnPassant
            &&& lm.mv.target.file < 8
            &&& lm.mv.source == Position { rank: source_rank, file: lm.mv.target.file }
            &&& lm.mv.target == Position { rank: target_rank, file: lm.mv.target.file }
        },
    }
}

/// The six fields of the FEN record of a game.
pub open spec fn fen_fields(g: GameView) -> Seq<Seq<char>> {
    seq![
        fen_placement(g.squares),
        if g.player == Player::White { seq!['w'] } else { seq!['b'] },
        fen_castling_field(g.info),
        fen_en_passant_field(g.player, g.last_move),
        seq!['0'],
        seq!['1'],
    ]
}

/// The FEN record of a game is its six fields separated by spaces, and
/// those fields read back as the game, when its last move is recorded as it
/// is (no last move, or a pass read from a FEN record).
pub proof fn lemma_fen_roundtrip(g: GameView)
    requires
        g.squares.len() == 64,
        fen_recordable(g.player, g.last_move),
    ensures
        ({
            let f = fen_fields(g);
            spec_fen(g) == f[0] + seq![' '] + f[1] + seq![' '] + f[2] + seq![' '] + f[3] + seq![' '] + f[4] + seq![' '] + f[5]
        }),
        fen_game(fen_fields(g)) == Some(g),
{
    let f = fen_fields(g);
    assert(spec_fen(g) =~= f[0] + seq![' '] + f[1] + seq![' '] + f[2] + seq![' '] + f[3] + seq![' '] + f[4] + seq![' '] + f[5]);
    lemma_placement_roundtrip(g.squares);
    lemma_castling_roundtrip(g.info);
    assert(fen_player(f[1]) == Some(g.player)) by {
        if g.player == Player::Black {
            assert(f[1][0] != seq!['w'][0]);
        }
    }
    match g.last_move {
        None => {
            assert(fen_last_move(g.player, f[3]) == Some(None::<MoveInfo>));
        },
        Some(lm) => {
            let target = lm.mv.target;
            let rank: int = if g.player == Player::White { target.rank + 1 } else { target.rank - 1 };
            let named = Position { rank: rank as usize, file: target.file };
            assert(valid_position(named));
            assert(f[3] == position_name(named));
            lemma_position_name_parses(named);
            assert(fen_last_move(g.player, f[3]) == Some(Some(lm)));
        },
    }
}

} // verus!
