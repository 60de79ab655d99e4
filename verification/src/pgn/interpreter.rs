//! Replays the games read from a PGN file: each move, given by its name in
//! standard algebraic notation, is found among the legal moves, made, and
//! described in long algebraic form with its kind and check; the result
//! tag gives the ending.

use super::lexer::Color;
use super::parser::{Tag, PgnView, PGN};
use crate::board::{position_name, position_name_chars, valid_position, Piece, PieceType, Position, SimpleBoard};
use crate::eval::{both_kings, lemma_initial_both_kings, move_allowed, name_step_ok, spec_move_name, MoveNameError};
use crate::game::{ascii_lowercase, initial_view, spec_ascii_lowercase, stored_fn, MoveAction, SimpleGame, ZobristKeys};
use crate::rules::{all_legal_moves, move_kind, moved_game, sq_at, GameView};
use crate::text::{chars_eq, ends_with, ends_with_chars, find_char, first_index, has_char, str_chars, string_from_chars};
use vstd::prelude::*;

verus! {

/// The piece a pawn is promoted to.
#[derive(Copy, Clone, Debug, PartialEq, Eq, Structural)]
pub enum PromotionPieces {
    Knight,
    Bishop,
    Rook,
    Queen,
}

/// What kind of move a move is.
#[derive(Copy, Clone, Debug, PartialEq, Eq, Structural)]
pub enum MoveType {
    Normal,
    Capture,
    PassingPawn,
    EnPassant,
    Promotion(PromotionPieces),
    PromotionWithCapture(PromotionPieces),
    KingsideCastling,
    QueensideCastling,
}

/// Whether a move gives check or mate.
#[derive(Copy, Clone, Debug, PartialEq, Eq, Structural)]
pub enum CheckType {
    Check,
    Checkmate,
    Stalemate,
}

/// A move with its names and kind.
pub struct DetailedMoveInfo {
    pub mv: MoveAction,
    /// The name in standard algebraic notation.
    pub short: String,
    /// The name in long algebraic notation.
    pub long: String,
    pub move_type: MoveType,
    pub check_type: Option<CheckType>,
}

/// A move of White and the reply of Black, if any.
pub struct DetailedMove {
    pub white: DetailedMoveInfo,
    pub black: Option<DetailedMoveInfo>,
}

/// How a game ended.
#[derive(Copy, Clone, Debug, PartialEq, Eq, Structural)]
pub enum GameEnding {
    Draw,
    Stalemate,
    WhiteWinsCheckmate,
    BlackWinsCheckmate,
    WhiteResigned,
    BlackResigned,
}

impl Default for GameEnding {
    fn default() -> (ending: Self)
        ensures
            ending == GameEnding::Draw,
    {
        GameEnding::Draw
    }
}

/// A replayed game.
pub struct DetailedGame {
    pub tags: Vec<Tag>,
    pub moves: Vec<DetailedMove>,
    pub ending: GameEnding,
}

/// Why a game cannot be replayed.
#[derive(Copy, Clone, Debug, PartialEq, Eq, Structural)]
pub enum ConvertError {
    /// A player has no king.
    NoKing,
    /// The move of this index (from 0) and color is no legal move.
    IllegalMove(usize, Color),
    /// A legal move has no name.
    UnnamedMove,
    /// A promotion names no piece.
    UnknownPromotion,
    /// The moved piece is not on its square.
    SourceSquareEmpty,
    /// The result is none of `1-0`, `0-1` and `1/2-1/2`.
    UnexpectedEnding,
}

/// A detailed move as values.
pub struct DetailedInfoView {
    pub mv: MoveAction,
    pub short: Seq<char>,
    pub long: Seq<char>,
    pub move_type: MoveType,
    pub check_type: Option<CheckType>,
}

impl View for DetailedMoveInfo {
    type V = DetailedInfoView;

    open spec fn view(&self) -> DetailedInfoView {
        DetailedInfoView {
            mv: self.mv,
            short: self.short@,
            long: self.long@,
            move_type: self.move_type,
            check_type: self.check_type,
        }
    }
}

/// A move pair as values.
pub struct DetailedMoveView {
    pub white: DetailedInfoView,
    pub black: Option<DetailedInfoView>,
}

impl View for DetailedMove {
    type V = DetailedMoveView;

    open spec fn view(&self) -> DetailedMoveView {
        DetailedMoveView {
            white: self.white@,
            black: match self.black {
                Some(b) => Some(b@),
                None => None,
            },
        }
    }
}

/// A replayed game as values.
pub struct DetailedGameView {
    pub tags: Seq<(Seq<char>, Seq<char>)>,
    pub moves: Seq<DetailedMoveView>,
    pub ending: GameEnding,
}

impl View for DetailedGame {
    type V = DetailedGameView;

    open spec fn view(&self) -> DetailedGameView {
        DetailedGameView {
            tags: self.tags@.map_values(|t: Tag| t@),
            moves: self.moves@.map_values(|m: DetailedMove| m@),
            ending: self.ending,
        }
    }
}

/// A move in long algebraic notation: source, `x` for a capture or `-`,
/// target.
pub open spec fn long_text(source: Position, target: Position, capture: bool) -> Seq<char> {
    position_name(source) + seq![if capture { 'x' } else { '-' }] + position_name(target)
}

/// The promotion piece of a letter.
pub open spec fn promotion_of(c: char) -> Option<PromotionPieces> {
    if c == 'N' {
        Some(PromotionPieces::Knight)
    } else if c == 'B' {
        Some(PromotionPieces::Bishop)
    } else if c == 'R' {
        Some(PromotionPieces::Rook)
    } else if c == 'Q' {
        Some(PromotionPieces::Queen)
    } else {
        None
    }
}

/// The check a name announces.
pub open spec fn check_of(name: Seq<char>) -> Option<CheckType> {
    if name.contains('#') {
        Some(CheckType::Checkmate)
    } else if name.contains('+') {
        Some(CheckType::Check)
    } else {
        None
    }
}

/// The difference of two indices.
pub open spec fn distance(a: usize, b: usize) -> int {
    if a >= b { a - b } else { b - a }
}

/// The details of a move of `g` whose name is `name`.
pub open spec fn move_detail(g: GameView, m: MoveAction, name: Seq<char>) -> Result<DetailedInfoView, ConvertError> {
    let check = check_of(name);
    let capture = name.contains('x');
    let long = long_text(m.mv.source, m.mv.target, capture);
    match first_index(name, '=', 0) {
        Some(i) if i + 1 < name.len() => match promotion_of(name[i + 1]) {
            Some(p) => Ok(DetailedInfoView {
                mv: m,
                short: name,
                long: long + seq![spec_ascii_lowercase(name[i + 1])],
                move_type: if capture { MoveType::PromotionWithCapture(p) } else { MoveType::Promotion(p) },
                check_type: check,
            }),
            None => Err(ConvertError::UnknownPromotion),
        },
        _ => match sq_at(g.squares, m.mv.source) {
            None => Err(ConvertError::SourceSquareEmpty),
            Some(piece) => {
                let pawn = piece.piece == PieceType::Pawn;
                let move_type = if pawn && distance(m.mv.source.rank, m.mv.target.rank) == 2 {
                    MoveType::PassingPawn
                } else if pawn && sq_at(g.squares, m.mv.target) is None && distance(m.mv.source.file, m.mv.target.file) == 1 {
                    MoveType::EnPassant
                } else if name == seq!['O', '-', 'O'] {
                    MoveType::KingsideCastling
                } else if name == seq!['O', '-', 'O', '-', 'O'] {
                    MoveType::QueensideCastling
                } else if capture {
                    MoveType::Capture
                } else {
                    MoveType::Normal
                };
                Ok(DetailedInfoView { mv: m, short: name, long, move_type, check_type: check })
            },
        },
    }
}

/// The long form of a move is its source square, then `x` exactly when its
/// short name has an `x` (a capture) and `-` otherwise, then its target
/// square, and at most one more letter (the piece of a promotion).
pub proof fn lemma_long_form(g: GameView, m: MoveAction, name: Seq<char>)
    requires
        move_detail(g, m, name) is Ok,
    ensures
        ({
            let long = move_detail(g, m, name).unwrap().long;
            &&& long.len() == 5 || long.len() == 6
            &&& long.subrange(0, 2) == position_name(m.mv.source)
            &&& long.subrange(3, 5) == position_name(m.mv.target)
            &&& long[2] == 'x' || long[2] == '-'
            &&& (long[2] == 'x') <==> name.contains('x')
        }),
{
    let base = long_text(m.mv.source, m.mv.target, name.contains('x'));
    assert(base.len() == 5);
    assert(base.subrange(0, 2) =~= position_name(m.mv.source));
    assert(base.subrange(3, 5) =~= position_name(m.mv.target));
    let long = move_detail(g, m, name).unwrap().long;
    if long.len() != 5 {
        let c = long[5];
        assert(long =~= base + seq![c]);
        assert(long.subrange(0, 2) =~= base.subrange(0, 2));
        assert(long.subrange(3, 5) =~= base.subrange(3, 5));
    } else {
        assert(long == base);
    }
}

/// The type of a move agrees with its name: a capture, with or without
/// promotion, has an `x` in its name, and a plain move or a promotion
/// without capture has none; a promotion is to the piece whose letter
/// follows the `=`.
pub proof fn lemma_move_type_marks(g: GameView, m: MoveAction, name: Seq<char>)
    requires
        move_detail(g, m, name) is Ok,
    ensures
        ({
            let t = move_detail(g, m, name).unwrap().move_type;
            &&& (t is Capture || t is PromotionWithCapture) ==> name.contains('x')
            &&& (t is Normal || t is Promotion) ==> !name.contains('x')
            &&& t matches MoveType::Promotion(p) ==>
                exists|i: int| 0 <= i < name.len() - 1 && name[i] == '=' && #[trigger] promotion_of(name[i + 1]) == Some(p)
            &&& t matches MoveType::PromotionWithCapture(p) ==>
                exists|i: int| 0 <= i < name.len() - 1 && name[i] == '=' && #[trigger] promotion_of(name[i + 1]) == Some(p)
        }),
{
    let t = move_detail(g, m, name).unwrap().move_type;
    match first_index(name, '=', 0) {
        Some(i) => {
            crate::text::lemma_first_index(name, '=', 0);
            if i + 1 < name.len() && promotion_of(name[i + 1]) is Some {
                assert(name[i] == '=' && promotion_of(name[i + 1]) == promotion_of(name[i + 1]));
            }
        },
        None => {},
    }
    if name.contains('x') {
        let j = choose|j: int| 0 <= j < name.len() && name[j] == 'x';
    }
}

/// How a game ends agrees with its result: white wins (by mate, or by
/// black's resignation) exactly when the result is `1-0`, black exactly
/// when it is `0-1`, and a drawn game is a stalemate exactly when its last
/// position leaves no legal move; a win is by mate exactly when the last
/// move announces it.
pub proof fn lemma_ending_agrees(result: Seq<char>, checkmate: bool, last: GameView)
    requires
        ending_of(result, checkmate, last) is Ok,
    ensures
        ({
            let e = ending_of(result, checkmate, last).unwrap();
            &&& (e is WhiteWinsCheckmate || e is BlackResigned) <==> ends_with(result, seq!['1', '-', '0'])
            &&& (e is BlackWinsCheckmate || e is WhiteResigned) ==> ends_with(result, seq!['0', '-', '1'])
            &&& e is Stalemate ==> all_legal_moves(last, stored_fn::<SimpleBoard>()).len() == 0
            &&& e is Draw ==> all_legal_moves(last, stored_fn::<SimpleBoard>()).len() > 0
            &&& (e is WhiteWinsCheckmate || e is BlackWinsCheckmate) <==> (checkmate && !(e is Draw || e is Stalemate))
        }),
{
}

/// The outcome of looking a name up among moves.
pub enum Lookup {
    Found(MoveAction),
    /// No move has the name.
    Missing,
    /// A move before the one named has no name.
    Unnamed,
}

/// The first of `moves` from `k` on whose name is `name`.
pub open spec fn find_named(g: GameView, moves: Seq<MoveAction>, name: Seq<char>, k: int) -> Lookup
    decreases moves.len() - k,
{
    if k < 0 || k >= moves.len() {
        Lookup::Missing
    } else if !name_step_ok(g, moves[k]) {
        Lookup::Unnamed
    } else {
        match spec_move_name(g, moves[k], stored_fn::<SimpleBoard>()) {
            Err(_) => Lookup::Unnamed,
            Ok(n) => if n == name {
                Lookup::Found(moves[k])
            } else {
                find_named(g, moves, name, k + 1)
            },
        }
    }
}

/// The game after a legal move.
pub open spec fn after(g: GameView, m: MoveAction) -> GameView {
    moved_game(g, m, move_kind(g.squares, m).unwrap(), stored_fn::<SimpleBoard>())
}

/// The move of `g` named `name` (the move of this index and color), made:
/// the game after it and its details.
pub open spec fn play_named(g: GameView, name: Seq<char>, index: int, color: Color) -> Result<(GameView, DetailedInfoView), ConvertError> {
    if !both_kings(g) {
        Err(ConvertError::NoKing)
    } else {
        match find_named(g, all_legal_moves(g, stored_fn::<SimpleBoard>()), name, 0) {
            Lookup::Missing => Err(ConvertError::IllegalMove(index as usize, color)),
            Lookup::Unnamed => Err(ConvertError::UnnamedMove),
            Lookup::Found(m) => match move_detail(g, m, name) {
                Ok(info) => Ok((after(g, m), info)),
                Err(e) => Err(e),
            },
        }
    }
}

/// The moves of a game replayed from `g`: the game they lead to, their
/// details, and whether the last name announces mate.
pub open spec fn convert_moves(g: GameView, moves: Seq<(Seq<char>, Option<Seq<char>>)>) -> Result<(GameView, Seq<DetailedMoveView>, bool), ConvertError>
    decreases moves.len(),
{
    if moves.len() == 0 {
        Ok((g, Seq::empty(), false))
    } else {
        match convert_moves(g, moves.drop_last()) {
            Err(e) => Err(e),
            Ok((h, done, _)) => {
                let (white, black) = moves.last();
                let index = moves.len() - 1;
                match play_named(h, white, index, Color::White) {
                    Err(e) => Err(e),
                    Ok((h1, wi)) => match black {
                        None => Ok((h1, done.push(DetailedMoveView { white: wi, black: None }), white.contains('#'))),
                        Some(b) => match play_named(h1, b, index, Color::Black) {
                            Err(e) => Err(e),
                            Ok((h2, bi)) => Ok((h2, done.push(DetailedMoveView { white: wi, black: Some(bi) }), b.contains('#'))),
                        },
                    },
                }
            },
        }
    }
}

/// How a game ends, from its result tag, whether its last move announces
/// mate, and its last position.
pub open spec fn ending_of(result: Seq<char>, checkmate: bool, last: GameView) -> Result<GameEnding, ConvertError> {
    if ends_with(result, seq!['1', '-', '0']) {
        Ok(if checkmate { GameEnding::WhiteWinsCheckmate } else { GameEnding::BlackResigned })
    } else if ends_with(result, seq!['0', '-', '1']) {
        Ok(if checkmate { GameEnding::BlackWinsCheckmate } else { GameEnding::WhiteResigned })
    } else if ends_with(result, seq!['1', '/', '2', '-', '1', '/', '2']) {
        Ok(if all_legal_moves(last, stored_fn::<SimpleBoard>()).len() == 0 { GameEnding::Stalemate } else { GameEnding::Draw })
    } else {
        Err(ConvertError::UnexpectedEnding)
    }
}

/// A game replayed from the initial position.
pub open spec fn convert_game(pgn: PgnView) -> Result<DetailedGameView, ConvertError> {
    match convert_moves(initial_view(), pgn.moves) {
        Err(e) => Err(e),
        Ok((last, moves, checkmate)) => match ending_of(pgn.result, checkmate, last) {
            Err(e) => Err(e),
            Ok(ending) => Ok(DetailedGameView { tags: pgn.tags, moves, ending }),
        },
    }
}

proof fn lemma_first_index(cs: Seq<char>, c: char, k: int)
    requires
        0 <= k,
    ensures
        first_index(cs, c, k) matches Some(i) ==> k <= i < cs.len() && cs[i] == c,
    decreases cs.len() - k,
{
    if k < cs.len() && cs[k] != c {
        lemma_first_index(cs, c, k + 1);
    }
}

/// How a move kind is described; a normal move is not.
pub open spec fn move_type_description(t: MoveType) -> Option<&'static str> {
    match t {
        MoveType::Normal => None,
        MoveType::Capture => Some("capture"),
        MoveType::PassingPawn => Some("passing pawn"),
        MoveType::EnPassant => Some("en passant"),
        MoveType::Promotion(piece) => Some(match piece {
            PromotionPieces::Knight => "promotion to knight",
            PromotionPieces::Bishop => "promotion to bishop",
            PromotionPieces::Rook => "promotion to rook",
            PromotionPieces::Queen => "promotion to queen",
        }),
        MoveType::PromotionWithCapture(piece) => Some(match piece {
            PromotionPieces::Knight => "promotion to knight with capture",
            PromotionPieces::Bishop => "promotion to bishop with capture",
            PromotionPieces::Rook => "promotion to rook with capture",
            PromotionPieces::Queen => "promotion to queen with capture",
        }),
        MoveType::KingsideCastling => Some("kingside castling"),
        MoveType::QueensideCastling => Some("queenside castling"),
    }
}

/// How a move kind is described in a game's description; `None` for a
/// normal move.
pub fn move_type_text(t: MoveType) -> (text: Option<&'static str>)
    ensures
        text == move_type_description(t),
{
    match t {
        MoveType::Normal => None,
        MoveType::Capture => Some("capture"),
        MoveType::PassingPawn => Some("passing pawn"),
        MoveType::EnPassant => Some("en passant"),
        MoveType::Promotion(piece) => Some(match piece {
            PromotionPieces::Knight => "promotion to knight",
            PromotionPieces::Bishop => "promotion to bishop",
            PromotionPieces::Rook => "promotion to rook",
            PromotionPieces::Queen => "promotion to queen",
        }),
        MoveType::PromotionWithCapture(piece) => Some(match piece {
            PromotionPieces::Knight => "promotion to knight with capture",
            PromotionPieces::Bishop => "promotion to bishop with capture",
            PromotionPieces::Rook => "promotion to rook with capture",
            PromotionPieces::Queen => "promotion to queen with capture",
        }),
        MoveType::KingsideCastling => Some("kingside castling"),
        MoveType::QueensideCastling => Some("queenside castling"),
    }
}

/// The result and the reason of an ending.
pub open spec fn ending_description(ending: GameEnding) -> (&'static str, &'static str) {
    match ending {
        GameEnding::Draw => ("1/2-1/2", "draw"),
        GameEnding::Stalemate => ("1/2-1/2", "stalemate"),
        GameEnding::WhiteWinsCheckmate => ("1-0", "checkmate"),
        GameEnding::BlackWinsCheckmate => ("0-1", "checkmate"),
        GameEnding::WhiteResigned => ("0-1", "resignation"),
        GameEnding::BlackResigned => ("1-0", "resignation"),
    }
}

/// The result and the reason of an ending, as a game's description gives
/// them.
pub fn ending_text(ending: GameEnding) -> (text: (&'static str, &'static str))
    ensures
        text == ending_description(ending),
{
    match ending {
        GameEnding::Draw => ("1/2-1/2", "draw"),
        GameEnding::Stalemate => ("1/2-1/2", "stalemate"),
        GameEnding::WhiteWinsCheckmate => ("1-0", "checkmate"),
        GameEnding::BlackWinsCheckmate => ("0-1", "checkmate"),
        GameEnding::WhiteResigned => ("0-1", "resignation"),
        GameEnding::BlackResigned => ("1-0", "resignation"),
    }
}

/// How a check is described.
pub open spec fn check_description(check: CheckType) -> &'static str {
    match check {
        CheckType::Check => "check",
        CheckType::Checkmate => "checkmate",
        CheckType::Stalemate => "stalemate",
    }
}

/// How a check is described in a game's description.
pub fn check_text(check: CheckType) -> (text: &'static str)
    ensures
        text == check_description(check),
{
    match check {
        CheckType::Check => "check",
        CheckType::Checkmate => "checkmate",
        CheckType::Stalemate => "stalemate",
    }
}

/// A move in long algebraic notation.
fn long(source: Position, target: Position, capture: bool) -> (text: Vec<char>)
    requires
        valid_position(source),
        valid_position(target),
    ensures
        text@ == long_text(source, target, capture),
{
    let (a, b) = position_name_chars(&source);
    let (c, d) = position_name_chars(&target);
    let mut text: Vec<char> = Vec::new();
    text.push(a);
    text.push(b);
    text.push(if capture { 'x' } else { '-' });
    text.push(c);
    text.push(d);
    assert(text@ =~= long_text(source, target, capture));
    text
}

fn promotion_of_exec(c: char) -> (p: Option<PromotionPieces>)
    ensures
        p == promotion_of(c),
{
    if c == 'N' {
        Some(PromotionPieces::Knight)
    } else if c == 'B' {
        Some(PromotionPieces::Bishop)
    } else if c == 'R' {
        Some(PromotionPieces::Rook)
    } else if c == 'Q' {
        Some(PromotionPieces::Queen)
    } else {
        None
    }
}

fn abs_diff(a: usize, b: usize) -> (d: usize)
    ensures
        d == distance(a, b),
{
    if a >= b { a - b } else { b - a }
}

/// The details of a move whose name is `name`.
fn detail(game: &SimpleGame, m: MoveAction, name: &Vec<char>) -> (info: Result<DetailedMoveInfo, ConvertError>)
    requires
        valid_position(m.mv.source),
        valid_position(m.mv.target),
        game@.squares.len() == 64,
    ensures
        match move_detail(game@, m, name@) {
            Ok(v) => info matches Ok(i) && i@ == v,
            Err(e) => info matches Err(e2) && e2 == e,
        },
{
    proof {
        reveal_strlit("O-O");
        reveal_strlit("O-O-O");
        assert("O-O"@ =~= seq!['O', '-', 'O']);
        assert("O-O-O"@ =~= seq!['O', '-', 'O', '-', 'O']);
    }
    let check_type = if has_char(name, '#') {
        Some(CheckType::Checkmate)
    } else if has_char(name, '+') {
        Some(CheckType::Check)
    } else {
        None
    };
    let capture = has_char(name, 'x');
    let mut long_chars = long(m.mv.source, m.mv.target, capture);
    match find_char(name, '=') {
        Some(i) => {
            proof {
                lemma_first_index(name@, '=', 0);
            }
            if name.len() - i > 1 {
                let c = name[i + 1];
                match promotion_of_exec(c) {
                    Some(p) => {
                        let ghost before = long_chars@;
                        long_chars.push(ascii_lowercase(c));
                        assert(long_chars@ =~= before + seq![spec_ascii_lowercase(name@[i + 1])]);
                        return Ok(DetailedMoveInfo {
                            mv: m,
                            short: string_from_chars(name),
                            long: string_from_chars(&long_chars),
                            move_type: if capture { MoveType::PromotionWithCapture(p) } else { MoveType::Promotion(p) },
                            check_type,
                        });
                    },
                    None => {
                        return Err(ConvertError::UnknownPromotion);
                    },
                }
            }
        },
        None => {},
    }
    let piece = match crate::eval::square(game, &m.mv.source) {
        Some(piece) => piece,
        None => {
            return Err(ConvertError::SourceSquareEmpty);
        },
    };
    let target_empty = crate::eval::square(game, &m.mv.target).is_none();
    let pawn = piece.piece == PieceType::Pawn;
    let castle_short = str_chars("O-O");
    let castle_long = str_chars("O-O-O");
    let move_type = if pawn && abs_diff(m.mv.source.rank, m.mv.target.rank) == 2 {
        MoveType::PassingPawn
    } else if pawn && target_empty && abs_diff(m.mv.source.file, m.mv.target.file) == 1 {
        MoveType::EnPassant
    } else if chars_eq(name, &castle_short) {
        MoveType::KingsideCastling
    } else if chars_eq(name, &castle_long) {
        MoveType::QueensideCastling
    } else if capture {
        MoveType::Capture
    } else {
        MoveType::Normal
    };
    Ok(DetailedMoveInfo {
        mv: m,
        short: string_from_chars(name),
        long: string_from_chars(&long_chars),
        move_type,
        check_type,
    })
}

/// Whether the name of a move can be asked for (`name_step_ok`), in a game
/// with both kings.
fn nameable(game: &SimpleGame, m: &MoveAction) -> (ok: bool)
    requires
        both_kings(game@),
    ensures
        ok == name_step_ok(game@, *m),
{
    if m.mv.source.rank >= 8 || m.mv.source.file >= 8 || m.mv.target.rank >= 8 || m.mv.target.file >= 8 {
        return false;
    }
    match crate::eval::square(game, &m.mv.source) {
        Some(piece) => !(piece.piece == PieceType::King && abs_diff(m.mv.source.file, m.mv.target.file) == 2
            && m.mv.target.file != 2 && m.mv.target.file != 6),
        None => true,
    }
}

/// Finds the legal move named `move_str` (the move of this index and
/// color) and describes it.
fn find_move_by_name(game: &SimpleGame, move_str: &Vec<char>, keys: &ZobristKeys, index: usize, color: Color) -> (result: Result<DetailedMoveInfo, ConvertError>)
    requires
        keys.wf(),
    ensures
        match play_named(game@, move_str@, index as int, color) {
            Ok((_, info)) => result matches Ok(i) && i@ == info,
            Err(e) => result matches Err(e2) && e2 == e,
        },
{
    proof {
        game.lemma_len();
    }
    if !game.has_both_kings() {
        return Err(ConvertError::NoKing);
    }
    let possible_moves = game.get_all_possible_moves();
    let ghost moves = possible_moves@;
    let mut i: usize = 0;
    while i < possible_moves.len()
        invariant
            i <= moves.len(),
            moves == possible_moves@,
            moves == all_legal_moves(game@, stored_fn::<SimpleBoard>()),
            both_kings(game@),
            keys.wf(),
            find_named(game@, moves, move_str@, 0) == find_named(game@, moves, move_str@, i as int),
        decreases moves.len() - i,
    {
        let m = possible_moves[i];
        if !nameable(game, &m) {
            return Err(ConvertError::UnnamedMove);
        }
        match game.move_name(&m, keys) {
            Err(_) => {
                return Err(ConvertError::UnnamedMove);
            },
            Ok(name) => {
                let name_chars = str_chars(name.as_str());
                if chars_eq(&name_chars, move_str) {
                    return detail(game, m, move_str);
                }
            },
        }
        i += 1;
    }
    Err(ConvertError::IllegalMove(index, color))
}

/// Whether the player to move has no legal move.
fn is_stalemate(game: &SimpleGame) -> (stalemate: bool)
    requires
        both_kings(game@),
    ensures
        stalemate == (all_legal_moves(game@, stored_fn::<SimpleBoard>()).len() == 0),
{
    game.get_all_possible_moves().len() == 0
}

/// Once a move cannot be replayed, the error stands whatever follows.
proof fn lemma_convert_stops(g: GameView, moves: Seq<(Seq<char>, Option<Seq<char>>)>, k: int)
    requires
        0 < k <= moves.len(),
        convert_moves(g, moves.take(k)) is Err,
    ensures
        convert_moves(g, moves) == convert_moves(g, moves.take(k)),
    decreases moves.len() - k,
{
    if k < moves.len() {
        assert(moves.take(k + 1).drop_last() =~= moves.take(k));
        lemma_convert_stops(g, moves, k + 1);
    } else {
        assert(moves.take(k) =~= moves);
    }
}

/// A named move is allowed, and the game after it has both kings.
proof fn lemma_named_move(g: GameView, m: MoveAction, name: Seq<char>)
    requires
        spec_move_name(g, m, stored_fn::<SimpleBoard>()) == Ok::<Seq<char>, MoveNameError>(name),
    ensures
        move_allowed(g, m, stored_fn::<SimpleBoard>()),
        both_kings(after(g, m)),
{
    reveal(spec_move_name);
}

/// Finds the move, makes it and describes it.
fn play_move(game: &mut SimpleGame, move_str: &Vec<char>, keys: &ZobristKeys, index: usize, color: Color) -> (result: Result<DetailedMoveInfo, ConvertError>)
    requires
        keys.wf(),
    ensures
        match play_named(old(game)@, move_str@, index as int, color) {
            Ok((g, info)) => result matches Ok(i) && i@ == info && final(game)@ == g && both_kings(g),
            Err(e) => result matches Err(e2) && e2 == e,
        },
{
    let info = match find_move_by_name(game, move_str, keys, index, color) {
        Ok(info) => info,
        Err(e) => {
            return Err(e);
        },
    };
    proof {
        let found = find_named(game@, all_legal_moves(game@, stored_fn::<SimpleBoard>()), move_str@, 0);
        lemma_found_named(game@, all_legal_moves(game@, stored_fn::<SimpleBoard>()), move_str@, 0);
        lemma_named_move(game@, info.mv, move_str@);
    }
    let made = game.do_move(&info.mv);
    Ok(info)
}

/// A move found by name has that name and can be named.
proof fn lemma_found_named(g: GameView, moves: Seq<MoveAction>, name: Seq<char>, k: int)
    requires
        find_named(g, moves, name, k) is Found,
    ensures
        name_step_ok(g, find_named(g, moves, name, k)->Found_0),
        spec_move_name(g, find_named(g, moves, name, k)->Found_0, stored_fn::<SimpleBoard>()) == Ok::<Seq<char>, MoveNameError>(name),
    decreases moves.len() - k,
{
    if 0 <= k < moves.len() && name_step_ok(g, moves[k]) {
        match spec_move_name(g, moves[k], stored_fn::<SimpleBoard>()) {
            Ok(n) => if n != name {
                lemma_found_named(g, moves, name, k + 1);
            },
            Err(_) => {},
        }
    }
}

/// Replays a game and describes its moves and its ending.
pub fn pgn_to_long_algebraic(pgn: &PGN) -> (result: Result<DetailedGame, ConvertError>)
    ensures
        match convert_game(pgn@) {
            Ok(v) => result matches Ok(d) && d@ == v,
            Err(e) => result matches Err(e2) && e2 == e,
        },
{
    let keys = ZobristKeys::new();
    let mut game = SimpleGame::new();
    proof {
        lemma_initial_both_kings();
    }
    let mut tags: Vec<Tag> = Vec::new();
    let mut k: usize = 0;
    while k < pgn.tags.len()
        invariant
            k <= pgn.tags@.len(),
            tags@.map_values(|t: Tag| t@) == pgn.tags@.take(k as int).map_values(|t: Tag| t@),
        decreases pgn.tags@.len() - k,
    {
        let ghost before = tags@;
        tags.push(pgn.tags[k].clone());
        proof {
            assert(pgn.tags@.take(k + 1) =~= pgn.tags@.take(k as int).push(pgn.tags@[k as int]));
            assert(tags@.map_values(|t: Tag| t@) =~= before.map_values(|t: Tag| t@).push(pgn.tags@[k as int]@));
            assert(pgn.tags@.take(k + 1).map_values(|t: Tag| t@) =~= pgn.tags@.take(k as int).map_values(|t: Tag| t@).push(pgn.tags@[k as int]@));
        }
        k += 1;
    }
    assert(pgn.tags@.take(pgn.tags@.len() as int) =~= pgn.tags@);
    let ghost pmoves = pgn@.moves;
    let mut moves: Vec<DetailedMove> = Vec::new();
    let mut checkmate = false;
    assert(pmoves.take(0) =~= Seq::<(Seq<char>, Option<Seq<char>>)>::empty());
    assert(moves@.map_values(|m: DetailedMove| m@) =~= Seq::<DetailedMoveView>::empty());
    let mut i: usize = 0;
    while i < pgn.moves.len()
        invariant
            i <= pgn.moves@.len(),
            pmoves == pgn@.moves,
            keys.wf(),
            both_kings(game@),
            convert_moves(initial_view(), pmoves.take(i as int)) == Ok::<(GameView, Seq<DetailedMoveView>, bool), ConvertError>(
                (game@, moves@.map_values(|m: DetailedMove| m@), checkmate),
            ),
        decreases pgn.moves@.len() - i,
    {
        let mv = &pgn.moves[i];
        proof {
            assert(pmoves.take(i + 1).drop_last() =~= pmoves.take(i as int));
            assert(pmoves.take(i + 1).last() == mv@);
        }
        let white = str_chars(mv.white.as_str());
        let white_info = match play_move(&mut game, &white, &keys, i, Color::White) {
            Ok(info) => info,
            Err(e) => {
                proof {
                    lemma_convert_stops(initial_view(), pmoves, i + 1);
                }
                return Err(e);
            },
        };
        checkmate = has_char(&white, '#');
        let ghost before = moves@.map_values(|m: DetailedMove| m@);
        match &mv.black {
            None => {
                moves.push(DetailedMove { white: white_info, black: None });
            },
            Some(black_str) => {
                let black = str_chars(black_str.as_str());
                let black_info = match play_move(&mut game, &black, &keys, i, Color::Black) {
                    Ok(info) => info,
                    Err(e) => {
                        proof {
                            lemma_convert_stops(initial_view(), pmoves, i + 1);
                        }
                        return Err(e);
                    },
                };
                moves.push(DetailedMove { white: white_info, black: Some(black_info) });
                checkmate = has_char(&black, '#');
            },
        }
        proof {
            assert(moves@.map_values(|m: DetailedMove| m@) =~= before.push(moves@.last()@));
        }
        i += 1;
    }
    assert(pmoves.take(pgn.moves@.len() as int) =~= pmoves);
    let result = str_chars(pgn.result.as_str());
    let white_wins = vec!['1', '-', '0'];
    let black_wins = vec!['0', '-', '1'];
    let draw = vec!['1', '/', '2', '-', '1', '/', '2'];
    assert(white_wins@ =~= seq!['1', '-', '0']);
    assert(black_wins@ =~= seq!['0', '-', '1']);
    assert(draw@ =~= seq!['1', '/', '2', '-', '1', '/', '2']);
    let ending = if ends_with_chars(&result, &white_wins) {
        if checkmate { GameEnding::WhiteWinsCheckmate } else { GameEnding::BlackResigned }
    } else if ends_with_chars(&result, &black_wins) {
        if checkmate { GameEnding::BlackWinsCheckmate } else { GameEnding::WhiteResigned }
    } else if ends_with_chars(&result, &draw) {
        if is_stalemate(&game) { GameEnding::Stalemate } else { GameEnding::Draw }
    } else {
        return Err(ConvertError::UnexpectedEnding);
    };
    Ok(DetailedGame { tags, moves, ending })
}

} // verus!
