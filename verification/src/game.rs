//! Moves, castling rights and the state of a game.

mod fen;
mod state;
mod tree;
mod zobrist;

pub use fen::{
    en_passant_nameable, fen_castling, fen_castling_field, fen_en_passant_field, fen_game, fen_last_move, fen_placement,
    fen_fields, fen_player, fen_rank_from, fen_ranks_from, fen_recordable, lemma_fen_roundtrip, lemma_placement_roundtrip,
    spec_fen,
};

pub use state::{abs_diff, game_hash, initial_view, move_error, stored_fn, CastlingRights, GameMobilityData, GameState, MoveError, SimpleGame};
pub use tree::{
    bad_castling, fen_only_first, named, nameable, node_matches, record_start, steps_from, AddNode, GameTree, NodeView,
    TreeNameError, TreeNode,
};
pub use zobrist::{GameHash, ZobristHash, ZobristKeys};

use crate::board::{parse_position, parse_position_chars, PieceType, Position};
use crate::text::str_chars;
use vstd::prelude::*;

verus! {

#[derive(Copy, Clone, Debug, PartialEq, Eq, Structural)]
pub struct Move {
    pub source: Position,
    pub target: Position,
}

#[derive(Copy, Clone, Debug, PartialEq, Eq, Structural)]
pub enum PromotionPieces {
    Knight,
    Bishop,
    Rook,
    Queen,
}

/// The piece type a pawn promotes to.
pub open spec fn promoted_type(p: PromotionPieces) -> PieceType {
    match p {
        PromotionPieces::Knight => PieceType::Knight,
        PromotionPieces::Bishop => PieceType::Bishop,
        PromotionPieces::Rook => PieceType::Rook,
        PromotionPieces::Queen => PieceType::Queen,
    }
}

impl PromotionPieces {
    /// The promotion piece named by a word ("knight", "bishop", "rook" or
    /// "queen", in any case).
    pub fn try_from_str(value: String) -> (piece: Option<Self>)
        ensures
            piece == promotion_from_word(value@),
    {
        let cs = str_chars(value.as_str());
        promotion_from_word_chars(&cs)
    }

    /// The promotion piece named by a letter ('n' for the knight, 'b', 'r'
    /// or 'q', as long algebraic notation writes it), in any case.
    pub fn try_from_char(value: char) -> (piece: Option<Self>)
        ensures
            piece == promotion_from_letter(value),
    {
        let c = ascii_lowercase(value);
        if c == 'n' {
            Some(PromotionPieces::Knight)
        } else if c == 'b' {
            Some(PromotionPieces::Bishop)
        } else if c == 'r' {
            Some(PromotionPieces::Rook)
        } else if c == 'q' {
            Some(PromotionPieces::Queen)
        } else {
            None
        }
    }

    /// The piece type of the promotion piece.
    pub fn piece_type(self) -> (piece: PieceType)
        ensures
            piece == promoted_type(self),
    {
        match self {
            PromotionPieces::Knight => PieceType::Knight,
            PromotionPieces::Bishop => PieceType::Bishop,
            PromotionPieces::Rook => PieceType::Rook,
            PromotionPieces::Queen => PieceType::Queen,
        }
    }
}

/// The lower-case form of an ASCII letter; other characters are unchanged.
pub open spec fn spec_ascii_lowercase(c: char) -> char {
    if 'A' <= c && c <= 'Z' {
        ((c as u32) + 32) as char
    } else {
        c
    }
}

pub fn ascii_lowercase(c: char) -> (lower: char)
    ensures
        lower == spec_ascii_lowercase(c),
{
    if 'A' <= c && c <= 'Z' {
        let code: u32 = (c as u32) + 32;
        assert(code < 0xD800);
        char_from_code(code)
    } else {
        c
    }
}

/// The character with a code below the surrogate range.
fn char_from_code(code: u32) -> (c: char)
    requires
        code < 0xD800,
    ensures
        c == code as char,
{
    let b: u8 = (code % 256) as u8;
    let hi = code / 256;
    if hi == 0 {
        (b as char)
    } else {
        char_from_code_wide(code)
    }
}

/// `char::from_u32` of std on a code below the surrogate range, which the
/// documentation states is always a valid character.
#[verifier::external_body]
fn char_from_code_wide(code: u32) -> (c: char)
    requires
        code < 0xD800,
    ensures
        c == code as char,
{
    char::from_u32(code).unwrap()
}

/// The promotion piece of a letter, in any case.
pub open spec fn promotion_from_letter(c: char) -> Option<PromotionPieces> {
    let l = spec_ascii_lowercase(c);
    if l == 'n' {
        Some(PromotionPieces::Knight)
    } else if l == 'b' {
        Some(PromotionPieces::Bishop)
    } else if l == 'r' {
        Some(PromotionPieces::Rook)
    } else if l == 'q' {
        Some(PromotionPieces::Queen)
    } else {
        None
    }
}

/// The promotion piece named by a word, in any case.
pub open spec fn promotion_from_word(cs: Seq<char>) -> Option<PromotionPieces> {
    let l = cs.map_values(|c: char| spec_ascii_lowercase(c));
    if l == seq!['k', 'n', 'i', 'g', 'h', 't'] {
        Some(PromotionPieces::Knight)
    } else if l == seq!['b', 'i', 's', 'h', 'o', 'p'] {
        Some(PromotionPieces::Bishop)
    } else if l == seq!['r', 'o', 'o', 'k'] {
        Some(PromotionPieces::Rook)
    } else if l == seq!['q', 'u', 'e', 'e', 'n'] {
        Some(PromotionPieces::Queen)
    } else {
        None
    }
}

fn lowercase_equals(cs: &Vec<char>, word: &[char]) -> (eq: bool)
    ensures
        eq == (cs@.map_values(|c: char| spec_ascii_lowercase(c)) == word@),
{
    if cs.len() != word.len() {
        return false;
    }
    let mut i: usize = 0;
    while i < cs.len()
        invariant
            i <= cs.len(),
            cs.len() == word@.len(),
            forall|j: int| 0 <= j < i ==> spec_ascii_lowercase(#[trigger] cs@[j]) == word@[j],
        decreases cs.len() - i,
    {
        if ascii_lowercase(cs[i]) != word[i] {
            assert(cs@.map_values(|c: char| spec_ascii_lowercase(c))[i as int] != word@[i as int]);
            return false;
        }
        i += 1;
    }
    assert(cs@.map_values(|c: char| spec_ascii_lowercase(c)) =~= word@);
    true
}

fn promotion_from_word_chars(cs: &Vec<char>) -> (piece: Option<PromotionPieces>)
    ensures
        piece == promotion_from_word(cs@),
{
    let knight = ['k', 'n', 'i', 'g', 'h', 't'];
    let bishop = ['b', 'i', 's', 'h', 'o', 'p'];
    let rook = ['r', 'o', 'o', 'k'];
    let queen = ['q', 'u', 'e', 'e', 'n'];
    assert(knight@ == seq!['k', 'n', 'i', 'g', 'h', 't']);
    assert(bishop@ == seq!['b', 'i', 's', 'h', 'o', 'p']);
    assert(rook@ == seq!['r', 'o', 'o', 'k']);
    assert(queen@ == seq!['q', 'u', 'e', 'e', 'n']);
    if lowercase_equals(cs, knight.as_slice()) {
        Some(PromotionPieces::Knight)
    } else if lowercase_equals(cs, bishop.as_slice()) {
        Some(PromotionPieces::Bishop)
    } else if lowercase_equals(cs, rook.as_slice()) {
        Some(PromotionPieces::Rook)
    } else if lowercase_equals(cs, queen.as_slice()) {
        Some(PromotionPieces::Queen)
    } else {
        None
    }
}

#[derive(Copy, Clone, Debug, PartialEq, Eq, Structural)]
pub enum MoveActionType {
    Normal,
    Promotion(PromotionPieces),
}

#[derive(Copy, Clone, Debug, PartialEq, Eq, Structural)]
pub struct MoveAction {
    pub mv: Move,
    pub move_type: MoveActionType,
}

/// The move written in long algebraic notation: source, target and an
/// optional promotion letter, such as "e2e4" or "e7e8q".
pub open spec fn parse_long_algebraic(cs: Seq<char>) -> Option<MoveAction> {
    if cs.len() < 4 || cs.len() > 5 {
        None
    } else {
        let source = parse_position(cs.subrange(0, 2));
        let target = parse_position(cs.subrange(2, 4));
        let promotion = if cs.len() == 5 { promotion_from_letter(cs[4]) } else { None };
        match (source, target) {
            (Some(s), Some(t)) => Some(MoveAction {
                mv: Move { source: s, target: t },
                move_type: match promotion {
                    Some(p) => MoveActionType::Promotion(p),
                    None => MoveActionType::Normal,
                },
            }),
            _ => None,
        }
    }
}

impl MoveAction {
    /// Parses a move in long algebraic notation ("e2e4", "e7e8q").
    ///
    /// A fifth character that names no promotion piece is ignored.
    pub fn try_from_long_algebraic_str(mv_str: &str) -> (action: Option<MoveAction>)
        ensures
            action == (if mv_str@.len() == mv_str.len() {
                parse_long_algebraic(mv_str@)
            } else {
                None
            }),
    {
        let cs = str_chars(mv_str);
        if mv_str.len() != cs.len() {
            // Some character is not ASCII: its byte slices do not name squares.
            return None;
        }
        long_algebraic_from_chars(&cs)
    }
}

/// Parses a move in long algebraic notation from its characters.
pub fn long_algebraic_from_chars(cs: &Vec<char>) -> (action: Option<MoveAction>)
    ensures
        action == parse_long_algebraic(cs@),
{
    if cs.len() < 4 || cs.len() > 5 {
        return None;
    }
    let mut source_chars: Vec<char> = Vec::new();
    source_chars.push(cs[0]);
    source_chars.push(cs[1]);
    let mut target_chars: Vec<char> = Vec::new();
    target_chars.push(cs[2]);
    target_chars.push(cs[3]);
    assert(source_chars@ == cs@.subrange(0, 2));
    assert(target_chars@ == cs@.subrange(2, 4));
    let source = parse_position_chars(&source_chars);
    let target = parse_position_chars(&target_chars);
    let promotion = if cs.len() == 5 {
        PromotionPieces::try_from_char(cs[4])
    } else {
        None
    };
    match (source, target) {
        (Some(s), Some(t)) => Some(MoveAction {
            mv: Move { source: s, target: t },
            move_type: match promotion {
                Some(p) => MoveActionType::Promotion(p),
                None => MoveActionType::Normal,
            },
        }),
        _ => None,
    }
}

#[derive(Copy, Clone, Debug, PartialEq, Eq, Structural)]
pub enum MoveExtraInfo {
    Other,
    Promotion(PromotionPieces),
    Passed,
    EnPassant,
    CastleKingside,
    CastleQueenside,
}

#[derive(Copy, Clone, Debug, PartialEq, Eq, Structural)]
pub struct MoveInfo {
    pub mv: Move,
    pub info: MoveExtraInfo,
}

#[derive(Copy, Clone, Debug, PartialEq, Eq, Structural)]
pub struct GameInfo {
    pub white_kingside_castling_allowed: bool,
    pub white_queenside_castling_allowed: bool,
    pub black_kingside_castling_allowed: bool,
    pub black_queenside_castling_allowed: bool,
}

impl GameInfo {
    /// All castling rights allowed.
    pub fn new() -> (info: GameInfo)
        ensures
            info == spec_all_castling(),
    {
        GameInfo {
            white_kingside_castling_allowed: true,
            white_queenside_castling_allowed: true,
            black_kingside_castling_allowed: true,
            black_queenside_castling_allowed: true,
        }
    }
}

/// All castling rights allowed.
pub open spec fn spec_all_castling() -> GameInfo {
    GameInfo {
        white_kingside_castling_allowed: true,
        white_queenside_castling_allowed: true,
        black_kingside_castling_allowed: true,
        black_queenside_castling_allowed: true,
    }
}

impl Default for GameInfo {
    fn default() -> (info: GameInfo)
        ensures
            info == spec_all_castling(),
    {
        GameInfo::new()
    }
}

} // verus!
