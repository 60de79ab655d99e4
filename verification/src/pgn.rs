//! Reading games in PGN (Portable Game Notation): the lexer, the parser
//! that collects the games, and the interpreter that replays them and
//! names each move in long algebraic form.

pub mod lexer;
pub mod parser;
pub mod interpreter;

pub use lexer::{
    accepted_prefix, lex_all, lex_from, lex_lines, lex_step, lines_received, skip_space, tokenize, Color, LexEvent, LexStep,
    LexToken, LexerVisitor,
    PgnError, PgnSection,
};
pub use parser::{parse_pgn_file, Move, Parser, Tag, PGN};
pub use interpreter::{
    check_text, ending_text, move_type_text, pgn_to_long_algebraic, CheckType, ConvertError, DetailedGame, DetailedMove, DetailedMoveInfo, GameEnding, MoveType,
    PromotionPieces,
};
