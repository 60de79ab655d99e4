//! The decisions of a UCI (Universal Chess Interface) server: the protocol
//! state machine, the reading of commands and the text of replies. The
//! program that runs the server reads the commands, performs the actions
//! and passes the engine's replies back as events.

use crate::board::{position_name, position_name_chars, valid_position, Bitboards, Position};
use crate::eval::{searched_best, EngineFeedbackMessage, both_kings, has_legal_move, in_check, is_legal_move, move_allowed, GameHistory, GameMove, HasStopSignal, MateType, SearchFeedback};
use crate::game::{fen_game, initial_view, stored_fn, ZobristKeys, long_algebraic_from_chars, parse_long_algebraic, GameState, Move, MoveAction};
use crate::rules::{move_kind, moved_game, GameView};
use crate::text::{decimal_chars, is_whitespace, is_whitespace_char, signed_chars, push_decimal, push_signed, push_str_chars, split_whitespace, str_chars, string_from_chars, whitespace_words};
use vstd::prelude::*;

verus! {

/// The game the server plays on.
pub type BitboardGame = GameState<Bitboards>;

/// The default, lowest and highest search depth.
pub const SEARCH_DEPTH_DEFAULT: u32 = 4;
pub const SEARCH_DEPTH_MIN: u32 = 2;
pub const SEARCH_DEPTH_MAX: u32 = 5;

/// The states of the protocol.
#[derive(Copy, Clone, Debug, PartialEq, Eq, Structural)]
pub enum UciProtocolState {
    Initializing,
    Ready,
    Searching,
    WaitingForResult,
}

/// What the protocol reacts to: commands of the user and replies of the
/// engine.
#[derive(Copy, Clone, Debug, PartialEq, Eq, Structural)]
pub enum UciProtocolInput {
    CommandUci,
    CommandIsReady,
    CommandSetOption,
    CommandUciNewGame,
    CommandPosition,
    CommandGo,
    CommandStop,
    EngineInfo,
    EngineResult,
}

/// What the protocol asks to be done.
#[derive(Copy, Clone, Debug, PartialEq, Eq, Structural)]
pub enum UciProtocolOutput {
    OutputCommandId,
    EngineCommandGo,
    EngineCommandPosition,
    EngineCommandNewGame,
    OutputCommandReadyOk,
    EngineCommandSetOption,
    OutputSavedCommandBestMove,
    EngineCommandStop,
    OutputCommandInfo,
    SaveBestMove,
    OutputCommandBestMove,
}

/// The transitions of the protocol: the next state and the action, or
/// `None` for an input that the state does not expect.
pub open spec fn spec_transition(state: UciProtocolState, input: UciProtocolInput) -> Option<(UciProtocolState, Option<UciProtocolOutput>)> {
    match (state, input) {
        (UciProtocolState::Initializing, UciProtocolInput::CommandUci) =>
            Some((UciProtocolState::Ready, Some(UciProtocolOutput::OutputCommandId))),
        (UciProtocolState::Ready, UciProtocolInput::CommandGo) =>
            Some((UciProtocolState::Searching, Some(UciProtocolOutput::EngineCommandGo))),
        (UciProtocolState::Ready, UciProtocolInput::CommandPosition) =>
            Some((UciProtocolState::Ready, Some(UciProtocolOutput::EngineCommandPosition))),
        (UciProtocolState::Ready, UciProtocolInput::CommandUciNewGame) =>
            Some((UciProtocolState::Ready, Some(UciProtocolOutput::EngineCommandNewGame))),
        (UciProtocolState::Ready, UciProtocolInput::CommandIsReady) =>
            Some((UciProtocolState::Ready, Some(UciProtocolOutput::OutputCommandReadyOk))),
        (UciProtocolState::Ready, UciProtocolInput::CommandSetOption) =>
            Some((UciProtocolState::Ready, Some(UciProtocolOutput::EngineCommandSetOption))),
        (UciProtocolState::Ready, UciProtocolInput::CommandStop) =>
            Some((UciProtocolState::Ready, Some(UciProtocolOutput::OutputSavedCommandBestMove))),
        (UciProtocolState::Searching, UciProtocolInput::CommandStop) =>
            Some((UciProtocolState::WaitingForResult, Some(UciProtocolOutput::EngineCommandStop))),
        (UciProtocolState::Searching, UciProtocolInput::EngineInfo) =>
            Some((UciProtocolState::Searching, Some(UciProtocolOutput::OutputCommandInfo))),
        (UciProtocolState::Searching, UciProtocolInput::EngineResult) =>
            Some((UciProtocolState::Ready, Some(UciProtocolOutput::SaveBestMove))),
        (UciProtocolState::Searching, UciProtocolInput::CommandIsReady) =>
            Some((UciProtocolState::Ready, Some(UciProtocolOutput::OutputCommandReadyOk))),
        (UciProtocolState::WaitingForResult, UciProtocolInput::EngineInfo) =>
            Some((UciProtocolState::WaitingForResult, Some(UciProtocolOutput::OutputCommandInfo))),
        (UciProtocolState::WaitingForResult, UciProtocolInput::EngineResult) =>
            Some((UciProtocolState::Ready, Some(UciProtocolOutput::OutputCommandBestMove))),
        (UciProtocolState::WaitingForResult, UciProtocolInput::CommandIsReady) =>
            Some((UciProtocolState::Ready, Some(UciProtocolOutput::OutputCommandReadyOk))),
        (UciProtocolState::WaitingForResult, UciProtocolInput::CommandStop) =>
            Some((UciProtocolState::WaitingForResult, None)),
        _ => None,
    }
}

/// The action that forwards a command to the engine, for the commands that
/// the engine carries out.
pub open spec fn engine_action(input: UciProtocolInput) -> Option<UciProtocolOutput> {
    match input {
        UciProtocolInput::CommandGo => Some(UciProtocolOutput::EngineCommandGo),
        UciProtocolInput::CommandPosition => Some(UciProtocolOutput::EngineCommandPosition),
        UciProtocolInput::CommandUciNewGame => Some(UciProtocolOutput::EngineCommandNewGame),
        UciProtocolInput::CommandSetOption => Some(UciProtocolOutput::EngineCommandSetOption),
        _ => None,
    }
}

/// When ready, the protocol accepts every command but `uci` and forwards
/// each command that the engine carries out to it; only `go` leaves the
/// ready state. Every accepted input asks for an action, except a repeated
/// `stop` while the stopped search has not answered yet. Once initialized,
/// the protocol never goes back to initializing, and it answers `isready`
/// in every state but the first.
pub proof fn lemma_protocol_answers(state: UciProtocolState, input: UciProtocolInput)
    ensures
        state == UciProtocolState::Ready && input != UciProtocolInput::CommandUci && !(input is EngineInfo)
            && !(input is EngineResult) ==> spec_transition(state, input) is Some,
        state == UciProtocolState::Ready && engine_action(input) is Some ==>
            spec_transition(state, input) == Some((
                if input == UciProtocolInput::CommandGo { UciProtocolState::Searching } else { UciProtocolState::Ready },
                engine_action(input),
            )),
        spec_transition(state, input) matches Some((next, None)) ==>
            state == UciProtocolState::WaitingForResult && input == UciProtocolInput::CommandStop && next == state,
        spec_transition(state, input) matches Some((next, _)) ==> next != UciProtocolState::Initializing,
        state != UciProtocolState::Initializing && input == UciProtocolInput::CommandIsReady ==>
            spec_transition(state, input) == Some((UciProtocolState::Ready, Some(UciProtocolOutput::OutputCommandReadyOk))),
{
}

/// The protocol state machine.
pub struct UciProtocol {
    state: UciProtocolState,
}

impl UciProtocol {
    pub closed spec fn spec_state(&self) -> UciProtocolState {
        self.state
    }

    /// The machine in its initial state.
    pub fn new() -> (machine: UciProtocol)
        ensures
            machine.spec_state() == UciProtocolState::Initializing,
    {
        UciProtocol { state: UciProtocolState::Initializing }
    }

    /// The current state.
    pub fn state(&self) -> (state: UciProtocolState)
        ensures
            state == self.spec_state(),
    {
        self.state
    }

    /// Takes an input: moves to the next state and returns the action, or
    /// refuses an unexpected input and stays.
    pub fn consume(&mut self, input: &UciProtocolInput) -> (output: Result<Option<UciProtocolOutput>, ()>)
        ensures
            match spec_transition(old(self).spec_state(), *input) {
                Some((next, action)) => final(self).spec_state() == next && output == Ok::<Option<UciProtocolOutput>, ()>(action),
                None => final(self).spec_state() == old(self).spec_state() && output is Err,
            },
    {
        let next = match (self.state, *input) {
            (UciProtocolState::Initializing, UciProtocolInput::CommandUci) =>
                (UciProtocolState::Ready, Some(UciProtocolOutput::OutputCommandId)),
            (UciProtocolState::Ready, UciProtocolInput::CommandGo) =>
                (UciProtocolState::Searching, Some(UciProtocolOutput::EngineCommandGo)),
            (UciProtocolState::Ready, UciProtocolInput::CommandPosition) =>
                (UciProtocolState::Ready, Some(UciProtocolOutput::EngineCommandPosition)),
            (UciProtocolState::Ready, UciProtocolInput::CommandUciNewGame) =>
                (UciProtocolState::Ready, Some(UciProtocolOutput::EngineCommandNewGame)),
            (UciProtocolState::Ready, UciProtocolInput::CommandIsReady) =>
                (UciProtocolState::Ready, Some(UciProtocolOutput::OutputCommandReadyOk)),
            (UciProtocolState::Ready, UciProtocolInput::CommandSetOption) =>
                (UciProtocolState::Ready, Some(UciProtocolOutput::EngineCommandSetOption)),
            (UciProtocolState::Ready, UciProtocolInput::CommandStop) =>
                (UciProtocolState::Ready, Some(UciProtocolOutput::OutputSavedCommandBestMove)),
            (UciProtocolState::Searching, UciProtocolInput::CommandStop) =>
                (UciProtocolState::WaitingForResult, Some(UciProtocolOutput::EngineCommandStop)),
            (UciProtocolState::Searching, UciProtocolInput::EngineInfo) =>
                (UciProtocolState::Searching, Some(UciProtocolOutput::OutputCommandInfo)),
            (UciProtocolState::Searching, UciProtocolInput::EngineResult) =>
                (UciProtocolState::Ready, Some(UciProtocolOutput::SaveBestMove)),
            (UciProtocolState::Searching, UciProtocolInput::CommandIsReady) =>
                (UciProtocolState::Ready, Some(UciProtocolOutput::OutputCommandReadyOk)),
            (UciProtocolState::WaitingForResult, UciProtocolInput::EngineInfo) =>
                (UciProtocolState::WaitingForResult, Some(UciProtocolOutput::OutputCommandInfo)),
            (UciProtocolState::WaitingForResult, UciProtocolInput::EngineResult) =>
                (UciProtocolState::Ready, Some(UciProtocolOutput::OutputCommandBestMove)),
            (UciProtocolState::WaitingForResult, UciProtocolInput::CommandIsReady) =>
                (UciProtocolState::Ready, Some(UciProtocolOutput::OutputCommandReadyOk)),
            (UciProtocolState::WaitingForResult, UciProtocolInput::CommandStop) => (UciProtocolState::WaitingForResult, None),
            _ => {
                return Err(());
            },
        };
        self.state = next.0;
        Ok(next.1)
    }
}

/// How the first word of a user command is taken.
#[derive(Copy, Clone, Debug, PartialEq, Eq, Structural)]
pub enum CommandWord {
    /// A command of the protocol.
    Input(UciProtocolInput),
    /// The end of the session.
    Quit,
    /// A word that names no command, to be ignored.
    Unknown,
}

/// The command that a word names.
pub open spec fn spec_command_word(word: Seq<char>) -> CommandWord {
    if word == seq!['u', 'c', 'i'] {
        CommandWord::Input(UciProtocolInput::CommandUci)
    } else if word == seq!['i', 's', 'r', 'e', 'a', 'd', 'y'] {
        CommandWord::Input(UciProtocolInput::CommandIsReady)
    } else if word == seq!['s', 'e', 't', 'o', 'p', 't', 'i', 'o', 'n'] {
        CommandWord::Input(UciProtocolInput::CommandSetOption)
    } else if word == seq!['u', 'c', 'i', 'n', 'e', 'w', 'g', 'a', 'm', 'e'] {
        CommandWord::Input(UciProtocolInput::CommandUciNewGame)
    } else if word == seq!['p', 'o', 's', 'i', 't', 'i', 'o', 'n'] {
        CommandWord::Input(UciProtocolInput::CommandPosition)
    } else if word == seq!['g', 'o'] {
        CommandWord::Input(UciProtocolInput::CommandGo)
    } else if word == seq!['s', 't', 'o', 'p'] {
        CommandWord::Input(UciProtocolInput::CommandStop)
    } else if word == seq!['q', 'u', 'i', 't'] {
        CommandWord::Quit
    } else {
        CommandWord::Unknown
    }
}

/// The characters of `word` are those of `text`.
fn chars_equal(word: &Vec<char>, text: &str) -> (eq: bool)
    ensures
        eq == (word@ == text@),
{
    let cs = str_chars(text);
    if word.len() != cs.len() {
        assert(word@.len() != text@.len());
        return false;
    }
    let mut i: usize = 0;
    while i < word.len()
        invariant
            i <= word@.len(),
            word@.len() == cs@.len(),
            cs@ == text@,
            forall|j: int| 0 <= j < i ==> word@[j] == cs@[j],
        decreases word@.len() - i,
    {
        if word[i] != cs[i] {
            assert(word@[i as int] != cs@[i as int]);
            return false;
        }
        i += 1;
    }
    assert(word@ =~= cs@);
    true
}

/// The command that a word names.
pub fn command_word(word: &Vec<char>) -> (command: CommandWord)
    ensures
        command == spec_command_word(word@),
{
    proof {
        reveal_strlit("uci");
        reveal_strlit("isready");
        reveal_strlit("setoption");
        reveal_strlit("ucinewgame");
        reveal_strlit("position");
        reveal_strlit("go");
        reveal_strlit("stop");
        reveal_strlit("quit");
        assert("uci"@ =~= seq!['u', 'c', 'i']);
        assert("isready"@ =~= seq!['i', 's', 'r', 'e', 'a', 'd', 'y']);
        assert("setoption"@ =~= seq!['s', 'e', 't', 'o', 'p', 't', 'i', 'o', 'n']);
        assert("ucinewgame"@ =~= seq!['u', 'c', 'i', 'n', 'e', 'w', 'g', 'a', 'm', 'e']);
        assert("position"@ =~= seq!['p', 'o', 's', 'i', 't', 'i', 'o', 'n']);
        assert("go"@ =~= seq!['g', 'o']);
        assert("stop"@ =~= seq!['s', 't', 'o', 'p']);
        assert("quit"@ =~= seq!['q', 'u', 'i', 't']);
    }
    if chars_equal(word, "uci") {
        CommandWord::Input(UciProtocolInput::CommandUci)
    } else if chars_equal(word, "isready") {
        CommandWord::Input(UciProtocolInput::CommandIsReady)
    } else if chars_equal(word, "setoption") {
        CommandWord::Input(UciProtocolInput::CommandSetOption)
    } else if chars_equal(word, "ucinewgame") {
        CommandWord::Input(UciProtocolInput::CommandUciNewGame)
    } else if chars_equal(word, "position") {
        CommandWord::Input(UciProtocolInput::CommandPosition)
    } else if chars_equal(word, "go") {
        CommandWord::Input(UciProtocolInput::CommandGo)
    } else if chars_equal(word, "stop") {
        CommandWord::Input(UciProtocolInput::CommandStop)
    } else if chars_equal(word, "quit") {
        CommandWord::Quit
    } else {
        CommandWord::Unknown
    }
}

/// The words of a command line, split at whitespace.
pub fn parse_command(line: &str) -> (words: Vec<Vec<char>>)
    ensures
        words@.map_values(|w: Vec<char>| w@) == whitespace_words(line@),
{
    let cs = str_chars(line);
    split_whitespace(&cs)
}

/// The text of a best move: the source and target squares, or "0000"
/// when there is no move.
pub open spec fn spec_uci_move(mv: Option<GameMove>) -> Seq<char> {
    match mv {
        Some(GameMove::Normal(best_move)) => position_name(best_move.mv.source) + position_name(best_move.mv.target),
        _ => seq!['0', '0', '0', '0'],
    }
}

/// The text of a best move for a `bestmove` reply.
pub fn move_to_uci_string(mv: &Option<GameMove>) -> (text: String)
    requires
        mv matches Some(GameMove::Normal(m)) ==> valid_position(m.mv.source) && valid_position(m.mv.target),
    ensures
        text@ == spec_uci_move(*mv),
{
    let mut out: Vec<char> = Vec::new();
    match mv {
        Some(GameMove::Normal(best_move)) => {
            let (a, b) = position_name_chars(&best_move.mv.source);
            let (c, d) = position_name_chars(&best_move.mv.target);
            out.push(a);
            out.push(b);
            out.push(c);
            out.push(d);
        },
        _ => {
            out.push('0');
            out.push('0');
            out.push('0');
            out.push('0');
        },
    }
    assert(out@ =~= spec_uci_move(*mv));
    string_from_chars(&out)
}

/// What a `setoption` command asks.
#[derive(Copy, Clone, Debug, PartialEq, Eq, Structural)]
pub enum SetOptionResult {
    /// A new search depth.
    SearchDepth(u32),
    /// A search depth outside the accepted range.
    OutOfRange,
    /// A search depth that is not a number.
    InvalidValue,
    /// An option other than the search depth.
    UnknownParameter,
    /// A command without `name <option> value <value>`.
    Malformed,
}

/// The value of a decimal number, if the word is one that fits in `u32`.
pub open spec fn decimal_value(cs: Seq<char>) -> Option<nat>
    decreases cs.len(),
{
    if cs.len() == 0 {
        None
    } else {
        let last = crate::text::digit_value(cs.last());
        match last {
            None => None,
            Some(d) => if cs.len() == 1 {
                Some(d)
            } else {
                match decimal_value(cs.drop_last()) {
                    Some(v) => Some(v * 10 + d),
                    None => None,
                }
            },
        }
    }
}

/// A word's value as a `u32` (`str::parse::<u32>`), if it is a decimal
/// number in range.
pub open spec fn parse_u32(cs: Seq<char>) -> Option<u32> {
    let plain = if cs.len() > 0 && cs[0] == '+' { cs.skip(1) } else { cs };
    match decimal_value(plain) {
        Some(v) => if v <= u32::MAX { Some(v as u32) } else { None },
        None => None,
    }
}

/// Parses a `u32` as `str::parse::<u32>` does: decimal digits, with an
/// optional leading '+'.
pub fn parse_u32_chars(cs: &Vec<char>) -> (value: Option<u32>)
    ensures
        value == parse_u32(cs@),
{
    let start: usize = if cs.len() > 0 && cs[0] == '+' { 1 } else { 0 };
    let ghost plain = if cs@.len() > 0 && cs@[0] == '+' { cs@.skip(1) } else { cs@ };
    assert(plain =~= cs@.skip(start as int));
    if start >= cs.len() {
        assert(plain.len() == 0);
        return None;
    }
    let mut value: u64 = 0;
    let mut i: usize = start;
    while i < cs.len()
        invariant
            start < cs@.len(),
            start <= i <= cs@.len(),
            plain == cs@.skip(start as int),
            plain == (if cs@.len() > 0 && cs@[0] == '+' { cs@.skip(1) } else { cs@ }),
            i > start ==> decimal_value(cs@.subrange(start as int, i as int)) == Some(value as nat),
            i == start ==> value == 0,
            value <= u32::MAX,
        decreases cs@.len() - i,
    {
        let c = cs[i];
        if !('0' <= c && c <= '9') {
            proof {
                let whole = cs@.subrange(start as int, cs@.len() as int);
                assert(whole[i - start] == c);
                lemma_decimal_none(whole, i - start);
                assert(whole =~= plain);
            }
            return None;
        }
        let d = (c as u32 - '0' as u32) as u64;
        proof {
            let pre = cs@.subrange(start as int, i + 1);
            assert(pre.drop_last() =~= cs@.subrange(start as int, i as int));
            assert(pre.last() == c);
            assert(crate::text::digit_value(c) == Some(d as nat));
            if i == start {
                assert(pre.len() == 1);
                assert(decimal_value(pre) == Some(d as nat));
            } else {
                assert(decimal_value(pre) == Some((value * 10 + d) as nat));
            }
        }
        value = value * 10 + d;
        assert(decimal_value(cs@.subrange(start as int, i + 1)) == Some(value as nat));
        if value > 4294967295u64 {
            proof {
                let whole = cs@.subrange(start as int, cs@.len() as int);
                assert(whole.subrange(0, i + 1 - start) =~= cs@.subrange(start as int, i + 1));
                lemma_decimal_grows(whole, i + 1 - start);
                assert(whole =~= plain);
            }
            return None;
        }
        i += 1;
    }
    assert(cs@.subrange(start as int, cs@.len() as int) =~= plain);
    Some(value as u32)
}

/// A word with a character other than a digit has no decimal value.
proof fn lemma_decimal_none(cs: Seq<char>, k: int)
    requires
        0 <= k < cs.len(),
        crate::text::digit_value(cs[k]) is None,
    ensures
        decimal_value(cs) is None,
    decreases cs.len(),
{
    if k < cs.len() - 1 {
        lemma_decimal_none(cs.drop_last(), k);
    }
}

/// A decimal prefix too large for `u32` makes the whole word too large.
proof fn lemma_decimal_grows(cs: Seq<char>, k: int)
    requires
        1 <= k <= cs.len(),
        decimal_value(cs.subrange(0, k)) matches Some(v) && v > u32::MAX,
    ensures
        decimal_value(cs) is None || decimal_value(cs).unwrap() > u32::MAX,
    decreases cs.len() - k,
{
    if k < cs.len() {
        assert(cs.subrange(0, k + 1).drop_last() =~= cs.subrange(0, k));
        assert(cs.subrange(0, k + 1).last() == cs[k]);
        if crate::text::digit_value(cs[k]) is None {
            lemma_decimal_none(cs, k);
        } else {
            lemma_decimal_grows(cs, k + 1);
        }
    } else {
        assert(cs.subrange(0, k) =~= cs);
    }
}

/// What a `setoption` command's words ask.
pub open spec fn spec_set_option(words: Seq<Seq<char>>) -> SetOptionResult {
    if words.len() < 5 || words[1] != seq!['n', 'a', 'm', 'e'] || words[3] != seq!['v', 'a', 'l', 'u', 'e'] {
        SetOptionResult::Malformed
    } else if words[2] != seq!['S', 'e', 'a', 'r', 'c', 'h', 'D', 'e', 'p', 't', 'h'] {
        SetOptionResult::UnknownParameter
    } else {
        match parse_u32(words[4]) {
            None => SetOptionResult::InvalidValue,
            Some(v) => if 2 <= v <= 5 { SetOptionResult::SearchDepth(v) } else { SetOptionResult::OutOfRange },
        }
    }
}

/// Reads a `setoption name <option> value <value>` command.
pub fn parse_set_option(words: &Vec<Vec<char>>) -> (result: SetOptionResult)
    ensures
        result == spec_set_option(words@.map_values(|w: Vec<char>| w@)),
{
    proof {
        reveal_strlit("name");
        reveal_strlit("value");
        reveal_strlit("SearchDepth");
        assert("name"@ =~= seq!['n', 'a', 'm', 'e']);
        assert("value"@ =~= seq!['v', 'a', 'l', 'u', 'e']);
        assert("SearchDepth"@ =~= seq!['S', 'e', 'a', 'r', 'c', 'h', 'D', 'e', 'p', 't', 'h']);
    }
    let ghost ws = words@.map_values(|w: Vec<char>| w@);
    if words.len() < 5 {
        return SetOptionResult::Malformed;
    }
    assert(ws[1] == words@[1]@ && ws[2] == words@[2]@ && ws[3] == words@[3]@ && ws[4] == words@[4]@);
    if !chars_equal(&words[1], "name") || !chars_equal(&words[3], "value") {
        return SetOptionResult::Malformed;
    }
    if !chars_equal(&words[2], "SearchDepth") {
        return SetOptionResult::UnknownParameter;
    }
    match parse_u32_chars(&words[4]) {
        None => SetOptionResult::InvalidValue,
        Some(value) => {
            if SEARCH_DEPTH_MIN <= value && value <= SEARCH_DEPTH_MAX {
                SetOptionResult::SearchDepth(value)
            } else {
                SetOptionResult::OutOfRange
            }
        },
    }
}

/// Whether a `go` command asks for an infinite search (the only kind this
/// server runs).
pub fn is_go_infinite(words: &Vec<Vec<char>>) -> (infinite: bool)
    ensures
        infinite == (words@.len() > 1 && words@[1]@ == seq!['i', 'n', 'f', 'i', 'n', 'i', 't', 'e']),
{
    proof {
        reveal_strlit("infinite");
        assert("infinite"@ =~= seq!['i', 'n', 'f', 'i', 'n', 'i', 't', 'e']);
    }
    words.len() > 1 && chars_equal(&words[1], "infinite")
}

/// The game and the moves of a `position` command.
pub struct NewGameCommand {
    /// The position to start from; `None` keeps the current game.
    pub game: Option<BitboardGame>,
    /// The moves to play from there.
    pub moves: Vec<MoveAction>,
}

/// Why a `position` command is dropped.
#[derive(Copy, Clone, Debug, PartialEq, Eq, Structural)]
pub enum PositionCommandError {
    /// Nothing follows `position`.
    MalformedCommand,
    /// The FEN fields do not describe a game.
    MalformedFen,
    /// The word after the position is not `moves`.
    MalformedMoves,
}

/// Every character of the word is ASCII.
pub open spec fn ascii_word(w: Seq<char>) -> bool {
    forall|i: int| 0 <= i < w.len() ==> (w[i] as u32) < 128
}

/// The move a word of a `position` command names: an ASCII word in long
/// algebraic notation.
pub open spec fn spec_uci_move_word(w: Seq<char>) -> Option<MoveAction> {
    if ascii_word(w) {
        parse_long_algebraic(w)
    } else {
        None
    }
}

/// The moves that the words name, in order; words that name none are
/// skipped.
pub open spec fn parse_moves(ws: Seq<Seq<char>>) -> Seq<MoveAction>
    decreases ws.len(),
{
    if ws.len() == 0 {
        Seq::empty()
    } else {
        let before = parse_moves(ws.drop_last());
        match spec_uci_move_word(ws.last()) {
            Some(m) => before.push(m),
            None => before,
        }
    }
}

/// What follows the position: nothing, or `moves` and the moves.
pub open spec fn spec_moves_part(game: Option<GameView>, rest: Seq<Seq<char>>) -> Result<(Option<GameView>, Seq<MoveAction>), PositionCommandError> {
    if rest.len() == 0 {
        Ok((game, Seq::empty()))
    } else if rest[0] == seq!['m', 'o', 'v', 'e', 's'] {
        Ok((game, parse_moves(rest.skip(1))))
    } else {
        Err(PositionCommandError::MalformedMoves)
    }
}

/// The FEN fields of a `position fen ...` command: the (at most) six words
/// after `fen`.
pub open spec fn fen_words(ws: Seq<Seq<char>>) -> Seq<Seq<char>> {
    if ws.len() >= 8 {
        ws.subrange(2, 8)
    } else {
        ws.skip(2)
    }
}

/// What a `position` command's words ask: the game to start from (`None`
/// keeps the current one) and the moves to play.
pub open spec fn spec_position_command(ws: Seq<Seq<char>>) -> Result<(Option<GameView>, Seq<MoveAction>), PositionCommandError> {
    if ws.len() < 2 {
        Err(PositionCommandError::MalformedCommand)
    } else if ws[1] == seq!['s', 't', 'a', 'r', 't', 'p', 'o', 's'] {
        spec_moves_part(Some(initial_view()), ws.skip(2))
    } else if ws[1] == seq!['f', 'e', 'n'] {
        match fen_game(fen_words(ws)) {
            None => Err(PositionCommandError::MalformedFen),
            Some(g) => spec_moves_part(Some(g), if ws.len() >= 8 { ws.skip(8) } else { Seq::empty() }),
        }
    } else {
        spec_moves_part(None, ws.skip(1))
    }
}

/// The move an ASCII word names in long algebraic notation.
pub fn uci_move_word(w: &Vec<char>) -> (mv: Option<MoveAction>)
    ensures
        mv == spec_uci_move_word(w@),
{
    let mut i: usize = 0;
    while i < w.len()
        invariant
            i <= w@.len(),
            forall|j: int| 0 <= j < i ==> (w@[j] as u32) < 128,
        decreases w@.len() - i,
    {
        if (w[i] as u32) >= 128 {
            return None;
        }
        i += 1;
    }
    long_algebraic_from_chars(w)
}

/// The moves named by `words[from..]`, skipping words that name none.
fn collect_moves(words: &Vec<Vec<char>>, from: usize) -> (moves: Vec<MoveAction>)
    requires
        from <= words@.len(),
    ensures
        moves@ == parse_moves(words@.map_values(|w: Vec<char>| w@).skip(from as int)),
{
    let ghost ws = words@.map_values(|w: Vec<char>| w@);
    let mut moves: Vec<MoveAction> = Vec::new();
    let mut i: usize = from;
    while i < words.len()
        invariant
            from <= i <= words@.len(),
            ws == words@.map_values(|w: Vec<char>| w@),
            moves@ == parse_moves(ws.subrange(from as int, i as int)),
        decreases words@.len() - i,
    {
        proof {
            assert(ws.subrange(from as int, i + 1).drop_last() =~= ws.subrange(from as int, i as int));
            assert(ws.subrange(from as int, i + 1).last() == words@[i as int]@);
        }
        match uci_move_word(&words[i]) {
            Some(m) => {
                moves.push(m);
            },
            None => {},
        }
        i += 1;
    }
    assert(ws.subrange(from as int, words@.len() as int) =~= ws.skip(from as int));
    moves
}

/// Reads what follows the position in a `position` command.
fn moves_part(game: Option<BitboardGame>, words: &Vec<Vec<char>>, from: usize) -> (result: Result<NewGameCommand, PositionCommandError>)
    requires
        from <= words@.len(),
    ensures
        match spec_moves_part(
            match game { Some(g) => Some(g@), None => None },
            words@.map_values(|w: Vec<char>| w@).skip(from as int),
        ) {
            Ok((g, mvs)) => result matches Ok(c) && c.moves@ == mvs && match g {
                Some(v) => c.game matches Some(cg) && cg@ == v,
                None => c.game is None,
            },
            Err(e) => result == Err::<NewGameCommand, PositionCommandError>(e),
        },
{
    proof {
        reveal_strlit("moves");
        assert("moves"@ =~= seq!['m', 'o', 'v', 'e', 's']);
    }
    let ghost ws = words@.map_values(|w: Vec<char>| w@);
    let ghost rest = ws.skip(from as int);
    if from >= words.len() {
        assert(rest.len() == 0);
        return Ok(NewGameCommand { game, moves: Vec::new() });
    }
    assert(rest[0] == words@[from as int]@);
    if !chars_equal(&words[from], "moves") {
        return Err(PositionCommandError::MalformedMoves);
    }
    let moves = collect_moves(words, from + 1);
    assert(rest.skip(1) =~= ws.skip(from + 1));
    Ok(NewGameCommand { game, moves })
}

/// Reads a `position [startpos | fen <six fields> | ...] [moves ...]`
/// command.
pub fn parse_position_command(words: &Vec<Vec<char>>) -> (result: Result<NewGameCommand, PositionCommandError>)
    ensures
        match spec_position_command(words@.map_values(|w: Vec<char>| w@)) {
            Ok((g, mvs)) => result matches Ok(c) && c.moves@ == mvs && match g {
                Some(v) => c.game matches Some(cg) && cg@ == v,
                None => c.game is None,
            },
            Err(e) => result == Err::<NewGameCommand, PositionCommandError>(e),
        },
{
    proof {
        reveal_strlit("startpos");
        reveal_strlit("fen");
        assert("startpos"@ =~= seq!['s', 't', 'a', 'r', 't', 'p', 'o', 's']);
        assert("fen"@ =~= seq!['f', 'e', 'n']);
    }
    let ghost ws = words@.map_values(|w: Vec<char>| w@);
    if words.len() < 2 {
        return Err(PositionCommandError::MalformedCommand);
    }
    assert(ws[1] == words@[1]@);
    if chars_equal(&words[1], "startpos") {
        return moves_part(Some(BitboardGame::new()), words, 2);
    }
    if chars_equal(&words[1], "fen") {
        let mut fields: Vec<Vec<char>> = Vec::new();
        let mut i: usize = 2;
        while i < words.len() && i < 8
            invariant
                2 <= i <= words@.len(),
                i <= 8,
                fields@.len() == i - 2,
                forall|j: int| 0 <= j < i - 2 ==> #[trigger] fields@[j]@ == words@[j + 2]@,
            decreases words@.len() - i,
        {
            let w = words[i].clone();
            assert(w@ =~= words@[i as int]@);
            fields.push(w);
            i += 1;
        }
        proof {
            let lhs = fields@.map_values(|w: Vec<char>| w@);
            let rhs = fen_words(ws);
            assert(lhs.len() == rhs.len());
            assert forall|j: int| 0 <= j < lhs.len() implies lhs[j] == rhs[j] by {
                assert(fields@[j]@ == words@[j + 2]@);
            }
        }
        assert(fields@.map_values(|w: Vec<char>| w@) =~= fen_words(ws));
        match BitboardGame::try_from_fen_fields(&fields) {
            None => {
                return Err(PositionCommandError::MalformedFen);
            },
            Some(game) => {
                if words.len() >= 8 {
                    return moves_part(Some(game), words, 8);
                } else {
                    let r = moves_part(Some(game), words, words.len());
                    assert(ws.skip(words@.len() as int) =~= Seq::<Seq<char>>::empty());
                    return r;
                }
            },
        }
    }
    moves_part(None, words, 1)
}

/// Plays `moves` from `g` as the engine does: a move that is not allowed
/// (or that is played where a king is missing) leaves the game as it is and
/// is reported; returns the game and the reported moves.
pub open spec fn engine_play(g: GameView, moves: Seq<MoveAction>) -> (GameView, Seq<Move>)
    decreases moves.len(),
{
    if moves.len() == 0 {
        (g, Seq::empty())
    } else {
        let (h, bad) = engine_play(g, moves.drop_last());
        let m = moves.last();
        if valid_position(m.mv.source) && valid_position(m.mv.target) && both_kings(h) && move_allowed(h, m, stored_fn::<Bitboards>()) {
            (moved_game(h, m, move_kind(h.squares, m).unwrap(), stored_fn::<Bitboards>()), bad)
        } else {
            (h, bad.push(m.mv))
        }
    }
}

/// The moves of the game can be replayed by the search and leave room for
/// `depth` more plies.
pub open spec fn history_searchable(moves: Seq<MoveAction>, depth: u32) -> bool {
    &&& moves.len() + depth + 2 < usize::MAX
    &&& history_searchable_moves(moves)
}

/// The move at `i` names two squares of the board.
pub open spec fn moves_at_valid(moves: Seq<MoveAction>, i: int) -> bool {
    valid_position(moves[i].mv.source) && valid_position(moves[i].mv.target)
}

/// Every move names two squares of the board.
pub open spec fn history_searchable_moves(moves: Seq<MoveAction>) -> bool {
    forall|i: int| 0 <= i < moves.len() ==> #[trigger] moves_at_valid(moves, i)
}

/// Whether a position names a square of the board.
fn valid_position_exec(p: &Position) -> (valid: bool)
    ensures
        valid == valid_position(*p),
{
    p.rank < 8 && p.file < 8
}

/// Every move names two squares of the board.
fn moves_name_squares(moves: &Vec<MoveAction>) -> (ok: bool)
    ensures
        ok == history_searchable_moves(moves@),
        ok ==> forall|i: int| 0 <= i < moves@.len() ==> valid_position(#[trigger] moves@[i].mv.source) && valid_position(moves@[i].mv.target),
{
    let mut i: usize = 0;
    while i < moves.len()
        invariant
            i <= moves@.len(),
            history_searchable_moves(moves@.take(i as int)),
        decreases moves@.len() - i,
    {
        let mv = moves[i];
        if !valid_position_exec(&mv.mv.source) || !valid_position_exec(&mv.mv.target) {
            assert(!moves_at_valid(moves@, i as int));
            return false;
        }
        assert(history_searchable_moves(moves@.take(i + 1))) by {
            assert forall|j: int| 0 <= j < i + 1 implies #[trigger] moves_at_valid(moves@.take(i + 1), j) by {
                if j < i {
                    assert(moves_at_valid(moves@.take(i as int), j));
                }
            }
        }
        i += 1;
    }
    assert(moves@.take(moves@.len() as int) =~= moves@);
    assert forall|i: int| 0 <= i < moves@.len() implies valid_position(#[trigger] moves@[i].mv.source) && valid_position(moves@[i].mv.target) by {
        assert(moves_at_valid(moves@, i));
    }
    true
}

/// The engine's side of the server: the game it plays and the moves
/// played in it.
pub struct UciEngine {
    game: BitboardGame,
    history: GameHistory,
    keys: ZobristKeys,
}

impl UciEngine {
    /// The engine's hash keys are drawn.
    pub closed spec fn wf(&self) -> bool {
        self.keys.wf()
    }

    /// The game.
    pub closed spec fn game_view(&self) -> GameView {
        self.game@
    }

    /// The moves played since the game was set up.
    pub closed spec fn moves(&self) -> Seq<MoveAction> {
        self.history@
    }

    /// The engine's hash keys.
    pub closed spec fn hash_keys(&self) -> Seq<u64> {
        self.keys@
    }

    /// An engine at the initial position.
    pub fn new() -> (engine: UciEngine)
        ensures
            engine.wf(),
            engine.game_view() == initial_view(),
            engine.moves() == Seq::<MoveAction>::empty(),
    {
        UciEngine { game: BitboardGame::new(), history: Vec::new(), keys: ZobristKeys::new() }
    }

    /// The game.
    pub fn game(&self) -> (game: &BitboardGame)
        ensures
            game@ == self.game_view(),
    {
        &self.game
    }

    /// Sets up the game of a `position` or `ucinewgame` command: a new game
    /// (if the command has one) clears the moves; each move is then played
    /// and recorded. Returns the moves that could not be played.
    pub fn new_game(&mut self, command: NewGameCommand) -> (invalid: Vec<Move>)
        requires
            old(self).wf(),
        ensures
            final(self).wf(),
            ({
                let start = match command.game { Some(g) => g@, None => old(self).game_view() };
                let before = match command.game { Some(_) => Seq::<MoveAction>::empty(), None => old(self).moves() };
                &&& final(self).game_view() == engine_play(start, command.moves@).0
                &&& invalid@ == engine_play(start, command.moves@).1
                &&& final(self).moves() == before + command.moves@
            }),
    {
        let NewGameCommand { game, moves } = command;
        match game {
            Some(g) => {
                self.game = g;
                self.history = Vec::new();
            },
            None => {},
        }
        let ghost start = self.game@;
        let ghost before = self.history@;
        let mut invalid: Vec<Move> = Vec::new();
        let mut i: usize = 0;
        while i < moves.len()
            invariant
                i <= moves@.len(),
                self.game@ == engine_play(start, moves@.take(i as int)).0,
                invalid@ == engine_play(start, moves@.take(i as int)).1,
                self.history@ == before + moves@.take(i as int),
                self.keys.wf(),
            decreases moves@.len() - i,
        {
            let mv = moves[i];
            proof {
                assert(moves@.take(i + 1).drop_last() =~= moves@.take(i as int));
                assert(moves@.take(i + 1).last() == mv);
            }
            proof {
                self.game.lemma_len();
            }
            let playable = valid_position_exec(&mv.mv.source) && valid_position_exec(&mv.mv.target) && self.game.has_both_kings();
            let made = if playable {
                self.game.do_move(&mv).is_some()
            } else {
                false
            };
            if !made {
                invalid.push(mv.mv);
            }
            self.history.push(mv);
            proof {
                assert(self.history@ =~= before + moves@.take(i + 1));
            }
            i += 1;
        }
        assert(moves@.take(moves@.len() as int) =~= moves@);
        invalid
    }

    /// Searches the game `depth` plies deep for the move to play, writing
    /// the outcome to `feedback`; `None` where the search cannot run: a
    /// king is missing, or a recorded move names no square.
    pub fn go<S: HasStopSignal, F: SearchFeedback>(&self, depth: u32, stop_signal: &mut S, feedback: &mut F) -> (best: Option<GameMove>)
        requires
            self.wf(),
        ensures
            best is Some <==> both_kings(self.game_view()) && history_searchable(self.moves(), depth),
            best matches Some(GameMove::Normal(m)) ==> is_legal_move(self.game_view(), m, stored_fn::<Bitboards>()),
            best matches Some(GameMove::Mate(t)) ==> (t == MateType::Checkmate <==> in_check(self.game_view())),
            best is Some && !has_legal_move(self.game_view(), stored_fn::<Bitboards>()) ==> best matches Some(GameMove::Mate(_)),
            best is Some && !old(stop_signal).may_stop() && crate::eval::replay(initial_view(), self.moves()) is Some
                ==> (best matches Some(GameMove::Mate(_)) <==> !has_legal_move(self.game_view(), stored_fn::<Bitboards>())),
            !old(stop_signal).may_stop() ==> (best matches Some(GameMove::Normal(m)) ==> exists|score: int| #[trigger] searched_best(
                self.hash_keys(),
                self.game_view(),
                crate::eval::replayed_entries(self.hash_keys(), self.moves()),
                depth as nat,
                m,
                score,
                stored_fn::<Bitboards>(),
            )),
    {
        proof {
            self.game.lemma_len();
        }
        if !self.game.has_both_kings() {
            return None;
        }
        if self.history.len() >= usize::MAX - 2 || depth as usize >= usize::MAX - 2 - self.history.len() {
            return None;
        }
        if !moves_name_squares(&self.history) {
            return None;
        }
        let best = self.game.get_best_move_with_logger(&self.history, depth, &self.keys, stop_signal, feedback);
        proof {
            if !old(stop_signal).may_stop() {
                if let GameMove::Normal(m) = best {
                    let score = choose|score: int| #[trigger] searched_best(
                        self.keys@,
                        self.game@,
                        crate::eval::replayed_entries(self.keys@, self.history@),
                        depth as nat,
                        m,
                        score,
                        stored_fn::<Bitboards>(),
                    );
                    assert(searched_best(
                        self.hash_keys(),
                        self.game_view(),
                        crate::eval::replayed_entries(self.hash_keys(), self.moves()),
                        depth as nat,
                        m,
                        score,
                        stored_fn::<Bitboards>(),
                    ));
                }
            }
        }
        Some(best)
    }
}

/// What the server asks of the engine.
pub enum EngineCommand {
    /// Set up a game.
    NewGame(NewGameCommand),
    /// Search this many plies deep.
    Go(u32),
    /// Stop the search.
    Stop,
    /// End the engine.
    Exit,
}

/// What the engine answers.
pub enum EngineResponse {
    Ready,
    Log(String),
    Info(EngineFeedbackMessage),
    BestBranch(Option<GameMove>),
    Error(String),
}

/// What the server does: write a reply, log a line, pass a command to the
/// engine, or end the session.
pub enum UciAction {
    Output(String),
    Log(String),
    Engine(EngineCommand),
    Quit,
}

/// An engine command as values.
pub enum CommandView {
    NewGame(Option<GameView>, Seq<MoveAction>),
    Go(u32),
    Stop,
    Exit,
}

/// An action as values; the text of a log line is not part of it.
pub enum ActionView {
    Output(Seq<char>),
    Log,
    Engine(CommandView),
    Quit,
}

pub open spec fn command_view(c: EngineCommand) -> CommandView {
    match c {
        EngineCommand::NewGame(cmd) => CommandView::NewGame(
            match cmd.game {
                Some(g) => Some(g@),
                None => None,
            },
            cmd.moves@,
        ),
        EngineCommand::Go(depth) => CommandView::Go(depth),
        EngineCommand::Stop => CommandView::Stop,
        EngineCommand::Exit => CommandView::Exit,
    }
}

pub open spec fn action_view(a: UciAction) -> ActionView {
    match a {
        UciAction::Output(s) => ActionView::Output(s@),
        UciAction::Log(_) => ActionView::Log,
        UciAction::Engine(c) => ActionView::Engine(command_view(c)),
        UciAction::Quit => ActionView::Quit,
    }
}

pub open spec fn actions_view(actions: Seq<UciAction>) -> Seq<ActionView> {
    actions.map_values(|a: UciAction| action_view(a))
}

/// The moves of a best move name squares of the board.
pub open spec fn move_on_board(mv: Option<GameMove>) -> bool {
    mv matches Some(GameMove::Normal(m)) ==> valid_position(m.mv.source) && valid_position(m.mv.target)
}

/// The `bestmove` reply; a move that names no square is given as `0000`.
pub open spec fn bestmove_line(mv: Option<GameMove>) -> Seq<char> {
    seq!['b', 'e', 's', 't', 'm', 'o', 'v', 'e', ' '] + if move_on_board(mv) { spec_uci_move(mv) } else { seq!['0', '0', '0', '0'] }
}

/// The `info` reply of a progress message.
pub open spec fn info_line(info: EngineFeedbackMessage) -> Seq<char> {
    seq!['i', 'n', 'f', 'o', ' ', 'd', 'e', 'p', 't', 'h', ' '] + decimal_chars(info.depth as nat)
        + seq![' ', 'n', 'o', 'd', 'e', 's', ' '] + decimal_chars(info.nodes as nat)
        + seq![' ', 's', 'c', 'o', 'r', 'e', ' ', 'c', 'p', ' '] + signed_chars(info.score as int, false)
}

/// The replies to `uci`: the name, the option and `uciok`.
pub open spec fn id_lines(version: Seq<char>) -> Seq<Seq<char>> {
    seq![
        seq!['i', 'd', ' ', 'n', 'a', 'm', 'e', ' ', 'C', 'h', 'u', 's', 's', 't', ' '] + version,
        seq!['o', 'p', 't', 'i', 'o', 'n', ' ', 'n', 'a', 'm', 'e', ' ', 'S', 'e', 'a', 'r', 'c', 'h', 'D', 'e', 'p', 't', 'h', ' ',
            't', 'y', 'p', 'e', ' ', 's', 'p', 'i', 'n', ' ', 'd', 'e', 'f', 'a', 'u', 'l', 't', ' ', '4', ' ',
            'm', 'i', 'n', ' ', '2', ' ', 'm', 'a', 'x', ' ', '5'],
        seq!['u', 'c', 'i', 'o', 'k'],
    ]
}

/// What the server does with the output of the protocol for a user
/// command: the new search depth and the actions.
pub open spec fn stdin_output(out: UciProtocolOutput, depth: u32, last: Option<Option<GameMove>>, version: Seq<char>, ws: Seq<Seq<char>>) -> (u32, Seq<ActionView>) {
    match out {
        UciProtocolOutput::OutputCommandId => {
            let lines = id_lines(version);
            (depth, seq![ActionView::Output(lines[0]), ActionView::Output(lines[1]), ActionView::Output(lines[2])])
        },
        UciProtocolOutput::EngineCommandSetOption => match spec_set_option(ws) {
            SetOptionResult::SearchDepth(v) => (v, Seq::empty()),
            _ => (depth, seq![ActionView::Log]),
        },
        UciProtocolOutput::OutputCommandReadyOk => (depth, seq![ActionView::Output(seq!['r', 'e', 'a', 'd', 'y', 'o', 'k'])]),
        UciProtocolOutput::EngineCommandNewGame => (depth, seq![ActionView::Engine(CommandView::NewGame(Some(initial_view()), Seq::empty()))]),
        UciProtocolOutput::EngineCommandPosition => match spec_position_command(ws) {
            Ok((g, moves)) => (depth, seq![ActionView::Engine(CommandView::NewGame(g, moves))]),
            Err(_) => (depth, seq![ActionView::Log]),
        },
        UciProtocolOutput::EngineCommandGo => if ws.len() > 1 && ws[1] == seq!['i', 'n', 'f', 'i', 'n', 'i', 't', 'e'] {
            (depth, seq![ActionView::Engine(CommandView::Go(depth))])
        } else {
            (depth, seq![ActionView::Log, ActionView::Quit])
        },
        UciProtocolOutput::EngineCommandStop => (depth, seq![ActionView::Engine(CommandView::Stop)]),
        UciProtocolOutput::OutputSavedCommandBestMove => match last {
            Some(b) => (depth, seq![ActionView::Output(bestmove_line(b))]),
            None => (depth, Seq::empty()),
        },
        _ => (depth, seq![ActionView::Log, ActionView::Quit]),
    }
}

/// What the server does with a user command (its words): the new state,
/// the new search depth and the actions. A change of state is logged.
pub open spec fn stdin_step(state: UciProtocolState, depth: u32, last: Option<Option<GameMove>>, version: Seq<char>, ws: Seq<Seq<char>>) -> (UciProtocolState, u32, Seq<ActionView>) {
    if ws.len() == 0 {
        (state, depth, Seq::empty())
    } else {
        match spec_command_word(ws[0]) {
            CommandWord::Quit => (state, depth, seq![ActionView::Quit]),
            CommandWord::Unknown => (state, depth, seq![ActionView::Log]),
            CommandWord::Input(input) => match spec_transition(state, input) {
                None => (state, depth, seq![ActionView::Log]),
                Some((next, out)) => {
                    let logged: Seq<ActionView> = if next != state { seq![ActionView::Log] } else { Seq::empty() };
                    match out {
                        None => (next, depth, logged),
                        Some(o) => {
                            let (d2, acts) = stdin_output(o, depth, last, version, ws);
                            (next, d2, logged + acts)
                        },
                    }
                },
            },
        }
    }
}

/// An engine response as values.
pub enum ResponseView {
    Ready,
    Log(Seq<char>),
    Info(EngineFeedbackMessage),
    BestBranch(Option<GameMove>),
    Error,
}

pub open spec fn response_view(r: EngineResponse) -> ResponseView {
    match r {
        EngineResponse::Ready => ResponseView::Ready,
        EngineResponse::Log(s) => ResponseView::Log(s@),
        EngineResponse::Info(i) => ResponseView::Info(i),
        EngineResponse::BestBranch(b) => ResponseView::BestBranch(b),
        EngineResponse::Error(_) => ResponseView::Error,
    }
}

/// Some character of the text is not whitespace.
pub open spec fn has_text(s: Seq<char>) -> bool {
    exists|i: int| 0 <= i < s.len() && !is_whitespace(s[i])
}

/// What the server does with an engine response: the new state, the new
/// saved best move and the actions. A change of state is logged.
pub open spec fn engine_step(state: UciProtocolState, last: Option<Option<GameMove>>, r: ResponseView) -> (UciProtocolState, Option<Option<GameMove>>, Seq<ActionView>) {
    match r {
        ResponseView::Ready => (state, last, Seq::empty()),
        ResponseView::Log(s) => (state, last, if has_text(s) { seq![ActionView::Log] } else { Seq::empty() }),
        ResponseView::Error => (state, last, seq![ActionView::Log, ActionView::Quit]),
        _ => {
            let input = if r is Info { UciProtocolInput::EngineInfo } else { UciProtocolInput::EngineResult };
            match spec_transition(state, input) {
                None => (state, last, seq![ActionView::Log]),
                Some((next, out)) => {
                    let logged: Seq<ActionView> = if next != state { seq![ActionView::Log] } else { Seq::empty() };
                    match (out, r) {
                        (None, _) => (next, last, logged),
                        (Some(UciProtocolOutput::SaveBestMove), ResponseView::BestBranch(b)) =>
                            (next, Some(b), logged.push(ActionView::Output(bestmove_line(b)))),
                        (Some(UciProtocolOutput::OutputCommandInfo), ResponseView::Info(i)) =>
                            (next, last, logged.push(ActionView::Output(info_line(i)))),
                        (Some(UciProtocolOutput::OutputCommandBestMove), ResponseView::BestBranch(b)) =>
                            (next, last, logged.push(ActionView::Output(bestmove_line(b)))),
                        _ => (next, last, logged + seq![ActionView::Log, ActionView::Quit]),
                    }
                },
            }
        },
    }
}

/// The server side of the protocol: the state machine, the search depth,
/// the last best move, and the version it reports.
pub struct UciServer {
    protocol: UciProtocol,
    search_depth: u32,
    last_best_move: Option<Option<GameMove>>,
    version: String,
}

fn text(s: &str) -> (t: String)
    ensures
        t@ == s@,
{
    let cs = str_chars(s);
    string_from_chars(&cs)
}

/// The `bestmove` reply.
pub fn bestmove_text(mv: &Option<GameMove>) -> (line: String)
    ensures
        line@ == bestmove_line(*mv),
{
    proof {
        reveal_strlit("bestmove ");
        reveal_strlit("0000");
    }
    let mut out: Vec<char> = Vec::new();
    push_str_chars(&mut out, "bestmove ");
    let on_board = match mv {
        Some(GameMove::Normal(m)) => valid_position_exec(&m.mv.source) && valid_position_exec(&m.mv.target),
        _ => true,
    };
    if on_board {
        let m = move_to_uci_string(mv);
        push_str_chars(&mut out, m.as_str());
    } else {
        push_str_chars(&mut out, "0000");
    }
    assert(out@ =~= bestmove_line(*mv));
    string_from_chars(&out)
}

/// The `info` reply of a progress message.
pub fn info_text(info: &EngineFeedbackMessage) -> (line: String)
    ensures
        line@ == info_line(*info),
{
    proof {
        reveal_strlit("info depth ");
        reveal_strlit(" nodes ");
        reveal_strlit(" score cp ");
    }
    let mut out: Vec<char> = Vec::new();
    push_str_chars(&mut out, "info depth ");
    push_decimal(&mut out, info.depth as u64);
    push_str_chars(&mut out, " nodes ");
    push_decimal(&mut out, info.nodes as u64);
    push_str_chars(&mut out, " score cp ");
    push_signed(&mut out, info.score as i64, false);
    assert(out@ =~= info_line(*info));
    string_from_chars(&out)
}

fn log(s: &str) -> (a: UciAction)
    ensures
        action_view(a) == ActionView::Log,
        a matches UciAction::Log(t) && t@ == s@,
{
    UciAction::Log(text(s))
}

impl UciServer {
    pub closed spec fn protocol_state(&self) -> UciProtocolState {
        self.protocol.spec_state()
    }

    pub closed spec fn depth(&self) -> u32 {
        self.search_depth
    }

    pub closed spec fn last_move(&self) -> Option<Option<GameMove>> {
        self.last_best_move
    }

    pub closed spec fn version_text(&self) -> Seq<char> {
        self.version@
    }

    /// A server in the initial state, which reports `version` and searches
    /// 3 plies deep until told otherwise.
    pub fn new(version: String) -> (server: UciServer)
        ensures
            server.protocol_state() == UciProtocolState::Initializing,
            server.depth() == 3,
            server.last_move() is None,
            server.version_text() == version@,
    {
        UciServer { protocol: UciProtocol::new(), search_depth: 3, last_best_move: None, version }
    }

    /// The current state of the protocol.
    pub fn state(&self) -> (state: UciProtocolState)
        ensures
            state == self.protocol_state(),
    {
        self.protocol.state()
    }

    /// Handles a user command, given as its words.
    pub fn handle_command(&mut self, words: &Vec<Vec<char>>) -> (actions: Vec<UciAction>)
        ensures
            ({
                let (state, depth, acts) = stdin_step(old(self).protocol_state(), old(self).depth(), old(self).last_move(),
                    old(self).version_text(), words@.map_values(|w: Vec<char>| w@));
                &&& final(self).protocol_state() == state
                &&& final(self).depth() == depth
                &&& final(self).last_move() == old(self).last_move()
                &&& final(self).version_text() == old(self).version_text()
                &&& actions_view(actions@) == acts
            }),
    {
        let ghost ws = words@.map_values(|w: Vec<char>| w@);
        let mut actions: Vec<UciAction> = Vec::new();
        if words.len() == 0 {
            assert(actions_view(actions@) =~= Seq::<ActionView>::empty());
            return actions;
        }
        assert(ws[0] == words@[0]@);
        let input = match command_word(&words[0]) {
            CommandWord::Quit => {
                actions.push(UciAction::Quit);
                assert(actions_view(actions@) =~= seq![ActionView::Quit]);
                return actions;
            },
            CommandWord::Unknown => {
                actions.push(log("Unknown command"));
                assert(actions_view(actions@) =~= seq![ActionView::Log]);
                return actions;
            },
            CommandWord::Input(input) => input,
        };
        let previous = self.protocol.state();
        let output = match self.protocol.consume(&input) {
            Ok(output) => output,
            Err(()) => {
                actions.push(log("Unexpected input, ignoring"));
                assert(actions_view(actions@) =~= seq![ActionView::Log]);
                return actions;
            },
        };
        if self.protocol.state() != previous {
            actions.push(log("New state"));
        }
        let ghost logged = actions_view(actions@);
        assert(logged =~= (if self.protocol.spec_state() != previous { seq![ActionView::Log] } else { Seq::<ActionView>::empty() }));
        let out = match output {
            None => {
                return actions;
            },
            Some(out) => out,
        };
        proof {
            reveal_strlit("id name Chusst ");
            reveal_strlit("option name SearchDepth type spin default 4 min 2 max 5");
            reveal_strlit("uciok");
            reveal_strlit("readyok");
        }
        match out {
            UciProtocolOutput::OutputCommandId => {
                let mut id: Vec<char> = Vec::new();
                push_str_chars(&mut id, "id name Chusst ");
                push_str_chars(&mut id, self.version.as_str());
                let ghost lines = id_lines(self.version@);
                assert(id@ =~= lines[0]);
                actions.push(UciAction::Output(string_from_chars(&id)));
                let option = text("option name SearchDepth type spin default 4 min 2 max 5");
                assert(option@ =~= lines[1]);
                actions.push(UciAction::Output(option));
                let ok = text("uciok");
                assert(ok@ =~= lines[2]);
                actions.push(UciAction::Output(ok));
                assert(actions_view(actions@) =~= logged + seq![ActionView::Output(lines[0]), ActionView::Output(lines[1]), ActionView::Output(lines[2])]);
            },
            UciProtocolOutput::EngineCommandSetOption => {
                match parse_set_option(words) {
                    SetOptionResult::SearchDepth(v) => {
                        self.search_depth = v;
                        assert(actions_view(actions@) =~= logged + Seq::<ActionView>::empty());
                    },
                    SetOptionResult::OutOfRange => {
                        actions.push(log("SearchDepth value out of range"));
                        assert(actions_view(actions@) =~= logged + seq![ActionView::Log]);
                    },
                    SetOptionResult::InvalidValue => {
                        actions.push(log("Invalid SearchDepth value"));
                        assert(actions_view(actions@) =~= logged + seq![ActionView::Log]);
                    },
                    SetOptionResult::UnknownParameter => {
                        actions.push(log("Unknown parameter"));
                        assert(actions_view(actions@) =~= logged + seq![ActionView::Log]);
                    },
                    SetOptionResult::Malformed => {
                        actions.push(log("Malformed setparam command"));
                        assert(actions_view(actions@) =~= logged + seq![ActionView::Log]);
                    },
                }
            },
            UciProtocolOutput::OutputCommandReadyOk => {
                let ok = text("readyok");
                assert(ok@ =~= seq!['r', 'e', 'a', 'd', 'y', 'o', 'k']);
                actions.push(UciAction::Output(ok));
                assert(actions_view(actions@) =~= logged + seq![ActionView::Output(seq!['r', 'e', 'a', 'd', 'y', 'o', 'k'])]);
            },
            UciProtocolOutput::EngineCommandNewGame => {
                let command = NewGameCommand { game: Some(BitboardGame::new()), moves: Vec::new() };
                actions.push(UciAction::Engine(EngineCommand::NewGame(command)));
                assert(actions_view(actions@) =~= logged + seq![ActionView::Engine(CommandView::NewGame(Some(initial_view()), Seq::empty()))]);
            },
            UciProtocolOutput::EngineCommandPosition => {
                match parse_position_command(words) {
                    Ok(command) => {
                        let ghost cv = command_view(EngineCommand::NewGame(command));
                        actions.push(UciAction::Engine(EngineCommand::NewGame(command)));
                        assert(actions_view(actions@) =~= logged + seq![ActionView::Engine(cv)]);
                    },
                    Err(_) => {
                        actions.push(log("Malformed position command"));
                        assert(actions_view(actions@) =~= logged + seq![ActionView::Log]);
                    },
                }
            },
            UciProtocolOutput::EngineCommandGo => {
                if is_go_infinite(words) {
                    actions.push(UciAction::Engine(EngineCommand::Go(self.search_depth)));
                    assert(actions_view(actions@) =~= logged + seq![ActionView::Engine(CommandView::Go(self.search_depth))]);
                } else {
                    actions.push(log("Error: Unknown go command"));
                    actions.push(UciAction::Quit);
                    assert(actions_view(actions@) =~= logged + seq![ActionView::Log, ActionView::Quit]);
                }
            },
            UciProtocolOutput::EngineCommandStop => {
                actions.push(UciAction::Engine(EngineCommand::Stop));
                assert(actions_view(actions@) =~= logged + seq![ActionView::Engine(CommandView::Stop)]);
            },
            UciProtocolOutput::OutputSavedCommandBestMove => {
                match &self.last_best_move {
                    Some(best) => {
                        let line = bestmove_text(best);
                        actions.push(UciAction::Output(line));
                        assert(actions_view(actions@) =~= logged + seq![ActionView::Output(bestmove_line(*best))]);
                    },
                    None => {
                        assert(actions_view(actions@) =~= logged + Seq::<ActionView>::empty());
                    },
                }
            },
            _ => {
                actions.push(log("Unexpected protocol state"));
                actions.push(UciAction::Quit);
                assert(actions_view(actions@) =~= logged + seq![ActionView::Log, ActionView::Quit]);
            },
        }
        actions
    }

    /// Handles a response of the engine.
    pub fn handle_engine(&mut self, response: EngineResponse) -> (actions: Vec<UciAction>)
        ensures
            ({
                let (state, last, acts) = engine_step(old(self).protocol_state(), old(self).last_move(), response_view(response));
                &&& final(self).protocol_state() == state
                &&& final(self).last_move() == last
                &&& final(self).depth() == old(self).depth()
                &&& final(self).version_text() == old(self).version_text()
                &&& actions_view(actions@) == acts
            }),
    {
        let ghost r = response_view(response);
        let mut actions: Vec<UciAction> = Vec::new();
        let input = match &response {
            EngineResponse::Ready => {
                assert(actions_view(actions@) =~= Seq::<ActionView>::empty());
                return actions;
            },
            EngineResponse::Log(message) => {
                if has_text_exec(message) {
                    let mut line: Vec<char> = Vec::new();
                    push_str_chars(&mut line, "(engine) ");
                    push_str_chars(&mut line, message.as_str());
                    actions.push(UciAction::Log(string_from_chars(&line)));
                    assert(actions_view(actions@) =~= seq![ActionView::Log]);
                } else {
                    assert(actions_view(actions@) =~= Seq::<ActionView>::empty());
                }
                return actions;
            },
            EngineResponse::Error(error) => {
                actions.push(UciAction::Log(error.clone()));
                actions.push(UciAction::Quit);
                assert(actions_view(actions@) =~= seq![ActionView::Log, ActionView::Quit]);
                return actions;
            },
            EngineResponse::Info(_) => UciProtocolInput::EngineInfo,
            EngineResponse::BestBranch(_) => UciProtocolInput::EngineResult,
        };
        let previous = self.protocol.state();
        let output = match self.protocol.consume(&input) {
            Ok(output) => output,
            Err(()) => {
                actions.push(log("Unexpected input, ignoring"));
                assert(actions_view(actions@) =~= seq![ActionView::Log]);
                return actions;
            },
        };
        if self.protocol.state() != previous {
            actions.push(log("New state"));
        }
        let ghost logged = actions_view(actions@);
        assert(logged =~= (if self.protocol.spec_state() != previous { seq![ActionView::Log] } else { Seq::<ActionView>::empty() }));
        match (output, &response) {
            (None, _) => {},
            (Some(UciProtocolOutput::SaveBestMove), EngineResponse::BestBranch(best)) => {
                let line = bestmove_text(best);
                actions.push(UciAction::Output(line));
                self.last_best_move = Some(*best);
                assert(actions_view(actions@) =~= logged.push(ActionView::Output(bestmove_line(*best))));
            },
            (Some(UciProtocolOutput::OutputCommandInfo), EngineResponse::Info(info)) => {
                let line = info_text(info);
                actions.push(UciAction::Output(line));
                assert(actions_view(actions@) =~= logged.push(ActionView::Output(info_line(*info))));
            },
            (Some(UciProtocolOutput::OutputCommandBestMove), EngineResponse::BestBranch(best)) => {
                let line = bestmove_text(best);
                actions.push(UciAction::Output(line));
                assert(actions_view(actions@) =~= logged.push(ActionView::Output(bestmove_line(*best))));
            },
            _ => {
                actions.push(log("Unexpected protocol state"));
                actions.push(UciAction::Quit);
                assert(actions_view(actions@) =~= logged + seq![ActionView::Log, ActionView::Quit]);
            },
        }
        actions
    }
}

/// Whether some character of a text is not whitespace.
fn has_text_exec(s: &String) -> (r: bool)
    ensures
        r == has_text(s@),
{
    let cs = str_chars(s.as_str());
    let mut i: usize = 0;
    while i < cs.len()
        invariant
            i <= cs@.len(),
            cs@ == s@,
            forall|j: int| 0 <= j < i ==> is_whitespace(cs@[j]),
        decreases cs@.len() - i,
    {
        if !is_whitespace_char(cs[i]) {
            return true;
        }
        i += 1;
    }
    false
}

} // verus!
