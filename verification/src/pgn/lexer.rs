//! The PGN lexer: it reads the lines of a PGN file and reports what it
//! finds (games, header tags, move numbers, moves, results) to a visitor.

use crate::text::{is_whitespace, is_whitespace_char};
use vstd::prelude::*;

verus! {

/// Where the lexer is in a game.
#[derive(Copy, Clone, Debug, PartialEq, Eq, Structural)]
pub enum PgnSection {
    Nothing,
    Header,
    Movetext,
}

/// The player of a move number: `12.` is White's, `12...` is Black's.
#[derive(Copy, Clone, Debug, PartialEq, Eq, Structural)]
pub enum Color {
    White,
    Black,
}

/// Why a PGN file cannot be read. Lines are numbered from 1.
#[derive(Copy, Clone, Debug, PartialEq, Eq, Structural)]
pub enum PgnError {
    /// Outside a game, a line holds something other than a tag.
    ExpectedGameHeader(u32),
    /// The movetext holds an unknown token, at this line and character.
    UnexpectedToken(u32, usize),
    /// A game starts with a bracket that opens no well-formed tag.
    MalformedTag(u32),
    /// The file ends inside a game's header.
    IncompleteGame(u32),
    /// A game begins while another is being read.
    UnexpectedNewGame,
    /// A game's data comes outside any game.
    NoCurrentGame,
    /// A variation ends that was not open.
    UnexpectedEndOfVariation,
}

/// What the lexer reports, in order.
pub enum LexToken {
    BeginGame,
    BeginHeader,
    Tag(Seq<char>, Seq<char>),
    EndHeader,
    BeginMovetext,
    MoveNumber(Seq<char>, Color),
    SanMove(Seq<char>),
    GameResult(Seq<char>),
    EndMovetext,
    EndGame,
}

/// A report of the lexer, with its texts.
#[derive(Clone, Debug, PartialEq, Eq)]
pub enum LexEvent {
    BeginGame,
    BeginHeader,
    Tag(Vec<char>, Vec<char>),
    EndHeader,
    BeginMovetext,
    MoveNumber(Vec<char>, Color),
    SanMove(Vec<char>),
    GameResult(Vec<char>),
    EndMovetext,
    EndGame,
}

impl View for LexEvent {
    type V = LexToken;

    open spec fn view(&self) -> LexToken {
        match self {
            LexEvent::BeginGame => LexToken::BeginGame,
            LexEvent::BeginHeader => LexToken::BeginHeader,
            LexEvent::Tag(name, value) => LexToken::Tag(name@, value@),
            LexEvent::EndHeader => LexToken::EndHeader,
            LexEvent::BeginMovetext => LexToken::BeginMovetext,
            LexEvent::MoveNumber(number, color) => LexToken::MoveNumber(number@, *color),
            LexEvent::SanMove(mv) => LexToken::SanMove(mv@),
            LexEvent::GameResult(result) => LexToken::GameResult(result@),
            LexEvent::EndMovetext => LexToken::EndMovetext,
            LexEvent::EndGame => LexToken::EndGame,
        }
    }
}

/// The reports of a sequence of events.
pub open spec fn tokens(events: Seq<LexEvent>) -> Seq<LexToken> {
    events.map_values(|e: LexEvent| e@)
}

/// The classes of characters whose runs the lexer reads.
#[derive(Copy, Clone, Debug, PartialEq, Eq, Structural)]
pub enum CharClass {
    /// Whitespace (`char::is_whitespace`).
    Space,
    /// ASCII letters.
    Alpha,
    /// Space, tab, carriage return and line feed.
    MultiSpace,
    /// Anything but a double quote.
    NotQuote,
    /// ASCII digits.
    Digit,
    /// The characters of a move in standard algebraic notation.
    San,
}

pub open spec fn in_class(c: char, class: CharClass) -> bool {
    match class {
        CharClass::Space => is_whitespace(c),
        CharClass::Alpha => ('a' <= c && c <= 'z') || ('A' <= c && c <= 'Z'),
        CharClass::MultiSpace => c == ' ' || c == '\t' || c == '\r' || c == '\n',
        CharClass::NotQuote => c != '"',
        CharClass::Digit => '0' <= c && c <= '9',
        CharClass::San => ('a' <= c && c <= 'h') || c == 'K' || c == 'Q' || c == 'R' || c == 'B' || c == 'N'
            || c == 'O' || c == 'x' || c == '=' || c == '+' || c == '#' || c == '-' || ('1' <= c && c <= '8'),
    }
}

/// The end of the run of characters of a class that starts at `pos`.
pub open spec fn run_end(line: Seq<char>, pos: int, class: CharClass) -> int
    decreases line.len() - pos,
{
    if 0 <= pos < line.len() && in_class(line[pos], class) {
        run_end(line, pos + 1, class)
    } else {
        pos
    }
}

/// The first character at or after `pos` that is not whitespace
/// (`str::trim_start`).
pub open spec fn skip_space(line: Seq<char>, pos: int) -> int {
    run_end(line, pos, CharClass::Space)
}

pub proof fn lemma_run_end(line: Seq<char>, pos: int, class: CharClass)
    requires
        0 <= pos <= line.len(),
    ensures
        pos <= run_end(line, pos, class) <= line.len(),
        forall|i: int| pos <= i < run_end(line, pos, class) ==> in_class(#[trigger] line[i], class),
        run_end(line, pos, class) < line.len() ==> !in_class(line[run_end(line, pos, class)], class),
    decreases line.len() - pos,
{
    if pos < line.len() && in_class(line[pos], class) {
        lemma_run_end(line, pos + 1, class);
    }
}

/// A header tag at `pos`: `[Name "value"]`; its end, name and value.
pub open spec fn tag_token(line: Seq<char>, pos: int) -> Option<(int, Seq<char>, Seq<char>)> {
    let a = pos + 1;
    let b = run_end(line, a, CharClass::Alpha);
    let c = run_end(line, b, CharClass::MultiSpace);
    let d = run_end(line, c + 1, CharClass::NotQuote);
    if 0 <= pos < line.len() && line[pos] == '[' && b > a && c > b && c < line.len() && line[c] == '"' && d > c + 1
        && d + 1 < line.len() && line[d] == '"' && line[d + 1] == ']' {
        Some((d + 2, line.subrange(a, b), line.subrange(c + 1, d)))
    } else {
        None
    }
}

/// A move number of Black at `pos`: digits and `...`; its end and digits.
pub open spec fn black_number_token(line: Seq<char>, pos: int) -> Option<(int, Seq<char>)> {
    let d = run_end(line, pos, CharClass::Digit);
    if d > pos && d + 2 < line.len() && line[d] == '.' && line[d + 1] == '.' && line[d + 2] == '.' {
        Some((d + 3, line.subrange(pos, d)))
    } else {
        None
    }
}

/// A move number of White at `pos`: digits and `.`; its end and digits.
pub open spec fn white_number_token(line: Seq<char>, pos: int) -> Option<(int, Seq<char>)> {
    let d = run_end(line, pos, CharClass::Digit);
    if d > pos && d < line.len() && line[d] == '.' {
        Some((d + 1, line.subrange(pos, d)))
    } else {
        None
    }
}

/// A move at `pos`: a run of move characters; its end and text.
pub open spec fn san_token(line: Seq<char>, pos: int) -> Option<(int, Seq<char>)> {
    let e = run_end(line, pos, CharClass::San);
    if e > pos {
        Some((e, line.subrange(pos, e)))
    } else {
        None
    }
}

/// The text at `pos` starts with `word`.
pub open spec fn starts_with_at(line: Seq<char>, pos: int, word: Seq<char>) -> bool {
    0 <= pos && pos + word.len() <= line.len() && line.subrange(pos, pos + word.len()) == word
}

/// A game result at `pos`: `1-0`, `0-1`, `1/2-1/2` or `*`; its end and text.
pub open spec fn result_token(line: Seq<char>, pos: int) -> Option<(int, Seq<char>)> {
    if starts_with_at(line, pos, seq!['1', '-', '0']) {
        Some((pos + 3, seq!['1', '-', '0']))
    } else if starts_with_at(line, pos, seq!['0', '-', '1']) {
        Some((pos + 3, seq!['0', '-', '1']))
    } else if starts_with_at(line, pos, seq!['1', '/', '2', '-', '1', '/', '2']) {
        Some((pos + 7, seq!['1', '/', '2', '-', '1', '/', '2']))
    } else if starts_with_at(line, pos, seq!['*']) {
        Some((pos + 1, seq!['*']))
    } else {
        None
    }
}

/// One step of the lexer.
pub enum LexStep {
    /// Reports, the position after them and the new section.
    Next(Seq<LexToken>, int, PgnSection),
    /// The line cannot be read.
    Fail(PgnError),
}

/// A game that opens at `pos` with its first tag, after `before`.
pub open spec fn open_game(line: Seq<char>, pos: int, n: u32, before: Seq<LexToken>) -> LexStep {
    match tag_token(line, pos) {
        Some((e, name, value)) => LexStep::Next(
            before + seq![LexToken::BeginGame, LexToken::BeginHeader, LexToken::Tag(name, value)],
            e,
            PgnSection::Header,
        ),
        None => LexStep::Fail(PgnError::MalformedTag(n)),
    }
}

/// What the lexer does at the character at `pos` (not whitespace) of line
/// `n` in a section.
///
/// A bracket always opens a game, whose first tag is read at once: a
/// bracket that opens no well-formed tag is refused (read step by step, the
/// game would be left and entered again at the same place forever). In the
/// movetext a game result is read before a move number or a move, so that
/// `1-0` and `1/2-1/2`, whose characters a move may hold, end the game.
pub open spec fn lex_step(section: PgnSection, line: Seq<char>, pos: int, n: u32) -> LexStep {
    match section {
        PgnSection::Nothing => if line[pos] == '[' {
            open_game(line, pos, n, Seq::empty())
        } else {
            LexStep::Fail(PgnError::ExpectedGameHeader(n))
        },
        PgnSection::Header => match tag_token(line, pos) {
            Some((e, name, value)) => LexStep::Next(seq![LexToken::Tag(name, value)], e, PgnSection::Header),
            None => if line[pos] == '[' {
                LexStep::Fail(PgnError::MalformedTag(n))
            } else {
                LexStep::Next(seq![LexToken::EndHeader, LexToken::BeginMovetext], pos, PgnSection::Movetext)
            },
        },
        PgnSection::Movetext => if let Some((e, result)) = result_token(line, pos) {
            LexStep::Next(seq![LexToken::GameResult(result), LexToken::EndMovetext, LexToken::EndGame], e, PgnSection::Nothing)
        } else if let Some((e, digits)) = black_number_token(line, pos) {
            LexStep::Next(seq![LexToken::MoveNumber(digits, Color::Black)], e, PgnSection::Movetext)
        } else if let Some((e, digits)) = white_number_token(line, pos) {
            LexStep::Next(seq![LexToken::MoveNumber(digits, Color::White)], e, PgnSection::Movetext)
        } else if let Some((e, mv)) = san_token(line, pos) {
            LexStep::Next(seq![LexToken::SanMove(mv)], e, PgnSection::Movetext)
        } else if line[pos] == '[' {
            open_game(line, pos, n, seq![LexToken::EndMovetext, LexToken::EndGame])
        } else {
            LexStep::Fail(PgnError::UnexpectedToken(n, pos as usize))
        },
    }
}

pub open spec fn section_rank(section: PgnSection) -> int {
    match section {
        PgnSection::Nothing => 2,
        PgnSection::Header => 1,
        PgnSection::Movetext => 0,
    }
}

/// A step moves on, or stays only to pass from the header to the movetext.
pub proof fn lemma_step_progress(section: PgnSection, line: Seq<char>, pos: int, n: u32)
    requires
        0 <= pos < line.len(),
    ensures
        lex_step(section, line, pos, n) matches LexStep::Next(_, q, s2) ==> (pos < q <= line.len()
            || (q == pos && section == PgnSection::Header && s2 == PgnSection::Movetext)),
{
    lemma_run_end(line, pos + 1, CharClass::Alpha);
    let b = run_end(line, pos + 1, CharClass::Alpha);
    lemma_run_end(line, b, CharClass::MultiSpace);
    let c = run_end(line, b, CharClass::MultiSpace);
    if c + 1 <= line.len() {
        lemma_run_end(line, c + 1, CharClass::NotQuote);
    }
    lemma_run_end(line, pos, CharClass::Digit);
    lemma_run_end(line, pos, CharClass::San);
}

/// The reports of a line from `pos` on and the section it ends in, or why
/// it cannot be read.
pub open spec fn lex_from(section: PgnSection, line: Seq<char>, pos: int, n: u32) -> (Seq<LexToken>, Result<PgnSection, PgnError>)
    decreases line.len() - pos, section_rank(section),
{
    if pos < 0 || pos > line.len() {
        (Seq::empty(), Ok(section))
    } else {
        let p = skip_space(line, pos);
        proof {
            lemma_run_end(line, pos, CharClass::Space);
        }
        if p >= line.len() {
            (Seq::empty(), Ok(section))
        } else {
            proof {
                lemma_step_progress(section, line, p, n);
            }
            match lex_step(section, line, p, n) {
                LexStep::Next(events, q, next) => {
                    let (rest, end) = lex_from(next, line, q, n);
                    (events + rest, end)
                },
                LexStep::Fail(e) => (Seq::empty(), Err(e)),
            }
        }
    }
}

/// The reports of the lines of a file and the section it ends in, or why
/// it cannot be read.
pub open spec fn lex_lines(lines: Seq<Seq<char>>) -> (Seq<LexToken>, Result<PgnSection, PgnError>)
    decreases lines.len(),
{
    if lines.len() == 0 {
        (Seq::empty(), Ok(PgnSection::Nothing))
    } else {
        let (events, end) = lex_lines(lines.drop_last());
        match end {
            Err(e) => (events, Err(e)),
            Ok(section) => {
                let (more, end2) = lex_from(section, lines.last(), 0, lines.len() as u32);
                (events + more, end2)
            },
        }
    }
}

/// The reports of a whole file and the error that stops it, if any: a game
/// still in its movetext at the end of the file ends there; one still in
/// its header is incomplete.
pub open spec fn lex_all(lines: Seq<Seq<char>>) -> (Seq<LexToken>, Option<PgnError>) {
    let (events, end) = lex_lines(lines);
    match end {
        Err(e) => (events, Some(e)),
        Ok(PgnSection::Nothing) => (events, None),
        Ok(PgnSection::Header) => (events, Some(PgnError::IncompleteGame(lines.len() as u32))),
        Ok(PgnSection::Movetext) => (events + seq![LexToken::EndMovetext, LexToken::EndGame], None),
    }
}

fn in_class_exec(c: char, class: CharClass) -> (r: bool)
    ensures
        r == in_class(c, class),
{
    match class {
        CharClass::Space => is_whitespace_char(c),
        CharClass::Alpha => ('a' <= c && c <= 'z') || ('A' <= c && c <= 'Z'),
        CharClass::MultiSpace => c == ' ' || c == '\t' || c == '\r' || c == '\n',
        CharClass::NotQuote => c != '"',
        CharClass::Digit => '0' <= c && c <= '9',
        CharClass::San => ('a' <= c && c <= 'h') || c == 'K' || c == 'Q' || c == 'R' || c == 'B' || c == 'N'
            || c == 'O' || c == 'x' || c == '=' || c == '+' || c == '#' || c == '-' || ('1' <= c && c <= '8'),
    }
}

fn run_end_exec(line: &Vec<char>, pos: usize, class: CharClass) -> (end: usize)
    requires
        pos <= line@.len(),
    ensures
        end == run_end(line@, pos as int, class),
        pos <= end <= line@.len(),
{
    let mut i = pos;
    proof {
        lemma_run_end(line@, pos as int, class);
    }
    while i < line.len() && in_class_exec(line[i], class)
        invariant
            pos <= i <= line@.len(),
            run_end(line@, i as int, class) == run_end(line@, pos as int, class),
        decreases line@.len() - i,
    {
        i += 1;
    }
    i
}

fn sub_chars(line: &Vec<char>, a: usize, b: usize) -> (out: Vec<char>)
    requires
        a <= b <= line@.len(),
    ensures
        out@ == line@.subrange(a as int, b as int),
{
    let mut out: Vec<char> = Vec::new();
    let mut i = a;
    while i < b
        invariant
            a <= i <= b <= line@.len(),
            out@ == line@.subrange(a as int, i as int),
        decreases b - i,
    {
        out.push(line[i]);
        i += 1;
        assert(out@ =~= line@.subrange(a as int, i as int));
    }
    out
}

fn pgn_tag(line: &Vec<char>, pos: usize) -> (tag: Option<(usize, Vec<char>, Vec<char>)>)
    requires
        pos < line@.len(),
    ensures
        match tag_token(line@, pos as int) {
            Some((e, name, value)) => tag matches Some((e2, n2, v2)) && e2 == e && n2@ == name && v2@ == value,
            None => tag is None,
        },
{
    let len = line.len();
    if line[pos] != '[' {
        return None;
    }
    let a = pos + 1;
    let b = run_end_exec(line, a, CharClass::Alpha);
    let c = run_end_exec(line, b, CharClass::MultiSpace);
    if !(b > a && c > b && c < len && line[c] == '"') {
        return None;
    }
    let d = run_end_exec(line, c + 1, CharClass::NotQuote);
    if !(d > c + 1 && d < len && len - d > 1 && line[d] == '"' && line[d + 1] == ']') {
        return None;
    }
    Some((d + 2, sub_chars(line, a, b), sub_chars(line, c + 1, d)))
}

fn number_at(line: &Vec<char>, pos: usize, black: bool) -> (number: Option<(usize, Vec<char>)>)
    requires
        pos < line@.len(),
    ensures
        match if black { black_number_token(line@, pos as int) } else { white_number_token(line@, pos as int) } {
            Some((e, digits)) => number matches Some((e2, d2)) && e2 == e && d2@ == digits,
            None => number is None,
        },
{
    let len = line.len();
    let d = run_end_exec(line, pos, CharClass::Digit);
    if d == pos {
        return None;
    }
    if black {
        if d < len && len - d > 2 && line[d] == '.' && line[d + 1] == '.' && line[d + 2] == '.' {
            Some((d + 3, sub_chars(line, pos, d)))
        } else {
            None
        }
    } else {
        if d < line.len() && line[d] == '.' {
            Some((d + 1, sub_chars(line, pos, d)))
        } else {
            None
        }
    }
}

/// A move number of Black: digits and `...`.
fn black_move_number(line: &Vec<char>, pos: usize) -> (number: Option<(usize, Vec<char>)>)
    requires
        pos < line@.len(),
    ensures
        match black_number_token(line@, pos as int) {
            Some((e, digits)) => number matches Some((e2, d2)) && e2 == e && d2@ == digits,
            None => number is None,
        },
{
    number_at(line, pos, true)
}

/// A move number of White: digits and `.`.
fn white_move_number(line: &Vec<char>, pos: usize) -> (number: Option<(usize, Vec<char>)>)
    requires
        pos < line@.len(),
    ensures
        match white_number_token(line@, pos as int) {
            Some((e, digits)) => number matches Some((e2, d2)) && e2 == e && d2@ == digits,
            None => number is None,
        },
{
    number_at(line, pos, false)
}

fn san_move(line: &Vec<char>, pos: usize) -> (mv: Option<(usize, Vec<char>)>)
    requires
        pos < line@.len(),
    ensures
        match san_token(line@, pos as int) {
            Some((e, text)) => mv matches Some((e2, t2)) && e2 == e && t2@ == text,
            None => mv is None,
        },
{
    let e = run_end_exec(line, pos, CharClass::San);
    if e > pos {
        Some((e, sub_chars(line, pos, e)))
    } else {
        None
    }
}

/// Whether the text at `pos` starts with `word`.
fn starts_with_exec(line: &Vec<char>, pos: usize, word: &Vec<char>) -> (r: bool)
    requires
        pos <= line@.len(),
    ensures
        r == starts_with_at(line@, pos as int, word@),
{
    let len = line.len();
    if word.len() > len - pos {
        return false;
    }
    let mut i: usize = 0;
    while i < word.len()
        invariant
            i <= word@.len(),
            pos + word@.len() <= line@.len(),
            len == line@.len(),
            forall|j: int| 0 <= j < i ==> line@[pos + j] == word@[j],
        decreases word@.len() - i,
    {
        if line[pos + i] != word[i] {
            assert(line@.subrange(pos as int, pos + word@.len())[i as int] != word@[i as int]);
            return false;
        }
        i += 1;
    }
    assert(line@.subrange(pos as int, pos + word@.len()) =~= word@);
    true
}

fn result(line: &Vec<char>, pos: usize) -> (result: Option<(usize, Vec<char>)>)
    requires
        pos < line@.len(),
    ensures
        match result_token(line@, pos as int) {
            Some((e, text)) => result matches Some((e2, t2)) && e2 == e && t2@ == text,
            None => result is None,
        },
{
    let len = line.len();
    let white_wins = vec!['1', '-', '0'];
    let black_wins = vec!['0', '-', '1'];
    let draw = vec!['1', '/', '2', '-', '1', '/', '2'];
    let unknown = vec!['*'];
    assert(white_wins@ =~= seq!['1', '-', '0']);
    assert(black_wins@ =~= seq!['0', '-', '1']);
    assert(draw@ =~= seq!['1', '/', '2', '-', '1', '/', '2']);
    assert(unknown@ =~= seq!['*']);
    if starts_with_exec(line, pos, &white_wins) {
        Some((pos + 3, white_wins))
    } else if starts_with_exec(line, pos, &black_wins) {
        Some((pos + 3, black_wins))
    } else if starts_with_exec(line, pos, &draw) {
        Some((pos + 7, draw))
    } else if starts_with_exec(line, pos, &unknown) {
        Some((pos + 1, unknown))
    } else {
        None
    }
}

/// Appends the events of a game that opens at `pos`; the position after
/// its first tag, or the error.
fn open_game_exec(line: &Vec<char>, pos: usize, n: u32, events: &mut Vec<LexEvent>) -> (r: Result<usize, PgnError>)
    requires
        pos < line@.len(),
    ensures
        match open_game(line@, pos as int, n, Seq::empty()) {
            LexStep::Next(evs, q, _) => r == Ok::<usize, PgnError>(q as usize) && tokens(final(events)@) == tokens(old(events)@) + evs,
            LexStep::Fail(e) => r == Err::<usize, PgnError>(e) && final(events)@ == old(events)@,
        },
{
    match pgn_tag(line, pos) {
        Some((e, name, value)) => {
            let ghost before = events@;
            events.push(LexEvent::BeginGame);
            events.push(LexEvent::BeginHeader);
            events.push(LexEvent::Tag(name, value));
            assert(tokens(events@) =~= tokens(before) + seq![LexToken::BeginGame, LexToken::BeginHeader, LexToken::Tag(name@, value@)]);
            assert(Seq::<LexToken>::empty() + seq![LexToken::BeginGame, LexToken::BeginHeader, LexToken::Tag(name@, value@)]
                =~= seq![LexToken::BeginGame, LexToken::BeginHeader, LexToken::Tag(name@, value@)]);
            Ok(e)
        },
        None => Err(PgnError::MalformedTag(n)),
    }
}

/// Appends the events of one step at `pos`; the position and section after
/// it, or the error.
fn lex_step_exec(section: PgnSection, line: &Vec<char>, pos: usize, n: u32, events: &mut Vec<LexEvent>) -> (r: Result<(usize, PgnSection), PgnError>)
    requires
        pos < line@.len(),
    ensures
        match lex_step(section, line@, pos as int, n) {
            LexStep::Next(evs, q, next) => r == Ok::<(usize, PgnSection), PgnError>((q as usize, next))
                && tokens(final(events)@) == tokens(old(events)@) + evs,
            LexStep::Fail(e) => r == Err::<(usize, PgnSection), PgnError>(e) && final(events)@ == old(events)@,
        },
{
    proof {
        lemma_step_progress(section, line@, pos as int, n);
    }
    let ghost before = events@;
    match section {
        PgnSection::Nothing => {
            if line[pos] == '[' {
                match open_game_exec(line, pos, n, events) {
                    Ok(q) => Ok((q, PgnSection::Header)),
                    Err(e) => Err(e),
                }
            } else {
                Err(PgnError::ExpectedGameHeader(n))
            }
        },
        PgnSection::Header => {
            match pgn_tag(line, pos) {
                Some((e, name, value)) => {
                    events.push(LexEvent::Tag(name, value));
                    assert(tokens(events@) =~= tokens(before) + seq![LexToken::Tag(name@, value@)]);
                    Ok((e, PgnSection::Header))
                },
                None => {
                    if line[pos] == '[' {
                        Err(PgnError::MalformedTag(n))
                    } else {
                        events.push(LexEvent::EndHeader);
                        events.push(LexEvent::BeginMovetext);
                        assert(tokens(events@) =~= tokens(before) + seq![LexToken::EndHeader, LexToken::BeginMovetext]);
                        Ok((pos, PgnSection::Movetext))
                    }
                },
            }
        },
        PgnSection::Movetext => {
            if let Some((e, result)) = result(line, pos) {
                events.push(LexEvent::GameResult(result));
                events.push(LexEvent::EndMovetext);
                events.push(LexEvent::EndGame);
                assert(tokens(events@) =~= tokens(before) + seq![LexToken::GameResult(result@), LexToken::EndMovetext, LexToken::EndGame]);
                Ok((e, PgnSection::Nothing))
            } else if let Some((e, digits)) = black_move_number(line, pos) {
                events.push(LexEvent::MoveNumber(digits, Color::Black));
                assert(tokens(events@) =~= tokens(before) + seq![LexToken::MoveNumber(digits@, Color::Black)]);
                Ok((e, PgnSection::Movetext))
            } else if let Some((e, digits)) = white_move_number(line, pos) {
                events.push(LexEvent::MoveNumber(digits, Color::White));
                assert(tokens(events@) =~= tokens(before) + seq![LexToken::MoveNumber(digits@, Color::White)]);
                Ok((e, PgnSection::Movetext))
            } else if let Some((e, mv)) = san_move(line, pos) {
                events.push(LexEvent::SanMove(mv));
                assert(tokens(events@) =~= tokens(before) + seq![LexToken::SanMove(mv@)]);
                Ok((e, PgnSection::Movetext))
            } else if line[pos] == '[' {
                if pgn_tag(line, pos).is_none() {
                    return Err(PgnError::MalformedTag(n));
                }
                events.push(LexEvent::EndMovetext);
                events.push(LexEvent::EndGame);
                let ghost mid = events@;
                match open_game_exec(line, pos, n, events) {
                    Ok(q) => {
                        proof {
                            assert(tokens(mid) =~= tokens(before) + seq![LexToken::EndMovetext, LexToken::EndGame]);
                            match tag_token(line@, pos as int) {
                                Some((_, name, value)) => {
                                    assert(tokens(events@) =~= tokens(before) + (seq![LexToken::EndMovetext, LexToken::EndGame]
                                        + seq![LexToken::BeginGame, LexToken::BeginHeader, LexToken::Tag(name, value)]));
                                },
                                None => {},
                            }
                        }
                        Ok((q, PgnSection::Header))
                    },
                    Err(e) => Err(e),
                }
            } else {
                Err(PgnError::UnexpectedToken(n, pos))
            }
        },
    }
}

/// Appends the events of a line; the section it ends in, or the error.
fn lex_line_exec(section: PgnSection, line: &Vec<char>, n: u32, events: &mut Vec<LexEvent>) -> (r: Result<PgnSection, PgnError>)
    ensures
        r == lex_from(section, line@, 0, n).1,
        tokens(final(events)@) == tokens(old(events)@) + lex_from(section, line@, 0, n).0,
{
    let ghost start = tokens(events@);
    let mut pos: usize = 0;
    let mut sec = section;
    while pos <= line.len()
        invariant
            pos <= line@.len(),
            start == tokens(old(events)@),
            lex_from(section, line@, 0, n).1 == lex_from(sec, line@, pos as int, n).1,
            tokens(events@) + lex_from(sec, line@, pos as int, n).0 == start + lex_from(section, line@, 0, n).0,
        decreases line@.len() - pos, section_rank(sec),
    {
        let p = run_end_exec(line, pos, CharClass::Space);
        if p >= line.len() {
            assert(tokens(events@) + Seq::<LexToken>::empty() =~= tokens(events@));
            return Ok(sec);
        }
        proof {
            lemma_step_progress(sec, line@, p as int, n);
        }
        let ghost before = tokens(events@);
        match lex_step_exec(sec, line, p, n, events) {
            Ok((q, next)) => {
                proof {
                    let evs = lex_step(sec, line@, p as int, n)->Next_0;
                    assert(before + lex_from(sec, line@, pos as int, n).0 =~= before + evs + lex_from(next, line@, q as int, n).0);
                }
                pos = q;
                sec = next;
            },
            Err(e) => {
                assert(tokens(events@) + Seq::<LexToken>::empty() =~= tokens(events@));
                return Err(e);
            },
        }
    }
    Ok(sec)
}

/// Reads the lines of a PGN file: the events in order, and the error that
/// stopped the reading, if any.
pub fn tokenize(lines: &Vec<Vec<char>>) -> (result: (Vec<LexEvent>, Option<PgnError>))
    requires
        lines@.len() < u32::MAX,
    ensures
        tokens(result.0@) == lex_all(lines@.map_values(|l: Vec<char>| l@)).0,
        result.1 == lex_all(lines@.map_values(|l: Vec<char>| l@)).1,
{
    let ghost ls = lines@.map_values(|l: Vec<char>| l@);
    let mut events: Vec<LexEvent> = Vec::new();
    let mut section = PgnSection::Nothing;
    let mut i: usize = 0;
    while i < lines.len()
        invariant
            i <= lines@.len(),
            lines@.len() < u32::MAX,
            ls == lines@.map_values(|l: Vec<char>| l@),
            lex_lines(ls.take(i as int)) == (tokens(events@), Ok::<PgnSection, PgnError>(section)),
        decreases lines@.len() - i,
    {
        proof {
            assert(ls.take(i + 1).drop_last() =~= ls.take(i as int));
            assert(ls.take(i + 1).last() == lines@[i as int]@);
        }
        match lex_line_exec(section, &lines[i], (i + 1) as u32, &mut events) {
            Ok(next) => {
                section = next;
            },
            Err(e) => {
                proof {
                    lemma_lex_lines_stops(ls, i as int + 1);
                }
                return (events, Some(e));
            },
        }
        i += 1;
    }
    assert(ls.take(lines@.len() as int) =~= ls);
    match section {
        PgnSection::Nothing => (events, None),
        PgnSection::Header => (events, Some(PgnError::IncompleteGame(lines.len() as u32))),
        PgnSection::Movetext => {
            let ghost before = tokens(events@);
            events.push(LexEvent::EndMovetext);
            events.push(LexEvent::EndGame);
            assert(tokens(events@) =~= before + seq![LexToken::EndMovetext, LexToken::EndGame]);
            (events, None)
        },
    }
}

/// Once a line cannot be read, the error stands whatever lines follow.
proof fn lemma_lex_lines_stops(ls: Seq<Seq<char>>, k: int)
    requires
        0 < k <= ls.len(),
        lex_lines(ls.take(k)).1 is Err,
    ensures
        lex_lines(ls) == lex_lines(ls.take(k)),
    decreases ls.len() - k,
{
    if k < ls.len() {
        assert(ls.take(k + 1).drop_last() =~= ls.take(k));
        lemma_lex_lines_stops(ls, k + 1);
    } else {
        assert(ls.take(k) =~= ls);
    }
}

/// The receiver of what the lexer reads, implemented by the program that
/// collects the games. Each method may refuse what it receives.
pub trait LexerVisitor: Sized {
    /// What receiving a report may make of the visitor (`next`), and whether
    /// it accepts the report (`r`).
    spec fn receives(self, token: LexToken, next: Self, r: Result<(), PgnError>) -> bool;

    fn begin_game(&mut self) -> (r: Result<(), PgnError>)
        ensures
            (*old(self)).receives(LexToken::BeginGame, *final(self), r),
    ;

    fn begin_header(&mut self) -> (r: Result<(), PgnError>)
        ensures
            (*old(self)).receives(LexToken::BeginHeader, *final(self), r),
    ;

    fn tag(&mut self, name: &Vec<char>, value: &Vec<char>) -> (r: Result<(), PgnError>)
        ensures
            (*old(self)).receives(LexToken::Tag(name@, value@), *final(self), r),
    ;

    fn end_header(&mut self) -> (r: Result<(), PgnError>)
        ensures
            (*old(self)).receives(LexToken::EndHeader, *final(self), r),
    ;

    fn begin_movetext(&mut self) -> (r: Result<(), PgnError>)
        ensures
            (*old(self)).receives(LexToken::BeginMovetext, *final(self), r),
    ;

    fn move_number(&mut self, number: &Vec<char>, color: Color) -> (r: Result<(), PgnError>)
        ensures
            (*old(self)).receives(LexToken::MoveNumber(number@, color), *final(self), r),
    ;

    fn san_move(&mut self, mv: &Vec<char>) -> (r: Result<(), PgnError>)
        ensures
            (*old(self)).receives(LexToken::SanMove(mv@), *final(self), r),
    ;

    fn begin_comment(&mut self) -> Result<(), PgnError>;

    fn comment_data(&mut self, data: &Vec<char>) -> Result<(), PgnError>;

    fn end_comment(&mut self) -> Result<(), PgnError>;

    fn begin_variation(&mut self) -> Result<(), PgnError>;

    fn end_variation(&mut self) -> Result<(), PgnError>;

    fn result(&mut self, result: &Vec<char>) -> (r: Result<(), PgnError>)
        ensures
            (*old(self)).receives(LexToken::GameResult(result@), *final(self), r),
    ;

    fn end_movetext(&mut self) -> (r: Result<(), PgnError>)
        ensures
            (*old(self)).receives(LexToken::EndMovetext, *final(self), r),
    ;

    fn end_game(&mut self) -> (r: Result<(), PgnError>)
        ensures
            (*old(self)).receives(LexToken::EndGame, *final(self), r),
    ;

    /// Passes one event to the matching method.
    fn visit(&mut self, event: &LexEvent) -> (result: Result<(), PgnError>)
        ensures
            (*old(self)).receives(event@, *final(self), result),
    {
        match event {
            LexEvent::BeginGame => self.begin_game(),
            LexEvent::BeginHeader => self.begin_header(),
            LexEvent::Tag(name, value) => self.tag(name, value),
            LexEvent::EndHeader => self.end_header(),
            LexEvent::BeginMovetext => self.begin_movetext(),
            LexEvent::MoveNumber(number, color) => self.move_number(number, *color),
            LexEvent::SanMove(mv) => self.san_move(mv),
            LexEvent::GameResult(result) => self.result(result),
            LexEvent::EndMovetext => self.end_movetext(),
            LexEvent::EndGame => self.end_game(),
        }
    }

    /// Reads the lines of a PGN file and passes what it finds to the
    /// visitor, in order, until the visitor refuses something or the lexer
    /// cannot read on; the first of these errors is returned.
    fn parse_lines(&mut self, lines: &Vec<Vec<char>>) -> (result: Result<(), PgnError>)
        requires
            lines@.len() < u32::MAX,
        ensures
            result is Ok ==> lex_all(lines@.map_values(|l: Vec<char>| l@)).1 is None,
            lines_received(
                |a: Self, t: LexToken, b: Self, x: Result<(), PgnError>| a.receives(t, b, x),
                *old(self),
                lex_all(lines@.map_values(|l: Vec<char>| l@)),
                *final(self),
                result,
            ),
    {
        let (events, error) = tokenize(lines);
        let ghost toks = tokens(events@);
        let ghost step = |a: Self, t: LexToken, b: Self, x: Result<(), PgnError>| a.receives(t, b, x);
        let ghost mut states: Seq<Self> = seq![*self];
        let mut i: usize = 0;
        while i < events.len()
            invariant
                i <= events@.len(),
                toks == tokens(events@),
                toks == lex_all(lines@.map_values(|l: Vec<char>| l@)).0,
                error == lex_all(lines@.map_values(|l: Vec<char>| l@)).1,
                step == (|a: Self, t: LexToken, b: Self, x: Result<(), PgnError>| a.receives(t, b, x)),
                accepted_prefix(step, *old(self), toks, states, i as int),
                states[i as int] == *self,
            decreases events@.len() - i,
        {
            let ghost before = *self;
            let r = self.visit(&events[i]);
            proof {
                assert(toks[i as int] == events@[i as int]@);
                assert(step(before, toks[i as int], *self, r));
            }
            match r {
                Ok(()) => {
                    proof {
                        let next = states.push(*self);
                        assert(r is Ok);
                        let u: () = r->Ok_0;
                        assert(u == ());
                        assert(r == Ok::<(), PgnError>(()));
                        assert(next[i as int] == before);
                        assert(next[i + 1] == *self);
                        assert forall|j: int| 0 <= j < i + 1 implies step(#[trigger] next[j], toks[j], next[j + 1], Ok(())) by {
                            if j < i {
                                assert(next[j] == states[j] && next[j + 1] == states[j + 1]);
                                assert(step(states[j], toks[j], states[j + 1], Ok(())));
                            } else {
                                assert(j == i);
                                assert(step(before, toks[i as int], *self, Ok(())));
                            }
                        }
                        states = next;
                    }
                },
                Err(e) => {
                    proof {
                        let lexed = lex_all(lines@.map_values(|l: Vec<char>| l@));
                        assert(lexed.0 == toks);
                        assert(accepted_prefix(step, *old(self), lexed.0, states, i as int));
                        assert(step(states[i as int], lexed.0[i as int], *self, Err::<(), PgnError>(e)));
                        assert(lines_received(step, *old(self), lexed, *self, Err::<(), PgnError>(e)));
                    }
                    return Err(e);
                },
            }
            i += 1;
        }
        let result = match error {
            Some(e) => Err(e),
            None => Ok(()),
        };
        proof {
            let lexed = lex_all(lines@.map_values(|l: Vec<char>| l@));
            assert(lexed.0 == toks);
            assert(accepted_prefix(step, *old(self), lexed.0, states, i as int));
            assert(lines_received(step, *old(self), lexed, *self, result));
        }
        result
    }
}

/// The visitors `states` that `v` becomes by receiving, one after another
/// and each accepted, the first `k` reports.
pub open spec fn accepted_prefix<V>(
    step: spec_fn(V, LexToken, V, Result<(), PgnError>) -> bool,
    v: V,
    toks: Seq<LexToken>,
    states: Seq<V>,
    k: int,
) -> bool {
    &&& 0 <= k <= toks.len()
    &&& states.len() == k + 1
    &&& states[0] == v
    &&& forall|j: int| 0 <= j < k ==> step(#[trigger] states[j], toks[j], states[j + 1], Ok(()))
}

/// What reading lines does to a visitor `v` that receives reports by
/// `step`, with what the lexer read of them: it receives the reports in
/// order until it refuses one, and becomes `w`; the outcome is its refusal,
/// else the lexer's error, else success.
pub open spec fn lines_received<V>(
    step: spec_fn(V, LexToken, V, Result<(), PgnError>) -> bool,
    v: V,
    lexed: (Seq<LexToken>, Option<PgnError>),
    w: V,
    result: Result<(), PgnError>,
) -> bool {
    exists|states: Seq<V>, k: int| {
        &&& #[trigger] accepted_prefix(step, v, lexed.0, states, k)
        &&& k < lexed.0.len() ==> result is Err && step(states[k], lexed.0[k], w, result)
        &&& k == lexed.0.len() ==> w == states[k] && result == match lexed.1 {
            Some(e) => Err(e),
            None => Ok(()),
        }
    }
}

} // verus!
