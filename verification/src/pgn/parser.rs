//! The PGN parser: it collects the games that the lexer reads, with their
//! tags, their moves (a White move and the Black reply) and their result.
//! Variations are skipped.

use super::lexer::{lex_all, tokenize, tokens, Color, LexEvent, LexToken, LexerVisitor, PgnError};
use crate::text::string_from_chars;
use vstd::prelude::*;

verus! {

/// A move of White and, if it was played, the reply of Black.
pub struct Move {
    pub white: String,
    pub black: Option<String>,
}

/// A header tag.
pub struct Tag {
    pub key: String,
    pub value: String,
}

/// A game: its tags, its moves and its result.
pub struct PGN {
    pub tags: Vec<Tag>,
    pub moves: Vec<Move>,
    pub result: String,
}

/// The text of an optional string.
pub open spec fn opt_text(s: Option<String>) -> Option<Seq<char>> {
    match s {
        Some(t) => Some(t@),
        None => None,
    }
}

impl View for Move {
    type V = (Seq<char>, Option<Seq<char>>);

    open spec fn view(&self) -> (Seq<char>, Option<Seq<char>>) {
        (self.white@, opt_text(self.black))
    }
}

impl View for Tag {
    type V = (Seq<char>, Seq<char>);

    open spec fn view(&self) -> (Seq<char>, Seq<char>) {
        (self.key@, self.value@)
    }
}

/// A game as texts.
pub struct PgnView {
    pub tags: Seq<(Seq<char>, Seq<char>)>,
    pub moves: Seq<(Seq<char>, Option<Seq<char>>)>,
    pub result: Seq<char>,
}

impl View for PGN {
    type V = PgnView;

    open spec fn view(&self) -> PgnView {
        PgnView {
            tags: self.tags@.map_values(|t: Tag| t@),
            moves: self.moves@.map_values(|m: Move| m@),
            result: self.result@,
        }
    }
}

impl Clone for Tag {
    fn clone(&self) -> (copy: Self)
        ensures
            copy@ == self@,
    {
        Tag { key: self.key.clone(), value: self.value.clone() }
    }
}

impl Default for PGN {
    fn default() -> (pgn: Self)
        ensures
            pgn@ == empty_pgn(),
    {
        let pgn = PGN { tags: Vec::new(), moves: Vec::new(), result: String::new() };
        assert(pgn@.tags =~= Seq::<(Seq<char>, Seq<char>)>::empty());
        assert(pgn@.moves =~= Seq::<(Seq<char>, Option<Seq<char>>)>::empty());
        pgn
    }
}

/// A game with nothing read yet.
pub open spec fn empty_pgn() -> PgnView {
    PgnView { tags: Seq::empty(), moves: Seq::empty(), result: Seq::empty() }
}

/// What the parser holds: the games read, the game being read and the
/// depth of variations.
pub struct ParserView {
    pub pgns: Seq<PgnView>,
    pub current: Option<PgnView>,
    pub variation_level: u32,
}

/// The parser before anything is read.
pub open spec fn initial_parser() -> ParserView {
    ParserView { pgns: Seq::empty(), current: None, variation_level: 0 }
}

/// A move added to the moves of a game: the reply of Black to the last
/// move of White if it has none, else a new move of White.
pub open spec fn add_san_move(moves: Seq<(Seq<char>, Option<Seq<char>>)>, mv: Seq<char>) -> Seq<(Seq<char>, Option<Seq<char>>)> {
    if moves.len() == 0 || moves.last().1 is Some {
        moves.push((mv, None))
    } else {
        moves.update(moves.len() - 1, (moves.last().0, Some(mv)))
    }
}

/// What the parser does with one report of the lexer.
pub open spec fn parser_apply(st: ParserView, token: LexToken) -> Result<ParserView, PgnError> {
    match token {
        LexToken::BeginGame => if st.current is Some {
            Err(PgnError::UnexpectedNewGame)
        } else {
            Ok(ParserView { current: Some(empty_pgn()), ..st })
        },
        LexToken::Tag(name, value) => match st.current {
            Some(c) => Ok(ParserView { current: Some(PgnView { tags: c.tags.push((name, value)), ..c }), ..st }),
            None => Err(PgnError::NoCurrentGame),
        },
        LexToken::SanMove(mv) => if st.variation_level > 0 {
            Ok(st)
        } else {
            match st.current {
                Some(c) => Ok(ParserView { current: Some(PgnView { moves: add_san_move(c.moves, mv), ..c }), ..st }),
                None => Err(PgnError::NoCurrentGame),
            }
        },
        LexToken::GameResult(result) => match st.current {
            Some(c) => Ok(ParserView { current: Some(PgnView { result, ..c }), ..st }),
            None => Err(PgnError::NoCurrentGame),
        },
        LexToken::EndGame => match st.current {
            Some(c) => Ok(ParserView { pgns: st.pgns.push(c), current: None, ..st }),
            None => Ok(st),
        },
        _ => Ok(st),
    }
}

/// What the parser does with the reports of the lexer, in order.
pub open spec fn parser_run(st: ParserView, events: Seq<LexToken>) -> Result<ParserView, PgnError>
    decreases events.len(),
{
    if events.len() == 0 {
        Ok(st)
    } else {
        match parser_run(st, events.drop_last()) {
            Ok(s) => parser_apply(s, events.last()),
            Err(e) => Err(e),
        }
    }
}

/// The games of a PGN file, or why it cannot be read: the first error of
/// the parser, else that of the lexer.
pub open spec fn parse_games(lines: Seq<Seq<char>>) -> Result<Seq<PgnView>, PgnError> {
    let (events, error) = lex_all(lines);
    match parser_run(initial_parser(), events) {
        Err(e) => Err(e),
        Ok(st) => match error {
            Some(e) => Err(e),
            None => Ok(st.pgns),
        },
    }
}

/// The collector of games.
pub struct Parser {
    pgns: Vec<PGN>,
    current: Option<PGN>,
    variation_level: u32,
}

/// The view of an optional game.
pub open spec fn opt_pgn(p: Option<PGN>) -> Option<PgnView> {
    match p {
        Some(g) => Some(g@),
        None => None,
    }
}

impl View for Parser {
    type V = ParserView;

    closed spec fn view(&self) -> ParserView {
        ParserView {
            pgns: self.pgns@.map_values(|g: PGN| g@),
            current: opt_pgn(self.current),
            variation_level: self.variation_level,
        }
    }
}

impl Default for Parser {
    fn default() -> (parser: Self)
        ensures
            parser@ == initial_parser(),
    {
        let parser = Parser { pgns: Vec::new(), current: None, variation_level: 0 };
        assert(parser@.pgns =~= Seq::<PgnView>::empty());
        parser
    }
}

/// The outcome of a visitor method, as `parser_apply` gives it.
pub open spec fn applied(before: ParserView, token: LexToken, after: ParserView, r: Result<(), PgnError>) -> bool {
    match parser_apply(before, token) {
        Ok(s) => r is Ok && after == s,
        Err(e) => r == Err::<(), PgnError>(e) && after == before,
    }
}

impl Parser {
    /// Reads the lines of a PGN file and returns its games.
    pub fn parse_file(lines: &Vec<Vec<char>>) -> (result: Result<Vec<PGN>, PgnError>)
        requires
            lines@.len() < u32::MAX,
        ensures
            match parse_games(lines@.map_values(|l: Vec<char>| l@)) {
                Ok(games) => result matches Ok(v) && v@.map_values(|g: PGN| g@) == games,
                Err(e) => result matches Err(e2) && e2 == e,
            },
    {
        let mut parser = Parser::default();
        let (events, error) = tokenize(lines);
        let ghost evs = tokens(events@);
        let mut i: usize = 0;
        while i < events.len()
            invariant
                i <= events@.len(),
                evs == tokens(events@),
                evs == lex_all(lines@.map_values(|l: Vec<char>| l@)).0,
                parser_run(initial_parser(), evs.take(i as int)) == Ok::<ParserView, PgnError>(parser@),
            decreases events@.len() - i,
        {
            proof {
                assert(evs.take(i + 1).drop_last() =~= evs.take(i as int));
                assert(evs.take(i + 1).last() == events@[i as int]@);
            }
            match parser.apply(&events[i]) {
                Ok(()) => {},
                Err(e) => {
                    proof {
                        lemma_run_stops(evs, i as int + 1);
                    }
                    return Err(e);
                },
            }
            i += 1;
        }
        assert(evs.take(events@.len() as int) =~= evs);
        match error {
            Some(e) => Err(e),
            None => Ok(parser.pgns),
        }
    }

    /// Moves the game being read, if any, to the games read.
    fn save_current_game(&mut self)
        ensures
            final(self)@ == match old(self)@.current {
                Some(c) => ParserView { pgns: old(self)@.pgns.push(c), current: None, ..old(self)@ },
                None => old(self)@,
            },
    {
        let current = self.current.take();
        match current {
            Some(game) => {
                let ghost before = self.pgns@;
                let ghost g = game@;
                self.pgns.push(game);
                assert(self.pgns@.map_values(|p: PGN| p@) =~= before.map_values(|p: PGN| p@).push(g));
            },
            None => {},
        }
    }

    /// Passes one event to the matching visitor method.
    fn apply(&mut self, event: &LexEvent) -> (r: Result<(), PgnError>)
        ensures
            applied(old(self)@, event@, final(self)@, r),
    {
        match event {
            LexEvent::BeginGame => self.begin_game(),
            LexEvent::BeginHeader => self.begin_header(),
            LexEvent::Tag(name, value) => self.tag(name, value),
            LexEvent::EndHeader => self.end_header(),
            LexEvent::BeginMovetext => self.begin_movetext(),
            LexEvent::MoveNumber(number, color) => self.move_number(number, *color),
            LexEvent::SanMove(mv) => self.san_move(mv),
            LexEvent::GameResult(result) => self.result(result),
            LexEvent::EndMovetext => self.end_movetext(),
            LexEvent::EndGame => self.end_game(),
        }
    }
}

/// Reads the games of a PGN file, given as its lines.
pub fn parse_pgn_file(lines: &Vec<Vec<char>>) -> (result: Result<Vec<PGN>, PgnError>)
    requires
        lines@.len() < u32::MAX,
    ensures
        match parse_games(lines@.map_values(|l: Vec<char>| l@)) {
            Ok(games) => result matches Ok(v) && v@.map_values(|g: PGN| g@) == games,
            Err(e) => result matches Err(e2) && e2 == e,
        },
{
    Parser::parse_file(lines)
}

/// Once the parser refuses a report, the error stands whatever follows.
proof fn lemma_run_stops(evs: Seq<LexToken>, k: int)
    requires
        0 < k <= evs.len(),
        parser_run(initial_parser(), evs.take(k)) is Err,
    ensures
        parser_run(initial_parser(), evs) == parser_run(initial_parser(), evs.take(k)),
    decreases evs.len() - k,
{
    if k < evs.len() {
        assert(evs.take(k + 1).drop_last() =~= evs.take(k));
        lemma_run_stops(evs, k + 1);
    } else {
        assert(evs.take(k) =~= evs);
    }
}

impl LexerVisitor for Parser {
    open spec fn receives(self, token: LexToken, next: Self, r: Result<(), PgnError>) -> bool {
        applied(self@, token, next@, r)
    }

    fn begin_game(&mut self) -> (r: Result<(), PgnError>)
        ensures
            applied(old(self)@, LexToken::BeginGame, final(self)@, r),
    {
        if self.current.is_some() {
            return Err(PgnError::UnexpectedNewGame);
        }
        self.current = Some(PGN::default());
        Ok(())
    }

    fn begin_header(&mut self) -> (r: Result<(), PgnError>)
        ensures
            applied(old(self)@, LexToken::BeginHeader, final(self)@, r),
    {
        Ok(())
    }

    fn tag(&mut self, name: &Vec<char>, value: &Vec<char>) -> (r: Result<(), PgnError>)
        ensures
            applied(old(self)@, LexToken::Tag(name@, value@), final(self)@, r),
    {
        let tag = Tag { key: string_from_chars(name), value: string_from_chars(value) };
        match &mut self.current {
            Some(current) => {
                let ghost before = current.tags@;
                current.tags.push(tag);
                assert(current.tags@.map_values(|t: Tag| t@) =~= before.map_values(|t: Tag| t@).push((name@, value@)));
                Ok(())
            },
            None => Err(PgnError::NoCurrentGame),
        }
    }

    fn end_header(&mut self) -> (r: Result<(), PgnError>)
        ensures
            applied(old(self)@, LexToken::EndHeader, final(self)@, r),
    {
        Ok(())
    }

    fn begin_movetext(&mut self) -> (r: Result<(), PgnError>)
        ensures
            applied(old(self)@, LexToken::BeginMovetext, final(self)@, r),
    {
        Ok(())
    }

    fn move_number(&mut self, number: &Vec<char>, color: Color) -> (r: Result<(), PgnError>)
        ensures
            applied(old(self)@, LexToken::MoveNumber(number@, color), final(self)@, r),
    {
        Ok(())
    }

    fn san_move(&mut self, mv: &Vec<char>) -> (r: Result<(), PgnError>)
        ensures
            applied(old(self)@, LexToken::SanMove(mv@), final(self)@, r),
    {
        if self.variation_level > 0 {
            return Ok(());
        }
        let text = string_from_chars(mv);
        match &mut self.current {
            Some(current) => {
                let ghost before = current.moves@;
                let n = current.moves.len();
                if n == 0 || current.moves[n - 1].black.is_some() {
                    current.moves.push(Move { white: text, black: None });
                    assert(current.moves@.map_values(|m: Move| m@) =~= add_san_move(before.map_values(|m: Move| m@), mv@));
                } else {
                    let white = current.moves[n - 1].white.clone();
                    current.moves.set(n - 1, Move { white, black: Some(text) });
                    assert(current.moves@.map_values(|m: Move| m@) =~= add_san_move(before.map_values(|m: Move| m@), mv@));
                }
                Ok(())
            },
            None => Err(PgnError::NoCurrentGame),
        }
    }

    fn begin_comment(&mut self) -> (r: Result<(), PgnError>)
        ensures
            r is Ok && final(self)@ == old(self)@,
    {
        Ok(())
    }

    fn comment_data(&mut self, data: &Vec<char>) -> (r: Result<(), PgnError>)
        ensures
            r is Ok && final(self)@ == old(self)@,
    {
        Ok(())
    }

    fn end_comment(&mut self) -> (r: Result<(), PgnError>)
        ensures
            r is Ok && final(self)@ == old(self)@,
    {
        Ok(())
    }

    /// Enters a variation: its moves are skipped. The depth wraps around
    /// past `u32::MAX`.
    fn begin_variation(&mut self) -> (r: Result<(), PgnError>)
        ensures
            r is Ok,
            final(self)@ == (ParserView { variation_level: old(self)@.variation_level.wrapping_add(1), ..old(self)@ }),
    {
        self.variation_level = self.variation_level.wrapping_add(1);
        Ok(())
    }

    fn end_variation(&mut self) -> (r: Result<(), PgnError>)
        ensures
            old(self)@.variation_level == 0 ==> r == Err::<(), PgnError>(PgnError::UnexpectedEndOfVariation) && final(self)@ == old(self)@,
            old(self)@.variation_level > 0 ==> r is Ok
                && final(self)@ == (ParserView { variation_level: (old(self)@.variation_level - 1) as u32, ..old(self)@ }),
    {
        if self.variation_level == 0 {
            return Err(PgnError::UnexpectedEndOfVariation);
        }
        self.variation_level = self.variation_level - 1;
        Ok(())
    }

    fn result(&mut self, result: &Vec<char>) -> (r: Result<(), PgnError>)
        ensures
            applied(old(self)@, LexToken::GameResult(result@), final(self)@, r),
    {
        let text = string_from_chars(result);
        match &mut self.current {
            Some(current) => {
                current.result = text;
                Ok(())
            },
            None => Err(PgnError::NoCurrentGame),
        }
    }

    fn end_movetext(&mut self) -> (r: Result<(), PgnError>)
        ensures
            applied(old(self)@, LexToken::EndMovetext, final(self)@, r),
    {
        Ok(())
    }

    fn end_game(&mut self) -> (r: Result<(), PgnError>)
        ensures
            applied(old(self)@, LexToken::EndGame, final(self)@, r),
    {
        self.save_current_game();
        Ok(())
    }
}

} // verus!
