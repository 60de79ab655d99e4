use chusst::pgn::{LexerVisitor, Parser};
use chusst::pgn::{
    check_text, ending_text, move_type_text, parse_pgn_file, pgn_to_long_algebraic, tokenize, CheckType, Color,
    ConvertError, GameEnding, LexEvent, MoveType, PgnError, PromotionPieces,
};

fn lines(text: &str) -> Vec<Vec<char>> {
    text.lines().map(|l| l.chars().collect()).collect()
}

const GAME: &str = "[Event \"Casual\"]\n[White \"A\"]\n\n1. f3 e5 2. g4 Qh4# 0-1\n";

#[test]
fn lexer_events() {
    let (events, error) = tokenize(&lines("[Event \"X\"]\n1. e4 1... e5 *"));
    assert_eq!(error, None);
    let e: Vec<char> = "e4".chars().collect();
    assert!(events.contains(&LexEvent::SanMove(e)));
    assert!(events.contains(&LexEvent::MoveNumber(vec!['1'], Color::Black)));
    assert_eq!(events.first(), Some(&LexEvent::BeginGame));
    assert_eq!(events.last(), Some(&LexEvent::EndGame));
}

#[test]
fn lexer_errors() {
    assert_eq!(tokenize(&lines("e4")).1, Some(PgnError::ExpectedGameHeader(1)));
    assert_eq!(tokenize(&lines("[Event \"X\"]\n1. e4 ?")).1, Some(PgnError::UnexpectedToken(2, 6)));
    assert_eq!(tokenize(&lines("[Event \"X\"]")).1, Some(PgnError::IncompleteGame(1)));
    assert_eq!(tokenize(&lines("[Event X]")).1, Some(PgnError::MalformedTag(1)));
}

#[test]
fn parser_collects_games() {
    let games = parse_pgn_file(&lines(GAME)).ok().unwrap();
    assert_eq!(games.len(), 1);
    let game = &games[0];
    assert_eq!(game.tags.len(), 2);
    assert_eq!(game.tags[0].key, "Event");
    assert_eq!(game.tags[0].value, "Casual");
    assert_eq!(game.moves.len(), 2);
    assert_eq!(game.moves[1].white, "g4");
    assert_eq!(game.moves[1].black.as_deref(), Some("Qh4#"));
    assert_eq!(game.result, "0-1");
}

#[test]
fn two_games_in_a_file() {
    let text = "[Event \"A\"]\n1. e4 e5 *\n[Event \"B\"]\n1. d4\n";
    let games = parse_pgn_file(&lines(text)).ok().unwrap();
    assert_eq!(games.len(), 2);
    assert_eq!(games[1].moves.len(), 1);
    assert_eq!(games[1].result, "");
}

#[test]
fn replay_fools_mate() {
    let games = parse_pgn_file(&lines(GAME)).ok().unwrap();
    let detailed = pgn_to_long_algebraic(&games[0]).ok().unwrap();
    assert_eq!(detailed.moves.len(), 2);
    assert_eq!(detailed.moves[0].white.long, "f2-f3");
    assert_eq!(detailed.moves[0].black.as_ref().unwrap().move_type, MoveType::PassingPawn);
    let mate = detailed.moves[1].black.as_ref().unwrap();
    assert_eq!(mate.short, "Qh4#");
    assert_eq!(mate.long, "d8-h4");
    assert_eq!(mate.check_type, Some(CheckType::Checkmate));
    assert_eq!(detailed.ending, GameEnding::BlackWinsCheckmate);
    assert_eq!(ending_text(detailed.ending), ("0-1", "checkmate"));
}

#[test]
fn replay_errors() {
    let games = parse_pgn_file(&lines("[Event \"A\"]\n1. e5 *")).ok().unwrap();
    assert_eq!(pgn_to_long_algebraic(&games[0]).err(), Some(ConvertError::IllegalMove(0, Color::White)));
    let games = parse_pgn_file(&lines("[Event \"A\"]\n1. e4 *")).ok().unwrap();
    assert_eq!(pgn_to_long_algebraic(&games[0]).err(), Some(ConvertError::UnexpectedEnding));
}

#[test]
fn description_texts() {
    assert_eq!(move_type_text(MoveType::Normal), None);
    assert_eq!(move_type_text(MoveType::PromotionWithCapture(PromotionPieces::Knight)), Some("promotion to knight with capture"));
    assert_eq!(check_text(CheckType::Check), "check");
    assert_eq!(ending_text(GameEnding::Draw), ("1/2-1/2", "draw"));
}

#[test]
fn visitor_receives_events() {
    let mut parser = Parser::default();
    let name: Vec<char> = "Event".chars().collect();
    let value: Vec<char> = "X".chars().collect();
    assert_eq!(parser.visit(&LexEvent::Tag(name.clone(), value.clone())), Err(PgnError::NoCurrentGame));
    assert_eq!(parser.visit(&LexEvent::BeginGame), Ok(()));
    assert_eq!(parser.visit(&LexEvent::Tag(name, value)), Ok(()));
    assert_eq!(parser.visit(&LexEvent::BeginGame), Err(PgnError::UnexpectedNewGame));
    assert_eq!(parser.visit(&LexEvent::EndGame), Ok(()));
}

#[test]
fn visitor_reads_lines() {
    let mut parser = Parser::default();
    assert_eq!(parser.parse_lines(&lines(GAME)), parse_pgn_file(&lines(GAME)).map(|_| ()));
    let mut other = Parser::default();
    assert!(other.parse_lines(&lines("[Event \"X\"]\n")).is_err());
}

#[test]
fn white_win_and_draw_results_parse() {
    let games = parse_pgn_file(&lines("[Event \"A\"]\n\n1. e4 e5 2. Nf3 1-0\n")).unwrap();
    assert_eq!(games.len(), 1);
    assert_eq!(games[0].tags.len(), 1);
    assert_eq!(games[0].tags[0].key, "Event");
    assert_eq!(games[0].tags[0].value, "A");
    assert_eq!(games[0].moves.len(), 2);
    assert_eq!(games[0].moves[0].white, "e4");
    assert_eq!(games[0].moves[0].black, Some("e5".to_string()));
    assert_eq!(games[0].moves[1].white, "Nf3");
    assert_eq!(games[0].moves[1].black, None);
    assert_eq!(games[0].result, "1-0");
    let draw = parse_pgn_file(&lines("[Event \"B\"]\n\n1. e4 e5 1/2-1/2\n")).unwrap();
    assert_eq!(draw[0].result, "1/2-1/2");
}
