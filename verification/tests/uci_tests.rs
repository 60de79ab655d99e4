use chusst::board::Position;
use chusst::eval::{EngineFeedbackMessage, GameMove, MateType, SilentSearchFeedback};
use chusst::game::{Move, MoveAction, MoveActionType};
use chusst::uci::{
    bestmove_text, command_word, info_text, move_to_uci_string, parse_command, parse_position_command, parse_set_option,
    parse_u32_chars, CommandWord, EngineCommand, EngineResponse, PositionCommandError, SetOptionResult, UciAction, UciEngine,
    UciProtocol, UciProtocolInput, UciProtocolOutput, UciProtocolState, UciServer,
};

fn words(line: &str) -> Vec<Vec<char>> {
    parse_command(line)
}

fn chars(s: &str) -> Vec<char> {
    s.chars().collect()
}

fn outputs(actions: &[UciAction]) -> Vec<String> {
    actions
        .iter()
        .filter_map(|a| match a {
            UciAction::Output(s) => Some(s.clone()),
            _ => None,
        })
        .collect()
}

#[test]
fn protocol_transitions() {
    let mut protocol = UciProtocol::new();
    assert_eq!(protocol.state(), UciProtocolState::Initializing);
    assert!(protocol.consume(&UciProtocolInput::CommandGo).is_err());
    assert_eq!(protocol.state(), UciProtocolState::Initializing);
    assert_eq!(protocol.consume(&UciProtocolInput::CommandUci), Ok(Some(UciProtocolOutput::OutputCommandId)));
    assert_eq!(protocol.state(), UciProtocolState::Ready);
    assert_eq!(protocol.consume(&UciProtocolInput::CommandGo), Ok(Some(UciProtocolOutput::EngineCommandGo)));
    assert_eq!(protocol.state(), UciProtocolState::Searching);
    assert_eq!(protocol.consume(&UciProtocolInput::EngineInfo), Ok(Some(UciProtocolOutput::OutputCommandInfo)));
    assert_eq!(protocol.consume(&UciProtocolInput::CommandStop), Ok(Some(UciProtocolOutput::EngineCommandStop)));
    assert_eq!(protocol.state(), UciProtocolState::WaitingForResult);
    assert_eq!(protocol.consume(&UciProtocolInput::CommandStop), Ok(None));
    assert_eq!(protocol.consume(&UciProtocolInput::EngineResult), Ok(Some(UciProtocolOutput::OutputCommandBestMove)));
    assert_eq!(protocol.state(), UciProtocolState::Ready);
    assert_eq!(protocol.consume(&UciProtocolInput::CommandStop), Ok(Some(UciProtocolOutput::OutputSavedCommandBestMove)));
}

#[test]
fn command_words() {
    assert_eq!(command_word(&chars("uci")), CommandWord::Input(UciProtocolInput::CommandUci));
    assert_eq!(command_word(&chars("isready")), CommandWord::Input(UciProtocolInput::CommandIsReady));
    assert_eq!(command_word(&chars("ucinewgame")), CommandWord::Input(UciProtocolInput::CommandUciNewGame));
    assert_eq!(command_word(&chars("quit")), CommandWord::Quit);
    assert_eq!(command_word(&chars("hello")), CommandWord::Unknown);
    assert_eq!(words("  position\tstartpos  moves e2e4\u{a0}e7e5 "), vec![chars("position"), chars("startpos"), chars("moves"), chars("e2e4"), chars("e7e5")]);
}

#[test]
fn set_option_values() {
    assert_eq!(parse_set_option(&words("setoption name SearchDepth value 5")), SetOptionResult::SearchDepth(5));
    assert_eq!(parse_set_option(&words("setoption name SearchDepth value +2")), SetOptionResult::SearchDepth(2));
    assert_eq!(parse_set_option(&words("setoption name SearchDepth value 6")), SetOptionResult::OutOfRange);
    assert_eq!(parse_set_option(&words("setoption name SearchDepth value x")), SetOptionResult::InvalidValue);
    assert_eq!(parse_set_option(&words("setoption name Hash value 1")), SetOptionResult::UnknownParameter);
    assert_eq!(parse_set_option(&words("setoption name SearchDepth")), SetOptionResult::Malformed);
    assert_eq!(parse_u32_chars(&chars("4294967295")), Some(4294967295));
    assert_eq!(parse_u32_chars(&chars("4294967296")), None);
    assert_eq!(parse_u32_chars(&chars("+")), None);
    assert_eq!(parse_u32_chars(&chars("-1")), None);
}

#[test]
fn position_commands() {
    let cmd = parse_position_command(&words("position startpos moves e2e4 e7e5 zz g1f3")).ok().unwrap();
    assert!(cmd.game.is_some());
    assert_eq!(cmd.moves.len(), 3);
    assert_eq!(cmd.moves[2].mv.target, Position { rank: 2, file: 5 });
    let cmd = parse_position_command(&words("position fen 8/8/8/8/8/8/8/K6k w - - 0 1")).ok().unwrap();
    assert_eq!(cmd.game.unwrap().to_fen(), "8/8/8/8/8/8/8/K6k w - - 0 1");
    let cmd = parse_position_command(&words("position moves a2a4")).ok().unwrap();
    assert!(cmd.game.is_none());
    assert_eq!(cmd.moves.len(), 1);
    assert_eq!(parse_position_command(&words("position")).err(), Some(PositionCommandError::MalformedCommand));
    assert_eq!(parse_position_command(&words("position fen 8/8 w")).err(), Some(PositionCommandError::MalformedFen));
    assert_eq!(parse_position_command(&words("position startpos e2e4")).err(), Some(PositionCommandError::MalformedMoves));
}

#[test]
fn reply_texts() {
    let mv = MoveAction {
        mv: Move { source: Position { rank: 1, file: 4 }, target: Position { rank: 3, file: 4 } },
        move_type: MoveActionType::Normal,
    };
    assert_eq!(move_to_uci_string(&Some(GameMove::Normal(mv))), "e2e4");
    assert_eq!(move_to_uci_string(&Some(GameMove::Mate(MateType::Checkmate))), "0000");
    assert_eq!(move_to_uci_string(&None), "0000");
    assert_eq!(bestmove_text(&Some(GameMove::Normal(mv))), "bestmove e2e4");
    assert_eq!(info_text(&EngineFeedbackMessage { depth: 3, nodes: 120, score: -45 }), "info depth 3 nodes 120 score cp -45");
}

#[test]
fn server_session() {
    let mut server = UciServer::new("1.0".to_string());
    let actions = server.handle_command(&words("uci"));
    assert_eq!(
        outputs(&actions),
        vec!["id name Chusst 1.0", "option name SearchDepth type spin default 4 min 2 max 5", "uciok"]
    );
    assert_eq!(server.state(), UciProtocolState::Ready);
    assert_eq!(outputs(&server.handle_command(&words("isready"))), vec!["readyok"]);
    assert!(server.handle_command(&words("setoption name SearchDepth value 2")).is_empty());
    let actions = server.handle_command(&words("go infinite"));
    assert!(actions.iter().any(|a| matches!(a, UciAction::Engine(EngineCommand::Go(2)))));
    assert_eq!(server.state(), UciProtocolState::Searching);
    let info = EngineFeedbackMessage { depth: 1, nodes: 2, score: 3 };
    assert_eq!(outputs(&server.handle_engine(EngineResponse::Info(info))), vec!["info depth 1 nodes 2 score cp 3"]);
    let actions = server.handle_engine(EngineResponse::BestBranch(None));
    assert_eq!(outputs(&actions), vec!["bestmove 0000"]);
    assert_eq!(server.state(), UciProtocolState::Ready);
    assert_eq!(outputs(&server.handle_command(&words("stop"))), vec!["bestmove 0000"]);
    assert!(matches!(server.handle_command(&words("quit")).as_slice(), [UciAction::Quit]));
    let actions = server.handle_engine(EngineResponse::Error("broken".to_string()));
    assert!(matches!(actions.last(), Some(UciAction::Quit)));
}

#[test]
fn engine_plays_position_and_searches() {
    let mut engine = UciEngine::new();
    let cmd = parse_position_command(&words("position startpos moves e2e4 e7e5 e1e3")).ok().unwrap();
    let invalid = engine.new_game(cmd);
    assert_eq!(invalid.len(), 1);
    assert_eq!(invalid[0].target, Position { rank: 2, file: 4 });
    assert_eq!(engine.game().to_fen(), "rnbqkbnr/pppp1ppp/8/4p3/4P3/8/PPPP1PPP/RNBQKBNR w KQkq - 0 1");
    let mut engine = UciEngine::new();
    let cmd = parse_position_command(&words("position startpos moves e2e4 e7e5")).ok().unwrap();
    assert!(engine.new_game(cmd).is_empty());
    let mut stop = ();
    let mut feedback = SilentSearchFeedback();
    match engine.go(2, &mut stop, &mut feedback) {
        Some(GameMove::Normal(_)) => {}
        other => panic!("unexpected search result {:?}", other),
    }
}

#[test]
fn complete_lines_and_remainder() {
    let buffer: Vec<char> = "uci\nisready\r\ngo dep".chars().collect();
    let (lines, rest) = chusst::text::split_complete_lines(&buffer);
    let lines: Vec<String> = lines.into_iter().map(|l| l.into_iter().collect()).collect();
    assert_eq!(lines, vec!["uci".to_string(), "isready".to_string()]);
    assert_eq!(rest.map(|r| r.into_iter().collect::<String>()), Some("go dep".to_string()));
    let mixed: Vec<char> = "ab\r\ncd\nef".chars().collect();
    let (lines, rest) = chusst::text::split_complete_lines(&mixed);
    let lines: Vec<String> = lines.into_iter().map(|l| l.into_iter().collect()).collect();
    assert_eq!(lines, vec!["ab".to_string(), "cd".to_string()]);
    assert_eq!(rest.map(|r| r.into_iter().collect::<String>()), Some("ef".to_string()));
    let whole: Vec<char> = "quit\n".chars().collect();
    let (lines, rest) = chusst::text::split_complete_lines(&whole);
    assert_eq!(lines.len(), 1);
    assert_eq!(rest, None);
}
