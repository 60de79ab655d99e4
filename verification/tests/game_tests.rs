use chusst::eval::{SearchFeedback, SearchMove, SearchNodeFeedback, SearchTreeFeedback};
use chusst::game::{AddNode, GameTree};
use chusst::board::{Board, ModifiableBoard, Piece, PieceType, Player, Position, SimpleBoard};
use chusst::eval::SafetyChecks;
use chusst::game::{CastlingRights, GameState, Move, MoveAction, MoveActionType, PromotionPieces, SimpleGame, ZobristKeys};

type TestGame = SimpleGame;

struct PiecePosition {
    piece: Option<Piece>,
    position: Position,
}

struct TestBoard<'a> {
    board: Option<&'a str>,
    initial_moves: Vec<MoveAction>,
    mv: MoveAction,
    checks: Vec<PiecePosition>,
}

fn pos(name: &str) -> Position {
    let chars: Vec<char> = name.chars().collect();
    Position {
        rank: (chars[1] as usize) - ('1' as usize),
        file: (chars[0] as usize) - ('a' as usize),
    }
}

fn mva(source: &str, target: &str) -> MoveAction {
    MoveAction {
        mv: Move { source: pos(source), target: pos(target) },
        move_type: MoveActionType::Normal,
    }
}

fn mvp(source: &str, target: &str, piece: PromotionPieces) -> MoveAction {
    MoveAction {
        mv: Move { source: pos(source), target: pos(target) },
        move_type: MoveActionType::Promotion(piece),
    }
}

fn piece(piece: PieceType, player: Player) -> Option<Piece> {
    Some(Piece { piece, player })
}

fn pp(square: Option<Piece>, at: &str) -> PiecePosition {
    PiecePosition { piece: square, position: pos(at) }
}

fn custom_game(board_opt: &Option<&str>, player: Player) -> TestGame {
    let mut game = match board_opt {
        Some(board_str) => {
            let mut board = SimpleBoard::empty_board();
            let mut rank = 8usize;
            for line in board_str.lines() {
                match line.find('[') {
                    Some(position) => {
                        rank -= 1;
                        for (file, piece_char) in line
                            .chars()
                            .skip(position)
                            .filter(|c| *c != '[' && *c != ']')
                            .enumerate()
                        {
                            let square = match piece_char {
                                '♙' => piece(PieceType::Pawn, Player::White),
                                '♘' => piece(PieceType::Knight, Player::White),
                                '♗' => piece(PieceType::Bishop, Player::White),
                                '♖' => piece(PieceType::Rook, Player::White),
                                '♕' => piece(PieceType::Queen, Player::White),
                                '♔' => piece(PieceType::King, Player::White),
                                '♟' => piece(PieceType::Pawn, Player::Black),
                                '♞' => piece(PieceType::Knight, Player::Black),
                                '♝' => piece(PieceType::Bishop, Player::Black),
                                '♜' => piece(PieceType::Rook, Player::Black),
                                '♛' => piece(PieceType::Queen, Player::Black),
                                '♚' => piece(PieceType::King, Player::Black),
                                ' ' => None,
                                _ => panic!("unexpected character in board line: {}", line),
                            };
                            board.update(&Position { rank, file }, square);
                        }
                    }
                    None => continue,
                }
            }
            GameState::from(board)
        }
        None => GameState::from(SimpleBoard::new_board()),
    };
    game.update_player(player);
    game
}

#[test]
fn tests_move_reversable() {
    let promotion_setup = vec![
        mva("h2", "h4"),
        mva("g7", "g6"),
        mva("h4", "h5"),
        mva("a7", "a6"),
        mva("h5", "g6"),
        mva("a6", "a5"),
        mva("g6", "g7"),
        mva("a5", "a4"),
    ];
    let test_boards = [
        // Advance pawn
        TestBoard {
            board: None,
            initial_moves: vec![],
            mv: mva("e2", "e3"),
            checks: vec![pp(piece(PieceType::Pawn, Player::White), "e3"), pp(None, "e2")],
        },
        // Pass pawn
        TestBoard {
            board: None,
            initial_moves: vec![],
            mv: mva("e2", "e4"),
            checks: vec![pp(piece(PieceType::Pawn, Player::White), "e4"), pp(None, "e2")],
        },
        // Pawn capturing
        TestBoard {
            board: None,
            initial_moves: vec![mva("e2", "e4"), mva("d7", "d5")],
            mv: mva("e4", "d5"),
            checks: vec![pp(piece(PieceType::Pawn, Player::White), "d5"), pp(None, "e4")],
        },
        // Pawn capturing en passant
        TestBoard {
            board: None,
            initial_moves: vec![mva("e2", "e4"), mva("a7", "a6"), mva("e4", "e5"), mva("d7", "d5")],
            mv: mva("e5", "d6"),
            checks: vec![pp(piece(PieceType::Pawn, Player::White), "d6"), pp(None, "e5"), pp(None, "d5")],
        },
        // Pawn promotion to knight
        TestBoard {
            board: None,
            initial_moves: promotion_setup.clone(),
            mv: mvp("g7", "h8", PromotionPieces::Knight),
            checks: vec![pp(piece(PieceType::Knight, Player::White), "h8")],
        },
        // Pawn promotion to bishop
        TestBoard {
            board: None,
            initial_moves: promotion_setup.clone(),
            mv: mvp("g7", "h8", PromotionPieces::Bishop),
            checks: vec![pp(piece(PieceType::Bishop, Player::White), "h8")],
        },
        // Pawn promotion to rook
        TestBoard {
            board: None,
            initial_moves: promotion_setup.clone(),
            mv: mvp("g7", "h8", PromotionPieces::Rook),
            checks: vec![pp(piece(PieceType::Rook, Player::White), "h8")],
        },
        // Pawn promotion to queen
        TestBoard {
            board: None,
            initial_moves: promotion_setup.clone(),
            mv: mvp("g7", "h8", PromotionPieces::Queen),
            checks: vec![pp(piece(PieceType::Queen, Player::White), "h8")],
        },
        // Kingside castling
        TestBoard {
            board: None,
            initial_moves: vec![
                mva("e2", "e3"),
                mva("a7", "a6"),
                mva("f1", "e2"),
                mva("b7", "b6"),
                mva("g1", "h3"),
                mva("c7", "c6"),
            ],
            mv: mva("e1", "g1"),
            checks: vec![pp(piece(PieceType::King, Player::White), "g1"), pp(piece(PieceType::Rook, Player::White), "f1")],
        },
        // Queenside castling
        TestBoard {
            board: None,
            initial_moves: vec![
                mva("d2", "d4"),
                mva("a7", "a6"),
                mva("d1", "d3"),
                mva("b7", "b6"),
                mva("c1", "d2"),
                mva("c7", "c6"),
                mva("b1", "c3"),
                mva("d7", "d6"),
            ],
            mv: mva("e1", "c1"),
            checks: vec![pp(piece(PieceType::King, Player::White), "c1"), pp(piece(PieceType::Rook, Player::White), "d1")],
        },
    ];

    for test_board in &test_boards {
        let mut game: TestGame = custom_game(&test_board.board, Player::White);
        for mv in &test_board.initial_moves {
            assert!(game.do_move(mv).is_some(), "move {:?} failed:\n{:?}", mv.mv, game.board());
        }
        assert!(
            game.do_move_with_checks(&test_board.mv),
            "failed to make legal move {:?} in:\n{:?}",
            test_board.mv.mv,
            game.board()
        );
        for check in &test_board.checks {
            assert_eq!(
                game.at(&check.position),
                check.piece,
                "expected {:?} in {:?}, found {:?}:\n{:?}",
                check.piece,
                check.position,
                game.at(&check.position),
                game.board(),
            );
        }
    }
}

#[test]
fn tests_check_mate() {
    // White: ♙ ♘ ♗ ♖ ♕ ♔
    // Black: ♟ ♞ ♝ ♜ ♛ ♚
    let test_boards = [
        TestBoard {
            board: Some(
                "  a  b  c  d  e  f  g  h \n\
                8 [ ][ ][ ][ ][ ][ ][ ][♚]\n\
                7 [ ][ ][ ][ ][ ][ ][ ][ ]\n\
                6 [ ][ ][ ][ ][ ][ ][ ][ ]\n\
                5 [ ][ ][ ][ ][ ][ ][ ][ ]\n\
                4 [ ][ ][ ][ ][ ][ ][ ][ ]\n\
                3 [ ][♛][ ][ ][ ][ ][ ][ ]\n\
                2 [ ][ ][♛][ ][ ][ ][ ][ ]\n\
                1 [♔][ ][ ][ ][ ][ ][ ][ ]",
            ),
            initial_moves: vec![],
            mv: mva("b3", "b2"),
            checks: vec![],
        },
        TestBoard {
            board: Some(
                "  a  b  c  d  e  f  g  h \n\
                8 [♜][♜][ ][ ][ ][ ][ ][♚]\n\
                7 [ ][ ][ ][ ][ ][ ][ ][ ]\n\
                6 [ ][ ][ ][ ][ ][ ][ ][ ]\n\
                5 [ ][ ][ ][ ][ ][ ][ ][ ]\n\
                4 [ ][ ][ ][ ][ ][ ][ ][ ]\n\
                3 [ ][♟][ ][ ][ ][ ][ ][ ]\n\
                2 [♟][ ][ ][ ][ ][ ][ ][ ]\n\
                1 [♔][ ][ ][ ][ ][ ][ ][ ]",
            ),
            initial_moves: vec![],
            mv: mva("b3", "b2"),
            checks: vec![],
        },
        TestBoard {
            board: Some(
                "  a  b  c  d  e  f  g  h \n\
                8 [ ][♜][ ][ ][ ][ ][ ][♚]\n\
                7 [ ][♜][ ][ ][ ][ ][ ][ ]\n\
                6 [ ][ ][ ][ ][ ][ ][ ][ ]\n\
                5 [ ][ ][ ][ ][ ][ ][ ][ ]\n\
                4 [ ][ ][ ][ ][ ][ ][ ][ ]\n\
                3 [ ][ ][ ][ ][ ][ ][ ][ ]\n\
                2 [ ][ ][ ][ ][ ][ ][ ][ ]\n\
                1 [♔][ ][ ][ ][ ][ ][ ][ ]",
            ),
            initial_moves: vec![],
            mv: mva("b8", "a8"),
            checks: vec![],
        },
        TestBoard {
            board: Some(
                "  a  b  c  d  e  f  g  h \n\
                8 [ ][ ][ ][ ][ ][♝][♝][♚]\n\
                7 [ ][ ][ ][ ][ ][ ][ ][♝]\n\
                6 [ ][ ][ ][ ][ ][ ][ ][ ]\n\
                5 [ ][ ][ ][ ][ ][ ][ ][ ]\n\
                4 [ ][ ][ ][ ][ ][ ][ ][ ]\n\
                3 [ ][ ][ ][ ][ ][ ][ ][ ]\n\
                2 [ ][ ][ ][ ][ ][ ][ ][ ]\n\
                1 [♔][ ][ ][ ][ ][ ][ ][ ]",
            ),
            initial_moves: vec![],
            mv: mva("f8", "g7"),
            checks: vec![],
        },
        TestBoard {
            board: Some(
                "  a  b  c  d  e  f  g  h \n\
                8 [ ][ ][ ][ ][ ][ ][ ][♚]\n\
                7 [ ][ ][ ][ ][ ][ ][ ][ ]\n\
                6 [ ][ ][ ][ ][ ][ ][ ][ ]\n\
                5 [♞][ ][ ][ ][ ][ ][ ][ ]\n\
                4 [ ][ ][ ][ ][ ][ ][ ][ ]\n\
                3 [ ][ ][♞][ ][ ][ ][ ][ ]\n\
                2 [ ][ ][ ][ ][ ][ ][ ][ ]\n\
                1 [♔][ ][ ][♞][ ][ ][ ][ ]",
            ),
            initial_moves: vec![],
            mv: mva("a5", "b3"),
            checks: vec![],
        },
    ];

    let keys = ZobristKeys::new();
    for test_board in test_boards {
        let mut game: TestGame = custom_game(&test_board.board, Player::Black);

        game.disable_castle_kingside(Player::White);
        game.disable_castle_kingside(Player::Black);
        game.disable_castle_queenside(Player::White);
        game.disable_castle_queenside(Player::Black);

        for mv in &test_board.initial_moves {
            assert!(game.do_move(mv).is_some(), "move {:?} failed:\n{:?}", mv.mv, game.board());
        }

        let name = game.move_name(&test_board.mv, &keys).unwrap();
        assert!(
            name.ends_with('#'),
            "notation `{}` for move {:?} doesn't show checkmate sign # in:\n{:?}",
            name,
            test_board.mv.mv,
            game.board()
        );

        assert!(game.do_move_with_checks(&test_board.mv), "invalid move {:?}:\n{:?}", test_board.mv.mv, game.board());

        let possible_moves = game.get_possible_moves(pos("a1"));
        let in_check = game.board().is_piece_unsafe(&pos("a1"));
        assert!(in_check, "king should be in check:\n{:?}", game.board());
        assert!(
            possible_moves.is_empty(),
            "unexpected possible move {:?} in check mate:\n{:?}",
            possible_moves.first().unwrap().mv,
            game.board()
        );
    }
}

fn game_from_fen(fen: &str) -> TestGame {
    TestGame::try_from_fen(fen.split_ascii_whitespace().collect::<Vec<&str>>().as_slice())
        .unwrap_or_else(|| panic!("Failed to parse FEN string {}", fen))
}

#[test]
fn to_fen_of_initial_position() {
    let game = TestGame::new();
    assert_eq!(game.to_fen(), "rnbqkbnr/pppppppp/8/8/8/8/PPPPPPPP/RNBQKBNR w KQkq - 0 1");
}

#[test]
fn fen_roundtrip_after_moves() {
    let mut game = TestGame::new();
    for mv in [mva("e2", "e4"), mva("c7", "c5"), mva("g1", "f3")] {
        assert!(game.do_move(&mv).is_some());
    }
    let fen = game.to_fen();
    assert_eq!(fen, "rnbqkbnr/pp1ppppp/8/2p5/4P3/5N2/PPPP1PPP/RNBQKB1R b KQkq - 0 1");
    let again = game_from_fen(&fen);
    assert_eq!(again.to_fen(), fen);
}

#[test]
fn fen_with_en_passant_field() {
    let parsed = game_from_fen("rnbqkbnr/pppppppp/8/8/4P3/8/PPPP1PPP/RNBQKBNR b KQkq e3 0 1");
    assert_eq!(parsed.to_fen(), "rnbqkbnr/pppppppp/8/8/4P3/8/PPPP1PPP/RNBQKBNR b KQkq e3 0 1");
    let again = game_from_fen(&parsed.to_fen());
    assert!(again == parsed);
}

#[test]
fn fen_rejects_malformed_records() {
    assert!(TestGame::try_from_fen(&["rnbqkbnr/pppppppp/8/8/8/8/PPPPPPPP/RNBQKBNR", "w", "KQkq", "-", "0"]).is_none());
    assert!(TestGame::try_from_fen(&["rnbqkbnr/pppppppp/8/8/8/8/PPPPPPPP/RNBQKBNR", "x", "KQkq", "-", "0", "1"]).is_none());
    assert!(TestGame::try_from_fen(&["rnbqkbnr/pppppppp/9/8/8/8/PPPPPPPP/RNBQKBNR", "w", "KQkq", "-", "0", "1"]).is_none());
    assert!(TestGame::try_from_fen(&["rnbqkbnr/pppppppp/8/8/8/8/PPPPPPPP/RNBQKBNR", "w", "KQkq", "e4", "0", "1"]).is_none());
}

#[test]
fn move_names_in_opening() {
    let keys = ZobristKeys::new();
    let mut game = TestGame::new();
    assert_eq!(game.move_name(&mva("e2", "e4"), &keys).unwrap(), "e4");
    assert_eq!(game.move_name(&mva("g1", "f3"), &keys).unwrap(), "Nf3");
    assert!(game.do_move(&mva("e2", "e4")).is_some());
    assert!(game.do_move(&mva("d7", "d5")).is_some());
    assert_eq!(game.move_name(&mva("e4", "d5"), &keys).unwrap(), "exd5");
    assert!(game.move_name(&mva("e4", "e6"), &keys).is_err());
}

#[test]
fn fools_mate_is_checkmate() {
    let keys = ZobristKeys::new();
    let mut game = TestGame::new();
    for mv in [mva("f2", "f3"), mva("e7", "e5"), mva("g2", "g4")] {
        assert!(game.do_move(&mv).is_some());
    }
    assert_eq!(game.move_name(&mva("d8", "h4"), &keys).unwrap(), "Qh4#");
    assert!(game.do_move(&mva("d8", "h4")).is_some());
    assert!(game.get_all_possible_moves().is_empty());
    assert_eq!(game.is_mate(&keys), Some(chusst::eval::MateType::Checkmate));
}

#[test]
fn illegal_move_leaves_game_unchanged() {
    let mut game = TestGame::new();
    let before = game.to_fen();
    assert!(game.do_move(&mva("e2", "e5")).is_none());
    assert!(!game.do_move_with_checks(&mva("e7", "e5")));
    assert_eq!(game.to_fen(), before);
}

#[test]
fn initial_position_has_twenty_moves() {
    let game = TestGame::new();
    assert_eq!(game.get_all_possible_moves().len(), 20);
    assert_eq!(game.get_possible_moves(pos("g1")).len(), 2);
    assert_eq!(game.get_possible_targets(pos("e2")), vec![pos("e3"), pos("e4")]);
}

#[test]
fn search_scores_free_capture() {
    let keys = ZobristKeys::new();
    let fen = ["4k3/8/8/3q4/4P3/8/8/4K3", "w", "-", "-", "0", "1"];
    let game = SimpleGame::try_from_fen(&fen).unwrap();
    let history: Vec<MoveAction> = vec![];
    for depth in [0u32, 1, 2] {
        let branch = game
            .get_best_move_recursive(&history, depth, &keys, &mut (), &mut chusst::eval::SilentSearchFeedback())
            .unwrap();
        assert_eq!(branch.moves[0].mv.mv, Move { source: pos("e4"), target: pos("d5") });
        assert_eq!(branch.score.0, 900);
    }
}

#[test]
fn search_record_becomes_tree() {
    let mut feedback = SearchTreeFeedback::new();
    feedback.search_node(SearchNodeFeedback::Fen("rnbqkbnr/pppppppp/8/8/8/8/PPPPPPPP/RNBQKBNR w KQkq - 0 1".to_string()));
    feedback.search_node(SearchNodeFeedback::Info("top comment".to_string()));
    feedback.search_node(SearchNodeFeedback::Child(SearchMove { mv: Some(mva("e2", "e4")), info: "first".to_string() }));
    feedback.search_node(SearchNodeFeedback::Child(SearchMove { mv: Some(mva("e7", "e5")), info: "reply".to_string() }));
    feedback.search_node(SearchNodeFeedback::Return);
    feedback.search_node(SearchNodeFeedback::Info("after reply".to_string()));
    feedback.search_node(SearchNodeFeedback::Return);
    feedback.search_node(SearchNodeFeedback::Child(SearchMove { mv: Some(mva("d2", "d4")), info: "second".to_string() }));
    let tree = GameTree::from_search_feedback(&feedback).unwrap();
    let nodes = tree.nodes();
    assert_eq!(nodes.len(), 2);
    assert_eq!(nodes[0].action_of(), mva("e2", "e4"));
    assert_eq!(nodes[0].comments(), &vec!["first".to_string(), "after reply".to_string()]);
    assert_eq!(nodes[0].nodes().len(), 1);
    assert_eq!(nodes[0].nodes()[0].action_of(), mva("e7", "e5"));
    assert_eq!(nodes[0].nodes()[0].comments(), &vec!["reply".to_string()]);
    assert_eq!(nodes[1].action_of(), mva("d2", "d4"));
    assert!(nodes[1].nodes().is_empty());
    let mut empty = GameTree::new();
    empty.add_comment("dropped".to_string());
    assert!(empty.nodes().is_empty());
}

#[test]
fn tree_moves_are_named() {
    let keys = ZobristKeys::new();
    let mut feedback = SearchTreeFeedback::new();
    feedback.search_node(SearchNodeFeedback::Info("start".to_string()));
    feedback.search_node(SearchNodeFeedback::Child(SearchMove { mv: Some(mva("e2", "e4")), info: "a".to_string() }));
    feedback.search_node(SearchNodeFeedback::Child(SearchMove { mv: Some(mva("e7", "e5")), info: "b".to_string() }));
    feedback.search_node(SearchNodeFeedback::Return);
    feedback.search_node(SearchNodeFeedback::Return);
    feedback.search_node(SearchNodeFeedback::Child(SearchMove { mv: Some(mva("g1", "f3")), info: "c".to_string() }));
    let mut tree = GameTree::from_search_feedback(&feedback).unwrap();
    assert!(tree.add_move_names(&keys).is_ok());
    let nodes = tree.nodes();
    assert_eq!(nodes[0].move_name(), &Some("e4".to_string()));
    assert_eq!(nodes[0].nodes()[0].move_name(), &Some("e5".to_string()));
    assert_eq!(nodes[1].move_name(), &Some("Nf3".to_string()));

    let mut bad = SearchTreeFeedback::new();
    bad.search_node(SearchNodeFeedback::Info("start".to_string()));
    bad.search_node(SearchNodeFeedback::Child(SearchMove { mv: Some(mva("e2", "e5")), info: "x".to_string() }));
    bad.search_node(SearchNodeFeedback::Return);
    bad.search_node(SearchNodeFeedback::Child(SearchMove { mv: Some(mva("d2", "d4")), info: "y".to_string() }));
    let mut tree = GameTree::from_search_feedback(&bad).unwrap();
    assert!(tree.add_move_names(&keys).is_err());
    assert_eq!(tree.nodes().len(), 2);
    assert_eq!(tree.nodes()[1].move_name(), &None);
}

#[test]
fn promotion_letters() {
    for (c, p) in [('n', PromotionPieces::Knight), ('N', PromotionPieces::Knight), ('b', PromotionPieces::Bishop),
        ('B', PromotionPieces::Bishop), ('r', PromotionPieces::Rook), ('R', PromotionPieces::Rook),
        ('q', PromotionPieces::Queen), ('Q', PromotionPieces::Queen)] {
        assert_eq!(PromotionPieces::try_from_char(c), Some(p));
    }
    assert_eq!(PromotionPieces::try_from_char('k'), None);
    assert_eq!(PromotionPieces::try_from_char('K'), None);
    let mv = MoveAction::try_from_long_algebraic_str("e7e8n").unwrap();
    assert_eq!(mv.move_type, MoveActionType::Promotion(PromotionPieces::Knight));
}
