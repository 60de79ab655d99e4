use chusst::board::{Board, ModifiableBoard, Piece, PieceType, Player, Position};
use chusst::game::{GameState, MoveAction, SimpleGame};

type TestGame = SimpleGame;

fn game_from_fen(fen: &str) -> TestGame {
    TestGame::try_from_fen(
        fen.split_ascii_whitespace()
            .collect::<Vec<&str>>()
            .as_slice(),
    )
    .unwrap_or_else(|| panic!("Failed to parse FEN string {}", fen))
}

#[test]
fn tests_fen_parsing() {
    let start_pos_fen = "rnbqkbnr/pppppppp/8/8/8/8/PPPPPPPP/RNBQKBNR w KQkq - 0 1";
    let parsed_game = TestGame::try_from_fen(
        start_pos_fen
            .split_ascii_whitespace()
            .collect::<Vec<&str>>()
            .as_slice(),
    );
    assert!(parsed_game.is_some(), "Failed to parse FEN string");
    let game = parsed_game.unwrap();
    assert_eq!(game, TestGame::new(), "\n{:?}", game.board());
}

fn perft_impl() {
    fn mv_rec(game: &TestGame, depth: u8) -> u64 {
        if depth == 0 {
            return 1;
        }

        let mut nodes = 0;
        for mv in game.get_all_possible_moves() {
            if depth == 1 {
                nodes += 1;
                continue;
            }
            let mut game_copy = game.clone();
            game_copy.do_move(&mv);
            nodes += mv_rec(&game_copy, depth - 1);
        }

        nodes
    }

    let assert_perft = |fen: &str, name: &str, depth: u8, expected: u64| {
        let game = game_from_fen(fen);
        let nodes = mv_rec(&game, depth);
        if nodes != expected {
            println!(
                "Perft {} depth {} expected {}, got {}",
                name, depth, expected, nodes
            );
            panic!("Perft failed");
        }
    };

    let fen = "rnbqkbnr/pppppppp/8/8/8/8/PPPPPPPP/RNBQKBNR w KQkq - 0 1";

    assert_perft(fen, "position 1", 1, 20);
    assert_perft(fen, "position 1", 2, 400);
    assert_perft(fen, "position 1", 3, 8902);
    assert_perft(fen, "position 1", 4, 197281);

    // Perft position 3 from https://www.chessprogramming.org/Perft_Results
    let fen = "8/2p5/3p4/KP5r/1R3p1k/8/4P1P1/8 w - - 0 1";

    assert_perft(fen, "position 3", 1, 14);
    assert_perft(fen, "position 3", 2, 191);
    assert_perft(fen, "position 3", 3, 2812);
    assert_perft(fen, "position 3", 4, 43238);

    // Perft position 4 from https://www.chessprogramming.org/Perft_Results
    let fen = "r3k2r/Pppp1ppp/1b3nbN/nP6/BBP1P3/q4N2/Pp1P2PP/R2Q1RK1 w kq - 0 1";

    assert_perft(fen, "position 4", 1, 6);
    assert_perft(fen, "position 4", 2, 264);
    assert_perft(fen, "position 4", 3, 9467);
    assert_perft(fen, "position 4", 4, 422333);

    // Perft position 5 from https://www.chessprogramming.org/Perft_Results
    let fen = "rnbq1k1r/pp1Pbppp/2p5/8/2B5/8/PPP1NnPP/RNBQK2R w KQ - 1 8";

    assert_perft(fen, "position 5", 1, 44);
    assert_perft(fen, "position 5", 2, 1486);
    assert_perft(fen, "position 5", 3, 62379);
    assert_perft(fen, "position 5", 4, 2103487);

    // Perft position 6 from https://www.chessprogramming.org/Perft_Results
    let fen = "r4rk1/1pp1qppp/p1np1n2/2b1p1B1/2B1P1b1/P1NP1N2/1PP1QPPP/R4RK1 w - - 0 10";

    assert_perft(fen, "position 6", 1, 46);
    assert_perft(fen, "position 6", 2, 2079);
    assert_perft(fen, "position 6", 3, 89890);
    assert_perft(fen, "position 6", 4, 3894594);
}

#[test]
fn perft() {
    perft_impl();
}
