use chusst::board::{
    Bitboards, Board, BoardIter, CompactBoard, Direction, DirectionIter, IterateWhileEmptyOrPlayer, IterableBoard, ModifiableBoard, Piece, PieceType, Player,
    Position, PositionFilters, PositionIterator, SimpleBoard,
};
use chusst::eval::{GameHistory, HashedHistory, HistoryError, SafetyChecks, Score};
use chusst::game::{GameHash, Move, MoveAction, MoveActionType, SimpleGame, ZobristHash, ZobristKeys};

fn pos(rank: usize, file: usize) -> Position {
    Position { rank, file }
}

fn all<'a, B: Board + 'a, I: PositionIterator<'a, B>>(mut iter: I) -> Vec<Position> {
    let mut out = Vec::new();
    while let Some(p) = iter.next() {
        out.push(p);
    }
    out
}

#[test]
fn board_representations_agree() {
    let simple = SimpleBoard::new_board();
    let compact = CompactBoard::new_board();
    let bits = Bitboards::new_board();
    for rank in 0..8 {
        for file in 0..8 {
            let p = pos(rank, file);
            assert_eq!(simple.at(&p), compact.at(&p));
            assert_eq!(simple.at(&p), bits.at(&p));
        }
    }
    assert_eq!(bits.find_king(&Player::Black), pos(7, 4));
    assert_eq!(simple.find_king(&Player::White), pos(0, 4));
}

#[test]
fn promotion_overwrites_square_in_every_board() {
    let queen = Some(Piece { piece: PieceType::Queen, player: Player::White });
    let mut simple = SimpleBoard::new_board();
    let mut compact = CompactBoard::new_board();
    let mut bits = Bitboards::new_board();
    simple.update(&pos(7, 0), queen);
    compact.update(&pos(7, 0), queen);
    bits.update(&pos(7, 0), queen);
    assert_eq!(simple.at(&pos(7, 0)), queen);
    assert_eq!(compact.at(&pos(7, 0)), queen);
    assert_eq!(bits.at(&pos(7, 0)), queen);
    bits.move_piece(&pos(1, 4), &pos(3, 4));
    assert_eq!(bits.at(&pos(1, 4)), None);
    assert_eq!(bits.at(&pos(3, 4)), Some(Piece { piece: PieceType::Pawn, player: Player::White }));
}

#[test]
fn attacked_squares_agree() {
    let simple = SimpleBoard::new_board();
    let bits = Bitboards::new_board();
    for rank in 0..8 {
        for file in 0..8 {
            if simple.at(&pos(rank, file)).is_some() {
                assert_eq!(simple.is_piece_unsafe(&pos(rank, file)), bits.is_piece_unsafe(&pos(rank, file)));
            }
        }
    }
}

#[test]
fn board_iterators() {
    let board = SimpleBoard::new_board();
    let everything = all(board.board_iter());
    assert_eq!(everything.len(), 64);
    assert_eq!(everything[9], pos(1, 1));
    assert_eq!(all(board.board_iter().only_empty()).len(), 32);
    assert_eq!(all(board.board_iter().only_player(Player::Black)).len(), 16);
    assert_eq!(all(board.board_iter().only_enemy_piece(Player::White, PieceType::Knight)), vec![pos(7, 1), pos(7, 6)]);
    assert_eq!(all(board.board_iter().skip_while_empty()).len(), 32);
    let up = Direction { row_inc: 1, col_inc: 0 };
    assert_eq!(all(board.direction_iterator(&pos(1, 0), &up)).len(), 6);
    assert_eq!(all(board.direction_iterator(&pos(1, 0), &up).take_while_empty()), vec![pos(2, 0), pos(3, 0), pos(4, 0), pos(5, 0)]);
    assert_eq!(all(board.direction_iterator(&pos(1, 0), &up).only_empty_or_enemy(Player::White)).len(), 6);
    let down_left = Direction { row_inc: -1, col_inc: -1 };
    assert_eq!(all(board.try_move(&pos(0, 0), &down_left)), vec![]);
    assert_eq!(all(board.position_iter(&pos(4, 4))), vec![pos(4, 4)]);
    let _: BoardIter<SimpleBoard> = board.board_iter();
}

#[test]
fn score_arithmetic_saturates() {
    assert_eq!((Score::from(100) + Score::from(300)).value(), 400);
    assert_eq!((Score::highest() + Score::from(1)).value(), Score::highest().value());
    assert_eq!((-Score::lowest()).value(), Score::highest().value());
    assert_eq!(Score::piece_value(PieceType::Rook).value(), 500);
    assert_eq!(Score::stalemate().value(), -1073741823);
}

#[test]
fn history_counts_positions() {
    let keys = ZobristKeys::new();
    let mut history = HashedHistory::new();
    assert_eq!(history.pop(), Err(HistoryError::Empty));
    let mv = MoveAction { mv: Move { source: pos(1, 4), target: pos(3, 4) }, move_type: MoveActionType::Normal };
    history.push(mv, ZobristHash(7));
    history.push(mv, ZobristHash(7));
    assert_eq!(history.count(&ZobristHash(7)), 2);
    assert_eq!(history.pop(), Ok(mv));
    assert_eq!(history.count(&ZobristHash(7)), 1);
    let moves: GameHistory = vec![mv];
    assert!(HashedHistory::from(&moves, &keys).is_ok());
    let bad: GameHistory = vec![MoveAction { mv: Move { source: pos(1, 4), target: pos(4, 4) }, move_type: MoveActionType::Normal }];
    assert_eq!(HashedHistory::from(&bad, &keys).err(), Some(HistoryError::InvalidMove(bad[0].mv)));
    let mut game = SimpleGame::new();
    let h1: GameHash = game.hash(&keys);
    let mut again = SimpleGame::new();
    assert_eq!(again.hash(&keys), h1);
}

#[test]
fn board_diagram() {
    let board = SimpleBoard::new_board();
    let text = chusst::board::format_board(&board);
    let lines: Vec<&str> = text.lines().collect();
    assert_eq!(lines.len(), 9);
    assert_eq!(lines[0], "   a  b  c  d  e  f  g  h ");
    assert_eq!(lines[1], "8 [♜][♞][♝][♛][♚][♝][♞][♜]");
    assert_eq!(lines[5], "4 [ ][ ][ ][ ][ ][ ][ ][ ]");
    assert_eq!(lines[8], "1 [♖][♘][♗][♕][♔][♗][♘][♖]");
    assert!(text.ends_with('\n'));
    assert_eq!(chusst::board::get_unicode_piece(PieceType::Knight, Player::Black), '♞');
}

#[test]
fn more_iterator_filters() {
    let board = SimpleBoard::new_board();
    assert_eq!(all(board.board_iter().only_piece(PieceType::King)), vec![pos(0, 4), pos(7, 4)]);
    assert_eq!(all(board.board_iter().only_enemy(Player::White)).len(), 16);
    let up = Direction { row_inc: 1, col_inc: 0 };
    assert_eq!(all(board.direction_iterator(&pos(0, 0), &up).take_while_empty_or_enemy(Player::White)), vec![]);
    assert_eq!(
        all(board.direction_iterator(&pos(2, 0), &up).take_while_empty_or_enemy(Player::White)),
        vec![pos(3, 0), pos(4, 0), pos(5, 0), pos(6, 0)]
    );
}

#[test]
fn while_empty_then_player_piece() {
    let b: SimpleBoard = chusst::board::board_from_fen("8/2p5/3p4/KP5r/1R3p1k/8/4P1P1/8").unwrap();
    let right = Direction { row_inc: 0, col_inc: 1 };
    let it = DirectionIter::new(&b, Some(pos(3, 1)), right);
    assert_eq!(all(IterateWhileEmptyOrPlayer::new(it, Player::Black)), vec![pos(3, 2), pos(3, 3), pos(3, 4), pos(3, 5)]);
    let it = DirectionIter::new(&b, Some(pos(3, 1)), right);
    assert_eq!(all(IterateWhileEmptyOrPlayer::new(it, Player::White)), vec![pos(3, 2), pos(3, 3), pos(3, 4)]);
    assert_eq!(
        all(b.direction_iterator(&pos(3, 1), &right).take_while_empty_or_enemy(Player::White)),
        vec![pos(3, 2), pos(3, 3), pos(3, 4), pos(3, 5)]
    );
}

#[test]
fn every_generated_move_can_be_made() {
    let game = SimpleGame::new();
    for mv in game.get_all_possible_moves() {
        let mut copy = game.clone();
        assert!(copy.do_move(&mv).is_some());
    }
}

#[test]
fn legal_moves_keep_both_kings() {
    let fen = ["r3k2r/3p4/8/4P3/8/8/8/R3K2R", "b", "KQkq", "-", "0", "1"];
    let mut game = SimpleGame::try_from_fen(&fen).unwrap();
    let pass = MoveAction { mv: Move { source: pos(6, 3), target: pos(4, 3) }, move_type: MoveActionType::Normal };
    assert!(game.do_move(&pass).is_some());
    let moves = game.get_all_possible_moves();
    assert!(moves.iter().any(|m| m.mv.source == pos(0, 4) && m.mv.target == pos(0, 6)));
    assert!(moves.iter().any(|m| m.mv.source == pos(4, 4) && m.mv.target == pos(5, 3)));
    for mv in moves {
        let mut copy = game.clone();
        assert!(copy.do_move(&mv).is_some());
        assert!(copy.has_both_kings());
    }
}

#[test]
fn initial_player_bitboards() {
    let white = chusst::board::PlayerBitboards::new(Player::White);
    let black = chusst::board::PlayerBitboards::new(Player::Black);
    assert_eq!(white.combined(), 0x0000_0000_0000_FFFF);
    assert_eq!(black.combined(), 0xFFFF_0000_0000_0000);
    assert_eq!(white.by_piece(&PieceType::King), 1 << 4);
    assert_eq!(black.by_piece(&PieceType::Queen), 1 << 59);
    assert_eq!(white.by_piece(&PieceType::Knight), (1 << 1) | (1 << 6));
}

#[test]
fn single_king_is_found() {
    let board = SimpleBoard::new_board();
    assert_eq!(chusst::eval::find_player_king(&board, &Player::White), pos(0, 4));
    assert_eq!(chusst::eval::find_player_king(&board, &Player::Black), pos(7, 4));
}

#[test]
fn position_text_round_trip() {
    for rank in 0..8 {
        for file in 0..8 {
            let p = pos(rank, file);
            assert_eq!(Position::try_from_str(&p.to_text()), Some(p));
        }
    }
    assert_eq!(pos(3, 4).to_text(), "e4");
}

#[test]
fn bitboard_iteration_order() {
    let mut iter = chusst::board::PlayerBitboards::into_iter(0x8000_0000_0000_0081);
    let mut out = Vec::new();
    while let Some(p) = iter.next() {
        out.push(p);
    }
    assert_eq!(out, vec![pos(0, 0), pos(0, 7), pos(7, 7)]);
    assert_eq!(chusst::board::PlayerBitboards::into_iter(0).next(), None);
}

#[test]
fn squares_in_between() {
    use_in_between();
}

fn use_in_between() {
    let ib = chusst::board::PlayerBitboards::in_between;
    assert_eq!(ib(&pos(0, 0), &pos(3, 0)), (1 << 8) | (1 << 16));
    assert_eq!(ib(&pos(3, 0), &pos(0, 0)), (1 << 8) | (1 << 16));
    assert_eq!(ib(&pos(0, 0), &pos(3, 3)), (1 << 9) | (1 << 18));
    assert_eq!(ib(&pos(3, 3), &pos(0, 0)), (1 << 9) | (1 << 18));
    assert_eq!(ib(&pos(0, 0), &pos(1, 1)), 0);
    assert_eq!(ib(&pos(0, 0), &pos(2, 1)), 0);
}

#[test]
fn castling_rights_off_the_e_file() {
    // A king on g1 keeping the kingside right has no castle to make.
    let fen = ["4k3/8/8/8/8/8/8/6K1", "w", "K", "-", "0", "1"];
    let game = SimpleGame::try_from_fen(&fen).unwrap();
    assert!(game.has_both_kings());
    let moves = game.get_all_possible_moves();
    assert_eq!(moves.len(), 5);
    assert!(moves.iter().all(|m| m.mv.source == pos(0, 6)));
    // On f1 the same right would lead to a castle onto the h-file.
    let fen = ["4k3/8/8/8/8/8/8/5K2", "w", "K", "-", "0", "1"];
    let game = SimpleGame::try_from_fen(&fen).unwrap();
    assert!(!game.has_both_kings());
    // A king in the corner may not keep the right of its side.
    let fen = ["4k3/8/8/8/8/8/8/7K", "w", "K", "-", "0", "1"];
    let game = SimpleGame::try_from_fen(&fen).unwrap();
    assert!(!game.has_both_kings());
}

#[test]
fn remembered_hash_follows_the_game() {
    let keys = ZobristKeys::new();
    let mut game = SimpleGame::new();
    let start = game.hash(&keys);
    let moves = [
        (pos(1, 4), pos(3, 4)),
        (pos(6, 3), pos(4, 3)),
        (pos(0, 6), pos(2, 5)),
        (pos(7, 1), pos(5, 2)),
    ];
    for (source, target) in moves {
        let mv = MoveAction { mv: Move { source, target }, move_type: MoveActionType::Normal };
        assert!(game.do_move(&mv).is_some());
        let remembered = game.hash(&keys);
        assert_ne!(remembered, start);
        assert_eq!(game.hash(&keys), remembered);
        assert_eq!(game.clone_unhashed().hash(&keys), remembered);
    }
    // Knights out and back again: the position and its hash come back.
    let back = [
        (pos(2, 5), pos(0, 6)),
        (pos(5, 2), pos(7, 1)),
    ];
    let mut after_pawns = SimpleGame::new();
    for (source, target) in [(pos(1, 4), pos(3, 4)), (pos(6, 3), pos(4, 3))] {
        let mv = MoveAction { mv: Move { source, target }, move_type: MoveActionType::Normal };
        assert!(after_pawns.do_move(&mv).is_some());
    }
    let pawns_hash = after_pawns.clone_unhashed().hash(&keys);
    for (source, target) in back {
        let mv = MoveAction { mv: Move { source, target }, move_type: MoveActionType::Normal };
        assert!(game.do_move(&mv).is_some());
    }
    // The last move of `after_pawns` passed a pawn; that of `game` did not.
    assert_ne!(game.hash(&keys), pawns_hash);
    let mv = MoveAction { mv: Move { source: pos(0, 6), target: pos(2, 5) }, move_type: MoveActionType::Normal };
    assert!(game.do_move(&mv).is_some());
    assert!(after_pawns.do_move(&mv).is_some());
    assert_eq!(game.hash(&keys), after_pawns.hash(&keys));
}
