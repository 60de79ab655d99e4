//! The state of a game: a board, the player to move, the last move and the
//! castling rights.

use super::zobrist::{
    en_passant_key_index, kingside_key_index, queenside_key_index, squares_hash,
    turn_key_index, GameHash, ZobristHash, ZobristKeys,
};
use super::{spec_all_castling, GameInfo, Move, MoveAction, MoveActionType, MoveExtraInfo, MoveInfo};
use crate::board::{
    board_model, index_position, initial_square, lemma_index_position, lemma_position_index,
    try_move, valid_position, Board,
    Direction, ModifiableBoard, Piece, PieceType, Player, Position, SimpleBoard,
};
use crate::rules::{
    move_kind, move_makeable, moved_game, moved_rights, moved_squares, rook_square_rights, sq_at, move_squares, spec_can_castle_kingside, spec_can_castle_queenside, store_square,
    without_kingside, without_queenside, GameView,
};
use vstd::prelude::*;

verus! {

/// The reasons why a move cannot be made.
#[derive(Copy, Clone, Debug, PartialEq, Eq, Structural)]
pub enum MoveError {
    /// There is no piece on the source square.
    EmptySource,
    /// A pawn reaches the last rank without a promotion piece.
    MissingPromotion,
    /// A king moves two files to a file other than c or g.
    InvalidCastling,
}

pub trait CastlingRights {
    spec fn castling_info(&self) -> GameInfo;

    fn can_castle_kingside(&self, player: Player) -> (allowed: bool)
        ensures
            allowed == spec_can_castle_kingside(self.castling_info(), player),
    ;

    fn can_castle_queenside(&self, player: Player) -> (allowed: bool)
        ensures
            allowed == spec_can_castle_queenside(self.castling_info(), player),
    ;

    fn disable_castle_kingside(&mut self, player: Player)
        ensures
            final(self).castling_info() == without_kingside(old(self).castling_info(), player),
    ;

    fn disable_castle_queenside(&mut self, player: Player)
        ensures
            final(self).castling_info() == without_queenside(old(self).castling_info(), player),
    ;
}

impl GameInfo {
    /// The player may still castle kingside.
    pub fn can_castle_kingside(&self, player: &Player) -> (allowed: bool)
        ensures
            allowed == spec_can_castle_kingside(*self, *player),
    {
        match player {
            Player::White => self.white_kingside_castling_allowed,
            Player::Black => self.black_kingside_castling_allowed,
        }
    }

    /// The player may still castle queenside.
    pub fn can_castle_queenside(&self, player: &Player) -> (allowed: bool)
        ensures
            allowed == spec_can_castle_queenside(*self, *player),
    {
        match player {
            Player::White => self.white_queenside_castling_allowed,
            Player::Black => self.black_queenside_castling_allowed,
        }
    }

    /// Takes away the player's right to castle kingside.
    pub fn disable_castle_kingside(&mut self, player: &Player)
        ensures
            *final(self) == without_kingside(*old(self), *player),
    {
        match player {
            Player::White => self.white_kingside_castling_allowed = false,
            Player::Black => self.black_kingside_castling_allowed = false,
        }
    }

    /// Takes away the player's right to castle queenside.
    pub fn disable_castle_queenside(&mut self, player: &Player)
        ensures
            *final(self) == without_queenside(*old(self), *player),
    {
        match player {
            Player::White => self.white_queenside_castling_allowed = false,
            Player::Black => self.black_queenside_castling_allowed = false,
        }
    }
}

impl CastlingRights for GameInfo {
    open spec fn castling_info(&self) -> GameInfo {
        *self
    }

    fn can_castle_kingside(&self, player: Player) -> (allowed: bool) {
        GameInfo::can_castle_kingside(self, &player)
    }

    fn can_castle_queenside(&self, player: Player) -> (allowed: bool) {
        GameInfo::can_castle_queenside(self, &player)
    }

    fn disable_castle_kingside(&mut self, player: Player) {
        GameInfo::disable_castle_kingside(self, &player)
    }

    fn disable_castle_queenside(&mut self, player: Player) {
        GameInfo::disable_castle_queenside(self, &player)
    }
}

/// What a game holds besides its board.
#[derive(Copy, Clone, Debug, PartialEq, Eq)]
pub struct GameMobilityData {
    pub player: Player,
    pub last_move: Option<MoveInfo>,
    pub info: GameInfo,
    pub hash: Option<GameHash>,
}

#[derive(Debug, PartialEq)]
pub struct GameState<B: Board> {
    board: B,
    data: GameMobilityData,
}

pub type SimpleGame = GameState<SimpleBoard>;


/// What a board of type `B` stores over a square.
pub open spec fn stored_fn<B: Board>() -> spec_fn(Option<Piece>, Option<Piece>) -> Option<Piece> {
    |old: Option<Piece>, value: Option<Piece>| B::stored(old, value)
}

/// The hash of a game with given keys: its squares, the black turn, its lost
/// castling rights and the file of a pawn that passed in the last move.
pub open spec fn game_hash(keys: Seq<u64>, g: GameView) -> u64 {
    let h0 = squares_hash(keys, g.squares, 64);
    let h1 = if g.player == Player::Black { h0 ^ keys[turn_key_index()] } else { h0 };
    let h2 = if !spec_can_castle_kingside(g.info, Player::White) { h1 ^ keys[kingside_key_index(Player::White)] } else { h1 };
    let h3 = if !spec_can_castle_queenside(g.info, Player::White) { h2 ^ keys[queenside_key_index(Player::White)] } else { h2 };
    let h4 = if !spec_can_castle_kingside(g.info, Player::Black) { h3 ^ keys[kingside_key_index(Player::Black)] } else { h3 };
    let h5 = if !spec_can_castle_queenside(g.info, Player::Black) { h4 ^ keys[queenside_key_index(Player::Black)] } else { h4 };
    match g.last_move {
        Some(MoveInfo { mv, info: MoveExtraInfo::Passed }) => h5 ^ keys[en_passant_key_index(mv.target.file as int)],
        _ => h5,
    }
}

/// The file of the pawn that passed in a last move, if it was such a move.
pub open spec fn passed_file(last_move: Option<MoveInfo>) -> Option<usize> {
    match last_move {
        Some(MoveInfo { mv, info: MoveExtraInfo::Passed }) => Some(mv.target.file),
        _ => None,
    }
}

/// The hash of a game depends on its squares, the player to move, its
/// castling rights and the file of a pawn that passed in the last move, and
/// on nothing else: two games that agree on these have the same hash.
pub proof fn lemma_hash_determined(keys: Seq<u64>, a: GameView, b: GameView)
    requires
        a.squares == b.squares,
        a.player == b.player,
        a.info == b.info,
        passed_file(a.last_move) == passed_file(b.last_move),
    ensures
        game_hash(keys, a) == game_hash(keys, b),
{
}

/// The board model after an update of one square.
pub proof fn lemma_model_update<B: Board>(old: B, new: B, pos: Position, value: Option<Piece>)
    requires
        valid_position(pos),
        forall|k: Position|
            B::valid_key(k) ==> #[trigger] new.spec_at(k) == (if k == pos {
                B::stored(old.spec_at(k), value)
            } else {
                old.spec_at(k)
            }),
    ensures
        board_model(&new) == store_square(board_model(&old), pos, value, stored_fn::<B>()),
{
    lemma_index_position(pos);
    assert forall|i: int| 0 <= i < 64 implies #[trigger] board_model(&new)[i] == store_square(board_model(&old), pos, value, stored_fn::<B>())[i] by {
        lemma_position_index(i);
        B::lemma_valid_key(index_position(i));
    }
    assert(board_model(&new) =~= store_square(board_model(&old), pos, value, stored_fn::<B>()));
}

/// The board model after moving the content of a square.
pub proof fn lemma_model_move<B: Board>(old: B, new: B, source: Position, target: Position)
    requires
        valid_position(source),
        valid_position(target),
        forall|k: Position|
            B::valid_key(k) ==> #[trigger] new.spec_at(k) == (if k == source {
                B::vacant()
            } else if k == target {
                B::stored(old.spec_at(k), old.spec_at(source))
            } else {
                old.spec_at(k)
            }),
    ensures
        board_model(&new) == move_squares(board_model(&old), source, target, stored_fn::<B>()),
{
    lemma_index_position(source);
    lemma_index_position(target);
    B::lemma_vacant();
    assert forall|i: int| 0 <= i < 64 implies #[trigger] board_model(&new)[i] == move_squares(board_model(&old), source, target, stored_fn::<B>())[i] by {
        lemma_position_index(i);
        B::lemma_valid_key(index_position(i));
    }
    assert(board_model(&new) =~= move_squares(board_model(&old), source, target, stored_fn::<B>()));
}

/// The initial position, white to move with all castling rights.
pub open spec fn initial_view() -> GameView {
    GameView {
        squares: Seq::new(64, |i: int| initial_square(index_position(i))),
        player: Player::White,
        last_move: None,
        info: spec_all_castling(),
    }
}

impl<B: Board> GameState<B> {
    /// What the rules see of the game.
    pub closed spec fn view(&self) -> GameView {
        GameView {
            squares: board_model(&self.board),
            player: self.data.player,
            last_move: self.data.last_move,
            info: self.data.info,
        }
    }

    /// A game has 64 squares.
    pub proof fn lemma_len(&self)
        ensures
            self@.squares.len() == 64,
    {
    }

    /// The hash remembered by the game, if any.
    pub closed spec fn cached_hash(&self) -> Option<GameHash> {
        self.data.hash
    }

    /// The remembered hash, if there is one, is the hash of the game with
    /// `keys`. A game that remembers no hash fits every table of keys.
    pub open spec fn hash_fits(&self, keys: Seq<u64>) -> bool {
        self.cached_hash() matches Some(h) ==> h.0 == game_hash(keys, self@)
    }

    pub closed spec fn spec_data(&self) -> GameMobilityData {
        self.data
    }

    /// The game of the initial position, white to move.
    pub fn new() -> (game: Self)
        ensures
            game@ == initial_view(),
            game.cached_hash() is None,
    {
        let board = B::new_board();
        let game = GameState {
            board,
            data: GameMobilityData {
                player: Player::White,
                last_move: None,
                info: GameInfo::new(),
                hash: None,
            },
        };
        proof {
            assert forall|i: int| 0 <= i < 64 implies #[trigger] game@.squares[i] == initial_square(index_position(i)) by {
                lemma_position_index(i);
            }
            assert(game@.squares =~= Seq::new(64, |i: int| initial_square(index_position(i))));
        }
        game
    }

    /// A game on a board, white to move with all castling rights.
    pub fn from(value: B) -> (game: Self)
        ensures
            game@.squares == board_model(&value),
            game@.player == Player::White,
            game@.last_move is None,
            game@.info == spec_all_castling(),
            game.cached_hash() is None,
    {
        GameState {
            board: value,
            data: GameMobilityData {
                player: Player::White,
                last_move: None,
                info: GameInfo::new(),
                hash: None,
            },
        }
    }

    /// A game of a board and its other data.
    pub fn with_data(board: B, data: GameMobilityData) -> (game: Self)
        ensures
            game@ == (GameView { squares: board_model(&board), player: data.player, last_move: data.last_move, info: data.info }),
            game.cached_hash() == data.hash,
    {
        GameState { board, data }
    }

    /// A copy of the game without the remembered hash.
    pub fn clone_unhashed(&self) -> (game: Self)
        ensures
            game@ == self@,
            game.cached_hash() is None,
    {
        let board = self.board.duplicate();
        let game = GameState {
            board,
            data: GameMobilityData { hash: None, ..self.data },
        };
        proof {
            assert(game@.squares =~= self@.squares);
        }
        game
    }

    pub fn data(&self) -> (data: &GameMobilityData)
        ensures
            *data == self.spec_data(),
            data.player == self@.player,
            data.last_move == self@.last_move,
            data.info == self@.info,
            data.hash == self.cached_hash(),
    {
        &self.data
    }

    pub fn set_data(&mut self, data: &GameMobilityData)
        ensures
            final(self)@ == (GameView { player: data.player, last_move: data.last_move, info: data.info, ..old(self)@ }),
            final(self).cached_hash() == data.hash,
    {
        self.data = *data;
    }

    /// The board.
    pub fn board(&self) -> (board: &B)
        ensures
            board_model(board) == self@.squares,
    {
        &self.board
    }

    /// The player to move.
    pub fn player(&self) -> (player: Player)
        ensures
            player == self@.player,
    {
        self.data.player
    }

    /// Sets the player to move (and forgets the remembered hash).
    pub fn update_player(&mut self, player: Player)
        ensures
            final(self)@ == (GameView { player, ..old(self)@ }),
            final(self).cached_hash() is None,
    {
        self.data.player = player;
        self.data.hash = None;
    }

    pub fn info(&self) -> (info: &GameInfo)
        ensures
            *info == self@.info,
    {
        &self.data.info
    }

    pub fn last_move(&self) -> (last_move: &Option<MoveInfo>)
        ensures
            *last_move == self@.last_move,
    {
        &self.data.last_move
    }

    /// The hash of the game with the given keys; remembered until the game
    /// changes. Where the game remembers a hash it is returned as it is: it
    /// is the hash of the game whenever it fits the keys, as it does after
    /// any change of the game that only these keys were hashed with.
    pub fn hash(&mut self, keys: &ZobristKeys) -> (hash: GameHash)
        requires
            keys.wf(),
            old(self)@.last_move matches Some(m) ==> m.mv.target.file < 8,
        ensures
            final(self)@ == old(self)@,
            old(self).hash_fits(keys@) ==> hash.0 == game_hash(keys@, old(self)@),
            old(self).cached_hash() matches Some(h) ==> hash == h,
            final(self).cached_hash() == Some(hash),
            old(self).hash_fits(keys@) ==> final(self).hash_fits(keys@),
    {
        if let Some(hash) = self.data.hash {
            return hash;
        }
        let mut squares: Vec<Option<Piece>> = Vec::new();
        let mut i: usize = 0;
        while i < 64
            invariant
                i <= 64,
                squares@ == self@.squares.take(i as int),
            decreases 64 - i,
        {
            proof {
                lemma_position_index(i as int);
                B::lemma_valid_key(index_position(i as int));
            }
            squares.push(self.board.at(&Position { rank: i / 8, file: i % 8 }));
            i += 1;
            assert(squares@ =~= self@.squares.take(i as int));
        }
        assert(squares@ =~= self@.squares);
        let mut hash = ZobristHash::from_squares(keys, &squares);
        if self.data.player == Player::Black {
            hash.switch_turn(keys);
        }
        if !self.data.info.can_castle_kingside(&Player::White) {
            hash.switch_kingside_castling(keys, Player::White);
        }
        if !self.data.info.can_castle_queenside(&Player::White) {
            hash.switch_queenside_castling(keys, Player::White);
        }
        if !self.data.info.can_castle_kingside(&Player::Black) {
            hash.switch_kingside_castling(keys, Player::Black);
        }
        if !self.data.info.can_castle_queenside(&Player::Black) {
            hash.switch_queenside_castling(keys, Player::Black);
        }
        if let Some(MoveInfo { mv, info: MoveExtraInfo::Passed }) = self.data.last_move {
            hash.switch_en_passant_file(keys, mv.target.file);
        }
        self.data.hash = Some(hash);
        hash
    }
}


impl<B: Board> ModifiableBoard<Position, Option<Piece>> for GameState<B> {
    open spec fn valid_key(key: Position) -> bool {
        valid_position(key)
    }

    closed spec fn spec_at(&self, key: Position) -> Option<Piece> {
        self.board.spec_at(key)
    }

    open spec fn vacant() -> Option<Piece> {
        None
    }

    open spec fn stored(old: Option<Piece>, value: Option<Piece>) -> Option<Piece> {
        B::stored(old, value)
    }

    fn at(&self, pos: &Position) -> (value: Option<Piece>) {
        proof {
            B::lemma_valid_key(*pos);
        }
        self.board.at(pos)
    }

    /// Stores a square (and forgets the remembered hash).
    fn update(&mut self, pos: &Position, value: Option<Piece>)
        ensures
            final(self)@ == (GameView { squares: store_square(old(self)@.squares, *pos, value, stored_fn::<B>()), ..old(self)@ }),
            final(self).cached_hash() is None,
    {
        proof {
            B::lemma_valid_key(*pos);
        }
        let ghost old_board = self.board;
        self.board.update(pos, value);
        self.data.hash = None;
        proof {
            assert forall|k: Position| valid_position(k) implies #[trigger] self.board.spec_at(k) == (if k == *pos {
                B::stored(old_board.spec_at(k), value)
            } else {
                old_board.spec_at(k)
            }) by {
                B::lemma_valid_key(k);
            }
            lemma_model_update(old_board, self.board, *pos, value);
        }
    }

    /// Moves the content of a square (and forgets the remembered hash).
    fn move_piece(&mut self, source: &Position, target: &Position)
        ensures
            final(self)@ == (GameView { squares: move_squares(old(self)@.squares, *source, *target, stored_fn::<B>()), ..old(self)@ }),
            final(self).cached_hash() is None,
    {
        proof {
            B::lemma_valid_key(*source);
            B::lemma_valid_key(*target);
            B::lemma_vacant();
        }
        let ghost old_board = self.board;
        self.board.move_piece(source, target);
        self.data.hash = None;
        proof {
            assert forall|k: Position| valid_position(k) implies #[trigger] self.board.spec_at(k) == (if k == *source {
                None
            } else if k == *target {
                B::stored(old_board.spec_at(k), old_board.spec_at(*source))
            } else {
                old_board.spec_at(k)
            }) by {
                B::lemma_valid_key(k);
            }
            lemma_model_move(old_board, self.board, *source, *target);
        }
    }
}

impl<B: Board> CastlingRights for GameState<B> {
    closed spec fn castling_info(&self) -> GameInfo {
        self.data.info
    }

    fn can_castle_kingside(&self, player: Player) -> (allowed: bool) {
        self.data.info.can_castle_kingside(&player)
    }

    fn can_castle_queenside(&self, player: Player) -> (allowed: bool) {
        self.data.info.can_castle_queenside(&player)
    }

    fn disable_castle_kingside(&mut self, player: Player)
        ensures
            final(self)@ == (GameView { info: without_kingside(old(self)@.info, player), ..old(self)@ }),
            old(self).cached_hash() is None ==> final(self).cached_hash() is None,
            forall|keys: Seq<u64>| old(self).hash_fits(keys) ==> #[trigger] final(self).hash_fits(keys),
    {
        if !self.data.info.can_castle_kingside(&player) {
            assert(without_kingside(self.data.info, player) == self.data.info);
            return;
        }
        self.data.info.disable_castle_kingside(&player);
        self.data.hash = None;
    }

    fn disable_castle_queenside(&mut self, player: Player)
        ensures
            final(self)@ == (GameView { info: without_queenside(old(self)@.info, player), ..old(self)@ }),
            old(self).cached_hash() is None ==> final(self).cached_hash() is None,
            forall|keys: Seq<u64>| old(self).hash_fits(keys) ==> #[trigger] final(self).hash_fits(keys),
    {
        if !self.data.info.can_castle_queenside(&player) {
            assert(without_queenside(self.data.info, player) == self.data.info);
            return;
        }
        self.data.info.disable_castle_queenside(&player);
        self.data.hash = None;
    }
}

impl<B: Board> GameState<B> {
    pub proof fn lemma_castling_info(&self)
        ensures
            self.castling_info() == self@.info,
    {
    }

    pub proof fn lemma_spec_at(&self, p: Position)
        requires
            valid_position(p),
        ensures
            self.spec_at(p) == sq_at(self@.squares, p),
    {
        lemma_index_position(p);
    }

    /// Makes a move without checking that it is legal: moves the piece,
    /// captures en passant, promotes, moves the rook of a castling, updates
    /// the castling rights, the player to move and the last move.
    ///
    /// Fails, leaving the game unchanged, when the source square is empty,
    /// when a pawn reaches the last rank without a promotion piece, or when a
    /// king moves two files to a file other than c or g.
    /// The kind of a move, or why it cannot be made.
    fn classify_move(&self, move_action: &MoveAction) -> (kind: Result<MoveExtraInfo, MoveError>)
        requires
            valid_position(move_action.mv.source),
            valid_position(move_action.mv.target),
        ensures
            kind matches Ok(k) ==> move_kind(self@.squares, *move_action) == Some(k),
            kind matches Err(e) ==> move_kind(self@.squares, *move_action) is None && e == move_error(self@.squares, *move_action),
    {
        let mv = move_action.mv;
        proof {
            self.lemma_spec_at(mv.source);
            self.lemma_spec_at(mv.target);
        }
        let source_piece = match self.at(&mv.source) {
            Some(piece) => piece,
            None => {
                return Err(MoveError::EmptySource);
            },
        };
        let player = source_piece.player;
        match source_piece.piece {
            PieceType::Pawn => {
                if abs_diff(mv.source.rank, mv.target.rank) == 2 {
                    Ok(MoveExtraInfo::Passed)
                } else if mv.source.file != mv.target.file && self.at(&mv.target).is_none() {
                    Ok(MoveExtraInfo::EnPassant)
                } else if mv.target.rank == B::promotion_rank(&player) {
                    match move_action.move_type {
                        MoveActionType::Normal => Err(MoveError::MissingPromotion),
                        MoveActionType::Promotion(piece) => Ok(MoveExtraInfo::Promotion(piece)),
                    }
                } else {
                    Ok(MoveExtraInfo::Other)
                }
            },
            PieceType::King => {
                if abs_diff(mv.source.file, mv.target.file) == 2 {
                    if mv.target.file == 2 {
                        Ok(MoveExtraInfo::CastleQueenside)
                    } else if mv.target.file == 6 {
                        Ok(MoveExtraInfo::CastleKingside)
                    } else {
                        Err(MoveError::InvalidCastling)
                    }
                } else {
                    Ok(MoveExtraInfo::Other)
                }
            },
            _ => Ok(MoveExtraInfo::Other),
        }
    }

    /// Changes the squares of a move of a known kind.
    fn move_squares_of(&mut self, move_action: &MoveAction, move_info: MoveExtraInfo)
        requires
            valid_position(move_action.mv.source),
            valid_position(move_action.mv.target),
            move_kind(old(self)@.squares, *move_action) == Some(move_info),
            move_makeable(old(self)@.squares, *move_action),
        ensures
            final(self)@ == (GameView { squares: moved_squares(old(self)@.squares, *move_action, move_info, stored_fn::<B>()), ..old(self)@ }),
            final(self).cached_hash() is None,
    {
        let mv = move_action.mv;
        proof {
            self.lemma_spec_at(mv.source);
        }
        let player = self.at(&mv.source).unwrap().player;
        self.move_piece(&mv.source, &mv.target);
        match move_info {
            MoveExtraInfo::EnPassant => {
                let direction = B::pawn_progress_direction(&player);
                let passed = try_move(&mv.target, &Direction { row_inc: -direction, col_inc: 0 });
                let passed = passed.unwrap();
                self.update(&passed, None);
            },
            MoveExtraInfo::Promotion(promotion_piece) => {
                self.update(&mv.target, Some(Piece { piece: promotion_piece.piece_type(), player }));
            },
            MoveExtraInfo::CastleKingside => {
                let rook_source = try_move(&mv.source, &Direction { row_inc: 0, col_inc: 3 }).unwrap();
                let rook_target = try_move(&mv.source, &Direction { row_inc: 0, col_inc: 1 }).unwrap();
                self.move_piece(&rook_source, &rook_target);
            },
            MoveExtraInfo::CastleQueenside => {
                let rook_source = try_move(&mv.source, &Direction { row_inc: 0, col_inc: -4 }).unwrap();
                let rook_target = try_move(&mv.source, &Direction { row_inc: 0, col_inc: -1 }).unwrap();
                self.move_piece(&rook_source, &rook_target);
            },
            _ => {},
        }
    }

    /// Withdraws the castling rights that a move loses.
    fn update_rights(&mut self, mv: Move, moved: Piece, captured: Option<Piece>)
        requires
            valid_position(mv.source),
            valid_position(mv.target),
        ensures
            final(self)@ == (GameView { info: rights_after(old(self)@.info, mv, moved, captured), ..old(self)@ }),
            old(self).cached_hash() is None ==> final(self).cached_hash() is None,
            forall|keys: Seq<u64>| old(self).hash_fits(keys) ==> #[trigger] final(self).hash_fits(keys),
    {
        let player = moved.player;
        if moved.piece == PieceType::King {
            self.disable_castle_kingside(player);
            self.disable_castle_queenside(player);
        } else if moved.piece == PieceType::Rook && mv.source.rank == B::home_rank(&player) {
            if mv.source.file == 0 {
                self.disable_castle_queenside(player);
            } else if mv.source.file == 7 {
                self.disable_castle_kingside(player);
            }
        }
        if let Some(captured) = captured {
            if captured.piece == PieceType::Rook && mv.target.rank == B::home_rank(&captured.player) {
                if mv.target.file == 0 {
                    self.disable_castle_queenside(captured.player);
                } else if mv.target.file == 7 {
                    self.disable_castle_kingside(captured.player);
                }
            }
        }
    }

    /// Makes a move without checking that it is legal: moves the piece,
    /// captures en passant, promotes, moves the rook of a castling, updates
    /// the castling rights, the player to move and the last move.
    ///
    /// Fails, leaving the game unchanged, when the source square is empty,
    /// when a pawn reaches the last rank without a promotion piece, or when a
    /// king moves two files to a file other than c or g.
    pub fn do_move_no_checks(&mut self, move_action: &MoveAction) -> (result: Result<(), MoveError>)
        requires
            valid_position(move_action.mv.source),
            valid_position(move_action.mv.target),
            move_makeable(old(self)@.squares, *move_action),
        ensures
            result is Ok <==> move_kind(old(self)@.squares, *move_action) is Some,
            result is Ok ==> final(self)@ == moved_game(old(self)@, *move_action, move_kind(old(self)@.squares, *move_action).unwrap(), stored_fn::<B>()),
            result is Ok ==> final(self).cached_hash() is None,
            result matches Err(e) ==> *final(self) == *old(self) && e == move_error(old(self)@.squares, *move_action),
    {
        let mv = move_action.mv;
        let move_info = match self.classify_move(move_action) {
            Ok(kind) => kind,
            Err(e) => {
                return Err(e);
            },
        };
        proof {
            self.lemma_spec_at(mv.source);
            self.lemma_spec_at(mv.target);
        }
        let moved = self.at(&mv.source).unwrap();
        let captured = self.at(&mv.target);
        let ghost g0 = self@;
        self.move_squares_of(move_action, move_info);
        self.update_rights(mv, moved, captured);
        assert(self@.info == moved_rights(g0.squares, g0.info, mv));
        let next = self.data.player.opponent();
        self.data.player = next;
        self.data.last_move = Some(MoveInfo { mv, info: move_info });
        self.data.hash = None;
        Ok(())
    }
}

/// The castling rights after a move of `moved` that captures `captured`.
pub open spec fn rights_after(info: GameInfo, mv: Move, moved: Piece, captured: Option<Piece>) -> GameInfo {
    let after_mover = if moved.piece == PieceType::King {
        without_queenside(without_kingside(info, moved.player), moved.player)
    } else if moved.piece == PieceType::Rook {
        rook_square_rights(info, mv.source, moved.player)
    } else {
        info
    };
    match captured {
        Some(c) => if c.piece == PieceType::Rook {
            rook_square_rights(after_mover, mv.target, c.player)
        } else {
            after_mover
        },
        None => after_mover,
    }
}

/// The error of a move that cannot be made.
pub open spec fn move_error(squares: Seq<Option<Piece>>, action: MoveAction) -> MoveError {
    match sq_at(squares, action.mv.source) {
        None => MoveError::EmptySource,
        Some(piece) => if piece.piece == PieceType::Pawn {
            MoveError::MissingPromotion
        } else {
            MoveError::InvalidCastling
        },
    }
}

/// The distance between two ranks or files.
pub fn abs_diff(a: usize, b: usize) -> (d: usize)
    ensures
        d == (if a >= b { a - b } else { b - a }),
{
    if a >= b { a - b } else { b - a }
}
impl<B: Board> Clone for GameState<B> {
    fn clone(&self) -> (copy: Self)
        ensures
            copy@ == self@,
            copy.cached_hash() == self.cached_hash(),
    {
        let board = self.board.duplicate();
        let copy = GameState { board, data: self.data };
        proof {
            assert(copy@.squares =~= self@.squares);
        }
        copy
    }
}

} // verus!
