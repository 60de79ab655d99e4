//! Playing moves from outside the engine: the legal moves of any piece, and
//! moves checked against them.

use super::check::SafetyChecks;
use super::iter::square;
use super::legal::playable;
use crate::board::{
    index_position, lemma_position_index, opponent, valid_position, Board, Piece, PieceType,
    Player, Position,
};
use crate::game::{initial_view, stored_fn, GameState, MoveAction};
use crate::rules::{
    castling_consistent, castle_file_ok, has_king, legal_moves, move_kind, moved_game, piece_targets,
    pseudo_moves, sq_at, target_ok, GameView, lemma_moves_to_targets, lemma_piece_targets_ok,
    may_promote, move_makeable, move_of,
};
use vstd::prelude::*;

verus! {

/// The game with another player to move.
pub open spec fn with_player(g: GameView, player: Player) -> GameView {
    GameView { player, ..g }
}

/// The legal moves of the piece on a position, played by its owner.
pub open spec fn owner_legal_moves(g: GameView, p: Position, stored: spec_fn(Option<Piece>, Option<Piece>) -> Option<Piece>) -> Seq<MoveAction> {
    match sq_at(g.squares, p) {
        None => Seq::empty(),
        Some(piece) => legal_moves(with_player(g, piece.player), p, stored),
    }
}

/// Both players have a king and castling rights are consistent.
pub open spec fn both_kings(g: GameView) -> bool {
    &&& g.squares.len() == 64
    &&& has_king(g.squares, Player::White)
    &&& has_king(g.squares, Player::Black)
    &&& castling_consistent(g)
}

/// The initial position has both kings, on the e-file.
pub proof fn lemma_initial_both_kings()
    ensures
        both_kings(initial_view()),
{
    let g = initial_view();
    assert(index_position(4) == Position { rank: 0, file: 4 });
    assert(index_position(60) == Position { rank: 7, file: 4 });
    assert(g.squares[4] == Some(Piece { piece: PieceType::King, player: Player::White }));
    assert(g.squares[60] == Some(Piece { piece: PieceType::King, player: Player::Black }));
    assert forall|i: int|
        0 <= i < 64 && (#[trigger] g.squares[i]) is Some && g.squares[i].unwrap().piece == PieceType::King
        implies castle_file_ok(g.info, g.squares[i].unwrap().player, index_position(i).file) by {
        lemma_position_index(i);
    }
}

/// A move listed by `all_legal_moves_upto` comes from an earlier square
/// holding a piece of the player to move.
pub(crate) proof fn lemma_upto_source(g: GameView, n: int, m: MoveAction, stored: spec_fn(Option<Piece>, Option<Piece>) -> Option<Piece>)
    requires
        0 <= n <= 64,
        crate::rules::all_legal_moves_upto(g, n, stored).contains(m),
    ensures
        exists|i: int| 0 <= i < n && #[trigger] sq_at(g.squares, index_position(i)) is Some
            && sq_at(g.squares, index_position(i)).unwrap().player == g.player
            && legal_moves(g, index_position(i), stored).contains(m),
    decreases n,
{
    let all = crate::rules::all_legal_moves_upto(g, n, stored);
    let prev = crate::rules::all_legal_moves_upto(g, n - 1, stored);
    let p = index_position(n - 1);
    let extra = if sq_at(g.squares, p) is Some && sq_at(g.squares, p).unwrap().player == g.player {
        legal_moves(g, p, stored)
    } else {
        Seq::empty()
    };
    assert(all == prev + extra);
    let k = choose|k: int| 0 <= k < all.len() && all[k] == m;
    if k < prev.len() {
        assert(prev[k] == m);
        lemma_upto_source(g, n - 1, m, stored);
    } else {
        assert(extra[k - prev.len()] == m);
        assert(extra.contains(m));
    }
}

/// Every move that `get_all_possible_moves` lists can be made by
/// `do_move` and `do_move_with_checks`, in a game where both players have
/// a king.
pub proof fn lemma_generated_moves_allowed(g: GameView, m: MoveAction, stored: spec_fn(Option<Piece>, Option<Piece>) -> Option<Piece>)
    requires
        both_kings(g),
        crate::rules::all_legal_moves(g, stored).contains(m),
    ensures
        move_allowed(g, m, stored),
{
    lemma_upto_source(g, 64, m, stored);
    let i = choose|i: int| 0 <= i < 64 && #[trigger] sq_at(g.squares, index_position(i)) is Some
        && sq_at(g.squares, index_position(i)).unwrap().player == g.player
        && legal_moves(g, index_position(i), stored).contains(m);
    let p = index_position(i);
    lemma_position_index(i);
    assert(with_player(g, g.player) == g);
    assert(owner_legal_moves(g, p, stored) == legal_moves(g, p, stored));
    lemma_legal_move_makeable(g, p, m, stored);
    let king = if sq_at(g.squares, p).unwrap().piece == PieceType::King { p } else { crate::rules::king_position(g.squares, g.player) };
    let pred = |x: MoveAction| crate::rules::move_keeps_king_safe(g, x, king, stored);
    let filtered = pseudo_moves(g, p).filter(pred);
    assert(legal_moves(g, p, stored) == filtered);
    let j = choose|j: int| 0 <= j < filtered.len() && filtered[j] == m;
    pseudo_moves(g, p).lemma_filter_pred(pred, j);
    assert(has_target(owner_legal_moves(g, p, stored), m));
}

/// A move (source and target) matches one of a list of moves.
pub open spec fn has_target(moves: Seq<MoveAction>, action: MoveAction) -> bool {
    exists|i: int| 0 <= i < moves.len() && moves[i].mv.target == action.mv.target
}

/// The counts of each piece type of a player on some squares, in the order
/// pawn, knight, bishop, rook, queen, king.
pub open spec fn count_type(squares: Seq<Option<Piece>>, player: Player, piece: PieceType, n: int) -> nat
    decreases n,
{
    if n <= 0 {
        0
    } else {
        count_type(squares, player, piece, n - 1) + if squares[n - 1] == Some(Piece { piece, player }) { 1nat } else { 0nat }
    }
}

pub open spec fn piece_types() -> Seq<PieceType> {
    seq![PieceType::Pawn, PieceType::Knight, PieceType::Bishop, PieceType::Rook, PieceType::Queen, PieceType::King]
}

/// The pieces of a player of which some were lost between two positions,
/// one per type, in type order.
pub open spec fn lost_pieces(before: Seq<Option<Piece>>, after: Seq<Option<Piece>>, player: Player) -> Seq<Piece> {
    piece_types().filter(|t: PieceType| count_type(before, player, t, 64) > count_type(after, player, t, 64))
        .map_values(|t: PieceType| Piece { piece: t, player })
}

fn type_at(i: usize) -> (t: PieceType)
    requires
        i < 6,
    ensures
        t == piece_types()[i as int],
{
    match i {
        0 => PieceType::Pawn,
        1 => PieceType::Knight,
        2 => PieceType::Bishop,
        3 => PieceType::Rook,
        4 => PieceType::Queen,
        _ => PieceType::King,
    }
}

impl<B: SafetyChecks> GameState<B> {
    /// Both players have a king, and every king stands on a file from which
    /// its castling rights lead to the c- or g-file, or off the board.
    pub fn has_both_kings(&self) -> (ok: bool)
        requires
            self@.squares.len() == 64,
        ensures
            ok == both_kings(self@),
    {
        let mut white_king = false;
        let mut black_king = false;
        let mut consistent = true;
        let mut i: usize = 0;
        while i < 64
            invariant
                i <= 64,
                self@.squares.len() == 64,
                white_king == exists|j: int| 0 <= j < i && self@.squares[j] == Some(Piece { piece: PieceType::King, player: Player::White }),
                black_king == exists|j: int| 0 <= j < i && self@.squares[j] == Some(Piece { piece: PieceType::King, player: Player::Black }),
                consistent == forall|j: int|
                    0 <= j < i && (#[trigger] self@.squares[j]) is Some && self@.squares[j].unwrap().piece == PieceType::King
                        ==> castle_file_ok(self@.info, self@.squares[j].unwrap().player, index_position(j).file),
            decreases 64 - i,
        {
            proof {
                lemma_position_index(i as int);
            }
            let position = Position { rank: i / 8, file: i % 8 };
            match square(self, &position) {
                Some(piece) => {
                    if piece.piece == PieceType::King {
                        match piece.player {
                            Player::White => white_king = true,
                            Player::Black => black_king = true,
                        }
                        let info = self.info();
                        let file = position.file;
                        if (info.can_castle_kingside(&piece.player) && !(file == 4 || file == 6))
                            || (info.can_castle_queenside(&piece.player) && !(file == 4 || file == 1 || file == 2)) {
                            consistent = false;
                        }
                    }
                },
                None => {},
            }
            i += 1;
        }
        white_king && black_king && consistent
    }

    /// The number of pieces of each type of a player, in type order.
    fn army(&self, player: Player) -> (counts: Vec<u32>)
        requires
            self@.squares.len() == 64,
        ensures
            counts@.len() == 6,
            forall|k: int| 0 <= k < 6 ==> #[trigger] counts@[k] == count_type(self@.squares, player, piece_types()[k], 64),
    {
        let mut counts: Vec<u32> = Vec::new();
        let mut k: usize = 0;
        while k < 6
            invariant
                k <= 6,
                self@.squares.len() == 64,
                counts@.len() == k,
                forall|j: int| 0 <= j < k ==> #[trigger] counts@[j] == count_type(self@.squares, player, piece_types()[j], 64),
            decreases 6 - k,
        {
            let t = type_at(k);
            let mut n: u32 = 0;
            let mut i: usize = 0;
            while i < 64
                invariant
                    i <= 64,
                    self@.squares.len() == 64,
                    n == count_type(self@.squares, player, t, i as int),
                    n <= i,
                decreases 64 - i,
            {
                proof {
                    lemma_position_index(i as int);
                }
                if square(self, &Position { rank: i / 8, file: i % 8 }) == Some(Piece { piece: t, player }) {
                    n += 1;
                }
                i += 1;
            }
            counts.push(n);
            k += 1;
        }
        counts
    }

    /// The legal moves of the piece on a position, played by its owner (no
    /// moves for an empty square).
    pub fn get_possible_moves(&self, position: Position) -> (moves: Vec<MoveAction>)
        requires
            valid_position(position),
            both_kings(self@),
        ensures
            moves@ == owner_legal_moves(self@, position, stored_fn::<B>()),
    {
        let player = match square(self, &position) {
            Some(Piece { piece: _, player }) => player,
            None => {
                return Vec::new();
            },
        };
        let mut game = self.clone_unhashed();
        // Play as the color of the position
        game.update_player(player);
        assert(game@ == with_player(self@, player));
        game.get_possible_moves_from_game(position)
    }

    /// The targets of the legal moves of the piece on a position, with
    /// consecutive repeats (the promotions to one square) dropped.
    pub fn get_possible_targets(&self, position: Position) -> (targets: Vec<Position>)
        requires
            valid_position(position),
            both_kings(self@),
        ensures
            targets@ == dedup_targets(owner_legal_moves(self@, position, stored_fn::<B>())),
    {
        let moves = self.get_possible_moves(position);
        let mut targets: Vec<Position> = Vec::new();
        let mut i: usize = 0;
        while i < moves.len()
            invariant
                i <= moves.len(),
                targets@ == dedup_targets(moves@.take(i as int)),
            decreases moves.len() - i,
        {
            let target = moves[i].mv.target;
            proof {
                assert(moves@.take(i + 1).drop_last() =~= moves@.take(i as int));
            }
            if targets.len() == 0 || targets[targets.len() - 1] != target {
                targets.push(target);
            }
            i += 1;
        }
        assert(moves@.take(moves.len() as int) =~= moves@);
        targets
    }

    /// Makes a move of the player to move if its target is one of the legal
    /// targets of the piece; returns whether the move was made.
    pub fn do_move_with_checks(&mut self, move_action: &MoveAction) -> (made: bool)
        requires
            valid_position(move_action.mv.source),
            valid_position(move_action.mv.target),
            both_kings(old(self)@),
        ensures
            made == move_allowed(old(self)@, *move_action, stored_fn::<B>()),
            made ==> final(self)@ == moved_game(old(self)@, *move_action, move_kind(old(self)@.squares, *move_action).unwrap(), stored_fn::<B>()),
            made ==> final(self)@.squares.len() == 64 && move_makeable(old(self)@.squares, *move_action),
            !made ==> final(self)@ == old(self)@,
    {
        let mv = move_action.mv;
        match square(self, &mv.source) {
            Some(piece) => {
                if piece.player != self.player() {
                    return false;
                }
            },
            None => {
                return false;
            },
        }
        let possible_moves = self.get_possible_moves(mv.source);
        let mut found = false;
        let mut i: usize = 0;
        while i < possible_moves.len()
            invariant
                i <= possible_moves.len(),
                found == exists|j: int| 0 <= j < i && possible_moves@[j].mv.target == mv.target,
            decreases possible_moves.len() - i,
        {
            if possible_moves[i].mv.target == mv.target {
                found = true;
            }
            i += 1;
        }
        if !found {
            return false;
        }
        proof {
            let j = choose|j: int| 0 <= j < possible_moves@.len() && possible_moves@[j].mv.target == mv.target;
            assert(possible_moves@.contains(possible_moves@[j]));
            lemma_legal_move_makeable(self@, mv.source, possible_moves@[j], stored_fn::<B>());
            assert(move_of(mv.source, mv.target, move_action.move_type) == *move_action);
            if move_kind(self@.squares, *move_action) is Some {
                crate::eval::legal::lemma_moved_len(self@, *move_action, stored_fn::<B>());
            }
        }
        self.do_move_no_checks(move_action).is_ok()
    }

    /// Makes a move of the player to move if it is legal (as
    /// `do_move_with_checks` decides) and returns the pieces of the other
    /// player of which the move took one, one per type in type order;
    /// `None` if the move was not made.
    pub fn do_move(&mut self, mv: &MoveAction) -> (captured: Option<Vec<Piece>>)
        requires
            valid_position(mv.mv.source),
            valid_position(mv.mv.target),
            both_kings(old(self)@),
        ensures
            captured is Some == move_allowed(old(self)@, *mv, stored_fn::<B>()),
            captured is Some ==> final(self)@ == moved_game(old(self)@, *mv, move_kind(old(self)@.squares, *mv).unwrap(), stored_fn::<B>()),
            captured matches Some(v) ==> v@ == lost_pieces(old(self)@.squares, final(self)@.squares, opponent(old(self)@.player)),
            captured is None ==> final(self)@ == old(self)@,
    {
        let enemy_player = self.player().opponent();
        let before = self.army(enemy_player);
        let result = self.do_move_with_checks(mv);
        if !result {
            return None;
        }
        let after = self.army(enemy_player);
        let mut lost: Vec<Piece> = Vec::new();
        let ghost pred = |t: PieceType| count_type(old(self)@.squares, enemy_player, t, 64) > count_type(self@.squares, enemy_player, t, 64);
        let mut k: usize = 0;
        while k < 6
            invariant
                k <= 6,
                before@.len() == 6,
                after@.len() == 6,
                forall|j: int| 0 <= j < 6 ==> #[trigger] before@[j] == count_type(old(self)@.squares, enemy_player, piece_types()[j], 64),
                forall|j: int| 0 <= j < 6 ==> #[trigger] after@[j] == count_type(self@.squares, enemy_player, piece_types()[j], 64),
                pred == (|t: PieceType| count_type(old(self)@.squares, enemy_player, t, 64) > count_type(self@.squares, enemy_player, t, 64)),
                lost@ == piece_types().take(k as int).filter(pred).map_values(|t: PieceType| Piece { piece: t, player: enemy_player }),
            decreases 6 - k,
        {
            let t = type_at(k);
            proof {
                reveal_with_fuel(Seq::<_>::filter, 1);
                assert(piece_types().take(k + 1).drop_last() =~= piece_types().take(k as int));
            }
            if before[k] > after[k] {
                lost.push(Piece { piece: t, player: enemy_player });
            }
            proof {
                assert(lost@ =~= piece_types().take(k + 1).filter(pred).map_values(|t: PieceType| Piece { piece: t, player: enemy_player }));
            }
            k += 1;
        }
        assert(piece_types().take(6) =~= piece_types());
        Some(lost)
    }
}

/// A move is made by `do_move_with_checks`: its source holds a piece of the
/// player to move, some legal move of that piece has its target, and the
/// move itself can be made (it names a promotion piece if it needs one).
pub open spec fn move_allowed(g: GameView, action: MoveAction, stored: spec_fn(Option<Piece>, Option<Piece>) -> Option<Piece>) -> bool {
    &&& sq_at(g.squares, action.mv.source) is Some
    &&& sq_at(g.squares, action.mv.source).unwrap().player == g.player
    &&& has_target(owner_legal_moves(g, action.mv.source, stored), action)
    &&& move_kind(g.squares, action) is Some
}

/// The targets of a list of moves, with consecutive repeats dropped.
pub open spec fn dedup_targets(moves: Seq<MoveAction>) -> Seq<Position>
    decreases moves.len(),
{
    if moves.len() == 0 {
        Seq::empty()
    } else {
        let prefix = dedup_targets(moves.drop_last());
        if prefix.len() > 0 && prefix.last() == moves.last().mv.target {
            prefix
        } else {
            prefix.push(moves.last().mv.target)
        }
    }
}

/// A legal move can be made with the same source and target and any type.
pub proof fn lemma_legal_move_makeable(g: GameView, p: Position, m: MoveAction, stored: spec_fn(Option<Piece>, Option<Piece>) -> Option<Piece>)
    requires
        valid_position(p),
        both_kings(g),
        sq_at(g.squares, p) is Some,
        owner_legal_moves(g, p, stored).contains(m),
    ensures
        m.mv.source == p,
        target_ok(with_player(g, sq_at(g.squares, p).unwrap().player), p, m.mv.target),
        forall|mt| move_makeable(g.squares, #[trigger] move_of(p, m.mv.target, mt)),
{
    let h = with_player(g, sq_at(g.squares, p).unwrap().player);
    let king = if sq_at(h.squares, p).unwrap().piece == PieceType::King { p } else { crate::rules::king_position(h.squares, h.player) };
    let pred = |x: MoveAction| crate::rules::move_keeps_king_safe(h, x, king, stored);
    let pseudo = pseudo_moves(h, p);
    assert(legal_moves(h, p, stored) == pseudo.filter(pred));
    crate::rules::lemma_filter_subset(pseudo, pred);
    let i = choose|i: int| 0 <= i < pseudo.filter(pred).len() && pseudo.filter(pred)[i] == m;
    assert(pseudo.contains(pseudo.filter(pred)[i]));
    lemma_moves_to_targets(p, piece_targets(h, p), may_promote(h, p));
    lemma_piece_targets_ok(h, p);
    let j = choose|j: int| 0 <= j < pseudo.len() && pseudo[j] == m;
    let k = choose|k: int| 0 <= k < piece_targets(h, p).len() && piece_targets(h, p)[k] == pseudo[j].mv.target;
    assert(target_ok(h, p, piece_targets(h, p)[k]));
}

} // verus!
