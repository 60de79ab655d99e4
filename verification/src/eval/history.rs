//! The moves of a game with the hash of the position before each, and how
//! often each hash occurs (for threefold repetition).

use super::play::{both_kings, move_allowed};
use crate::board::{valid_position, SimpleBoard};
use crate::game::{game_hash, initial_view, stored_fn, GameHash, Move, MoveAction, SimpleGame, ZobristKeys};
use crate::rules::{move_kind, moved_game, GameView};
use std::collections::HashMap;
use vstd::prelude::*;

verus! {

broadcast use vstd::std_specs::hash::group_hash_axioms;

/// The moves of a game, in order.
pub type GameHistory = Vec<MoveAction>;

/// Why a history cannot be built or shortened.
#[derive(Copy, Clone, Debug, PartialEq, Eq, Structural)]
pub enum HistoryError {
    /// The move cannot be made in the position it is played in.
    InvalidMove(Move),
    /// There is no move to take back.
    Empty,
}

/// The number of entries with a given hash.
pub open spec fn count_hash(entries: Seq<(MoveAction, u64)>, hash: u64) -> nat
    decreases entries.len(),
{
    if entries.len() == 0 {
        0
    } else {
        count_hash(entries.drop_last(), hash) + if entries.last().1 == hash { 1nat } else { 0nat }
    }
}

proof fn lemma_count_push(entries: Seq<(MoveAction, u64)>, entry: (MoveAction, u64), hash: u64)
    ensures
        count_hash(entries.push(entry), hash) == count_hash(entries, hash) + if entry.1 == hash { 1nat } else { 0nat },
{
    assert(entries.push(entry).drop_last() =~= entries);
}

proof fn lemma_count_le_len(entries: Seq<(MoveAction, u64)>, hash: u64)
    ensures
        count_hash(entries, hash) <= entries.len(),
    decreases entries.len(),
{
    if entries.len() > 0 {
        lemma_count_le_len(entries.drop_last(), hash);
    }
}

/// The moves of a game with the hash of the position each was played in.
pub struct HashedHistory {
    moves: Vec<(MoveAction, u64)>,
    hashes: HashMap<u64, usize>,
}

impl HashedHistory {
    /// The moves with their hashes, in order.
    pub closed spec fn entries(&self) -> Seq<(MoveAction, u64)> {
        self.moves@
    }

    /// The counts agree with the entries.
    pub closed spec fn wf(&self) -> bool {
        forall|h: u64| #[trigger] count_hash(self.moves@, h) == (if self.hashes@.contains_key(h) { self.hashes@[h] as nat } else { 0 })
    }

    /// An empty history.
    pub fn new() -> (history: Self)
        ensures
            history.wf(),
            history.entries().len() == 0,
    {
        HashedHistory { moves: Vec::new(), hashes: HashMap::new() }
    }

    /// Makes room for more moves.
    pub fn reserve(&mut self, additional: usize)
        requires
            old(self).wf(),
        ensures
            final(self).wf(),
            final(self).entries() == old(self).entries(),
    {
        self.moves.reserve(additional);
        self.hashes.reserve(additional);
    }

    /// Adds a move played in the position with the given hash.
    pub fn push(&mut self, mv: MoveAction, hash: GameHash)
        requires
            old(self).wf(),
            old(self).entries().len() < usize::MAX,
        ensures
            final(self).wf(),
            final(self).entries() == old(self).entries().push((mv, hash.0)),
    {
        proof {
            lemma_count_le_len(self.moves@, hash.0);
        }
        let ghost old_moves = self.moves@;
        let ghost old_hashes = self.hashes@;
        let count: usize = match self.hashes.get(&hash.0) {
            Some(c) => *c,
            None => 0,
        };
        self.moves.push((mv, hash.0));
        self.hashes.insert(hash.0, count + 1);
        proof {
            assert forall|h: u64| #[trigger] count_hash(self.moves@, h) == (if self.hashes@.contains_key(h) { self.hashes@[h] as nat } else { 0 }) by {
                lemma_count_push(old_moves, (mv, hash.0), h);
                assert(count_hash(old_moves, h) == (if old_hashes.contains_key(h) { old_hashes[h] as nat } else { 0 }));
            }
        }
    }

    /// Takes back the last move.
    pub fn pop(&mut self) -> (result: Result<MoveAction, HistoryError>)
        requires
            old(self).wf(),
        ensures
            final(self).wf(),
            old(self).entries().len() == 0 ==> result == Err::<MoveAction, HistoryError>(HistoryError::Empty) && final(self).entries() == old(self).entries(),
            old(self).entries().len() > 0 ==> result == Ok::<MoveAction, HistoryError>(old(self).entries().last().0)
                && final(self).entries() == old(self).entries().drop_last(),
    {
        if self.moves.len() == 0 {
            return Err(HistoryError::Empty);
        }
        let ghost old_moves = self.moves@;
        let ghost old_hashes = self.hashes@;
        let (mv, hash) = self.moves.pop().unwrap();
        proof {
            assert(old_moves == self.moves@.push((mv, hash)));
            lemma_count_push(self.moves@, (mv, hash), hash);
            assert(count_hash(old_moves, hash) == (if old_hashes.contains_key(hash) { old_hashes[hash] as nat } else { 0 }));
        }
        let count: usize = match self.hashes.get(&hash) {
            Some(c) => *c,
            None => 0,
        };
        self.hashes.insert(hash, count - 1);
        proof {
            assert forall|h: u64| #[trigger] count_hash(self.moves@, h) == (if self.hashes@.contains_key(h) { self.hashes@[h] as nat } else { 0 }) by {
                lemma_count_push(self.moves@, (mv, hash), h);
                assert(count_hash(old_moves, h) == (if old_hashes.contains_key(h) { old_hashes[h] as nat } else { 0 }));
            }
        }
        Ok(mv)
    }

    /// How many moves were played in a position with the given hash.
    pub fn count(&self, hash: &GameHash) -> (n: usize)
        requires
            self.wf(),
        ensures
            n == count_hash(self.entries(), hash.0),
    {
        proof {
            assert(count_hash(self.moves@, hash.0) == (if self.hashes@.contains_key(hash.0) { self.hashes@[hash.0] as nat } else { 0 }));
        }
        match self.hashes.get(&hash.0) {
            Some(c) => *c,
            None => 0,
        }
    }
}

/// Pushing a move and popping it gives the move back and leaves the
/// history, and every count of a hash, as they were; the pushed position's
/// count grows by one in between.
pub proof fn lemma_push_pop(entries: Seq<(MoveAction, u64)>, mv: MoveAction, hash: u64)
    ensures
        entries.push((mv, hash)).last().0 == mv,
        entries.push((mv, hash)).drop_last() == entries,
        count_hash(entries.push((mv, hash)), hash) == count_hash(entries, hash) + 1,
        forall|h: u64| h != hash ==> count_hash(entries.push((mv, hash)), h) == count_hash(entries, h),
{
    assert(entries.push((mv, hash)).drop_last() =~= entries);
    assert forall|h: u64| h != hash implies count_hash(entries.push((mv, hash)), h) == count_hash(entries, h) by {
        lemma_count_push(entries, (mv, hash), h);
    }
    lemma_count_push(entries, (mv, hash), hash);
}

/// The game after a move made as `Game::do_move` makes it, if both players
/// have a king and the move is allowed.
#[verifier::opaque]
pub open spec fn play_move(h: GameView, m: MoveAction) -> Option<GameView> {
    if both_kings(h) && move_allowed(h, m, stored_fn::<SimpleBoard>()) {
        Some(moved_game(h, m, move_kind(h.squares, m).unwrap(), stored_fn::<SimpleBoard>()))
    } else {
        None
    }
}

/// The game after playing moves from `g`, each made as `Game::do_move`
/// makes it, while both players keep a king; `None` once a move is refused.
pub open spec fn replay(g: GameView, moves: Seq<MoveAction>) -> Option<GameView>
    decreases moves.len(),
{
    if moves.len() == 0 {
        Some(g)
    } else {
        match replay(g, moves.drop_last()) {
            Some(h) => play_move(h, moves.last()),
            None => None,
        }
    }
}

/// Each move played from the initial position, with the hash of the
/// position it was played in.
pub open spec fn replayed_entries(keys: Seq<u64>, moves: Seq<MoveAction>) -> Seq<(MoveAction, u64)> {
    Seq::new(moves.len(), |i: int| (moves[i], game_hash(keys, replay(initial_view(), moves.take(i)).unwrap())))
}

/// Once a move is refused, longer sequences are refused too.
proof fn lemma_replay_refused(g: GameView, moves: Seq<MoveAction>, k: int)
    requires
        0 <= k <= moves.len(),
        replay(g, moves.take(k)) is None,
    ensures
        replay(g, moves) is None,
    decreases moves.len() - k,
{
    if k < moves.len() {
        assert(moves.take(k + 1).drop_last() =~= moves.take(k));
        lemma_replay_refused(g, moves, k + 1);
    } else {
        assert(moves.take(k) =~= moves);
    }
}

impl HashedHistory {
    /// The history of moves played from the initial position, with the hash
    /// of the position before each move.
    #[verifier::rlimit(30)]
    pub fn from(moves: &GameHistory, keys: &ZobristKeys) -> (result: Result<Self, HistoryError>)
        requires
            keys.wf(),
            moves@.len() < usize::MAX,
            forall|i: int| 0 <= i < moves@.len() ==> valid_position(#[trigger] moves@[i].mv.source) && valid_position(moves@[i].mv.target),
        ensures
            result is Ok <==> replay(initial_view(), moves@) is Some,
            result matches Ok(h) ==> {
                &&& h.wf()
                &&& h.entries() == replayed_entries(keys@, moves@)
                &&& h.entries().len() == moves@.len()
                &&& forall|i: int| 0 <= i < moves@.len() ==> (#[trigger] h.entries()[i]) == (moves@[i], game_hash(keys@, replay(initial_view(), moves@.take(i)).unwrap()))
            },
            result matches Err(e) ==> exists|i: int| 0 <= i < moves@.len() && e == HistoryError::InvalidMove(#[trigger] moves@[i].mv),
    {
        let mut game = SimpleGame::new();
        let mut history = HashedHistory::new();
        history.reserve(moves.len() + 1);
        let mut i: usize = 0;
        while i < moves.len()
            invariant
                keys.wf(),
                i <= moves@.len(),
                moves@.len() < usize::MAX,
                forall|j: int| 0 <= j < moves@.len() ==> valid_position(#[trigger] moves@[j].mv.source) && valid_position(moves@[j].mv.target),
                replay(initial_view(), moves@.take(i as int)) == Some(game@),
                game@.squares.len() == 64,
                game@.last_move matches Some(m) ==> valid_position(m.mv.target),
                history.wf(),
                history.entries().len() == i,
                forall|j: int| 0 <= j < i ==> (#[trigger] history.entries()[j]) == (moves@[j], game_hash(keys@, replay(initial_view(), moves@.take(j)).unwrap())),
            decreases moves@.len() - i,
        {
            let mv = moves[i];
            let hash = game.clone_unhashed().hash(keys);
            let ghost before = game@;
            proof {
                assert(moves@.take(i + 1).drop_last() =~= moves@.take(i as int));
                assert(moves@.take(i + 1).last() == mv);
                assert(replay(initial_view(), moves@.take(i + 1)) == play_move(before, mv));
            }
            if !game.has_both_kings() {
                proof {
                    reveal(play_move);
                    lemma_replay_refused(initial_view(), moves@, i + 1);
                }
                return Err(HistoryError::InvalidMove(mv.mv));
            }
            history.push(mv, hash);
            if game.do_move(&mv).is_none() {
                proof {
                    reveal(play_move);
                    lemma_replay_refused(initial_view(), moves@, i + 1);
                }
                return Err(HistoryError::InvalidMove(mv.mv));
            }
            proof {
                game.lemma_len();
                assert(play_move(before, mv) == Some(game@) && game@.last_move == Some(crate::game::MoveInfo { mv: mv.mv, info: move_kind(before.squares, mv).unwrap() })) by {
                    reveal(play_move);
                }
            }
            i += 1;
        }
        assert(moves@.take(moves@.len() as int) =~= moves@);
        Ok(history)
    }
}

impl Default for HashedHistory {
    fn default() -> (history: Self)
        ensures
            history.wf(),
            history.entries().len() == 0,
    {
        HashedHistory::new()
    }
}

} // verus!
