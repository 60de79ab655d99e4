//! Scores in centipawns, with saturating arithmetic, and the results of a
//! search.

use crate::board::{PieceType, Player};
use crate::game::MoveAction;
use vstd::prelude::*;

verus! {

/// The largest score, that of taking the king.
pub open spec fn score_max() -> int {
    2147483647
}

/// The lowest score (the opposite of the largest).
pub open spec fn score_min() -> int {
    -2147483647
}

/// An integer clamped to the range of `i32`, as saturating arithmetic gives.
pub open spec fn saturate(x: int) -> i32 {
    if x > i32::MAX {
        i32::MAX
    } else if x < i32::MIN {
        i32::MIN
    } else {
        x as i32
    }
}

/// A score in centipawns.
#[derive(Copy, Clone, Debug, PartialEq, Eq, PartialOrd, Ord, Default, Structural)]
pub struct Score(pub i32);

/// The value of a piece type.
pub open spec fn spec_piece_value(piece: PieceType) -> int {
    match piece {
        PieceType::Pawn => 100,
        PieceType::Knight => 300,
        PieceType::Bishop => 300,
        PieceType::Rook => 500,
        PieceType::Queen => 900,
        PieceType::King => score_max(),
    }
}

/// The score of a stalemate: half the lowest score (rounded toward zero),
/// lower than losing any piece.
pub open spec fn spec_stalemate() -> int {
    -1073741823
}

/// The negation of a score; the lowest scores become the largest.
pub open spec fn spec_neg(x: i32) -> i32 {
    if x <= score_min() {
        i32::MAX
    } else {
        (-x) as i32
    }
}

impl Score {
    /// The largest score, that of taking the king.
    pub fn highest() -> (s: Score)
        ensures
            s.0 == score_max(),
    {
        Score(2147483647)
    }

    /// The lowest score.
    pub fn lowest() -> (s: Score)
        ensures
            s.0 == score_min(),
    {
        Score(-2147483647)
    }

    /// The value of a piece type.
    pub fn piece_value(piece: PieceType) -> (s: Score)
        ensures
            s.0 == spec_piece_value(piece),
    {
        match piece {
            PieceType::Pawn => Score::from(100),
            PieceType::Knight => Score::from(300),
            PieceType::Bishop => Score::from(300),
            PieceType::Rook => Score::from(500),
            PieceType::Queen => Score::from(900),
            PieceType::King => Score::highest(),
        }
    }

    /// The score of a stalemate: lower than losing any piece, higher than
    /// being mated.
    pub fn stalemate() -> (s: Score)
        ensures
            s.0 == spec_stalemate(),
    {
        Score::from(Score::lowest().0 / 2)
    }

    /// A score from centipawns.
    pub fn from(value: i32) -> (s: Score)
        ensures
            s.0 == value,
    {
        Score(value)
    }

    /// The centipawns of a score.
    pub fn value(self) -> (v: i32)
        ensures
            v == self.0,
    {
        self.0
    }
}

impl core::ops::Add for Score {
    type Output = Score;

    /// Saturating addition.
    fn add(self, other: Score) -> (sum: Score)
        ensures
            sum.0 == saturate(self.0 + other.0),
    {
        let s: i64 = self.0 as i64 + other.0 as i64;
        if s > 2147483647i64 {
            Score(2147483647i32)
        } else if s < -2147483648i64 {
            Score(-2147483648i32)
        } else {
            Score(s as i32)
        }
    }
}

impl vstd::std_specs::ops::AddSpecImpl for Score {
    open spec fn obeys_add_spec() -> bool {
        true
    }

    open spec fn add_req(self, other: Score) -> bool {
        true
    }

    open spec fn add_spec(self, other: Score) -> Score {
        Score(saturate(self.0 + other.0))
    }
}

impl core::ops::Sub for Score {
    type Output = Score;

    /// Saturating subtraction.
    fn sub(self, other: Score) -> (difference: Score)
        ensures
            difference.0 == saturate(self.0 - other.0),
    {
        let s: i64 = self.0 as i64 - other.0 as i64;
        if s > 2147483647i64 {
            Score(2147483647i32)
        } else if s < -2147483648i64 {
            Score(-2147483648i32)
        } else {
            Score(s as i32)
        }
    }
}

impl vstd::std_specs::ops::SubSpecImpl for Score {
    open spec fn obeys_sub_spec() -> bool {
        true
    }

    open spec fn sub_req(self, other: Score) -> bool {
        true
    }

    open spec fn sub_spec(self, other: Score) -> Score {
        Score(saturate(self.0 - other.0))
    }
}

impl core::ops::Neg for Score {
    type Output = Score;

    /// The opposite score; the lowest scores become the largest.
    fn neg(self) -> (opposite: Score)
        ensures
            opposite.0 == spec_neg(self.0),
    {
        if self.0 <= -2147483647i32 {
            Score(2147483647i32)
        } else {
            Score(-self.0)
        }
    }
}

impl vstd::std_specs::ops::NegSpecImpl for Score {
    open spec fn obeys_neg_spec() -> bool {
        true
    }

    open spec fn neg_req(self) -> bool {
        true
    }

    open spec fn neg_spec(self) -> Score {
        Score(spec_neg(self.0))
    }
}

/// The text of a score: "-∞" and "+∞" at the ends, else the centipawns
/// (with a '+' before non-negative values when `plus` is set).
pub open spec fn score_chars(x: i32, plus: bool) -> Seq<char> {
    if x <= score_min() {
        seq!['-', '∞']
    } else if x >= score_max() {
        seq!['+', '∞']
    } else {
        crate::text::signed_chars(x as int, plus)
    }
}

impl Score {
    /// Appends the text of the score.
    pub fn push_text(&self, out: &mut Vec<char>, plus: bool)
        ensures
            final(out)@ == old(out)@ + score_chars(self.0, plus),
    {
        let ghost start = out@;
        if self.0 <= -2147483647i32 {
            out.push('-');
            out.push('∞');
        } else if self.0 >= 2147483647i32 {
            out.push('+');
            out.push('∞');
        } else {
            crate::text::push_signed(out, self.0 as i64, plus);
        }
        assert(out@ =~= start + score_chars(self.0, plus));
    }
}

/// Negating twice gives back every score above the lowest.
pub proof fn lemma_neg_neg(x: i32)
    requires
        x >= score_min(),
    ensures
        spec_neg(spec_neg(x)) == x,
{
}

/// The kinds of mate.
#[derive(Copy, Clone, Debug, PartialEq, Eq, Structural)]
pub enum MateType {
    Checkmate,
    Stalemate,
}

/// What a search proposes: a move, or the mate that leaves none.
#[derive(Copy, Clone, Debug, PartialEq, Eq, Structural)]
pub enum GameMove {
    Normal(MoveAction),
    Mate(MateType),
}

/// A move with the score it gains for the player who makes it.
#[derive(Copy, Clone, Debug, PartialEq, Eq, Structural)]
pub struct WeightedMove {
    pub mv: MoveAction,
    pub score: Score,
}

/// How a line of play ends.
#[derive(Copy, Clone, Debug, PartialEq, Eq, Structural)]
pub enum GameResult {
    Win(Player),
    Draw,
}

/// A line of play found by a search, with its score for the player who
/// starts it and the number of moves searched.
#[derive(Debug)]
pub struct Branch {
    pub moves: Vec<WeightedMove>,
    pub score: Score,
    pub searched: u32,
    pub result: Option<GameResult>,
}

impl Default for Branch {
    fn default() -> (branch: Branch)
        ensures
            branch.moves@.len() == 0,
            branch.score.0 == 0,
            branch.searched == 0,
            branch.result is None,
    {
        Branch { moves: Vec::new(), score: Score(0), searched: 0, result: None }
    }
}

} // verus!
