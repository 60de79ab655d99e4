//! What a search reports while it runs: progress updates, messages and the
//! shape of the search tree.

use crate::game::MoveAction;
use vstd::prelude::*;

verus! {

/// Progress of a search.
#[derive(Clone, Debug, PartialEq, Eq)]
pub struct EngineFeedbackMessage {
    /// Depth, in plies.
    pub depth: u32,
    pub nodes: u32,
    /// Score, in centipawns.
    pub score: i32,
}

/// A message for the user.
#[derive(Clone, Debug, PartialEq, Eq)]
pub struct EngineInfoMessage {
    pub message: String,
}

/// What an engine sends to its user.
#[derive(Clone, Debug, PartialEq, Eq)]
pub enum EngineMessage {
    SearchFeedback(EngineFeedbackMessage),
    Info(EngineInfoMessage),
}

/// The receiver of an engine's messages, implemented by the program that
/// runs the engine.
pub trait EngineFeedback {
    /// Sends a message.
    fn send(&self, msg: EngineMessage);

    /// Writes a line of log text.
    fn write_line(&mut self, text: String);
}

/// A move tried by the search, with a description.
#[derive(Clone, Debug, PartialEq, Eq)]
pub struct SearchMove {
    pub mv: Option<MoveAction>,
    pub info: String,
}

/// A step of the search tree: the starting position, a child move, a
/// comment, or the return to the parent.
#[derive(Clone, Debug, PartialEq, Eq)]
pub enum SearchNodeFeedback {
    Fen(String),
    Child(SearchMove),
    Info(String),
    Return,
}

/// The receiver of what a search reports.
pub trait SearchFeedback {
    /// Progress: the depth, the number of moves searched and the score of
    /// the current move.
    fn update(&mut self, depth: u32, nodes: u32, score: i32);

    /// A message for the user.
    fn info(&mut self, message: &str);

    /// A step of the search tree.
    fn search_node(&mut self, node_type: SearchNodeFeedback);

    /// A line of log text.
    fn write_line(&mut self, text: String);
}

/// Feedback that drops everything.
#[derive(Clone, Debug, Default, PartialEq, Eq)]
pub struct SilentSearchFeedback();

impl SearchFeedback for SilentSearchFeedback {
    fn update(&mut self, depth: u32, nodes: u32, score: i32) {
    }

    fn info(&mut self, message: &str) {
    }

    fn search_node(&mut self, node_type: SearchNodeFeedback) {
    }

    fn write_line(&mut self, text: String) {
    }
}

/// When to pass progress on: at most once per interval of time, measured
/// in milliseconds by the caller's clock.
#[derive(Clone, Debug, PartialEq, Eq)]
pub struct PeriodicalSearchFeedback {
    update_interval: u64,
    last_update: u64,
}

impl PeriodicalSearchFeedback {
    /// The interval between updates, in milliseconds.
    pub closed spec fn interval(&self) -> u64 {
        self.update_interval
    }

    /// The time of the last update.
    pub closed spec fn last(&self) -> u64 {
        self.last_update
    }

    /// Updates at most once per `update_interval`, counting from `now`.
    pub fn new(update_interval: u64, now: u64) -> (feedback: Self)
        ensures
            feedback.interval() == update_interval,
            feedback.last() == now,
    {
        PeriodicalSearchFeedback { update_interval, last_update: now }
    }

    /// Whether an update is due at time `now`; if so, `now` becomes the time
    /// of the last update. A clock that goes back makes no update due.
    pub fn update_due(&mut self, now: u64) -> (due: bool)
        ensures
            due == (now >= old(self).last() && now - old(self).last() >= old(self).interval()),
            final(self).interval() == old(self).interval(),
            final(self).last() == (if due { now } else { old(self).last() }),
    {
        if now < self.last_update || now - self.last_update < self.update_interval {
            return false;
        }
        self.last_update = now;
        true
    }
}

/// Feedback that records the search tree, and optionally lets log text
/// through.
#[derive(Clone, Debug, Default, PartialEq, Eq)]
pub struct SearchTreeFeedback {
    nodes: Vec<SearchNodeFeedback>,
    log: bool,
}

impl SearchTreeFeedback {
    /// The steps recorded so far.
    pub closed spec fn recorded(&self) -> Seq<SearchNodeFeedback> {
        self.nodes@
    }

    /// Whether log text is let through.
    pub closed spec fn logs(&self) -> bool {
        self.log
    }

    /// A recorder that drops log text.
    pub fn new() -> (feedback: Self)
        ensures
            feedback.recorded().len() == 0,
            !feedback.logs(),
    {
        SearchTreeFeedback { nodes: Vec::new(), log: false }
    }

    /// A recorder that lets log text through.
    pub fn with_logger() -> (feedback: Self)
        ensures
            feedback.recorded().len() == 0,
            feedback.logs(),
    {
        SearchTreeFeedback { nodes: Vec::new(), log: true }
    }

    /// Whether log text is let through.
    pub fn is_logging(&self) -> (log: bool)
        ensures
            log == self.logs(),
    {
        self.log
    }

    /// The steps recorded so far.
    pub fn nodes(&self) -> (nodes: &Vec<SearchNodeFeedback>)
        ensures
            nodes@ == self.recorded(),
    {
        &self.nodes
    }
}

impl SearchFeedback for SearchTreeFeedback {
    fn update(&mut self, depth: u32, nodes: u32, score: i32) {
    }

    fn info(&mut self, message: &str) {
    }

    fn search_node(&mut self, node_type: SearchNodeFeedback)
        ensures
            final(self).recorded() == old(self).recorded().push(node_type),
            final(self).logs() == old(self).logs(),
    {
        self.nodes.push(node_type);
    }

    fn write_line(&mut self, text: String) {
    }
}

} // verus!
