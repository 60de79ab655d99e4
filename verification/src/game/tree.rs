//! Trees of moves with comments, as a search explores them.

use super::fen::fen_game;
use super::state::{initial_view, GameState, SimpleGame};
use super::{stored_fn, MoveAction, ZobristKeys};
use crate::board::{valid_position, PieceType, Position, SimpleBoard};
use crate::eval::{after_move, both_kings, is_castling, move_allowed, spec_move_name, MoveNameError, SearchNodeFeedback, SearchTreeFeedback};
use crate::text::{ascii_words, split_ascii_whitespace, str_chars};
use vstd::prelude::*;

verus! {

/// What a tree of moves can be given: child nodes and comments.
pub trait AddNode {
    fn add_node(&mut self, child: TreeNode);

    fn add_comment(&mut self, comment: String);
}

/// A move with its name (once known), comments, and the moves that follow it.
pub struct TreeNode {
    mv: MoveAction,
    mv_name: Option<String>,
    comments: Vec<String>,
    nodes: Vec<TreeNode>,
}

impl TreeNode {
    pub closed spec fn action(&self) -> MoveAction {
        self.mv
    }

    pub closed spec fn name(&self) -> Option<Seq<char>> {
        match self.mv_name {
            Some(s) => Some(s@),
            None => None,
        }
    }

    pub closed spec fn notes(&self) -> Seq<String> {
        self.comments@
    }

    pub closed spec fn children(&self) -> Seq<TreeNode> {
        self.nodes@
    }

    /// A node of a move, without name, comments or children.
    pub fn new(mv: MoveAction) -> (node: TreeNode)
        ensures
            node.action() == mv,
            node.name() is None,
            node.notes().len() == 0,
            node.children().len() == 0,
    {
        TreeNode { mv, mv_name: None, comments: Vec::new(), nodes: Vec::new() }
    }

    /// The move of the node.
    pub fn action_of(&self) -> (mv: MoveAction)
        ensures
            mv == self.action(),
    {
        self.mv
    }

    /// The name of the move, once known.
    pub fn move_name(&self) -> (name: &Option<String>)
        ensures
            (match *name {
                Some(s) => Some(s@),
                None => None,
            }) == self.name(),
    {
        &self.mv_name
    }

    /// The comments of the node.
    pub fn comments(&self) -> (comments: &Vec<String>)
        ensures
            comments@ == self.notes(),
    {
        &self.comments
    }

    /// The moves that follow.
    pub fn nodes(&self) -> (nodes: &Vec<TreeNode>)
        ensures
            nodes@ == self.children(),
    {
        &self.nodes
    }
}

impl AddNode for TreeNode {
    fn add_node(&mut self, child: TreeNode)
        ensures
            final(self).children() == old(self).children().push(child),
            final(self).action() == old(self).action(),
            final(self).name() == old(self).name(),
            final(self).notes() == old(self).notes(),
    {
        self.nodes.push(child);
    }

    fn add_comment(&mut self, comment: String)
        ensures
            final(self).notes() == old(self).notes().push(comment),
            final(self).action() == old(self).action(),
            final(self).name() == old(self).name(),
            final(self).children() == old(self).children(),
    {
        self.comments.push(comment);
    }
}

/// The moves explored from a position.
pub struct GameTree {
    initial_position: SimpleGame,
    nodes: Vec<TreeNode>,
}

impl GameTree {
    pub closed spec fn start(&self) -> crate::rules::GameView {
        self.initial_position@
    }

    pub closed spec fn children(&self) -> Seq<TreeNode> {
        self.nodes@
    }

    /// An empty tree from the position of a FEN record (its fields separated
    /// by ASCII whitespace).
    pub fn try_from_fen(fen: &str) -> (tree: Option<GameTree>)
        ensures
            tree is Some <==> fen_game(ascii_words(fen@)) is Some,
            tree matches Some(t) ==> t.start() == fen_game(ascii_words(fen@)).unwrap() && t.children().len() == 0,
    {
        let chars = str_chars(fen);
        let words = split_ascii_whitespace(&chars);
        let initial_position = match SimpleGame::try_from_fen_fields(&words) {
            Some(g) => g,
            None => {
                return None;
            },
        };
        Some(GameTree { initial_position, nodes: Vec::new() })
    }

    /// An empty tree from the initial position.
    pub fn new() -> (tree: GameTree)
        ensures
            tree.start() == initial_view(),
            tree.children().len() == 0,
    {
        GameTree { initial_position: SimpleGame::new(), nodes: Vec::new() }
    }

    /// The position the tree starts from.
    pub fn initial_position(&self) -> (game: &SimpleGame)
        ensures
            game@ == self.start(),
    {
        &self.initial_position
    }

    /// The first moves of the tree.
    pub fn nodes(&self) -> (nodes: &Vec<TreeNode>)
        ensures
            nodes@ == self.children(),
    {
        &self.nodes
    }
}

impl Default for GameTree {
    fn default() -> (tree: GameTree)
        ensures
            tree.start() == initial_view(),
            tree.children().len() == 0,
    {
        GameTree::new()
    }
}

impl AddNode for GameTree {
    fn add_node(&mut self, child: TreeNode)
        ensures
            final(self).children() == old(self).children().push(child),
            final(self).start() == old(self).start(),
    {
        self.nodes.push(child);
    }

    /// A tree keeps no comments of its own.
    fn add_comment(&mut self, comment: String)
        ensures
            final(self).children() == old(self).children(),
            final(self).start() == old(self).start(),
    {
    }
}

/// No step but the first of a search record names a position.
pub open spec fn fen_only_first(nodes: Seq<SearchNodeFeedback>) -> bool {
    forall|i: int| 1 <= i < nodes.len() ==> !(#[trigger] nodes[i] is Fen)
}

/// What a node of a tree holds: its move, its name once known, its
/// comments and the nodes that follow.
pub struct NodeView {
    pub mv: MoveAction,
    pub name: Option<Seq<char>>,
    pub notes: Seq<String>,
    pub children: Seq<NodeView>,
}

/// A node holds what a view says, down to its last descendant.
pub open spec fn node_matches(node: TreeNode, view: NodeView) -> bool
    decreases view,
{
    &&& node.action() == view.mv
    &&& node.name() == view.name
    &&& node.notes() == view.notes
    &&& node.children().len() == view.children.len()
    &&& forall|k: int| 0 <= k < view.children.len() ==> node_matches(#[trigger] node.children()[k], view.children[k])
}

/// The nodes and comments that the steps of a search record from `i` on
/// add to a node, and the index after the step that returns from it (or
/// the end of the record): a child move adds a node, with the move's
/// comment and what the steps after it add, up to their return; a comment
/// or a step without a move adds a comment; a return ends.
pub open spec fn steps_from(nodes: Seq<SearchNodeFeedback>, i: int) -> (Seq<NodeView>, Seq<String>, int)
    decreases nodes.len() - i,
{
    if i < 0 || i >= nodes.len() {
        (Seq::empty(), Seq::empty(), nodes.len() as int)
    } else {
        match nodes[i] {
            SearchNodeFeedback::Return => (Seq::empty(), Seq::empty(), i + 1),
            SearchNodeFeedback::Info(s) => {
                let rest = steps_from(nodes, i + 1);
                (rest.0, seq![s] + rest.1, rest.2)
            },
            SearchNodeFeedback::Fen(_) => steps_from(nodes, i + 1),
            SearchNodeFeedback::Child(step) => match step.mv {
                None => {
                    let rest = steps_from(nodes, i + 1);
                    (rest.0, seq![step.info] + rest.1, rest.2)
                },
                Some(mv) => {
                    let sub = steps_from(nodes, i + 1);
                    let node = NodeView { mv, name: None, notes: seq![step.info] + sub.1, children: sub.0 };
                    if sub.2 <= i || sub.2 > nodes.len() {
                        (seq![node], Seq::empty(), nodes.len() as int)
                    } else {
                        let rest = steps_from(nodes, sub.2);
                        (seq![node] + rest.0, rest.1, rest.2)
                    }
                },
            },
        }
    }
}

/// The steps from `i` end past it, within the record.
proof fn lemma_steps_end(nodes: Seq<SearchNodeFeedback>, i: int)
    requires
        0 <= i <= nodes.len(),
    ensures
        i <= steps_from(nodes, i).2 <= nodes.len(),
        i < nodes.len() ==> i < steps_from(nodes, i).2,
    decreases nodes.len() - i,
{
    if i < nodes.len() {
        lemma_steps_end(nodes, i + 1);
        match nodes[i] {
            SearchNodeFeedback::Child(step) => {
                if step.mv is Some {
                    let sub = steps_from(nodes, i + 1);
                    lemma_steps_end(nodes, sub.2);
                }
            },
            _ => {},
        }
    }
}

/// Adds to `root` the steps of a search record from `*index` on, up to the
/// return to the parent of `root` (or the end of the record); children are
/// built recursively.
fn into_tree(root: &mut TreeNode, nodes: &Vec<SearchNodeFeedback>, index: &mut usize)
    requires
        fen_only_first(nodes@),
        1 <= *old(index) <= nodes@.len(),
    ensures
        *final(index) == steps_from(nodes@, *old(index) as int).2,
        final(root).action() == old(root).action(),
        final(root).name() == old(root).name(),
        final(root).notes() == old(root).notes() + steps_from(nodes@, *old(index) as int).1,
        final(root).children().len() == old(root).children().len() + steps_from(nodes@, *old(index) as int).0.len(),
        forall|k: int| 0 <= k < old(root).children().len() ==> #[trigger] final(root).children()[k] == old(root).children()[k],
        forall|k: int| 0 <= k < steps_from(nodes@, *old(index) as int).0.len() ==>
            node_matches(#[trigger] final(root).children()[old(root).children().len() + k], steps_from(nodes@, *old(index) as int).0[k]),
    decreases nodes@.len() - *old(index),
{
    let ghost start = *index as int;
    let ghost children0 = root.children();
    let ghost notes0 = root.notes();
    proof {
        lemma_steps_end(nodes@, start);
    }
    while *index < nodes.len()
        invariant
            fen_only_first(nodes@),
            start == *old(index),
            1 <= start <= *index <= nodes@.len(),
            steps_from(nodes@, *index as int).2 == steps_from(nodes@, start).2,
            root.action() == old(root).action(),
            root.name() == old(root).name(),
            children0 == old(root).children(),
            notes0 == old(root).notes(),
            root.notes() + steps_from(nodes@, *index as int).1 == notes0 + steps_from(nodes@, start).1,
            root.children().len() + steps_from(nodes@, *index as int).0.len() == children0.len() + steps_from(nodes@, start).0.len(),
            root.children().len() >= children0.len(),
            forall|k: int| 0 <= k < children0.len() ==> #[trigger] root.children()[k] == children0[k],
            forall|k: int| 0 <= k < root.children().len() - children0.len() ==>
                node_matches(#[trigger] root.children()[children0.len() + k], steps_from(nodes@, start).0[k]),
            forall|k: int| 0 <= k < steps_from(nodes@, *index as int).0.len() ==>
                #[trigger] steps_from(nodes@, *index as int).0[k] == steps_from(nodes@, start).0[root.children().len() - children0.len() + k],
        decreases nodes@.len() - *index,
    {
        let i = *index;
        let ghost here = steps_from(nodes@, i as int);
        *index = i + 1;
        proof {
            lemma_steps_end(nodes@, i + 1);
        }
        match &nodes[i] {
            SearchNodeFeedback::Fen(_) => {
                // Only the first step names a position.
                assert(false);
            },
            SearchNodeFeedback::Child(child_move) => {
                match child_move.mv {
                    Some(mv) => {
                        let mut child = TreeNode::new(mv);
                        child.add_comment(child_move.info.clone());
                        let ghost sub = steps_from(nodes@, i + 1);
                        let ghost view = NodeView { mv, name: None, notes: seq![child_move.info] + sub.1, children: sub.0 };
                        let ghost c = root.children().len() - children0.len();
                        let ghost before = root.children();
                        into_tree(&mut child, nodes, index);
                        proof {
                            lemma_steps_end(nodes@, *index as int);
                            assert(child.notes() =~= seq![child_move.info] + sub.1);
                            assert forall|k: int| 0 <= k < view.children.len() implies
                                node_matches(#[trigger] child.children()[k], view.children[k]) by {
                                assert(child.children()[0 + k] == child.children()[k]);
                            }
                            assert(node_matches(child, view));
                            assert(here.0 == seq![view] + steps_from(nodes@, *index as int).0);
                            assert(here.1 == steps_from(nodes@, *index as int).1);
                            assert(here.2 == steps_from(nodes@, *index as int).2);
                            assert(here.0[0] == view);
                        }
                        root.add_node(child);
                        proof {
                            let rest = steps_from(nodes@, *index as int);
                            assert(root.children() == before.push(child));
                            assert(steps_from(nodes@, start).0[c] == view);
                            assert forall|k: int| 0 <= k < rest.0.len() implies
                                #[trigger] rest.0[k] == steps_from(nodes@, start).0[root.children().len() - children0.len() + k] by {
                                assert(rest.0[k] == here.0[k + 1]);
                            }
                            assert forall|k: int| 0 <= k < root.children().len() - children0.len() implies
                                node_matches(#[trigger] root.children()[children0.len() + k], steps_from(nodes@, start).0[k]) by {
                                if k < c {
                                    assert(root.children()[children0.len() + k] == before[children0.len() + k]);
                                }
                            }
                            assert(root.notes() + rest.1 =~= notes0 + steps_from(nodes@, start).1);
                        }
                    },
                    None => {
                        root.add_comment(child_move.info.clone());
                        proof {
                            assert(here.0 == steps_from(nodes@, *index as int).0);
                            assert(here.1 == seq![child_move.info] + steps_from(nodes@, *index as int).1);
                            assert(root.notes() + steps_from(nodes@, *index as int).1 =~= notes0 + steps_from(nodes@, start).1);
                        }
                    },
                }
            },
            SearchNodeFeedback::Info(info) => {
                root.add_comment(info.clone());
                proof {
                    assert(here.0 == steps_from(nodes@, *index as int).0);
                    assert(here.1 == seq![*info] + steps_from(nodes@, *index as int).1);
                    assert(root.notes() + steps_from(nodes@, *index as int).1 =~= notes0 + steps_from(nodes@, start).1);
                }
            },
            SearchNodeFeedback::Return => {
                proof {
                    assert(here == (Seq::<NodeView>::empty(), Seq::<String>::empty(), i + 1));
                    assert(root.notes() =~= notes0 + steps_from(nodes@, start).1);
                }
                return;
            },
        }
    }
    proof {
        assert(root.notes() =~= notes0 + steps_from(nodes@, start).1);
    }
}

/// The position a search record starts from: that of its first step if it
/// names one (`None` if that does not parse), else the initial position.
pub open spec fn record_start(nodes: Seq<SearchNodeFeedback>) -> Option<crate::rules::GameView> {
    if nodes.len() > 0 && nodes[0] is Fen {
        fen_game(ascii_words(nodes[0]->Fen_0@))
    } else {
        Some(initial_view())
    }
}

impl GameTree {
    /// The tree of a search record: from the position of its first step if
    /// that names one (`None` if it does not parse), else from the initial
    /// position; the steps after the first give the moves, and the comments
    /// outside any move are dropped.
    pub fn from_search_feedback(feedback: &SearchTreeFeedback) -> (tree: Option<GameTree>)
        requires
            fen_only_first(feedback.recorded()),
        ensures
            tree is Some <==> record_start(feedback.recorded()) is Some,
            tree matches Some(t) ==> t.start() == record_start(feedback.recorded()).unwrap(),
            tree matches Some(t) ==> {
                let moves = steps_from(feedback.recorded(), 1).0;
                &&& t.children().len() == moves.len()
                &&& forall|k: int| 0 <= k < moves.len() ==> node_matches(#[trigger] t.children()[k], moves[k])
            },
    {
        let nodes = feedback.nodes();
        let initial_position = if nodes.len() > 0 {
            match &nodes[0] {
                SearchNodeFeedback::Fen(fen) => {
                    let chars = str_chars(fen.as_str());
                    let words = split_ascii_whitespace(&chars);
                    match SimpleGame::try_from_fen_fields(&words) {
                        Some(g) => g,
                        None => {
                            return None;
                        },
                    }
                },
                _ => SimpleGame::new(),
            }
        } else {
            SimpleGame::new()
        };
        let corner = Position { rank: 0, file: 0 };
        let mut top = TreeNode::new(MoveAction { mv: crate::game::Move { source: corner, target: corner }, move_type: crate::game::MoveActionType::Normal });
        if nodes.len() > 0 {
            let mut index: usize = 1;
            into_tree(&mut top, nodes, &mut index);
            proof {
                assert forall|k: int| 0 <= k < steps_from(nodes@, 1).0.len() implies
                    node_matches(#[trigger] top.children()[k], steps_from(nodes@, 1).0[k]) by {
                    assert(top.children()[0 + k] == top.children()[k]);
                }
            }
        }
        Some(GameTree { initial_position, nodes: top.nodes })
    }
}

/// Why the moves of a tree cannot be named.
#[derive(Copy, Clone, Debug, PartialEq, Eq, Structural)]
pub enum TreeNameError {
    /// A move of the tree has no name in its position.
    Name(MoveNameError),
    /// A move leaves a position that the engine cannot play on.
    InvalidMove,
}

/// Every move of a node and of the nodes below it has a name and can be
/// made, each in the game that the moves above it lead to (where both
/// kings stand, from and to squares on the board, and no king moves two
/// files to a file other than c and g).
pub closed spec fn nameable(g: crate::rules::GameView, node: TreeNode) -> bool
    decreases node,
{
    let mv = node.mv;
    let stored = stored_fn::<SimpleBoard>();
    &&& both_kings(g)
    &&& valid_position(mv.mv.source) && valid_position(mv.mv.target)
    &&& !bad_castling(g, mv)
    &&& spec_move_name(g, mv, stored) is Ok
    &&& move_allowed(g, mv, stored)
    &&& forall|k: int| 0 <= k < node.nodes@.len() ==> nameable(after_move(g, mv, stored), #[trigger] node.nodes@[k])
}

/// Every move of a node and of the nodes below it bears its name in the
/// game that the moves above it lead to.
pub closed spec fn named(g: crate::rules::GameView, node: TreeNode) -> bool
    decreases node,
{
    let mv = node.mv;
    let stored = stored_fn::<SimpleBoard>();
    &&& spec_move_name(g, mv, stored) is Ok
    &&& node.name() == Some(spec_move_name(g, mv, stored)->Ok_0)
    &&& forall|k: int| 0 <= k < node.nodes@.len() ==> named(after_move(g, mv, stored), #[trigger] node.nodes@[k])
}

/// Names the move of a node in `game` and, recursively, the moves of its
/// children in the game after it; stops at the first move that cannot be
/// named or made.
fn add_move_names(game: SimpleGame, node: &mut TreeNode, keys: &ZobristKeys) -> (result: Result<(), TreeNameError>)
    requires
        keys.wf(),
    ensures
        final(node).action() == old(node).action(),
        final(node).notes() == old(node).notes(),
        final(node).children().len() == old(node).children().len(),
        result is Ok <==> nameable(game@, *old(node)),
        result is Ok ==> named(game@, *final(node)),
        result is Ok ==> both_kings(game@) && (match spec_move_name(game@, old(node).action(), stored_fn::<SimpleBoard>()) {
            Ok(name) => final(node).name() == Some(name),
            Err(_) => false,
        }),
    decreases *old(node),
{
    let ghost stored = stored_fn::<SimpleBoard>();
    let ghost g0 = game@;
    let mv = node.mv;
    proof {
        game.lemma_len();
    }
    if !game.has_both_kings() || !valid_position_exec(&mv.mv.source) || !valid_position_exec(&mv.mv.target) {
        return Err(TreeNameError::InvalidMove);
    }
    if castling_with_bad_target(&game, &mv) {
        return Err(TreeNameError::InvalidMove);
    }
    let mv_name = match game.move_name(&mv, keys) {
        Ok(name) => name,
        Err(e) => {
            return Err(TreeNameError::Name(e));
        },
    };
    node.mv_name = Some(mv_name);
    let mut played = game.clone();
    if played.do_move(&mv).is_none() {
        return Err(TreeNameError::InvalidMove);
    }
    let ghost after = played@;
    assert(after == after_move(g0, mv, stored));
    let mut children: Vec<TreeNode> = Vec::new();
    std::mem::swap(&mut children, &mut node.nodes);
    let ghost old_children = children@;
    let ghost name_set = node.mv_name;
    let mut named_nodes: Vec<TreeNode> = Vec::new();
    while children.len() > 0
        invariant
            keys.wf(),
            played@ == after,
            game@ == g0,
            node.mv == old(node).mv,
            mv == old(node).mv,
            stored == stored_fn::<SimpleBoard>(),
            after == after_move(g0, mv, stored),
            node.comments == old(node).comments,
            node.mv_name == name_set,
            old(node).nodes@ == old_children,
            named_nodes@.len() + children@.len() == old_children.len(),
            forall|k: int| 0 <= k < children@.len() ==> #[trigger] children@[k] == old_children[named_nodes@.len() + k],
            old_children == old(node).children(),
            forall|k: int| 0 <= k < named_nodes@.len() ==> nameable(after, #[trigger] old_children[k]),
            forall|k: int| 0 <= k < named_nodes@.len() ==> named(after, #[trigger] named_nodes@[k]),
            forall|k: int| 0 <= k < named_nodes@.len() ==> (#[trigger] named_nodes@[k]).action() == old_children[k].action()
                && named_nodes@[k].notes() == old_children[k].notes() && named_nodes@[k].children().len() == old_children[k].children().len(),
        decreases children@.len(),
    {
        let mut child = children.remove(0);
        let ghost index = named_nodes@.len() as int;
        proof {
            assert(child == old_children[index]);
        }
        match add_move_names(played.clone(), &mut child, keys) {
            Ok(()) => {},
            Err(e) => {
                proof {
                    assert(!nameable(after, old_children[index]));
                    assert(!nameable(g0, *old(node))) by {
                        assert(old(node).nodes@[index] == old_children[index]);
                        assert(!nameable(after_move(g0, mv, stored), old(node).nodes@[index]));
                    }
                }
                named_nodes.push(child);
                named_nodes.append(&mut children);
                node.nodes = named_nodes;
                return Err(e);
            },
        }
        named_nodes.push(child);
    }
    node.nodes = named_nodes;
    proof {
        assert(nameable(g0, *old(node))) by {
            assert forall|k: int| 0 <= k < old(node).nodes@.len() implies nameable(after_move(g0, mv, stored), #[trigger] old(node).nodes@[k]) by {
                assert(old(node).nodes@[k] == old_children[k]);
            }
        }
        assert(node.mv == old(node).mv);
        assert(node.comments@ == old(node).comments@);
        assert(named(g0, *node));
    }
    Ok(())
}

/// A king's move of two files to a file other than c and g, which has no
/// name.
pub open spec fn bad_castling(g: crate::rules::GameView, mv: MoveAction) -> bool {
    &&& crate::rules::sq_at(g.squares, mv.mv.source) is Some
    &&& crate::rules::sq_at(g.squares, mv.mv.source).unwrap().piece == PieceType::King
    &&& (mv.mv.source.file - mv.mv.target.file == 2 || mv.mv.target.file - mv.mv.source.file == 2)
    &&& mv.mv.target.file != 2 && mv.mv.target.file != 6
}

/// A king moving two files towards a file other than c and g.
fn castling_with_bad_target(game: &SimpleGame, mv: &MoveAction) -> (bad: bool)
    requires
        valid_position(mv.mv.source),
        valid_position(mv.mv.target),
    ensures
        bad == bad_castling(game@, *mv),
        !bad ==> (crate::rules::sq_at(game@.squares, mv.mv.source) is Some && is_castling(game@, *mv)
            ==> mv.mv.target.file == 2 || mv.mv.target.file == 6),
{
    match crate::eval::square(game, &mv.mv.source) {
        Some(piece) => piece.piece == PieceType::King && super::abs_diff(mv.mv.source.file, mv.mv.target.file) == 2
            && mv.mv.target.file != 2 && mv.mv.target.file != 6,
        None => false,
    }
}

/// The position lies on the board.
fn valid_position_exec(p: &Position) -> (valid: bool)
    ensures
        valid == valid_position(*p),
{
    p.rank < 8 && p.file < 8
}

impl GameTree {
    /// Names every move of the tree, each in the game that the moves above
    /// it lead to from the start; stops at the first move that cannot be
    /// named or made.
    pub fn add_move_names(&mut self, keys: &ZobristKeys) -> (result: Result<(), TreeNameError>)
        requires
            keys.wf(),
        ensures
            final(self).start() == old(self).start(),
            final(self).children().len() == old(self).children().len(),
            result is Ok <==> forall|k: int| 0 <= k < old(self).children().len() ==>
                nameable(old(self).start(), #[trigger] old(self).children()[k]),
            result is Ok ==> forall|k: int| 0 <= k < final(self).children().len() ==>
                named(final(self).start(), #[trigger] final(self).children()[k]),
    {
        let mut children: Vec<TreeNode> = Vec::new();
        std::mem::swap(&mut children, &mut self.nodes);
        let ghost old_children = children@;
        let ghost start = self.initial_position@;
        let mut named_nodes: Vec<TreeNode> = Vec::new();
        while children.len() > 0
            invariant
                keys.wf(),
                self.initial_position@ == start,
                start == old(self).start(),
                old_children == old(self).children(),
                named_nodes@.len() + children@.len() == old_children.len(),
                forall|k: int| 0 <= k < children@.len() ==> #[trigger] children@[k] == old_children[named_nodes@.len() + k],
                forall|k: int| 0 <= k < named_nodes@.len() ==> nameable(start, #[trigger] old_children[k]),
                forall|k: int| 0 <= k < named_nodes@.len() ==> named(start, #[trigger] named_nodes@[k]),
            decreases children@.len(),
        {
            let mut child = children.remove(0);
            let ghost index = named_nodes@.len() as int;
            proof {
                assert(child == old_children[index]);
            }
            match add_move_names(self.initial_position.clone(), &mut child, keys) {
                Ok(()) => {},
                Err(e) => {
                    named_nodes.push(child);
                    named_nodes.append(&mut children);
                    self.nodes = named_nodes;
                    return Err(e);
                },
            }
            named_nodes.push(child);
        }
        self.nodes = named_nodes;
        Ok(())
    }
}

} // verus!
