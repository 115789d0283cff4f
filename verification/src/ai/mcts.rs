//! Monte Carlo tree search over any `Game`.
//!
//! The tree lives in an arena: a growing list of nodes that name each other
//! by their place in it. A node's children are made after it, so a parent
//! always stands before its children. Wins are counted in half points, two
//! for a win and one for a draw, so that every count is a whole number.

use vstd::prelude::*;
use crate::ai::mcts::tree::{
    NodeView, TreeView, best_reply, chance_of, child_ok, chosen, decided, descent, expansion,
    explored, first_holding, first_largest, grown, lazily_grown, lazily_reached,
    lemma_exceeds_carries, lemma_expansion_keeps_lazy, lemma_step_keeps_lazy,
    lemma_expansion_grows, lemma_expansion_keeps_step, lemma_explored_on, lemma_located,
    lemma_path_up_bounds, lemma_path_up_same, lemma_path_up_step, lemma_path_up_unfold,
    lemma_reply_chance_denom, lemma_same_items_same_members, located, mover_at, node_ok,
    path_up, places_from, reply_chance, rooted_at, round_of, selected, stepped, tracks,
    tree_ok,
};
use crate::ai::random::{pick_one, shuffle};
use crate::ai::{
    lemma_played_valid, mover, playable, played, playout_result, run_ends_in, Game, Move,
};
use crate::game::{GameState, Mark};

pub mod tree;

verus! {

/// The number of rounds of selection, playout and crediting that one
/// decision runs.
pub const N_ROUNDS: u64 = 1000;

/// The number of plays that a node can hold: twice as many half points
/// still fit the counter.
pub const PLAYS_LIMIT: u64 = 0x7FFF_FFFF_FFFF_FFFF;

/// A share of the playouts: `numer` out of `denom`, with `denom` above 0.
#[derive(Copy, Clone, Debug, PartialEq, Eq, Structural)]
pub struct Chance {
    pub numer: u64,
    pub denom: u64,
}

impl Chance {
    /// `self` is the larger share.
    pub open spec fn exceeds(self, other: Chance) -> bool {
        self.numer * other.denom > other.numer * self.denom
    }

    /// Whether `self` is the larger share.
    pub fn is_above(self, other: Chance) -> (above: bool)
        ensures
            above == self.exceeds(other),
    {
        assert(self.numer * other.denom <= u64::MAX * u64::MAX) by (nonlinear_arith)
            requires
                self.numer <= u64::MAX,
                other.denom <= u64::MAX,
        ;
        assert(other.numer * self.denom <= u64::MAX * u64::MAX) by (nonlinear_arith)
            requires
                other.numer <= u64::MAX,
                self.denom <= u64::MAX,
        ;
        (self.numer as u128) * (other.denom as u128) > (other.numer as u128) * (self.denom as u128)
    }
}

/// One node of the search tree.
#[derive(Clone, Debug, PartialEq)]
pub struct Node<T: Game> {
    pub parent: Option<usize>,
    pub children: Option<Vec<usize>>,
    pub board: T,
    /// The mark that moves next at this node.
    pub active_player: Mark,
    /// Half points credited here: two for each win, one for each draw.
    pub half_wins: u64,
    pub plays: u64,
    /// The legal moves of `board`, shuffled once when the node was made.
    pub possible_moves: Vec<Move>,
}

impl<T: Game> View for Node<T> {
    type V = NodeView<T::V>;

    open spec fn view(&self) -> NodeView<T::V> {
        NodeView {
            parent: self.parent,
            children: match self.children {
                Some(children) => Some(children@),
                None => None,
            },
            board: self.board@,
            active_player: self.active_player,
            half_wins: self.half_wins,
            plays: self.plays,
            possible_moves: self.possible_moves@,
        }
    }
}

impl<T: Game> Node<T> {
    /// A node for `board` with `active_player` to move, without playouts or
    /// children, and with the legal moves in an order drawn by chance.
    pub fn new(board: T, active_player: Mark, parent: Option<usize>) -> (node: Node<T>)
        ensures
            node@ == NodeView::fresh(board@, active_player, parent, node@.possible_moves),
            node@.possible_moves.to_multiset() == T::moves_of(board@).to_multiset(),
    {
        let mut possible_moves = board.get_possible_moves();
        shuffle(&mut possible_moves);
        Node {
            parent,
            children: None,
            board,
            active_player,
            half_wins: 0,
            plays: 0,
            possible_moves,
        }
    }

    /// The share of this node's playouts that `ai_mark` can count as won.
    pub fn winning_chance(&self, ai_mark: Mark) -> (chance: Chance)
        requires
            self.half_wins <= 2 * self.plays <= u64::MAX,
        ensures
            chance == chance_of(self@, ai_mark),
    {
        if self.plays == 0 {
            return Chance { numer: 0, denom: 1 };
        }
        if ai_mark == self.active_player {
            Chance { numer: self.half_wins, denom: 2 * self.plays }
        } else {
            Chance { numer: 2 * self.plays - self.half_wins, denom: 2 * self.plays }
        }
    }
}

/// The first place at which `scores` is largest.
pub fn first_best(scores: &Vec<u64>) -> (k: usize)
    requires
        scores@.len() > 0,
    ensures
        first_largest(scores@, k as int),
{
    let mut best: usize = 0;
    for j in 1..scores.len()
        invariant
            0 <= best < j,
            forall|i: int| 0 <= i < j ==> scores@[i] <= scores@[best as int],
            forall|i: int| 0 <= i < best ==> scores@[i] < scores@[best as int],
    {
        if scores[j] > scores[best] {
            best = j;
        }
    }
    best
}

/// The search engine: the arena of nodes, the place of the current root in
/// it, and the mark that the engine plays.
#[derive(Clone, Debug, PartialEq)]
pub struct MCTSAi<T: Game> {
    nodes: Vec<Node<T>>,
    root_id: usize,
    pub ai_mark: Mark,
}

impl<T: Game> View for MCTSAi<T> {
    type V = TreeView<T::V>;

    closed spec fn view(&self) -> TreeView<T::V> {
        TreeView {
            nodes: Seq::new(self.nodes@.len(), |i: int| self.nodes@[i]@),
            root_id: self.root_id,
            ai_mark: self.ai_mark,
        }
    }
}

impl<T: Game> MCTSAi<T> {
    /// The arena is a search tree.
    pub open spec fn wf(&self) -> bool {
        tree_ok::<T>(self@)
    }

    /// An engine that plays `ai_mark`, on a tree of one node for `board`. X is
    /// taken to move first.
    pub fn new(board: T, ai_mark: Mark) -> (ai: Self)
        requires
            T::valid(board@),
        ensures
            ai@ == TreeView::initial(board@, ai_mark, ai@.nodes[0].possible_moves),
            ai.wf(),
    {
        let mut nodes: Vec<Node<T>> = Vec::new();
        nodes.push(Node::new(board, Mark::X, None));
        MCTSAi { nodes, root_id: 0, ai_mark }
    }

    /// The mark that the engine plays.
    pub fn get_mark(&self) -> (mark: Mark)
        ensures
            mark == self@.ai_mark,
    {
        self.ai_mark
    }

    /// The number of nodes in the arena.
    pub fn node_count(&self) -> (count: usize)
        ensures
            count == self@.nodes.len(),
    {
        self.nodes.len()
    }

    /// The place of the root in the arena.
    pub fn root_id(&self) -> (id: usize)
        ensures
            id == self@.root_id,
    {
        self.root_id
    }

    /// The node at place `id` of the arena.
    pub fn node(&self, id: usize) -> (node: &Node<T>)
        requires
            id < self@.nodes.len(),
        ensures
            node@ == self@.nodes[id as int],
    {
        &self.nodes[id]
    }

    /// The largest number of plays that any node has.
    pub fn most_plays(&self) -> (most: u64)
        ensures
            self@.plays_within(most as int),
            self@.nodes.len() > 0 ==> exists|i: int|
                0 <= i < self@.nodes.len() && (#[trigger] self@.nodes[i]).plays == most,
    {
        let mut most: u64 = 0;
        for id in 0..self.nodes.len()
            invariant
                forall|i: int| 0 <= i < id ==> (#[trigger] self@.nodes[i]).plays <= most,
                id > 0 ==> exists|i: int| 0 <= i < id && (#[trigger] self@.nodes[i]).plays == most,
        {
            if self.nodes[id].plays > most || id == 0 {
                most = self.nodes[id].plays;
                assert(self@.nodes[id as int].plays == most);
            }
        }
        most
    }

    /// Turns the mark that moves first at the root into the other one. This is
    /// for an engine that moves second, and is possible only while the tree
    /// is its first node alone.
    pub fn switch_starting_mark(&mut self)
        requires
            old(self).wf(),
            old(self)@.nodes.len() == 1,
        ensures
            final(self)@ == old(self)@.switched(),
            final(self).wf(),
    {
        self.nodes[0].active_player = self.nodes[0].active_player.switch();
        assert(self@.nodes =~= old(self)@.switched().nodes);
        assert(node_ok::<T>(old(self)@.nodes, 0, 0));
        assert(node_ok::<T>(self@.nodes, 0, 0)) by {
            if let Some(children) = self@.nodes[0].children {
                assert forall|k: int| 0 <= k < children.len() implies #[trigger] child_ok::<T>(
                    self@.nodes,
                    0,
                    k,
                ) by {
                    assert(child_ok::<T>(old(self)@.nodes, 0, k));
                }
            }
        }
    }

    /// Turns the mark that moves first into the other one where that is
    /// possible, and says whether it was: it is exactly while the tree is its
    /// first node alone. A tree that has grown is left as it is, every mover
    /// with it.
    pub fn try_switch_starting_mark(&mut self) -> (switched: bool)
        requires
            old(self).wf(),
        ensures
            switched == (old(self)@.nodes.len() == 1),
            final(self)@ == if switched {
                old(self)@.switched()
            } else {
                old(self)@
            },
            final(self).wf(),
    {
        if self.nodes.len() != 1 {
            return false;
        }
        self.switch_starting_mark();
        true
    }

    /// Throws the tree away and starts again from the position of the first
    /// node, with X to move first.
    pub fn reset(&mut self)
        requires
            old(self).wf(),
        ensures
            final(self)@ == TreeView::initial(
                old(self)@.nodes[0].board,
                old(self)@.ai_mark,
                final(self)@.nodes[0].possible_moves,
            ),
            final(self).wf(),
    {
        assert(node_ok::<T>(self@.nodes, self@.root_id, 0));
        let clean_board = self.nodes[0].board.snapshot();
        let mut nodes: Vec<Node<T>> = Vec::new();
        nodes.push(Node::new(clean_board, Mark::X, None));
        self.nodes = nodes;
        self.root_id = 0;
    }

    /// Makes node `new_root_id` the root and cuts it off from its parent, so
    /// that what the tree has learnt below it is kept.
    pub fn reroot(&mut self, new_root_id: usize)
        requires
            old(self).wf(),
            old(self)@.root_id <= new_root_id < old(self)@.nodes.len(),
        ensures
            final(self)@ == old(self)@.rerooted(new_root_id),
            final(self).wf(),
    {
        self.nodes[new_root_id].parent = None;
        self.root_id = new_root_id;
        assert forall|i: int| 0 <= i < self@.nodes.len() implies #[trigger] node_ok::<T>(
            self@.nodes,
            self@.root_id,
            i,
        ) by {
            assert(node_ok::<T>(old(self)@.nodes, old(self)@.root_id, i));
            if let Some(children) = self@.nodes[i].children {
                assert forall|k: int| 0 <= k < children.len() implies #[trigger] child_ok::<T>(
                    self@.nodes,
                    i,
                    k,
                ) by {
                    assert(child_ok::<T>(old(self)@.nodes, i, k));
                }
            }
        }
    }

    /// Expands node `parent_id`: makes one child for each of its moves.
    pub fn make_children(&mut self, parent_id: usize)
        requires
            old(self).wf(),
            parent_id < old(self)@.nodes.len(),
            old(self)@.nodes[parent_id as int].children is None,
        ensures
            expansion::<T>(old(self)@, parent_id as int, final(self)@),
            final(self).wf(),
    {
        let ghost before = self@;
        let ghost node = before.nodes[parent_id as int];
        let first = self.nodes.len();
        let count = self.nodes[parent_id].possible_moves.len();
        let mut children_ids: Vec<usize> = Vec::new();
        proof {
            assert(node_ok::<T>(before.nodes, before.root_id, parent_id as int));
        }
        for k in 0..count
            invariant
                before == old(self)@,
                node == before.nodes[parent_id as int],
                first == before.nodes.len(),
                count == node.possible_moves.len(),
                parent_id < first,
                T::valid(node.board),
                node.possible_moves.to_multiset() == T::moves_of(node.board).to_multiset(),
                self@.root_id == before.root_id,
                self@.ai_mark == before.ai_mark,
                self@.nodes.len() == first + k,
                children_ids@ == places_from(first as int, k as nat),
                forall|i: int| 0 <= i < first ==> #[trigger] self@.nodes[i] == before.nodes[i],
                forall|j: int|
                    0 <= j < k ==> #[trigger] self@.nodes[first + j] == NodeView::fresh(
                        T::after(node.board, node.possible_moves[j], node.active_player),
                        node.active_player.other(),
                        Some(parent_id),
                        self@.nodes[first + j].possible_moves,
                    ) && self@.nodes[first + j].possible_moves.to_multiset() == T::moves_of(
                        self@.nodes[first + j].board,
                    ).to_multiset(),
        {
            let ghost at_entry = self@;
            assert(self@.nodes[parent_id as int] == node);
            let mv = self.nodes[parent_id].possible_moves[k];
            proof {
                lemma_same_items_same_members(node.possible_moves, T::moves_of(node.board), mv);
            }
            let mut new_board = self.nodes[parent_id].board.snapshot();
            new_board.play(&mv, self.nodes[parent_id].active_player);
            let child = Node::new(
                new_board,
                self.nodes[parent_id].active_player.switch(),
                Some(parent_id),
            );
            children_ids.push(self.nodes.len());
            self.nodes.push(child);
            assert forall|i: int| 0 <= i < first + k implies #[trigger] self@.nodes[i]
                == at_entry.nodes[i] by {}
            assert forall|j: int| 0 <= j < k + 1 implies #[trigger] self@.nodes[first + j]
                == NodeView::fresh(
                T::after(node.board, node.possible_moves[j], node.active_player),
                node.active_player.other(),
                Some(parent_id),
                self@.nodes[first + j].possible_moves,
            ) && self@.nodes[first + j].possible_moves.to_multiset() == T::moves_of(
                self@.nodes[first + j].board,
            ).to_multiset() by {}
        }
        let ghost grown = self@;
        let total = self.nodes.len();
        self.nodes[parent_id].children = Some(children_ids);
        proof {
            assert(total == first + count);
            assert forall|i: int| 0 <= i < first + count && i != parent_id implies #[trigger] self@.nodes[i]
                == grown.nodes[i] by {}
            assert(grown.nodes[parent_id as int] == node);
            assert forall|k: int| 0 <= k < count implies #[trigger] self@.nodes[first + k]
                == NodeView::fresh(
                T::after(node.board, node.possible_moves[k], node.active_player),
                node.active_player.other(),
                Some(parent_id),
                self@.nodes[first + k].possible_moves,
            ) by {}
            assert forall|i: int| 0 <= i < self@.nodes.len() implies #[trigger] node_ok::<T>(
                self@.nodes,
                self@.root_id,
                i,
            ) by {
                if i < first {
                    assert(node_ok::<T>(before.nodes, before.root_id, i));
                    if i == parent_id {
                        let children = self@.nodes[i].children->Some_0;
                        assert forall|k: int| 0 <= k < children.len() implies #[trigger] child_ok::<
                            T,
                        >(self@.nodes, i, k) by {}
                    } else {
                        if let Some(children) = self@.nodes[i].children {
                            assert forall|k: int|
                                0 <= k < children.len() implies #[trigger] child_ok::<T>(
                                self@.nodes,
                                i,
                                k,
                            ) by {
                                assert(child_ok::<T>(before.nodes, i, k));
                            }
                        }
                    }
                } else {
                    let k = i - first;
                    assert(self@.nodes[first + k] == grown.nodes[first + k]);
                    lemma_same_items_same_members(
                        node.possible_moves,
                        T::moves_of(node.board),
                        node.possible_moves[k],
                    );
                    T::lemma_after_legal(node.board, node.possible_moves[k], node.active_player);
                }
            }
        }
    }

    /// Looks for `board` in the root and, after expanding the root if that
    /// has not been done, in the root's children.
    pub fn try_find_state(&mut self, board: &T) -> (found: Option<usize>)
        requires
            old(self).wf(),
        ensures
            located::<T>(old(self)@, board@, final(self)@, found),
            final(self).wf(),
    {
        if self.nodes[self.root_id].board.same_position(board) {
            return Some(self.root_id);
        }
        if self.nodes[self.root_id].children.is_none() {
            self.make_children(self.root_id);
        }
        let ghost nodes = self@.nodes;
        match &self.nodes[self.root_id].children {
            Some(children) => {
                assert(children@.skip(0) =~= children@);
                for k in 0..children.len()
                    invariant
                        nodes == self@.nodes,
                        self.wf(),
                        self@.root().children == Some(children@),
                        old(self)@.root().board != board@,
                        if old(self)@.root().children is Some {
                            self@ == old(self)@
                        } else {
                            expansion::<T>(old(self)@, old(self)@.root_id as int, self@)
                        },
                        first_holding(nodes, children@, board@) == first_holding(
                            nodes,
                            children@.skip(k as int),
                            board@,
                        ),
                {
                    assert(child_ok::<T>(nodes, self@.root_id as int, k as int)) by {
                        assert(node_ok::<T>(nodes, self@.root_id, self@.root_id as int));
                    }
                    assert(children@.skip(k as int).drop_first() =~= children@.skip(k + 1));
                    let child_id = children[k];
                    if self.nodes[child_id].board.same_position(board) {
                        return Some(child_id);
                    }
                }
                None
            },
            None => None,
        }
    }

    /// The node that holds `board`: the root or, after expanding the root if
    /// that has not been done, the first child of the root that does.
    pub fn find_state(&mut self, board: &T) -> (id: usize)
        requires
            old(self).wf(),
            tracks::<T>(old(self)@, board@),
        ensures
            located::<T>(old(self)@, board@, final(self)@, Some(id)),
            final(self).wf(),
    {
        let found = self.try_find_state(board);
        proof {
            lemma_located::<T>(old(self)@, board@, self@, found);
        }
        match found {
            Some(id) => id,
            None => unreached(),
        }
    }

    /// Plays the position of node `node_id` out: the two marks take turns,
    /// starting with the one to move at the node, each with a legal move
    /// drawn by chance, until the game is over. Gives the outcome. The tree
    /// is left as it was.
    pub fn simulate(&mut self, node_id: usize) -> (result: GameState)
        requires
            old(self).wf(),
            node_id < old(self)@.nodes.len(),
        ensures
            final(self)@ == old(self)@,
            playout_result::<T>(
                old(self)@.nodes[node_id as int].board,
                old(self)@.nodes[node_id as int].active_player,
                result,
            ),
    {
        let ghost node = self@.nodes[node_id as int];
        let ghost mut run: Seq<Move> = Seq::empty();
        let mut active_player = self.nodes[node_id].active_player;
        let mut board = self.nodes[node_id].board.snapshot();
        proof {
            assert(node_ok::<T>(self@.nodes, self@.root_id, node_id as int));
        }
        loop
            invariant
                T::valid(node.board),
                playable::<T>(node.board, node.active_player, run),
                board@ == played::<T>(node.board, node.active_player, run),
                active_player == mover(node.active_player, run.len() as int),
            ensures
                playable::<T>(node.board, node.active_player, run),
                T::state_of(played::<T>(node.board, node.active_player, run)) != GameState::Playing,
                board@ == played::<T>(node.board, node.active_player, run),
            decreases T::moves_left(board@),
        {
            if board.get_state() != GameState::Playing {
                break ;
            }
            let possible_moves = board.get_possible_moves();
            proof {
                lemma_played_valid::<T>(node.board, node.active_player, run);
                T::lemma_no_moves_iff_over(board@);
            }
            let mv = match pick_one(&possible_moves) {
                Some(mv) => mv,
                None => unreached(),
            };
            proof {
                T::lemma_after_legal(board@, mv, active_player);
                assert(run.push(mv).drop_last() =~= run);
                run = run.push(mv);
            }
            board.play(&mv, active_player);
            active_player = active_player.switch();
        }
        let result = board.get_state();
        assert(run_ends_in::<T>(node.board, node.active_player, run, result));
        result
    }

    /// The child of the visited and expanded node `parent` that selection
    /// goes down to, by its place among the children.
    fn pick_child<F: Fn(u64, u64, u64) -> u64>(&self, parent: usize, potential: &F) -> (k: usize)
        requires
            self.wf(),
            parent < self@.nodes.len(),
            self@.nodes[parent as int].plays > 0,
            self@.nodes[parent as int].children matches Some(children) && children.len() > 0,
            forall|a: u64, b: u64, c: u64| call_requires(*potential, (a, b, c)),
        ensures
            descent(self@.nodes, parent as int, k as int, *potential),
    {
        let total_plays = self.nodes[parent].plays;
        let ghost nodes = self@.nodes;
        proof {
            assert(node_ok::<T>(nodes, self@.root_id, parent as int));
        }
        match &self.nodes[parent].children {
            Some(children) => {
                let mut scores: Vec<u64> = Vec::new();
                for j in 0..children.len()
                    invariant
                        nodes == self@.nodes,
                        parent < nodes.len(),
                        nodes[parent as int].children == Some(children@),
                        nodes[parent as int].plays == total_plays,
                        total_plays > 0,
                        forall|i: int|
                            0 <= i < children@.len() ==> #[trigger] child_ok::<T>(
                                nodes,
                                parent as int,
                                i,
                            ),
                        forall|a: u64, b: u64, c: u64| call_requires(*potential, (a, b, c)),
                        scores@.len() == j,
                        forall|i: int| 0 <= i < j ==> nodes[#[trigger] children@[i] as int].plays > 0,
                        forall|i: int|
                            0 <= i < j ==> call_ensures(
                                *potential,
                                (
                                    nodes[children@[i] as int].half_wins,
                                    nodes[children@[i] as int].plays,
                                    (total_plays - 1) as u64,
                                ),
                                #[trigger] scores@[i],
                            ),
                {
                    assert(child_ok::<T>(nodes, parent as int, j as int));
                    let child = &self.nodes[children[j]];
                    if child.plays == 0 {
                        return j;
                    }
                    let score = potential(child.half_wins, child.plays, total_plays - 1);
                    scores.push(score);
                }
                let k = first_best(&scores);
                k
            },
            None => unreached(),
        }
    }

    /// Picks the node to play out next. From the root down: a node without a
    /// playout is picked as it stands, without children being made for it; a
    /// node with one is expanded if it has not been, and picked if it has no
    /// move to make; else selection goes down to its first child without a
    /// playout or, where every child has one, to the first child that
    /// `potential` scores highest. Nothing else is expanded.
    pub fn selection<F: Fn(u64, u64, u64) -> u64>(&mut self, potential: &F) -> (id: usize)
        requires
            old(self).wf(),
            forall|a: u64, b: u64, c: u64| call_requires(*potential, (a, b, c)),
        ensures
            final(self).wf(),
            grown(old(self)@, final(self)@),
            lazily_grown(old(self)@, final(self)@, id as int),
            selected(final(self)@, id as int, *potential),
            old(self)@.root().plays > 0 ==> final(self)@.root().children is Some,
    {
        let mut current = self.root_id;
        proof {
            lemma_path_up_bounds(self@.nodes, current as int);
        }
        loop
            invariant
                self.wf(),
                grown(old(self)@, self@),
                old(self)@.root().plays == 0 ==> self@ == old(self)@ && current == self@.root_id,
                lazily_reached(old(self)@, self@, current as int),
                forall|a: u64, b: u64, c: u64| call_requires(*potential, (a, b, c)),
                self@.root_id <= current < self@.nodes.len(),
                path_up(self@.nodes, current as int).last() == self@.root_id,
                forall|c: int| #[trigger]
                    path_up(self@.nodes, current as int).contains(c) && c != self@.root_id
                        ==> stepped(self@.nodes, c, *potential),
                old(self)@.root().plays > 0 && current != self@.root_id
                    ==> self@.root().children is Some,
            decreases T::moves_left(self@.nodes[current as int].board),
        {
            let total_plays = self.nodes[current].plays;
            if total_plays == 0 {
                return current;
            }
            if self.nodes[current].children.is_none() {
                let ghost before = self@;
                self.make_children(current);
                proof {
                    lemma_expansion_grows::<T>(before, current as int, self@);
                    lemma_expansion_keeps_lazy::<T>(old(self)@, before, current as int, self@);
                    lemma_path_up_bounds(before.nodes, current as int);
                    assert forall|c: int| #[trigger]
                        path_up(self@.nodes, current as int).contains(c) && c
                            != self@.root_id implies stepped(self@.nodes, c, *potential) by {
                        lemma_expansion_keeps_step::<T, F>(
                            before,
                            current as int,
                            self@,
                            c,
                            *potential,
                        );
                    }
                }
            }
            let ghost nodes = self@.nodes;
            proof {
                assert(node_ok::<T>(nodes, self@.root_id, current as int));
            }
            let picked = match &self.nodes[current].children {
                Some(children) => {
                    if children.len() == 0 {
                        None
                    } else {
                        let k = self.pick_child(current, potential);
                        Some(children[k])
                    }
                },
                None => None,
            };
            match picked {
                None => {
                    return current;
                },
                Some(child) => {
                    proof {
                        let children = nodes[current as int].children->Some_0;
                        let k = choose|k: int| #[trigger]
                            descent(nodes, current as int, k, *potential) && children[k] == child;
                        assert(child_ok::<T>(nodes, current as int, k));
                        assert(node_ok::<T>(nodes, self@.root_id, child as int));
                        lemma_path_up_unfold(nodes, child as int);
                        lemma_step_keeps_lazy(old(self)@, self@, current as int, child as int);
                        let mv = nodes[current as int].possible_moves[k];
                        lemma_same_items_same_members(
                            nodes[current as int].possible_moves,
                            T::moves_of(nodes[current as int].board),
                            mv,
                        );
                        T::lemma_after_legal(
                            nodes[current as int].board,
                            mv,
                            nodes[current as int].active_player,
                        );
                    }
                    current = child;
                },
            }
        }
    }

    /// The place, among the root's children, of the best reply.
    pub fn best_move_index(&self) -> (k: usize)
        requires
            self.wf(),
            self@.root().children matches Some(children) && children.len() > 0,
            self@.plays_within(PLAYS_LIMIT as int),
        ensures
            best_reply(self@, k as int),
    {
        let ghost nodes = self@.nodes;
        proof {
            assert(node_ok::<T>(nodes, self@.root_id, self@.root_id as int));
        }
        match &self.nodes[self.root_id].children {
            Some(children) => {
                assert(child_ok::<T>(nodes, self@.root_id as int, 0));
                assert(node_ok::<T>(nodes, self@.root_id, children@[0] as int));
                let mut best = self.nodes[children[0]].winning_chance(self.ai_mark);
                let mut best_id: usize = 0;
                for j in 1..children.len()
                    invariant
                        nodes == self@.nodes,
                        self.wf(),
                        self@.plays_within(PLAYS_LIMIT as int),
                        self@.root().children == Some(children@),
                        0 <= best_id < j,
                        best == reply_chance(self@, best_id as int),
                        forall|i: int|
                            0 <= i < j ==> !(#[trigger] reply_chance(self@, i)).exceeds(best),
                        forall|i: int|
                            0 <= i < best_id ==> best.exceeds(#[trigger] reply_chance(self@, i)),
                {
                    assert(child_ok::<T>(nodes, self@.root_id as int, j as int)) by {
                        assert(node_ok::<T>(nodes, self@.root_id, self@.root_id as int));
                    }
                    assert(node_ok::<T>(nodes, self@.root_id, children@[j as int] as int));
                    let chance = self.nodes[children[j]].winning_chance(self.ai_mark);
                    if chance.is_above(best) {
                        assert forall|i: int| 0 <= i < j implies chance.exceeds(
                            #[trigger] reply_chance(self@, i),
                        ) by {
                            lemma_reply_chance_denom::<T>(self@, i);
                            lemma_reply_chance_denom::<T>(self@, best_id as int);
                            lemma_exceeds_carries(chance, best, reply_chance(self@, i));
                        }
                        best = chance;
                        best_id = j;
                    }
                }
                best_id
            },
            None => unreached(),
        }
    }

    /// Decides on a move for the position `board`, which is the root's or one
    /// move away from it. The tree moves its root to the node that holds
    /// `board`, runs `N_ROUNDS` rounds of selection, playout and crediting,
    /// and then moves its root on to the best reply, whose move it gives.
    pub fn choose_move<F: Fn(u64, u64, u64) -> u64>(&mut self, board: &T, potential: &F) -> (mv:
        Move)
        requires
            old(self).wf(),
            tracks::<T>(old(self)@, board@),
            T::state_of(board@) == GameState::Playing,
            old(self)@.plays_within(PLAYS_LIMIT - N_ROUNDS),
            forall|a: u64, b: u64, c: u64| call_requires(*potential, (a, b, c)),
        ensures
            final(self).wf(),
            T::moves_of(board@).contains(mv),
            final(self)@.root().board == T::after(board@, mv, mover_at(old(self)@, board@)),
            final(self)@.root().active_player == mover_at(old(self)@, board@).other(),
            final(self)@.ai_mark == old(self)@.ai_mark,
            chosen::<T, F>(old(self)@, board@, *potential, mv, final(self)@),
    {
        let new_root_id = self.find_state(board);
        proof {
            lemma_located::<T>(old(self)@, board@, self@, Some(new_root_id));
            if old(self)@.root().board != board@ {
                if old(self)@.root().children is None {
                    lemma_expansion_grows::<T>(old(self)@, old(self)@.root_id as int, self@);
                }
            }
        }
        self.reroot(new_root_id);
        let ghost mover = mover_at(old(self)@, board@);
        let ghost start = self@;
        proof {
            assert(rooted_at::<T>(old(self)@, board@, start));
        }
        for round in 0..N_ROUNDS
            invariant
                self.wf(),
                self@.root_id == new_root_id,
                self@.root().board == board@,
                self@.root().active_player == mover,
                self@.ai_mark == old(self)@.ai_mark,
                self@.plays_within(PLAYS_LIMIT - N_ROUNDS + round),
                self@.root().plays >= round,
                round >= 2 ==> self@.root().children is Some,
                explored::<T, F>(start, *potential, round as nat, self@),
                forall|a: u64, b: u64, c: u64| call_requires(*potential, (a, b, c)),
        {
            let ghost at_entry = self@;
            let selected_id = self.selection(potential);
            let ghost picked = self@;
            let result = self.simulate(selected_id);
            self.back_propagate(selected_id, result);
            proof {
                assert forall|i: int| 0 <= i < self@.nodes.len() implies (#[trigger] self@.nodes[i]).plays
                    <= PLAYS_LIMIT - N_ROUNDS + round + 1 by {}
                assert(round_of::<T, F>(
                    at_entry,
                    *potential,
                    picked,
                    selected_id as int,
                    result,
                    self@,
                ));
                lemma_explored_on::<T, F>(start, *potential, round as nat, at_entry, self@);
            }
        }
        let ghost searched = self@;
        proof {
            assert(node_ok::<T>(searched.nodes, searched.root_id, searched.root_id as int));
            T::lemma_no_moves_iff_over(board@);
            lemma_same_items_same_members(
                searched.root().possible_moves,
                T::moves_of(board@),
                Move::Base(0, 0),
            );
        }
        let best_move_id = self.best_move_index();
        let best_move = self.nodes[self.root_id].possible_moves[best_move_id];
        let best_child = match &self.nodes[self.root_id].children {
            Some(children) => children[best_move_id],
            None => unreached(),
        };
        proof {
            assert(child_ok::<T>(searched.nodes, searched.root_id as int, best_move_id as int));
            lemma_same_items_same_members(
                searched.root().possible_moves,
                T::moves_of(board@),
                best_move,
            );
        }
        self.reroot(best_child);
        proof {
            assert(decided::<T>(searched, board@, best_move, self@));
        }
        best_move
    }

    /// Decides on a move for `board` as `choose_move` does, where that can be
    /// done: where the tree tracks `board`, the game is running there, and no
    /// node is within `N_ROUNDS` plays of `PLAYS_LIMIT`. Gives nothing
    /// otherwise, with the root where it was.
    pub fn try_choose_move<F: Fn(u64, u64, u64) -> u64>(&mut self, board: &T, potential: &F) -> (mv:
        Option<Move>)
        requires
            old(self).wf(),
            forall|a: u64, b: u64, c: u64| call_requires(*potential, (a, b, c)),
        ensures
            final(self).wf(),
            final(self)@.ai_mark == old(self)@.ai_mark,
            mv is Some <==> tracks::<T>(old(self)@, board@) && T::state_of(board@)
                == GameState::Playing && old(self)@.plays_within(PLAYS_LIMIT - N_ROUNDS),
            match mv {
                Some(mv) => T::moves_of(board@).contains(mv) && final(self)@.root().board
                    == T::after(board@, mv, mover_at(old(self)@, board@))
                    && final(self)@.root().active_player == mover_at(old(self)@, board@).other()
                    && exists|found: TreeView<T::V>|
                    grown(old(self)@, found) && #[trigger] chosen::<T, F>(
                        found,
                        board@,
                        *potential,
                        mv,
                        final(self)@,
                    ),
                None => grown(old(self)@, final(self)@),
            },
    {
        let most = self.most_plays();
        let state = board.get_state();
        proof {
            if most > PLAYS_LIMIT - N_ROUNDS {
                let at = choose|i: int|
                    0 <= i < self@.nodes.len() && (#[trigger] self@.nodes[i]).plays == most;
            }
        }
        if most > PLAYS_LIMIT - N_ROUNDS || state != GameState::Playing {
            return None;
        }
        let found = self.try_find_state(board);
        proof {
            lemma_located::<T>(old(self)@, board@, self@, found);
            if old(self)@.root().board != board@ && old(self)@.root().children is None {
                lemma_expansion_grows::<T>(old(self)@, old(self)@.root_id as int, self@);
            }
        }
        match found {
            Some(_) => Some(self.choose_move(board, potential)),
            None => None,
        }
    }

    /// Credits a playout that started at node `from_id` and ended in
    /// `result`, a win or a draw, to that node and to every node above it.
    pub fn back_propagate(&mut self, from_id: usize, result: GameState)
        requires
            old(self).wf(),
            from_id < old(self)@.nodes.len(),
            result != GameState::Playing,
            old(self)@.plays_within(PLAYS_LIMIT - 1),
        ensures
            final(self)@ == old(self)@.credited(from_id as int, result),
            final(self).wf(),
    {
        let ghost before = self@;
        let ghost path = path_up(before.nodes, from_id as int);
        let mut node_id = from_id;
        proof {
            lemma_path_up_bounds(before.nodes, from_id as int);
        }
        loop
            invariant_except_break
                forall|i: int|
                    0 <= i < before.nodes.len() ==> #[trigger] self@.nodes[i] == if path.contains(i)
                        && i > node_id {
                        before.nodes[i].credited(result)
                    } else {
                        before.nodes[i]
                    },
            invariant
                before == old(self)@,
                path == path_up(before.nodes, from_id as int),
                tree_ok::<T>(before),
                before.plays_within(PLAYS_LIMIT - 1),
                from_id < before.nodes.len(),
                node_id <= from_id,
                path.contains(node_id as int),
                self@.root_id == before.root_id,
                self@.ai_mark == before.ai_mark,
                self@.nodes.len() == before.nodes.len(),
            ensures
                self@.root_id == before.root_id,
                self@.ai_mark == before.ai_mark,
                self@.nodes.len() == before.nodes.len(),
                forall|i: int|
                    0 <= i < before.nodes.len() ==> #[trigger] self@.nodes[i] == if path.contains(
                        i,
                    ) {
                        before.nodes[i].credited(result)
                    } else {
                        before.nodes[i]
                    },
            decreases node_id,
        {
            proof {
                lemma_path_up_step(before.nodes, from_id as int, node_id as int);
                assert(node_ok::<T>(before.nodes, before.root_id, node_id as int));
                assert(self@.nodes[node_id as int] == before.nodes[node_id as int]);
            }
            let ghost at_entry = self@;
            self.nodes[node_id].plays += 1;
            match result {
                GameState::Won(mark) => {
                    if mark == self.nodes[node_id].active_player {
                        self.nodes[node_id].half_wins += 2;
                    }
                },
                GameState::Draw => {
                    self.nodes[node_id].half_wins += 1;
                },
                GameState::Playing => {},
            }
            let ghost credited_id = node_id;
            match self.nodes[node_id].parent {
                Some(parent_id) => {
                    node_id = parent_id;
                },
                None => {
                    assert forall|i: int| 0 <= i < before.nodes.len() implies #[trigger] self@.nodes[i]
                        == if path.contains(i) {
                        before.nodes[i].credited(result)
                    } else {
                        before.nodes[i]
                    } by {
                        if i != credited_id {
                            assert(self@.nodes[i] == at_entry.nodes[i]);
                        }
                    }
                    break ;
                },
            }
            assert forall|i: int| 0 <= i < before.nodes.len() implies #[trigger] self@.nodes[i]
                == if path.contains(i) && i > node_id {
                before.nodes[i].credited(result)
            } else {
                before.nodes[i]
            } by {
                if i != credited_id {
                    assert(self@.nodes[i] == at_entry.nodes[i]);
                }
            }
        }
        assert forall|i: int| 0 <= i < self@.nodes.len() implies #[trigger] node_ok::<T>(
            self@.nodes,
            self@.root_id,
            i,
        ) by {
            assert(node_ok::<T>(before.nodes, before.root_id, i));
            if let Some(children) = self@.nodes[i].children {
                assert forall|k: int| 0 <= k < children.len() implies #[trigger] child_ok::<T>(
                    self@.nodes,
                    i,
                    k,
                ) by {
                    assert(child_ok::<T>(before.nodes, i, k));
                }
            }
        }
    }
}

} // verus!
