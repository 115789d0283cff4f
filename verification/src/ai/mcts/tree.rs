//! The search tree as a mathematical object: what makes an arena of nodes a
//! tree, what the steps of the search do to it, and the facts about both that
//! the engine's proofs rest on.

use vstd::prelude::*;
use crate::ai::mcts::{Chance, N_ROUNDS, PLAYS_LIMIT};
use crate::ai::{playout_result, Game, Move};
use crate::game::{GameState, Mark};

verus! {

/// What a node is, mathematically.
#[verifier::ext_equal]
pub struct NodeView<V> {
    /// The node this one was expanded from; none for a root.
    pub parent: Option<usize>,
    /// The nodes that the moves lead to, one for each of `possible_moves` in
    /// its order; none while the node has not been expanded.
    pub children: Option<Seq<usize>>,
    /// The position that the node stands for.
    pub board: V,
    /// The mark that moves next from this position.
    pub active_player: Mark,
    /// The half points credited to `active_player` here.
    pub half_wins: u64,
    /// The number of playouts that went through this node.
    pub plays: u64,
    /// The legal moves of the position, in the order that chance gave them.
    pub possible_moves: Seq<Move>,
}

/// What the engine is, mathematically: the arena, the place of the current
/// root in it, and the mark that the engine plays.
#[verifier::ext_equal]
pub struct TreeView<V> {
    pub nodes: Seq<NodeView<V>>,
    pub root_id: usize,
    pub ai_mark: Mark,
}

/// The half points that a playout ending in `result` earns a node at which
/// `active_player` moves: two for that player's win, one for a draw, none
/// for the opponent's win. A game that has not ended earns nothing.
pub open spec fn credit(result: GameState, active_player: Mark) -> u64 {
    match result {
        GameState::Won(mark) => if mark == active_player {
            2u64
        } else {
            0u64
        },
        GameState::Draw => 1u64,
        GameState::Playing => 0u64,
    }
}

/// The way up from node `from`: the node, its parent, and so on to the node
/// that has none.
pub open spec fn path_up<V>(nodes: Seq<NodeView<V>>, from: int) -> Seq<int>
    decreases from,
{
    match nodes[from].parent {
        Some(parent) => if 0 <= parent < from {
            seq![from] + path_up(nodes, parent as int)
        } else {
            seq![from]
        },
        None => seq![from],
    }
}

impl<V> NodeView<V> {
    /// A node that no playout has gone through yet.
    pub open spec fn fresh(
        board: V,
        active_player: Mark,
        parent: Option<usize>,
        possible_moves: Seq<Move>,
    ) -> NodeView<V> {
        NodeView {
            parent,
            children: None,
            board,
            active_player,
            half_wins: 0,
            plays: 0,
            possible_moves,
        }
    }

    /// The node after one more playout, which ended in `result`, went
    /// through it.
    pub open spec fn credited(self, result: GameState) -> NodeView<V> {
        NodeView {
            half_wins: (self.half_wins + credit(result, self.active_player)) as u64,
            plays: (self.plays + 1) as u64,
            ..self
        }
    }

    /// The node with its parent forgotten.
    pub open spec fn detached(self) -> NodeView<V> {
        NodeView { parent: None, ..self }
    }

    /// The node expanded into `children`.
    pub open spec fn expanded(self, children: Seq<usize>) -> NodeView<V> {
        NodeView { children: Some(children), ..self }
    }
}

/// The share of the playouts through `node` that `ai_mark` can count as
/// won: none while there was no playout; the node's own share of half points
/// where `ai_mark` moves at the node; what is left of them where the
/// opponent does.
pub open spec fn chance_of<V>(node: NodeView<V>, ai_mark: Mark) -> Chance {
    if node.plays == 0 {
        Chance { numer: 0, denom: 1 }
    } else if ai_mark == node.active_player {
        Chance { numer: node.half_wins, denom: (2 * node.plays) as u64 }
    } else {
        Chance { numer: (2 * node.plays - node.half_wins) as u64, denom: (2 * node.plays) as u64 }
    }
}

/// Child `k` of node `i` stands after it in the arena, holds the position
/// that the node's move `k` leads to with the other mark to move, and names
/// the node as its parent unless it was made a root.
pub open spec fn child_ok<T: Game>(nodes: Seq<NodeView<T::V>>, i: int, k: int) -> bool {
    let node = nodes[i];
    let child = node.children->Some_0[k] as int;
    &&& i < child < nodes.len()
    &&& nodes[child].parent == Some(i as usize) || nodes[child].parent is None
    &&& nodes[child].board == T::after(node.board, node.possible_moves[k], node.active_player)
    &&& nodes[child].active_player == node.active_player.other()
}

/// Node `i` holds a position that play can reach and its legal moves in some
/// order, was credited no more than two half points a playout, stands after
/// its parent, or no later than the root if it has none, and has one child
/// for each move once it is expanded.
pub open spec fn node_ok<T: Game>(nodes: Seq<NodeView<T::V>>, root_id: usize, i: int) -> bool {
    let node = nodes[i];
    &&& T::valid(node.board)
    &&& node.possible_moves.to_multiset() == T::moves_of(node.board).to_multiset()
    &&& node.half_wins <= 2 * node.plays
    &&& match node.parent {
        Some(parent) => parent < i,
        None => i <= root_id,
    }
    &&& node.children matches Some(children) ==> {
        &&& children.len() == node.possible_moves.len()
        &&& forall|k: int| 0 <= k < children.len() ==> #[trigger] child_ok::<T>(nodes, i, k)
    }
}

/// The arena is a search tree: the root is in it and has no parent, and
/// every node is in order.
pub open spec fn tree_ok<T: Game>(tree: TreeView<T::V>) -> bool {
    &&& tree.root_id < tree.nodes.len()
    &&& tree.nodes[tree.root_id as int].parent is None
    &&& forall|i: int| 0 <= i < tree.nodes.len() ==> #[trigger] node_ok::<T>(tree.nodes, tree.root_id, i)
}

/// The places `first`, `first + 1`, ... of `count` nodes that stand one after
/// the other.
pub open spec fn places_from(first: int, count: nat) -> Seq<usize> {
    Seq::new(count, |k: int| (first + k) as usize)
}

/// Two lists that hold the same items, in whatever order, have the same
/// members.
pub proof fn lemma_same_items_same_members<A>(a: Seq<A>, b: Seq<A>, item: A)
    requires
        a.to_multiset() == b.to_multiset(),
    ensures
        a.contains(item) <==> b.contains(item),
        a.len() == b.len(),
{
    vstd::seq_lib::to_multiset_contains(a, item);
    vstd::seq_lib::to_multiset_contains(b, item);
    vstd::seq_lib::to_multiset_len(a);
    vstd::seq_lib::to_multiset_len(b);
}

/// `after` is `before` with node `parent` expanded: one new node for each of
/// the parent's moves, in their order, at the end of the arena. A new node
/// holds the position that the move leads to, with the other mark to move,
/// and has neither playouts nor children.
pub open spec fn expansion<T: Game>(
    before: TreeView<T::V>,
    parent: int,
    after: TreeView<T::V>,
) -> bool {
    let node = before.nodes[parent];
    let first = before.nodes.len();
    let count = node.possible_moves.len();
    &&& after.root_id == before.root_id
    &&& after.ai_mark == before.ai_mark
    &&& after.nodes.len() == first + count
    &&& forall|i: int| 0 <= i < first && i != parent ==> #[trigger] after.nodes[i] == before.nodes[i]
    &&& after.nodes[parent] == node.expanded(places_from(first as int, count))
    &&& forall|k: int|
        0 <= k < count ==> #[trigger] after.nodes[first + k] == NodeView::fresh(
            T::after(node.board, node.possible_moves[k], node.active_player),
            node.active_player.other(),
            Some(parent as usize),
            after.nodes[first + k].possible_moves,
        )
}

/// The position `v` is the root's own, or one move of the player to move
/// away from it.
pub open spec fn tracks<T: Game>(tree: TreeView<T::V>, v: T::V) -> bool {
    let root = tree.root();
    root.board == v || exists|mv: Move| #[trigger]
        T::moves_of(root.board).contains(mv) && T::after(root.board, mv, root.active_player) == v
}

/// The first of `children` whose node holds the position `v`, if there is
/// one.
pub open spec fn first_holding<V>(nodes: Seq<NodeView<V>>, children: Seq<usize>, v: V) -> Option<
    usize,
>
    decreases children.len(),
{
    if children.len() == 0 {
        None
    } else if nodes[children[0] as int].board == v {
        Some(children[0])
    } else {
        first_holding(nodes, children.drop_first(), v)
    }
}

/// What `first_holding` finds is one of the children and holds `v`, and no
/// child before it does; where it finds nothing, no child holds `v`.
pub proof fn lemma_first_holding<V>(nodes: Seq<NodeView<V>>, children: Seq<usize>, v: V)
    ensures
        match first_holding(nodes, children, v) {
            Some(id) => exists|k: int|
                0 <= k < children.len() && #[trigger] children[k] == id && nodes[id as int].board
                    == v && forall|j: int|
                    0 <= j < k ==> nodes[#[trigger] children[j] as int].board != v,
            None => forall|k: int|
                0 <= k < children.len() ==> nodes[#[trigger] children[k] as int].board != v,
        },
    decreases children.len(),
{
    if children.len() > 0 && nodes[children[0] as int].board != v {
        let rest = children.drop_first();
        lemma_first_holding(nodes, rest, v);
        match first_holding(nodes, rest, v) {
            Some(id) => {
                let k = choose|k: int|
                    0 <= k < rest.len() && #[trigger] rest[k] == id && nodes[id as int].board == v
                        && forall|j: int| 0 <= j < k ==> nodes[#[trigger] rest[j] as int].board != v;
                assert(children[k + 1] == id);
                assert forall|j: int| 0 <= j < k + 1 implies nodes[#[trigger] children[j] as int].board
                    != v by {
                    if j > 0 {
                        assert(rest[j - 1] == children[j]);
                    }
                }
            },
            None => {
                assert forall|k: int| 0 <= k < children.len() implies nodes[#[trigger] children[k] as int]
                    .board != v by {
                    if k > 0 {
                        assert(rest[k - 1] == children[k]);
                    }
                }
            },
        }
    } else if children.len() > 0 {
        assert(children[0] == first_holding(nodes, children, v)->Some_0);
    }
}

/// Looking for the position `v` in the tree `before` gave the tree `after`
/// and the node `found`: the root, where the root holds `v`; else, with the
/// root expanded if it was not, the first child of the root that holds `v`,
/// or nothing where none does.
pub open spec fn located<T: Game>(
    before: TreeView<T::V>,
    v: T::V,
    after: TreeView<T::V>,
    found: Option<usize>,
) -> bool {
    if before.root().board == v {
        after == before && found == Some(before.root_id)
    } else {
        &&& if before.root().children is Some {
            after == before
        } else {
            expansion::<T>(before, before.root_id as int, after)
        }
        &&& found == first_holding(after.nodes, after.root().children->Some_0, v)
    }
}

/// A search for `v` finds a node exactly when the tree tracks `v`; the node
/// it finds is the root or one of its children, and holds `v`.
pub proof fn lemma_located<T: Game>(
    before: TreeView<T::V>,
    v: T::V,
    after: TreeView<T::V>,
    found: Option<usize>,
)
    requires
        tree_ok::<T>(before),
        tree_ok::<T>(after),
        located::<T>(before, v, after, found),
    ensures
        found is Some <==> tracks::<T>(before, v),
        found matches Some(id) ==> after.root_id <= id < after.nodes.len() && after.nodes[id as int].board
            == v && after.nodes[id as int].active_player == mover_at(before, v),
        tracks::<T>(after, v) <==> tracks::<T>(before, v),
        after.ai_mark == before.ai_mark,
        after.root_id == before.root_id,
        after.root().board == before.root().board,
        after.root().active_player == before.root().active_player,
{
    let root = after.root();
    let at = after.root_id as int;
    assert(node_ok::<T>(after.nodes, after.root_id, at));
    if before.root().board != v {
        let children = root.children->Some_0;
        lemma_first_holding(after.nodes, children, v);
        match found {
            Some(id) => {
                let k = choose|k: int|
                    0 <= k < children.len() && #[trigger] children[k] == id && after.nodes[id as int].board
                        == v;
                assert(child_ok::<T>(after.nodes, at, k));
                let mv = root.possible_moves[k];
                lemma_same_items_same_members(root.possible_moves, T::moves_of(root.board), mv);
            },
            None => {
                if tracks::<T>(before, v) {
                    let mv = choose|mv: Move| #[trigger]
                        T::moves_of(root.board).contains(mv) && T::after(
                            root.board,
                            mv,
                            root.active_player,
                        ) == v;
                    lemma_same_items_same_members(root.possible_moves, T::moves_of(root.board), mv);
                    let k = choose|k: int|
                        0 <= k < root.possible_moves.len() && root.possible_moves[k] == mv;
                    assert(child_ok::<T>(after.nodes, at, k));
                }
            },
        }
    }
}

impl<V> TreeView<V> {
    /// The tree of one node for `board`, with X to move, that an engine
    /// playing `ai_mark` starts from.
    pub open spec fn initial(board: V, ai_mark: Mark, possible_moves: Seq<Move>) -> TreeView<V> {
        TreeView {
            nodes: seq![NodeView::fresh(board, Mark::X, None, possible_moves)],
            root_id: 0,
            ai_mark,
        }
    }

    /// The root.
    pub open spec fn root(self) -> NodeView<V> {
        self.nodes[self.root_id as int]
    }

    /// The tree with node `id` made the root and cut off from its parent.
    pub open spec fn rerooted(self, id: usize) -> TreeView<V> {
        TreeView {
            nodes: self.nodes.update(id as int, self.nodes[id as int].detached()),
            root_id: id,
            ..self
        }
    }

    /// The tree of one node with the mark that moves first turned into the
    /// other one.
    pub open spec fn switched(self) -> TreeView<V> {
        TreeView {
            nodes: seq![
                NodeView {
                    active_player: self.nodes[0].active_player.other(),
                    ..self.nodes[0]
                },
            ],
            ..self
        }
    }

    /// The tree after a playout from node `from` that ended in `result`:
    /// every node on the way up from `from` has one more play and its credit,
    /// and no other node has changed.
    pub open spec fn credited(self, from: int, result: GameState) -> TreeView<V> {
        TreeView {
            nodes: Seq::new(
                self.nodes.len(),
                |i: int|
                    if path_up(self.nodes, from).contains(i) {
                        self.nodes[i].credited(result)
                    } else {
                        self.nodes[i]
                    },
            ),
            ..self
        }
    }

    /// No node has more than `bound` plays.
    pub open spec fn plays_within(self, bound: int) -> bool {
        forall|i: int| 0 <= i < self.nodes.len() ==> (#[trigger] self.nodes[i]).plays <= bound
    }
}

/// A win is credited to one side only: where the mover at a node gains two
/// half points, the other mover, who moves at its parent and at its children,
/// gains none.
pub proof fn lemma_credit_one_side(result: GameState, mover: Mark)
    ensures
        credit(result, mover) == 2 ==> credit(result, mover.other()) == 0,
        credit(result, mover) == 2 <==> result == GameState::Won(mover),
        credit(result, mover) == 1 <==> result == GameState::Draw,
        credit(result, mover) == 0 <==> result == GameState::Won(mover.other()) || result
            == GameState::Playing,
{
}

/// Crediting a finished playout from node `from` gives every node on the way
/// up from `from` exactly one more play, and two half points more where its
/// own mover won, one where the game was drawn, none where the other mover
/// won; every other node is left as it was.
pub proof fn lemma_credited_along_path<V>(
    tree: TreeView<V>,
    from: int,
    result: GameState,
    i: int,
)
    requires
        0 <= i < tree.nodes.len(),
        result != GameState::Playing,
        tree.nodes[i].plays < PLAYS_LIMIT,
        tree.nodes[i].half_wins <= 2 * tree.nodes[i].plays,
    ensures
        ({
            let before = tree.nodes[i];
            let after = tree.credited(from, result).nodes[i];
            if path_up(tree.nodes, from).contains(i) {
                &&& after.plays == before.plays + 1
                &&& after.half_wins == before.half_wins + match result {
                    GameState::Won(mark) => if mark == before.active_player {
                        2int
                    } else {
                        0int
                    },
                    _ => 1int,
                }
                &&& after == NodeView { plays: after.plays, half_wins: after.half_wins, ..before }
            } else {
                after == before
            }
        }),
{
}

/// The way up from `from` starts at `from`, and leads through nodes of the
/// arena that stand no later than `from`.
pub proof fn lemma_path_up_bounds<V>(nodes: Seq<NodeView<V>>, from: int)
    requires
        0 <= from,
    ensures
        path_up(nodes, from)[0] == from,
        path_up(nodes, from).len() >= 1,
        forall|i: int| path_up(nodes, from).contains(i) ==> 0 <= i <= from,
    decreases from,
{
    let path = path_up(nodes, from);
    if let Some(parent) = nodes[from].parent {
        if 0 <= parent < from {
            lemma_path_up_bounds(nodes, parent as int);
            let rest = path_up(nodes, parent as int);
            assert forall|i: int| path.contains(i) implies 0 <= i <= from by {
                let at = choose|at: int| 0 <= at < path.len() && path[at] == i;
                if at > 0 {
                    assert(rest[at - 1] == i);
                    assert(rest.contains(i));
                }
            }
        } else {
            assert forall|i: int| path.contains(i) implies 0 <= i <= from by {}
        }
    } else {
        assert forall|i: int| path.contains(i) implies 0 <= i <= from by {}
    }
}

/// From a node `n` on the way up from `from`, the way goes on to the parent
/// of `n` and skips every node between the two; where `n` has no parent
/// before it, the way ends at `n`.
pub proof fn lemma_path_up_step<V>(nodes: Seq<NodeView<V>>, from: int, n: int)
    requires
        0 <= from,
        path_up(nodes, from).contains(n),
    ensures
        match nodes[n].parent {
            Some(parent) if parent < n => path_up(nodes, from).contains(parent as int)
                && forall|i: int| parent < i < n ==> !path_up(nodes, from).contains(i),
            _ => forall|i: int| i < n ==> !path_up(nodes, from).contains(i),
        },
    decreases from,
{
    lemma_path_up_bounds(nodes, from);
    lemma_path_up_unfold(nodes, from);
    if let Some(parent) = nodes[from].parent {
        if parent < from {
            lemma_path_up_bounds(nodes, parent as int);
            if n == from {
                assert(path_up(nodes, parent as int).contains(parent as int)) by {
                    assert(path_up(nodes, parent as int)[0] == parent);
                }
            } else {
                lemma_path_up_step(nodes, parent as int, n);
            }
        }
    }
}

/// The way up from `from` is `from` alone where it has no parent before it,
/// and `from` followed by the way up from its parent where it has one.
pub proof fn lemma_path_up_unfold<V>(nodes: Seq<NodeView<V>>, from: int)
    requires
        0 <= from,
    ensures
        match nodes[from].parent {
            Some(parent) if parent < from => path_up(nodes, from).last() == path_up(
                nodes,
                parent as int,
            ).last() && forall|i: int|
                path_up(nodes, from).contains(i) <==> i == from || path_up(
                    nodes,
                    parent as int,
                ).contains(i),
            _ => path_up(nodes, from).last() == from && forall|i: int|
                path_up(nodes, from).contains(i) <==> i == from,
        },
{
    let path = path_up(nodes, from);
    let up = match nodes[from].parent {
        Some(parent) if parent < from => Some(parent as int),
        _ => None,
    };
    match up {
        Some(parent) => {
            let rest = path_up(nodes, parent);
            lemma_path_up_bounds(nodes, parent);
            assert(path == seq![from] + rest);
            assert(path.last() == rest.last()) by {
                assert(path[path.len() - 1] == rest[rest.len() - 1]);
            }
            assert forall|i: int| path.contains(i) <==> i == from || rest.contains(i) by {
                if path.contains(i) {
                    let at = choose|at: int| 0 <= at < path.len() && path[at] == i;
                    if at > 0 {
                        assert(rest[at - 1] == i);
                    }
                }
                if rest.contains(i) {
                    let at = choose|at: int| 0 <= at < rest.len() && rest[at] == i;
                    assert(path[at + 1] == i);
                }
                if i == from {
                    assert(path[0] == i);
                }
            }
        },
        None => {
            assert(path == seq![from]);
            assert forall|i: int| path.contains(i) <==> i == from by {
                if i == from {
                    assert(path[0] == i);
                }
            }
        },
    }
}

/// The ways up are the same in two arenas that agree on the parents of the
/// first `n` nodes, from any of those nodes.
pub proof fn lemma_path_up_same<V>(a: Seq<NodeView<V>>, b: Seq<NodeView<V>>, n: int, from: int)
    requires
        0 <= from < n,
        forall|i: int| 0 <= i < n ==> (#[trigger] a[i]).parent == b[i].parent,
    ensures
        path_up(a, from) == path_up(b, from),
    decreases from,
{
    if let Some(parent) = a[from].parent {
        if parent < from {
            lemma_path_up_same(a, b, n, parent as int);
        }
    }
}

/// `k` is the first place at which `scores` is largest.
pub open spec fn first_largest(scores: Seq<u64>, k: int) -> bool {
    &&& 0 <= k < scores.len()
    &&& forall|j: int| 0 <= j < scores.len() ==> scores[j] <= scores[k]
    &&& forall|j: int| 0 <= j < k ==> scores[j] < scores[k]
}

/// Selection, standing at the visited and expanded node `parent`, goes down
/// to its child `k`: the first child without a playout, if there is one;
/// else the first child whose score is largest, where `potential` gave the
/// scores from each child's half points and plays and from the parent's
/// plays less one.
pub open spec fn descent<V, F: Fn(u64, u64, u64) -> u64>(
    nodes: Seq<NodeView<V>>,
    parent: int,
    k: int,
    potential: F,
) -> bool {
    let node = nodes[parent];
    let children = node.children->Some_0;
    &&& node.plays > 0
    &&& node.children is Some
    &&& 0 <= k < children.len()
    &&& if exists|j: int| 0 <= j < children.len() && nodes[#[trigger] children[j] as int].plays == 0 {
        nodes[children[k] as int].plays == 0 && forall|j: int|
            0 <= j < k ==> nodes[#[trigger] children[j] as int].plays > 0
    } else {
        exists|scores: Seq<u64>| #[trigger]
            first_largest(scores, k) && scores.len() == children.len() && forall|j: int|
                0 <= j < children.len() ==> call_ensures(
                    potential,
                    (
                        nodes[children[j] as int].half_wins,
                        nodes[children[j] as int].plays,
                        (node.plays - 1) as u64,
                    ),
                    #[trigger] scores[j],
                )
    }
}

/// Selection came to node `c` from its parent.
pub open spec fn stepped<V, F: Fn(u64, u64, u64) -> u64>(
    nodes: Seq<NodeView<V>>,
    c: int,
    potential: F,
) -> bool {
    nodes[c].parent matches Some(parent) && parent < c && exists|k: int| #[trigger]
        descent(nodes, parent as int, k, potential) && nodes[parent as int].children->Some_0[k]
            == c
}

/// Node `id` is what selection picks in `tree`: it has no playout yet or no
/// move to make, and selection came down to it from the root, step by step.
pub open spec fn selected<V, F: Fn(u64, u64, u64) -> u64>(
    tree: TreeView<V>,
    id: int,
    potential: F,
) -> bool {
    let path = path_up(tree.nodes, id);
    &&& 0 <= id < tree.nodes.len()
    &&& path.last() == tree.root_id
    &&& tree.nodes[id].plays == 0 || (tree.nodes[id].children matches Some(children)
        && children.len() == 0)
    &&& forall|c: int| #[trigger] path.contains(c) && c != tree.root_id ==> stepped(tree.nodes, c, potential)
}

/// `after` is `before` with some nodes expanded: the nodes of `before` are
/// as they were but for children they had not and now may have, and the nodes
/// that were added have a parent and no playout.
pub open spec fn grown<V>(before: TreeView<V>, after: TreeView<V>) -> bool {
    &&& after.root_id == before.root_id
    &&& after.ai_mark == before.ai_mark
    &&& before.nodes.len() <= after.nodes.len()
    &&& forall|i: int|
        0 <= i < before.nodes.len() ==> #[trigger] after.nodes[i] == if before.nodes[i].children is None {
            NodeView { children: after.nodes[i].children, ..before.nodes[i] }
        } else {
            before.nodes[i]
        }
    &&& forall|i: int|
        before.nodes.len() <= i < after.nodes.len() ==> (#[trigger] after.nodes[i]).plays == 0
            && after.nodes[i].half_wins == 0 && after.nodes[i].parent is Some
}

/// Child `k` of the root is the best reply: no child gives the engine's mark
/// a larger share of its playouts, and every child before it gives a smaller
/// one.
pub open spec fn best_reply<V>(tree: TreeView<V>, k: int) -> bool {
    let children = tree.root().children->Some_0;
    &&& 0 <= k < children.len()
    &&& forall|j: int|
        0 <= j < children.len() ==> !(#[trigger] reply_chance(tree, j)).exceeds(
            reply_chance(tree, k),
        )
    &&& forall|j: int| 0 <= j < k ==> reply_chance(tree, k).exceeds(#[trigger] reply_chance(tree, j))
}

/// The share of its playouts that child `j` of the root gives the engine's
/// mark.
pub open spec fn reply_chance<V>(tree: TreeView<V>, j: int) -> Chance {
    chance_of(tree.nodes[tree.root().children->Some_0[j] as int], tree.ai_mark)
}

/// The mark that moves at the node of `tree` that holds `v`: the one to move
/// at the root where the root holds `v`, and the other one at its children.
pub open spec fn mover_at<V>(tree: TreeView<V>, v: V) -> Mark {
    if tree.root().board == v {
        tree.root().active_player
    } else {
        tree.root().active_player.other()
    }
}

/// Selection, standing at node `at` of the tree `now` that it made of the
/// tree `start`, has expanded nothing that it did not have to: a node that
/// was given children had a playout and lies on the way up from `at`, and no
/// node that was added has children.
pub open spec fn lazily_reached<V>(start: TreeView<V>, now: TreeView<V>, at: int) -> bool {
    &&& forall|i: int|
        0 <= i < start.nodes.len() && start.nodes[i].children is None && (
        #[trigger] now.nodes[i]).children is Some ==> start.nodes[i].plays > 0 && path_up(
            now.nodes,
            at,
        ).contains(i)
    &&& forall|i: int|
        start.nodes.len() <= i < now.nodes.len() ==> (#[trigger] now.nodes[i]).children is None
}

/// Selection, which picked node `id` and left the tree `after` of the tree
/// `before`, expanded lazily: where the root had no playout it was picked
/// with the tree as it stood; and in any case a node that was given children
/// had a playout and lies on the way up from the picked node, and no node
/// that was added has children.
pub open spec fn lazily_grown<V>(before: TreeView<V>, after: TreeView<V>, id: int) -> bool {
    &&& before.root().plays == 0 ==> after == before && id == before.root_id
    &&& lazily_reached(before, after, id)
}

/// Expanding the visited node at which selection stands keeps the expansion
/// lazy; that node is one of the tree that selection started from.
pub proof fn lemma_expansion_keeps_lazy<T: Game>(
    start: TreeView<T::V>,
    before: TreeView<T::V>,
    at: int,
    after: TreeView<T::V>,
)
    requires
        grown(start, before),
        lazily_reached(start, before, at),
        0 <= at < before.nodes.len(),
        before.nodes[at].plays > 0,
        before.nodes[at].children is None,
        expansion::<T>(before, at, after),
    ensures
        at < start.nodes.len(),
        lazily_reached(start, after, at),
        path_up(after.nodes, at) == path_up(before.nodes, at),
{
    let first = before.nodes.len() as int;
    if at >= start.nodes.len() {
        assert(before.nodes[at].plays == 0);
    }
    assert forall|i: int| 0 <= i < first implies (#[trigger] before.nodes[i]).parent
        == after.nodes[i].parent by {
        if i != at {
            assert(after.nodes[i] == before.nodes[i]);
        }
    }
    lemma_path_up_same(before.nodes, after.nodes, first, at);
    lemma_path_up_bounds(before.nodes, at);
    assert(path_up(before.nodes, at).contains(at)) by {
        assert(path_up(before.nodes, at)[0] == at);
    }
    assert forall|i: int|
        0 <= i < start.nodes.len() && start.nodes[i].children is None && (
        #[trigger] after.nodes[i]).children is Some implies start.nodes[i].plays > 0 && path_up(
        after.nodes,
        at,
    ).contains(i) by {
        if i == at {
            assert(before.nodes[i].plays == start.nodes[i].plays);
        } else {
            assert(after.nodes[i] == before.nodes[i]);
            assert(before.nodes[i].children is Some);
        }
    }
    assert forall|i: int| start.nodes.len() <= i < after.nodes.len() implies (
    #[trigger] after.nodes[i]).children is None by {
        if i < first {
            assert(after.nodes[i] == before.nodes[i]);
            assert(before.nodes[i].children is None);
        } else {
            let k = i - first;
            assert(after.nodes[first + k].children is None);
        }
    }
}

/// Going down from node `at` to a child of it keeps the expansion lazy.
pub proof fn lemma_step_keeps_lazy<V>(start: TreeView<V>, now: TreeView<V>, at: int, child: int)
    requires
        lazily_reached(start, now, at),
        0 <= at < child,
        now.nodes[child].parent matches Some(parent) && parent == at,
    ensures
        lazily_reached(start, now, child),
{
    lemma_path_up_unfold(now.nodes, child);
    assert forall|i: int| path_up(now.nodes, at).contains(i) implies path_up(
        now.nodes,
        child,
    ).contains(i) by {}
}

/// One round of the search led from the tree `before` to the tree `after`:
/// selection grew the tree to `picked` and picked its node `id`, a playout
/// from that node ended in `result`, and the playout was credited.
pub open spec fn round_of<T: Game, F: Fn(u64, u64, u64) -> u64>(
    before: TreeView<T::V>,
    potential: F,
    picked: TreeView<T::V>,
    id: int,
    result: GameState,
    after: TreeView<T::V>,
) -> bool {
    &&& tree_ok::<T>(picked)
    &&& grown(before, picked)
    &&& lazily_grown(before, picked, id)
    &&& selected(picked, id, potential)
    &&& playout_result::<T>(picked.nodes[id].board, picked.nodes[id].active_player, result)
    &&& after == picked.credited(id, result)
}

/// Some round of the search led from the tree `before` to the tree `after`.
pub open spec fn one_round<T: Game, F: Fn(u64, u64, u64) -> u64>(
    before: TreeView<T::V>,
    potential: F,
    after: TreeView<T::V>,
) -> bool {
    exists|picked: TreeView<T::V>, id: int, result: GameState| #[trigger]
        round_of::<T, F>(before, potential, picked, id, result, after)
}

/// `rounds` rounds of the search, one after the other, led from the tree
/// `start` to the tree `after`.
pub open spec fn explored<T: Game, F: Fn(u64, u64, u64) -> u64>(
    start: TreeView<T::V>,
    potential: F,
    rounds: nat,
    after: TreeView<T::V>,
) -> bool
    decreases rounds,
{
    if rounds == 0 {
        after == start
    } else {
        exists|prev: TreeView<T::V>| #[trigger]
            one_round::<T, F>(prev, potential, after) && explored::<T, F>(
                start,
                potential,
                (rounds - 1) as nat,
                prev,
            )
    }
}

/// A round after `rounds` rounds makes `rounds + 1` rounds.
pub proof fn lemma_explored_on<T: Game, F: Fn(u64, u64, u64) -> u64>(
    start: TreeView<T::V>,
    potential: F,
    rounds: nat,
    prev: TreeView<T::V>,
    after: TreeView<T::V>,
)
    requires
        explored::<T, F>(start, potential, rounds, prev),
        one_round::<T, F>(prev, potential, after),
    ensures
        explored::<T, F>(start, potential, rounds + 1, after),
{
}

/// The search for the position `v` made the tree `start` of the tree
/// `before`: the node that holds `v` was found and made the root.
pub open spec fn rooted_at<T: Game>(before: TreeView<T::V>, v: T::V, start: TreeView<T::V>) -> bool {
    exists|found: TreeView<T::V>, id: usize| #[trigger]
        located::<T>(before, v, found, Some(id)) && start == found.rerooted(id)
}

/// The engine, asked for a move at the position `v` with the tree `before`,
/// gave `mv` and was left with the tree `after`: it made the node that holds
/// `v` the root, ran `N_ROUNDS` rounds of the search, and decided on the
/// move to the root's best reply.
pub open spec fn chosen<T: Game, F: Fn(u64, u64, u64) -> u64>(
    before: TreeView<T::V>,
    v: T::V,
    potential: F,
    mv: Move,
    after: TreeView<T::V>,
) -> bool {
    exists|start: TreeView<T::V>, searched: TreeView<T::V>|
        #![trigger rooted_at::<T>(before, v, start), decided::<T>(searched, v, mv, after)]
        rooted_at::<T>(before, v, start) && explored::<T, F>(
            start,
            potential,
            N_ROUNDS as nat,
            searched,
        ) && decided::<T>(searched, v, mv, after)
}

/// The engine, having explored to the tree `explored` whose root holds `v`
/// and has `N_ROUNDS` playouts or more behind it, decided on `mv`: the move
/// to the root's best reply, which is the root of the tree `after`.
pub open spec fn decided<T: Game>(
    explored: TreeView<T::V>,
    v: T::V,
    mv: Move,
    after: TreeView<T::V>,
) -> bool {
    &&& tree_ok::<T>(explored)
    &&& explored.root().board == v
    &&& explored.root().plays >= N_ROUNDS
    &&& explored.root().children is Some
    &&& exists|k: int| #[trigger]
        best_reply(explored, k) && mv == explored.root().possible_moves[k] && after
            == explored.rerooted(explored.root().children->Some_0[k])
}

/// A share that exceeds `b` exceeds every share that does not.
pub proof fn lemma_exceeds_carries(a: Chance, b: Chance, c: Chance)
    requires
        a.denom > 0,
        b.denom > 0,
        c.denom > 0,
        a.exceeds(b),
        !c.exceeds(b),
    ensures
        a.exceeds(c),
{
    let (an, ad) = (a.numer as int, a.denom as int);
    let (bn, bd) = (b.numer as int, b.denom as int);
    let (cn, cd) = (c.numer as int, c.denom as int);
    assert(an * cd > cn * ad) by (nonlinear_arith)
        requires
            ad > 0,
            bd > 0,
            cd > 0,
            an >= 0,
            bn >= 0,
            cn >= 0,
            an * bd > bn * ad,
            cn * bd <= bn * cd,
    {
    }
}

/// The share that a child of the root gives is out of a number above 0.
pub proof fn lemma_reply_chance_denom<T: Game>(tree: TreeView<T::V>, j: int)
    requires
        tree_ok::<T>(tree),
        tree.plays_within(PLAYS_LIMIT as int),
        tree.root().children matches Some(children) && 0 <= j < children.len(),
    ensures
        reply_chance(tree, j).denom > 0,
{
    assert(node_ok::<T>(tree.nodes, tree.root_id, tree.root_id as int));
    assert(child_ok::<T>(tree.nodes, tree.root_id as int, j));
}

/// Expanding a node grows the tree.
pub proof fn lemma_expansion_grows<T: Game>(
    before: TreeView<T::V>,
    parent: int,
    after: TreeView<T::V>,
)
    requires
        0 <= parent < before.nodes.len(),
        before.nodes[parent].children is None,
        expansion::<T>(before, parent, after),
    ensures
        grown(before, after),
{
    let first = before.nodes.len();
    assert forall|i: int| first <= i < after.nodes.len() implies (#[trigger] after.nodes[i]).plays
        == 0 && after.nodes[i].half_wins == 0 && after.nodes[i].parent is Some by {
        let k = i - first;
        assert(after.nodes[first + k].plays == 0);
    }
}

/// A step of selection that was taken in a tree is one in the tree with
/// another node expanded.
pub proof fn lemma_expansion_keeps_step<T: Game, F: Fn(u64, u64, u64) -> u64>(
    before: TreeView<T::V>,
    parent: int,
    after: TreeView<T::V>,
    c: int,
    potential: F,
)
    requires
        tree_ok::<T>(before),
        0 <= parent < before.nodes.len(),
        before.nodes[parent].children is None,
        expansion::<T>(before, parent, after),
        0 <= c < before.nodes.len(),
        stepped(before.nodes, c, potential),
    ensures
        stepped(after.nodes, c, potential),
{
    let up = before.nodes[c].parent->Some_0 as int;
    let k = choose|k: int| #[trigger]
        descent(before.nodes, up, k, potential) && before.nodes[up].children->Some_0[k] == c;
    let children = before.nodes[up].children->Some_0;
    assert(node_ok::<T>(before.nodes, before.root_id, up));
    assert forall|j: int| 0 <= j < children.len() implies after.nodes[#[trigger] children[j] as int].plays
        == before.nodes[children[j] as int].plays && after.nodes[children[j] as int].half_wins
        == before.nodes[children[j] as int].half_wins by {
        assert(child_ok::<T>(before.nodes, up, j));
    }
    if exists|j: int| 0 <= j < children.len() && before.nodes[#[trigger] children[j] as int].plays == 0 {
        let j = choose|j: int|
            0 <= j < children.len() && before.nodes[#[trigger] children[j] as int].plays == 0;
    } else {
        let scores = choose|scores: Seq<u64>| #[trigger]
            first_largest(scores, k) && scores.len() == children.len() && forall|j: int|
                0 <= j < children.len() ==> call_ensures(
                    potential,
                    (
                        before.nodes[children[j] as int].half_wins,
                        before.nodes[children[j] as int].plays,
                        (before.nodes[up].plays - 1) as u64,
                    ),
                    #[trigger] scores[j],
                );
    }
    assert(descent(after.nodes, up, k, potential));
}

} // verus!
