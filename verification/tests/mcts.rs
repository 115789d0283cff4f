use tic_tac_foe::ai::mcts::{first_best, Chance, MCTSAi, Node, N_ROUNDS};
use tic_tac_foe::ai::{Game, Move};
use tic_tac_foe::game::base::Board as SmallBoard;
use tic_tac_foe::game::ultimate::BigBoard;
use tic_tac_foe::game::{GameState, Mark};

/// The score of a child for selection: its loss rate plus the exploration bonus, as an
/// integer that orders as the value does.
fn ucb1(half_wins: u64, plays: u64, total_plays: u64) -> u64 {
    let wins = half_wins as f32 / 2.0;
    let plays = plays as f32;
    let total_plays = total_plays as f32;
    let potential =
        (plays - wins) / total_plays + std::f32::consts::SQRT_2 * (total_plays.ln() / plays).sqrt();
    if potential > 0.0 {
        potential.to_bits() as u64
    } else {
        0
    }
}

fn value(chance: Chance) -> f64 {
    chance.numer as f64 / chance.denom as f64
}

fn make_ai(mark: Mark) -> MCTSAi<SmallBoard> {
    MCTSAi::new(SmallBoard::new(), mark)
}

#[test]
fn test_new_creates_single_root_node() {
    let ai = make_ai(Mark::X);
    assert_eq!(ai.node_count(), 1);
    assert_eq!(ai.root_id(), 0);
    assert_eq!(ai.ai_mark, Mark::X);
}

#[test]
fn test_switch_starting_mark_toggles_active_player() {
    let mut ai = make_ai(Mark::O);
    assert_eq!(ai.node(0).active_player, Mark::X);
    ai.switch_starting_mark();
    assert_eq!(ai.node(0).active_player, Mark::O);
}

#[test]
fn test_reset_collapses_tree_to_single_node() {
    let mut ai = make_ai(Mark::X);
    // Expand the tree with a few rounds
    for _ in 0..10 {
        let id = ai.selection(&ucb1);
        let result = ai.simulate(id);
        ai.back_propagate(id, result);
    }
    assert!(ai.node_count() > 1, "Tree should have expanded");
    ai.reset();
    assert_eq!(ai.node_count(), 1);
    assert_eq!(ai.root_id(), 0);
    assert_eq!(ai.node(0).plays, 0);
}

#[test]
fn test_choose_move_returns_valid_move_on_empty_board() {
    let board = SmallBoard::new();
    let mut ai = make_ai(Mark::X);
    let mv = ai.choose_move(&board, &ucb1);
    let (row, col) = mv.unwrap_base();
    assert!(row < 3 && col < 3);
}

#[test]
fn test_winning_chance_unvisited_node_is_zero() {
    let node = Node::new(SmallBoard::new(), Mark::X, None);
    assert_eq!(value(node.winning_chance(Mark::X)), 0.0);
}

#[test]
fn test_winning_chance_active_player_perspective() {
    let mut node = Node::new(SmallBoard::new(), Mark::X, None);
    node.plays = 4;
    node.half_wins = 6;
    // Active player is X, asking for X → wins/plays = 0.75
    assert!((value(node.winning_chance(Mark::X)) - 0.75).abs() < 1e-6);
    // Asking for O (opponent) → 1 - 0.75 = 0.25
    assert!((value(node.winning_chance(Mark::O)) - 0.25).abs() < 1e-6);
}

// --- back_propagate ---

#[test]
fn test_back_propagate_increments_plays() {
    let mut ai = make_ai(Mark::X);
    ai.back_propagate(0, GameState::Draw);
    assert_eq!(ai.node(0).plays, 1);
}

#[test]
fn test_back_propagate_draw_adds_half_win() {
    let mut ai = make_ai(Mark::X);
    ai.back_propagate(0, GameState::Draw);
    assert!((ai.node(0).half_wins as f64 / 2.0 - 0.5).abs() < 1e-6);
}

#[test]
fn test_back_propagate_win_credits_correct_player() {
    let mut ai = make_ai(Mark::X);
    // Root active_player starts as X
    ai.back_propagate(0, GameState::Won(Mark::X));
    assert!((ai.node(0).half_wins as f64 / 2.0 - 1.0).abs() < 1e-6);

    // A win for O should not credit root (active X)
    ai.back_propagate(0, GameState::Won(Mark::O));
    // wins should still be 1.0 (not incremented again)
    assert!((ai.node(0).half_wins as f64 / 2.0 - 1.0).abs() < 1e-6);
}

#[test]
fn new_node_is_fresh_and_holds_the_legal_moves() {
    let mut board = SmallBoard::new();
    board.make_move(1, 1, Mark::X);
    let node = Node::new(board, Mark::O, Some(3));
    assert_eq!(node.parent, Some(3));
    assert!(node.children.is_none());
    assert_eq!(node.active_player, Mark::O);
    assert_eq!(node.plays, 0);
    assert_eq!(node.half_wins, 0);
    let mut listed = node.possible_moves.clone();
    listed.sort_by_key(|mv| mv.unwrap_base());
    assert_eq!(listed, board.get_possible_moves());
}

#[test]
fn reset_yields_one_unexpanded_node() {
    let mut ai = make_ai(Mark::O);
    ai.switch_starting_mark();
    let board = SmallBoard::new();
    ai.choose_move(&board, &ucb1);
    assert!(ai.node_count() > 1);
    assert_ne!(ai.root_id(), 0);
    ai.reset();
    assert_eq!(ai.node_count(), 1);
    assert_eq!(ai.root_id(), 0);
    assert_eq!(ai.node(0).plays, 0);
    assert_eq!(ai.node(0).half_wins, 0);
    assert!(ai.node(0).children.is_none());
    assert!(ai.node(0).parent.is_none());
    assert_eq!(ai.node(0).active_player, Mark::X);
    assert!(ai.node(0).board.same_position(&board));
    assert_eq!(ai.get_mark(), Mark::O);
}

#[test]
fn switching_is_possible_exactly_on_a_single_node() {
    let mut ai = make_ai(Mark::O);
    assert_eq!(ai.node_count(), 1);
    ai.switch_starting_mark();
    ai.switch_starting_mark();
    assert_eq!(ai.node(0).active_player, Mark::X);
    for _ in 0..2 {
        let id = ai.selection(&ucb1);
        let result = ai.simulate(id);
        ai.back_propagate(id, result);
    }
    // The tree has grown: the condition under which the mark may be switched is gone.
    assert_ne!(ai.node_count(), 1);
    assert!(!ai.try_switch_starting_mark());
    assert_eq!(ai.node(0).active_player, Mark::X);
    assert_eq!(ai.node(1).active_player, Mark::O);
}

#[test]
fn try_switch_starting_mark_switches_a_single_node() {
    let mut ai = make_ai(Mark::O);
    assert!(ai.try_switch_starting_mark());
    assert_eq!(ai.node(0).active_player, Mark::O);
    // A first selection picks the root without a playout and leaves the tree alone.
    assert_eq!(ai.selection(&ucb1), 0);
    assert_eq!(ai.node_count(), 1);
    assert!(ai.node(0).children.is_none());
    assert!(ai.try_switch_starting_mark());
    assert_eq!(ai.node(0).active_player, Mark::X);
}

#[test]
fn selection_expands_only_visited_nodes_on_its_way() {
    let mut ai = make_ai(Mark::X);
    for round in 0..30 {
        let before: Vec<bool> = (0..ai.node_count()).map(|i| ai.node(i).children.is_some()).collect();
        let plays: Vec<u64> = (0..ai.node_count()).map(|i| ai.node(i).plays).collect();
        let id = ai.selection(&ucb1);
        // The way up from the picked node.
        let mut way = vec![id];
        while let Some(parent) = ai.node(*way.last().unwrap()).parent {
            way.push(parent);
        }
        for i in 0..before.len() {
            if !before[i] && ai.node(i).children.is_some() {
                assert!(plays[i] > 0, "round {round}: node {i} was expanded without a playout");
                assert!(way.contains(&i));
            }
            assert_eq!(ai.node(i).plays, plays[i]);
        }
        for i in before.len()..ai.node_count() {
            assert!(ai.node(i).children.is_none());
            assert_eq!(ai.node(i).plays, 0);
        }
        let result = ai.simulate(id);
        ai.back_propagate(id, result);
    }
}

#[test]
fn back_propagate_credits_the_whole_path() {
    let mut ai = make_ai(Mark::X);
    ai.make_children(0);
    assert_eq!(ai.node_count(), 10);
    ai.make_children(1);
    let grandchild = ai.node(1).children.as_ref().unwrap()[0];
    assert_eq!(ai.node(grandchild).parent, Some(1));
    assert_eq!(ai.node(1).parent, Some(0));
    // X moves at the root and at the grandchild, O at the child.
    ai.back_propagate(grandchild, GameState::Won(Mark::X));
    for id in [0, 1, grandchild] {
        assert_eq!(ai.node(id).plays, 1);
    }
    assert_eq!(ai.node(0).half_wins, 2);
    assert_eq!(ai.node(1).half_wins, 0);
    assert_eq!(ai.node(grandchild).half_wins, 2);
    ai.back_propagate(grandchild, GameState::Draw);
    ai.back_propagate(1, GameState::Won(Mark::O));
    assert_eq!((ai.node(0).plays, ai.node(0).half_wins), (3, 3));
    assert_eq!((ai.node(1).plays, ai.node(1).half_wins), (3, 3));
    assert_eq!((ai.node(grandchild).plays, ai.node(grandchild).half_wins), (2, 3));
    // Nodes off the path are left alone.
    for id in 2..ai.node_count() {
        if id != grandchild {
            assert_eq!(ai.node(id).plays, 0);
            assert_eq!(ai.node(id).half_wins, 0);
        }
    }
    assert_eq!(ai.most_plays(), 3);
}

#[test]
fn make_children_follows_the_order_of_the_moves() {
    let mut ai = make_ai(Mark::X);
    ai.make_children(0);
    let root = ai.node(0);
    let children = root.children.as_ref().unwrap();
    assert_eq!(children, &(1..10).collect::<Vec<usize>>());
    for (k, child_id) in children.iter().enumerate() {
        let child = ai.node(*child_id);
        let mut expected = SmallBoard::new();
        expected.play(&root.possible_moves[k], Mark::X);
        assert!(child.board.same_position(&expected));
        assert_eq!(child.active_player, Mark::O);
        assert_eq!(child.parent, Some(0));
        assert_eq!(child.possible_moves.len(), 8);
    }
}

#[test]
fn selection_picks_unvisited_nodes_first() {
    let mut ai = make_ai(Mark::X);
    // The root has no playout: it is picked, and not expanded.
    assert_eq!(ai.selection(&ucb1), 0);
    assert_eq!(ai.node_count(), 1);
    ai.back_propagate(0, GameState::Draw);
    // Now the root is expanded, and its children are picked in their order.
    for expected in 1..10 {
        let id = ai.selection(&ucb1);
        assert_eq!(id, expected);
        ai.back_propagate(id, GameState::Draw);
    }
    // Every child has one playout and the same score: selection goes down to the first.
    let id = ai.selection(&ucb1);
    assert_eq!(ai.node(id).parent, Some(1));
    assert_eq!(id, ai.node(1).children.as_ref().unwrap()[0]);
}

#[test]
fn selection_goes_to_the_highest_score() {
    let mut ai = make_ai(Mark::X);
    ai.back_propagate(0, GameState::Draw);
    for _ in 1..10 {
        let id = ai.selection(&ucb1);
        // Child 4 loses its playout, the others win theirs: the loss rate favours child 4.
        let result = if id == 4 { GameState::Won(Mark::X) } else { GameState::Won(Mark::O) };
        ai.back_propagate(id, result);
    }
    let id = ai.selection(&ucb1);
    assert_eq!(ai.node(id).parent, Some(4));
    // With a score of the caller's, the choice is the caller's.
    let id = ai.selection(&|_half_wins: u64, plays: u64, _total: u64| 100 - plays);
    assert_eq!(ai.node(id).parent, Some(1));
}

#[test]
fn first_best_is_the_first_largest() {
    assert_eq!(first_best(&vec![3]), 0);
    assert_eq!(first_best(&vec![1, 7, 7, 2]), 1);
    assert_eq!(first_best(&vec![5, 5, 5]), 0);
    assert_eq!(first_best(&vec![0, 1, 2, 9]), 3);
}

#[test]
fn best_move_index_takes_the_first_highest_chance() {
    let mut ai = make_ai(Mark::X);
    ai.make_children(0);
    // No child has a playout: every chance is 0, the first child is the best reply.
    assert_eq!(ai.best_move_index(), 0);
    // At the children O moves: a win for X there counts for the engine.
    ai.back_propagate(3, GameState::Won(Mark::X));
    ai.back_propagate(5, GameState::Won(Mark::X));
    ai.back_propagate(2, GameState::Draw);
    assert_eq!(ai.best_move_index(), 2);
    ai.back_propagate(3, GameState::Won(Mark::O));
    assert_eq!(ai.best_move_index(), 4);
}

#[test]
fn chance_orders_as_the_fraction_does() {
    let half = Chance { numer: 1, denom: 2 };
    let two_thirds = Chance { numer: 4, denom: 6 };
    assert!(two_thirds.is_above(half));
    assert!(!half.is_above(two_thirds));
    assert!(!half.is_above(Chance { numer: 3, denom: 6 }));
    let large = Chance { numer: u64::MAX, denom: u64::MAX };
    assert!(large.is_above(Chance { numer: u64::MAX - 1, denom: u64::MAX }));
}

#[test]
fn simulate_plays_the_game_out() {
    let mut ai = make_ai(Mark::X);
    for _ in 0..20 {
        let result = ai.simulate(0);
        assert_ne!(result, GameState::Playing);
    }
    assert_eq!(ai.node_count(), 1);
    assert_eq!(ai.node(0).plays, 0);
    // One move from the end, the playout is decided.
    let mut board = SmallBoard::new();
    for (row, col, mark) in [
        (0, 0, Mark::X),
        (0, 1, Mark::O),
        (0, 2, Mark::X),
        (1, 0, Mark::X),
        (1, 1, Mark::O),
        (1, 2, Mark::O),
        (2, 0, Mark::O),
        (2, 1, Mark::X),
    ] {
        board.make_move(row, col, mark);
    }
    let mut ai = MCTSAi::new(board, Mark::X);
    assert_eq!(ai.simulate(0), GameState::Draw);
}

#[test]
fn find_state_finds_the_root_and_its_children() {
    let mut ai = make_ai(Mark::X);
    let empty = SmallBoard::new();
    assert_eq!(ai.find_state(&empty), 0);
    assert_eq!(ai.node_count(), 1);
    let mut next = SmallBoard::new();
    next.make_move(2, 1, Mark::X);
    let id = ai.find_state(&next);
    assert_eq!(ai.node_count(), 10);
    assert!(ai.node(id).board.same_position(&next));
    assert_eq!(ai.node(id).parent, Some(0));
    assert_eq!(ai.try_find_state(&next), Some(id));
    // Two moves away, or a move of the wrong mark: not tracked.
    let mut far = next;
    far.make_move(0, 0, Mark::O);
    assert_eq!(ai.try_find_state(&far), None);
    let mut wrong = SmallBoard::new();
    wrong.make_move(2, 1, Mark::O);
    assert_eq!(ai.try_find_state(&wrong), None);
}

#[test]
fn reroot_cuts_the_new_root_off() {
    let mut ai = make_ai(Mark::X);
    ai.make_children(0);
    ai.back_propagate(4, GameState::Draw);
    ai.reroot(4);
    assert_eq!(ai.root_id(), 4);
    assert!(ai.node(4).parent.is_none());
    assert_eq!(ai.node(4).plays, 1);
    // A playout below the new root stops there.
    ai.make_children(4);
    let below = ai.node(4).children.as_ref().unwrap()[2];
    ai.back_propagate(below, GameState::Draw);
    assert_eq!(ai.node(4).plays, 2);
    assert_eq!(ai.node(0).plays, 1);
}

#[test]
fn choose_move_advances_the_root_and_follows_the_game() {
    let mut board = SmallBoard::new();
    let mut ai = make_ai(Mark::X);
    let mut mark = Mark::X;
    while board.get_state() == GameState::Playing {
        let mv = if mark == Mark::X {
            let legal = board.get_possible_moves();
            let mv = ai.choose_move(&board, &ucb1);
            assert!(legal.contains(&mv));
            let mut expected = board;
            expected.play(&mv, mark);
            assert!(ai.node(ai.root_id()).board.same_position(&expected));
            assert!(ai.node(ai.root_id()).parent.is_none());
            assert_eq!(ai.node(ai.root_id()).active_player, Mark::O);
            mv
        } else {
            board.get_possible_moves()[0]
        };
        board.play(&mv, mark);
        mark = mark.switch();
    }
    assert!(board.get_possible_moves().is_empty());
}

#[test]
fn choose_move_takes_the_winning_move() {
    // X X .
    // O O .
    // . . .
    let mut board = SmallBoard::new();
    board.make_move(0, 0, Mark::X);
    board.make_move(1, 0, Mark::O);
    board.make_move(0, 1, Mark::X);
    board.make_move(1, 1, Mark::O);
    let mut ai = MCTSAi::new(board, Mark::X);
    assert_eq!(ai.choose_move(&board, &ucb1), Move::Base(0, 2));
}

#[test]
fn try_choose_move_says_when_it_cannot_decide() {
    let mut ai = make_ai(Mark::X);
    let mut far = SmallBoard::new();
    far.make_move(0, 0, Mark::X);
    far.make_move(1, 1, Mark::O);
    assert_eq!(ai.try_choose_move(&far, &ucb1), None);
    assert_eq!(ai.root_id(), 0);
    // A finished game has no move to decide on.
    let mut over = SmallBoard::new();
    over.set_row(0, [Some(Mark::X), Some(Mark::X), Some(Mark::X)]);
    over.check_win();
    let mut done = MCTSAi::new(over, Mark::O);
    assert_eq!(done.try_choose_move(&over, &ucb1), None);
    let mv = ai.try_choose_move(&SmallBoard::new(), &ucb1);
    assert!(mv.is_some());
    assert_eq!(ai.most_plays(), N_ROUNDS);
}

#[test]
fn engine_plays_the_board_of_boards() {
    let board = BigBoard::new();
    let mut ai = MCTSAi::new(board, Mark::X);
    let mv = ai.choose_move(&board, &|half_wins: u64, plays: u64, total: u64| {
        ucb1(half_wins, plays, total)
    });
    let (board_row, board_col, row, col) = mv.unwrap_ultimate();
    assert!(board_row < 3 && board_col < 3 && row < 3 && col < 3);
    assert_eq!(ai.node(0).plays, N_ROUNDS);
    let mut next = board;
    next.play(&mv, Mark::X);
    assert!(ai.node(ai.root_id()).board.same_position(&next));
}

#[test]
fn new_nodes_get_their_moves_in_an_order_drawn_by_chance() {
    let board = SmallBoard::new();
    let listed = board.get_possible_moves();
    let mut reordered = false;
    for _ in 0..50 {
        let node = Node::new(board, Mark::X, None);
        assert_eq!(node.possible_moves.len(), listed.len());
        assert!(listed.iter().all(|mv| node.possible_moves.contains(mv)));
        reordered = reordered || node.possible_moves != listed;
    }
    assert!(reordered);
}
