use tic_tac_foe::ai::{Game, Move};
use tic_tac_foe::game::ultimate::BigBoard;
use tic_tac_foe::game::{check_win, GameState, Grid, Mark};

#[test]
fn ultimate_test_check_complete() {
    let mut board = BigBoard::new();

    assert_eq!(board.check_complete(), false);

    // Win the first small board
    board.boards[0].make_move(0, 0, Mark::X);
    board.boards[0].make_move(1, 0, Mark::O);
    board.boards[0].make_move(0, 1, Mark::X);
    board.boards[0].make_move(1, 1, Mark::O);
    board.boards[0].make_move(0, 2, Mark::X);

    assert_eq!(board.boards[0].state, GameState::Won(Mark::X));
    assert_eq!(board.check_complete(), false);

    // Win all other 8 small boards
    for i in 1..9 {
        board.boards[i].make_move(0, 0, Mark::X);
        board.boards[i].make_move(1, 0, Mark::O);
        board.boards[i].make_move(0, 1, Mark::X);
        board.boards[i].make_move(1, 1, Mark::O);
        board.boards[i].make_move(0, 2, Mark::X);
    }

    assert_eq!(board.check_complete(), true);
}

#[test]
fn test_make_move_win_board_board() {
    let mut board = BigBoard::new();

    // Play a couple moves
    board.make_move(0, 0, 0, 0, Mark::X);
    assert_eq!(board.active_board, Some((0, 0)));
    board.make_move(0, 0, 1, 0, Mark::O);
    assert_eq!(board.active_board, Some((1, 0)));
    board.active_board = None;

    // Win board (0, 0)
    board.boards[0].make_move(0, 1, Mark::X);
    board.make_move(0, 0, 0, 2, Mark::X);
    assert_eq!(board.boards[0].state, GameState::Won(Mark::X));
    assert_eq!(board.state, GameState::Playing);
    assert_eq!(board.active_board, Some((0, 2)));
    board.active_board = None;

    // Check that active board gets set to None if target board is complete
    board.make_move(2, 2, 0, 0, Mark::X);
    assert!(board.active_board.is_none());

    // Win board (0, 1)
    board.boards[1].make_move(0, 0, Mark::X);
    board.boards[1].make_move(1, 0, Mark::O);
    board.boards[1].make_move(0, 1, Mark::X);
    board.boards[1].make_move(1, 1, Mark::O);
    board.boards[1].make_move(0, 2, Mark::X);

    // Win board (0, 2) - this should win the big board
    board.boards[2].make_move(0, 0, Mark::X);
    board.boards[2].make_move(1, 0, Mark::O);
    board.boards[2].make_move(0, 1, Mark::X);
    board.boards[2].make_move(1, 1, Mark::O);
    board.make_move(0, 2, 0, 2, Mark::X);

    assert_eq!(board.state, GameState::Won(Mark::X));
}

#[test]
fn test_make_move_draw_board_board() {
    let mut board = BigBoard::new();

    // Create a scenario where all boards are complete but no one wins
    for i in 0..9 {
        // Create a draw in each small board
        board.boards[i].make_move(0, 0, Mark::X);
        board.boards[i].make_move(0, 1, Mark::O);
        board.boards[i].make_move(0, 2, Mark::X);
        board.boards[i].make_move(1, 0, Mark::X);
        board.boards[i].make_move(1, 1, Mark::O);
        board.boards[i].make_move(1, 2, Mark::O);
        board.boards[i].make_move(2, 0, Mark::O);
        board.boards[i].make_move(2, 1, Mark::X);
        if i < 8 {
            board.boards[i].make_move(2, 2, Mark::X);
        }
    }
    board.make_move(2, 2, 2, 2, Mark::X);

    assert_eq!(board.state, GameState::Draw);
}

fn win_small(board: &mut BigBoard, at: usize, mark: Mark) {
    let other = mark.switch();
    board.boards[at].make_move(0, 0, mark);
    board.boards[at].make_move(1, 0, other);
    board.boards[at].make_move(0, 1, mark);
    board.boards[at].make_move(1, 1, other);
    board.boards[at].make_move(0, 2, mark);
}

fn draw_small(board: &mut BigBoard, at: usize) {
    board.boards[at].make_move(0, 0, Mark::X);
    board.boards[at].make_move(0, 1, Mark::O);
    board.boards[at].make_move(0, 2, Mark::X);
    board.boards[at].make_move(1, 0, Mark::X);
    board.boards[at].make_move(1, 1, Mark::O);
    board.boards[at].make_move(1, 2, Mark::O);
    board.boards[at].make_move(2, 0, Mark::O);
    board.boards[at].make_move(2, 1, Mark::X);
    board.boards[at].make_move(2, 2, Mark::X);
}

#[test]
fn active_board_follows_the_cell_played() {
    let mut board = BigBoard::new();
    board.make_move(0, 0, 0, 0, Mark::X);
    assert_eq!(board.active_board, Some((0, 0)));
    board.make_move(0, 0, 1, 0, Mark::O);
    assert_eq!(board.active_board, Some((1, 0)));
    board.make_move(1, 0, 2, 2, Mark::X);
    assert_eq!(board.active_board, Some((2, 2)));
}

#[test]
fn active_board_is_lifted_when_the_target_is_over() {
    let mut board = BigBoard::new();
    draw_small(&mut board, 4);
    board.make_move(0, 0, 1, 1, Mark::X);
    assert_eq!(board.active_board, None);
    // The move that ends a small board sends the next player to that very board: lifted too.
    let mut board = BigBoard::new();
    board.boards[0].make_move(0, 1, Mark::X);
    board.boards[0].make_move(0, 2, Mark::X);
    board.make_move(0, 0, 0, 0, Mark::X);
    assert_eq!(board.boards[0].state, GameState::Won(Mark::X));
    assert_eq!(board.active_board, None);
}

#[test]
fn drawn_small_boards_do_not_make_a_line() {
    let mut board = BigBoard::new();
    draw_small(&mut board, 0);
    draw_small(&mut board, 1);
    win_small(&mut board, 3, Mark::O);
    board.boards[2].make_move(0, 0, Mark::X);
    board.boards[2].make_move(0, 1, Mark::X);
    // X wins board (0, 2); boards (0, 0) and (0, 1) are drawn, so the top row is no line.
    board.make_move(0, 2, 0, 2, Mark::X);
    assert_eq!(board.boards[2].state, GameState::Won(Mark::X));
    assert_eq!(board.state, GameState::Playing);
    assert_eq!(Grid::get(&board, 0, 0), None);
    assert_eq!(Grid::get(&board, 0, 2), Some(Mark::X));
    assert_eq!(Grid::get(&board, 1, 0), Some(Mark::O));
    assert_eq!(check_win(&board), None);
    assert!(!Grid::is_playable(&board, 0, 0));
    assert!(Grid::is_playable(&board, 1, 1));
}

#[test]
fn meta_win_on_last_running_board_is_a_win() {
    let mut board = BigBoard::new();
    win_small(&mut board, 0, Mark::X);
    win_small(&mut board, 1, Mark::X);
    for at in 3..9 {
        draw_small(&mut board, at);
    }
    board.boards[2].make_move(0, 0, Mark::X);
    board.boards[2].make_move(0, 1, Mark::X);
    board.make_move(0, 2, 0, 2, Mark::X);
    assert!(board.check_complete());
    assert_eq!(board.state, GameState::Won(Mark::X));
    assert!(board.get_possible_moves().is_empty());
    assert_eq!(board.score(Mark::X), 1);
    assert_eq!(board.score(Mark::O), -1);
}

#[test]
fn big_board_get_reads_cells() {
    let mut board = BigBoard::new();
    board.make_move(1, 2, 2, 0, Mark::O);
    assert_eq!(BigBoard::get(&mut board, 1, 2, 2, 0), Some(Mark::O));
    assert_eq!(BigBoard::get(&mut board, 1, 2, 0, 0), None);
    assert_eq!(board.get_board(1, 2).get(2, 0), Some(Mark::O));
}

#[test]
fn big_board_legal_moves() {
    let mut board = BigBoard::new();
    let moves = board.get_possible_moves();
    assert_eq!(moves.len(), 81);
    assert_eq!(moves[0], Move::Ultimate(0, 0, 0, 0));
    assert_eq!(moves[10], Move::Ultimate(0, 1, 0, 1));
    assert_eq!(moves[80], Move::Ultimate(2, 2, 2, 2));
    board.play(&Move::Ultimate(0, 0, 1, 1), Mark::X);
    assert_eq!(board.active_board, Some((1, 1)));
    let moves = board.get_possible_moves();
    assert_eq!(moves.len(), 9);
    assert_eq!(moves[0], Move::Ultimate(1, 1, 0, 0));
    board.play(&Move::Ultimate(1, 1, 0, 0), Mark::O);
    let moves = board.get_possible_moves();
    assert_eq!(moves.len(), 8);
    assert_eq!(moves[0], Move::Ultimate(0, 0, 0, 0));
    assert_eq!(moves[4], Move::Ultimate(0, 0, 1, 2));
    // With the constraint lifted, finished boards offer nothing.
    let mut board = BigBoard::new();
    win_small(&mut board, 0, Mark::X);
    assert_eq!(board.get_possible_moves().len(), 72);
}

#[test]
fn big_board_snapshot_and_same_position() {
    let mut board = BigBoard::new();
    board.make_move(0, 0, 1, 1, Mark::X);
    let copy = board.snapshot();
    assert!(copy.same_position(&board));
    board.active_board = None;
    assert!(!copy.same_position(&board));
    board.active_board = Some((1, 1));
    assert!(copy.same_position(&board));
    board.make_move(1, 1, 0, 0, Mark::O);
    assert!(!copy.same_position(&board));
}

#[test]
fn big_board_derived_state_and_consistency() {
    let mut board = BigBoard::new();
    assert!(board.is_consistent());
    board.make_move(1, 1, 0, 0, Mark::X);
    assert!(board.is_consistent());
    win_small(&mut board, 0, Mark::O);
    // The next move is bound to a board that is over.
    assert!(!board.is_consistent());
    board.active_board = None;
    assert!(board.is_consistent());
    win_small(&mut board, 3, Mark::O);
    win_small(&mut board, 6, Mark::O);
    assert_eq!(board.derive_state(), GameState::Won(Mark::O));
    assert!(!board.is_consistent());
    board.state = GameState::Won(Mark::O);
    assert!(board.is_consistent());
}

#[test]
fn moves_keep_the_board_of_boards_consistent() {
    let mut board = BigBoard::new();
    let mut mark = Mark::X;
    while board.state == GameState::Playing {
        assert!(board.is_consistent());
        let moves = board.get_possible_moves();
        assert!(!moves.is_empty());
        let mv = moves[moves.len() / 2];
        let (_, _, cell_row, cell_col) = mv.unwrap_ultimate();
        board.play(&mv, mark);
        if let Some((row, col)) = board.active_board {
            assert_eq!((row, col), (cell_row, cell_col));
            assert!(row < 3 && col < 3);
        }
        mark = mark.switch();
    }
    assert!(board.is_consistent());
    assert!(board.get_possible_moves().is_empty());
}
