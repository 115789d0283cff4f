use tic_tac_foe::app::App;
use tic_tac_foe::cli::{ask_move, check_move, Reply};
use tic_tac_foe::game::{Board, GameState, Mark};

#[test]
fn app_starts_with_an_empty_grid() {
    let app = App::new();
    assert_eq!(app.active_player, Mark::X);
    assert_eq!(app.state, GameState::Playing);
    assert_eq!((app.selected_row, app.selected_col), (0, 0));
    assert!(!app.should_quit);
    assert!(app.ai.is_some());
    assert!(app.board.get(1, 1).is_none());
}

#[test]
fn app_make_move_marks_and_gets_an_answer() {
    let mut app = App::new();
    app.selected_row = 1;
    app.selected_col = 1;
    app.make_move();
    assert_eq!(app.board.get(1, 1), Some(Mark::X));
    let answers = (0..9).filter(|i| app.board.get(i / 3, i % 3) == Some(Mark::O)).count();
    assert_eq!(answers, 1);
    assert_eq!(app.active_player, Mark::X);
    assert_eq!(app.state, GameState::Playing);
    let first_empty = (0..9).find(|i| app.board.get(i / 3, i % 3).is_none()).unwrap();
    assert_eq!((app.selected_row, app.selected_col), (first_empty / 3, first_empty % 3));
}

#[test]
fn app_make_move_leaves_a_taken_cell_alone() {
    let mut app = App::new();
    app.board.set(0, 0, Some(Mark::O));
    app.make_move();
    assert_eq!(app.board.get(0, 0), Some(Mark::O));
    assert_eq!(app.active_player, Mark::X);
    assert!((1..9).all(|i| app.board.get(i / 3, i % 3).is_none()));
}

#[test]
fn app_make_move_sees_the_win() {
    let mut app = App::new();
    app.board.set_row(0, [Some(Mark::X), Some(Mark::X), None]);
    app.selected_col = 2;
    app.make_move();
    assert_eq!(app.state, GameState::Won(Mark::X));
    assert_eq!(app.active_player, Mark::X);
    assert_eq!((app.selected_row, app.selected_col), (0, 2));
    // No answer follows the winning mark, and nothing happens once the game is over.
    assert!((3..9).all(|i| app.board.get(i / 3, i % 3).is_none()));
    app.selected_row = 2;
    app.make_move();
    assert!(app.board.get(2, 2).is_none());
}

#[test]
fn app_make_move_sees_the_agent_win() {
    // O O .
    // X X .
    // . . .   : X marks (2, 2), the agent completes its row.
    let mut app = App::new();
    app.board.set_row(0, [Some(Mark::O), Some(Mark::O), None]);
    app.board.set_row(1, [Some(Mark::X), Some(Mark::X), None]);
    app.selected_row = 2;
    app.selected_col = 2;
    app.make_move();
    assert_eq!(app.board.get(0, 2), Some(Mark::O));
    assert_eq!(app.state, GameState::Won(Mark::O));
    assert_eq!(app.active_player, Mark::O);
    assert_eq!((app.selected_row, app.selected_col), (2, 2));
}

#[test]
fn app_make_move_sees_the_draw() {
    // X O X
    // X O O
    // O X .
    let mut app = App::new();
    app.board.set_row(0, [Some(Mark::X), Some(Mark::O), Some(Mark::X)]);
    app.board.set_row(1, [Some(Mark::X), Some(Mark::O), Some(Mark::O)]);
    app.board.set_row(2, [Some(Mark::O), Some(Mark::X), None]);
    app.selected_row = 2;
    app.selected_col = 2;
    app.make_move();
    assert_eq!(app.state, GameState::Draw);
}

#[test]
fn app_selection_moves_past_taken_cells() {
    // X . .
    // O . .
    // . . .
    let mut app = App::new();
    app.board.set(0, 0, Some(Mark::X));
    app.board.set(1, 0, Some(Mark::O));
    app.selected_col = 1;
    app.input_left();
    assert_eq!((app.selected_row, app.selected_col), (2, 0));
    // From the middle row, a column is tried upwards on the way left...
    app.board.set(2, 0, None);
    app.board.set(0, 0, None);
    app.selected_row = 1;
    app.selected_col = 1;
    app.input_left();
    assert_eq!((app.selected_row, app.selected_col), (0, 0));
    // ... and downwards on the way right.
    app.selected_row = 1;
    app.selected_col = 2;
    app.input_right();
    assert_eq!((app.selected_row, app.selected_col), (2, 0));
    // From the middle column, a row is tried to the left on the way up...
    let mut app = App::new();
    app.board.set(0, 1, Some(Mark::X));
    app.selected_row = 1;
    app.selected_col = 1;
    app.input_up();
    assert_eq!((app.selected_row, app.selected_col), (0, 0));
    // ... and to the right on the way down.
    app.board.set(2, 1, Some(Mark::X));
    app.selected_row = 1;
    app.selected_col = 1;
    app.input_down();
    assert_eq!((app.selected_row, app.selected_col), (2, 2));
}

#[test]
fn app_reset_and_quit() {
    let mut app = App::new();
    app.make_move();
    app.quit();
    assert!(app.should_quit);
    app.reset();
    assert!((0..9).all(|i| app.board.get(i / 3, i % 3).is_none()));
    assert_eq!(app.active_player, Mark::X);
    assert_eq!(app.state, GameState::Playing);
    assert_eq!((app.selected_row, app.selected_col), (0, 0));
    assert!(app.should_quit);
}

#[test]
fn check_move_answers_the_number() {
    let mut board = Board::new();
    board.set(1, 2, Some(Mark::X));
    assert_eq!(check_move(&board, Some(0)), Reply::Chosen(0, 0));
    assert_eq!(check_move(&board, Some(7)), Reply::Chosen(2, 1));
    assert_eq!(check_move(&board, Some(8)), Reply::Chosen(2, 2));
    assert_eq!(check_move(&board, Some(5)), Reply::Occupied(5));
    assert_eq!(check_move(&board, Some(9)), Reply::Invalid);
    assert_eq!(check_move(&board, None), Reply::Invalid);
}

#[test]
fn ask_move_reads_the_line() {
    let mut board = Board::new();
    board.set(0, 1, Some(Mark::O));
    assert_eq!(ask_move(&board, " 4\n"), Reply::Chosen(1, 1));
    assert_eq!(ask_move(&board, "1\n"), Reply::Occupied(1));
    assert_eq!(ask_move(&board, "+8"), Reply::Chosen(2, 2));
    assert_eq!(ask_move(&board, "12"), Reply::Invalid);
    assert_eq!(ask_move(&board, "four"), Reply::Invalid);
    assert_eq!(ask_move(&board, "-1"), Reply::Invalid);
    assert_eq!(ask_move(&board, ""), Reply::Invalid);
    assert_eq!(ask_move(&board, "4 4"), Reply::Invalid);
}
