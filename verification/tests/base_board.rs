use tic_tac_foe::ai::{Game, Move};
use tic_tac_foe::game::base::Board;
use tic_tac_foe::game::{check_win, GameState, Grid, Mark};

#[test]
fn base_test_check_row() {
    let mut board = Board::new();
    assert_eq!(board.check_row(0), None);

    board.set_row(0, [Some(Mark::X), Some(Mark::X), Some(Mark::X)]);
    assert_eq!(board.check_row(0), Some(Mark::X));

    board.set_row(1, [Some(Mark::O), Some(Mark::O), Some(Mark::O)]);
    assert_eq!(board.check_row(1), Some(Mark::O));

    board.set_row(0, [Some(Mark::X), Some(Mark::O), Some(Mark::X)]);
    assert_eq!(board.check_row(0), None);

    board.set(0, 1, Some(Mark::X));
    assert_eq!(board.check_row(0), Some(Mark::X));

    board.set_row(0, [Some(Mark::X), Some(Mark::O), None]);
    assert_eq!(board.check_row(0), None);
}

#[test]
fn base_test_check_col() {
    let mut board = Board::new();
    assert_eq!(board.check_col(0), None);

    board.set_col(0, [Some(Mark::X), Some(Mark::X), Some(Mark::X)]);
    assert_eq!(board.check_col(0), Some(Mark::X));

    board.set_col(1, [Some(Mark::O), Some(Mark::O), Some(Mark::O)]);
    assert_eq!(board.check_col(1), Some(Mark::O));

    board.set_col(0, [Some(Mark::X), Some(Mark::O), Some(Mark::X)]);
    assert_eq!(board.check_col(0), None);

    board.set(1, 0, Some(Mark::X));
    assert_eq!(board.check_col(0), Some(Mark::X));

    board.set_col(0, [Some(Mark::X), Some(Mark::O), None]);
    assert_eq!(board.check_col(0), None);
}

#[test]
fn base_test_check_diag() {
    let mut board = Board::new();
    assert_eq!(board.check_diag_dexter(), None);
    assert_eq!(board.check_diag_sinister(), None);

    board.set_row(0, [Some(Mark::X), Some(Mark::O), Some(Mark::O)]);
    board.set_row(1, [Some(Mark::X), None, Some(Mark::X)]);
    board.set_row(2, [Some(Mark::O), Some(Mark::X), Some(Mark::X)]);
    assert_eq!(board.check_diag_dexter(), None);
    assert_eq!(board.check_diag_sinister(), None);

    board.set(1, 1, Some(Mark::X));
    assert_eq!(board.check_diag_dexter(), Some(Mark::X));
    assert_eq!(board.check_diag_sinister(), None);

    board.set(1, 1, Some(Mark::O));
    assert_eq!(board.check_diag_dexter(), None);
    assert_eq!(board.check_diag_sinister(), Some(Mark::O));
}

#[test]
fn test_check_win() {
    let mut board = Board::new();
    assert_eq!(board.check_diag_dexter(), None);
    assert_eq!(board.check_diag_sinister(), None);
    assert_eq!(board.state, GameState::Playing);

    board.set_row(0, [Some(Mark::X), Some(Mark::O), Some(Mark::O)]);
    board.set_row(1, [Some(Mark::X), None, Some(Mark::X)]);
    board.set_row(2, [None, Some(Mark::O), None]);
    assert_eq!(board.check_win(), None);
    assert_eq!(board.state, GameState::Playing);

    board.set(1, 1, Some(Mark::X));
    assert_eq!(board.check_win(), Some(Mark::X));
    assert_eq!(board.state, GameState::Won(Mark::X));

    board.set(1, 1, Some(Mark::O));
    assert_eq!(board.check_win(), Some(Mark::O));
    assert_eq!(board.state, GameState::Won(Mark::O));

    board.set(0, 1, Some(Mark::X));
    assert_eq!(board.check_win(), None);
    board.set(2, 0, Some(Mark::O));
    assert_eq!(board.check_win(), Some(Mark::O));
}

#[test]
fn test_check_draw() {
    let mut board = Board::new();
    assert_eq!(board.check_complete(), false);

    board.set_row(0, [Some(Mark::X), Some(Mark::O), Some(Mark::O)]);
    board.set_row(1, [Some(Mark::X), None, Some(Mark::X)]);
    board.set_row(2, [Some(Mark::O), Some(Mark::O), Some(Mark::X)]);
    assert_eq!(board.check_complete(), false);
    assert_eq!(board.state, GameState::Playing);

    board.set(1, 1, Some(Mark::X));
    assert_eq!(board.check_complete(), true);
    assert_eq!(board.state, GameState::Draw);
}

#[test]
fn test_make_move_win() {
    let mut board = Board::new();

    // Create a winning row for X
    board.make_move(0, 0, Mark::X);
    board.make_move(1, 0, Mark::O);
    board.make_move(0, 1, Mark::X);
    board.make_move(1, 1, Mark::O);
    board.make_move(0, 2, Mark::X);

    assert_eq!(board.state, GameState::Won(Mark::X));
}

#[test]
fn test_make_move_draw() {
    let mut board = Board::new();

    // Create a draw scenario
    board.make_move(0, 0, Mark::X);
    board.make_move(0, 1, Mark::O);
    board.make_move(0, 2, Mark::X);
    board.make_move(1, 0, Mark::X);
    board.make_move(1, 1, Mark::O);
    board.make_move(1, 2, Mark::O);
    board.make_move(2, 0, Mark::O);
    board.make_move(2, 1, Mark::X);
    board.make_move(2, 2, Mark::X);

    assert_eq!(board.state, GameState::Draw);
}

#[test]
fn make_move_win_on_last_cell_is_a_win() {
    // X O X / O X O / O X _ : the last cell completes the dexter diagonal.
    let mut board = Board::new();
    board.make_move(0, 0, Mark::X);
    board.make_move(0, 1, Mark::O);
    board.make_move(0, 2, Mark::X);
    board.make_move(1, 0, Mark::O);
    board.make_move(1, 1, Mark::X);
    board.make_move(1, 2, Mark::O);
    board.make_move(2, 1, Mark::X);
    board.make_move(2, 0, Mark::O);
    assert_eq!(board.state, GameState::Playing);
    board.make_move(2, 2, Mark::X);
    assert_eq!(board.state, GameState::Won(Mark::X));
}

#[test]
fn state_only_leaves_playing() {
    let moves = [(1, 1), (0, 0), (0, 2), (2, 0), (1, 0), (1, 2), (0, 1), (2, 1), (2, 2)];
    let mut board = Board::new();
    let mut mark = Mark::X;
    for (row, col) in moves {
        assert_eq!(board.state, GameState::Playing);
        assert!(!board.get_possible_moves().is_empty());
        board.make_move(row, col, mark);
        mark = mark.switch();
    }
    assert_eq!(board.state, GameState::Draw);
    assert!(board.get_possible_moves().is_empty());
}

#[test]
fn legal_moves_are_the_empty_cells_in_row_major_order() {
    let mut board = Board::new();
    let all: Vec<Move> = (0..9).map(|i| Move::Base(i / 3, i % 3)).collect();
    assert_eq!(board.get_possible_moves(), all);
    board.make_move(0, 1, Mark::X);
    board.make_move(2, 2, Mark::O);
    assert_eq!(
        board.get_possible_moves(),
        vec![
            Move::Base(0, 0),
            Move::Base(0, 2),
            Move::Base(1, 0),
            Move::Base(1, 1),
            Move::Base(1, 2),
            Move::Base(2, 0),
            Move::Base(2, 1),
        ]
    );
}

#[test]
fn legal_moves_empty_once_won() {
    let mut board = Board::new();
    board.make_move(0, 0, Mark::X);
    board.make_move(1, 0, Mark::O);
    board.make_move(0, 1, Mark::X);
    board.make_move(1, 1, Mark::O);
    assert!(!board.get_possible_moves().is_empty());
    board.make_move(0, 2, Mark::X);
    assert_eq!(board.get_state(), GameState::Won(Mark::X));
    assert!(board.get_possible_moves().is_empty());
}

#[test]
fn score_counts_for_the_asking_mark() {
    let mut board = Board::new();
    assert_eq!(board.score(Mark::X), 0);
    board.play(&Move::Base(0, 0), Mark::O);
    board.play(&Move::Base(1, 1), Mark::O);
    assert_eq!(board.score(Mark::O), 0);
    board.play(&Move::Base(2, 2), Mark::O);
    assert_eq!(board.score(Mark::O), 1);
    assert_eq!(board.score(Mark::X), -1);
}

#[test]
fn snapshot_and_same_position() {
    let mut board = Board::new();
    board.make_move(1, 1, Mark::X);
    let copy = board.snapshot();
    assert!(copy.same_position(&board));
    board.make_move(0, 0, Mark::O);
    assert!(!copy.same_position(&board));
    let mut other = Board::new();
    other.set(1, 1, Some(Mark::X));
    assert!(copy.same_position(&other));
    other.state = GameState::Draw;
    assert!(!copy.same_position(&other));
}

#[test]
fn generic_check_win_reads_a_board_through_its_grid() {
    let mut board = Board::new();
    assert_eq!(check_win(&board), None);
    board.set_col(2, [Some(Mark::O), Some(Mark::O), Some(Mark::O)]);
    assert_eq!(check_win(&board), Some(Mark::O));
    assert!(Grid::is_playable(&board, 0, 0));
    assert!(!Grid::is_playable(&board, 0, 2));
    assert_eq!(Grid::get(&board, 1, 2), Some(Mark::O));
}

#[test]
fn move_unwraps_to_its_coordinates() {
    assert_eq!(Move::Base(2, 1).unwrap_base(), (2, 1));
    assert_eq!(Move::Ultimate(0, 1, 2, 0).unwrap_ultimate(), (0, 1, 2, 0));
}

#[test]
fn board_text_shows_marks_and_offsets() {
    let mut board = Board::new();
    board.make_move(0, 1, Mark::O);
    board.make_move(2, 0, Mark::X);
    assert_eq!(
        board.to_string(),
        " 0 | O | 2 \n-----------\n 3 | 4 | 5 \n-----------\n X | 7 | 8 "
    );
}

#[test]
fn derived_state_and_consistency() {
    let mut board = Board::new();
    assert!(board.is_consistent());
    board.set_row(1, [Some(Mark::O), Some(Mark::O), Some(Mark::O)]);
    assert_eq!(board.derive_state(), GameState::Won(Mark::O));
    assert_eq!(board.state, GameState::Playing);
    assert!(!board.is_consistent());
    board.check_win();
    assert!(board.is_consistent());
}

#[test]
fn a_finished_board_keeps_its_outcome() {
    let mut board = Board::new();
    board.make_move(0, 0, Mark::X);
    board.make_move(1, 0, Mark::O);
    board.make_move(0, 1, Mark::X);
    board.make_move(1, 1, Mark::O);
    board.make_move(0, 2, Mark::X);
    assert_eq!(board.state, GameState::Won(Mark::X));
    // Nothing is left to play, so nothing can change the outcome.
    assert!(board.get_possible_moves().is_empty());
    assert!(board.is_consistent());
    assert_eq!(board.derive_state(), GameState::Won(Mark::X));
}
