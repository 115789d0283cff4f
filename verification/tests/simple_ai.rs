use tic_tac_foe::ai::random::random_move;
use tic_tac_foe::ai::simple::SimpleAi;
use tic_tac_foe::ai::{available_moves, Game, Move};
use tic_tac_foe::game::base::Board as SmallBoard;
use tic_tac_foe::game::ultimate::BigBoard;
use tic_tac_foe::game::{Board, Mark};

#[test]
fn test_ai_takes_winning_move() {
    let mut board = SmallBoard::new();
    // Set up board where AI (O) can win
    board.set(0, 0, Some(Mark::O));
    board.set(0, 1, Some(Mark::O));
    // Position (0, 2) would be winning move

    let ai = SimpleAi::new(Mark::O);
    let (row, col) = ai.choose_move(board.clone()).unwrap_base();

    assert_eq!((row, col), (0, 2));
}

#[test]
fn test_ai_blocks_opponent_win() {
    let mut board = SmallBoard::new();
    // Set up board where player (X) is about to win
    board.set(0, 0, Some(Mark::X));
    board.set(0, 1, Some(Mark::X));
    // AI must block at (0, 2)

    let ai = SimpleAi::new(Mark::O);
    let (row, col) = ai.choose_move(board.clone()).unwrap_base();

    assert_eq!((row, col), (0, 2));
}

#[test]
fn ai_takes_the_last_listed_winning_move() {
    // O O .
    // . . .
    // O . O   : (0, 2), (1, 0), (1, 1) and (2, 1) all win; (2, 1) is listed last.
    let mut board = SmallBoard::new();
    board.set_row(0, [Some(Mark::O), Some(Mark::O), None]);
    board.set_row(2, [Some(Mark::O), None, Some(Mark::O)]);
    let ai = SimpleAi::new(Mark::O);
    assert_eq!(ai.choose_move(board), Move::Base(2, 1));
    assert_eq!(ai.get_mark(), Mark::O);
    assert_eq!(ai.ai_mark, Mark::O);
}

#[test]
fn ai_prefers_winning_to_blocking() {
    // X X .
    // O O .
    // . . .
    let mut board = SmallBoard::new();
    board.set_row(0, [Some(Mark::X), Some(Mark::X), None]);
    board.set_row(1, [Some(Mark::O), Some(Mark::O), None]);
    assert_eq!(SimpleAi::new(Mark::O).choose_move(board), Move::Base(1, 2));
    assert_eq!(SimpleAi::new(Mark::X).choose_move(board), Move::Base(0, 2));
}

#[test]
fn ai_moves_somewhere_legal_when_every_move_loses() {
    // X X .
    // . . .
    // X . .   : X wins at (0, 2) or (1, 0), O can stop only one.
    let mut board = SmallBoard::new();
    board.set_row(0, [Some(Mark::X), Some(Mark::X), None]);
    board.set(2, 0, Some(Mark::X));
    let ai = SimpleAi::new(Mark::O);
    for _ in 0..20 {
        let mv = ai.choose_move(board);
        assert!(board.get_possible_moves().contains(&mv));
    }
}

#[test]
fn ai_keeps_off_losing_moves_on_the_board_of_boards() {
    let board = BigBoard::new();
    let ai = SimpleAi::new(Mark::X);
    let mv = ai.choose_move(board);
    assert!(board.get_possible_moves().contains(&mv));
}

#[test]
fn random_move_is_legal() {
    let mut board = SmallBoard::new();
    board.make_move(1, 1, Mark::X);
    for _ in 0..50 {
        let mv = random_move(board);
        assert!(board.get_possible_moves().contains(&mv));
        assert_ne!(mv, Move::Base(1, 1));
    }
    // With one cell left there is one move to pick.
    let mut board = SmallBoard::new();
    for (row, col, mark) in [
        (0, 0, Mark::X),
        (0, 1, Mark::O),
        (0, 2, Mark::X),
        (1, 0, Mark::X),
        (1, 1, Mark::O),
        (1, 2, Mark::O),
        (2, 0, Mark::O),
        (2, 1, Mark::X),
    ] {
        board.make_move(row, col, mark);
    }
    assert_eq!(random_move(board), Move::Base(2, 2));
}

#[test]
fn grid_agent_completes_its_own_line_first() {
    // X X .
    // O O .
    // . . .
    let mut board = Board::new();
    board.set_row(0, [Some(Mark::X), Some(Mark::X), None]);
    board.set_row(1, [Some(Mark::O), Some(Mark::O), None]);
    assert_eq!(
        available_moves(&board),
        vec![(0, 2), (1, 2), (2, 0), (2, 1), (2, 2)]
    );
    let ai = tic_tac_foe::ai::SimpleAi::new(Mark::O);
    assert_eq!(ai.choose_move(board), (1, 2));
    let ai = tic_tac_foe::ai::SimpleAi::new(Mark::X);
    assert_eq!(ai.choose_move(board), (0, 2));
}

#[test]
fn grid_agent_blocks_and_else_moves_anywhere() {
    let mut board = Board::new();
    board.set_col(1, [Some(Mark::X), None, Some(Mark::X)]);
    let ai = tic_tac_foe::ai::SimpleAi::new(Mark::O);
    assert_eq!(ai.choose_move(board), (1, 1));
    assert_eq!(ai.get_mark(), Mark::O);
    let empty = Board::new();
    for _ in 0..20 {
        let (row, col) = ai.choose_move(empty);
        assert!(row < 3 && col < 3);
    }
    // Two cells complete a line for O: the first in row-major order is taken.
    let mut board = Board::new();
    board.set_row(0, [Some(Mark::O), Some(Mark::O), None]);
    board.set_row(1, [Some(Mark::O), None, None]);
    assert_eq!(ai.choose_move(board), (0, 2));
}
