use tic_tac_foe::game::base::Board;
use tic_tac_foe::game::{GameState, Mark};
use tic_tac_foe::scenes::{GameMode, GamePlayTTT, GamePlayUTT};
use tic_tac_foe::ui::{
    cell_look, game_status, mode_name, too_small, ttt_instructions, utt_instructions, CellLook,
};
use tic_tac_foe::utils::Position;

#[test]
fn status_names_the_player_or_the_outcome() {
    assert_eq!(game_status(GameState::Playing, Mark::O), "Current Player: O");
    assert_eq!(game_status(GameState::Playing, Mark::X), "Current Player: X");
    assert_eq!(game_status(GameState::Won(Mark::X), Mark::O), "Player X WINS!");
    assert_eq!(game_status(GameState::Won(Mark::O), Mark::O), "Player O WINS!");
    assert_eq!(game_status(GameState::Draw, Mark::X), "DRAW!");
    assert_eq!(mode_name(GameMode::PvE), "Mode: Play vs AI");
    assert_eq!(mode_name(GameMode::LocalPvP), "Mode: Local PvP");
}

#[test]
fn cells_show_marks_and_the_selection() {
    let mut board = Board::new();
    board.make_move(0, 0, Mark::X);
    let selection = Some((Position { row: 1, col: 1 }, Mark::O));
    assert_eq!(cell_look(&board, 0, 0, selection), CellLook::Taken(Mark::X));
    assert_eq!(cell_look(&board, 1, 1, selection), CellLook::Offered(Mark::O));
    assert_eq!(cell_look(&board, 1, 2, selection), CellLook::Blank);
    assert_eq!(cell_look(&board, 1, 1, None), CellLook::Blank);
    // A taken cell shows its mark also where it is selected.
    let selection = Some((Position { row: 0, col: 0 }, Mark::O));
    assert_eq!(cell_look(&board, 0, 0, selection), CellLook::Taken(Mark::X));
    // Once the game is over, the selection is no longer shown.
    board.set_row(2, [Some(Mark::O), Some(Mark::O), Some(Mark::O)]);
    board.check_win();
    let selection = Some((Position { row: 1, col: 1 }, Mark::X));
    assert_eq!(cell_look(&board, 1, 1, selection), CellLook::Blank);
}

#[test]
fn instructions_follow_the_game() {
    let mut game = GamePlayTTT::new(GameMode::PvE);
    assert_eq!(
        ttt_instructions(&game),
        vec![
            "S: Play Second | Arrow Keys: Move | Enter: Place Mark",
            "R: Reset Game | M: Main Menu | Q: Quit"
        ]
    );
    game.player_move();
    assert_eq!(
        ttt_instructions(&game),
        vec!["Arrow Keys: Move | Enter: Place Mark", "R: Reset Game | M: Main Menu | Q: Quit"]
    );
    let mut game = GamePlayTTT::new(GameMode::LocalPvP);
    assert_eq!(ttt_instructions(&game).len(), 2);
    assert_eq!(ttt_instructions(&game)[0], "Arrow Keys: Move | Enter: Place Mark");
    game.board.set_row(0, [Some(Mark::X), Some(Mark::X), Some(Mark::X)]);
    game.board.check_win();
    assert_eq!(ttt_instructions(&game), vec!["R: Reset Game | M: Main Menu | Q: Quit"]);

    let mut game = GamePlayUTT::new(GameMode::LocalPvP);
    assert_eq!(
        utt_instructions(&game),
        vec![
            "Arrow Keys: Select Board | Enter: Confirm Board",
            "R: Reset Game | M: Main Menu | Q: Quit"
        ]
    );
    game.input_enter();
    assert_eq!(
        utt_instructions(&game),
        vec![
            "Arrow Keys: Select Cell | Enter: Place Mark",
            "Esc: Change Board | R: Reset Game | M: Main Menu | Q: Quit"
        ]
    );
    game.input_enter();
    assert_eq!(
        utt_instructions(&game),
        vec!["Arrow Keys: Select Cell | Enter: Place Mark", "R: Reset Game | M: Main Menu | Q: Quit"]
    );
    game.big_board.state = GameState::Draw;
    assert_eq!(utt_instructions(&game), vec!["R: Reset Game | M: Main Menu | Q: Quit"]);
}

#[test]
fn a_terminal_is_too_small_in_either_direction() {
    assert!(!too_small(14, 10, 14, 10));
    assert!(too_small(13, 10, 14, 10));
    assert!(too_small(14, 9, 14, 10));
    assert!(!too_small(80, 24, 43, 20));
}
