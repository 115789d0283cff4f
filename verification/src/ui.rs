//! What the screen says: the words and signs that a scene is drawn with.
//! Colours and layout are the drawing program's own.

use vstd::prelude::*;
use vstd::string::StringExecFns;
use crate::ai::Game;
use crate::game::base::{Board, BoardView};
use crate::game::{GameState, Mark};
use crate::scenes::{GameMode, GamePlayTTT, GamePlayUTT};
use crate::utils::Position;

verus! {

/// The line above the board: whose turn it is, or how the game ended.
pub open spec fn status_text(game_state: GameState, current_player: Mark) -> Seq<char> {
    match game_state {
        GameState::Playing => "Current Player: "@ + current_player.text(),
        GameState::Won(Mark::X) => "Player X WINS!"@,
        GameState::Won(Mark::O) => "Player O WINS!"@,
        GameState::Draw => "DRAW!"@,
    }
}

/// The line above the board: whose turn it is, or how the game ended.
pub fn game_status(game_state: GameState, current_player: Mark) -> (status: String)
    ensures
        status@ == status_text(game_state, current_player),
{
    match game_state {
        GameState::Playing => {
            let mut status = String::from_str("Current Player: ");
            let player = current_player.to_string();
            status.append(player.as_str());
            status
        },
        GameState::Won(Mark::X) => String::from_str("Player X WINS!"),
        GameState::Won(Mark::O) => String::from_str("Player O WINS!"),
        GameState::Draw => String::from_str("DRAW!"),
    }
}

/// The line below the board that names the mode.
pub fn mode_name(mode: GameMode) -> (name: &'static str)
    ensures
        name@ == match mode {
            GameMode::PvE => "Mode: Play vs AI"@,
            GameMode::LocalPvP => "Mode: Local PvP"@,
        },
{
    match mode {
        GameMode::PvE => "Mode: Play vs AI",
        GameMode::LocalPvP => "Mode: Local PvP",
    }
}

/// What a cell of a board shows.
#[derive(Copy, Clone, Debug, PartialEq, Eq, Structural)]
pub enum CellLook {
    /// The mark that stands in the cell.
    Taken(Mark),
    /// The mark of the player to move, on the empty cell that is selected.
    Offered(Mark),
    /// Nothing.
    Blank,
}

/// What the cell `(row, col)` of `board` shows, where `selection` is the
/// selected cell and the mark of the player to move, if a cell of this board
/// is selected. The selection is shown on an empty cell while the board is
/// running.
pub open spec fn look_of(
    board: BoardView,
    row: int,
    col: int,
    selection: Option<(Position, Mark)>,
) -> CellLook {
    match board.cells[row * 3 + col] {
        Some(mark) => CellLook::Taken(mark),
        None => match selection {
            Some((position, mark)) => if row == position.row && col == position.col && board.state
                == GameState::Playing {
                CellLook::Offered(mark)
            } else {
                CellLook::Blank
            },
            None => CellLook::Blank,
        },
    }
}

/// What the cell `(row, col)` of `board` shows.
pub fn cell_look(board: &Board, row: usize, col: usize, selection: Option<(Position, Mark)>) -> (look:
    CellLook)
    requires
        row < 3,
        col < 3,
    ensures
        look == look_of(board@, row as int, col as int, selection),
{
    match board.get(row, col) {
        Some(mark) => CellLook::Taken(mark),
        None => {
            if let Some((position, mark)) = selection {
                if row == position.row && col == position.col && board.get_state()
                    == GameState::Playing {
                    CellLook::Offered(mark)
                } else {
                    CellLook::Blank
                }
            } else {
                CellLook::Blank
            }
        },
    }
}

/// The keys that the classic game answers to: while the game runs, the keys
/// that move the selection and place a mark, with the offer to let the agent
/// open where no move has been made against it; and always the keys that
/// start again or leave.
pub open spec fn ttt_help(state: GameState, turn: u32, mode: GameMode) -> Seq<Seq<char>> {
    if state == GameState::Playing {
        if turn == 0 && mode == GameMode::PvE {
            seq![
                "S: Play Second | Arrow Keys: Move | Enter: Place Mark"@,
                "R: Reset Game | M: Main Menu | Q: Quit"@,
            ]
        } else {
            seq!["Arrow Keys: Move | Enter: Place Mark"@, "R: Reset Game | M: Main Menu | Q: Quit"@]
        }
    } else {
        seq!["R: Reset Game | M: Main Menu | Q: Quit"@]
    }
}

/// The views of the lines of `lines`.
pub open spec fn texts(lines: Seq<String>) -> Seq<Seq<char>> {
    Seq::new(lines.len(), |i: int| lines[i]@)
}

/// The keys that the classic game answers to.
pub fn ttt_instructions(game: &GamePlayTTT) -> (lines: Vec<String>)
    ensures
        texts(lines@) == ttt_help(game.board@.state, game.turn, game.mode),
{
    let mut lines: Vec<String> = Vec::new();
    if game.board.get_state() == GameState::Playing {
        if game.turn == 0 && game.mode == GameMode::PvE {
            lines.push(String::from_str("S: Play Second | Arrow Keys: Move | Enter: Place Mark"));
            lines.push(String::from_str("R: Reset Game | M: Main Menu | Q: Quit"));
        } else {
            lines.push(String::from_str("Arrow Keys: Move | Enter: Place Mark"));
            lines.push(String::from_str("R: Reset Game | M: Main Menu | Q: Quit"));
        }
    } else {
        lines.push(String::from_str("R: Reset Game | M: Main Menu | Q: Quit"));
    }
    lines
}

/// The keys that the game of nine boards answers to: while the game runs,
/// the keys that pick a board where no cell is selected, and the keys that
/// pick a cell where one is, with the way back to the boards where the move
/// is not bound to one; and always the keys that start again or leave.
pub open spec fn utt_help(state: GameState, in_board: bool, bound: bool) -> Seq<Seq<char>> {
    if state == GameState::Playing {
        if !in_board {
            seq![
                "Arrow Keys: Select Board | Enter: Confirm Board"@,
                "R: Reset Game | M: Main Menu | Q: Quit"@,
            ]
        } else if !bound {
            seq![
                "Arrow Keys: Select Cell | Enter: Place Mark"@,
                "Esc: Change Board | R: Reset Game | M: Main Menu | Q: Quit"@,
            ]
        } else {
            seq![
                "Arrow Keys: Select Cell | Enter: Place Mark"@,
                "R: Reset Game | M: Main Menu | Q: Quit"@,
            ]
        }
    } else {
        seq!["R: Reset Game | M: Main Menu | Q: Quit"@]
    }
}

/// The keys that the game of nine boards answers to.
pub fn utt_instructions(game: &GamePlayUTT) -> (lines: Vec<String>)
    ensures
        texts(lines@) == utt_help(
            game.big_board.state,
            game.selected_cell is Some,
            game.big_board.active_board is Some,
        ),
{
    let mut lines: Vec<String> = Vec::new();
    if game.big_board.state == GameState::Playing {
        if game.selected_cell.is_none() {
            lines.push(String::from_str("Arrow Keys: Select Board | Enter: Confirm Board"));
            lines.push(String::from_str("R: Reset Game | M: Main Menu | Q: Quit"));
        } else {
            if game.big_board.active_board.is_none() {
                lines.push(String::from_str("Arrow Keys: Select Cell | Enter: Place Mark"));
                lines.push(
                    String::from_str("Esc: Change Board | R: Reset Game | M: Main Menu | Q: Quit"),
                );
            } else {
                lines.push(String::from_str("Arrow Keys: Select Cell | Enter: Place Mark"));
                lines.push(String::from_str("R: Reset Game | M: Main Menu | Q: Quit"));
            }
        }
    } else {
        lines.push(String::from_str("R: Reset Game | M: Main Menu | Q: Quit"));
    }
    lines
}

/// Whether a terminal of `width` by `height` cells is too small for a scene
/// that takes `min_width` by `min_height`.
pub fn too_small(width: u16, height: u16, min_width: u16, min_height: u16) -> (small: bool)
    ensures
        small == !(width >= min_width && height >= min_height),
{
    !(width >= min_width && height >= min_height)
}

} // verus!
