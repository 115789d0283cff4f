//! The scenes of the game: menus, and the two games as a player sees them,
//! with a selection that moves over the board.

use vstd::prelude::*;
use crate::ai::simple::{sensible, SimpleAi};
use crate::ai::{Game, Move};
use crate::game::base::{lemma_legal_move_accepted, Board, BoardView};
use crate::game::ultimate::{BigBoard, BigBoardView};
use crate::game::{GameState, Grid, Mark};
use crate::utils::{
    move_selection_down_playable, move_selection_left_playable, move_selection_right_playable,
    move_selection_up_playable, reset_position, Position, Walk,
};

verus! {

/// The entries of the main menu.
pub const MAIN_MENU_OPTIONS: [&'static str; 3] = ["Ultimate Tic Tac Toe", "Tic Tac Toe", "Quit"];

/// The entries of the menu of the classic game.
pub const TTT_MENU_OPTIONS: [&'static str; 3] = ["Local PvP", "Play vs AI", "Back"];

/// The entries of the menu of the game of nine boards.
pub const UTT_MENU_OPTIONS: [&'static str; 2] = ["Local PvP", "Back"];

/// What is on the screen.
pub enum Scene {
    MainMenu(Menu),
    TTTMenu(Menu),
    UTTMenu(Menu),
    PlayingTTT(GamePlayTTT),
    PlayingUTT(GamePlayUTT),
}

/// Who plays against whom.
#[derive(Debug, Clone, Copy, PartialEq, Eq, Structural)]
pub enum GameMode {
    PvE,
    LocalPvP,
}

/// A list of entries, one of which is selected.
pub struct Menu {
    pub selected_option: usize,
    pub options: Vec<&'static str>,
}

impl Menu {
    /// A menu of `options` with the first one selected.
    pub fn new(options: Vec<&'static str>) -> (menu: Menu)
        ensures
            menu.selected_option == 0,
            menu.options == options,
    {
        Self { selected_option: 0, options }
    }

    /// Moves the selection one entry up, from the first entry to the last.
    pub fn move_up(&mut self)
        requires
            old(self).selected_option > 0 || old(self).options@.len() > 0,
        ensures
            final(self).options == old(self).options,
            final(self).selected_option == if old(self).selected_option > 0 {
                old(self).selected_option - 1
            } else {
                old(self).options@.len() - 1
            },
    {
        if self.selected_option > 0 {
            self.selected_option -= 1;
        } else {
            self.selected_option = self.options.len() - 1;
        }
    }

    /// Moves the selection one entry down, from the last entry to the first.
    pub fn move_down(&mut self)
        requires
            old(self).options@.len() > 0,
            old(self).selected_option < usize::MAX,
        ensures
            final(self).options == old(self).options,
            final(self).selected_option == (old(self).selected_option + 1) % (
            old(self).options@.len() as int),
    {
        self.selected_option = (self.selected_option + 1) % self.options.len();
    }

    /// The selected entry.
    pub fn get_selected(&self) -> (entry: &'static str)
        requires
            self.selected_option < self.options@.len(),
        ensures
            entry == self.options@[self.selected_option as int],
    {
        self.options[self.selected_option]
    }
}

/// The first cell of the grid.
pub open spec fn origin() -> Position {
    Position { row: 0, col: 0 }
}

/// A way for the selection to go.
#[derive(Debug, Clone, Copy, PartialEq, Eq, Structural)]
pub enum Direction {
    Left,
    Right,
    Up,
    Down,
}

impl Direction {
    /// The walk over the grid that a move from `start` in this direction
    /// makes.
    pub open spec fn walk(self, start: Position) -> Walk {
        match self {
            Direction::Left => Walk::Side { start, forward: false, down: start.row != 2 },
            Direction::Right => Walk::Side { start, forward: true, down: start.row != 2 },
            Direction::Up => Walk::Rank { start, forward: false, right: start.col != 2 },
            Direction::Down => Walk::Rank { start, forward: true, right: start.col != 2 },
        }
    }
}

/// Moves the selection over `board` in `direction`, on to the first cell
/// that can be played.
pub fn move_selection<B: Grid>(board: &B, selected: &mut Position, direction: Direction)
    requires
        old(selected).on_grid(),
    ensures
        direction.walk(*old(selected)).ends_on(
            board.playable(),
            *old(selected),
            *final(selected),
        ),
{
    match direction {
        Direction::Left => move_selection_left_playable(board, selected),
        Direction::Right => move_selection_right_playable(board, selected),
        Direction::Up => move_selection_up_playable(board, selected),
        Direction::Down => move_selection_down_playable(board, selected),
    }
}

/// The classic game as a player sees it: the board, whose turn it is, the
/// selected cell, and the agent to play against, if there is one.
pub struct GamePlayTTT {
    pub board: Board,
    pub active_player: Mark,
    pub turn: u32,
    pub mode: GameMode,
    pub selected: Position,
    pub ai: Option<SimpleAi>,
}

impl GamePlayTTT {
    /// The state `after` is the state `before` with one move of the agent
    /// made: a move that the agent may answer, after which the turn is the
    /// other mark's and the selection stands on the first playable cell.
    pub open spec fn ai_played(before: GamePlayTTT, after: GamePlayTTT) -> bool {
        let ai = before.ai->Some_0;
        &&& after.ai == before.ai
        &&& after.mode == before.mode
        &&& after.turn == before.turn + 1
        &&& after.active_player == ai.mark().other()
        &&& Walk::RowMajor.ends_on(after.board@.playable(), origin(), after.selected)
        &&& exists|mv: Move| #[trigger]
            sensible::<Board>(before.board@, ai.mark(), ai.enemy(), mv)
                && before.board@.legal_moves().contains(mv) && after.board@ == before.board@.play(
                mv,
                ai.mark(),
            )
    }

    /// The state `after` is the state `before` with the selected cell played
    /// by the player whose turn it is. Nothing happens once the game is over.
    /// A move that ends the game leaves turn and selection where they are.
    /// Any other move hands the turn over; against the agent, the agent then
    /// makes its move; and the selection is put on the first playable cell.
    pub open spec fn cell_played(before: GamePlayTTT, after: GamePlayTTT) -> bool {
        if before.board@.state != GameState::Playing {
            after == before
        } else {
            let next = before.board@.place(
                before.selected.row as int,
                before.selected.col as int,
                before.active_player,
            );
            if next.state != GameState::Playing {
                &&& after.board@ == next
                &&& after.turn == before.turn + 1
                &&& after.active_player == before.active_player
                &&& after.mode == before.mode
                &&& after.selected == before.selected
                &&& after.ai == before.ai
            } else if before.mode == GameMode::PvE {
                exists|handed: GamePlayTTT|
                    {
                        &&& handed.board@ == next
                        &&& handed.turn == before.turn + 1
                        &&& handed.mode == before.mode
                        &&& handed.ai == before.ai
                        &&& #[trigger] Self::ai_played(handed, after)
                    }
            } else {
                &&& after.board@ == next
                &&& after.turn == before.turn + 1
                &&& after.active_player == before.active_player.other()
                &&& after.mode == before.mode
                &&& after.ai == before.ai
                &&& Walk::RowMajor.ends_on(next.playable(), origin(), after.selected)
            }
        }
    }

    /// A new game in the mode `mode`: an empty board, X to move, the
    /// selection on the first cell and, against the agent, an agent that
    /// plays O.
    pub fn new(mode: GameMode) -> (game: GamePlayTTT)
        ensures
            game.board@ == BoardView::empty(),
            game.active_player == Mark::X,
            game.turn == 0,
            game.mode == mode,
            game.selected == origin(),
            match game.ai {
                Some(ai) => mode == GameMode::PvE && ai.mark() == Mark::O && ai.enemy() == Mark::X,
                None => mode != GameMode::PvE,
            },
    {
        let ai = if mode == GameMode::PvE {
            Some(SimpleAi::new(Mark::O))
        } else {
            None
        };

        Self {
            board: Board::new(),
            active_player: Mark::X,
            turn: 0,
            mode,
            selected: Position { row: 0, col: 0 },
            ai,
        }
    }

    /// The state `after` is the state `before` with the selection moved in
    /// `direction`.
    pub open spec fn selection_moved(
        before: GamePlayTTT,
        direction: Direction,
        after: GamePlayTTT,
    ) -> bool {
        &&& after.board == before.board
        &&& after.active_player == before.active_player
        &&& after.turn == before.turn
        &&& after.mode == before.mode
        &&& after.ai == before.ai
        &&& direction.walk(before.selected).ends_on(
            before.board@.playable(),
            before.selected,
            after.selected,
        )
    }

    /// Moves the selection to the left, on to the first empty cell.
    pub fn input_left(&mut self)
        requires
            old(self).selected.on_grid(),
        ensures
            Self::selection_moved(*old(self), Direction::Left, *final(self)),
    {
        move_selection_left_playable(&self.board, &mut self.selected);
    }

    /// Moves the selection to the right, on to the first empty cell.
    pub fn input_right(&mut self)
        requires
            old(self).selected.on_grid(),
        ensures
            Self::selection_moved(*old(self), Direction::Right, *final(self)),
    {
        move_selection_right_playable(&self.board, &mut self.selected);
    }

    /// Moves the selection up, on to the first empty cell.
    pub fn input_up(&mut self)
        requires
            old(self).selected.on_grid(),
        ensures
            Self::selection_moved(*old(self), Direction::Up, *final(self)),
    {
        move_selection_up_playable(&self.board, &mut self.selected);
    }

    /// Moves the selection down, on to the first empty cell.
    pub fn input_down(&mut self)
        requires
            old(self).selected.on_grid(),
        ensures
            Self::selection_moved(*old(self), Direction::Down, *final(self)),
    {
        move_selection_down_playable(&self.board, &mut self.selected);
    }

    /// Plays the selected cell for the player whose turn it is and, against
    /// the agent, lets the agent answer.
    pub fn player_move(&mut self)
        requires
            old(self).board@.state == GameState::Playing ==> {
                &&& old(self).turn < u32::MAX - 1
                &&& old(self).board@.accepts(
                    old(self).selected.row as int,
                    old(self).selected.col as int,
                )
                &&& old(self).mode == GameMode::PvE ==> old(self).ai is Some
            },
        ensures
            Self::cell_played(*old(self), *final(self)),
    {
        if self.board.get_state() != GameState::Playing {
            return ;
        }
        proof {
            self.board.lemma_nine_cells();
        }
        self.board.make_move(self.selected.row, self.selected.col, self.active_player);

        self.turn += 1;

        if self.board.get_state() != GameState::Playing {
            return ;
        }
        self.active_player = self.active_player.switch();

        if self.mode == GameMode::PvE {
            self.ai_play();
        }
        reset_position(&self.board, &mut self.selected);
    }

    /// Makes the agent's move.
    fn ai_play(&mut self)
        requires
            old(self).ai is Some,
            old(self).board@.consistent(),
            old(self).board@.state == GameState::Playing,
            old(self).turn < u32::MAX,
        ensures
            Self::ai_played(*old(self), *final(self)),
    {
        if let Some(ai) = &self.ai {
            proof {
                Board::lemma_no_moves_iff_over(self.board@);
            }
            let mv = ai.choose_move(self.board);
            proof {
                lemma_legal_move_accepted(self.board@, mv);
            }
            let (ai_row, ai_col) = mv.unwrap_base();
            self.board.make_move(ai_row, ai_col, ai.get_mark());

            self.active_player = ai.get_mark().switch();

            self.turn += 1;

            reset_position(&self.board, &mut self.selected);
        }
    }

    /// Lets the agent open the game, while no move has been made.
    pub fn play_second(&mut self)
        requires
            old(self).board@.state == GameState::Playing && old(self).turn == 0 ==> old(
                self,
            ).ai is Some && old(self).board@.consistent(),
        ensures
            if old(self).board@.state == GameState::Playing && old(self).turn == 0 {
                Self::ai_played(*old(self), *final(self))
            } else {
                *final(self) == *old(self)
            },
    {
        if self.board.get_state() == GameState::Playing && self.turn == 0 {
            self.ai_play();
        }
    }

    /// Starts the game again in the same mode and against the same agent.
    pub fn reset_game(&mut self)
        ensures
            final(self).board@ == BoardView::empty(),
            final(self).active_player == Mark::X,
            final(self).turn == 0,
            final(self).mode == old(self).mode,
            final(self).selected == origin(),
            final(self).ai == old(self).ai,
    {
        self.board = Board::new();
        self.active_player = Mark::X;
        self.turn = 0;
        self.selected.row = 0;
        self.selected.col = 0;
    }
}

/// The game of nine boards as a player sees it: the board, whose turn it
/// is, and the selection, which stands on a small board and, once that board
/// is entered, on a cell of it.
pub struct GamePlayUTT {
    pub big_board: BigBoard,
    pub active_player: Mark,
    pub turn: u32,
    pub mode: GameMode,
    pub selected_board: Position,
    pub selected_cell: Option<Position>,
}

impl GamePlayUTT {
    /// The selection stands on the grid.
    pub open spec fn selection_on_grid(&self) -> bool {
        self.selected_board.on_grid() && (self.selected_cell matches Some(cell) ==> cell.on_grid())
    }

    /// The selected small board.
    pub open spec fn selected_small(&self) -> BoardView {
        self.big_board@.boards[self.selected_board.offset()]
    }

    /// The state `after` is the state `before` with the selection moved in
    /// `direction`: over the cells of the selected small board where a cell
    /// is selected, over the small boards where none is.
    pub open spec fn selection_moved(
        before: GamePlayUTT,
        direction: Direction,
        after: GamePlayUTT,
    ) -> bool {
        &&& after.big_board == before.big_board
        &&& after.active_player == before.active_player
        &&& after.turn == before.turn
        &&& after.mode == before.mode
        &&& match before.selected_cell {
            Some(cell) => after.selected_board == before.selected_board && (
            after.selected_cell matches Some(landed) && direction.walk(cell).ends_on(
                before.selected_small().playable(),
                cell,
                landed,
            )),
            None => after.selected_cell is None && direction.walk(before.selected_board).ends_on(
                before.big_board@.playable(),
                before.selected_board,
                after.selected_board,
            ),
        }
    }

    /// The state `after` is the state `before` with the selected cell played
    /// by the player whose turn it is. Nothing happens once the game is over.
    /// A move that ends the game leaves turn and selection where they are.
    /// Any other move hands the turn over and puts the selection on the first
    /// playable cell of the board that the next move is bound to, or, where
    /// the next move is free, on the first playable board with no cell
    /// selected.
    pub open spec fn cell_played(before: GamePlayUTT, after: GamePlayUTT) -> bool {
        if before.big_board@.state != GameState::Playing {
            after == before
        } else {
            let cell = before.selected_cell->Some_0;
            let next = before.big_board@.place(
                before.selected_board.row as int,
                before.selected_board.col as int,
                cell.row as int,
                cell.col as int,
                before.active_player,
            );
            &&& after.big_board@ == next
            &&& after.turn == before.turn + 1
            &&& after.mode == before.mode
            &&& if next.state != GameState::Playing {
                &&& after.active_player == before.active_player
                &&& after.selected_board == before.selected_board
                &&& after.selected_cell == before.selected_cell
            } else {
                &&& after.active_player == before.active_player.other()
                &&& match next.active_board {
                    Some(active) => {
                        &&& after.selected_board == Position { row: active.0, col: active.1 }
                        &&& after.selected_cell matches Some(landed) && Walk::RowMajor.ends_on(
                            next.boards[active.0 * 3 + active.1].playable(),
                            origin(),
                            landed,
                        )
                    },
                    None => {
                        &&& after.selected_cell is None
                        &&& Walk::RowMajor.ends_on(next.playable(), origin(), after.selected_board)
                    },
                }
            }
        }
    }

    /// A new game in the mode `mode`: an empty board, X to move, and the
    /// selection on the first small board.
    pub fn new(mode: GameMode) -> (game: GamePlayUTT)
        ensures
            game.big_board@ == BigBoardView::empty(),
            game.active_player == Mark::X,
            game.turn == 0,
            game.mode == mode,
            game.selected_board == origin(),
            game.selected_cell is None,
    {
        Self {
            big_board: BigBoard::new(),
            active_player: Mark::X,
            turn: 0,
            mode,
            selected_board: Position { row: 0, col: 0 },
            selected_cell: None,
        }
    }

    /// Moves the selected cell in `direction` where there is one, and the
    /// selected small board where there is none.
    pub fn input_move(&mut self, direction: Direction)
        requires
            old(self).selection_on_grid(),
        ensures
            Self::selection_moved(*old(self), direction, *final(self)),
            final(self).selection_on_grid(),
    {
        match self.selected_cell {
            Some(cell) => {
                let mut cell = cell;
                let selected_board = self.big_board.get_board(
                    self.selected_board.row,
                    self.selected_board.col,
                );
                move_selection(selected_board, &mut cell, direction);
                self.selected_cell = Some(cell);
            },
            None => {
                move_selection(&self.big_board, &mut self.selected_board, direction);
            },
        }
    }

    /// Moves the selection to the left.
    pub fn input_left(&mut self)
        requires
            old(self).selection_on_grid(),
        ensures
            Self::selection_moved(*old(self), Direction::Left, *final(self)),
            final(self).selection_on_grid(),
    {
        self.input_move(Direction::Left);
    }

    /// Moves the selection to the right.
    pub fn input_right(&mut self)
        requires
            old(self).selection_on_grid(),
        ensures
            Self::selection_moved(*old(self), Direction::Right, *final(self)),
            final(self).selection_on_grid(),
    {
        self.input_move(Direction::Right);
    }

    /// Moves the selection up.
    pub fn input_up(&mut self)
        requires
            old(self).selection_on_grid(),
        ensures
            Self::selection_moved(*old(self), Direction::Up, *final(self)),
            final(self).selection_on_grid(),
    {
        self.input_move(Direction::Up);
    }

    /// Moves the selection down.
    pub fn input_down(&mut self)
        requires
            old(self).selection_on_grid(),
        ensures
            Self::selection_moved(*old(self), Direction::Down, *final(self)),
            final(self).selection_on_grid(),
    {
        self.input_move(Direction::Down);
    }

    /// Enters the selected small board, with the selection on its first
    /// playable cell, where no cell is selected yet; plays the selected cell
    /// where one is.
    pub fn input_enter(&mut self)
        requires
            old(self).selected_board.on_grid(),
            old(self).selected_cell matches Some(cell) ==> (old(self).big_board@.state
                == GameState::Playing ==> old(self).turn < u32::MAX && old(self).big_board@.accepts(
                old(self).selected_board.row as int,
                old(self).selected_board.col as int,
                cell.row as int,
                cell.col as int,
            )),
        ensures
            match old(self).selected_cell {
                Some(_) => Self::cell_played(*old(self), *final(self)),
                None => {
                    &&& final(self).big_board == old(self).big_board
                    &&& final(self).active_player == old(self).active_player
                    &&& final(self).turn == old(self).turn
                    &&& final(self).mode == old(self).mode
                    &&& final(self).selected_board == old(self).selected_board
                    &&& final(self).selected_cell matches Some(landed) && Walk::RowMajor.ends_on(
                        old(self).selected_small().playable(),
                        origin(),
                        landed,
                    )
                },
            },
    {
        if self.selected_cell.is_none() {
            let mut cell_position = Position { row: 0, col: 0 };
            let selected_board = self.big_board.get_board(
                self.selected_board.row,
                self.selected_board.col,
            );
            reset_position(selected_board, &mut cell_position);
            self.selected_cell = Some(cell_position);
        } else {
            self.player_move();
        }
    }

    /// Leaves the selected small board, where the next move is not bound to
    /// one.
    pub fn input_esc(&mut self)
        ensures
            final(self).big_board == old(self).big_board,
            final(self).active_player == old(self).active_player,
            final(self).turn == old(self).turn,
            final(self).mode == old(self).mode,
            final(self).selected_board == old(self).selected_board,
            final(self).selected_cell == if old(self).big_board.active_board is None {
                None
            } else {
                old(self).selected_cell
            },
    {
        if self.big_board.active_board.is_none() {
            self.selected_cell = None;
        }
    }

    /// Plays the selected cell for the player whose turn it is.
    pub fn player_move(&mut self)
        requires
            old(self).big_board@.state == GameState::Playing ==> old(self).turn < u32::MAX && (
            old(self).selected_cell matches Some(cell) && old(self).big_board@.accepts(
                old(self).selected_board.row as int,
                old(self).selected_board.col as int,
                cell.row as int,
                cell.col as int,
            )),
        ensures
            Self::cell_played(*old(self), *final(self)),
    {
        if self.big_board.get_state() != GameState::Playing {
            return ;
        }
        let selected_cell = match self.selected_cell {
            Some(cell) => cell,
            None => unreached(),
        };
        self.big_board.make_move(
            self.selected_board.row,
            self.selected_board.col,
            selected_cell.row,
            selected_cell.col,
            self.active_player,
        );

        self.turn += 1;

        if self.big_board.get_state() != GameState::Playing {
            return ;
        }
        self.active_player = self.active_player.switch();

        // If the next move is bound to a board, that board is selected.
        if let Some((active_row, active_col)) = self.big_board.active_board {
            self.selected_board = Position { row: active_row, col: active_col };
            let mut cell = selected_cell;
            reset_position(self.big_board.get_board(active_row, active_col), &mut cell);
            self.selected_cell = Some(cell);
        } else {
            reset_position(&self.big_board, &mut self.selected_board);
            self.selected_cell = None;
        }
    }

    /// Starts the game again in the same mode.
    pub fn reset_game(&mut self)
        ensures
            final(self).big_board@ == BigBoardView::empty(),
            final(self).active_player == Mark::X,
            final(self).turn == 0,
            final(self).mode == old(self).mode,
            final(self).selected_board == origin(),
            final(self).selected_cell is None,
    {
        self.big_board = BigBoard::new();
        self.active_player = Mark::X;
        self.turn = 0;
        self.selected_board = Position { row: 0, col: 0 };
        self.selected_cell = None;
    }
}

} // verus!
