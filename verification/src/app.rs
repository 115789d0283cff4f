//! The classic game on the bare grid, as one player against the agent sees
//! it.

use vstd::prelude::*;
use crate::ai::{lemma_vacant_cells, reflex, vacant, SimpleAi};
use crate::game::{full, outcome, Board, GameState, Mark};
use crate::utils::{Position, Walk};

verus! {

/// Which of the nine cells of a bare grid are empty.
pub open spec fn free(cells: Seq<Option<Mark>>) -> Seq<bool> {
    Seq::new(9, |i: int| cells[i] is None)
}

/// A grid that is not full has an empty cell to list.
pub proof fn lemma_vacant_unless_full(cells: Seq<Option<Mark>>)
    requires
        !full(cells),
    ensures
        vacant(cells, 9).len() > 0,
{
    let i = choose|i: int| 0 <= i < 9 && !((#[trigger] cells[i]) is Some);
    lemma_vacant_grows(cells, 9, i);
}

/// An empty cell among the first `n` is listed among them.
proof fn lemma_vacant_grows(cells: Seq<Option<Mark>>, n: nat, i: int)
    requires
        0 <= i < n,
        cells[i] is None,
    ensures
        vacant(cells, n).len() > 0,
    decreases n,
{
    if i < n - 1 {
        lemma_vacant_grows(cells, (n - 1) as nat, i);
    }
}

/// The game, the selected cell, and whether the player asked to leave.
pub struct App {
    pub board: Board,
    pub active_player: Mark,
    pub state: GameState,
    pub selected_row: usize,
    pub selected_col: usize,
    pub should_quit: bool,
    pub ai: Option<SimpleAi>,
}

impl App {
    /// The selected cell.
    pub open spec fn selected(&self) -> Position {
        Position { row: self.selected_row, col: self.selected_col }
    }

    /// The state `after` is the state `before` but for the selection, which
    /// went the way of `walk` to the first empty cell.
    pub open spec fn selection_moved(before: App, walk: Walk, after: App) -> bool {
        &&& after == App {
            selected_row: after.selected_row,
            selected_col: after.selected_col,
            ..before
        }
        &&& walk.ends_on(free(before.board@), before.selected(), after.selected())
    }

    /// The agent answered on the grid `first` and left the grid `second`:
    /// with a mark of its own in a cell that it may answer with; where there
    /// is no agent, the grid is left as it is.
    pub open spec fn answered(
        ai: Option<SimpleAi>,
        first: Seq<Option<Mark>>,
        second: Seq<Option<Mark>>,
    ) -> bool {
        match ai {
            Some(ai) => exists|at: (usize, usize)| #[trigger]
                reflex(first, ai.mark(), ai.player(), at) && vacant(first, 9).contains(at)
                    && second == first.update(at.0 * 3 + at.1, Some(ai.mark())),
            None => second == first,
        }
    }

    /// The state `after` is the state `before` with the selected cell marked
    /// for the player whose turn it is. Nothing happens once the game is over,
    /// nor on a cell that is taken. A mark that ends the game leaves turn and
    /// selection where they are. After any other mark the agent answers; if
    /// that ends the game, the turn is left with the agent; else the turn
    /// comes back and the selection is put on the first empty cell.
    pub open spec fn marked(before: App, after: App) -> bool {
        let at = before.selected_row * 3 + before.selected_col;
        if before.state != GameState::Playing || before.board@[at] is Some {
            after == before
        } else {
            let first = before.board@.update(at, Some(before.active_player));
            if outcome(first) != GameState::Playing {
                after == App { board: after.board, state: outcome(first), ..before } && after.board@
                    == first
            } else {
                &&& Self::answered(before.ai, first, after.board@)
                &&& after.ai == before.ai
                &&& after.should_quit == before.should_quit
                &&& after.state == outcome(after.board@)
                &&& if after.state != GameState::Playing {
                    &&& after.active_player == before.active_player.other()
                    &&& after.selected() == before.selected()
                } else {
                    &&& after.active_player == before.active_player
                    &&& Walk::RowMajor.ends_on(
                        free(after.board@),
                        Position { row: 0, col: 0 },
                        after.selected(),
                    )
                }
            }
        }
    }

    /// A new game: an empty grid, X to move, the first cell selected, and an
    /// agent that plays O.
    pub fn new() -> (app: App)
        ensures
            app.board@ == Seq::new(9, |i: int| None::<Mark>),
            app.active_player == Mark::X,
            app.state == GameState::Playing,
            app.selected() == (Position { row: 0, col: 0 }),
            !app.should_quit,
            app.ai matches Some(ai) && ai.mark() == Mark::O && ai.player() == Mark::X,
    {
        Self {
            board: Board::new(),
            active_player: Mark::X,
            state: GameState::Playing,
            selected_row: 0,
            selected_col: 0,
            should_quit: false,
            ai: Some(SimpleAi::new(Mark::O)),
        }
    }

    /// Moves the selection to the left, on to the first empty cell. A column
    /// is tried downwards from the first row, and upwards from the others.
    pub fn input_left(&mut self)
        requires
            old(self).selected().on_grid(),
        ensures
            Self::selection_moved(
                *old(self),
                Walk::Side {
                    start: old(self).selected(),
                    forward: false,
                    down: old(self).selected_row == 0,
                },
                *final(self),
            ),
    {
        let ghost start = self.selected();
        let ghost walk = Walk::Side { start, forward: false, down: start.row == 0 };
        let ghost cells = free(self.board@);
        for a in 0..3usize
            invariant
                start == old(self).selected(),
                start.on_grid(),
                walk == (Walk::Side { start, forward: false, down: start.row == 0 }),
                cells == free(old(self).board@),
                *self == (App {
                    selected_row: self.selected_row,
                    selected_col: self.selected_col,
                    ..*old(self)
                }),
                self.selected_row == start.row,
                self.selected_col == crate::utils::around(start.col as int, a as int, false),
                forall|u: int| 0 <= u < 3 * a ==> !#[trigger] walk.hits(cells, u),
        {
            // change column
            self.move_selection_left();

            let original_row = self.selected_row;

            // look for free positions in the current column
            for b in 0..3usize
                invariant
                    start == old(self).selected(),
                    start.on_grid(),
                    a < 3,
                    original_row == start.row,
                    walk == (Walk::Side { start, forward: false, down: start.row == 0 }),
                    cells == free(old(self).board@),
                    *self == (App {
                        selected_row: self.selected_row,
                        selected_col: self.selected_col,
                        ..*old(self)
                    }),
                    self.selected_row == crate::utils::around(
                        start.row as int,
                        b as int,
                        start.row == 0,
                    ),
                    self.selected_col == crate::utils::around(start.col as int, a + 1, false),
                    forall|u: int| 0 <= u < 3 * a + b ==> !#[trigger] walk.hits(cells, u),
            {
                if self.board.get(self.selected_row, self.selected_col).is_none() {
                    assert(walk.hits(cells, 3 * a + b));
                    return ;
                }
                match original_row {
                    0 => self.move_selection_down(),
                    2 => self.move_selection_up(),
                    _ => self.move_selection_up(),
                }
            }
        }
    }

    /// Moves the selection to the right, on to the first empty cell. A column
    /// is tried upwards from the last row, and downwards from the others.
    pub fn input_right(&mut self)
        requires
            old(self).selected().on_grid(),
        ensures
            Self::selection_moved(
                *old(self),
                Walk::Side {
                    start: old(self).selected(),
                    forward: true,
                    down: old(self).selected_row != 2,
                },
                *final(self),
            ),
    {
        let ghost start = self.selected();
        let ghost walk = Walk::Side { start, forward: true, down: start.row != 2 };
        let ghost cells = free(self.board@);
        for a in 0..3usize
            invariant
                start == old(self).selected(),
                start.on_grid(),
                walk == (Walk::Side { start, forward: true, down: start.row != 2 }),
                cells == free(old(self).board@),
                *self == (App {
                    selected_row: self.selected_row,
                    selected_col: self.selected_col,
                    ..*old(self)
                }),
                self.selected_row == start.row,
                self.selected_col == crate::utils::around(start.col as int, a as int, true),
                forall|u: int| 0 <= u < 3 * a ==> !#[trigger] walk.hits(cells, u),
        {
            // change column
            self.move_selection_right();

            let original_row = self.selected_row;

            // look for free positions in the current column
            for b in 0..3usize
                invariant
                    start == old(self).selected(),
                    start.on_grid(),
                    a < 3,
                    original_row == start.row,
                    walk == (Walk::Side { start, forward: true, down: start.row != 2 }),
                    cells == free(old(self).board@),
                    *self == (App {
                        selected_row: self.selected_row,
                        selected_col: self.selected_col,
                        ..*old(self)
                    }),
                    self.selected_row == crate::utils::around(
                        start.row as int,
                        b as int,
                        start.row != 2,
                    ),
                    self.selected_col == crate::utils::around(start.col as int, a + 1, true),
                    forall|u: int| 0 <= u < 3 * a + b ==> !#[trigger] walk.hits(cells, u),
            {
                if self.board.get(self.selected_row, self.selected_col).is_none() {
                    assert(walk.hits(cells, 3 * a + b));
                    return ;
                }
                match original_row {
                    0 => self.move_selection_down(),
                    2 => self.move_selection_up(),
                    _ => self.move_selection_down(),
                }
            }
        }
    }

    /// Moves the selection up, on to the first empty cell. A row is tried to
    /// the right from the first column, and to the left from the others.
    pub fn input_up(&mut self)
        requires
            old(self).selected().on_grid(),
        ensures
            Self::selection_moved(
                *old(self),
                Walk::Rank {
                    start: old(self).selected(),
                    forward: false,
                    right: old(self).selected_col == 0,
                },
                *final(self),
            ),
    {
        let ghost start = self.selected();
        let ghost walk = Walk::Rank { start, forward: false, right: start.col == 0 };
        let ghost cells = free(self.board@);
        for a in 0..3usize
            invariant
                start == old(self).selected(),
                start.on_grid(),
                walk == (Walk::Rank { start, forward: false, right: start.col == 0 }),
                cells == free(old(self).board@),
                *self == (App {
                    selected_row: self.selected_row,
                    selected_col: self.selected_col,
                    ..*old(self)
                }),
                self.selected_col == start.col,
                self.selected_row == crate::utils::around(start.row as int, a as int, false),
                forall|u: int| 0 <= u < 3 * a ==> !#[trigger] walk.hits(cells, u),
        {
            // change row
            self.move_selection_up();

            let original_col = self.selected_col;

            // look for free positions in the current row
            for b in 0..3usize
                invariant
                    start == old(self).selected(),
                    start.on_grid(),
                    a < 3,
                    original_col == start.col,
                    walk == (Walk::Rank { start, forward: false, right: start.col == 0 }),
                    cells == free(old(self).board@),
                    *self == (App {
                        selected_row: self.selected_row,
                        selected_col: self.selected_col,
                        ..*old(self)
                    }),
                    self.selected_col == crate::utils::around(
                        start.col as int,
                        b as int,
                        start.col == 0,
                    ),
                    self.selected_row == crate::utils::around(start.row as int, a + 1, false),
                    forall|u: int| 0 <= u < 3 * a + b ==> !#[trigger] walk.hits(cells, u),
            {
                if self.board.get(self.selected_row, self.selected_col).is_none() {
                    assert(walk.hits(cells, 3 * a + b));
                    return ;
                }
                match original_col {
                    0 => self.move_selection_right(),
                    2 => self.move_selection_left(),
                    _ => self.move_selection_left(),
                }
            }
        }
    }

    /// Moves the selection down, on to the first empty cell. A row is tried
    /// to the left from the last column, and to the right from the others.
    pub fn input_down(&mut self)
        requires
            old(self).selected().on_grid(),
        ensures
            Self::selection_moved(
                *old(self),
                Walk::Rank {
                    start: old(self).selected(),
                    forward: true,
                    right: old(self).selected_col != 2,
                },
                *final(self),
            ),
    {
        let ghost start = self.selected();
        let ghost walk = Walk::Rank { start, forward: true, right: start.col != 2 };
        let ghost cells = free(self.board@);
        for a in 0..3usize
            invariant
                start == old(self).selected(),
                start.on_grid(),
                walk == (Walk::Rank { start, forward: true, right: start.col != 2 }),
                cells == free(old(self).board@),
                *self == (App {
                    selected_row: self.selected_row,
                    selected_col: self.selected_col,
                    ..*old(self)
                }),
                self.selected_col == start.col,
                self.selected_row == crate::utils::around(start.row as int, a as int, true),
                forall|u: int| 0 <= u < 3 * a ==> !#[trigger] walk.hits(cells, u),
        {
            // change row
            self.move_selection_down();

            let original_col = self.selected_col;

            // look for free positions in the current row
            for b in 0..3usize
                invariant
                    start == old(self).selected(),
                    start.on_grid(),
                    a < 3,
                    original_col == start.col,
                    walk == (Walk::Rank { start, forward: true, right: start.col != 2 }),
                    cells == free(old(self).board@),
                    *self == (App {
                        selected_row: self.selected_row,
                        selected_col: self.selected_col,
                        ..*old(self)
                    }),
                    self.selected_col == crate::utils::around(
                        start.col as int,
                        b as int,
                        start.col != 2,
                    ),
                    self.selected_row == crate::utils::around(start.row as int, a + 1, true),
                    forall|u: int| 0 <= u < 3 * a + b ==> !#[trigger] walk.hits(cells, u),
            {
                if self.board.get(self.selected_row, self.selected_col).is_none() {
                    assert(walk.hits(cells, 3 * a + b));
                    return ;
                }
                match original_col {
                    0 => self.move_selection_right(),
                    2 => self.move_selection_left(),
                    _ => self.move_selection_right(),
                }
            }
        }
    }

    /// Moves the selection one column to the left, from the first column to
    /// the last.
    fn move_selection_left(&mut self)
        ensures
            *final(self) == (App {
                selected_col: if old(self).selected_col > 0 {
                    (old(self).selected_col - 1) as usize
                } else {
                    2
                },
                ..*old(self)
            }),
    {
        if self.selected_col > 0 {
            self.selected_col -= 1;
        } else {
            self.selected_col = 2;
        }
    }

    /// Moves the selection one column to the right, from the last column to
    /// the first.
    fn move_selection_right(&mut self)
        requires
            old(self).selected_col < usize::MAX,
        ensures
            *final(self) == (App {
                selected_col: ((old(self).selected_col + 1) % 3) as usize,
                ..*old(self)
            }),
    {
        self.selected_col = (self.selected_col + 1) % 3;
    }

    /// Moves the selection one row up, from the first row to the last.
    fn move_selection_up(&mut self)
        ensures
            *final(self) == (App {
                selected_row: if old(self).selected_row > 0 {
                    (old(self).selected_row - 1) as usize
                } else {
                    2
                },
                ..*old(self)
            }),
    {
        if self.selected_row > 0 {
            self.selected_row -= 1;
        } else {
            self.selected_row = 2;
        }
    }

    /// Moves the selection one row down, from the last row to the first.
    fn move_selection_down(&mut self)
        requires
            old(self).selected_row < usize::MAX,
        ensures
            *final(self) == (App {
                selected_row: ((old(self).selected_row + 1) % 3) as usize,
                ..*old(self)
            }),
    {
        self.selected_row = (self.selected_row + 1) % 3;
    }

    /// Moves the selection to the next cell in row-major order, from the last
    /// cell to the first.
    fn move_selection_next_available(&mut self)
        requires
            old(self).selected_row < usize::MAX,
            old(self).selected_col < usize::MAX,
        ensures
            *final(self) == (App {
                selected_row: final(self).selected_row,
                selected_col: final(self).selected_col,
                ..*old(self)
            }),
            final(self).selected() == if old(self).selected_col + 1 < 3 {
                Position { row: old(self).selected_row, col: (old(self).selected_col + 1) as usize }
            } else if old(self).selected_row + 1 < 3 {
                Position { row: (old(self).selected_row + 1) as usize, col: 0 }
            } else {
                Position { row: 0, col: 0 }
            },
    {
        self.selected_col += 1;
        if self.selected_col >= 3 {
            self.selected_col = 0;
            self.selected_row += 1;
            if self.selected_row >= 3 {
                self.selected_row = 0;
            }
        }
    }

    /// Marks the selected cell for the player whose turn it is, and lets the
    /// agent answer.
    pub fn make_move(&mut self)
        requires
            old(self).selected().on_grid(),
        ensures
            Self::marked(*old(self), *final(self)),
    {
        if self.state != GameState::Playing {
            return ;
        }
        // Check if cell is empty

        if self.board.get(self.selected_row, self.selected_col).is_some() {
            return ;
        }
        proof {
            self.board.lemma_nine_cells();
        }

        // Make the move
        self.board.set(self.selected_row, self.selected_col, Some(self.active_player));

        // Check for win
        if let Some(winner) = self.board.check_all() {
            self.state = GameState::Won(winner);
            return ;
        }
        // Check for draw

        if self.board.check_complete() {
            self.state = GameState::Draw;
            return ;
        }
        // Switch player

        self.active_player = match self.active_player {
            Mark::X => Mark::O,
            Mark::O => Mark::X,
        };

        // let AI play
        let ghost first = self.board@;
        if let Some(ai) = &self.ai {
            proof {
                lemma_vacant_unless_full(first);
            }
            let (ai_row, ai_col) = ai.choose_move(self.board);
            proof {
                let k = choose|k: int|
                    0 <= k < vacant(first, 9).len() && vacant(first, 9)[k] == (ai_row, ai_col);
                lemma_vacant_cells(first, 9, k);
            }
            self.board.set(ai_row, ai_col, Some(ai.get_mark()));
        }

        // Check for win
        if let Some(winner) = self.board.check_all() {
            self.state = GameState::Won(winner);
            return ;
        }
        // Check for draw

        if self.board.check_complete() {
            self.state = GameState::Draw;
            return ;
        }
        // Switch player

        self.active_player = match self.active_player {
            Mark::X => Mark::O,
            Mark::O => Mark::X,
        };

        // Reset position
        self.selected_row = 0;
        self.selected_col = 0;
        let ghost second = self.board@;
        let ghost walk = Walk::RowMajor;
        let ghost mut t: int = 0;
        let ghost settled = *self;
        while self.board.get(self.selected_row, self.selected_col).is_some()
            invariant
                second == self.board@,
                second.len() == 9,
                !full(second),
                walk == Walk::RowMajor,
                0 <= t < 9,
                self.selected() == walk.probe(t),
                forall|u: int| 0 <= u < t ==> !#[trigger] walk.hits(free(second), u),
                *self == (App {
                    selected_row: self.selected_row,
                    selected_col: self.selected_col,
                    ..settled
                }),
            decreases 9 - t,
        {
            proof {
                if t == 8 {
                    assert forall|i: int| 0 <= i < 9 implies (#[trigger] second[i]) is Some by {
                        assert(!walk.hits(free(second), i));
                    }
                }
                t = t + 1;
            }
            self.move_selection_next_available();
        }
        assert(walk.hits(free(second), t));
    }

    /// Starts the game again.
    pub fn reset(&mut self)
        ensures
            final(self).board@ == Seq::new(9, |i: int| None::<Mark>),
            final(self).active_player == Mark::X,
            final(self).state == GameState::Playing,
            final(self).selected() == (Position { row: 0, col: 0 }),
            final(self).should_quit == old(self).should_quit,
            final(self).ai == old(self).ai,
    {
        self.board = Board::new();
        self.active_player = Mark::X;
        self.state = GameState::Playing;
        self.selected_row = 0;
        self.selected_col = 0;
    }

    /// Notes that the player asked to leave.
    pub fn quit(&mut self)
        ensures
            *final(self) == (App { should_quit: true, ..*old(self) }),
    {
        self.should_quit = true;
    }
}

} // verus!
