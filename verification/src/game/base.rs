//! The classic 3x3 board.

use vstd::prelude::*;
use crate::ai::{Game, Move};
use crate::game::{full, grid_text, line, outcome, winner, write_grid, GameState, Grid, Mark};

verus! {

/// What a board is, mathematically: its nine cells row by row, and the
/// state recorded for it.
#[verifier::ext_equal]
pub struct BoardView {
    pub cells: Seq<Option<Mark>>,
    pub state: GameState,
}

/// The moves into the empty cells among the first `n` of `cells`, in
/// row-major order.
pub open spec fn free_cells(cells: Seq<Option<Mark>>, n: nat) -> Seq<Move>
    decreases n,
{
    if n == 0 {
        Seq::empty()
    } else {
        let before = free_cells(cells, (n - 1) as nat);
        if cells[n - 1] is None {
            before.push(Move::Base(((n - 1) / 3) as usize, ((n - 1) % 3) as usize))
        } else {
            before
        }
    }
}

/// A move is among `free_cells(cells, n)` exactly when it names an empty cell
/// among the first `n` by its row and column.
pub proof fn lemma_free_cells_contains(cells: Seq<Option<Mark>>, n: nat, mv: Move)
    requires
        n <= 9,
    ensures
        free_cells(cells, n).contains(mv) <==> (mv matches Move::Base(row, col) && col < 3 && row
            * 3 + col < n && cells[row * 3 + col] is None),
    decreases n,
{
    if n > 0 {
        let before = free_cells(cells, (n - 1) as nat);
        lemma_free_cells_contains(cells, (n - 1) as nat, mv);
        let last = Move::Base(((n - 1) / 3) as usize, ((n - 1) % 3) as usize);
        if cells[n - 1] is None {
            assert(before.push(last).contains(mv) <==> before.contains(mv) || mv == last) by {
                if before.contains(mv) {
                    let i = choose|i: int| 0 <= i < before.len() && before[i] == mv;
                    assert(before.push(last)[i] == mv);
                }
                if mv == last {
                    assert(before.push(last)[before.len() as int] == mv);
                }
            }
        }
    }
}

/// Taking the empty cell at `at` removes one move from `free_cells(cells, n)`
/// when the cell is among the first `n`, and none otherwise.
pub proof fn lemma_free_cells_shrink(cells: Seq<Option<Mark>>, n: nat, at: int, mark: Mark)
    requires
        n <= cells.len(),
        0 <= at < cells.len(),
        cells[at] is None,
    ensures
        free_cells(cells.update(at, Some(mark)), n).len() + (if at < n {
            1int
        } else {
            0int
        }) == free_cells(cells, n).len(),
    decreases n,
{
    if n > 0 {
        lemma_free_cells_shrink(cells, (n - 1) as nat, at, mark);
    }
}

impl BoardView {
    /// The board on which nothing has been played.
    pub open spec fn empty() -> BoardView {
        BoardView { cells: Seq::new(9, |i: int| None::<Mark>), state: GameState::Playing }
    }

    /// The recorded state is the one the cells add up to.
    pub open spec fn consistent(self) -> bool {
        self.cells.len() == 9 && self.state == outcome(self.cells)
    }

    /// A mark may be placed at `(row, col)`: the game is running and the cell
    /// at row `row` and column `col` is on the 3x3 board and empty.
    pub open spec fn accepts(self, row: int, col: int) -> bool {
        &&& self.state == GameState::Playing
        &&& 0 <= row < 3
        &&& 0 <= col < 3
        &&& self.cells[row * 3 + col] is None
    }

    /// The board after `mark` went to `(row, col)`: the cell is taken and the
    /// state follows from the cells.
    pub open spec fn place(self, row: int, col: int, mark: Mark) -> BoardView {
        let cells = self.cells.update(row * 3 + col, Some(mark));
        BoardView { cells, state: outcome(cells) }
    }

    /// The legal moves: every empty cell in row-major order while the game
    /// is running, none once it is over.
    pub open spec fn legal_moves(self) -> Seq<Move> {
        if self.state == GameState::Playing {
            free_cells(self.cells, 9)
        } else {
            Seq::empty()
        }
    }

    /// The board after the move `mv` by `mark`.
    pub open spec fn play(self, mv: Move, mark: Mark) -> BoardView {
        match mv {
            Move::Base(row, col) => self.place(row as int, col as int, mark),
            Move::Ultimate(..) => self,
        }
    }

    /// The number of empty cells.
    pub open spec fn empty_count(self) -> nat {
        free_cells(self.cells, 9).len()
    }

    /// Which of the nine cells can be played in: the empty ones.
    pub open spec fn playable(self) -> Seq<bool> {
        Seq::new(9, |i: int| self.cells[i] is None)
    }
}

/// A legal move names a cell that accepts a mark.
pub proof fn lemma_legal_move_accepted(v: BoardView, mv: Move)
    requires
        v.legal_moves().contains(mv),
    ensures
        mv matches Move::Base(row, col) && row < 3 && col < 3 && v.accepts(row as int, col as int),
{
    lemma_free_cells_contains(v.cells, 9, mv);
}

/// A run of marks placed one after the other: each step is a row, a column
/// and the mark that goes there.
pub open spec fn placed(v: BoardView, steps: Seq<(int, int, Mark)>) -> BoardView
    decreases steps.len(),
{
    if steps.len() == 0 {
        v
    } else {
        placed(v, steps.drop_last()).place(steps.last().0, steps.last().1, steps.last().2)
    }
}

/// Every step of the run is accepted by the board that the steps before it
/// lead to.
pub open spec fn placeable(v: BoardView, steps: Seq<(int, int, Mark)>) -> bool
    decreases steps.len(),
{
    steps.len() == 0 || (placeable(v, steps.drop_last()) && placed(v, steps.drop_last()).accepts(
        steps.last().0,
        steps.last().1,
    ))
}

/// A board whose game is over accepts no mark: no cell of it is ever
/// written again, and its state is never left.
pub proof fn lemma_over_accepts_nothing(v: BoardView, row: int, col: int)
    requires
        v.state != GameState::Playing,
    ensures
        !v.accepts(row, col),
{
}

/// A run of accepted marks that has left `Playing` has ended: no run goes on
/// from a board that was won or drawn, so an outcome never changes.
pub proof fn lemma_outcome_is_final(v: BoardView, steps: Seq<(int, int, Mark)>, n: int)
    requires
        placeable(v, steps),
        0 <= n <= steps.len(),
        placed(v, steps.take(n)).state != GameState::Playing,
    ensures
        n == steps.len(),
{
    if n < steps.len() {
        lemma_state_only_leaves_playing(v, steps, n);
    }
}

/// A mark that is accepted leaves a board whose state is what its cells add
/// up to.
pub proof fn lemma_place_consistent(v: BoardView, row: int, col: int, mark: Mark)
    requires
        v.cells.len() == 9,
        v.accepts(row, col),
    ensures
        v.place(row, col, mark).consistent(),
{
}

/// A mark that completes a line wins, also where it takes the last empty
/// cell.
pub proof fn lemma_win_before_draw(v: BoardView, row: int, col: int, mark: Mark)
    requires
        v.accepts(row, col),
        winner(v.place(row, col, mark).cells) is Some,
    ensures
        v.place(row, col, mark).state == GameState::Won(
            winner(v.place(row, col, mark).cells)->Some_0,
        ),
{
}

/// Along a run of accepted marks the state is `Playing` before every step:
/// the state leaves `Playing` at most once, with the last step, and what it
/// is then is what the cells add up to.
pub proof fn lemma_state_only_leaves_playing(v: BoardView, steps: Seq<(int, int, Mark)>, n: int)
    requires
        placeable(v, steps),
        0 <= n < steps.len(),
    ensures
        placed(v, steps.take(n)).state == GameState::Playing,
        placed(v, steps).state == outcome(placed(v, steps).cells),
    decreases steps.len(),
{
    let shorter = steps.drop_last();
    if n == steps.len() - 1 {
        assert(steps.take(n) =~= shorter);
    } else {
        assert(steps.take(n) =~= shorter.take(n));
        lemma_state_only_leaves_playing(v, shorter, n);
    }
}

/// A 3x3 board: nine cells in row-major order and the state they add up to.
#[derive(Copy, Clone, Debug, PartialEq)]
pub struct Board {
    cells: [Option<Mark>; 9],
    pub state: GameState,
}

impl View for Board {
    type V = BoardView;

    closed spec fn view(&self) -> BoardView {
        BoardView { cells: self.cells@, state: self.state }
    }
}

impl Board {
    /// A board has nine cells.
    pub proof fn lemma_nine_cells(&self)
        ensures
            self@.cells.len() == 9,
    {
    }

    /// An empty board with the game running.
    pub fn new() -> (b: Board)
        ensures
            b@ == BoardView::empty(),
    {
        let b = Board { cells: [None; 9], state: GameState::Playing };
        b
    }

    /// The mark in the cell at row `row` and column `col` of the 3x3 grid.
    pub fn get(&self, row: usize, col: usize) -> (r: Option<Mark>)
        requires
            row < 3,
            col < 3,
        ensures
            r == self@.cells[row * 3 + col],
    {
        self.cells[row * 3 + col]
    }

    /// Overwrites the cell at row `row` and column `col`, leaving the
    /// recorded state alone.
    pub fn set(&mut self, row: usize, col: usize, mark: Option<Mark>)
        requires
            row < 3,
            col < 3,
        ensures
            final(self)@.cells == old(self)@.cells.update(row * 3 + col, mark),
            final(self)@.state == old(self)@.state,
    {
        self.cells[row * 3 + col] = mark;
    }

    /// The state that the cells add up to.
    pub fn derive_state(&self) -> (state: GameState)
        ensures
            state == outcome(self@.cells),
    {
        let mut copy = *self;
        if let Some(mark) = copy.check_win() {
            return GameState::Won(mark);
        }
        if copy.check_complete() {
            GameState::Draw
        } else {
            GameState::Playing
        }
    }

    /// Whether the recorded state is the one that the cells add up to.
    pub fn is_consistent(&self) -> (r: bool)
        ensures
            r == self@.consistent(),
    {
        self.derive_state() == self.state
    }

    /// Overwrites row `row` with `marks`, left to right, leaving the recorded
    /// state alone.
    pub fn set_row(&mut self, row: usize, marks: [Option<Mark>; 3])
        requires
            row < 3,
        ensures
            final(self)@.cells == old(self)@.cells.update(row * 3, marks@[0]).update(
                row * 3 + 1,
                marks@[1],
            ).update(row * 3 + 2, marks@[2]),
            final(self)@.state == old(self)@.state,
    {
        for col in 0..3usize
            invariant
                row < 3,
                self@.state == old(self)@.state,
                self@.cells.len() == 9,
                forall|i: int|
                    0 <= i < 9 ==> self@.cells[i] == if row * 3 <= i < row * 3 + col {
                        marks@[i - row * 3]
                    } else {
                        old(self)@.cells[i]
                    },
        {
            self.set(row, col, marks[col]);
        }
    }

    /// Overwrites column `col` with `marks`, top to bottom, leaving the
    /// recorded state alone.
    pub fn set_col(&mut self, col: usize, marks: [Option<Mark>; 3])
        requires
            col < 3,
        ensures
            final(self)@.cells == old(self)@.cells.update(col as int, marks@[0]).update(
                col + 3,
                marks@[1],
            ).update(col + 6, marks@[2]),
            final(self)@.state == old(self)@.state,
    {
        for row in 0..3usize
            invariant
                col < 3,
                self@.state == old(self)@.state,
                self@.cells.len() == 9,
                forall|i: int|
                    0 <= i < 9 ==> self@.cells[i] == if i % 3 == col && i / 3 < row {
                        marks@[i / 3]
                    } else {
                        old(self)@.cells[i]
                    },
        {
            self.set(row, col, marks[row]);
        }
    }

    /// The mark that fills row `row`, if one does.
    pub fn check_row(&self, row: usize) -> (r: Option<Mark>)
        requires
            row < 3,
        ensures
            r == line(self@.cells, row * 3, row * 3 + 1, row * 3 + 2),
    {
        let mark_0 = self.get(row, 0)?;
        for i in 1..3usize
            invariant
                row < 3,
                self@.cells[row * 3] == Some(mark_0),
                i > 1 ==> self@.cells[row * 3 + 1] == Some(mark_0),
                i > 2 ==> self@.cells[row * 3 + 2] == Some(mark_0),
        {
            let mark_i = self.get(row, i)?;
            if mark_i != mark_0 {
                return None;
            }
        }
        Some(mark_0)
    }

    /// The mark that fills column `col`, if one does.
    pub fn check_col(&self, col: usize) -> (r: Option<Mark>)
        requires
            col < 3,
        ensures
            r == line(self@.cells, col as int, col + 3, col + 6),
    {
        let mark_0 = self.get(0, col)?;
        for i in 1..3usize
            invariant
                col < 3,
                self@.cells[col as int] == Some(mark_0),
                i > 1 ==> self@.cells[col + 3] == Some(mark_0),
                i > 2 ==> self@.cells[col + 6] == Some(mark_0),
        {
            let mark_i = self.get(i, col)?;
            if mark_i != mark_0 {
                return None;
            }
        }
        Some(mark_0)
    }

    /// The mark that fills the diagonal from the top left, if one does.
    pub fn check_diag_dexter(&self) -> (r: Option<Mark>)
        ensures
            r == line(self@.cells, 0, 4, 8),
    {
        let mark_0 = self.get(0, 0)?;
        for i in 1..3usize
            invariant
                self@.cells[0] == Some(mark_0),
                i > 1 ==> self@.cells[4] == Some(mark_0),
                i > 2 ==> self@.cells[8] == Some(mark_0),
        {
            let mark_i = self.get(i, i)?;
            if mark_i != mark_0 {
                return None;
            }
        }
        Some(mark_0)
    }

    /// The mark that fills the diagonal from the top right, if one does.
    pub fn check_diag_sinister(&self) -> (r: Option<Mark>)
        ensures
            r == line(self@.cells, 2, 4, 6),
    {
        let mark_0 = self.get(0, 2)?;
        for i in 1..3usize
            invariant
                self@.cells[2] == Some(mark_0),
                i > 1 ==> self@.cells[4] == Some(mark_0),
                i > 2 ==> self@.cells[6] == Some(mark_0),
        {
            let mark_i = self.get(i, 2 - i)?;
            if mark_i != mark_0 {
                return None;
            }
        }
        Some(mark_0)
    }

    /// The board as text: each cell shows its mark, or its row-major offset
    /// where it is empty.
    pub fn to_string(&self) -> (text: String)
        ensures
            text@ == grid_text(self@.cells),
    {
        write_grid(&self.cells)
    }

    /// Looks for a completed line and, if there is one, records the win.
    pub fn check_win(&mut self) -> (r: Option<Mark>)
        ensures
            r == winner(old(self)@.cells),
            final(self)@.cells == old(self)@.cells,
            final(self)@.state == match r {
                Some(mark) => GameState::Won(mark),
                None => old(self)@.state,
            },
    {
        if let Some(mark) = self.check_diag_dexter() {
            self.state = GameState::Won(mark);
            return Some(mark);
        }
        if let Some(mark) = self.check_diag_sinister() {
            self.state = GameState::Won(mark);
            return Some(mark);
        }
        for i in 0..3usize
            invariant
                *self == *old(self),
                line(self@.cells, 0, 4, 8) is None,
                line(self@.cells, 2, 4, 6) is None,
                i > 0 ==> line(self@.cells, 0, 1, 2) is None && line(self@.cells, 0, 3, 6) is None,
                i > 1 ==> line(self@.cells, 3, 4, 5) is None && line(self@.cells, 1, 4, 7) is None,
                i > 2 ==> line(self@.cells, 6, 7, 8) is None && line(self@.cells, 2, 5, 8) is None,
        {
            if let Some(mark) = self.check_row(i) {
                self.state = GameState::Won(mark);
                return Some(mark);
            }
            if let Some(mark) = self.check_col(i) {
                self.state = GameState::Won(mark);
                return Some(mark);
            }
        }
        None
    }

    /// Says whether every cell is taken and, if so, records the draw.
    pub fn check_complete(&mut self) -> (r: bool)
        ensures
            r == full(old(self)@.cells),
            final(self)@.cells == old(self)@.cells,
            final(self)@.state == if r {
                GameState::Draw
            } else {
                old(self)@.state
            },
    {
        for i in 0..9usize
            invariant
                *self == *old(self),
                forall|j: int| 0 <= j < i ==> (#[trigger] self@.cells[j]) is Some,
        {
            if self.cells[i].is_none() {
                return false;
            }
        }
        self.state = GameState::Draw;
        true
    }

    /// Places `mark` at `(row, col)` and works out the new state: a completed
    /// line wins, also where it fills the last cell; a full board without one
    /// is a draw.
    pub fn make_move(&mut self, row: usize, col: usize, mark: Mark)
        requires
            old(self)@.accepts(row as int, col as int),
        ensures
            final(self)@ == old(self)@.place(row as int, col as int, mark),
    {
        self.set(row, col, Some(mark));
        self.check_complete();
        self.check_win();
    }
}

impl Grid for Board {
    open spec fn marks(&self) -> Seq<Option<Mark>> {
        self@.cells
    }

    open spec fn playable(&self) -> Seq<bool> {
        self@.playable()
    }

    fn get(&self, row: usize, col: usize) -> (r: Option<Mark>) {
        Board::get(self, row, col)
    }

    /// A cell can be played in while it is empty.
    fn is_playable(&self, row: usize, col: usize) -> (r: bool) {
        Board::get(self, row, col).is_none()
    }
}

impl Game for Board {
    open spec fn valid(v: BoardView) -> bool {
        v.consistent()
    }

    open spec fn state_of(v: BoardView) -> GameState {
        v.state
    }

    open spec fn moves_of(v: BoardView) -> Seq<Move> {
        v.legal_moves()
    }

    open spec fn after(v: BoardView, mv: Move, mark: Mark) -> BoardView {
        v.play(mv, mark)
    }

    open spec fn moves_left(v: BoardView) -> nat {
        v.empty_count()
    }

    proof fn lemma_no_moves_iff_over(v: BoardView) {
        if v.state == GameState::Playing {
            let i = choose|i: int| 0 <= i < 9 && !((#[trigger] v.cells[i]) is Some);
            lemma_free_cells_contains(v.cells, 9, Move::Base((i / 3) as usize, (i % 3) as usize));
        }
    }

    proof fn lemma_after_legal(v: BoardView, mv: Move, mark: Mark) {
        lemma_legal_move_accepted(v, mv);
        let (row, col) = (mv->Base_0, mv->Base_1);
        lemma_free_cells_shrink(v.cells, 9, row * 3 + col, mark);
    }

    fn get_possible_moves(&self) -> (moves: Vec<Move>) {
        let mut moves: Vec<Move> = Vec::new();
        if self.state != GameState::Playing {
            return moves;
        }
        for row in 0..3usize
            invariant
                moves@ == free_cells(self@.cells, (row * 3) as nat),
        {
            for col in 0..3usize
                invariant
                    row < 3,
                    moves@ == free_cells(self@.cells, (row * 3 + col) as nat),
            {
                if self.get(row, col).is_none() {
                    moves.push(Move::Base(row, col));
                }
            }
        }
        moves
    }

    fn play(&mut self, mv: &Move, mark: Mark) {
        proof {
            lemma_legal_move_accepted(self@, *mv);
        }
        let (row, col) = mv.unwrap_base();
        self.make_move(row, col, mark);
    }

    fn score(&self, mark: Mark) -> (s: i32) {
        match self.state {
            GameState::Won(winner) => if winner == mark {
                1
            } else {
                -1
            },
            _ => 0,
        }
    }

    fn get_state(&self) -> (state: GameState) {
        self.state
    }

    fn snapshot(&self) -> (copy: Board) {
        *self
    }

    fn same_position(&self, other: &Board) -> (same: bool) {
        if self.state != other.state {
            return false;
        }
        for i in 0..9usize
            invariant
                self.state == other.state,
                forall|j: int| 0 <= j < i ==> self.cells@[j] == other.cells@[j],
        {
            let here = match (self.cells[i], other.cells[i]) {
                (Some(a), Some(b)) => a == b,
                (None, None) => true,
                _ => false,
            };
            if !here {
                return false;
            }
        }
        assert(self.cells@ =~= other.cells@);
        true
    }
}

} // verus!
