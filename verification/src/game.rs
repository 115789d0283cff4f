//! Marks, outcomes and the winning rule shared by every 3x3 grid.

use vstd::prelude::*;
use vstd::string::StringExecFns;

pub mod base;
pub mod ultimate;

verus! {

/// One of the two players' symbols.
#[derive(Copy, Clone, Debug, PartialEq, Eq, Structural)]
pub enum Mark {
    X,
    O,
}

impl Mark {
    /// The opponent's mark.
    pub open spec fn other(self) -> Mark {
        match self {
            Mark::X => Mark::O,
            Mark::O => Mark::X,
        }
    }

    /// The text that stands for this mark.
    pub open spec fn text(self) -> Seq<char> {
        match self {
            Mark::X => "X"@,
            Mark::O => "O"@,
        }
    }

    /// Hands the turn to the opponent.
    pub fn switch(self) -> (r: Mark)
        ensures
            r == self.other(),
    {
        match self {
            Mark::X => Mark::O,
            Mark::O => Mark::X,
        }
    }

    /// The text to print for this mark.
    pub fn to_string(&self) -> (text: String)
        ensures
            text@ == self.text(),
    {
        match self {
            Mark::X => String::from_str("X"),
            Mark::O => String::from_str("O"),
        }
    }
}

/// Whether a game is still running, and how it ended if it is not.
#[derive(Copy, Clone, Debug, PartialEq, Eq, Structural)]
pub enum GameState {
    Playing,
    Won(Mark),
    Draw,
}

/// The mark that holds all three of the cells `a`, `b` and `c`, if one does.
pub open spec fn line(cells: Seq<Option<Mark>>, a: int, b: int, c: int) -> Option<Mark> {
    if cells[a] is Some && cells[b] == cells[a] && cells[c] == cells[a] {
        cells[a]
    } else {
        None
    }
}

/// The winning rule of a 3x3 grid given row-major: the first completed line,
/// looking at the two diagonals, then at row and column 0, 1 and 2 in turn.
pub open spec fn winner(cells: Seq<Option<Mark>>) -> Option<Mark> {
    if line(cells, 0, 4, 8) is Some {
        line(cells, 0, 4, 8)
    } else if line(cells, 2, 4, 6) is Some {
        line(cells, 2, 4, 6)
    } else if line(cells, 0, 1, 2) is Some {
        line(cells, 0, 1, 2)
    } else if line(cells, 0, 3, 6) is Some {
        line(cells, 0, 3, 6)
    } else if line(cells, 3, 4, 5) is Some {
        line(cells, 3, 4, 5)
    } else if line(cells, 1, 4, 7) is Some {
        line(cells, 1, 4, 7)
    } else if line(cells, 6, 7, 8) is Some {
        line(cells, 6, 7, 8)
    } else {
        line(cells, 2, 5, 8)
    }
}

/// Two cells of the 3x3 grid that differ in row or column stand at
/// different places of its row-major list: no cell is another's alias.
pub proof fn lemma_cells_apart(row: int, col: int, other_row: int, other_col: int)
    requires
        0 <= row < 3 && 0 <= col < 3,
        0 <= other_row < 3 && 0 <= other_col < 3,
        row != other_row || col != other_col,
    ensures
        row * 3 + col != other_row * 3 + other_col,
        0 <= row * 3 + col < 9,
{
}

/// No cell of the grid is empty.
pub open spec fn full(cells: Seq<Option<Mark>>) -> bool {
    forall|i: int| 0 <= i < 9 ==> (#[trigger] cells[i]) is Some
}

/// The outcome that a grid's cells stand for. A completed line wins even
/// when it also fills the last empty cell.
pub open spec fn outcome(cells: Seq<Option<Mark>>) -> GameState {
    match winner(cells) {
        Some(mark) => GameState::Won(mark),
        None => if full(cells) {
            GameState::Draw
        } else {
            GameState::Playing
        },
    }
}

/// How a finished or running game counts for `mark`: 1 for its win, -1 for
/// the opponent's, 0 for a draw or a game still running.
pub open spec fn score_of(state: GameState, mark: Mark) -> int {
    match state {
        GameState::Won(m) => if m == mark {
            1int
        } else {
            -1int
        },
        _ => 0int,
    }
}

/// The text of the cell at row-major offset `index`: its mark, or the
/// offset where it is empty, with a blank to either side.
pub open spec fn cell_text(cell: Option<Mark>, index: int) -> Seq<char> {
    match cell {
        Some(Mark::X) => " X "@,
        Some(Mark::O) => " O "@,
        None => if index == 0 {
            " 0 "@
        } else if index == 1 {
            " 1 "@
        } else if index == 2 {
            " 2 "@
        } else if index == 3 {
            " 3 "@
        } else if index == 4 {
            " 4 "@
        } else if index == 5 {
            " 5 "@
        } else if index == 6 {
            " 6 "@
        } else if index == 7 {
            " 7 "@
        } else {
            " 8 "@
        },
    }
}

/// The text of a row of the grid: its three cells with a bar between them.
pub open spec fn row_text(cells: Seq<Option<Mark>>, row: int) -> Seq<char> {
    cell_text(cells[row * 3], row * 3) + "|"@ + cell_text(cells[row * 3 + 1], row * 3 + 1) + "|"@
        + cell_text(cells[row * 3 + 2], row * 3 + 2)
}

/// The text of a grid: its three rows, with a rule on a line of its own
/// between them.
pub open spec fn grid_text(cells: Seq<Option<Mark>>) -> Seq<char> {
    row_text(cells, 0) + "\n"@ + "-----------\n"@ + row_text(cells, 1) + "\n"@ + "-----------\n"@
        + row_text(cells, 2)
}

/// Appends the text of the cell `cell` at row-major offset `index` to
/// `text`.
fn write_cell(text: &mut String, cell: Option<Mark>, index: usize)
    requires
        index < 9,
    ensures
        final(text)@ == old(text)@ + cell_text(cell, index as int),
{
    match cell {
        Some(Mark::X) => text.append(" X "),
        Some(Mark::O) => text.append(" O "),
        None => {
            if index == 0 {
                text.append(" 0 ")
            } else if index == 1 {
                text.append(" 1 ")
            } else if index == 2 {
                text.append(" 2 ")
            } else if index == 3 {
                text.append(" 3 ")
            } else if index == 4 {
                text.append(" 4 ")
            } else if index == 5 {
                text.append(" 5 ")
            } else if index == 6 {
                text.append(" 6 ")
            } else if index == 7 {
                text.append(" 7 ")
            } else {
                text.append(" 8 ")
            }
        },
    }
}

/// The text of the grid `cells`, for a terminal.
pub fn write_grid(cells: &[Option<Mark>; 9]) -> (text: String)
    ensures
        text@ == grid_text(cells@),
{
    let mut text = String::new();
    for row in 0..3usize
        invariant
            text@ == if row == 0 {
                Seq::<char>::empty()
            } else if row == 1 {
                row_text(cells@, 0) + "\n"@ + "-----------\n"@
            } else if row == 2 {
                row_text(cells@, 0) + "\n"@ + "-----------\n"@ + row_text(cells@, 1) + "\n"@
                    + "-----------\n"@
            } else {
                grid_text(cells@)
            },
    {
        let ghost line = text@;
        for col in 0..3usize
            invariant
                row < 3,
                text@ == line + if col == 0 {
                    Seq::<char>::empty()
                } else if col == 1 {
                    cell_text(cells@[row * 3], row * 3) + "|"@
                } else if col == 2 {
                    cell_text(cells@[row * 3], row * 3) + "|"@ + cell_text(
                        cells@[row * 3 + 1],
                        row * 3 + 1,
                    ) + "|"@
                } else {
                    row_text(cells@, row as int)
                },
        {
            let index = row * 3 + col;
            write_cell(&mut text, cells[index], index);
            if col < 2 {
                text.append("|");
            }
        }
        if row < 2 {
            text.append("\n");
            text.append("-----------\n");
        }
    }
    text
}

/// A bare 3x3 grid of cells, without a recorded state: the rules are asked of
/// it cell by cell.
#[derive(Copy, Clone, Debug, PartialEq)]
pub struct Board {
    cells: [Option<Mark>; 9],
}

impl View for Board {
    type V = Seq<Option<Mark>>;

    closed spec fn view(&self) -> Seq<Option<Mark>> {
        self.cells@
    }
}

impl Board {
    /// A grid of nine empty cells.
    pub fn new() -> (b: Board)
        ensures
            b@ == Seq::new(9, |i: int| None::<Mark>),
    {
        let b = Board { cells: [None;9] };
        b
    }

    /// A grid has nine cells.
    pub proof fn lemma_nine_cells(&self)
        ensures
            self@.len() == 9,
    {
    }

    /// The mark in the cell at row `row` and column `col` of the 3x3 grid.
    pub fn get(&self, row: usize, col: usize) -> (r: Option<Mark>)
        requires
            row < 3,
            col < 3,
        ensures
            r == self@[row * 3 + col],
    {
        self.cells[row * 3 + col]
    }

    /// Overwrites the cell at row `row` and column `col` of the 3x3 grid.
    pub fn set(&mut self, row: usize, col: usize, mark: Option<Mark>)
        requires
            row < 3,
            col < 3,
        ensures
            final(self)@ == old(self)@.update(row * 3 + col, mark),
    {
        self.cells[row * 3 + col] = mark;
    }

    /// Overwrites row `row` with `marks`, left to right.
    pub fn set_row(&mut self, row: usize, marks: [Option<Mark>; 3])
        requires
            row < 3,
        ensures
            final(self)@ == old(self)@.update(row * 3, marks@[0]).update(
                row * 3 + 1,
                marks@[1],
            ).update(row * 3 + 2, marks@[2]),
    {
        for col in 0..3usize
            invariant
                row < 3,
                self@.len() == 9,
                forall|i: int|
                    0 <= i < 9 ==> self@[i] == if row * 3 <= i < row * 3 + col {
                        marks@[i - row * 3]
                    } else {
                        old(self)@[i]
                    },
        {
            self.set(row, col, marks[col]);
        }
    }

    /// Overwrites column `col` with `marks`, top to bottom.
    pub fn set_col(&mut self, col: usize, marks: [Option<Mark>; 3])
        requires
            col < 3,
        ensures
            final(self)@ == old(self)@.update(col as int, marks@[0]).update(col + 3, marks@[1]).update(
                col + 6,
                marks@[2],
            ),
    {
        for row in 0..3usize
            invariant
                col < 3,
                self@.len() == 9,
                forall|i: int|
                    0 <= i < 9 ==> self@[i] == if i % 3 == col && i / 3 < row {
                        marks@[i / 3]
                    } else {
                        old(self)@[i]
                    },
        {
            self.set(row, col, marks[row]);
        }
    }

    /// The mark that fills row `row`, if one does.
    pub fn check_row(&self, row: usize) -> (r: Option<Mark>)
        requires
            row < 3,
        ensures
            r == line(self@, row * 3, row * 3 + 1, row * 3 + 2),
    {
        let mark_0 = self.get(row, 0)?;
        for i in 1..3usize
            invariant
                row < 3,
                self@[row * 3] == Some(mark_0),
                i > 1 ==> self@[row * 3 + 1] == Some(mark_0),
                i > 2 ==> self@[row * 3 + 2] == Some(mark_0),
        {
            let mark_i = self.get(row, i)?;
            if mark_i != mark_0 {
                return None;
            }
        }
        Some(mark_0)
    }

    /// The mark that fills column `col`, if one does.
    pub fn check_col(&self, col: usize) -> (r: Option<Mark>)
        requires
            col < 3,
        ensures
            r == line(self@, col as int, col + 3, col + 6),
    {
        let mark_0 = self.get(0, col)?;
        for i in 1..3usize
            invariant
                col < 3,
                self@[col as int] == Some(mark_0),
                i > 1 ==> self@[col + 3] == Some(mark_0),
                i > 2 ==> self@[col + 6] == Some(mark_0),
        {
            let mark_i = self.get(i, col)?;
            if mark_i != mark_0 {
                return None;
            }
        }
        Some(mark_0)
    }

    /// The mark that fills the diagonal from the top left, if one does.
    pub fn check_diag_dexter(&self) -> (r: Option<Mark>)
        ensures
            r == line(self@, 0, 4, 8),
    {
        let mark_0 = self.get(0, 0)?;
        for i in 1..3usize
            invariant
                self@[0] == Some(mark_0),
                i > 1 ==> self@[4] == Some(mark_0),
                i > 2 ==> self@[8] == Some(mark_0),
        {
            let mark_i = self.get(i, i)?;
            if mark_i != mark_0 {
                return None;
            }
        }
        Some(mark_0)
    }

    /// The mark that fills the diagonal from the top right, if one does.
    pub fn check_diag_sinister(&self) -> (r: Option<Mark>)
        ensures
            r == line(self@, 2, 4, 6),
    {
        let mark_0 = self.get(0, 2)?;
        for i in 1..3usize
            invariant
                self@[2] == Some(mark_0),
                i > 1 ==> self@[4] == Some(mark_0),
                i > 2 ==> self@[6] == Some(mark_0),
        {
            let mark_i = self.get(i, 2 - i)?;
            if mark_i != mark_0 {
                return None;
            }
        }
        Some(mark_0)
    }

    /// The winner that the cells show, if they show one.
    pub fn check_all(&self) -> (r: Option<Mark>)
        ensures
            r == winner(self@),
    {
        if let Some(mark) = self.check_diag_dexter() {
            return Some(mark);
        }
        if let Some(mark) = self.check_diag_sinister() {
            return Some(mark);
        }
        for i in 0..3usize
            invariant
                line(self@, 0, 4, 8) is None,
                line(self@, 2, 4, 6) is None,
                i > 0 ==> line(self@, 0, 1, 2) is None && line(self@, 0, 3, 6) is None,
                i > 1 ==> line(self@, 3, 4, 5) is None && line(self@, 1, 4, 7) is None,
                i > 2 ==> line(self@, 6, 7, 8) is None && line(self@, 2, 5, 8) is None,
        {
            if let Some(mark) = self.check_row(i) {
                return Some(mark);
            }
            if let Some(mark) = self.check_col(i) {
                return Some(mark);
            }
        }
        None
    }

    /// The grid as text: each cell shows its mark, or its row-major offset
    /// where it is empty.
    pub fn to_string(&self) -> (text: String)
        ensures
            text@ == grid_text(self@),
    {
        write_grid(&self.cells)
    }

    /// Whether every cell is taken.
    pub fn check_complete(&self) -> (r: bool)
        ensures
            r == full(self@),
    {
        for i in 0..9usize
            invariant
                forall|j: int| 0 <= j < i ==> (#[trigger] self@[j]) is Some,
        {
            if self.cells[i].is_none() {
                return false;
            }
        }
        true
    }
}

/// A 3x3 grid that can be read cell by cell: a board of marks, or a board of
/// boards, where a cell holds the mark that won the board standing there.
pub trait Grid {
    /// What each of the nine cells holds, row by row.
    spec fn marks(&self) -> Seq<Option<Mark>>;

    /// Which of the nine cells can still be played in, row by row.
    spec fn playable(&self) -> Seq<bool>;

    /// The mark in the cell at row `row` and column `col` of the 3x3 grid.
    fn get(&self, row: usize, col: usize) -> (r: Option<Mark>)
        requires
            row < 3,
            col < 3,
        ensures
            r == self.marks()[row * 3 + col],
    ;

    /// Whether the cell at row `row` and column `col` can be played in.
    fn is_playable(&self, row: usize, col: usize) -> (r: bool)
        requires
            row < 3,
            col < 3,
        ensures
            r == self.playable()[row * 3 + col],
    ;
}

/// The mark that holds the three cells of `board` at `(r0, c0)`, `(r1, c1)`
/// and `(r2, c2)`, if one does.
fn check_line<B: Grid>(
    board: &B,
    r0: usize,
    c0: usize,
    r1: usize,
    c1: usize,
    r2: usize,
    c2: usize,
) -> (r: Option<Mark>)
    requires
        r0 < 3 && c0 < 3 && r1 < 3 && c1 < 3 && r2 < 3 && c2 < 3,
    ensures
        r == line(board.marks(), r0 * 3 + c0, r1 * 3 + c1, r2 * 3 + c2),
{
    let mark_0 = board.get(r0, c0)?;
    let mark_1 = board.get(r1, c1)?;
    if mark_1 != mark_0 {
        return None;
    }
    let mark_2 = board.get(r2, c2)?;
    if mark_2 != mark_0 {
        return None;
    }
    Some(mark_0)
}

/// The winner of any grid, by the rule of `winner`.
pub fn check_win<B: Grid>(board: &B) -> (r: Option<Mark>)
    ensures
        r == winner(board.marks()),
{
    if let Some(mark) = check_line(board, 0, 0, 1, 1, 2, 2) {
        return Some(mark);
    }
    if let Some(mark) = check_line(board, 0, 2, 1, 1, 2, 0) {
        return Some(mark);
    }
    for i in 0..3usize
        invariant
            line(board.marks(), 0, 4, 8) is None,
            line(board.marks(), 2, 4, 6) is None,
            i > 0 ==> line(board.marks(), 0, 1, 2) is None && line(board.marks(), 0, 3, 6) is None,
            i > 1 ==> line(board.marks(), 3, 4, 5) is None && line(board.marks(), 1, 4, 7) is None,
            i > 2 ==> line(board.marks(), 6, 7, 8) is None && line(board.marks(), 2, 5, 8) is None,
    {
        if let Some(mark) = check_line(board, i, 0, i, 1, i, 2) {
            return Some(mark);
        }
        if let Some(mark) = check_line(board, 0, i, 1, i, 2, i) {
            return Some(mark);
        }
    }
    None
}

} // verus!
