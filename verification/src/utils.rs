//! Moving a selection over a 3x3 grid, past the cells that cannot be played.

use vstd::prelude::*;
use crate::game::Grid;

verus! {

/// A cell of a 3x3 grid, by row and column.
#[derive(Copy, Clone, Debug, PartialEq, Eq, Structural)]
pub struct Position {
    pub row: usize,
    pub col: usize,
}

impl Position {
    /// The position names a cell of the grid.
    pub open spec fn on_grid(self) -> bool {
        self.row < 3 && self.col < 3
    }

    /// The row-major offset of the cell.
    pub open spec fn offset(self) -> int {
        self.row * 3 + self.col
    }
}

/// `n` steps on from `i` round the three places 0, 1, 2; backwards where
/// `forward` is false.
pub open spec fn around(i: int, n: int, forward: bool) -> int {
    if forward {
        (i + n) % 3
    } else {
        (i + 3 - n) % 3
    }
}

/// A walk over the nine cells of the grid, in search of one that can be
/// played.
pub enum Walk {
    /// Column after column, to the right where `forward` holds and to the
    /// left where not; each column from the row of `start`, downwards where
    /// `down` holds and upwards where not.
    Side { start: Position, forward: bool, down: bool },
    /// Row after row, downwards where `forward` holds and upwards where not;
    /// each row from the column of `start`, to the right where `right` holds
    /// and to the left where not.
    Rank { start: Position, forward: bool, right: bool },
    /// Row by row from the first cell.
    RowMajor,
}

impl Walk {
    /// The cell that the walk tries as number `t`, counted from 0.
    pub open spec fn probe(self, t: int) -> Position {
        match self {
            Walk::Side { start, forward, down } => Position {
                row: around(start.row as int, t % 3, down) as usize,
                col: around(start.col as int, t / 3 + 1, forward) as usize,
            },
            Walk::Rank { start, forward, right } => Position {
                row: around(start.row as int, t / 3 + 1, forward) as usize,
                col: around(start.col as int, t % 3, right) as usize,
            },
            Walk::RowMajor => Position { row: (t / 3) as usize, col: (t % 3) as usize },
        }
    }

    /// The cell that the walk tries as number `t` can be played.
    pub open spec fn hits(self, playable: Seq<bool>, t: int) -> bool {
        playable[self.probe(t).offset()]
    }

    /// The walk ends on `found`: the first of its nine cells that can be
    /// played, or `fallback` where none can.
    pub open spec fn ends_on(self, playable: Seq<bool>, fallback: Position, found: Position) -> bool {
        ||| exists|t: int|
            0 <= t < 9 && found == self.probe(t) && #[trigger] self.hits(playable, t) && forall|
                u: int,
            |
                0 <= u < t ==> !#[trigger] self.hits(playable, u)
        ||| found == fallback && forall|t: int| 0 <= t < 9 ==> !#[trigger] self.hits(playable, t)
    }
}

/// Moves the selection one column to the left, from the first column to the
/// last.
pub fn move_selection_left(selected: &mut Position)
    ensures
        final(selected).row == old(selected).row,
        final(selected).col == if old(selected).col > 0 {
            old(selected).col - 1
        } else {
            2
        },
{
    if selected.col > 0 {
        selected.col -= 1;
    } else {
        selected.col = 2;
    }
}

/// Moves the selection one column to the right, from the last column to the
/// first.
pub fn move_selection_right(selected: &mut Position)
    requires
        old(selected).col < usize::MAX,
    ensures
        final(selected).row == old(selected).row,
        final(selected).col == (old(selected).col + 1) % 3,
{
    selected.col = (selected.col + 1) % 3;
}

/// Moves the selection one row up, from the first row to the last.
pub fn move_selection_up(selected: &mut Position)
    ensures
        final(selected).col == old(selected).col,
        final(selected).row == if old(selected).row > 0 {
            old(selected).row - 1
        } else {
            2
        },
{
    if selected.row > 0 {
        selected.row -= 1;
    } else {
        selected.row = 2;
    }
}

/// Moves the selection one row down, from the last row to the first.
pub fn move_selection_down(selected: &mut Position)
    requires
        old(selected).row < usize::MAX,
    ensures
        final(selected).col == old(selected).col,
        final(selected).row == (old(selected).row + 1) % 3,
{
    selected.row = (selected.row + 1) % 3;
}

/// Moves the selection to the next cell in row-major order, from the last
/// cell to the first.
pub fn move_selection_next(selected: &mut Position)
    requires
        old(selected).row < usize::MAX,
        old(selected).col < usize::MAX,
    ensures
        *final(selected) == if old(selected).col + 1 < 3 {
            Position { row: old(selected).row, col: (old(selected).col + 1) as usize }
        } else if old(selected).row + 1 < 3 {
            Position { row: (old(selected).row + 1) as usize, col: 0 }
        } else {
            Position { row: 0, col: 0 }
        },
{
    selected.col += 1;
    if selected.col >= 3 {
        selected.col = 0;
        selected.row += 1;
        if selected.row >= 3 {
            selected.row = 0;
        }
    }
}

/// Moves the selection to the left, on to the first cell that can be played:
/// see `Walk::Side` for the cells it tries. A column is tried downwards, and
/// upwards from the last row. Where no cell can be played, the selection
/// stays.
pub fn move_selection_left_playable<B: Grid>(board: &B, selected: &mut Position)
    requires
        old(selected).on_grid(),
    ensures
        (Walk::Side {
            start: *old(selected),
            forward: false,
            down: old(selected).row != 2,
        }).ends_on(
            board.playable(),
            *old(selected),
            *final(selected),
        ),
{
    let ghost start = *selected;
    let ghost walk = Walk::Side { start, forward: false, down: start.row != 2 };
    for a in 0..3usize
        invariant
            start == *old(selected),
            start.on_grid(),
            walk == (Walk::Side { start, forward: false, down: start.row != 2 }),
            selected.row == start.row,
            selected.col == around(start.col as int, a as int, false),
            forall|u: int| 0 <= u < 3 * a ==> !#[trigger] walk.hits(board.playable(), u),
    {
        let original_row = selected.row;
        move_selection_left(selected);
        for b in 0..3usize
            invariant
                start == *old(selected),
                start.on_grid(),
                a < 3,
                original_row == start.row,
                walk == (Walk::Side { start, forward: false, down: start.row != 2 }),
                selected.row == around(start.row as int, b as int, start.row != 2),
                selected.col == around(start.col as int, a + 1, false),
                forall|u: int|
                    0 <= u < 3 * a + b ==> !#[trigger] walk.hits(board.playable(), u),
        {
            if board.is_playable(selected.row, selected.col) {
                assert(walk.hits(board.playable(), 3 * a + b));
                return ;
            }
            match original_row {
                0 => move_selection_down(selected),
                2 => move_selection_up(selected),
                _ => move_selection_down(selected),
            }
        }
    }
}

/// Moves the selection to the right, on to the first cell that can be
/// played: see `Walk::Side` for the cells it tries. A column is tried
/// downwards, and upwards from the last row. Where no cell can be played, the
/// selection stays.
pub fn move_selection_right_playable<B: Grid>(board: &B, selected: &mut Position)
    requires
        old(selected).on_grid(),
    ensures
        (Walk::Side {
            start: *old(selected),
            forward: true,
            down: old(selected).row != 2,
        }).ends_on(
            board.playable(),
            *old(selected),
            *final(selected),
        ),
{
    let ghost start = *selected;
    let ghost walk = Walk::Side { start, forward: true, down: start.row != 2 };
    for a in 0..3usize
        invariant
            start == *old(selected),
            start.on_grid(),
            walk == (Walk::Side { start, forward: true, down: start.row != 2 }),
            selected.row == start.row,
            selected.col == around(start.col as int, a as int, true),
            forall|u: int| 0 <= u < 3 * a ==> !#[trigger] walk.hits(board.playable(), u),
    {
        let original_row = selected.row;
        move_selection_right(selected);
        for b in 0..3usize
            invariant
                start == *old(selected),
                start.on_grid(),
                a < 3,
                original_row == start.row,
                walk == (Walk::Side { start, forward: true, down: start.row != 2 }),
                selected.row == around(start.row as int, b as int, start.row != 2),
                selected.col == around(start.col as int, a + 1, true),
                forall|u: int|
                    0 <= u < 3 * a + b ==> !#[trigger] walk.hits(board.playable(), u),
        {
            if board.is_playable(selected.row, selected.col) {
                assert(walk.hits(board.playable(), 3 * a + b));
                return ;
            }
            match original_row {
                0 => move_selection_down(selected),
                2 => move_selection_up(selected),
                _ => move_selection_down(selected),
            }
        }
    }
}

/// Moves the selection up, on to the first cell that can be played: see
/// `Walk::Rank` for the cells it tries. A row is tried to the right, and to
/// the left from the last column. Where no cell can be played, the selection
/// stays.
pub fn move_selection_up_playable<B: Grid>(board: &B, selected: &mut Position)
    requires
        old(selected).on_grid(),
    ensures
        (Walk::Rank {
            start: *old(selected),
            forward: false,
            right: old(selected).col != 2,
        }).ends_on(
            board.playable(),
            *old(selected),
            *final(selected),
        ),
{
    let ghost start = *selected;
    let ghost walk = Walk::Rank { start, forward: false, right: start.col != 2 };
    for a in 0..3usize
        invariant
            start == *old(selected),
            start.on_grid(),
            walk == (Walk::Rank { start, forward: false, right: start.col != 2 }),
            selected.col == start.col,
            selected.row == around(start.row as int, a as int, false),
            forall|u: int| 0 <= u < 3 * a ==> !#[trigger] walk.hits(board.playable(), u),
    {
        let original_col = selected.col;
        move_selection_up(selected);
        for b in 0..3usize
            invariant
                start == *old(selected),
                start.on_grid(),
                a < 3,
                original_col == start.col,
                walk == (Walk::Rank { start, forward: false, right: start.col != 2 }),
                selected.col == around(start.col as int, b as int, start.col != 2),
                selected.row == around(start.row as int, a + 1, false),
                forall|u: int|
                    0 <= u < 3 * a + b ==> !#[trigger] walk.hits(board.playable(), u),
        {
            if board.is_playable(selected.row, selected.col) {
                assert(walk.hits(board.playable(), 3 * a + b));
                return ;
            }
            match original_col {
                0 => move_selection_right(selected),
                2 => move_selection_left(selected),
                _ => move_selection_right(selected),
            }
        }
    }
}

/// Moves the selection down, on to the first cell that can be played: see
/// `Walk::Rank` for the cells it tries. A row is tried to the right, and to
/// the left from the last column. Where no cell can be played, the selection
/// stays.
pub fn move_selection_down_playable<B: Grid>(board: &B, selected: &mut Position)
    requires
        old(selected).on_grid(),
    ensures
        (Walk::Rank {
            start: *old(selected),
            forward: true,
            right: old(selected).col != 2,
        }).ends_on(
            board.playable(),
            *old(selected),
            *final(selected),
        ),
{
    let ghost start = *selected;
    let ghost walk = Walk::Rank { start, forward: true, right: start.col != 2 };
    for a in 0..3usize
        invariant
            start == *old(selected),
            start.on_grid(),
            walk == (Walk::Rank { start, forward: true, right: start.col != 2 }),
            selected.col == start.col,
            selected.row == around(start.row as int, a as int, true),
            forall|u: int| 0 <= u < 3 * a ==> !#[trigger] walk.hits(board.playable(), u),
    {
        let original_col = selected.col;
        move_selection_down(selected);
        for b in 0..3usize
            invariant
                start == *old(selected),
                start.on_grid(),
                a < 3,
                original_col == start.col,
                walk == (Walk::Rank { start, forward: true, right: start.col != 2 }),
                selected.col == around(start.col as int, b as int, start.col != 2),
                selected.row == around(start.row as int, a + 1, true),
                forall|u: int|
                    0 <= u < 3 * a + b ==> !#[trigger] walk.hits(board.playable(), u),
        {
            if board.is_playable(selected.row, selected.col) {
                assert(walk.hits(board.playable(), 3 * a + b));
                return ;
            }
            match original_col {
                0 => move_selection_right(selected),
                2 => move_selection_left(selected),
                _ => move_selection_right(selected),
            }
        }
    }
}

/// Puts the selection on the first cell, in row-major order, that can be
/// played; on the first cell of the grid where none can.
pub fn reset_position<B: Grid>(board: &B, selected: &mut Position)
    ensures
        Walk::RowMajor.ends_on(board.playable(), Position { row: 0, col: 0 }, *final(selected)),
{
    selected.row = 0;
    selected.col = 0;
    let ghost walk = Walk::RowMajor;
    for t in 0..9usize
        invariant
            walk == Walk::RowMajor,
            *selected == walk.probe((t % 9) as int),
            forall|u: int| 0 <= u < t ==> !#[trigger] walk.hits(board.playable(), u),
    {
        if board.is_playable(selected.row, selected.col) {
            assert(walk.hits(board.playable(), t as int));
            return ;
        }
        move_selection_next(selected);
    }
}

} // verus!
