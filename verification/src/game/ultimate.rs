//! The board of boards.

use vstd::prelude::*;
use crate::ai::{Game, Move};
use crate::game::base::{
    lemma_free_cells_shrink, lemma_legal_move_accepted, Board, BoardView,
};
use crate::game::{check_win, winner, GameState, Grid, Mark};

verus! {

/// What a board of boards is, mathematically: its nine small boards row by
/// row, the state recorded for the whole game, and the small board that the
/// next move is bound to, if it is bound to one.
#[verifier::ext_equal]
pub struct BigBoardView {
    pub boards: Seq<BoardView>,
    pub state: GameState,
    pub active_board: Option<(usize, usize)>,
}

/// The nine small boards read as the cells of one grid: a cell holds the mark
/// that won the board standing there, and is empty while that board is
/// running or when it was drawn.
pub open spec fn meta_cells(boards: Seq<BoardView>) -> Seq<Option<Mark>> {
    Seq::new(
        9,
        |i: int|
            match boards[i].state {
                GameState::Won(mark) => Some(mark),
                _ => None,
            },
    )
}

/// None of the nine small boards is still running.
pub open spec fn all_over(boards: Seq<BoardView>) -> bool {
    forall|i: int| 0 <= i < 9 ==> (#[trigger] boards[i]).state != GameState::Playing
}

/// The outcome that nine small boards stand for: a line of boards won by one
/// mark wins, also where it ends the last running board; without one, the
/// game is drawn once no board is running.
pub open spec fn meta_outcome(boards: Seq<BoardView>) -> GameState {
    match winner(meta_cells(boards)) {
        Some(mark) => GameState::Won(mark),
        None => if all_over(boards) {
            GameState::Draw
        } else {
            GameState::Playing
        },
    }
}

/// The legal moves of the small board `board`, standing at `(board_row,
/// board_col)`, as moves on the board of boards.
pub open spec fn board_moves(board: BoardView, board_row: usize, board_col: usize) -> Seq<Move> {
    Seq::new(
        board.legal_moves().len(),
        |i: int|
            Move::Ultimate(
                board_row,
                board_col,
                board.legal_moves()[i]->Base_0,
                board.legal_moves()[i]->Base_1,
            ),
    )
}

/// The legal moves of the first `n` small boards, board by board.
pub open spec fn free_moves(boards: Seq<BoardView>, n: nat) -> Seq<Move>
    decreases n,
{
    if n == 0 {
        Seq::empty()
    } else {
        free_moves(boards, (n - 1) as nat) + board_moves(
            boards[n - 1],
            ((n - 1) / 3) as usize,
            ((n - 1) % 3) as usize,
        )
    }
}

/// The number of empty cells in the first `n` small boards.
pub open spec fn empty_cells(boards: Seq<BoardView>, n: nat) -> nat
    decreases n,
{
    if n == 0 {
        0
    } else {
        empty_cells(boards, (n - 1) as nat) + boards[n - 1].empty_count()
    }
}

/// A move is among `board_moves(board, board_row, board_col)` exactly when it
/// names that board and a legal move of it.
pub proof fn lemma_board_moves_contains(
    board: BoardView,
    board_row: usize,
    board_col: usize,
    mv: Move,
)
    ensures
        board_moves(board, board_row, board_col).contains(mv) <==> (mv matches Move::Ultimate(
            br,
            bc,
            cr,
            cc,
        ) && br == board_row && bc == board_col && board.legal_moves().contains(
            Move::Base(cr, cc),
        )),
{
    let inner = board.legal_moves();
    let outer = board_moves(board, board_row, board_col);
    if outer.contains(mv) {
        let i = choose|i: int| 0 <= i < outer.len() && outer[i] == mv;
        lemma_legal_move_accepted(board, inner[i]);
    }
    if let Move::Ultimate(br, bc, cr, cc) = mv {
        if br == board_row && bc == board_col && inner.contains(Move::Base(cr, cc)) {
            let i = choose|i: int| 0 <= i < inner.len() && inner[i] == Move::Base(cr, cc);
            assert(outer[i] == mv);
        }
    }
}

/// A move is among `free_moves(boards, n)` exactly when it names one of the
/// first `n` small boards by its row and column, and a legal move of it.
pub proof fn lemma_free_moves_contains(boards: Seq<BoardView>, n: nat, mv: Move)
    requires
        n <= 9,
    ensures
        free_moves(boards, n).contains(mv) <==> (mv matches Move::Ultimate(br, bc, cr, cc) && bc
            < 3 && br * 3 + bc < n && boards[br * 3 + bc].legal_moves().contains(
            Move::Base(cr, cc),
        )),
    decreases n,
{
    if n > 0 {
        let before = free_moves(boards, (n - 1) as nat);
        let row = ((n - 1) / 3) as usize;
        let col = ((n - 1) % 3) as usize;
        let last = board_moves(boards[n - 1], row, col);
        lemma_free_moves_contains(boards, (n - 1) as nat, mv);
        lemma_board_moves_contains(boards[n - 1], row, col, mv);
        assert((before + last).contains(mv) <==> before.contains(mv) || last.contains(mv)) by {
            if before.contains(mv) {
                let i = choose|i: int| 0 <= i < before.len() && before[i] == mv;
                assert((before + last)[i] == mv);
            }
            if last.contains(mv) {
                let i = choose|i: int| 0 <= i < last.len() && last[i] == mv;
                assert((before + last)[before.len() + i] == mv);
            }
        }
    }
}

/// Taking an empty cell of the small board at offset `at` leaves one empty
/// cell fewer among the first `n` boards when that board is one of them, and
/// as many otherwise.
pub proof fn lemma_empty_cells_shrink(
    boards: Seq<BoardView>,
    n: nat,
    at: int,
    row: int,
    col: int,
    mark: Mark,
)
    requires
        n <= boards.len(),
        0 <= at < boards.len(),
        boards[at].cells.len() == 9,
        boards[at].accepts(row, col),
    ensures
        empty_cells(boards.update(at, boards[at].place(row, col, mark)), n) + (if at < n {
            1int
        } else {
            0int
        }) == empty_cells(boards, n),
    decreases n,
{
    if n > 0 {
        lemma_empty_cells_shrink(boards, (n - 1) as nat, at, row, col, mark);
        if at == n - 1 {
            lemma_free_cells_shrink(boards[at].cells, 9, row * 3 + col, mark);
        }
    }
}

impl BigBoardView {
    /// The board of boards on which nothing has been played.
    pub open spec fn empty() -> BigBoardView {
        BigBoardView {
            boards: Seq::new(9, |i: int| BoardView::empty()),
            state: GameState::Playing,
            active_board: None,
        }
    }

    /// Every small board is consistent, the recorded state is the one they add
    /// up to, and a board that the next move is bound to is still running.
    pub open spec fn consistent(self) -> bool {
        &&& self.boards.len() == 9
        &&& forall|i: int| 0 <= i < 9 ==> (#[trigger] self.boards[i]).consistent()
        &&& self.state == meta_outcome(self.boards)
        &&& self.active_board matches Some(active) ==> active.0 < 3 && active.1 < 3
            && self.boards[active.0 * 3 + active.1].state == GameState::Playing
    }

    /// A mark may be placed in cell `(cell_row, cell_col)` of the small board at
    /// `(board_row, board_col)`: the game is running, the board is one of the
    /// nine, the move is not bound to another board, and that board accepts the
    /// mark there.
    pub open spec fn accepts(self, board_row: int, board_col: int, cell_row: int, cell_col: int) -> bool {
        &&& self.state == GameState::Playing
        &&& self.active_board matches Some(active) ==> active.0 == board_row && active.1
            == board_col
        &&& 0 <= board_row < 3
        &&& 0 <= board_col < 3
        &&& self.boards[board_row * 3 + board_col].accepts(cell_row, cell_col)
    }

    /// The board of boards after `mark` went to cell `(cell_row, cell_col)` of
    /// the small board at `(board_row, board_col)`. The next move is bound to
    /// the board at the cell's own position if that board is still running,
    /// and free otherwise.
    pub open spec fn place(
        self,
        board_row: int,
        board_col: int,
        cell_row: int,
        cell_col: int,
        mark: Mark,
    ) -> BigBoardView {
        let at = board_row * 3 + board_col;
        let boards = self.boards.update(at, self.boards[at].place(cell_row, cell_col, mark));
        BigBoardView {
            boards,
            state: meta_outcome(boards),
            active_board: if boards[cell_row * 3 + cell_col].state == GameState::Playing {
                Some((cell_row as usize, cell_col as usize))
            } else {
                None
            },
        }
    }

    /// The legal moves: none once the game is over; the moves of the board
    /// that the next move is bound to; or, when it is free, the moves of every
    /// small board in row-major order.
    pub open spec fn legal_moves(self) -> Seq<Move> {
        if self.state != GameState::Playing {
            Seq::empty()
        } else {
            match self.active_board {
                Some(active) => if active.0 < 3 && active.1 < 3 {
                    board_moves(self.boards[active.0 * 3 + active.1], active.0, active.1)
                } else {
                    Seq::empty()
                },
                None => free_moves(self.boards, 9),
            }
        }
    }

    /// Which of the nine small boards can be played in: the running ones.
    pub open spec fn playable(self) -> Seq<bool> {
        Seq::new(9, |i: int| self.boards[i].state == GameState::Playing)
    }

    /// The board of boards after the move `mv` by `mark`.
    pub open spec fn play(self, mv: Move, mark: Mark) -> BigBoardView {
        match mv {
            Move::Ultimate(board_row, board_col, cell_row, cell_col) => self.place(
                board_row as int,
                board_col as int,
                cell_row as int,
                cell_col as int,
                mark,
            ),
            Move::Base(..) => self,
        }
    }
}

/// A legal move names, by rows and columns below 3, a cell that accepts a
/// mark.
pub proof fn lemma_legal_move_accepted_big(v: BigBoardView, mv: Move)
    requires
        v.legal_moves().contains(mv),
    ensures
        mv matches Move::Ultimate(br, bc, cr, cc) && br < 3 && bc < 3 && cr < 3 && cc < 3
            && v.accepts(br as int, bc as int, cr as int, cc as int),
{
    match v.active_board {
        Some(active) => {
            lemma_board_moves_contains(v.boards[active.0 * 3 + active.1], active.0, active.1, mv);
        },
        None => {
            lemma_free_moves_contains(v.boards, 9, mv);
        },
    }
    let (br, bc, cr, cc) = (mv->Ultimate_0, mv->Ultimate_1, mv->Ultimate_2, mv->Ultimate_3);
    lemma_legal_move_accepted(v.boards[br * 3 + bc], Move::Base(cr, cc));
}

/// A board of boards whose game is over accepts no mark, and neither does a
/// small board of it whose own game is over: an outcome is never left.
pub proof fn lemma_over_accepts_nothing_big(
    v: BigBoardView,
    board_row: int,
    board_col: int,
    cell_row: int,
    cell_col: int,
)
    requires
        v.state != GameState::Playing || (0 <= board_row < 3 && 0 <= board_col < 3
            && v.boards[board_row * 3 + board_col].state != GameState::Playing),
    ensures
        !v.accepts(board_row, board_col, cell_row, cell_col),
{
}

/// A mark that is accepted leaves a consistent board of boards consistent:
/// the moves are again empty exactly when the game is over, and a board that
/// the next move is bound to is one of the nine and running.
pub proof fn lemma_place_keeps_consistent(
    v: BigBoardView,
    board_row: int,
    board_col: int,
    cell_row: int,
    cell_col: int,
    mark: Mark,
)
    requires
        v.consistent(),
        v.accepts(board_row, board_col, cell_row, cell_col),
    ensures
        v.place(board_row, board_col, cell_row, cell_col, mark).consistent(),
{
    let next = v.place(board_row, board_col, cell_row, cell_col, mark);
    assert forall|i: int| 0 <= i < 9 implies (#[trigger] next.boards[i]).consistent() by {
        assert(v.boards[i].consistent());
    }
}

/// The three small boards at `a`, `b` and `c` were all won by `mark`.
pub open spec fn won_line(boards: Seq<BoardView>, a: int, b: int, c: int, mark: Mark) -> bool {
    boards[a].state == GameState::Won(mark) && boards[b].state == GameState::Won(mark)
        && boards[c].state == GameState::Won(mark)
}

/// The whole game is won only through three small boards in a line that
/// were each won by the winner. A drawn small board counts as an empty cell,
/// and so is part of no such line.
pub proof fn lemma_meta_win_from_won_boards(boards: Seq<BoardView>, mark: Mark)
    requires
        meta_outcome(boards) == GameState::Won(mark),
    ensures
        won_line(boards, 0, 4, 8, mark) || won_line(boards, 2, 4, 6, mark) || won_line(
            boards,
            0,
            1,
            2,
            mark,
        ) || won_line(boards, 3, 4, 5, mark) || won_line(boards, 6, 7, 8, mark) || won_line(
            boards,
            0,
            3,
            6,
            mark,
        ) || won_line(boards, 1, 4, 7, mark) || won_line(boards, 2, 5, 8, mark),
        forall|i: int|
            0 <= i < 9 && boards[i].state == GameState::Draw ==> (#[trigger] meta_cells(
                boards,
            )[i]) is None,
{
}

/// A 3x3 grid of small boards.
#[derive(Copy, Clone, Debug, PartialEq)]
pub struct BigBoard {
    pub boards: [Board; 9],
    pub state: GameState,
    pub active_board: Option<(usize, usize)>,
}

impl View for BigBoard {
    type V = BigBoardView;

    open spec fn view(&self) -> BigBoardView {
        BigBoardView {
            boards: Seq::new(9, |i: int| self.boards@[i]@),
            state: self.state,
            active_board: self.active_board,
        }
    }
}

impl BigBoard {
    /// Nine empty small boards, the game running and the first move free.
    pub fn new() -> (b: BigBoard)
        ensures
            b@ == BigBoardView::empty(),
    {
        let b = BigBoard { boards: [Board::new();9], state: GameState::Playing, active_board: None };
        b
    }

    /// The small board at row `board_row` and column `board_col`.
    pub fn get_board(&self, board_row: usize, board_col: usize) -> (board: &Board)
        requires
            board_row < 3,
            board_col < 3,
        ensures
            board@ == self@.boards[board_row * 3 + board_col],
    {
        &self.boards[board_row * 3 + board_col]
    }

    /// The mark in cell `(cell_row, cell_col)` of the small board at
    /// `(board_row, board_col)`.
    pub fn get(&mut self, board_row: usize, board_col: usize, cell_row: usize, cell_col: usize) -> (r:
        Option<Mark>)
        requires
            board_row < 3,
            board_col < 3,
            cell_row < 3,
            cell_col < 3,
        ensures
            r == old(self)@.boards[board_row * 3 + board_col].cells[cell_row * 3 + cell_col],
            *final(self) == *old(self),
    {
        self.get_board(board_row, board_col).get(cell_row, cell_col)
    }

    /// Whether no small board is still running.
    pub fn check_complete(&self) -> (r: bool)
        ensures
            r == all_over(self@.boards),
    {
        for board_row in 0..3usize
            invariant
                forall|i: int|
                    0 <= i < board_row * 3 ==> (#[trigger] self@.boards[i]).state
                        != GameState::Playing,
        {
            for board_col in 0..3usize
                invariant
                    board_row < 3,
                    forall|i: int|
                        0 <= i < board_row * 3 + board_col ==> (#[trigger] self@.boards[i]).state
                            != GameState::Playing,
            {
                if self.boards[board_row * 3 + board_col].get_state() == GameState::Playing {
                    assert(self@.boards[board_row * 3 + board_col].state == GameState::Playing);
                    return false;
                }
            }
        }
        true
    }

    /// The state that the small boards add up to.
    pub fn derive_state(&self) -> (state: GameState)
        ensures
            state == meta_outcome(self@.boards),
    {
        if let Some(mark) = check_win(self) {
            return GameState::Won(mark);
        }
        if self.check_complete() {
            GameState::Draw
        } else {
            GameState::Playing
        }
    }

    /// Whether every small board is consistent, the recorded state is the one
    /// they add up to, and a board that the next move is bound to is still
    /// running.
    pub fn is_consistent(&self) -> (r: bool)
        ensures
            r == self@.consistent(),
    {
        for i in 0..9usize
            invariant
                forall|j: int| 0 <= j < i ==> (#[trigger] self@.boards[j]).consistent(),
        {
            if !self.boards[i].is_consistent() {
                assert(!self@.boards[i as int].consistent());
                return false;
            }
        }
        if self.derive_state() != self.state {
            return false;
        }
        match self.active_board {
            Some((row, col)) => row < 3 && col < 3 && self.boards[row * 3 + col].get_state()
                == GameState::Playing,
            None => true,
        }
    }

    /// Places `mark` in cell `(cell_row, cell_col)` of the small board at
    /// `(board_row, board_col)`, works out the state of the whole game, and
    /// binds the next move to the board at the cell's own position, or frees it
    /// if that board is over.
    pub fn make_move(
        &mut self,
        board_row: usize,
        board_col: usize,
        cell_row: usize,
        cell_col: usize,
        mark: Mark,
    )
        requires
            old(self)@.accepts(board_row as int, board_col as int, cell_row as int, cell_col as int),
        ensures
            final(self)@ == old(self)@.place(
                board_row as int,
                board_col as int,
                cell_row as int,
                cell_col as int,
                mark,
            ),
            final(self)@.active_board == if final(self)@.boards[cell_row * 3 + cell_col].state
                == GameState::Playing {
                Some((cell_row, cell_col))
            } else {
                None
            },
    {
        self.boards[board_row * 3 + board_col].make_move(cell_row, cell_col, mark);
        assert(self@.boards =~= old(self)@.boards.update(
            board_row * 3 + board_col,
            old(self)@.boards[board_row * 3 + board_col].place(
                cell_row as int,
                cell_col as int,
                mark,
            ),
        ));
        if self.check_complete() {
            self.state = GameState::Draw;
        }
        if let Some(mark) = check_win(self) {
            self.state = GameState::Won(mark);
        }
        self.active_board = match self.get_board(cell_row, cell_col).get_state() {
            GameState::Playing => Some((cell_row, cell_col)),
            _ => None,
        };
    }
}

impl Grid for BigBoard {
    open spec fn marks(&self) -> Seq<Option<Mark>> {
        meta_cells(self@.boards)
    }

    open spec fn playable(&self) -> Seq<bool> {
        self@.playable()
    }

    /// The mark that won the small board at `(row, col)`; nothing while that
    /// board is running, and nothing when it was drawn.
    fn get(&self, row: usize, col: usize) -> (r: Option<Mark>) {
        if let GameState::Won(mark) = self.get_board(row, col).get_state() {
            Some(mark)
        } else {
            None
        }
    }

    /// A small board can be played in while it is running.
    fn is_playable(&self, row: usize, col: usize) -> (r: bool) {
        self.get_board(row, col).get_state() == GameState::Playing
    }
}

impl BigBoard {
    /// Appends to `moves` the legal moves of the small board at `(board_row,
    /// board_col)`.
    fn push_board_moves(&self, moves: &mut Vec<Move>, board_row: usize, board_col: usize)
        requires
            board_row < 3,
            board_col < 3,
        ensures
            final(moves)@ == old(moves)@ + board_moves(
                self@.boards[board_row * 3 + board_col],
                board_row,
                board_col,
            ),
    {
        let inner = self.boards[board_row * 3 + board_col].get_possible_moves();
        let ghost board = self@.boards[board_row * 3 + board_col];
        for i in 0..inner.len()
            invariant
                inner@ == board.legal_moves(),
                moves@ == old(moves)@ + board_moves(board, board_row, board_col).take(i as int),
        {
            proof {
                lemma_legal_move_accepted(board, inner@[i as int]);
            }
            let (cell_row, cell_col) = inner[i].unwrap_base();
            moves.push(Move::Ultimate(board_row, board_col, cell_row, cell_col));
        }
    }
}

impl Game for BigBoard {
    open spec fn valid(v: BigBoardView) -> bool {
        v.consistent()
    }

    open spec fn state_of(v: BigBoardView) -> GameState {
        v.state
    }

    open spec fn moves_of(v: BigBoardView) -> Seq<Move> {
        v.legal_moves()
    }

    open spec fn after(v: BigBoardView, mv: Move, mark: Mark) -> BigBoardView {
        v.play(mv, mark)
    }

    open spec fn moves_left(v: BigBoardView) -> nat {
        empty_cells(v.boards, 9)
    }

    proof fn lemma_no_moves_iff_over(v: BigBoardView) {
        if v.state == GameState::Playing {
            let at = match v.active_board {
                Some(active) => active.0 * 3 + active.1,
                None => choose|i: int|
                    0 <= i < 9 && !((#[trigger] v.boards[i]).state != GameState::Playing),
            };
            let board = v.boards[at];
            let row = (at / 3) as usize;
            let col = (at % 3) as usize;
            Board::lemma_no_moves_iff_over(board);
            let inner = board.legal_moves()[0];
            lemma_legal_move_accepted(board, inner);
            let mv = Move::Ultimate(row, col, inner->Base_0, inner->Base_1);
            lemma_free_moves_contains(v.boards, 9, mv);
        }
    }

    proof fn lemma_after_legal(v: BigBoardView, mv: Move, mark: Mark) {
        lemma_legal_move_accepted_big(v, mv);
        let (br, bc, cr, cc) = (mv->Ultimate_0, mv->Ultimate_1, mv->Ultimate_2, mv->Ultimate_3);
        lemma_empty_cells_shrink(v.boards, 9, br * 3 + bc, cr as int, cc as int, mark);
    }

    fn get_possible_moves(&self) -> (moves: Vec<Move>) {
        let mut moves: Vec<Move> = Vec::new();
        if self.state != GameState::Playing {
            return moves;
        }
        match self.active_board {
            Some((board_row, board_col)) => {
                if board_row < 3 && board_col < 3 {
                    self.push_board_moves(&mut moves, board_row, board_col);
                }
            },
            None => {
                for board_row in 0..3usize
                    invariant
                        moves@ == free_moves(self@.boards, (board_row * 3) as nat),
                {
                    for board_col in 0..3usize
                        invariant
                            board_row < 3,
                            moves@ == free_moves(
                                self@.boards,
                                (board_row * 3 + board_col) as nat,
                            ),
                    {
                        self.push_board_moves(&mut moves, board_row, board_col);
                    }
                }
            },
        }
        moves
    }

    fn play(&mut self, mv: &Move, mark: Mark) {
        proof {
            lemma_legal_move_accepted_big(self@, *mv);
        }
        let (board_row, board_col, cell_row, cell_col) = mv.unwrap_ultimate();
        self.make_move(board_row, board_col, cell_row, cell_col, mark);
    }

    fn score(&self, mark: Mark) -> (s: i32) {
        match self.state {
            GameState::Won(winner) => if winner == mark {
                1
            } else {
                -1
            },
            _ => 0,
        }
    }

    fn get_state(&self) -> (state: GameState) {
        self.state
    }

    fn snapshot(&self) -> (copy: BigBoard) {
        *self
    }

    fn same_position(&self, other: &BigBoard) -> (same: bool) {
        if self.state != other.state {
            return false;
        }
        let same_active = match (self.active_board, other.active_board) {
            (Some(a), Some(b)) => a.0 == b.0 && a.1 == b.1,
            (None, None) => true,
            _ => false,
        };
        if !same_active {
            return false;
        }
        for i in 0..9usize
            invariant
                self.state == other.state,
                self.active_board == other.active_board,
                forall|j: int| 0 <= j < i ==> self.boards@[j]@ == other.boards@[j]@,
        {
            if !self.boards[i].same_position(&other.boards[i]) {
                assert(self@.boards[i as int] != other@.boards[i as int]);
                return false;
            }
        }
        assert(self@.boards =~= other@.boards);
        true
    }
}

} // verus!
