//! What an agent needs of a game, and the agents themselves.

use vstd::prelude::*;
use crate::ai::random::pick_one;
use crate::game::{score_of, winner, Board, GameState, Mark};

pub mod mcts;
pub mod random;
pub mod simple;

verus! {

/// A move on either board.
#[derive(Copy, Clone, Debug, PartialEq, Eq, Structural)]
pub enum Move {
    /// A cell of the classic board, by row and column.
    Base(usize, usize),
    /// A cell of the board of boards: the row and column of the small board,
    /// then the row and column of the cell in it.
    Ultimate(usize, usize, usize, usize),
}

impl Move {
    /// The row and column of a move on the classic board.
    pub fn unwrap_base(self) -> (r: (usize, usize))
        requires
            self is Base,
        ensures
            self == Move::Base(r.0, r.1),
    {
        match self {
            Move::Base(row, col) => (row, col),
            Move::Ultimate(..) => unreached(),
        }
    }

    /// The four coordinates of a move on the board of boards.
    pub fn unwrap_ultimate(self) -> (r: (usize, usize, usize, usize))
        requires
            self is Ultimate,
        ensures
            self == Move::Ultimate(r.0, r.1, r.2, r.3),
    {
        match self {
            Move::Base(..) => unreached(),
            Move::Ultimate(board_row, board_col, row, col) => (board_row, board_col, row, col),
        }
    }
}

/// A two-player game that an agent can plan over. Positions are spoken of
/// through their views.
pub trait Game: View + Sized {
    /// The position is one that play can reach.
    spec fn valid(v: Self::V) -> bool;

    /// Whether the game is running at `v`, and how it ended if it is not.
    spec fn state_of(v: Self::V) -> GameState;

    /// The moves that are legal at `v`, in the order in which they are listed.
    spec fn moves_of(v: Self::V) -> Seq<Move>;

    /// The position that `mv` by `mark` leads to from `v`.
    spec fn after(v: Self::V, mv: Move, mark: Mark) -> Self::V;

    /// A bound on the number of moves that can still be played from `v`.
    spec fn moves_left(v: Self::V) -> nat;

    /// A position has no legal move exactly when its game is over.
    proof fn lemma_no_moves_iff_over(v: Self::V)
        requires
            Self::valid(v),
        ensures
            Self::moves_of(v).len() == 0 <==> Self::state_of(v) != GameState::Playing,
    ;

    /// A legal move leads to a position that play can reach, with fewer moves
    /// left to play.
    proof fn lemma_after_legal(v: Self::V, mv: Move, mark: Mark)
        requires
            Self::valid(v),
            Self::moves_of(v).contains(mv),
        ensures
            Self::valid(Self::after(v, mv, mark)),
            Self::moves_left(Self::after(v, mv, mark)) < Self::moves_left(v),
    ;

    /// Lists the legal moves.
    fn get_possible_moves(&self) -> (moves: Vec<Move>)
        ensures
            moves@ == Self::moves_of(self@),
    ;

    /// Plays the legal move `mv` for `mark`.
    fn play(&mut self, mv: &Move, mark: Mark)
        requires
            Self::moves_of(old(self)@).contains(*mv),
        ensures
            final(self)@ == Self::after(old(self)@, *mv, mark),
    ;

    /// How the position counts for `mark`.
    fn score(&self, mark: Mark) -> (s: i32)
        ensures
            s == score_of(Self::state_of(self@), mark),
    ;

    /// Whether the game is running, and how it ended if it is not.
    fn get_state(&self) -> (state: GameState)
        ensures
            state == Self::state_of(self@),
    ;

    /// A copy of the position.
    fn snapshot(&self) -> (copy: Self)
        ensures
            copy@ == self@,
    ;

    /// Whether `other` is the same position.
    fn same_position(&self, other: &Self) -> (same: bool)
        ensures
            same == (self@ == other@),
    ;
}

/// The empty cells among the first `n` of `cells`, by row and column, in
/// row-major order.
pub open spec fn vacant(cells: Seq<Option<Mark>>, n: nat) -> Seq<(usize, usize)>
    decreases n,
{
    if n == 0 {
        Seq::empty()
    } else {
        let before = vacant(cells, (n - 1) as nat);
        if cells[n - 1] is None {
            before.push((((n - 1) / 3) as usize, ((n - 1) % 3) as usize))
        } else {
            before
        }
    }
}

/// Every cell listed by `vacant` is on the grid and empty.
pub proof fn lemma_vacant_cells(cells: Seq<Option<Mark>>, n: nat, k: int)
    requires
        n <= 9,
        0 <= k < vacant(cells, n).len(),
    ensures
        vacant(cells, n)[k].0 < 3,
        vacant(cells, n)[k].1 < 3,
        cells[vacant(cells, n)[k].0 * 3 + vacant(cells, n)[k].1] is None,
    decreases n,
{
    if n > 0 {
        let before = vacant(cells, (n - 1) as nat);
        if k < before.len() {
            lemma_vacant_cells(cells, (n - 1) as nat, k);
        }
    }
}

/// A mark `mark` in the cell `at` would leave a completed line on the grid.
pub open spec fn completes(cells: Seq<Option<Mark>>, at: (usize, usize), mark: Mark) -> bool {
    winner(cells.update(at.0 * 3 + at.1, Some(mark))) is Some
}

/// `found` is the first of the cells `among` in which `mark` would leave a
/// completed line.
pub open spec fn first_completing(
    cells: Seq<Option<Mark>>,
    among: Seq<(usize, usize)>,
    mark: Mark,
    found: (usize, usize),
) -> bool {
    exists|i: int|
        0 <= i < among.len() && among[i] == found && #[trigger] completes(cells, among[i], mark)
            && forall|j: int| 0 <= j < i ==> !#[trigger] completes(cells, among[j], mark)
}

/// No cell of `among` would leave a completed line with `mark` in it.
pub open spec fn none_completing(
    cells: Seq<Option<Mark>>,
    among: Seq<(usize, usize)>,
    mark: Mark,
) -> bool {
    forall|i: int| 0 <= i < among.len() ==> !#[trigger] completes(cells, among[i], mark)
}

/// What the agent of `SimpleAi` may answer on the grid `cells`: the first
/// empty cell that completes a line for its own mark; else the first that
/// completes one for the other mark; else any empty cell.
pub open spec fn reflex(
    cells: Seq<Option<Mark>>,
    ai_mark: Mark,
    player_mark: Mark,
    found: (usize, usize),
) -> bool {
    let among = vacant(cells, 9);
    if !none_completing(cells, among, ai_mark) {
        first_completing(cells, among, ai_mark, found)
    } else if !none_completing(cells, among, player_mark) {
        first_completing(cells, among, player_mark, found)
    } else {
        among.contains(found)
    }
}

/// The empty cells of `board`, by row and column, in row-major order.
pub fn available_moves(board: &Board) -> (moves: Vec<(usize, usize)>)
    ensures
        moves@ == vacant(board@, 9),
{
    let mut moves: Vec<(usize, usize)> = Vec::new();
    for row in 0..3usize
        invariant
            moves@ == vacant(board@, (row * 3) as nat),
    {
        for col in 0..3usize
            invariant
                row < 3,
                moves@ == vacant(board@, (row * 3 + col) as nat),
        {
            if board.get(row, col).is_none() {
                moves.push((row, col));
            }
        }
    }
    moves
}

/// An agent for the bare grid: it completes a line of its own where it can,
/// else stands in the way of one of the other mark, else moves at random.
pub struct SimpleAi {
    pub ai_mark: Mark,
    player_mark: Mark,
}

impl SimpleAi {
    /// The mark that the agent plays.
    pub closed spec fn mark(&self) -> Mark {
        self.ai_mark
    }

    /// The mark that the agent plays against.
    pub closed spec fn player(&self) -> Mark {
        self.player_mark
    }

    /// An agent that plays `ai_mark` against the other mark.
    pub fn new(ai_mark: Mark) -> (ai: SimpleAi)
        ensures
            ai.mark() == ai_mark,
            ai.player() == ai_mark.other(),
    {
        SimpleAi {
            ai_mark,
            player_mark: match ai_mark {
                Mark::O => Mark::X,
                Mark::X => Mark::O,
            },
        }
    }

    /// The mark that the agent plays.
    pub fn get_mark(&self) -> (mark: Mark)
        ensures
            mark == self.mark(),
    {
        self.ai_mark
    }

    /// The first of the cells `available` in which `mark` would leave a
    /// completed line on `board`, if there is one. The board is handed back
    /// as it came.
    fn find_completing(board: &mut Board, available: &Vec<(usize, usize)>, mark: Mark) -> (found:
        Option<(usize, usize)>)
        requires
            available@ == vacant(old(board)@, 9),
        ensures
            final(board)@ == old(board)@,
            match found {
                Some(at) => first_completing(old(board)@, available@, mark, at),
                None => none_completing(old(board)@, available@, mark),
            },
    {
        let ghost cells = board@;
        proof {
            board.lemma_nine_cells();
        }
        for i in 0..available.len()
            invariant
                cells == old(board)@,
                board@ == cells,
                cells.len() == 9,
                available@ == vacant(cells, 9),
                forall|j: int| 0 <= j < i ==> !#[trigger] completes(cells, available@[j], mark),
        {
            proof {
                lemma_vacant_cells(cells, 9, i as int);
            }
            let (row, col) = available[i];
            board.set(row, col, Some(mark));
            match board.check_all() {
                Some(_) => {
                    assert(completes(cells, available@[i as int], mark));
                    board.set(row, col, None);
                    return Some((row, col));
                },
                _ => {},
            }
            board.set(row, col, None);
        }
        None
    }

    /// Decides on a cell of `board` to play in.
    pub fn choose_move(&self, board: Board) -> (at: (usize, usize))
        requires
            vacant(board@, 9).len() > 0,
        ensures
            vacant(board@, 9).contains(at),
            reflex(board@, self.mark(), self.player(), at),
    {
        let mut board = board;
        let available = available_moves(&board);
        if let Some(at) = Self::find_completing(&mut board, &available, self.ai_mark) {
            return at;
        }
        if let Some(at) = Self::find_completing(&mut board, &available, self.player_mark) {
            return at;
        }
        match pick_one(&available) {
            Some(at) => at,
            None => unreached(),
        }
    }
}

/// The mark that makes move number `n`, counted from 0, of a run of moves
/// that `first` opens and in which the two marks take turns.
pub open spec fn mover(first: Mark, n: int) -> Mark {
    if n % 2 == 0 {
        first
    } else {
        first.other()
    }
}

/// The position that the run `moves`, opened by `first`, leads to from `v`.
pub open spec fn played<T: Game>(v: T::V, first: Mark, moves: Seq<Move>) -> T::V
    decreases moves.len(),
{
    if moves.len() == 0 {
        v
    } else {
        T::after(
            played::<T>(v, first, moves.drop_last()),
            moves.last(),
            mover(first, moves.len() - 1),
        )
    }
}

/// Every move of the run `moves`, opened by `first` at `v`, is legal where
/// it is made.
pub open spec fn playable<T: Game>(v: T::V, first: Mark, moves: Seq<Move>) -> bool
    decreases moves.len(),
{
    moves.len() == 0 || (playable::<T>(v, first, moves.drop_last()) && T::moves_of(
        played::<T>(v, first, moves.drop_last()),
    ).contains(moves.last()))
}

/// The run `moves` of legal moves, opened by `first` at `v`, leads to a
/// position in the state `result`.
pub open spec fn run_ends_in<T: Game>(
    v: T::V,
    first: Mark,
    moves: Seq<Move>,
    result: GameState,
) -> bool {
    playable::<T>(v, first, moves) && T::state_of(played::<T>(v, first, moves)) == result
}

/// `result` is how some run of legal moves, opened by `first` at `v`, ends
/// the game.
pub open spec fn playout_result<T: Game>(v: T::V, first: Mark, result: GameState) -> bool {
    result != GameState::Playing && exists|moves: Seq<Move>| #[trigger]
        run_ends_in::<T>(v, first, moves, result)
}

/// A run of legal moves from a position that play can reach ends in one.
pub proof fn lemma_played_valid<T: Game>(v: T::V, first: Mark, moves: Seq<Move>)
    requires
        T::valid(v),
        playable::<T>(v, first, moves),
    ensures
        T::valid(played::<T>(v, first, moves)),
    decreases moves.len(),
{
    if moves.len() > 0 {
        lemma_played_valid::<T>(v, first, moves.drop_last());
        T::lemma_after_legal(
            played::<T>(v, first, moves.drop_last()),
            moves.last(),
            mover(first, moves.len() - 1),
        );
    }
}

/// A run of legal moves passes only through positions at which the game is
/// running: an outcome, once reached, is never left.
pub proof fn lemma_run_stays_playing<T: Game>(v: T::V, first: Mark, moves: Seq<Move>, n: int)
    requires
        T::valid(v),
        playable::<T>(v, first, moves),
        0 <= n < moves.len(),
    ensures
        T::state_of(played::<T>(v, first, moves.take(n))) == GameState::Playing,
    decreases moves.len(),
{
    let shorter = moves.drop_last();
    if n == moves.len() - 1 {
        lemma_played_valid::<T>(v, first, shorter);
        T::lemma_no_moves_iff_over(played::<T>(v, first, shorter));
    } else {
        assert(moves.take(n) =~= shorter.take(n));
        lemma_run_stays_playing::<T>(v, first, shorter, n);
    }
}

} // verus!
