//! Reading a move for the bare grid from a line of text.

use vstd::prelude::*;
use crate::game::{Board, Mark};

verus! {

/// What `str::trim` leaves of a text.
pub uninterp spec fn trimmed(line: Seq<char>) -> Seq<char>;

/// The number that `str::parse::<usize>` reads from a text, if it reads one.
pub uninterp spec fn parsed(text: Seq<char>) -> Option<usize>;

/// `str::trim`: the text without the white space at its ends. The contract
/// only names the result; nothing is proved of it.
#[verifier::external_body]
fn trim<'a>(line: &'a str) -> (text: &'a str)
    ensures
        text@ == trimmed(line@),
{
    line.trim()
}

/// `str::parse::<usize>`: the number that the text spells, or nothing where
/// it spells none that fits. The contract only names the result; nothing is
/// proved of it.
#[verifier::external_body]
fn parse(text: &str) -> (number: Option<usize>)
    ensures
        number == parsed(text@),
{
    text.parse::<usize>().ok()
}

/// What a player's input comes to.
#[derive(Copy, Clone, Debug, PartialEq, Eq, Structural)]
pub enum Reply {
    /// The input names the empty cell at this row and column.
    Chosen(usize, usize),
    /// The input names the cell at this row-major offset, which is taken.
    Occupied(usize),
    /// The input names no cell.
    Invalid,
}

/// What the input `input` comes to on the grid `cells`: a number up to 8
/// names the cell at that row-major offset.
pub open spec fn reply_to(cells: Seq<Option<Mark>>, input: Option<usize>) -> Reply {
    match input {
        Some(pos) => if pos > 8 {
            Reply::Invalid
        } else if cells[pos as int] is Some {
            Reply::Occupied(pos)
        } else {
            Reply::Chosen((pos / 3) as usize, (pos % 3) as usize)
        },
        None => Reply::Invalid,
    }
}

/// Works out what the number `input`, if the player gave one, comes to on
/// `board`.
pub fn check_move(board: &Board, input: Option<usize>) -> (reply: Reply)
    ensures
        reply == reply_to(board@, input),
{
    let move_pos = match input {
        Some(pos) => {
            if pos <= 8 {
                pos
            } else {
                return Reply::Invalid;
            }
        },
        _ => {
            return Reply::Invalid;
        },
    };
    let move_row = move_pos / 3;
    let move_col = move_pos % 3;
    if board.get(move_row, move_col).is_some() {
        return Reply::Occupied(move_pos);
    }
    Reply::Chosen(move_row, move_col)
}

/// Reads a move from the line `line` that a player typed: the line, without
/// the white space at its ends, is to spell the row-major offset of an empty
/// cell of `board`.
pub fn ask_move(board: &Board, line: &str) -> (reply: Reply)
    ensures
        reply == reply_to(board@, parsed(trimmed(line@))),
{
    check_move(board, parse(trim(line)))
}

} // verus!
