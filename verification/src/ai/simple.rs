//! The agent that looks one move ahead.

use vstd::prelude::*;
use crate::ai::random::pick_one;
use crate::ai::{Game, Move};
use crate::game::{score_of, Mark};

verus! {

/// The move `mv` by `mark` betters the score that `mark` has at `v`.
pub open spec fn improves<T: Game>(v: T::V, mv: Move, mark: Mark) -> bool {
    score_of(T::state_of(T::after(v, mv, mark)), mark) > score_of(T::state_of(v), mark)
}

/// The reply `reply` by `enemy` to the move `mv` by `mark` leaves `mark`
/// with a worse score than it has at `v`.
pub open spec fn punishes<T: Game>(v: T::V, mv: Move, mark: Mark, reply: Move, enemy: Mark) -> bool {
    let next = T::after(v, mv, mark);
    T::moves_of(next).contains(reply) && score_of(
        T::state_of(T::after(next, reply, enemy)),
        mark,
    ) < score_of(T::state_of(v), mark)
}

/// The move `mv` by `mark` can be punished by a reply of `enemy`.
pub open spec fn loses<T: Game>(v: T::V, mv: Move, mark: Mark, enemy: Mark) -> bool {
    exists|reply: Move| #[trigger] punishes::<T>(v, mv, mark, reply, enemy)
}

/// What the agent may answer at `v`: the last of the listed moves that
/// betters its score, where one does; else any move that cannot be punished,
/// where there is one; else any legal move.
pub open spec fn sensible<T: Game>(v: T::V, mark: Mark, enemy: Mark, mv: Move) -> bool {
    let moves = T::moves_of(v);
    if exists|i: int| 0 <= i < moves.len() && #[trigger] improves::<T>(v, moves[i], mark) {
        exists|i: int|
            0 <= i < moves.len() && mv == moves[i] && #[trigger] improves::<T>(v, moves[i], mark)
                && forall|j: int| i < j < moves.len() ==> !#[trigger] improves::<T>(v, moves[j], mark)
    } else if exists|i: int| 0 <= i < moves.len() && !#[trigger] loses::<T>(v, moves[i], mark, enemy) {
        moves.contains(mv) && !loses::<T>(v, mv, mark, enemy)
    } else {
        moves.contains(mv)
    }
}

/// An agent that takes a win where it sees one, keeps off moves that lose
/// at once, and leaves the rest to chance.
pub struct SimpleAi {
    pub ai_mark: Mark,
    enemy_mark: Mark,
}

impl SimpleAi {
    /// The mark that the agent plays.
    pub closed spec fn mark(&self) -> Mark {
        self.ai_mark
    }

    /// The mark that the agent plays against.
    pub closed spec fn enemy(&self) -> Mark {
        self.enemy_mark
    }

    /// An agent that plays `ai_mark` against the other mark.
    pub fn new(ai_mark: Mark) -> (ai: SimpleAi)
        ensures
            ai.mark() == ai_mark,
            ai.enemy() == ai_mark.other(),
    {
        SimpleAi {
            ai_mark,
            enemy_mark: match ai_mark {
                Mark::O => Mark::X,
                Mark::X => Mark::O,
            },
        }
    }

    /// The mark that the agent plays.
    pub fn get_mark(&self) -> (mark: Mark)
        ensures
            mark == self.mark(),
    {
        self.ai_mark
    }

    /// Whether the enemy has a reply to the position `board` that leaves the
    /// agent with a score below `original_ai_score`.
    fn can_be_punished<T: Game>(&self, board: &T, original_ai_score: i32) -> (losing: bool)
        ensures
            losing == exists|reply: Move| #[trigger]
                T::moves_of(board@).contains(reply) && score_of(
                    T::state_of(T::after(board@, reply, self.enemy())),
                    self.mark(),
                ) < original_ai_score,
    {
        let enemy_moves = board.get_possible_moves();
        for j in 0..enemy_moves.len()
            invariant
                enemy_moves@ == T::moves_of(board@),
                forall|k: int|
                    0 <= k < j ==> score_of(
                        T::state_of(T::after(board@, #[trigger] enemy_moves@[k], self.enemy())),
                        self.mark(),
                    ) >= original_ai_score,
        {
            assert(enemy_moves@.contains(enemy_moves@[j as int]));
            let mut board_j = board.snapshot();
            board_j.play(&enemy_moves[j], self.enemy_mark);
            if board_j.score(self.ai_mark) < original_ai_score {
                return true;
            }
        }
        assert forall|reply: Move| #[trigger]
            T::moves_of(board@).contains(reply) implies score_of(
            T::state_of(T::after(board@, reply, self.enemy())),
            self.mark(),
        ) >= original_ai_score by {}
        false
    }

    /// Decides on a move for the position `board`. The listed moves are tried
    /// from the last to the first: the first one found that betters the
    /// agent's score is played. Where none does, chance picks among the moves
    /// that the enemy cannot punish at once, or among all moves where every
    /// one can be punished.
    pub fn choose_move<T: Game>(&self, board: T) -> (mv: Move)
        requires
            T::moves_of(board@).len() > 0,
        ensures
            T::moves_of(board@).contains(mv),
            sensible::<T>(board@, self.mark(), self.enemy(), mv),
    {
        let ai_moves = board.get_possible_moves();
        let mut non_losing_moves = board.get_possible_moves();
        let original_ai_score = board.score(self.ai_mark);
        let ghost v = board@;
        let ghost moves = ai_moves@;
        let mut i = ai_moves.len();
        while i > 0
            invariant
                v == board@,
                moves == ai_moves@,
                moves == T::moves_of(v),
                original_ai_score == score_of(T::state_of(v), self.mark()),
                0 <= i <= moves.len(),
                non_losing_moves@.len() >= i,
                non_losing_moves@.take(i as int) == moves.take(i as int),
                forall|j: int| i <= j < moves.len() ==> !#[trigger] improves::<T>(v, moves[j], self.mark()),
                forall|m: Move|
                    non_losing_moves@.skip(i as int).contains(m) <==> moves.skip(i as int).contains(m)
                        && !loses::<T>(v, m, self.mark(), self.enemy()),
            decreases i,
        {
            let ghost above = i as int;
            i -= 1;
            let mv = ai_moves[i];
            let mut board_i = board.snapshot();
            board_i.play(&mv, self.ai_mark);
            if board_i.score(self.ai_mark) > original_ai_score {
                assert(improves::<T>(v, moves[i as int], self.mark()));
                return mv;
            }
            let ghost kept = non_losing_moves@;
            let losing = self.can_be_punished(&board_i, original_ai_score);
            proof {
                assert(kept[i as int] == moves[i as int]) by {
                    assert(kept.take(above)[i as int] == moves.take(above)[i as int]);
                }
                if losing {
                    let reply = choose|reply: Move| #[trigger]
                        T::moves_of(board_i@).contains(reply) && score_of(
                            T::state_of(T::after(board_i@, reply, self.enemy())),
                            self.mark(),
                        ) < original_ai_score;
                    assert(punishes::<T>(v, mv, self.mark(), reply, self.enemy()));
                } else {
                    assert forall|reply: Move| !#[trigger] punishes::<T>(
                        v,
                        mv,
                        self.mark(),
                        reply,
                        self.enemy(),
                    ) by {}
                }
            }
            if losing {
                non_losing_moves.remove(i);
            }
            proof {
                let now = non_losing_moves@;
                assert(moves.skip(i as int) =~= seq![mv] + moves.skip(above));
                if losing {
                    assert(now.skip(i as int) =~= kept.skip(above));
                } else {
                    assert(now.skip(i as int) =~= seq![mv] + kept.skip(above));
                }
                assert forall|m: Move|
                    now.skip(i as int).contains(m) <==> moves.skip(i as int).contains(m) && !loses::<T>(
                        v,
                        m,
                        self.mark(),
                        self.enemy(),
                    ) by {
                    lemma_cons_contains(mv, moves.skip(above), m);
                    lemma_cons_contains(mv, kept.skip(above), m);
                    assert(kept.skip(above).contains(m) <==> moves.skip(above).contains(m)
                        && !loses::<T>(v, m, self.mark(), self.enemy()));
                }
            }
        }
        proof {
            assert(non_losing_moves@.skip(0) =~= non_losing_moves@);
            assert(moves.skip(0) =~= moves);
            assert forall|j: int|
                0 <= j < moves.len() && !#[trigger] loses::<T>(
                    v,
                    moves[j],
                    self.mark(),
                    self.enemy(),
                ) implies non_losing_moves@.contains(moves[j]) by {
                assert(moves.contains(moves[j]));
            }
        }
        if let Some(mv) = pick_one(&non_losing_moves) {
            proof {
                assert(moves.skip(i as int).contains(mv));
            }
            return mv;
        }
        match pick_one(&ai_moves) {
            Some(mv) => mv,
            None => unreached(),
        }
    }
}

/// A list with `first` put before it holds `first` and what it held.
pub proof fn lemma_cons_contains<A>(first: A, rest: Seq<A>, item: A)
    ensures
        (seq![first] + rest).contains(item) <==> item == first || rest.contains(item),
{
    let all = seq![first] + rest;
    if all.contains(item) {
        let at = choose|at: int| 0 <= at < all.len() && all[at] == item;
        if at > 0 {
            assert(rest[at - 1] == item);
        }
    }
    if rest.contains(item) {
        let at = choose|at: int| 0 <= at < rest.len() && rest[at] == item;
        assert(all[at + 1] == item);
    }
    if item == first {
        assert(all[0] == item);
    }
}

} // verus!
