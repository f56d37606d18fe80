//! The frontier of a beam search: candidate states ordered by score.

use vstd::prelude::*;
use crate::model::Maze;
use crate::state::MazeState;

verus! {

/// `at` is the place of the best member of `members`: none has a higher
/// ranking score, and every member before it has a lower one.
pub open spec fn is_best(members: Seq<Maze>, at: int) -> bool {
    &&& 0 <= at < members.len()
    &&& forall|i: int|
        0 <= i < members.len() ==> (#[trigger] members[i]).evaluated_score
            <= members[at].evaluated_score
    &&& forall|i: int|
        0 <= i < at ==> (#[trigger] members[i]).evaluated_score < members[at].evaluated_score
}

/// The place of the best member: of the members with the highest ranking
/// score, the one that came in first.
pub open spec fn best_index(members: Seq<Maze>) -> int {
    choose|at: int| is_best(members, at)
}

/// Two places that are both the best are the same place.
pub proof fn lemma_best_unique(members: Seq<Maze>, a: int, b: int)
    requires
        is_best(members, a),
        is_best(members, b),
    ensures
        a == b,
{
}

/// A frontier that is not empty has a best member.
pub proof fn lemma_best_exists(members: Seq<Maze>)
    requires
        members.len() > 0,
    ensures
        is_best(members, best_index(members)),
    decreases members.len(),
{
    if members.len() == 1 {
        assert(is_best(members, 0));
    } else {
        let front = members.drop_last();
        lemma_best_exists(front);
        let at = best_index(front);
        let last = members.len() - 1;
        if members[last].evaluated_score > front[at].evaluated_score {
            assert forall|i: int| 0 <= i < members.len() implies (#[trigger] members[i]).evaluated_score
                <= members[last].evaluated_score by {
                if i < last {
                    assert(front[i].evaluated_score <= front[at].evaluated_score);
                }
            }
            assert forall|i: int| 0 <= i < last implies (#[trigger] members[i]).evaluated_score
                < members[last].evaluated_score by {
                assert(front[i].evaluated_score <= front[at].evaluated_score);
            }
            assert(is_best(members, last));
        } else {
            assert forall|i: int| 0 <= i < members.len() implies (#[trigger] members[i]).evaluated_score
                <= members[at].evaluated_score by {
                if i < last {
                    assert(front[i].evaluated_score <= front[at].evaluated_score);
                }
            }
            assert forall|i: int| 0 <= i < at implies (#[trigger] members[i]).evaluated_score
                < members[at].evaluated_score by {
                assert(front[i].evaluated_score < front[at].evaluated_score);
            }
            assert(is_best(members, at));
        }
    }
}

/// Candidate states in the order in which they came in. Taking one out
/// gives the best: the highest ranking score, and of equal scores the one
/// that came in first.
pub struct Frontier {
    states: Vec<MazeState>,
}

impl View for Frontier {
    type V = Seq<Maze>;

    closed spec fn view(&self) -> Seq<Maze> {
        Seq::new(self.states@.len(), |i: int| self.states@[i]@)
    }
}

impl Frontier {
    /// A frontier without members.
    pub fn new() -> (frontier: Self)
        ensures
            frontier@ == Seq::<Maze>::empty(),
    {
        let frontier = Frontier { states: Vec::new() };
        frontier
    }

    /// Number of members.
    pub fn len(&self) -> (n: usize)
        ensures
            n == self@.len(),
    {
        self.states.len()
    }

    /// Whether there is no member.
    pub fn is_empty(&self) -> (empty: bool)
        ensures
            empty == (self@.len() == 0),
    {
        self.states.len() == 0
    }

    /// Adds `state` behind the members that are there.
    pub fn push(&mut self, state: MazeState)
        ensures
            final(self)@ == old(self)@.push(state@),
    {
        self.states.push(state);
    }

    /// The place of the best member.
    fn best_position(&self) -> (at: usize)
        requires
            self@.len() > 0,
        ensures
            at == best_index(self@),
            at < self@.len(),
    {
        let mut at: usize = 0;
        let mut i: usize = 1;
        while i < self.states.len()
            invariant
                1 <= i <= self.states.len(),
                is_best(self@.take(i as int), at as int),
            decreases self.states.len() - i,
        {
            let ghost more = self@.take(i + 1);
            if self.states[i] > self.states[at] {
                proof {
                    assert forall|k: int| 0 <= k < more.len() implies (#[trigger] more[k]).evaluated_score
                        <= more[i as int].evaluated_score by {}
                    assert forall|k: int| 0 <= k < i implies (#[trigger] more[k]).evaluated_score
                        < more[i as int].evaluated_score by {}
                }
                at = i;
            } else {
                proof {
                    assert forall|k: int| 0 <= k < more.len() implies (#[trigger] more[k]).evaluated_score
                        <= more[at as int].evaluated_score by {}
                    assert forall|k: int| 0 <= k < at implies (#[trigger] more[k]).evaluated_score
                        < more[at as int].evaluated_score by {}
                }
            }
            i += 1;
        }
        proof {
            assert(self@.take(i as int) =~= self@);
            lemma_best_exists(self@);
            lemma_best_unique(self@, at as int, best_index(self@));
        }
        at
    }

    /// The best member, which stays in the frontier.
    pub fn peek(&self) -> (best: Option<&MazeState>)
        ensures
            match best {
                Some(state) => self@.len() > 0 && state@ == self@[best_index(self@)],
                None => self@.len() == 0,
            },
    {
        if self.states.len() == 0 {
            None
        } else {
            let at = self.best_position();
            Some(&self.states[at])
        }
    }

    /// Takes the best member out. The others keep their order.
    pub fn pop(&mut self) -> (best: Option<MazeState>)
        ensures
            match best {
                Some(state) => {
                    &&& old(self)@.len() > 0
                    &&& state@ == old(self)@[best_index(old(self)@)]
                    &&& final(self)@ == old(self)@.remove(best_index(old(self)@))
                },
                None => old(self)@.len() == 0 && final(self)@ == old(self)@,
            },
    {
        if self.states.len() == 0 {
            None
        } else {
            let at = self.best_position();
            let state = self.states.remove(at);
            Some(state)
        }
    }
}

} // verus!
