//! One-ply greedy selection.

use vstd::prelude::*;
use crate::model::lemma_legal_actions;
use crate::search::{SearchError, INF};
use crate::state::MazeState;

verus! {

impl MazeState {
    /// The move that leads to the highest score after one turn; of several
    /// such moves, the first in the order right, left, down, up.
    pub fn greedy_action(&self) -> (choice: Result<usize, SearchError>)
        requires
            self@.wf(),
        ensures
            match choice {
                Ok(action) => !self@.terminal() && self@.is_greedy_choice(action as int),
                Err(SearchError::GameOver) => self@.terminal(),
                Err(SearchError::NoLegalActions) => !self@.terminal()
                    && self@.legal_actions().len() == 0,
                Err(SearchError::InvalidParameters) => false,
            },
    {
        if self.is_done() {
            return Err(SearchError::GameOver);
        }
        let legal_actions = self.legal_actions();
        let mut best_score: i64 = -INF;
        let mut best_action: Option<usize> = None;
        let ghost mut best_at: int = 0;
        proof {
            lemma_legal_actions(self@);
        }
        let mut k: usize = 0;
        while k < legal_actions.len()
            invariant
                self@.wf(),
                !self@.terminal(),
                k <= legal_actions.len(),
                legal_actions@ == self@.legal_actions(),
                forall|i: int|
                    0 <= i < legal_actions.len() ==> self@.legal(#[trigger] legal_actions[i] as int),
                k == 0 ==> best_action is None && best_score == -INF,
                k > 0 ==> 0 <= best_at < k && best_action == Some(legal_actions[best_at])
                    && best_score == self@.score_after(legal_actions[best_at] as int),
                forall|i: int|
                    0 <= i < k ==> self@.score_after(#[trigger] legal_actions[i] as int)
                        <= best_score,
                forall|i: int|
                    0 <= i < best_at ==> self@.score_after(#[trigger] legal_actions[i] as int)
                        < best_score,
            decreases legal_actions.len() - k,
        {
            let action = legal_actions[k];
            let now_state = self.successor(action);
            proof {
                crate::model::lemma_step(self@, action as int);
            }
            if now_state.evaluated_score() > best_score {
                best_score = now_state.evaluated_score();
                best_action = Some(action);
                proof {
                    best_at = k as int;
                }
            }
            k += 1;
        }
        match best_action {
            Some(action) => {
                proof {
                    let list = self@.legal_actions();
                    assert forall|other: int| #[trigger] self@.legal(other) implies {
                        &&& self@.score_after(other) <= self@.score_after(action as int)
                        &&& other < action ==> self@.score_after(other) < self@.score_after(
                            action as int,
                        )
                    } by {
                        assert(list.contains(other as usize));
                    }
                }
                Ok(action)
            },
            None => Err(SearchError::NoLegalActions),
        }
    }
}

} // verus!
