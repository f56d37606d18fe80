//! What the two selectors share.

use vstd::prelude::*;
use crate::state::MazeState;

verus! {

/// Why a selector gives no move.
#[derive(PartialEq, Eq, Structural, Clone, Copy, Debug)]
pub enum SearchError {
    /// The beam width or the beam depth is zero.
    InvalidParameters,
    /// The game is over: there is no move left to choose.
    GameOver,
    /// No move stays on the board, which has a single cell.
    NoLegalActions,
}

/// No score is as high as this, and `-INF` is below every score.
pub const INF: i64 = i64::MAX;

impl MazeState {
    /// The state that `action` leads to, ranked by its game score.
    pub fn successor(&self, action: usize) -> (next: MazeState)
        requires
            self@.wf(),
            self@.legal(action as int),
            !self@.terminal(),
        ensures
            next@ == self@.step(action as int).evaluate(),
            next@.wf(),
    {
        let mut next_state = self.clone();
        next_state.advance(action);
        next_state.evaluate_score();
        next_state
    }
}

} // verus!
