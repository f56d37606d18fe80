//! The order of states: by ranking score.

use std::cmp::Ordering;
use vstd::prelude::*;
use vstd::std_specs::cmp::PartialOrdSpecImpl;
use crate::state::MazeState;

verus! {

/// How the ranking score `mine` stands to `theirs`.
pub open spec fn score_order(mine: int, theirs: int) -> Ordering {
    if mine < theirs {
        Ordering::Less
    } else if mine > theirs {
        Ordering::Greater
    } else {
        Ordering::Equal
    }
}

impl PartialOrd for MazeState {
    /// States are ordered by their ranking score alone.
    fn partial_cmp(&self, other: &Self) -> (order: Option<Ordering>) {
        let mine = self.evaluated_score();
        let theirs = other.evaluated_score();
        if mine < theirs {
            Some(Ordering::Less)
        } else if mine > theirs {
            Some(Ordering::Greater)
        } else {
            Some(Ordering::Equal)
        }
    }
}

impl PartialOrdSpecImpl for MazeState {
    open spec fn obeys_partial_cmp_spec() -> bool {
        true
    }

    open spec fn partial_cmp_spec(&self, other: &Self) -> Option<Ordering> {
        Some(score_order(self@.evaluated_score, other@.evaluated_score))
    }
}

} // verus!
