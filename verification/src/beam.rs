//! Beam search: a bounded number of the best candidates is expanded at each
//! of a bounded number of levels.

use vstd::prelude::*;
use crate::frontier::{best_index, lemma_best_exists, Frontier};
use crate::model::{lemma_legal_actions, lemma_some_move, lemma_step, Maze};
use crate::search::SearchError;
use crate::state::MazeState;

verus! {

/// The candidate that `action` leads to from `parent`. At the first level
/// of a search it is marked with that move.
pub open spec fn child(parent: Maze, action: usize, stamp: bool) -> Maze {
    let next = parent.step(action as int).evaluate();
    if stamp {
        next.stamp(action)
    } else {
        next
    }
}

/// The candidates that the legal moves lead to from `parent`, in the order
/// of the moves.
pub open spec fn children(parent: Maze, stamp: bool) -> Seq<Maze> {
    Seq::new(
        parent.legal_actions().len(),
        |k: int| child(parent, parent.legal_actions()[k], stamp),
    )
}

/// The next frontier: up to `width` times the best member is taken out of
/// `members`, and its children come in behind those of the members taken
/// before it. The members that stay are dropped.
pub open spec fn expand(members: Seq<Maze>, width: nat, stamp: bool) -> Seq<Maze>
    decreases width,
{
    if width == 0 || members.len() == 0 {
        Seq::empty()
    } else {
        let at = best_index(members);
        children(members[at], stamp) + expand(members.remove(at), (width - 1) as nat, stamp)
    }
}

/// The frontier that a search ends with when it starts from `members` and
/// has `depth` levels to go. It ends before that at the first frontier that
/// is empty or whose best member is a finished game.
pub open spec fn search(members: Seq<Maze>, width: nat, depth: nat, stamp: bool) -> Seq<Maze>
    decreases depth,
{
    if depth == 0 {
        members
    } else {
        let next = expand(members, width, stamp);
        if next.len() == 0 || next[best_index(next)].terminal() {
            next
        } else {
            search(next, width, (depth - 1) as nat, false)
        }
    }
}

/// The move that a beam search from `root` settles on: the first move on
/// the path to the best member of the last frontier.
pub open spec fn beam_choice(root: Maze, width: nat, depth: nat) -> Option<usize> {
    let last = search(seq![root], width, depth, true);
    if last.len() == 0 {
        None
    } else {
        last[best_index(last)].first_action
    }
}

/// The members of `members` are states of the game of `root` after `level`
/// more moves, and from the first level on each is marked with a move that
/// is legal for `root`.
pub open spec fn at_level(members: Seq<Maze>, root: Maze, level: nat) -> bool {
    forall|i: int|
        0 <= i < members.len() ==> {
            let m = #[trigger] members[i];
            &&& m.wf()
            &&& m.height() == root.height()
            &&& m.width() == root.width()
            &&& m.end_turn == root.end_turn
            &&& m.turn == root.turn + level
            &&& level == 0 ==> m == root
            &&& level > 0 ==> m.first_action is Some && root.legal(m.first_action->0 as int)
        }
}

/// The children of a member of one level are members of the next.
pub proof fn lemma_children_at_level(parent: Maze, stamp: bool, root: Maze, level: nat)
    requires
        at_level(seq![parent], root, level),
        !parent.terminal(),
        stamp <==> level == 0,
    ensures
        at_level(children(parent, stamp), root, level + 1),
        children(parent, stamp).len() == parent.legal_actions().len(),
{
    assert(seq![parent][0] == parent);
    lemma_legal_actions(parent);
    let next = children(parent, stamp);
    assert forall|i: int| 0 <= i < next.len() implies {
        let m = #[trigger] next[i];
        &&& m.wf()
        &&& m.height() == root.height()
        &&& m.width() == root.width()
        &&& m.end_turn == root.end_turn
        &&& m.turn == root.turn + level + 1
        &&& m.first_action is Some && root.legal(m.first_action->0 as int)
    } by {
        let action = parent.legal_actions()[i];
        lemma_step(parent, action as int);
    }
}

/// The next frontier of a level of a running game is of the next level. It
/// is empty only if nothing was expanded or the board has a single cell.
pub proof fn lemma_expand_at_level(
    members: Seq<Maze>,
    width: nat,
    stamp: bool,
    root: Maze,
    level: nat,
)
    requires
        root.wf(),
        at_level(members, root, level),
        root.turn + level < root.end_turn,
        stamp <==> level == 0,
    ensures
        at_level(expand(members, width, stamp), root, level + 1),
        expand(members, width, stamp).len() == 0 <==> width == 0 || members.len() == 0
            || root.legal_actions().len() == 0,
    decreases width,
{
    if width > 0 && members.len() > 0 {
        lemma_best_exists(members);
        let at = best_index(members);
        let parent = members[at];
        let rest = members.remove(at);
        assert(at_level(rest, root, level)) by {
            assert forall|i: int| 0 <= i < rest.len() implies {
                let m = #[trigger] rest[i];
                &&& m.wf()
                &&& m.height() == root.height()
                &&& m.width() == root.width()
                &&& m.end_turn == root.end_turn
                &&& m.turn == root.turn + level
                &&& level == 0 ==> m == root
                &&& level > 0 ==> m.first_action is Some && root.legal(m.first_action->0 as int)
            } by {}
        }
        lemma_children_at_level(parent, stamp, root, level);
        lemma_expand_at_level(rest, (width - 1) as nat, stamp, root, level);
        lemma_some_move(parent);
        lemma_some_move(root);
        let first = children(parent, stamp);
        let more = expand(rest, (width - 1) as nat, stamp);
        assert forall|i: int| 0 <= i < (first + more).len() implies {
            let m = #[trigger] (first + more)[i];
            &&& m.wf()
            &&& m.height() == root.height()
            &&& m.width() == root.width()
            &&& m.end_turn == root.end_turn
            &&& m.turn == root.turn + level + 1
            &&& m.first_action is Some && root.legal(m.first_action->0 as int)
        } by {}
    }
}

impl MazeState {
    /// Puts the children of `self` behind the members of `next`.
    fn push_children(&self, stamp: bool, next: &mut Frontier)
        requires
            self@.wf(),
            !self@.terminal(),
        ensures
            final(next)@ == old(next)@ + children(self@, stamp),
    {
        let legal_actions = self.legal_actions();
        proof {
            lemma_legal_actions(self@);
        }
        let ghost kids = children(self@, stamp);
        let mut k: usize = 0;
        while k < legal_actions.len()
            invariant
                self@.wf(),
                !self@.terminal(),
                k <= legal_actions.len(),
                legal_actions@ == self@.legal_actions(),
                forall|i: int|
                    0 <= i < legal_actions.len() ==> self@.legal(#[trigger] legal_actions[i] as int),
                kids == children(self@, stamp),
                next@ == old(next)@ + kids.take(k as int),
            decreases legal_actions.len() - k,
        {
            let action = legal_actions[k];
            let mut next_state = self.successor(action);
            if stamp {
                next_state.stamp(action);
            }
            next.push(next_state);
            k += 1;
        }
    }
}

/// Every member of `members` is a state of a game that is not yet over.
pub open spec fn all_running(members: Seq<Maze>) -> bool {
    forall|i: int| 0 <= i < members.len() ==> (#[trigger] members[i]).wf() && !members[i].terminal()
}

/// Takes up to `beam_width` of the best members out of `now_beam` and gives
/// the frontier of their children.
fn expand_level(now_beam: &mut Frontier, beam_width: usize, stamp: bool) -> (next_beam: Frontier)
    requires
        all_running(old(now_beam)@),
    ensures
        next_beam@ == expand(old(now_beam)@, beam_width as nat, stamp),
{
    let mut next_beam = Frontier::new();
    let ghost start = now_beam@;
    let mut taken: usize = 0;
    assert(next_beam@ + expand(now_beam@, beam_width as nat, stamp) =~= expand(
        start,
        beam_width as nat,
        stamp,
    ));
    while taken < beam_width
        invariant
            taken <= beam_width,
            start == old(now_beam)@,
            all_running(now_beam@),
            next_beam@ + expand(now_beam@, (beam_width - taken) as nat, stamp) == expand(
                start,
                beam_width as nat,
                stamp,
            ),
        decreases beam_width - taken,
    {
        let ghost before = now_beam@;
        let ghost sofar = next_beam@;
        match now_beam.pop() {
            Some(now_state) => {
                proof {
                    lemma_best_exists(before);
                    let at = best_index(before);
                    assert(all_running(before.remove(at))) by {
                        let rest = before.remove(at);
                        assert forall|i: int| 0 <= i < rest.len() implies (#[trigger] rest[i]).wf()
                            && !rest[i].terminal() by {}
                    }
                }
                now_state.push_children(stamp, &mut next_beam);
                proof {
                    let at = best_index(before);
                    assert(next_beam@ + expand(now_beam@, (beam_width - taken - 1) as nat, stamp)
                        =~= sofar + (children(before[at], stamp) + expand(
                        before.remove(at),
                        (beam_width - taken - 1) as nat,
                        stamp,
                    )));
                }
            },
            None => {
                proof {
                    assert(expand(before, (beam_width - taken) as nat, stamp) =~= Seq::<
                        Maze,
                    >::empty());
                }
                return next_beam;
            },
        }
        taken += 1;
    }
    next_beam
}

impl MazeState {
    /// The first move towards the best state that a beam search finds: at
    /// each of up to `beam_depth` levels the `beam_width` best candidates
    /// are replaced by their children, and the search ends early when the
    /// best candidate is a finished game. Of candidates with equal scores
    /// the one that came into the frontier first is the better.
    pub fn beam_search_action(&self, beam_width: usize, beam_depth: usize) -> (choice: Result<
        usize,
        SearchError,
    >)
        requires
            self@.wf(),
        ensures
            match choice {
                Ok(action) => {
                    &&& beam_width > 0 && beam_depth > 0 && !self@.terminal()
                    &&& beam_choice(self@, beam_width as nat, beam_depth as nat) == Some(action)
                    &&& self@.legal(action as int)
                },
                Err(SearchError::InvalidParameters) => beam_width == 0 || beam_depth == 0,
                Err(SearchError::GameOver) => beam_width > 0 && beam_depth > 0
                    && self@.terminal(),
                Err(SearchError::NoLegalActions) => beam_width > 0 && beam_depth > 0
                    && !self@.terminal() && self@.legal_actions().len() == 0,
            },
    {
        if beam_width == 0 || beam_depth == 0 {
            return Err(SearchError::InvalidParameters);
        }
        if self.is_done() {
            return Err(SearchError::GameOver);
        }
        let ghost root = self@;
        let ghost goal = search(seq![root], beam_width as nat, beam_depth as nat, true);
        let mut now_beam = Frontier::new();
        now_beam.push(self.clone());
        let mut t: usize = 0;
        while t < beam_depth
            invariant_except_break
                goal == search(now_beam@, beam_width as nat, (beam_depth - t) as nat, t == 0),
                root.turn + t < root.end_turn,
            invariant
                root == self@,
                root.wf(),
                beam_width > 0,
                beam_depth > 0,
                t <= beam_depth,
                now_beam@.len() > 0,
                at_level(now_beam@, root, t as nat),
                goal == search(seq![root], beam_width as nat, beam_depth as nat, true),
            ensures
                goal == now_beam@,
                t > 0,
                at_level(now_beam@, root, t as nat),
            decreases beam_depth - t,
        {
            let ghost before = now_beam@;
            proof {
                lemma_expand_at_level(before, beam_width as nat, t == 0, root, t as nat);
                assert(all_running(before)) by {
                    assert forall|i: int| 0 <= i < before.len() implies (#[trigger] before[i]).wf()
                        && !before[i].terminal() by {}
                }
            }
            let next_beam = expand_level(&mut now_beam, beam_width, t == 0);
            now_beam = next_beam;
            t += 1;
            match now_beam.peek() {
                None => {
                    return Err(SearchError::NoLegalActions);
                },
                Some(best_state) => {
                    if best_state.is_done() {
                        break ;
                    }
                    proof {
                        lemma_best_exists(now_beam@);
                    }
                },
            }
        }
        match now_beam.peek() {
            Some(best_state) => {
                proof {
                    lemma_best_exists(now_beam@);
                }
                match best_state.first_action() {
                    Some(action) => Ok(action),
                    None => Err(SearchError::NoLegalActions),
                }
            },
            None => Err(SearchError::NoLegalActions),
        }
    }
}

} // verus!
