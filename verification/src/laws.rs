//! What holds of every game and of every search.

use vstd::prelude::*;
use crate::beam::{at_level, beam_choice, children, expand, lemma_expand_at_level, search};
use crate::frontier::{best_index, lemma_best_exists};
use crate::model::{board_total, lemma_legal_actions, lemma_step, Maze};

verus! {

/// The moves of `actions` can be made one after the other from `s`: each is
/// legal where it is made, and the game is not over before the last.
pub open spec fn playable(s: Maze, actions: Seq<int>) -> bool
    decreases actions.len(),
{
    actions.len() == 0 || (!s.terminal() && s.legal(actions[0]) && playable(
        s.step(actions[0]),
        actions.drop_first(),
    ))
}

/// The state after the moves of `actions`, made one after the other from
/// `s`.
pub open spec fn run(s: Maze, actions: Seq<int>) -> Maze
    decreases actions.len(),
{
    if actions.len() == 0 {
        s
    } else {
        run(s.step(actions[0]), actions.drop_first())
    }
}

/// Making the moves of `first` and then those of `then` is making the moves
/// of both in a row.
pub proof fn lemma_run_append(s: Maze, first: Seq<int>, then: Seq<int>)
    ensures
        run(s, first + then) == run(run(s, first), then),
        playable(s, first + then) <==> playable(s, first) && playable(run(s, first), then),
    decreases first.len(),
{
    if first.len() > 0 {
        assert((first + then).drop_first() =~= first.drop_first() + then);
        lemma_run_append(s.step(first[0]), first.drop_first(), then);
    }
}

/// Whatever moves are made in a game, the agent stays on the
/// board, the board keeps its shape and its values stay non-negative, and
/// the clock counts the moves and never passes the end of the game.
pub proof fn lemma_run_stays_in_bounds(s: Maze, actions: Seq<int>)
    requires
        s.wf(),
        playable(s, actions),
    ensures
        run(s, actions).wf(),
        0 <= run(s, actions).y < s.height(),
        0 <= run(s, actions).x < s.width(),
        run(s, actions).height() == s.height(),
        run(s, actions).width() == s.width(),
        run(s, actions).end_turn == s.end_turn,
        run(s, actions).turn == s.turn + actions.len(),
        0 <= run(s, actions).turn <= s.end_turn,
    decreases actions.len(),
{
    if actions.len() > 0 {
        lemma_step(s, actions[0]);
        lemma_run_stays_in_bounds(s.step(actions[0]), actions.drop_first());
    }
}

/// Whatever moves are made in a game, the score has grown by what
/// the board has lost, and every cell holds what it held before or nothing.
pub proof fn lemma_score_is_what_was_collected(s: Maze, actions: Seq<int>)
    requires
        s.wf(),
        playable(s, actions),
    ensures
        run(s, actions).game_score - s.game_score == board_total(s.points) - board_total(
            run(s, actions).points,
        ),
        s.game_score <= run(s, actions).game_score,
        forall|j: int, i: int|
            0 <= j < s.height() && 0 <= i < s.width() ==> {
                ||| #[trigger] run(s, actions).points[j][i] == s.points[j][i]
                ||| run(s, actions).points[j][i] == 0
            },
    decreases actions.len(),
{
    if actions.len() > 0 {
        let t = s.step(actions[0]);
        lemma_step(s, actions[0]);
        lemma_score_is_what_was_collected(t, actions.drop_first());
        let last = run(s, actions);
        assert forall|j: int, i: int| 0 <= j < s.height() && 0 <= i < s.width() implies {
            ||| #[trigger] last.points[j][i] == s.points[j][i]
            ||| last.points[j][i] == 0
        } by {}
    }
}

/// Along any sequence of moves the score never falls:
/// after the first `later` moves it is at least what it was after the
/// first `earlier`.
pub proof fn lemma_score_never_falls(s: Maze, actions: Seq<int>, earlier: int, later: int)
    requires
        s.wf(),
        playable(s, actions),
        0 <= earlier <= later <= actions.len(),
    ensures
        run(s, actions.take(earlier)).game_score <= run(s, actions.take(later)).game_score,
{
    let first = actions.take(earlier);
    let then = actions.subrange(earlier, later);
    let rest = actions.subrange(later, actions.len() as int);
    assert(actions.take(later) =~= first + then);
    assert(actions =~= actions.take(later) + rest);
    lemma_run_append(s, actions.take(later), rest);
    lemma_run_append(s, first, then);
    lemma_run_stays_in_bounds(s, first);
    lemma_score_is_what_was_collected(run(s, first), then);
}

/// The first level of a search replaces the root by its children, each
/// marked with the move that leads to it.
pub proof fn lemma_first_level(root: Maze, width: nat)
    requires
        width > 0,
    ensures
        expand(seq![root], width, true) == children(root, true),
{
    let only = seq![root];
    lemma_best_exists(only);
    assert(expand(only.remove(0), (width - 1) as nat, true) =~= Seq::<Maze>::empty());
}

/// A beam search of depth one settles on the greedy move,
/// whatever its width; where no move is legal it settles on none.
pub proof fn lemma_beam_of_depth_one_is_greedy(s: Maze, width: nat)
    requires
        s.wf(),
        !s.terminal(),
        width > 0,
    ensures
        match beam_choice(s, width, 1) {
            Some(action) => s.is_greedy_choice(action as int),
            None => s.legal_actions().len() == 0,
        },
{
    lemma_first_level(s, width);
    let kids = children(s, true);
    let list = s.legal_actions();
    assert(search(seq![s], width, 1, true) == kids) by {
        assert(search(kids, width, 0, false) == kids);
    }
    if kids.len() > 0 {
        lemma_best_exists(kids);
        lemma_legal_actions(s);
        let at = best_index(kids);
        let action = list[at];
        assert forall|other: int| #[trigger] s.legal(other) implies {
            &&& s.score_after(other) <= s.score_after(action as int)
            &&& other < action ==> s.score_after(other) < s.score_after(action as int)
        } by {
            let i = choose|i: int| 0 <= i < list.len() && list[i] == other as usize;
            assert(kids[i].evaluated_score == s.score_after(other));
        }
    }
}

/// Two states are the same moment of the same game: they differ at most in
/// what a search has written on them.
pub open spec fn same_game(a: Maze, b: Maze) -> bool {
    &&& a.points == b.points
    &&& a.y == b.y
    &&& a.x == b.x
    &&& a.turn == b.turn
    &&& a.end_turn == b.end_turn
    &&& a.game_score == b.game_score
}

/// What the selectors choose depends on the board, the agent,
/// the clock and the score alone: on two states that agree in these they
/// find the same moves legal, the same move greedy, and the same move at
/// the end of a beam search.
pub proof fn lemma_choice_depends_on_game_alone(a: Maze, b: Maze, width: nat, depth: nat)
    requires
        same_game(a, b),
        width > 0,
        depth > 0,
    ensures
        a.terminal() == b.terminal(),
        a.legal_actions() == b.legal_actions(),
        forall|action: int| a.is_greedy_choice(action) == b.is_greedy_choice(action),
        beam_choice(a, width, depth) == beam_choice(b, width, depth),
{
    assert forall|action: int| a.legal(action) == b.legal(action) by {}
    assert forall|action: int| a.score_after(action) == b.score_after(action) by {}
    assert forall|action: int| a.is_greedy_choice(action) == b.is_greedy_choice(action) by {
        assert forall|other: int| a.legal(other) == b.legal(other) by {}
    }
    lemma_first_level(a, width);
    lemma_first_level(b, width);
    assert(children(a, true) =~= children(b, true));
}

/// The greedy move of a state is one move: a selector that returns a greedy
/// move returns the same on every call.
pub proof fn lemma_greedy_is_one_move(s: Maze, a: int, b: int)
    requires
        s.is_greedy_choice(a),
        s.is_greedy_choice(b),
    ensures
        a == b,
{
}

/// Every member of `members` is marked with a move that is legal for
/// `root`.
pub open spec fn marked(members: Seq<Maze>, root: Maze) -> bool {
    forall|i: int|
        0 <= i < members.len() ==> (#[trigger] members[i]).first_action is Some && root.legal(
            members[i].first_action->0 as int,
        )
}

/// A search that goes on from a level of a running game ends with a
/// frontier whose members are all marked with legal moves of the root. That
/// frontier is empty only on a board of a single cell.
pub proof fn lemma_search_keeps_marks(
    members: Seq<Maze>,
    width: nat,
    depth: nat,
    root: Maze,
    level: nat,
)
    requires
        root.wf(),
        at_level(members, root, level),
        root.turn + level < root.end_turn,
        members.len() > 0,
        width > 0,
        depth > 0,
    ensures
        marked(search(members, width, depth, level == 0), root),
        search(members, width, depth, level == 0).len() == 0 <==> root.legal_actions().len() == 0,
    decreases depth,
{
    let next = expand(members, width, level == 0);
    lemma_expand_at_level(members, width, level == 0, root, level);
    assert(marked(next, root)) by {
        assert forall|i: int| 0 <= i < next.len() implies (#[trigger] next[i]).first_action is Some
            && root.legal(next[i].first_action->0 as int) by {}
    }
    if next.len() > 0 {
        lemma_best_exists(next);
        if !next[best_index(next)].terminal() {
            if depth > 1 {
                lemma_search_keeps_marks(next, width, (depth - 1) as nat, root, level + 1);
            } else {
                assert(search(next, width, 0, false) == next);
            }
        }
    }
}

/// The move that a beam search settles on is legal. It settles on none
/// only on a board of a single cell.
pub proof fn lemma_beam_choice_is_legal(s: Maze, width: nat, depth: nat)
    requires
        s.wf(),
        !s.terminal(),
        width > 0,
        depth > 0,
    ensures
        match beam_choice(s, width, depth) {
            Some(action) => s.legal(action as int),
            None => s.legal_actions().len() == 0,
        },
{
    let only = seq![s];
    lemma_search_keeps_marks(only, width, depth, s, 0);
    let last = search(only, width, depth, true);
    if last.len() > 0 {
        lemma_best_exists(last);
    }
}

/// A search that has more levels to go than the game has moves left ends
/// where the game ends.
pub proof fn lemma_search_ends_with_game(
    members: Seq<Maze>,
    width: nat,
    depth: nat,
    root: Maze,
    level: nat,
)
    requires
        root.wf(),
        at_level(members, root, level),
        root.turn + level < root.end_turn,
        depth >= root.end_turn - root.turn - level,
    ensures
        search(members, width, depth, level == 0) == search(
            members,
            width,
            (root.end_turn - root.turn - level) as nat,
            level == 0,
        ),
    decreases root.end_turn - root.turn - level,
{
    let next = expand(members, width, level == 0);
    lemma_expand_at_level(members, width, level == 0, root, level);
    if next.len() > 0 {
        lemma_best_exists(next);
        if !next[best_index(next)].terminal() {
            lemma_search_ends_with_game(next, width, (depth - 1) as nat, root, level + 1);
        }
    }
}

/// Looking further than the end of the game changes nothing: a beam search
/// of any depth that reaches the end chooses what the search of exactly
/// that depth chooses.
pub proof fn lemma_depth_past_the_end(s: Maze, width: nat, depth: nat)
    requires
        s.wf(),
        !s.terminal(),
        depth >= s.end_turn - s.turn,
    ensures
        beam_choice(s, width, depth) == beam_choice(s, width, (s.end_turn - s.turn) as nat),
{
    let only = seq![s];
    lemma_search_ends_with_game(only, width, depth, s, 0);
}

} // verus!
