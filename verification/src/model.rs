//! The mathematical model of a game state and of its transitions.

use vstd::prelude::*;
use crate::totals::{
    board_nonneg, lemma_board_total_nonneg, lemma_board_total_update, lemma_cell_at_most_total,
    lemma_row_total_update, row_nonneg,
};

verus! {

/// Row change of a move: `2` goes down, `3` goes up.
pub open spec fn dy(action: int) -> int {
    if action == 2 {
        1
    } else if action == 3 {
        -1
    } else {
        0
    }
}

/// Column change of a move: `0` goes right, `1` goes left.
pub open spec fn dx(action: int) -> int {
    if action == 0 {
        1
    } else if action == 1 {
        -1
    } else {
        0
    }
}

/// Sum of the values of one row.
pub open spec fn row_total(row: Seq<int>) -> int
    decreases row.len(),
{
    if row.len() == 0 {
        0
    } else {
        row_total(row.drop_last()) + row.last()
    }
}

/// Sum of the values of all cells.
pub open spec fn board_total(points: Seq<Seq<int>>) -> int
    decreases points.len(),
{
    if points.len() == 0 {
        0
    } else {
        board_total(points.drop_last()) + row_total(points.last())
    }
}

/// What a game state is: the board, the clock, the agent and the scores.
pub struct Maze {
    /// Point value of each cell, row by row.
    pub points: Seq<Seq<int>>,
    /// Moves made so far.
    pub turn: nat,
    /// Number of moves after which the game is over.
    pub end_turn: nat,
    /// Row of the agent.
    pub y: int,
    /// Column of the agent.
    pub x: int,
    /// Sum of the values collected so far.
    pub game_score: int,
    /// Score by which a search ranks this state.
    pub evaluated_score: int,
    /// First move on the path from the root of a search to this state.
    pub first_action: Option<usize>,
}

impl Maze {
    /// Number of rows.
    pub open spec fn height(self) -> int {
        self.points.len() as int
    }

    /// Number of columns.
    pub open spec fn width(self) -> int {
        if self.points.len() == 0 {
            0
        } else {
            self.points[0].len() as int
        }
    }

    /// Whether `(y, x)` is a cell of the board.
    pub open spec fn in_bounds(self, y: int, x: int) -> bool {
        0 <= y < self.height() && 0 <= x < self.width()
    }

    /// The board is a non-empty rectangle of non-negative values.
    pub open spec fn board_ok(self) -> bool {
        &&& self.height() >= 1
        &&& self.width() >= 1
        &&& forall|j: int| 0 <= j < self.height() ==> (#[trigger] self.points[j]).len() == self.width()
        &&& forall|j: int, i: int|
            0 <= j < self.height() && 0 <= i < self.width() ==> #[trigger] self.points[j][i] >= 0
    }

    /// A state of a game: the agent stands on the board, the clock has not
    /// run past the end, and everything that can still be collected fits,
    /// together with the score, in a machine integer.
    pub open spec fn wf(self) -> bool {
        &&& self.board_ok()
        &&& self.height() <= i64::MAX
        &&& self.width() <= i64::MAX
        &&& self.in_bounds(self.y, self.x)
        &&& self.turn <= self.end_turn
        &&& 0 <= self.game_score
        &&& self.game_score + board_total(self.points) <= i64::MAX
    }

    /// The game is over.
    pub open spec fn terminal(self) -> bool {
        self.turn == self.end_turn
    }

    /// Row that `action` leads to.
    pub open spec fn target_y(self, action: int) -> int {
        self.y + dy(action)
    }

    /// Column that `action` leads to.
    pub open spec fn target_x(self, action: int) -> int {
        self.x + dx(action)
    }

    /// `action` is one of the four moves and stays on the board.
    pub open spec fn legal(self, action: int) -> bool {
        0 <= action < 4 && self.in_bounds(self.target_y(action), self.target_x(action))
    }

    /// The move `action`, alone if it is legal.
    pub open spec fn keep(self, action: int) -> Seq<usize> {
        if self.legal(action) {
            seq![action as usize]
        } else {
            Seq::empty()
        }
    }

    /// The legal moves in increasing order.
    pub open spec fn legal_actions(self) -> Seq<usize> {
        self.keep(0) + self.keep(1) + self.keep(2) + self.keep(3)
    }

    /// Value of the cell that `action` leads to.
    pub open spec fn gain(self, action: int) -> int {
        self.points[self.target_y(action)][self.target_x(action)]
    }

    /// The state after `action`: the agent has moved, the value of its new
    /// cell has gone from the board to the score, and one turn has passed.
    pub open spec fn step(self, action: int) -> Maze {
        let y = self.target_y(action);
        let x = self.target_x(action);
        Maze {
            points: self.points.update(y, self.points[y].update(x, 0)),
            turn: self.turn + 1,
            y,
            x,
            game_score: self.game_score + self.gain(action),
            ..self
        }
    }

    /// The state with its ranking score set to the game score.
    pub open spec fn evaluate(self) -> Maze {
        Maze { evaluated_score: self.game_score, ..self }
    }

    /// The score by which a search ranks the state that `action` leads to.
    pub open spec fn score_after(self, action: int) -> int {
        self.step(action).evaluate().evaluated_score
    }

    /// `action` is the greedy move: it is legal, no legal move leads to a
    /// higher score, and every legal move before it leads to a lower one.
    pub open spec fn is_greedy_choice(self, action: int) -> bool {
        &&& self.legal(action)
        &&& forall|other: int| #[trigger]
            self.legal(other) ==> self.score_after(other) <= self.score_after(action)
        &&& forall|other: int| #[trigger]
            self.legal(other) && other < action ==> self.score_after(other) < self.score_after(
                action,
            )
    }

    /// The state marked as a descendant of the root's move `action`.
    pub open spec fn stamp(self, action: usize) -> Maze {
        Maze { first_action: Some(action), ..self }
    }
}

/// A board that is a rectangle of non-negative values holds nothing
/// negative in any row, and its sum is not negative.
pub proof fn lemma_board_nonneg(s: Maze)
    requires
        s.board_ok(),
    ensures
        board_nonneg(s.points),
        0 <= board_total(s.points),
{
    assert forall|j: int| 0 <= j < s.points.len() implies row_nonneg(#[trigger] s.points[j]) by {
        assert forall|i: int| 0 <= i < s.points[j].len() implies #[trigger] s.points[j][i]
            >= 0 by {}
    }
    lemma_board_total_nonneg(s.points);
}

/// A move that is legal in a running game leads to a state of the same game:
/// the board keeps its shape, the clock stays within the game, and what the
/// score gains is what the board loses.
pub proof fn lemma_step(s: Maze, action: int)
    requires
        s.wf(),
        s.legal(action),
        !s.terminal(),
    ensures
        s.step(action).wf(),
        s.step(action).height() == s.height(),
        s.step(action).width() == s.width(),
        s.step(action).end_turn == s.end_turn,
        s.step(action).turn == s.turn + 1,
        0 <= s.gain(action),
        s.game_score + s.gain(action) <= i64::MAX,
        s.step(action).game_score + board_total(s.step(action).points) == s.game_score
            + board_total(s.points),
{
    let y = s.target_y(action);
    let x = s.target_x(action);
    let t = s.step(action);
    lemma_board_nonneg(s);
    lemma_cell_at_most_total(s.points, y, x);
    lemma_row_total_update(s.points[y], x, 0);
    lemma_board_total_update(s.points, y, s.points[y].update(x, 0));
    assert(t.width() == s.width()) by {}
    assert forall|j: int| 0 <= j < t.height() implies (#[trigger] t.points[j]).len()
        == t.width() by {}
    assert forall|j: int, i: int|
        0 <= j < t.height() && 0 <= i < t.width() implies #[trigger] t.points[j][i] >= 0 by {}
}

/// The list of legal moves holds each legal move once, in increasing order,
/// and nothing else.
pub proof fn lemma_legal_actions(s: Maze)
    ensures
        forall|k: int|
            0 <= k < s.legal_actions().len() ==> s.legal(#[trigger] s.legal_actions()[k] as int),
        forall|k: int, l: int|
            0 <= k < l < s.legal_actions().len() ==> s.legal_actions()[k] < s.legal_actions()[l],
        forall|action: int| #[trigger]
            s.legal(action) ==> s.legal_actions().contains(action as usize),
{
    let list = s.legal_actions();
    assert forall|action: int| #[trigger] s.legal(action) implies list.contains(
        action as usize,
    ) by {
        let before: int = if action == 0 {
            0
        } else if action == 1 {
            s.keep(0).len() as int
        } else if action == 2 {
            (s.keep(0) + s.keep(1)).len() as int
        } else {
            (s.keep(0) + s.keep(1) + s.keep(2)).len() as int
        };
        assert(list[before] == action as usize);
    }
}

/// On a board of more than one cell some move is legal; on a board of one
/// cell none is.
pub proof fn lemma_some_move(s: Maze)
    requires
        s.wf(),
    ensures
        s.legal_actions().len() == 0 <==> s.height() == 1 && s.width() == 1,
{
}

} // verus!
