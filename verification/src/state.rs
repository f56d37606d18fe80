//! The executable game state and its transition operations.

use vstd::prelude::*;
use crate::coord::Coord;
use crate::model::{lemma_step, Maze};

verus! {

/// The number of moves there are.
pub const ACTION_COUNT: usize = 4;

/// Column change of each move: right, left, down, up.
pub const DX: [i64; 4] = [1, -1, 0, 0];

/// Row change of each move: right, left, down, up.
pub const DY: [i64; 4] = [0, 0, 1, -1];

/// The board that the rows of `points` stand for.
pub open spec fn board_of(points: Seq<Vec<i64>>) -> Seq<Seq<int>> {
    Seq::new(points.len(), |j: int| Seq::new(points[j]@.len(), |i: int| points[j]@[i] as int))
}

/// A snapshot of a game. It is made by [`MazeState::new`] or
/// [`MazeState::from_seed`](crate::generate) and changes only through
/// [`MazeState::advance`], so every value of this type is a state of a game
/// in the sense of [`Maze::wf`].
#[derive(PartialEq, Eq, Debug)]
pub struct MazeState {
    points: Vec<Vec<i64>>,
    turn: usize,
    end_turn: usize,
    character: Coord,
    game_score: i64,
    evaluated_score: i64,
    first_action: Option<usize>,
}

impl View for MazeState {
    type V = Maze;

    closed spec fn view(&self) -> Maze {
        Maze {
            points: board_of(self.points@),
            turn: self.turn as nat,
            end_turn: self.end_turn as nat,
            y: self.character.y as int,
            x: self.character.x as int,
            game_score: self.game_score as int,
            evaluated_score: self.evaluated_score as int,
            first_action: self.first_action,
        }
    }
}

impl Clone for MazeState {
    /// An independent copy of the snapshot.
    fn clone(&self) -> (copy: Self)
        ensures
            copy@ == self@,
    {
        let mut points: Vec<Vec<i64>> = Vec::new();
        let mut j: usize = 0;
        while j < self.points.len()
            invariant
                j <= self.points.len(),
                points.len() == j,
                forall|k: int| 0 <= k < j ==> (#[trigger] points[k])@ == self.points[k]@,
            decreases self.points.len() - j,
        {
            let row = self.points[j].clone();
            points.push(row);
            j += 1;
        }
        assert(board_of(points@) =~= board_of(self.points@));
        MazeState {
            points,
            turn: self.turn,
            end_turn: self.end_turn,
            character: self.character,
            game_score: self.game_score,
            evaluated_score: self.evaluated_score,
            first_action: self.first_action,
        }
    }
}

impl MazeState {
    /// The state at the start of a game, from parts that are known to make
    /// one.
    pub(crate) fn assemble(points: Vec<Vec<i64>>, character: Coord, end_turn: usize) -> (state:
        Self)
        ensures
            state@ == crate::setup::initial(board_of(points@), character, end_turn),
    {
        MazeState {
            points,
            turn: 0,
            end_turn,
            character,
            game_score: 0,
            evaluated_score: 0,
            first_action: None,
        }
    }

    /// The point values of the cells, row by row.
    pub fn points(&self) -> (points: &Vec<Vec<i64>>)
        ensures
            board_of(points@) == self@.points,
    {
        &self.points
    }

    /// Number of moves made so far.
    pub fn turn(&self) -> (t: usize)
        ensures
            t == self@.turn,
    {
        self.turn
    }

    /// Number of moves after which the game is over.
    pub fn end_turn(&self) -> (t: usize)
        ensures
            t == self@.end_turn,
    {
        self.end_turn
    }

    /// Where the agent stands.
    pub fn character(&self) -> (c: Coord)
        ensures
            c.y == self@.y,
            c.x == self@.x,
    {
        self.character
    }

    /// Sum of the values collected so far.
    pub fn game_score(&self) -> (score: i64)
        ensures
            score == self@.game_score,
    {
        self.game_score
    }

    /// Score by which a search ranks this state.
    pub fn evaluated_score(&self) -> (score: i64)
        ensures
            score == self@.evaluated_score,
    {
        self.evaluated_score
    }

    /// First move on the path from the root of a search to this state.
    pub fn first_action(&self) -> (action: Option<usize>)
        ensures
            action == self@.first_action,
    {
        self.first_action
    }

    /// Whether the game is over.
    pub fn is_done(&self) -> (done: bool)
        ensures
            done == self@.terminal(),
    {
        self.turn == self.end_turn
    }

    /// Whether `action` is one of the four moves and stays on the board.
    pub fn is_legal(&self, action: usize) -> (legal: bool)
        requires
            self@.wf(),
        ensures
            legal == self@.legal(action as int),
    {
        if action >= ACTION_COUNT {
            return false;
        }
        let y = self.character.y + DY[action];
        let x = self.character.x + DX[action];
        y >= 0 && (y as u64) < self.points.len() as u64 && x >= 0 && (x as u64)
            < self.points[0].len() as u64
    }

    /// The moves that stay on the board, in increasing order. On a board of
    /// one cell there is none.
    pub fn legal_actions(&self) -> (actions: Vec<usize>)
        requires
            self@.wf(),
        ensures
            actions@ == self@.legal_actions(),
    {
        let mut actions: Vec<usize> = Vec::new();
        if self.is_legal(0) {
            actions.push(0);
        }
        if self.is_legal(1) {
            actions.push(1);
        }
        if self.is_legal(2) {
            actions.push(2);
        }
        if self.is_legal(3) {
            actions.push(3);
        }
        actions
    }

    /// Makes the move `action`: the agent goes to the neighbouring cell,
    /// collects what lies there, and one turn passes. A move is made on the
    /// board and while the game runs: a finished game has no next state.
    pub fn advance(&mut self, action: usize)
        requires
            old(self)@.wf(),
            old(self)@.legal(action as int),
            !old(self)@.terminal(),
        ensures
            final(self)@ == old(self)@.step(action as int),
            final(self)@.wf(),
    {
        let ghost before = self@;
        let ghost ty = before.target_y(action as int);
        let ghost tx = before.target_x(action as int);
        proof {
            lemma_step(before, action as int);
        }
        self.character.y += DY[action];
        self.character.x += DX[action];
        assert(ty < self.points.len() && tx < self.points[ty].len());
        let y = self.character.y as usize;
        let x = self.character.x as usize;
        let point = self.points[y][x];
        if point > 0 {
            self.game_score += point;
            self.points[y][x] = 0;
        }
        self.turn += 1;
        proof {
            let after = before.step(action as int);
            assert forall|j: int| 0 <= j < after.points.len() implies #[trigger] self@.points[j]
                =~= after.points[j] by {}
            assert(self@.points =~= after.points);
        }
    }

    /// Sets the ranking score to the game score.
    pub fn evaluate_score(&mut self)
        ensures
            final(self)@ == old(self)@.evaluate(),
    {
        self.evaluated_score = self.game_score;
    }

    /// Records `action` as the move that led from the root of a search to
    /// this state.
    pub(crate) fn stamp(&mut self, action: usize)
        ensures
            final(self)@ == old(self)@.stamp(action),
    {
        self.first_action = Some(action);
    }
}

} // verus!
