//! Making the first state of a game from a given board.

use vstd::prelude::*;
use crate::coord::Coord;
use crate::model::{board_total, row_total, Maze};
use crate::state::{board_of, MazeState};
use crate::totals::{
    board_nonneg, lemma_board_total_prefix, lemma_board_total_push, lemma_row_total_prefix,
    lemma_row_total_push, row_nonneg,
};

verus! {

/// Why a board, a start cell and a game length do not make a game.
#[derive(PartialEq, Eq, Structural, Clone, Copy, Debug)]
pub enum StateError {
    /// The board has no row, or its first row has no cell.
    EmptyBoard,
    /// Some row is not as long as the first.
    RaggedBoard,
    /// Some cell holds a negative value.
    NegativeValue,
    /// The board has more rows or columns than `i64::MAX`, or the sum of
    /// its values is more than `i64::MAX`.
    TooLarge,
    /// The start cell is not on the board.
    StartOutOfBounds,
    /// The game would be over before the first move.
    NoTurns,
}

/// The state at the start of a game: no move made, nothing collected.
pub open spec fn initial(points: Seq<Seq<int>>, start: Coord, end_turn: usize) -> Maze {
    Maze {
        points,
        turn: 0,
        end_turn: end_turn as nat,
        y: start.y as int,
        x: start.x as int,
        game_score: 0,
        evaluated_score: 0,
        first_action: None,
    }
}

/// Some row is not as long as the first.
pub open spec fn ragged(points: Seq<Seq<int>>) -> bool {
    exists|j: int| 0 <= j < points.len() && (#[trigger] points[j]).len() != points[0].len()
}

/// The first fault of the three inputs, in the order of [`StateError`], or
/// `None` if they make a game.
pub open spec fn rejection(points: Seq<Seq<int>>, start: Coord, end_turn: usize) -> Option<
    StateError,
> {
    let m = initial(points, start, end_turn);
    if m.height() == 0 || m.width() == 0 {
        Some(StateError::EmptyBoard)
    } else if ragged(points) {
        Some(StateError::RaggedBoard)
    } else if !board_nonneg(points) {
        Some(StateError::NegativeValue)
    } else if m.height() > i64::MAX || m.width() > i64::MAX || board_total(points) > i64::MAX {
        Some(StateError::TooLarge)
    } else if !m.in_bounds(m.y, m.x) {
        Some(StateError::StartOutOfBounds)
    } else if end_turn == 0 {
        Some(StateError::NoTurns)
    } else {
        None
    }
}

/// The inputs that [`rejection`] lets pass are those that make a state of a
/// game that is not yet over.
pub proof fn lemma_rejection(points: Seq<Seq<int>>, start: Coord, end_turn: usize)
    ensures
        rejection(points, start, end_turn) is None <==> initial(points, start, end_turn).wf()
            && !initial(points, start, end_turn).terminal(),
{
    let m = initial(points, start, end_turn);
    if rejection(points, start, end_turn) is None {
        assert forall|j: int| 0 <= j < m.height() implies (#[trigger] points[j]).len()
            == m.width() by {}
        assert forall|j: int, i: int|
            0 <= j < m.height() && 0 <= i < m.width() implies #[trigger] points[j][i] >= 0 by {}
    } else if m.wf() {
        if ragged(points) {
            let j = choose|j: int| 0 <= j < points.len() && (#[trigger] points[j]).len() != points[0].len();
        }
        if !ragged(points) && !board_nonneg(points) {
            let j = choose|j: int| 0 <= j < points.len() && !row_nonneg(#[trigger] points[j]);
            let i = choose|i: int| 0 <= i < points[j].len() && !(#[trigger] points[j][i] >= 0);
        }
    }
}

/// Whether every row is as long as the first.
fn is_rectangle(points: &Vec<Vec<i64>>) -> (ok: bool)
    requires
        points.len() > 0,
    ensures
        ok == !ragged(board_of(points@)),
{
    let width = points[0].len();
    let ghost board = board_of(points@);
    let mut j: usize = 0;
    while j < points.len()
        invariant
            j <= points.len(),
            points.len() > 0,
            width == points[0].len(),
            board == board_of(points@),
            forall|k: int| 0 <= k < j ==> (#[trigger] board[k]).len() == board[0].len(),
        decreases points.len() - j,
    {
        if points[j].len() != width {
            assert(board[j as int].len() != board[0].len());
            return false;
        }
        j += 1;
    }
    true
}

/// Whether no cell holds a negative value.
fn is_nonneg(points: &Vec<Vec<i64>>) -> (ok: bool)
    ensures
        ok == board_nonneg(board_of(points@)),
{
    let ghost board = board_of(points@);
    let mut j: usize = 0;
    while j < points.len()
        invariant
            j <= points.len(),
            board == board_of(points@),
            forall|k: int| 0 <= k < j ==> row_nonneg(#[trigger] board[k]),
        decreases points.len() - j,
    {
        let row = &points[j];
        let mut i: usize = 0;
        while i < row.len()
            invariant
                i <= row.len(),
                j < points.len(),
                row == &points[j as int],
                board == board_of(points@),
                forall|k: int| 0 <= k < i ==> #[trigger] board[j as int][k] >= 0,
            decreases row.len() - i,
        {
            if row[i] < 0 {
                assert(board[j as int][i as int] < 0);
                return false;
            }
            i += 1;
        }
        j += 1;
    }
    true
}

/// The sum of all values, if it is at most `i64::MAX`.
fn total_of(points: &Vec<Vec<i64>>) -> (total: Option<i64>)
    requires
        board_nonneg(board_of(points@)),
    ensures
        match total {
            Some(t) => t == board_total(board_of(points@)),
            None => board_total(board_of(points@)) > i64::MAX,
        },
{
    let ghost board = board_of(points@);
    let mut acc: i64 = 0;
    let mut j: usize = 0;
    while j < points.len()
        invariant
            j <= points.len(),
            board == board_of(points@),
            board_nonneg(board),
            acc == board_total(board.take(j as int)),
        decreases points.len() - j,
    {
        let row = &points[j];
        let ghost cells = board[j as int];
        let mut i: usize = 0;
        while i < row.len()
            invariant
                i <= row.len(),
                j < points.len(),
                row == &points[j as int],
                board == board_of(points@),
                board_nonneg(board),
                cells == board[j as int],
                acc == board_total(board.take(j as int)) + row_total(cells.take(i as int)),
            decreases row.len() - i,
        {
            proof {
                assert(cells.take(i + 1) =~= cells.take(i as int).push(cells[i as int]));
                lemma_row_total_push(cells.take(i as int), cells[i as int]);
                lemma_row_total_prefix(cells, i + 1);
                assert(board.take(j + 1) =~= board.take(j as int).push(cells));
                lemma_board_total_push(board.take(j as int), cells);
                lemma_board_total_prefix(board, j + 1);
            }
            match acc.checked_add(row[i]) {
                Some(next) => {
                    acc = next;
                },
                None => {
                    return None;
                },
            }
            i += 1;
        }
        proof {
            assert(cells.take(i as int) =~= cells);
            assert(board.take(j + 1) =~= board.take(j as int).push(cells));
            lemma_board_total_push(board.take(j as int), cells);
        }
        j += 1;
    }
    proof {
        assert(board.take(j as int) =~= board);
    }
    Some(acc)
}

impl MazeState {
    /// The first state of a game of `end_turn` moves on the board `points`,
    /// with the agent on `character`. The inputs are refused with the first
    /// fault that [`rejection`] finds in them.
    pub fn new(points: Vec<Vec<i64>>, character: Coord, end_turn: usize) -> (made: Result<
        MazeState,
        StateError,
    >)
        ensures
            match made {
                Ok(state) => {
                    &&& rejection(board_of(points@), character, end_turn) is None
                    &&& state@ == initial(board_of(points@), character, end_turn)
                    &&& state@.wf()
                    &&& !state@.terminal()
                },
                Err(fault) => rejection(board_of(points@), character, end_turn) == Some(fault),
            },
    {
        let ghost board = board_of(points@);
        proof {
            lemma_rejection(board, character, end_turn);
        }
        if points.len() == 0 || points[0].len() == 0 {
            return Err(StateError::EmptyBoard);
        }
        if !is_rectangle(&points) {
            return Err(StateError::RaggedBoard);
        }
        if !is_nonneg(&points) {
            return Err(StateError::NegativeValue);
        }
        let height = points.len() as u64;
        let width = points[0].len() as u64;
        if height > i64::MAX as u64 || width > i64::MAX as u64 {
            return Err(StateError::TooLarge);
        }
        if total_of(&points).is_none() {
            return Err(StateError::TooLarge);
        }
        if character.y < 0 || character.y as u64 >= height || character.x < 0 || character.x as u64
            >= width {
            return Err(StateError::StartOutOfBounds);
        }
        if end_turn == 0 {
            return Err(StateError::NoTurns);
        }
        Ok(MazeState::assemble(points, character, end_turn))
    }
}

} // verus!
