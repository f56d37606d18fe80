//! Boards made from a seed, and the random selector.

use rand::Rng;
use rand::SeedableRng;
use rand_chacha::ChaCha8Rng;
use vstd::prelude::*;
use crate::coord::Coord;
use crate::model::{board_total, row_total, Maze};
use crate::search::SearchError;
use crate::setup::initial;
use crate::state::{board_of, MazeState};

verus! {

/// Number of rows of a generated board.
pub const H: usize = 3;

/// Number of columns of a generated board.
pub const W: usize = 4;

/// Number of moves of a generated game.
pub const END_TURN: usize = 4;

/// The values of a generated board are below this.
pub const POINT_BOUND: i64 = 10;

/// The generator of `rand_chacha`. Nothing is known of what it holds.
#[verifier::external_type_specification]
#[verifier::external_body]
pub struct ExChaCha8Rng(ChaCha8Rng);

/// Calls `ChaCha8Rng::seed_from_u64`, which `rand_core` provides for every
/// seedable generator. Nothing is claimed of the generator that comes back.
#[verifier::external_body]
fn seeded(seed: u64) -> ChaCha8Rng {
    ChaCha8Rng::seed_from_u64(seed)
}

/// Calls `Rng::gen_range` of `rand` with the range `0..bound` of `usize`.
/// It panics on an empty range, so `bound` must be positive; what it
/// returns lies in the range. Which value of the range it is depends on
/// the generator and on the width of `usize`, and is not claimed.
#[verifier::external_body]
fn index_below(rng: &mut ChaCha8Rng, bound: usize) -> (drawn: usize)
    requires
        bound > 0,
    ensures
        drawn < bound,
{
    rng.gen_range(0..bound)
}

/// Calls `Rng::gen_range` of `rand` with the range `0..bound` of `i64`.
/// It panics on an empty range, so `bound` must be positive; what it
/// returns lies in the range. Which value of the range it is depends on
/// the generator and is not claimed.
#[verifier::external_body]
fn value_below(rng: &mut ChaCha8Rng, bound: i64) -> (drawn: i64)
    requires
        bound > 0,
    ensures
        0 <= drawn < bound,
{
    rng.gen_range(0..bound)
}

/// What holds of every generated game before its first move: the board has
/// `H` rows and `W` columns of values below `POINT_BOUND`, the agent stands
/// on an empty cell, nothing is collected, and `END_TURN` moves are to go.
pub open spec fn generated(m: Maze) -> bool {
    &&& m.wf()
    &&& m.height() == H
    &&& m.width() == W
    &&& m.turn == 0
    &&& m.end_turn == END_TURN
    &&& m.game_score == 0
    &&& m.evaluated_score == 0
    &&& m.first_action is None
    &&& m.points[m.y][m.x] == 0
    &&& forall|j: int, i: int|
        0 <= j < H && 0 <= i < W ==> 0 <= #[trigger] m.points[j][i] < POINT_BOUND
}

/// The values `draws` may be laid out around the start cell `(y, x)` of a
/// generated board: the cell is on the board, there is one value for every
/// other cell, and each is in the range of the generator.
pub open spec fn drawable(y: usize, x: usize, draws: Seq<i64>) -> bool {
    &&& y < H
    &&& x < W
    &&& draws.len() == H * W - 1
    &&& forall|k: int| 0 <= k < draws.len() ==> 0 <= #[trigger] draws[k] < POINT_BOUND
}

/// The generated board: the start cell `(y, x)` is empty, and the other
/// cells hold the values of `draws` in their order, row by row.
pub open spec fn scattered(y: int, x: int, draws: Seq<i64>) -> Seq<Seq<int>> {
    Seq::new(
        H as nat,
        |j: int|
            Seq::new(
                W as nat,
                |i: int|
                    if j * W + i < y * W + x {
                        draws[j * W + i] as int
                    } else if j * W + i == y * W + x {
                        0
                    } else {
                        draws[j * W + i - 1] as int
                    },
            ),
    )
}

/// A row of the length of a generated row whose values are below the bound
/// of the generator sums to less than the bound times the length.
proof fn lemma_row_total_small(row: Seq<int>)
    requires
        forall|i: int| 0 <= i < row.len() ==> 0 <= #[trigger] row[i] < POINT_BOUND,
    ensures
        0 <= row_total(row) <= 9 * row.len(),
    decreases row.len(),
{
    if row.len() > 0 {
        lemma_row_total_small(row.drop_last());
    }
}

/// A board of generated rows sums to little.
proof fn lemma_board_total_small(points: Seq<Seq<int>>)
    requires
        forall|j: int| 0 <= j < points.len() ==> (#[trigger] points[j]).len() == W,
        forall|j: int, i: int|
            0 <= j < points.len() && 0 <= i < W ==> 0 <= #[trigger] points[j][i] < POINT_BOUND,
    ensures
        0 <= board_total(points) <= 36 * points.len(),
    decreases points.len(),
{
    if points.len() > 0 {
        let front = points.drop_last();
        assert forall|j: int| 0 <= j < front.len() implies (#[trigger] front[j]).len() == W by {}
        assert forall|j: int, i: int| 0 <= j < front.len() && 0 <= i < W implies 0
            <= #[trigger] front[j][i] < POINT_BOUND by {}
        lemma_board_total_small(front);
        let last = points.last();
        assert forall|i: int| 0 <= i < last.len() implies 0 <= #[trigger] last[i]
            < POINT_BOUND by {}
        lemma_row_total_small(last);
    }
}

/// The board of a generated game holds less than eleven cells of the
/// highest value.
pub proof fn lemma_generated_total(s: Maze)
    requires
        s.height() == H,
        s.width() == W,
        forall|j: int| 0 <= j < H ==> (#[trigger] s.points[j]).len() == W,
        forall|j: int, i: int|
            0 <= j < H && 0 <= i < W ==> 0 <= #[trigger] s.points[j][i] < POINT_BOUND,
        s.in_bounds(s.y, s.x),
        s.points[s.y][s.x] == 0,
    ensures
        0 <= board_total(s.points) <= 99,
{
    let full = s.points.update(s.y, s.points[s.y].update(s.x, 9));
    crate::totals::lemma_row_total_update(s.points[s.y], s.x, 9);
    crate::totals::lemma_board_total_update(s.points, s.y, s.points[s.y].update(s.x, 9));
    lemma_board_total_small(full);
    lemma_board_total_small(s.points);
}

/// Values that may be laid out make a game that is not yet over.
pub proof fn lemma_scattered_is_a_game(y: usize, x: usize, draws: Seq<i64>)
    requires
        drawable(y, x, draws),
    ensures
        initial(scattered(y as int, x as int, draws), Coord { y: y as i64, x: x as i64 }, END_TURN).wf(),
        !initial(
            scattered(y as int, x as int, draws),
            Coord { y: y as i64, x: x as i64 },
            END_TURN,
        ).terminal(),
{
    let points = scattered(y as int, x as int, draws);
    assert forall|j: int, i: int| 0 <= j < points.len() && 0 <= i < W implies 0
        <= #[trigger] points[j][i] < POINT_BOUND by {}
    lemma_board_total_small(points);
}

impl MazeState {
    /// The first state of a generated game whose agent starts on `(y, x)`
    /// and whose other cells hold the values of `draws`, row by row. It is
    /// `None` if the values may not be laid out so.
    pub fn from_draws(y: usize, x: usize, draws: &Vec<i64>) -> (made: Option<MazeState>)
        ensures
            match made {
                Some(state) => {
                    &&& drawable(y, x, draws@)
                    &&& state@ == initial(
                        scattered(y as int, x as int, draws@),
                        Coord { y: y as i64, x: x as i64 },
                        END_TURN,
                    )
                    &&& state@.wf()
                    &&& !state@.terminal()
                },
                None => !drawable(y, x, draws@),
            },
    {
        if y >= H || x >= W || draws.len() != H * W - 1 {
            return None;
        }
        let mut k: usize = 0;
        while k < draws.len()
            invariant
                k <= draws.len(),
                forall|l: int| 0 <= l < k ==> 0 <= #[trigger] draws[l] < POINT_BOUND,
            decreases draws.len() - k,
        {
            if draws[k] < 0 || draws[k] >= POINT_BOUND {
                return None;
            }
            k += 1;
        }
        let ghost board = scattered(y as int, x as int, draws@);
        let mut points: Vec<Vec<i64>> = Vec::new();
        let mut used: usize = 0;
        let mut j: usize = 0;
        while j < H
            invariant
                j <= H,
                y < H,
                x < W,
                draws.len() == H * W - 1,
                board == scattered(y as int, x as int, draws@),
                points.len() == j,
                used == j * W - (if j * W > y * W + x { 1int } else { 0int }),
                forall|l: int| 0 <= l < j ==> (#[trigger] points[l])@.len() == W,
                forall|l: int, i: int|
                    0 <= l < j && 0 <= i < W ==> #[trigger] points[l]@[i] == board[l][i],
            decreases H - j,
        {
            let mut row: Vec<i64> = Vec::new();
            let mut i: usize = 0;
            while i < W
                invariant
                    i <= W,
                    j < H,
                    y < H,
                    x < W,
                    draws.len() == H * W - 1,
                    board == scattered(y as int, x as int, draws@),
                    row.len() == i,
                    used == j * W + i - (if j * W + i > y * W + x { 1int } else { 0int }),
                    forall|l: int| 0 <= l < i ==> #[trigger] row[l] == board[j as int][l],
                decreases W - i,
            {
                if j == y && i == x {
                    row.push(0);
                } else {
                    row.push(draws[used]);
                    used += 1;
                }
                i += 1;
            }
            points.push(row);
            j += 1;
        }
        let character = Coord { y: y as i64, x: x as i64 };
        proof {
            assert(board_of(points@) =~~= board) by {
                assert forall|l: int| 0 <= l < H implies #[trigger] board_of(points@)[l]
                    =~= board[l] by {
                    assert forall|i: int| 0 <= i < W implies board_of(points@)[l][i]
                        == board[l][i] by {}
                }
            }
            lemma_scattered_is_a_game(y, x, draws@);
        }
        Some(MazeState::assemble(points, character, END_TURN))
    }

    /// A generated game: the start cell and the values of the other cells
    /// are drawn from the generator that `seed` gives. Whatever is drawn,
    /// the board has `H` rows and `W` columns of values below
    /// `POINT_BOUND`, the agent stands on an empty cell, and the game has
    /// `END_TURN` moves to go.
    pub fn from_seed(seed: u64) -> (state: MazeState)
        ensures
            state@.wf(),
            state@.height() == H,
            state@.width() == W,
            state@.turn == 0,
            state@.end_turn == END_TURN,
            state@.game_score == 0,
            state@.evaluated_score == 0,
            state@.first_action is None,
            state@.points[state@.y][state@.x] == 0,
            forall|j: int, i: int|
                0 <= j < H && 0 <= i < W ==> 0 <= #[trigger] state@.points[j][i] < POINT_BOUND,
    {
        let mut rng = seeded(seed);
        let y = index_below(&mut rng, H);
        let x = index_below(&mut rng, W);
        let mut draws: Vec<i64> = Vec::new();
        while draws.len() < H * W - 1
            invariant
                draws.len() <= H * W - 1,
                forall|k: int| 0 <= k < draws.len() ==> 0 <= #[trigger] draws[k] < POINT_BOUND,
            decreases H * W - 1 - draws.len(),
        {
            let drawn = value_below(&mut rng, POINT_BOUND);
            draws.push(drawn);
        }
        let made = MazeState::from_draws(y, x, &draws);
        let state = made.unwrap();
        proof {
            assert forall|j: int, i: int| 0 <= j < H && 0 <= i < W implies 0
                <= #[trigger] state@.points[j][i] < POINT_BOUND by {}
        }
        state
    }

    /// A legal move, picked by a generator that starts from the seed `0`
    /// on every call. Whatever it picks is legal.
    pub fn random_action(&self) -> (choice: Result<usize, SearchError>)
        requires
            self@.wf(),
        ensures
            match choice {
                Ok(action) => self@.legal(action as int),
                Err(SearchError::NoLegalActions) => self@.legal_actions().len() == 0,
                Err(_) => false,
            },
    {
        let legal_actions = self.legal_actions();
        if legal_actions.len() == 0 {
            return Err(SearchError::NoLegalActions);
        }
        proof {
            crate::model::lemma_legal_actions(self@);
        }
        let mut rng = seeded(0);
        Ok(legal_actions[index_below(&mut rng, legal_actions.len())])
    }
}

} // verus!
