//! Facts about the sum of a board's values.

use vstd::prelude::*;
use crate::model::{board_total, row_total};

verus! {

/// All values of `row` are non-negative.
pub open spec fn row_nonneg(row: Seq<int>) -> bool {
    forall|i: int| 0 <= i < row.len() ==> #[trigger] row[i] >= 0
}

/// All values of the board are non-negative.
pub open spec fn board_nonneg(points: Seq<Seq<int>>) -> bool {
    forall|j: int| 0 <= j < points.len() ==> row_nonneg(#[trigger] points[j])
}

/// A row with one more value at its end has that value more in its sum.
pub proof fn lemma_row_total_push(row: Seq<int>, v: int)
    ensures
        row_total(row.push(v)) == row_total(row) + v,
{
    assert(row.push(v).drop_last() =~= row);
}

/// A board with one more row at its end has that row's sum more in its sum.
pub proof fn lemma_board_total_push(points: Seq<Seq<int>>, row: Seq<int>)
    ensures
        board_total(points.push(row)) == board_total(points) + row_total(row),
{
    assert(points.push(row).drop_last() =~= points);
}

/// Changing one value of a row changes the sum by the difference.
pub proof fn lemma_row_total_update(row: Seq<int>, i: int, v: int)
    requires
        0 <= i < row.len(),
    ensures
        row_total(row.update(i, v)) == row_total(row) - row[i] + v,
    decreases row.len(),
{
    let changed = row.update(i, v);
    if i == row.len() - 1 {
        assert(changed.drop_last() =~= row.drop_last());
    } else {
        lemma_row_total_update(row.drop_last(), i, v);
        assert(changed.drop_last() =~= row.drop_last().update(i, v));
    }
}

/// Replacing one row of a board changes the sum by the difference of the
/// two rows' sums.
pub proof fn lemma_board_total_update(points: Seq<Seq<int>>, j: int, row: Seq<int>)
    requires
        0 <= j < points.len(),
    ensures
        board_total(points.update(j, row)) == board_total(points) - row_total(points[j])
            + row_total(row),
    decreases points.len(),
{
    let changed = points.update(j, row);
    if j == points.len() - 1 {
        assert(changed.drop_last() =~= points.drop_last());
    } else {
        lemma_board_total_update(points.drop_last(), j, row);
        assert(changed.drop_last() =~= points.drop_last().update(j, row));
    }
}

/// In a row of non-negative values the sum of a prefix is at most the sum
/// of the row, and no sum is negative.
pub proof fn lemma_row_total_prefix(row: Seq<int>, n: int)
    requires
        row_nonneg(row),
        0 <= n <= row.len(),
    ensures
        0 <= row_total(row.take(n)) <= row_total(row),
    decreases row.len() - n,
{
    if n == row.len() {
        assert(row.take(n) =~= row);
        lemma_row_total_nonneg(row);
    } else {
        lemma_row_total_prefix(row, n + 1);
        assert(row.take(n + 1).drop_last() =~= row.take(n));
        lemma_row_total_nonneg(row.take(n));
    }
}

/// The sum of non-negative values is not negative.
pub proof fn lemma_row_total_nonneg(row: Seq<int>)
    requires
        row_nonneg(row),
    ensures
        0 <= row_total(row),
    decreases row.len(),
{
    if row.len() > 0 {
        lemma_row_total_nonneg(row.drop_last());
    }
}

/// The sum of a board of non-negative values is not negative.
pub proof fn lemma_board_total_nonneg(points: Seq<Seq<int>>)
    requires
        board_nonneg(points),
    ensures
        0 <= board_total(points),
    decreases points.len(),
{
    if points.len() > 0 {
        lemma_board_total_nonneg(points.drop_last());
        lemma_row_total_nonneg(points.last());
    }
}

/// In a board of non-negative values the sum of the first rows is at most
/// the sum of the board.
pub proof fn lemma_board_total_prefix(points: Seq<Seq<int>>, n: int)
    requires
        board_nonneg(points),
        0 <= n <= points.len(),
    ensures
        0 <= board_total(points.take(n)) <= board_total(points),
    decreases points.len() - n,
{
    if n == points.len() {
        assert(points.take(n) =~= points);
        lemma_board_total_nonneg(points);
    } else {
        lemma_board_total_prefix(points, n + 1);
        assert(points.take(n + 1).drop_last() =~= points.take(n));
        lemma_row_total_nonneg(points[n]);
        lemma_board_total_nonneg(points.take(n));
    }
}

/// In a board of non-negative values no cell holds more than the sum of
/// the board.
pub proof fn lemma_cell_at_most_total(points: Seq<Seq<int>>, j: int, i: int)
    requires
        board_nonneg(points),
        0 <= j < points.len(),
        0 <= i < points[j].len(),
    ensures
        0 <= points[j][i] <= row_total(points[j]) <= board_total(points),
{
    let row = points[j];
    lemma_row_total_prefix(row, i + 1);
    assert(row.take(i + 1).drop_last() =~= row.take(i));
    lemma_row_total_prefix(row, i);
    lemma_board_total_prefix(points, j + 1);
    assert(points.take(j + 1).drop_last() =~= points.take(j));
    lemma_board_total_prefix(points, j);
}

} // verus!
