//! A state as text.

use vstd::prelude::*;
use vstd::string::StringExecFns;
use crate::model::Maze;
use crate::state::{board_of, MazeState};

verus! {

/// The character of the digit `d`.
pub open spec fn digit(d: int) -> char {
    if d == 0 {
        '0'
    } else if d == 1 {
        '1'
    } else if d == 2 {
        '2'
    } else if d == 3 {
        '3'
    } else if d == 4 {
        '4'
    } else if d == 5 {
        '5'
    } else if d == 6 {
        '6'
    } else if d == 7 {
        '7'
    } else if d == 8 {
        '8'
    } else {
        '9'
    }
}

/// The number `n` in decimal digits, without leading zeros.
pub open spec fn decimal(n: nat) -> Seq<char>
    decreases n,
{
    if n < 10 {
        seq![digit(n as int)]
    } else {
        decimal(n / 10).push(digit((n % 10) as int))
    }
}

/// What stands for the cell `(j, i)`: `@` for the agent, the value of a
/// cell that holds one, `.` for an empty cell.
pub open spec fn cell_text(m: Maze, j: int, i: int) -> Seq<char> {
    if j == m.y && i == m.x {
        seq!['@']
    } else if m.points[j][i] > 0 {
        decimal(m.points[j][i] as nat)
    } else {
        seq!['.']
    }
}

/// The first `cells` cells of row `j`, one behind the other.
pub open spec fn row_text(m: Maze, j: int, cells: int) -> Seq<char>
    decreases cells,
{
    if cells <= 0 {
        Seq::empty()
    } else {
        row_text(m, j, cells - 1) + cell_text(m, j, cells - 1)
    }
}

/// The first `rows` rows, each on a line of its own.
pub open spec fn rows_text(m: Maze, rows: int) -> Seq<char>
    decreases rows,
{
    if rows <= 0 {
        Seq::empty()
    } else {
        rows_text(m, rows - 1) + row_text(m, rows - 1, m.width()) + seq!['\n']
    }
}

/// The text of a state: a line with the turn, a line with the score, the
/// board line by line, and an empty line.
pub open spec fn rendered(m: Maze) -> Seq<char> {
    seq!['t', 'u', 'r', 'n', ':'] + decimal(m.turn) + seq!['\n'] + seq![
        's',
        'c',
        'o',
        'r',
        'e',
        ':',
    ] + decimal(m.game_score as nat) + seq!['\n'] + rows_text(m, m.height()) + seq!['\n']
}

/// The digit `d` as a string.
fn digit_str(d: u64) -> (text: &'static str)
    requires
        d < 10,
    ensures
        text@ == seq![digit(d as int)],
{
    proof {
        reveal_strlit("0");
        reveal_strlit("1");
        reveal_strlit("2");
        reveal_strlit("3");
        reveal_strlit("4");
        reveal_strlit("5");
        reveal_strlit("6");
        reveal_strlit("7");
        reveal_strlit("8");
        reveal_strlit("9");
    }
    let text = if d == 0 {
        "0"
    } else if d == 1 {
        "1"
    } else if d == 2 {
        "2"
    } else if d == 3 {
        "3"
    } else if d == 4 {
        "4"
    } else if d == 5 {
        "5"
    } else if d == 6 {
        "6"
    } else if d == 7 {
        "7"
    } else if d == 8 {
        "8"
    } else {
        "9"
    };
    text
}

/// Writes `n` in decimal digits behind `text`.
fn push_decimal(text: &mut String, n: u64)
    ensures
        final(text)@ == old(text)@ + decimal(n as nat),
    decreases n,
{
    if n >= 10 {
        push_decimal(text, n / 10);
    }
    text.append(digit_str(n % 10));
}

impl MazeState {
    /// The state as text: `turn:` and the turn, `score:` and the score,
    /// then the board with `@` for the agent, `.` for an empty cell and
    /// its value for any other, and an empty line.
    pub fn render(&self) -> (text: String)
        requires
            self@.wf(),
        ensures
            text@ == rendered(self@),
    {
        let ghost m = self@;
        let mut text = String::new();
        proof {
            reveal_strlit("turn:");
            reveal_strlit("score:");
            reveal_strlit("\n");
        }
        text.append("turn:");
        push_decimal(&mut text, self.turn() as u64);
        text.append("\n");
        text.append("score:");
        push_decimal(&mut text, self.game_score() as u64);
        text.append("\n");
        let ghost head = text@;
        assert(head =~= seq!['t', 'u', 'r', 'n', ':'] + decimal(m.turn) + seq!['\n'] + seq![
            's',
            'c',
            'o',
            'r',
            'e',
            ':',
        ] + decimal(m.game_score as nat) + seq!['\n']);
        let at = self.character();
        let points = self.points();
        let mut j: usize = 0;
        while j < points.len()
            invariant
                m == self@,
                m.wf(),
                board_of(points@) == m.points,
                at.y == m.y,
                at.x == m.x,
                j <= points.len(),
                text@ == head + rows_text(m, j as int),
            decreases points.len() - j,
        {
            let row = &points[j];
            let ghost before = text@;
            let mut i: usize = 0;
            proof {
                assert(board_of(points@)[j as int].len() == row@.len());
            }
            while i < row.len()
                invariant
                    m.wf(),
                    board_of(points@) == m.points,
                    at.y == m.y,
                    at.x == m.x,
                    j < points.len(),
                    row == &points[j as int],
                    row@.len() == m.width(),
                    i <= row.len(),
                    text@ == before + row_text(m, j as int, i as int),
                decreases row.len() - i,
            {
                if j as u64 == at.y as u64 && i as u64 == at.x as u64 {
                    text.append("@");
                } else if row[i] > 0 {
                    push_decimal(&mut text, row[i] as u64);
                } else {
                    text.append(".");
                }
                proof {
                    reveal_strlit("@");
                    reveal_strlit(".");
                    assert(row_text(m, j as int, i + 1) == row_text(m, j as int, i as int)
                        + cell_text(m, j as int, i as int));
                }
                i += 1;
            }
            text.append("\n");
            proof {
                reveal_strlit("\n");
                assert(rows_text(m, j + 1) == rows_text(m, j as int) + row_text(
                    m,
                    j as int,
                    m.width(),
                ) + seq!['\n']);
            }
            j += 1;
        }
        text.append("\n");
        text
    }
}

} // verus!
