//! The text form of a board: a line of column numbers, then one line per
//! row that starts with the row's number.

use vstd::prelude::*;
use vstd::string::StringExecFns;

use crate::grid::Grid;

verus! {

/// The character of a decimal digit.
pub open spec fn digit(d: int) -> char
    recommends
        0 <= d < 10,
{
    seq!['0', '1', '2', '3', '4', '5', '6', '7', '8', '9'][d]
}

/// The decimal numeral of `n`, without leading zeros.
pub open spec fn decimal(n: nat) -> Seq<char>
    decreases n,
{
    if n < 10 {
        seq![digit(n as int)]
    } else {
        decimal(n / 10).push(digit((n % 10) as int))
    }
}

/// The character that stands for a cell: `X` for a set one, `.` for an empty
/// one.
pub open spec fn mark(value: bool) -> char {
    if value {
        'X'
    } else {
        '.'
    }
}

/// What a row's line starts with: the row's number, moved right by a space
/// where it has a single digit, and a space after it.
pub open spec fn row_label(row: nat) -> Seq<char> {
    if row < 10 {
        seq![' '] + decimal(row) + seq![' ']
    } else {
        decimal(row) + seq![' ']
    }
}

/// The marks of the first `n` cells of a row.
pub open spec fn row_marks(grid: Grid, row: int, n: nat) -> Seq<char> {
    Seq::new(n, |c: int| mark(grid.at(row, c)))
}

/// The line of a row: its label, the marks of its cells, a line feed.
pub open spec fn row_line(grid: Grid, row: int) -> Seq<char> {
    row_label(row as nat) + row_marks(grid, row, grid.cols) + seq!['\n']
}

/// The last digits of the first `n` column numbers.
pub open spec fn column_digits(n: nat) -> Seq<char> {
    Seq::new(n, |c: int| digit(c % 10))
}

/// The first line: three spaces where the rows have their labels, then the
/// last digit of each column's number, a line feed.
pub open spec fn header(cols: nat) -> Seq<char> {
    seq![' ', ' ', ' '] + column_digits(cols) + seq!['\n']
}

/// The lines of the first `n` rows, one after the other.
pub open spec fn row_lines(grid: Grid, n: nat) -> Seq<char>
    decreases n,
{
    if n == 0 {
        Seq::empty()
    } else {
        row_lines(grid, (n - 1) as nat) + row_line(grid, n - 1)
    }
}

impl Grid {
    /// The whole text of the grid: the first line, then the line of each
    /// row.
    pub open spec fn render(self) -> Seq<char> {
        header(self.cols) + row_lines(self, self.rows)
    }
}

/// The text of one decimal digit.
fn digit_str(d: usize) -> (text: &'static str)
    requires
        d < 10,
    ensures
        text@ == seq![digit(d as int)],
{
    proof {
        reveal_strlit("0");
        reveal_strlit("1");
        reveal_strlit("2");
        reveal_strlit("3");
        reveal_strlit("4");
        reveal_strlit("5");
        reveal_strlit("6");
        reveal_strlit("7");
        reveal_strlit("8");
        reveal_strlit("9");
    }
    let text = match d {
        0 => "0",
        1 => "1",
        2 => "2",
        3 => "3",
        4 => "4",
        5 => "5",
        6 => "6",
        7 => "7",
        8 => "8",
        _ => "9",
    };
    assert(text@ =~= seq![digit(d as int)]);
    text
}

/// Appends the decimal numeral of `n`.
pub(crate) fn append_decimal(text: &mut String, n: usize)
    ensures
        final(text)@ == old(text)@ + decimal(n as nat),
    decreases n,
{
    if n >= 10 {
        append_decimal(text, n / 10);
    }
    text.append(digit_str(n % 10));
    assert(text@ =~= old(text)@ + decimal(n as nat));
}

/// Appends the mark of a cell.
pub(crate) fn append_mark(text: &mut String, value: bool)
    ensures
        final(text)@ == old(text)@.push(mark(value)),
{
    proof {
        reveal_strlit("X");
        reveal_strlit(".");
    }
    text.append(if value { "X" } else { "." });
    assert(text@ =~= old(text)@.push(mark(value)));
}

/// Appends what a row's line starts with.
pub(crate) fn append_row_label(text: &mut String, row: usize)
    ensures
        final(text)@ == old(text)@ + row_label(row as nat),
{
    proof {
        reveal_strlit(" ");
    }
    if row < 10 {
        text.append(" ");
    }
    append_decimal(text, row);
    text.append(" ");
    assert(text@ =~= old(text)@ + row_label(row as nat));
}

/// Appends the first line for a board of `n_cols` columns.
pub(crate) fn append_header(text: &mut String, n_cols: usize)
    ensures
        final(text)@ == old(text)@ + header(n_cols as nat),
{
    proof {
        reveal_strlit("   ");
        reveal_strlit("\n");
    }
    text.append("   ");
    for col in 0..n_cols
        invariant
            text@ == old(text)@ + seq![' ', ' ', ' '] + column_digits(col as nat),
    {
        text.append(digit_str(col % 10));
        assert(text@ =~= old(text)@ + seq![' ', ' ', ' '] + column_digits((col + 1) as nat));
    }
    text.append("\n");
    assert(text@ =~= old(text)@ + header(n_cols as nat));
}

} // verus!
