//! The interface that every board offers, whatever keeps its bits.

use vstd::prelude::*;
use vstd::string::StringExecFns;

use crate::grid::Grid;
use crate::render::{
    append_header, append_mark, append_row_label, header, row_label, row_lines, row_marks,
};
use crate::DimensionMismatch;

verus! {

/// A two-dimensional board of booleans with hard edges: a position past an
/// edge does not exist, and nothing wraps around.
///
/// An implementor supplies the shape, access to single bits by their place in
/// row-major order, and the operations that work on all bits at once. All
/// addressing by row and column is built on these, once, in the provided
/// methods. The view of a board is its [`Grid`], and every contract is stated
/// over it. No method changes the shape of a board.
pub trait BitBoard: View<V = Grid> + Sized {
    /// Returns the number of rows in the board. A board has one cell per
    /// position, and a `usize` can count its cells.
    fn n_rows(&self) -> (n: usize)
        ensures
            n == self@.rows,
            self@.wf(),
            self@.cells.len() <= usize::MAX,
    ;

    /// Returns the number of columns in the board. A board has one cell per
    /// position, and a `usize` can count its cells.
    fn n_cols(&self) -> (n: usize)
        ensures
            n == self@.cols,
            self@.wf(),
            self@.cells.len() <= usize::MAX,
    ;

    /// Reads the cell stored at place `index` of the row-major order, or
    /// nothing if the board has no such place.
    fn read_bit(&self, index: usize) -> (bit: Option<bool>)
        ensures
            bit == (if index < self@.cells.len() {
                Some(self@.cells[index as int])
            } else {
                None
            }),
    ;

    /// Writes the cell stored at place `index` of the row-major order and
    /// leaves every other cell as it is.
    fn write_bit(&mut self, index: usize, value: bool)
        requires
            index < old(self)@.cells.len(),
        ensures
            final(self)@.same_shape(old(self)@),
            final(self)@ == old(self)@.write(index as int, value),
    ;

    /// Sets every cell to `value`.
    fn fill(&mut self, value: bool)
        ensures
            final(self)@.same_shape(old(self)@),
            final(self)@ == old(self)@.fill(value),
    ;

    /// The cell-wise disjunction of two boards as a new board, or
    /// [`DimensionMismatch`] if their shapes differ. Both operands are only
    /// read.
    fn or(&self, other: &Self) -> (result: Result<Self, DimensionMismatch>)
        ensures
            result is Ok <==> self@.same_shape(other@),
            result matches Ok(board) ==> board@ == self@.or(other@),
    ;

    /// The cell-wise conjunction of two boards as a new board, or
    /// [`DimensionMismatch`] if their shapes differ. Both operands are only
    /// read.
    fn and(&self, other: &Self) -> (result: Result<Self, DimensionMismatch>)
        ensures
            result is Ok <==> self@.same_shape(other@),
            result matches Ok(board) ==> board@ == self@.and(other@),
    ;

    /// The linear index of a position, by which its cell can be accessed
    /// directly: `row * n_cols + col`. The position must be on the board.
    /// [`row_col_of`](Self::row_col_of) leads back from the index to the
    /// position.
    fn index_of(&self, row: usize, col: usize) -> (index: usize)
        requires
            self@.contains(row as int, col as int),
        ensures
            index == self@.index_of(row as int, col as int),
            index < self@.cells.len(),
            self@.row_of(index as int) == row,
            self@.col_of(index as int) == col,
    {
        proof {
            self@.lemma_position_round_trip(row as int, col as int);
        }
        row * self.n_cols() + col
    }

    /// The row and column of a linear index: `index / n_cols` and
    /// `index % n_cols`. The board must have a column. For the index of a cell this is the cell's position,
    /// and [`index_of`](Self::index_of) leads back to the index.
    fn row_col_of(&self, index: usize) -> (position: (usize, usize))
        requires
            self@.cols > 0,
        ensures
            position.0 == self@.row_of(index as int),
            position.1 == self@.col_of(index as int),
            index < self@.rows * self@.cols ==> self@.contains(
                position.0 as int,
                position.1 as int,
            ) && self@.index_of(position.0 as int, position.1 as int) == index,
    {
        proof {
            if index < self@.rows * self@.cols {
                self@.lemma_index_round_trip(index as int);
            }
        }
        let row = index / self.n_cols();
        let col = index % self.n_cols();
        (row, col)
    }

    /// Sets the cell at `(row, col)` to `value`. The position must be on the
    /// board.
    fn set(&mut self, row: usize, col: usize, value: bool)
        requires
            old(self)@.contains(row as int, col as int),
        ensures
            final(self)@.same_shape(old(self)@),
            final(self)@ == old(self)@.set(row as int, col as int, value),
    {
        let index = self.index_of(row, col);
        self.write_bit(index, value);
    }

    /// The cell at `(row, col)`. A position that is not on the board reads as
    /// `false`.
    fn get(&self, row: usize, col: usize) -> (value: bool)
        ensures
            value == self@.get(row as int, col as int),
    {
        if row < self.n_rows() && col < self.n_cols() {
            let index = self.index_of(row, col);
            self.read_bit(index).unwrap_or(false)
        } else {
            false
        }
    }

    /// Sets every cell of a column to `value`. The column must be on the
    /// board.
    fn set_col(&mut self, col: usize, value: bool)
        requires
            col < old(self)@.cols,
        ensures
            final(self)@.same_shape(old(self)@),
            final(self)@ == old(self)@.set_col(col as int, value),
    {
        let ghost before = self@;
        let n_rows = self.n_rows();
        let n_cols = self.n_cols();
        for row in 0..n_rows
            invariant
                before.wf(),
                self@.same_shape(before),
                self@.cells.len() == before.cells.len(),
                before.cells.len() <= usize::MAX,
                n_rows == before.rows,
                n_cols == before.cols,
                col < n_cols,
                forall|i: int|
                    0 <= i < before.cells.len() ==> #[trigger] self@.cells[i] == (if before.col_of(
                        i,
                    ) == col && before.row_of(i) < row {
                        value
                    } else {
                        before.cells[i]
                    }),
        {
            proof {
                before.lemma_position_round_trip(row as int, col as int);
            }
            let index = row * n_cols + col;
            self.write_bit(index, value);
            proof {
                assert forall|i: int| 0 <= i < before.cells.len() implies #[trigger] self@.cells[i]
                    == (if before.col_of(i) == col && before.row_of(i) < row + 1 {
                    value
                } else {
                    before.cells[i]
                }) by {
                    before.lemma_index_round_trip(i);
                }
            }
        }
        proof {
            assert forall|i: int| 0 <= i < before.cells.len() implies self@.cells[i]
                == before.set_col(col as int, value).cells[i] by {
                before.lemma_index_round_trip(i);
            }
            assert(self@.cells =~= before.set_col(col as int, value).cells);
        }
    }

    /// The values in a column, top to bottom, as they are now. A
    /// column that is not on the board reads as all false.
    fn get_col(&self, col: usize) -> (values: Vec<bool>)
        ensures
            values@ == self@.col(col as int),
    {
        let n_rows = self.n_rows();
        let mut values: Vec<bool> = Vec::new();
        for row in 0..n_rows
            invariant
                n_rows == self@.rows,
                values@.len() == row,
                forall|r: int| 0 <= r < row ==> values@[r] == self@.get(r, col as int),
        {
            values.push(self.get(row, col));
        }
        assert(values@ =~= self@.col(col as int));
        values
    }

    /// Sets every cell of a row to `value`. The row must be on the board.
    fn set_row(&mut self, row: usize, value: bool)
        requires
            row < old(self)@.rows,
        ensures
            final(self)@.same_shape(old(self)@),
            final(self)@ == old(self)@.set_row(row as int, value),
    {
        let ghost before = self@;
        let n_cols = self.n_cols();
        for col in 0..n_cols
            invariant
                before.wf(),
                self@.same_shape(before),
                self@.cells.len() == before.cells.len(),
                before.cells.len() <= usize::MAX,
                n_cols == before.cols,
                row < before.rows,
                forall|i: int|
                    0 <= i < before.cells.len() ==> #[trigger] self@.cells[i] == (if before.row_of(
                        i,
                    ) == row && before.col_of(i) < col {
                        value
                    } else {
                        before.cells[i]
                    }),
        {
            proof {
                before.lemma_position_round_trip(row as int, col as int);
            }
            let index = row * n_cols + col;
            self.write_bit(index, value);
            proof {
                assert forall|i: int| 0 <= i < before.cells.len() implies #[trigger] self@.cells[i]
                    == (if before.row_of(i) == row && before.col_of(i) < col + 1 {
                    value
                } else {
                    before.cells[i]
                }) by {
                    before.lemma_index_round_trip(i);
                }
            }
        }
        proof {
            assert forall|i: int| 0 <= i < before.cells.len() implies self@.cells[i]
                == before.set_row(row as int, value).cells[i] by {
                before.lemma_index_round_trip(i);
            }
            assert(self@.cells =~= before.set_row(row as int, value).cells);
        }
    }

    /// The values in a row, left to right, as they are now. A row
    /// that is not on the board reads as all false.
    fn get_row(&self, row: usize) -> (values: Vec<bool>)
        ensures
            values@ == self@.row(row as int),
    {
        let n_cols = self.n_cols();
        let mut values: Vec<bool> = Vec::new();
        for col in 0..n_cols
            invariant
                n_cols == self@.cols,
                values@.len() == col,
                forall|c: int| 0 <= c < col ==> values@[c] == self@.get(row as int, c),
        {
            values.push(self.get(row, col));
        }
        assert(values@ =~= self@.row(row as int));
        values
    }

    /// Sets the neighbors immediately above, below, left, and right to
    /// `value`. A neighbor past an edge of the board does not exist and is
    /// passed over. The position itself must be on the board and keeps its
    /// value.
    fn set_cardinal_neighbors(&mut self, row: usize, col: usize, value: bool)
        requires
            old(self)@.contains(row as int, col as int),
        ensures
            final(self)@.same_shape(old(self)@),
            final(self)@ == old(self)@.set_cardinal_neighbors(row as int, col as int, value),
    {
        let ghost before = self@;
        let n_rows = self.n_rows();
        let n_cols = self.n_cols();

        // Above
        if row > 0 {
            self.set(row - 1, col, value);
        }
        let ghost above = self@;

        // Below
        if row < n_rows - 1 {
            self.set(row + 1, col, value);
        }
        let ghost below = self@;

        // Left
        if col > 0 {
            self.set(row, col - 1, value);
        }
        let ghost left = self@;

        // Right
        if col < n_cols - 1 {
            self.set(row, col + 1, value);
        }

        proof {
            let goal = before.set_cardinal_neighbors(row as int, col as int, value);
            if row > 0 {
                before.lemma_set_wf(row - 1, col as int, value);
            }
            if row < before.rows - 1 {
                above.lemma_set_wf(row + 1, col as int, value);
            }
            if col > 0 {
                below.lemma_set_wf(row as int, col - 1, value);
            }
            if col < before.cols - 1 {
                left.lemma_set_wf(row as int, col + 1, value);
            }
            assert forall|i: int| 0 <= i < before.cells.len() implies self@.cells[i]
                == goal.cells[i] by {
                before.lemma_index_round_trip(i);
                if row > 0 {
                    before.lemma_set_cell(row - 1, col as int, value, i);
                }
                if row < before.rows - 1 {
                    above.lemma_set_cell(row + 1, col as int, value, i);
                }
                if col > 0 {
                    below.lemma_set_cell(row as int, col - 1, value, i);
                }
                if col < before.cols - 1 {
                    left.lemma_set_cell(row as int, col + 1, value, i);
                }
            }
            assert(self@.cells =~= goal.cells);
        }
    }

    /// Sets just the spots diagonal from the given position to `value`. A
    /// neighbor past an edge of the board does not exist and is passed over.
    /// The position itself must be on the board and keeps its value.
    fn set_diagonals(&mut self, row: usize, col: usize, value: bool)
        requires
            old(self)@.contains(row as int, col as int),
        ensures
            final(self)@.same_shape(old(self)@),
            final(self)@ == old(self)@.set_diagonals(row as int, col as int, value),
    {
        let ghost before = self@;
        let n_rows = self.n_rows();
        let n_cols = self.n_cols();

        // Above left
        if row > 0 && col > 0 {
            self.set(row - 1, col - 1, value);
        }
        let ghost above_left = self@;

        // Above right
        if row > 0 && col < n_cols - 1 {
            self.set(row - 1, col + 1, value);
        }
        let ghost above_right = self@;

        // Below left
        if row < n_rows - 1 && col > 0 {
            self.set(row + 1, col - 1, value);
        }
        let ghost below_left = self@;

        // Below right
        if row < n_rows - 1 && col < n_cols - 1 {
            self.set(row + 1, col + 1, value);
        }

        proof {
            let goal = before.set_diagonals(row as int, col as int, value);
            if row > 0 && col > 0 {
                before.lemma_set_wf(row - 1, col - 1, value);
            }
            if row > 0 && col < before.cols - 1 {
                above_left.lemma_set_wf(row - 1, col + 1, value);
            }
            if row < before.rows - 1 && col > 0 {
                above_right.lemma_set_wf(row + 1, col - 1, value);
            }
            if row < before.rows - 1 && col < before.cols - 1 {
                below_left.lemma_set_wf(row + 1, col + 1, value);
            }
            assert forall|i: int| 0 <= i < before.cells.len() implies self@.cells[i]
                == goal.cells[i] by {
                before.lemma_index_round_trip(i);
                if row > 0 && col > 0 {
                    before.lemma_set_cell(row - 1, col - 1, value, i);
                }
                if row > 0 && col < before.cols - 1 {
                    above_left.lemma_set_cell(row - 1, col + 1, value, i);
                }
                if row < before.rows - 1 && col > 0 {
                    above_right.lemma_set_cell(row + 1, col - 1, value, i);
                }
                if row < before.rows - 1 && col < before.cols - 1 {
                    below_left.lemma_set_cell(row + 1, col + 1, value, i);
                }
            }
            assert(self@.cells =~= goal.cells);
        }
    }

    /// Sets the cardinal neighbors and the diagonal neighbors to `value`. A
    /// neighbor past an edge of the board does not exist and is passed over.
    /// The position itself must be on the board and keeps its value.
    fn set_all_neighbors(&mut self, row: usize, col: usize, value: bool)
        requires
            old(self)@.contains(row as int, col as int),
        ensures
            final(self)@.same_shape(old(self)@),
            final(self)@ == old(self)@.set_all_neighbors(row as int, col as int, value),
    {
        let ghost before = self@;
        self.set_cardinal_neighbors(row, col, value);
        self.set_diagonals(row, col, value);
        proof {
            let goal = before.set_all_neighbors(row as int, col as int, value);
            assert(self@.cells =~= goal.cells);
        }
    }

    /// The board as text. The first line holds three spaces and the last
    /// digit of each column's number. Each further line holds a row: its
    /// number, right-aligned in two places, a space, and `X` for each set
    /// cell and `.` for each empty one.
    fn render(&self) -> (text: String)
        ensures
            text@ == self@.render(),
    {
        let n_rows = self.n_rows();
        let n_cols = self.n_cols();
        let mut text = String::new();
        append_header(&mut text, n_cols);
        for row in 0..n_rows
            invariant
                n_rows == self@.rows,
                n_cols == self@.cols,
                text@ == header(self@.cols) + row_lines(self@, row as nat),
        {
            let ghost lines = text@;
            append_row_label(&mut text, row);
            for col in 0..n_cols
                invariant
                    row < n_rows,
                    n_rows == self@.rows,
                    n_cols == self@.cols,
                    text@ == lines + row_label(row as nat) + row_marks(
                        self@,
                        row as int,
                        col as nat,
                    ),
            {
                append_mark(&mut text, self.get(row, col));
                assert(text@ =~= lines + row_label(row as nat) + row_marks(
                    self@,
                    row as int,
                    (col + 1) as nat,
                ));
            }
            proof {
                reveal_strlit("\n");
            }
            text.append("\n");
            assert(text@ =~= header(self@.cols) + row_lines(self@, (row + 1) as nat));
        }
        text
    }
}

} // verus!
