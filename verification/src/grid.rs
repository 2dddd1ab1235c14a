//! The mathematical model of a board: its shape and its cells in row-major
//! order, the operations on it, and the laws they obey.

use vstd::prelude::*;
use vstd::arithmetic::div_mod::{lemma_fundamental_div_mod, lemma_fundamental_div_mod_converse};

verus! {

/// A rectangle of booleans. Cell `(row, col)` is element `row * cols + col`
/// of `cells`.
#[verifier::ext_equal]
pub struct Grid {
    pub rows: nat,
    pub cols: nat,
    pub cells: Seq<bool>,
}

/// `(r, c)` lies directly above, below, left or right of `(row, col)`.
pub open spec fn is_cardinal_neighbor(row: int, col: int, r: int, c: int) -> bool {
    ||| (c == col && (r == row - 1 || r == row + 1))
    ||| (r == row && (c == col - 1 || c == col + 1))
}

/// `(r, c)` touches `(row, col)` at a corner.
pub open spec fn is_diagonal_neighbor(row: int, col: int, r: int, c: int) -> bool {
    (r == row - 1 || r == row + 1) && (c == col - 1 || c == col + 1)
}

/// `(r, c)` is one of the up to eight cells around `(row, col)`.
pub open spec fn is_neighbor(row: int, col: int, r: int, c: int) -> bool {
    is_cardinal_neighbor(row, col, r, c) || is_diagonal_neighbor(row, col, r, c)
}

impl Grid {
    /// There is exactly one cell per position.
    pub open spec fn wf(self) -> bool {
        self.cells.len() == self.rows * self.cols
    }

    /// `(row, col)` is a position of this grid.
    pub open spec fn contains(self, row: int, col: int) -> bool {
        0 <= row < self.rows && 0 <= col < self.cols
    }

    /// The place of `(row, col)` in `cells`.
    pub open spec fn index_of(self, row: int, col: int) -> int {
        row * self.cols + col
    }

    /// The row of the cell stored at `index`.
    pub open spec fn row_of(self, index: int) -> int {
        index / (self.cols as int)
    }

    /// The column of the cell stored at `index`.
    pub open spec fn col_of(self, index: int) -> int {
        index % (self.cols as int)
    }

    /// The cell at `(row, col)`, which must be a position of the grid.
    pub open spec fn at(self, row: int, col: int) -> bool
        recommends
            self.contains(row, col),
    {
        self.cells[self.index_of(row, col)]
    }

    /// The cell at `(row, col)`, reading `false` anywhere off the grid.
    pub open spec fn get(self, row: int, col: int) -> bool {
        self.contains(row, col) && self.at(row, col)
    }

    /// The values along one row, left to right.
    pub open spec fn row(self, row: int) -> Seq<bool> {
        Seq::new(self.cols, |c: int| self.get(row, c))
    }

    /// The values along one column, top to bottom.
    pub open spec fn col(self, col: int) -> Seq<bool> {
        Seq::new(self.rows, |r: int| self.get(r, col))
    }

    /// The two grids have the same number of rows and of columns.
    pub open spec fn same_shape(self, other: Grid) -> bool {
        self.rows == other.rows && self.cols == other.cols
    }

    /// The grid of the given shape with every cell equal to `value`.
    pub open spec fn uniform(rows: nat, cols: nat, value: bool) -> Grid {
        Grid { rows, cols, cells: Seq::new(rows * cols, |i: int| value) }
    }

    /// The grid of the given shape with every cell `false`.
    pub open spec fn blank(rows: nat, cols: nat) -> Grid {
        Grid::uniform(rows, cols, false)
    }

    /// This grid with the cell stored at `index` replaced.
    pub open spec fn write(self, index: int, value: bool) -> Grid {
        Grid { rows: self.rows, cols: self.cols, cells: self.cells.update(index, value) }
    }

    /// This grid with the cell at `(row, col)` replaced.
    pub open spec fn set(self, row: int, col: int, value: bool) -> Grid {
        self.write(self.index_of(row, col), value)
    }

    /// This grid with every cell replaced by `value`.
    pub open spec fn fill(self, value: bool) -> Grid {
        Grid {
            rows: self.rows,
            cols: self.cols,
            cells: Seq::new(self.cells.len(), |i: int| value),
        }
    }

    /// This grid with every cell of row `row` replaced by `value`.
    pub open spec fn set_row(self, row: int, value: bool) -> Grid {
        Grid {
            rows: self.rows,
            cols: self.cols,
            cells: Seq::new(
                self.cells.len(),
                |i: int| if self.row_of(i) == row { value } else { self.cells[i] },
            ),
        }
    }

    /// This grid with every cell of column `col` replaced by `value`.
    pub open spec fn set_col(self, col: int, value: bool) -> Grid {
        Grid {
            rows: self.rows,
            cols: self.cols,
            cells: Seq::new(
                self.cells.len(),
                |i: int| if self.col_of(i) == col { value } else { self.cells[i] },
            ),
        }
    }

    /// This grid with the cells directly above, below, left and right of
    /// `(row, col)` replaced by `value`, as far as they exist.
    pub open spec fn set_cardinal_neighbors(self, row: int, col: int, value: bool) -> Grid {
        Grid {
            rows: self.rows,
            cols: self.cols,
            cells: Seq::new(
                self.cells.len(),
                |i: int|
                    if is_cardinal_neighbor(row, col, self.row_of(i), self.col_of(i)) {
                        value
                    } else {
                        self.cells[i]
                    },
            ),
        }
    }

    /// This grid with the cells at the four corners of `(row, col)` replaced
    /// by `value`, as far as they exist.
    pub open spec fn set_diagonals(self, row: int, col: int, value: bool) -> Grid {
        Grid {
            rows: self.rows,
            cols: self.cols,
            cells: Seq::new(
                self.cells.len(),
                |i: int|
                    if is_diagonal_neighbor(row, col, self.row_of(i), self.col_of(i)) {
                        value
                    } else {
                        self.cells[i]
                    },
            ),
        }
    }

    /// This grid with all cells around `(row, col)` replaced by `value`, as
    /// far as they exist.
    pub open spec fn set_all_neighbors(self, row: int, col: int, value: bool) -> Grid {
        Grid {
            rows: self.rows,
            cols: self.cols,
            cells: Seq::new(
                self.cells.len(),
                |i: int|
                    if is_neighbor(row, col, self.row_of(i), self.col_of(i)) {
                        value
                    } else {
                        self.cells[i]
                    },
            ),
        }
    }

    /// The cell-wise disjunction of two grids of one shape.
    pub open spec fn or(self, other: Grid) -> Grid
        recommends
            self.same_shape(other),
    {
        Grid {
            rows: self.rows,
            cols: self.cols,
            cells: Seq::new(self.cells.len(), |i: int| self.cells[i] || other.cells[i]),
        }
    }

    /// The cell-wise conjunction of two grids of one shape.
    pub open spec fn and(self, other: Grid) -> Grid
        recommends
            self.same_shape(other),
    {
        Grid {
            rows: self.rows,
            cols: self.cols,
            cells: Seq::new(self.cells.len(), |i: int| self.cells[i] && other.cells[i]),
        }
    }

    /// Every position of the grid has a place in `cells`, and going from a
    /// position to its place and back gives the position again.
    pub proof fn lemma_position_round_trip(self, row: int, col: int)
        requires
            self.contains(row, col),
        ensures
            0 <= self.index_of(row, col) < self.rows * self.cols,
            self.row_of(self.index_of(row, col)) == row,
            self.col_of(self.index_of(row, col)) == col,
    {
        let cols = self.cols as int;
        let rows = self.rows as int;
        assert(0 <= row * cols && row * cols + cols <= rows * cols) by (nonlinear_arith)
            requires
                0 <= row < rows,
                0 < cols,
        ;
        lemma_fundamental_div_mod_converse(row * cols + col, cols, row, col);
    }

    /// Every place in `cells` belongs to a position of the grid, and going
    /// from a place to its position and back gives the place again.
    pub proof fn lemma_index_round_trip(self, index: int)
        requires
            0 <= index < self.rows * self.cols,
        ensures
            self.contains(self.row_of(index), self.col_of(index)),
            self.index_of(self.row_of(index), self.col_of(index)) == index,
    {
        let cols = self.cols as int;
        let rows = self.rows as int;
        assert(cols > 0) by (nonlinear_arith)
            requires
                0 <= index < rows * cols,
                0 <= cols,
        ;
        lemma_fundamental_div_mod(index, cols);
        let q = index / cols;
        let r = index % cols;
        assert(0 <= r < cols);
        assert(cols * q == q * cols) by (nonlinear_arith);
        assert(0 <= q < rows) by (nonlinear_arith)
            requires
                index == q * cols + r,
                0 <= r < cols,
                0 <= index < rows * cols,
        ;
    }

    /// Two positions of the grid that share a place in `cells` are the same
    /// position.
    pub proof fn lemma_index_unique(self, row: int, col: int, other_row: int, other_col: int)
        requires
            self.contains(row, col),
            self.contains(other_row, other_col),
            self.index_of(row, col) == self.index_of(other_row, other_col),
        ensures
            row == other_row,
            col == other_col,
    {
        self.lemma_position_round_trip(row, col);
        self.lemma_position_round_trip(other_row, other_col);
    }

    /// Replacing a cell keeps the grid well-formed.
    pub proof fn lemma_set_wf(self, row: int, col: int, value: bool)
        requires
            self.wf(),
            self.contains(row, col),
        ensures
            self.set(row, col, value).wf(),
    {
        self.lemma_position_round_trip(row, col);
    }

    /// Replacing a cell changes the cell stored at the position's place and
    /// no other.
    pub proof fn lemma_set_cell(self, row: int, col: int, value: bool, index: int)
        requires
            self.wf(),
            self.contains(row, col),
            0 <= index < self.cells.len(),
        ensures
            self.set(row, col, value).cells[index] == (if self.row_of(index) == row && self.col_of(
                index,
            ) == col {
                value
            } else {
                self.cells[index]
            }),
    {
        self.lemma_position_round_trip(row, col);
        self.lemma_index_round_trip(index);
    }

    /// After a cell is replaced, that position reads as the new value and
    /// every other position as before.
    pub proof fn lemma_get_set(self, row: int, col: int, value: bool, r: int, c: int)
        requires
            self.wf(),
            self.contains(row, col),
        ensures
            self.set(row, col, value).get(r, c) == (if r == row && c == col {
                value
            } else {
                self.get(r, c)
            }),
    {
        if self.contains(r, c) {
            self.lemma_position_round_trip(r, c);
            self.lemma_set_cell(row, col, value, self.index_of(r, c));
        }
    }

    /// After a fill, every position of the grid reads as the new value.
    pub proof fn lemma_get_fill(self, value: bool, r: int, c: int)
        requires
            self.wf(),
        ensures
            self.fill(value).get(r, c) == (self.contains(r, c) && value),
    {
        if self.contains(r, c) {
            self.lemma_position_round_trip(r, c);
        }
    }

    /// After a row is set, the positions of that row read as the new value
    /// and every other position as before.
    pub proof fn lemma_get_set_row(self, row: int, value: bool, r: int, c: int)
        requires
            self.wf(),
        ensures
            self.set_row(row, value).get(r, c) == (if r == row {
                self.contains(r, c) && value
            } else {
                self.get(r, c)
            }),
    {
        if self.contains(r, c) {
            self.lemma_position_round_trip(r, c);
        }
    }

    /// After a column is set, the positions of that column read as the new
    /// value and every other position as before.
    pub proof fn lemma_get_set_col(self, col: int, value: bool, r: int, c: int)
        requires
            self.wf(),
        ensures
            self.set_col(col, value).get(r, c) == (if c == col {
                self.contains(r, c) && value
            } else {
                self.get(r, c)
            }),
    {
        if self.contains(r, c) {
            self.lemma_position_round_trip(r, c);
        }
    }

    /// After the cardinal neighbors of a position are set, those of them
    /// that lie on the grid read as the new value and every other position
    /// as before.
    pub proof fn lemma_get_set_cardinal_neighbors(
        self,
        row: int,
        col: int,
        value: bool,
        r: int,
        c: int,
    )
        requires
            self.wf(),
        ensures
            self.set_cardinal_neighbors(row, col, value).get(r, c) == (if is_cardinal_neighbor(
                row,
                col,
                r,
                c,
            ) {
                self.contains(r, c) && value
            } else {
                self.get(r, c)
            }),
    {
        if self.contains(r, c) {
            self.lemma_position_round_trip(r, c);
        }
    }

    /// After the diagonal neighbors of a position are set, those of them
    /// that lie on the grid read as the new value and every other position
    /// as before.
    pub proof fn lemma_get_set_diagonals(self, row: int, col: int, value: bool, r: int, c: int)
        requires
            self.wf(),
        ensures
            self.set_diagonals(row, col, value).get(r, c) == (if is_diagonal_neighbor(
                row,
                col,
                r,
                c,
            ) {
                self.contains(r, c) && value
            } else {
                self.get(r, c)
            }),
    {
        if self.contains(r, c) {
            self.lemma_position_round_trip(r, c);
        }
    }

    /// After all neighbors of a position are set, those of them that lie on
    /// the grid read as the new value and every other position as before.
    pub proof fn lemma_get_set_all_neighbors(self, row: int, col: int, value: bool, r: int, c: int)
        requires
            self.wf(),
        ensures
            self.set_all_neighbors(row, col, value).get(r, c) == (if is_neighbor(row, col, r, c) {
                self.contains(r, c) && value
            } else {
                self.get(r, c)
            }),
    {
        if self.contains(r, c) {
            self.lemma_position_round_trip(r, c);
        }
    }

    /// A position of a disjunction reads as the disjunction of what it reads
    /// as in the operands.
    pub proof fn lemma_get_or(self, other: Grid, r: int, c: int)
        requires
            self.wf(),
            other.wf(),
            self.same_shape(other),
        ensures
            self.or(other).get(r, c) == (self.get(r, c) || other.get(r, c)),
    {
        if self.contains(r, c) {
            self.lemma_position_round_trip(r, c);
        }
    }

    /// A position of a conjunction reads as the conjunction of what it reads
    /// as in the operands.
    pub proof fn lemma_get_and(self, other: Grid, r: int, c: int)
        requires
            self.wf(),
            other.wf(),
            self.same_shape(other),
        ensures
            self.and(other).get(r, c) == (self.get(r, c) && other.get(r, c)),
    {
        if self.contains(r, c) {
            self.lemma_position_round_trip(r, c);
        }
    }

    /// Conjunction does not depend on the order of its operands.
    pub proof fn lemma_and_commutes(self, other: Grid)
        requires
            self.wf(),
            other.wf(),
            self.same_shape(other),
        ensures
            self.and(other) == other.and(self),
    {
        assert(self.and(other).cells =~= other.and(self).cells);
    }

    /// Disjunction does not depend on the order of its operands.
    pub proof fn lemma_or_commutes(self, other: Grid)
        requires
            self.wf(),
            other.wf(),
            self.same_shape(other),
        ensures
            self.or(other) == other.or(self),
    {
        assert(self.or(other).cells =~= other.or(self).cells);
    }

    /// The conjunction of the all-false grid with any grid of its shape is
    /// the all-false grid.
    pub proof fn lemma_and_blank(self)
        requires
            self.wf(),
        ensures
            Grid::blank(self.rows, self.cols).and(self) == Grid::blank(self.rows, self.cols),
            self.and(Grid::blank(self.rows, self.cols)) == Grid::blank(self.rows, self.cols),
    {
        let blank = Grid::blank(self.rows, self.cols);
        assert(blank.and(self).cells =~= blank.cells);
        assert(self.and(blank).cells =~= blank.cells);
    }

    /// The disjunction of the all-false grid with a grid of its shape is that
    /// grid.
    pub proof fn lemma_or_blank(self)
        requires
            self.wf(),
        ensures
            Grid::blank(self.rows, self.cols).or(self) == self,
            self.or(Grid::blank(self.rows, self.cols)) == self,
    {
        let blank = Grid::blank(self.rows, self.cols);
        assert(blank.or(self).cells =~= self.cells);
        assert(self.or(blank).cells =~= self.cells);
    }

    /// The conjunction of the all-true grid with a grid of its shape is that
    /// grid.
    pub proof fn lemma_and_full(self)
        requires
            self.wf(),
        ensures
            Grid::uniform(self.rows, self.cols, true).and(self) == self,
            self.and(Grid::uniform(self.rows, self.cols, true)) == self,
    {
        let full = Grid::uniform(self.rows, self.cols, true);
        assert(full.and(self).cells =~= self.cells);
        assert(self.and(full).cells =~= self.cells);
    }

    /// The disjunction of the all-true grid with any grid of its shape is the
    /// all-true grid.
    pub proof fn lemma_or_full(self)
        requires
            self.wf(),
        ensures
            Grid::uniform(self.rows, self.cols, true).or(self) == Grid::uniform(
                self.rows,
                self.cols,
                true,
            ),
            self.or(Grid::uniform(self.rows, self.cols, true)) == Grid::uniform(
                self.rows,
                self.cols,
                true,
            ),
    {
        let full = Grid::uniform(self.rows, self.cols, true);
        assert(full.or(self).cells =~= full.cells);
        assert(self.or(full).cells =~= full.cells);
    }
}

} // verus!
