//! A board whose bits live in a bit vector sized to the board.

use vstd::prelude::*;
use vstd::std_specs::cmp::PartialEqSpecImpl;

use crate::bitboard::BitBoard;
use crate::grid::Grid;
use crate::storage::{
    buf_and_assign, buf_bits, buf_clone, buf_eq, buf_fill, buf_get, buf_or_assign, buf_repeat,
    buf_set, max_bits, BitBuf,
};
use crate::DimensionMismatch;

verus! {

/// A board that allocates exactly one bit per cell when it is made. Its edges
/// are hard: going past one does not lead to the other side.
#[derive(Debug)]
pub struct BitBoardDyn {
    /// The bits that represent the board, row after row.
    board: BitBuf,
    /// The number of rows.
    n_rows: usize,
    /// The number of columns.
    n_cols: usize,
}

impl View for BitBoardDyn {
    type V = Grid;

    closed spec fn view(&self) -> Grid {
        Grid { rows: self.n_rows as nat, cols: self.n_cols as nat, cells: buf_bits(self.board) }
    }
}

impl Clone for BitBoardDyn {
    /// An independent board with the same shape and cells.
    fn clone(&self) -> (copy: Self)
        ensures
            copy@ == self@,
    {
        proof {
            use_type_invariant(self);
        }
        BitBoardDyn { board: buf_clone(&self.board), n_rows: self.n_rows, n_cols: self.n_cols }
    }
}

impl PartialEq for BitBoardDyn {
    /// Whether two boards have the same shape and the same cells.
    fn eq(&self, other: &Self) -> (equal: bool) {
        self.n_rows == other.n_rows && self.n_cols == other.n_cols && buf_eq(
            &self.board,
            &other.board,
        )
    }
}

impl Eq for BitBoardDyn {}

impl PartialEqSpecImpl for BitBoardDyn {
    open spec fn obeys_eq_spec() -> bool {
        true
    }

    open spec fn eq_spec(&self, other: &Self) -> bool {
        self@ == other@
    }
}

impl BitBoardDyn {
    /// The vector holds one bit per cell.
    #[verifier::type_invariant]
    spec fn well_formed(self) -> bool {
        &&& buf_bits(self.board).len() == self.n_rows * self.n_cols
        &&& self.n_rows * self.n_cols <= max_bits()
    }

    /// Whether a board of this shape can be made: its cells must not
    /// outnumber the bits that a bit vector takes.
    pub open spec fn fits(n_rows: usize, n_cols: usize) -> bool {
        n_rows * n_cols <= max_bits()
    }

    /// A new board of `n_rows` rows and `n_cols` columns with every cell
    /// `false`. The board must fit: a bit vector must be able to hold its
    /// cells.
    pub fn new(n_rows: usize, n_cols: usize) -> (board: Self)
        requires
            Self::fits(n_rows, n_cols),
        ensures
            board@ == Grid::blank(n_rows as nat, n_cols as nat),
    {
        BitBoardDyn { board: buf_repeat(false, n_rows * n_cols), n_rows, n_cols }
    }

    /// A new board with every cell `false`, or nothing where the shape does
    /// not fit.
    pub fn try_new(n_rows: usize, n_cols: usize) -> (board: Option<Self>)
        ensures
            board is Some <==> Self::fits(n_rows, n_cols),
            board matches Some(b) ==> b@ == Grid::blank(n_rows as nat, n_cols as nat),
    {
        match n_rows.checked_mul(n_cols) {
            Some(cells) => {
                if cells <= usize::MAX / 8 {
                    Some(Self::new(n_rows, n_cols))
                } else {
                    None
                }
            },
            None => None,
        }
    }
}

impl BitBoard for BitBoardDyn {
    fn n_rows(&self) -> (n: usize) {
        proof {
            use_type_invariant(self);
        }
        self.n_rows
    }

    fn n_cols(&self) -> (n: usize) {
        proof {
            use_type_invariant(self);
        }
        self.n_cols
    }

    fn read_bit(&self, index: usize) -> (bit: Option<bool>) {
        buf_get(&self.board, index)
    }

    fn write_bit(&mut self, index: usize, value: bool) {
        proof {
            use_type_invariant(&*self);
        }
        buf_set(&mut self.board, index, value);
    }

    fn fill(&mut self, value: bool) {
        proof {
            use_type_invariant(&*self);
        }
        buf_fill(&mut self.board, value);
    }

    fn or(&self, other: &Self) -> (result: Result<Self, DimensionMismatch>) {
        if (self.n_rows != other.n_rows) || (self.n_cols != other.n_cols) {
            return Err(DimensionMismatch);
        }
        proof {
            use_type_invariant(self);
            use_type_invariant(other);
        }
        let mut board = buf_clone(&self.board);
        buf_or_assign(&mut board, &other.board);
        let new_board = BitBoardDyn { board, n_rows: self.n_rows, n_cols: self.n_cols };
        proof {
            assert(new_board@.cells =~= self@.or(other@).cells);
        }
        Ok(new_board)
    }

    fn and(&self, other: &Self) -> (result: Result<Self, DimensionMismatch>) {
        if (self.n_rows != other.n_rows) || (self.n_cols != other.n_cols) {
            return Err(DimensionMismatch);
        }
        proof {
            use_type_invariant(self);
            use_type_invariant(other);
        }
        let mut board = buf_clone(&self.board);
        buf_and_assign(&mut board, &other.board);
        let new_board = BitBoardDyn { board, n_rows: self.n_rows, n_cols: self.n_cols };
        proof {
            assert(new_board@.cells =~= self@.and(other@).cells);
        }
        Ok(new_board)
    }
}

} // verus!
