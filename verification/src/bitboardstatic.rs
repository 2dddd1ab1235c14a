//! A board whose bits live in a block of machine words of a size fixed by
//! the type.

use vstd::arithmetic::div_mod::lemma_fundamental_div_mod_converse;
use vstd::prelude::*;
use vstd::std_specs::cmp::PartialEqSpecImpl;

use crate::bitboard::BitBoard;
use crate::grid::Grid;
use crate::storage::{
    bit_of, block_bits, max_bits, word_bit, words_and_assign, words_fill, words_get,
    words_or_assign, words_set,
};
use crate::DimensionMismatch;

verus! {

/// A board that keeps its bits in `W` machine words inside the value itself,
/// so that making one allocates nothing. The bits past the last cell are
/// there, but nothing reads or writes them: they stay clear.
#[derive(Debug, Clone, Copy)]
pub struct BitBoardStatic<const W: usize> {
    /// The words that hold the bits, cell after cell from the least
    /// significant bit of the first word on.
    board: [usize; W],
    /// The number of rows.
    n_rows: usize,
    /// The number of columns.
    n_cols: usize,
}

impl<const W: usize> View for BitBoardStatic<W> {
    type V = Grid;

    closed spec fn view(&self) -> Grid {
        Grid {
            rows: self.n_rows as nat,
            cols: self.n_cols as nat,
            cells: Seq::new((self.n_rows * self.n_cols) as nat, |i: int| word_bit(self.board@, i)),
        }
    }
}

impl<const W: usize> PartialEq for BitBoardStatic<W> {
    /// Whether two boards have the same shape and the same cells.
    fn eq(&self, other: &Self) -> (equal: bool) {
        proof {
            use_type_invariant(self);
            use_type_invariant(other);
        }
        if self.n_rows != other.n_rows || self.n_cols != other.n_cols {
            return false;
        }
        for w in 0..W
            invariant
                self.n_rows == other.n_rows,
                self.n_cols == other.n_cols,
                forall|k: int| 0 <= k < w ==> self.board@[k] == other.board@[k],
        {
            if self.board[w] != other.board[w] {
                proof {
                    use_type_invariant(self);
                    use_type_invariant(other);
                    if self@ == other@ {
                        self.lemma_same_cells_same_word(other, w as int);
                    }
                }
                return false;
            }
        }
        proof {
            assert(self.board@ =~= other.board@);
            assert(self@.cells =~= other@.cells);
        }
        true
    }
}

impl<const W: usize> Eq for BitBoardStatic<W> {}

impl<const W: usize> PartialEqSpecImpl for BitBoardStatic<W> {
    open spec fn obeys_eq_spec() -> bool {
        true
    }

    open spec fn eq_spec(&self, other: &Self) -> bool {
        self@ == other@
    }
}

impl<const W: usize> BitBoardStatic<W> {
    /// The cells have room in the words, the words can be addressed by bit,
    /// and the bits past the last cell are clear.
    #[verifier::type_invariant]
    spec fn well_formed(self) -> bool {
        &&& self.n_rows * self.n_cols <= Self::capacity() <= max_bits()
        &&& forall|i: int|
            self.n_rows * self.n_cols <= i < Self::capacity() ==> !#[trigger] word_bit(
                self.board@,
                i,
            )
    }

    /// The number of cells that `W` words have room for.
    pub open spec fn capacity() -> int {
        block_bits(W as int)
    }

    /// Whether a board of this shape can be made: its cells must not
    /// outnumber the bits of `W` words, nor the block the bits that can be
    /// addressed.
    pub open spec fn fits(n_rows: usize, n_cols: usize) -> bool {
        n_rows * n_cols <= Self::capacity() <= max_bits()
    }

    /// A new board of `n_rows` rows and `n_cols` columns with every cell
    /// `false`. The board must fit: the number of its cells must not exceed
    /// the number of bits in `W` words.
    #[must_use]
    pub fn new(n_rows: usize, n_cols: usize) -> (board: Self)
        requires
            Self::fits(n_rows, n_cols),
        ensures
            board@ == Grid::blank(n_rows as nat, n_cols as nat),
    {
        let words = [0usize; W];
        proof {
            assert forall|i: int| 0 <= i < Self::capacity() implies !#[trigger] word_bit(
                words@,
                i,
            ) by {
                lemma_zero_word_bit(words@, i);
            }
        }
        let board = BitBoardStatic { board: words, n_rows, n_cols };
        proof {
            assert(board@.cells =~= Grid::blank(n_rows as nat, n_cols as nat).cells);
        }
        board
    }

    /// A new board with every cell `false`, or nothing where the shape does
    /// not fit: a board is never cut down to the room there is.
    pub fn try_new(n_rows: usize, n_cols: usize) -> (board: Option<Self>)
        ensures
            board is Some <==> Self::fits(n_rows, n_cols),
            board matches Some(b) ==> b@ == Grid::blank(n_rows as nat, n_cols as nat),
    {
        let available_bits = match W.checked_mul(usize::BITS as usize) {
            Some(bits) => bits,
            None => {
                return None;
            },
        };
        if available_bits > usize::MAX / 8 {
            return None;
        }
        match n_rows.checked_mul(n_cols) {
            Some(total_bits) => {
                if total_bits <= available_bits {
                    Some(Self::new(n_rows, n_cols))
                } else {
                    None
                }
            },
            None => None,
        }
    }
}

impl<const W: usize> BitBoard for BitBoardStatic<W> {
    fn n_rows(&self) -> (n: usize) {
        proof {
            use_type_invariant(self);
        }
        self.n_rows
    }

    fn n_cols(&self) -> (n: usize) {
        proof {
            use_type_invariant(self);
        }
        self.n_cols
    }

    fn read_bit(&self, index: usize) -> (bit: Option<bool>) {
        proof {
            use_type_invariant(self);
        }
        if index < self.n_rows * self.n_cols {
            words_get(&self.board, index)
        } else {
            None
        }
    }

    fn write_bit(&mut self, index: usize, value: bool) {
        proof {
            use_type_invariant(&*self);
        }
        words_set(&mut self.board, index, value);
        proof {
            assert(self@.cells =~= old(self)@.write(index as int, value).cells);
        }
    }

    fn fill(&mut self, value: bool) {
        proof {
            use_type_invariant(&*self);
        }
        words_fill(&mut self.board, self.n_rows * self.n_cols, value);
        proof {
            assert(self@.cells =~= old(self)@.fill(value).cells);
        }
    }

    fn or(&self, other: &Self) -> (result: Result<Self, DimensionMismatch>) {
        if (self.n_rows != other.n_rows) || (self.n_cols != other.n_cols) {
            return Err(DimensionMismatch);
        }
        proof {
            use_type_invariant(self);
            use_type_invariant(other);
        }
        let mut board = self.board;
        words_or_assign(&mut board, &other.board);
        let result = BitBoardStatic { board, n_rows: self.n_rows, n_cols: self.n_cols };
        proof {
            assert(result@.cells =~= self@.or(other@).cells);
        }
        Ok(result)
    }

    fn and(&self, other: &Self) -> (result: Result<Self, DimensionMismatch>) {
        if (self.n_rows != other.n_rows) || (self.n_cols != other.n_cols) {
            return Err(DimensionMismatch);
        }
        proof {
            use_type_invariant(self);
            use_type_invariant(other);
        }
        let mut board = self.board;
        words_and_assign(&mut board, &other.board);
        let result = BitBoardStatic { board, n_rows: self.n_rows, n_cols: self.n_cols };
        proof {
            assert(result@.cells =~= self@.and(other@).cells);
        }
        Ok(result)
    }
}

impl<const W: usize> BitBoardStatic<W> {
    /// Two boards with the same cells hold the same words: the bits past the
    /// last cell are clear in both.
    proof fn lemma_same_cells_same_word(&self, other: &Self, w: int)
        requires
            self.well_formed(),
            other.well_formed(),
            self@ == other@,
            0 <= w < W,
        ensures
            self.board@[w] == other.board@[w],
    {
        let bits = usize::BITS as int;
        let cells = self.n_rows * self.n_cols;
        assert forall|k: usize| k < usize::BITS implies bit_of(self.board@[w], k) == bit_of(
            other.board@[w],
            k,
        ) by {
            let i = w * bits + k;
            lemma_fundamental_div_mod_converse(i, bits, w, k as int);
            assert(0 <= i < Self::capacity()) by (nonlinear_arith)
                requires
                    0 <= w < W,
                    0 <= k < bits,
                    i == w * bits + k,
                    Self::capacity() == W * bits,
            ;
            assert(word_bit(self.board@, i) == bit_of(self.board@[w], k));
            assert(word_bit(other.board@, i) == bit_of(other.board@[w], k));
            if i < cells {
                assert(self@.cells[i] == word_bit(self.board@, i));
                assert(other@.cells[i] == word_bit(other.board@, i));
            }
        }
        lemma_same_bits_same_word(self.board@[w], other.board@[w]);
    }
}

/// Two words that agree from bit `j` up agree when both are shifted right by
/// `j` places.
proof fn lemma_same_bits_same_shift(a: usize, b: usize, j: usize)
    requires
        forall|k: usize| k < usize::BITS ==> bit_of(a, k) == bit_of(b, k),
        j < usize::BITS,
    ensures
        a >> j == b >> j,
    decreases usize::BITS - j,
{
    let x = a >> j;
    let y = b >> j;
    assert(bit_of(a, j) == bit_of(b, j));
    assert(x & 1usize == 0usize || x & 1usize == 1usize) by (bit_vector);
    assert(y & 1usize == 0usize || y & 1usize == 1usize) by (bit_vector);
    if j == usize::BITS - 1 {
        assert(j == usize::BITS - 1 ==> a >> j == ((a >> j) & 1usize)) by (bit_vector);
        assert(j == usize::BITS - 1 ==> b >> j == ((b >> j) & 1usize)) by (bit_vector);
    } else {
        let next = (j + 1) as usize;
        lemma_same_bits_same_shift(a, b, next);
        assert(j < usize::BITS - 1 ==> a >> j == (((a >> ((j + 1) as usize)) << 1usize) | ((a >> j)
            & 1usize))) by (bit_vector);
        assert(j < usize::BITS - 1 ==> b >> j == (((b >> ((j + 1) as usize)) << 1usize) | ((b >> j)
            & 1usize))) by (bit_vector);
    }
}

/// Two words with the same bits are the same word.
proof fn lemma_same_bits_same_word(a: usize, b: usize)
    requires
        forall|k: usize| k < usize::BITS ==> bit_of(a, k) == bit_of(b, k),
    ensures
        a == b,
{
    lemma_same_bits_same_shift(a, b, 0);
    assert(a >> 0usize == a) by (bit_vector);
    assert(b >> 0usize == b) by (bit_vector);
}

/// No bit is set in a word that is zero.
proof fn lemma_zero_word_bit(words: Seq<usize>, index: int)
    requires
        0 <= index < block_bits(words.len() as int),
        forall|w: int| 0 <= w < words.len() ==> words[w] == 0,
    ensures
        !word_bit(words, index),
{
    let bits = usize::BITS as int;
    let w = index / bits;
    let shift = (index % bits) as usize;
    assert(0 <= w < words.len()) by (nonlinear_arith)
        requires
            0 <= index < words.len() * bits,
            w == index / bits,
            bits > 0,
    ;
    assert((0usize >> shift) & 1usize == 0usize) by (bit_vector);
    assert(!bit_of(0usize, shift));
}

} // verus!
