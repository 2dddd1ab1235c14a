//! A bit-packed two-dimensional grid of booleans.
//!
//! A board has a fixed number of rows and columns and keeps one bit per cell,
//! in row-major order. Two storage strategies share one interface,
//! [`BitBoard`]: [`BitBoardStatic`] keeps its bits in a block of machine words
//! whose size is part of the type, [`BitBoardDyn`] in a bit vector sized to the
//! board. The bits themselves are addressed by the `bitvec` crate.
//!
//! Every operation is specified against [`Grid`], the mathematical model of a
//! board, which is the view of both kinds of board. Two boards of one kind
//! are equal exactly when their grids are. What a board keeps true of its
//! representation is a type invariant, which a caller never has to state.

use vstd::prelude::*;
use vstd::string::StringExecFns;

pub mod bitboard;
pub mod bitboarddyn;
pub mod bitboardstatic;
pub mod grid;
pub mod render;
pub mod storage;

pub use crate::bitboard::BitBoard;
pub use crate::bitboarddyn::BitBoardDyn;
pub use crate::bitboardstatic::BitBoardStatic;
pub use crate::grid::Grid;

verus! {

/// The two boards handed to a binary operation differ in shape.
#[derive(Debug, Clone, Copy, PartialEq, Eq, Structural)]
pub struct DimensionMismatch;

impl DimensionMismatch {
    /// The error in words.
    pub fn message(&self) -> (text: String)
        ensures
            text@ == "Dimensions do not match."@,
    {
        String::from_str("Dimensions do not match.")
    }
}

} // verus!
