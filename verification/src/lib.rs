//! Exhaustive-search solver for a calendar tiling puzzle.
//!
//! An 8x8 bit grid encodes the board; a fixed catalog of eight bricks, each
//! pre-expanded into all of its rotations and reflections, must tile every
//! cell left free after the two cells for a target date are marked occupied.

use vstd::prelude::*;

pub mod bits;
pub mod board;
pub mod brick;
pub mod hints;
pub mod place;
pub mod render;
pub mod search;

pub use board::Board;
pub use board::DateError;
pub use brick::Brick;
pub use brick::BrickVariant;
pub use hints::Hint;
pub use hints::hints;
pub use hints::rank_placements;
pub use place::ValidPlacementIterator;
pub use render::brick_labels;
pub use search::SolveIterator;
pub use search::SolvedBoard;
pub use search::solve;

verus! {

/// Occupancy mask of the board before a date is applied: every address that
/// is not a real cell of the puzzle grid, including the guard column and the
/// guard rows that reject wrap-around placements.
pub const EMPTY_BITBOARD: u64 = 0b00000011_00000011_00000001_00000001_00000001_00000001_00011111_11111111u64;

} // verus!
