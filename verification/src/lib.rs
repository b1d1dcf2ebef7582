//! A solver for an exact-cover tiling puzzle on a 6x6 board embedded in a
//! 64-bit word: nine fixed piece shapes are placed by a backtracking search
//! so that every piece is used exactly once and no two placements overlap.

pub mod pieces;
pub mod solver;
pub mod state;
