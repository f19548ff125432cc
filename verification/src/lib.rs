#![verifier::loop_isolation(false)]
//! A verified fixed-depth search engine for the nested 3x3-of-3x3 two-player
//! board game: a bit-packed board with O(1) win tests, precomputed lookup
//! tables, a zero-allocation make/unmake game-tree walk with alpha-beta
//! pruning, and a positional evaluation driven by a second table.

pub mod board;
pub mod codec;
pub mod moves;
pub mod search;
pub mod tables;
