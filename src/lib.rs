//! Minimal move counts for small rotation puzzles (the 3x3 cube, the
//! pyraminx) by bidirectional breadth-first search, over puzzle states in a
//! packed bit-lane encoding.
pub mod bidisearch;
pub mod cube;
pub mod nxn;
pub mod pyraminx;
pub mod solver;
pub mod turn;
