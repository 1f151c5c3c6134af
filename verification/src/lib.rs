//! Solvers for a set of small daily text puzzles, each a verified pipeline
//! from input lines to an answer: strategy-guide scoring, rucksack item
//! priorities, section-range overlap counting, crate-stack rearrangement, and
//! a shell-transcript directory tree with its size aggregation.

pub mod cleanup;
pub mod digits;
pub mod fstree;
pub mod render;
pub mod rps;
pub mod rucksack;
pub mod scan;
pub mod sections;
pub mod strcmp;
pub mod supply;
pub mod transcript;
