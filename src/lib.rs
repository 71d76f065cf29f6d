//! Benchmarks five sorting algorithms on tabular data, ordering records by
//! one column with a numeric-or-textual comparison.

pub mod models;
pub mod order;
pub mod algorithms;
pub mod bench;
pub mod io;
pub mod data_gen;
