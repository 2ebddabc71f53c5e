//! Dynamic time warping between fixed-point numeric sequences, with a
//! full-matrix and a rolling-row engine and a pairwise aggregator over a
//! dataset.
pub mod aggregate;
pub mod cost;
pub mod engine;
pub mod matrix;
pub mod metric;
pub mod path;
pub mod series;
pub mod timing;
