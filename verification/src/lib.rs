//! Descriptive statistics of one named column of a table: the number of rows,
//! and the smallest, the largest, the sum and the mean of the entries that are
//! present.
//!
//! A table is a rectangle of named, typed columns whose entries may be
//! missing (`table`). The column asked for is found by its exact name, its
//! entries are coerced to binary64 numbers, all of them or none (`numeric`),
//! and the numbers are aggregated (`stats`); `pipeline` runs the three steps
//! and hands back the statistics or the first failure (`error`).
//!
//! Numbers are held by their bit patterns (`binary64`). Comparing them and
//! converting integers to them (`conversion`) is done on integers and proved;
//! adding, dividing and reading texts as numbers is left to polars (`engine`).

pub mod binary64;
pub mod conversion;
pub mod engine;
pub mod error;
pub mod numeric;
pub mod pipeline;
pub mod stats;
pub mod table;
