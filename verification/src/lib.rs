//! Reads comma-separated text into a rectangular table of typed cells.
//!
//! The first line names the columns. Every line after it is a row, with one
//! cell for each column, and every cell is read as a value of one type that
//! the caller chooses. A table is read whole or not at all: the first line
//! that is no such row ends the reading with an error that says why.

pub mod error;
pub mod fields;
pub mod lines;
pub mod scalar;
pub mod table;

pub use crate::error::{CsvError, CsvLineLen};
pub use crate::scalar::Scalar;
pub use crate::table::{read_csv, CsvData};
