//! Runs one SQL query's result into a spreadsheet: header parsing, the cell
//! layout of a result set, and the descriptor that says what to run.

pub mod error;
pub mod header;
pub mod sheet;
pub mod query;
