//! What can go wrong in one export.

use vstd::prelude::*;

verus! {

/// The ways an export can fail; each carries the text that explains it.
#[derive(Debug, PartialEq, Eq)]
pub enum ExportError {
    /// The configuration lacks a field or leaves it empty; carries the field's name.
    Config(String),
    /// No connection string was given, by flag or by environment.
    MissingConnection,
    /// The database could not be reached or refused the session.
    Connection(String),
    /// The database refused or failed the query.
    Query(String),
    /// The spreadsheet could not be written.
    Save(String),
}

} // verus!
