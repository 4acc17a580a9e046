//! What one export runs: the connection string, the query, the header and
//! where the spreadsheet goes; and how those are settled from what the user
//! gave.

use rust_xlsxwriter::Worksheet;
use std::path::PathBuf;
use vstd::prelude::*;

use crate::error::ExportError;
use crate::header::{header_fields, split_header, texts};
use crate::sheet::{build_sheet, rows_cells, rows_fit, sheet_rows, text_cells, ResultMessage};

verus! {

#[verifier::external_type_specification]
#[verifier::external_body]
pub struct ExPathBuf(PathBuf);

/// The path that a text names.
pub uninterp spec fn path_of(s: Seq<char>) -> PathBuf;

/// Relies on `PathBuf::from` for a `String`: the path is made of the text
/// alone.
#[verifier::external_body]
fn to_path(s: String) -> (r: PathBuf)
    ensures
        r == path_of(s@),
{
    PathBuf::from(s)
}

/// One export: where to connect, what to run, the header's labels as one
/// comma-separated text, and the file to write.
pub struct Query {
    db: String,
    sql: String,
    header: String,
    file_name: PathBuf,
}

impl Query {
    pub closed spec fn spec_db(&self) -> String {
        self.db
    }

    pub closed spec fn spec_sql(&self) -> String {
        self.sql
    }

    pub closed spec fn spec_header(&self) -> String {
        self.header
    }

    pub closed spec fn spec_file_name(&self) -> PathBuf {
        self.file_name
    }

    pub fn new(db: String, sql: String, header: String, file_name: PathBuf) -> (r: Query)
        ensures
            r.spec_db() == db,
            r.spec_sql() == sql,
            r.spec_header() == header,
            r.spec_file_name() == file_name,
    {
        Query { db, sql, header, file_name }
    }

    /// The connection string.
    pub fn db(&self) -> (r: &String)
        ensures
            *r == self.spec_db(),
    {
        &self.db
    }

    /// The query text.
    pub fn sql(&self) -> (r: &String)
        ensures
            *r == self.spec_sql(),
    {
        &self.sql
    }

    /// The header as given, before it is split.
    pub fn header(&self) -> (r: &String)
        ensures
            *r == self.spec_header(),
    {
        &self.header
    }

    /// Where the spreadsheet is written.
    pub fn file_name(&self) -> (r: &PathBuf)
        ensures
            *r == self.spec_file_name(),
    {
        &self.file_name
    }

    /// The header's labels, trimmed, in order.
    pub fn header_fields(&self) -> (r: Vec<String>)
        ensures
            texts(r@) == header_fields(self.spec_header()@),
    {
        split_header(self.header.as_str())
    }

    /// The worksheet for this export's header and the result `messages`.
    pub fn render(&self, messages: &Vec<ResultMessage>) -> (r: Result<Worksheet, ExportError>)
        requires
            messages@.len() < usize::MAX,
        ensures
            r is Ok <==> rows_fit(0, sheet_rows(self.spec_header()@, messages@)),
            r matches Ok(ws) ==> text_cells(ws) == rows_cells(
                0,
                sheet_rows(self.spec_header()@, messages@),
            ),
    {
        build_sheet(self.header.as_str(), messages)
    }
}

/// An export as the user describes it: header, query and output file,
/// without the connection.
pub struct FromSql {
    pub header: String,
    pub sql: String,
    pub out: PathBuf,
}

/// Whether a configuration field is absent or empty.
pub open spec fn lacking(field: Option<String>) -> bool {
    match field {
        Some(s) => s@.len() == 0,
        None => true,
    }
}

/// Whether `r` is the configuration error that names `field`.
pub open spec fn config_error<T>(r: Result<T, ExportError>, field: Seq<char>) -> bool {
    match r {
        Err(ExportError::Config(name)) => name@ == field,
        _ => false,
    }
}

/// The text of a configuration field, or the error that names it when the
/// field is absent or empty.
fn take_field(field: Option<String>, name: &str) -> (r: Result<String, ExportError>)
    ensures
        lacking(field) ==> config_error(r, name@),
        !lacking(field) ==> r == Ok::<String, ExportError>(field->0),
{
    match field {
        Some(s) => {
            if s.as_str().unicode_len() > 0 {
                Ok(s)
            } else {
                Err(ExportError::Config(String::from_str(name)))
            }
        },
        None => Err(ExportError::Config(String::from_str(name))),
    }
}

impl FromSql {
    pub fn into_query(self, db_url: String) -> (r: Query)
        ensures
            r.spec_db() == db_url,
            r.spec_sql() == self.sql,
            r.spec_header() == self.header,
            r.spec_file_name() == self.out,
    {
        Query::new(db_url, self.sql, self.header, self.out)
    }

    /// The export that the fields of a configuration file describe. Each of
    /// `header`, `sql` and `out` must be present and non-empty; the first,
    /// in that order, that is not is named in a configuration error.
    pub fn from_fields(header: Option<String>, sql: Option<String>, out: Option<String>) -> (r:
        Result<FromSql, ExportError>)
        ensures
            lacking(header) ==> config_error(r, "header"@),
            !lacking(header) && lacking(sql) ==> config_error(r, "sql"@),
            !lacking(header) && !lacking(sql) && lacking(out) ==> config_error(r, "out"@),
            !lacking(header) && !lacking(sql) && !lacking(out) ==> (r matches Ok(f) && f.header
                == header->0 && f.sql == sql->0 && f.out == path_of(out->0@)),
    {
        let header = match take_field(header, "header") {
            Ok(h) => h,
            Err(e) => {
                return Err(e);
            },
        };
        let sql = match take_field(sql, "sql") {
            Ok(q) => q,
            Err(e) => {
                return Err(e);
            },
        };
        let out = match take_field(out, "out") {
            Ok(o) => o,
            Err(e) => {
                return Err(e);
            },
        };
        Ok(FromSql { header, sql, out: to_path(out) })
    }
}

/// The connection string to use: the one given by flag if any, else the one
/// from the environment; with neither, the export cannot run.
pub fn resolve_db(flag: Option<String>, env: Option<String>) -> (r: Result<String, ExportError>)
    ensures
        flag is Some ==> r == Ok::<String, ExportError>(flag->0),
        flag is None && env is Some ==> r == Ok::<String, ExportError>(env->0),
        flag is None && env is None ==> r == Err::<String, ExportError>(
            ExportError::MissingConnection,
        ),
{
    match flag {
        Some(db) => Ok(db),
        None => match env {
            Some(db) => Ok(db),
            None => Err(ExportError::MissingConnection),
        },
    }
}

/// The fields of a configuration file as read, before they are checked.
pub struct ConfigFields {
    pub header: Option<String>,
    pub sql: Option<String>,
    pub out: Option<String>,
}

/// Where the export's description comes from: given inline, or read from a
/// configuration file.
pub enum Source {
    Inline(FromSql),
    FromFile(ConfigFields),
}

/// The export to run, from the connection given by flag or environment and
/// the description's source. Without a connection string nothing else is
/// looked at; a configuration file's fields are then checked as
/// [`FromSql::from_fields`] does. Only an `Ok` leads to a connection.
pub fn resolve(flag: Option<String>, env: Option<String>, source: Source) -> (r: Result<Query, ExportError>)
    ensures
        flag is None && env is None ==> r is Err && r->Err_0 == ExportError::MissingConnection,
        ({
            let db = if flag is Some {
                flag->0
            } else {
                env->0
            };
            (flag is Some || env is Some) ==> match source {
                Source::Inline(f) => (r matches Ok(q) && q.spec_db() == db && q.spec_sql() == f.sql
                    && q.spec_header() == f.header && q.spec_file_name() == f.out),
                Source::FromFile(c) => {
                    &&& lacking(c.header) ==> config_error(r, "header"@)
                    &&& !lacking(c.header) && lacking(c.sql) ==> config_error(r, "sql"@)
                    &&& !lacking(c.header) && !lacking(c.sql) && lacking(c.out) ==> config_error(
                        r,
                        "out"@,
                    )
                    &&& !lacking(c.header) && !lacking(c.sql) && !lacking(c.out) ==> (r matches Ok(
                        q,
                    ) && q.spec_db() == db && q.spec_sql() == c.sql->0 && q.spec_header()
                        == c.header->0 && q.spec_file_name() == path_of(c.out->0@))
                },
            }
        }),
{
    let db = match resolve_db(flag, env) {
        Ok(db) => db,
        Err(e) => {
            return Err(e);
        },
    };
    let from_sql = match source {
        Source::Inline(f) => f,
        Source::FromFile(c) => match FromSql::from_fields(c.header, c.sql, c.out) {
            Ok(f) => f,
            Err(e) => {
                return Err(e);
            },
        },
    };
    Ok(from_sql.into_query(db))
}

} // verus!
