use std::path::PathBuf;

use sql2xlsx::error::ExportError;
use sql2xlsx::query::{resolve, resolve_db, ConfigFields, FromSql, Query, Source};
use sql2xlsx::sheet::ResultMessage;

fn some(s: &str) -> Option<String> {
    Some(s.to_string())
}

#[test]
fn query_new_keeps_its_parts() {
    let q = Query::new(
        "postgres://u@h/db".to_string(),
        "select 1".to_string(),
        "a, b".to_string(),
        PathBuf::from("out.xlsx"),
    );
    assert_eq!(q.db(), "postgres://u@h/db");
    assert_eq!(q.sql(), "select 1");
    assert_eq!(q.header(), "a, b");
    assert_eq!(q.file_name(), &PathBuf::from("out.xlsx"));
    assert_eq!(q.header_fields(), vec!["a".to_string(), "b".to_string()]);
}

#[test]
fn into_query_adds_the_connection() {
    let f = FromSql { header: "h".to_string(), sql: "select 2".to_string(), out: PathBuf::from("r.xlsx") };
    let q = f.into_query("postgres://x".to_string());
    assert_eq!(q.db(), "postgres://x");
    assert_eq!(q.sql(), "select 2");
    assert_eq!(q.header(), "h");
    assert_eq!(q.file_name(), &PathBuf::from("r.xlsx"));
}

#[test]
fn render_uses_the_query_header() {
    let q = Query::new("db".to_string(), "s".to_string(), "a,b".to_string(), PathBuf::from("o.xlsx"));
    let messages = vec![ResultMessage::Row(vec![some("1"), None])];
    assert!(q.render(&messages).is_ok());
}

#[test]
fn missing_sql_is_a_config_error() {
    let r = FromSql::from_fields(some("a,b"), None, some("o.xlsx"));
    assert!(matches!(r, Err(ExportError::Config(ref f)) if f == "sql"));
}

#[test]
fn empty_or_missing_fields_are_named_in_order() {
    let r = FromSql::from_fields(None, None, None);
    assert!(matches!(r, Err(ExportError::Config(ref f)) if f == "header"));
    let r = FromSql::from_fields(some(""), some("q"), some("o"));
    assert!(matches!(r, Err(ExportError::Config(ref f)) if f == "header"));
    let r = FromSql::from_fields(some("h"), some("q"), some(""));
    assert!(matches!(r, Err(ExportError::Config(ref f)) if f == "out"));
}

#[test]
fn complete_config_gives_the_descriptor() {
    let f = FromSql::from_fields(some("a, b"), some("select 1"), some("report.xlsx")).unwrap();
    assert_eq!(f.header, "a, b");
    assert_eq!(f.sql, "select 1");
    assert_eq!(f.out, PathBuf::from("report.xlsx"));
}

#[test]
fn flag_wins_over_environment() {
    assert_eq!(resolve_db(some("flag"), some("env")), Ok("flag".to_string()));
    assert_eq!(resolve_db(None, some("env")), Ok("env".to_string()));
}

#[test]
fn no_connection_string_is_an_error() {
    assert_eq!(resolve_db(None, None), Err(ExportError::MissingConnection));
}

fn inline() -> Source {
    Source::Inline(FromSql { header: "a, b".to_string(), sql: "select 1".to_string(), out: PathBuf::from("o.xlsx") })
}

fn fields(header: Option<String>, sql: Option<String>, out: Option<String>) -> Source {
    Source::FromFile(ConfigFields { header, sql, out })
}

#[test]
fn resolve_inline_gives_the_query() {
    let q = resolve(some("postgres://h/db"), None, inline()).unwrap();
    assert_eq!(q.db(), "postgres://h/db");
    assert_eq!(q.sql(), "select 1");
    assert_eq!(q.header(), "a, b");
    assert_eq!(q.file_name(), &PathBuf::from("o.xlsx"));
}

#[test]
fn resolve_without_connection_is_an_error() {
    assert!(matches!(resolve(None, None, inline()), Err(ExportError::MissingConnection)));
    assert!(matches!(
        resolve(None, None, fields(None, None, None)),
        Err(ExportError::MissingConnection)
    ));
}

#[test]
fn resolve_reports_a_config_error_before_connecting() {
    let r = resolve(some("postgres://h/db"), None, fields(some("a"), None, some("o.xlsx")));
    assert!(matches!(r, Err(ExportError::Config(ref f)) if f == "sql"));
}

#[test]
fn resolve_from_file_uses_the_environment_connection() {
    let q = resolve(None, some("postgres://env"), fields(some(" x , y "), some("select 3"), some("f.xlsx")))
        .unwrap();
    assert_eq!(q.db(), "postgres://env");
    assert_eq!(q.sql(), "select 3");
    assert_eq!(q.header_fields(), vec!["x".to_string(), "y".to_string()]);
    assert_eq!(q.file_name(), &PathBuf::from("f.xlsx"));
}
