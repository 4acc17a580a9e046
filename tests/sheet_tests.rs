use rust_xlsxwriter::{DocProperties, ExcelDateTime, Workbook};
use sql2xlsx::error::ExportError;
use sql2xlsx::sheet::{build_sheet, data_rows, row_text, write_body, write_header, ResultMessage};

fn row(values: &[Option<&str>]) -> ResultMessage {
    ResultMessage::Row(values.iter().map(|v| v.map(|s| s.to_string())).collect())
}

fn grid(rows: &[&[&str]]) -> Vec<Vec<String>> {
    rows.iter().map(|r| r.iter().map(|s| s.to_string()).collect()).collect()
}

fn workbook_bytes(header: &str, messages: &Vec<ResultMessage>) -> Vec<u8> {
    let ws = build_sheet(header, messages).unwrap();
    let mut wb = Workbook::new();
    let when = ExcelDateTime::from_ymd(2024, 1, 2).unwrap();
    wb.set_properties(&DocProperties::new().set_creation_datetime(&when));
    wb.push_worksheet(ws);
    wb.save_to_buffer().unwrap()
}

#[test]
fn null_values_become_empty_text() {
    let messages = vec![row(&[Some("x"), Some("y")]), row(&[Some("1"), None])];
    assert_eq!(data_rows(&messages), grid(&[&["x", "y"], &["1", ""]]));
}

#[test]
fn other_messages_are_passed_over() {
    let messages = vec![
        ResultMessage::Other,
        row(&[Some("a")]),
        ResultMessage::Other,
        row(&[Some("b"), Some("c")]),
        ResultMessage::Other,
    ];
    assert_eq!(data_rows(&messages), grid(&[&["a"], &["b", "c"]]));
}

#[test]
fn no_messages_give_no_rows() {
    assert_eq!(data_rows(&vec![]), Vec::<Vec<String>>::new());
    assert_eq!(data_rows(&vec![ResultMessage::Other]), Vec::<Vec<String>>::new());
}

#[test]
fn row_text_keeps_order_and_empties_nulls() {
    let values = vec![None, Some("q".to_string()), None];
    assert_eq!(row_text(&values), vec!["".to_string(), "q".to_string(), "".to_string()]);
}

#[test]
fn header_and_rows_of_different_widths_are_written() {
    let wide_header = vec![row(&[Some("1")])];
    assert!(build_sheet("a, b, c, d", &wide_header).is_ok());
    let wide_rows = vec![row(&[Some("1"), Some("2"), Some("3")]), row(&[None, Some("5")])];
    assert!(build_sheet("only", &wide_rows).is_ok());
}

#[test]
fn empty_result_gives_header_only_sheet() {
    assert!(build_sheet("a,b", &vec![]).is_ok());
}

#[test]
fn too_long_text_is_a_save_error() {
    let long = "z".repeat(32_768);
    let messages = vec![row(&[Some(long.as_str())])];
    assert!(matches!(build_sheet("h", &messages), Err(ExportError::Save(_))));
    let header = format!("ok, {}", long);
    assert!(matches!(build_sheet(&header, &vec![]), Err(ExportError::Save(_))));
}

#[test]
fn longest_text_a_cell_holds_is_written() {
    let long = "z".repeat(32_767);
    let messages = vec![row(&[Some(long.as_str())])];
    assert!(build_sheet("h", &messages).is_ok());
}

#[test]
fn too_many_columns_is_a_save_error() {
    let values: Vec<Option<&str>> = vec![Some("v"); 16_385];
    assert!(matches!(build_sheet("h", &vec![row(&values)]), Err(ExportError::Save(_))));
    let empty_beyond: Vec<Option<&str>> = (0..16_385)
        .map(|i| if i < 16_384 { Some("v") } else { None })
        .collect();
    assert!(build_sheet("h", &vec![row(&empty_beyond)]).is_ok());
}

#[test]
fn header_and_body_write_separately() {
    let mut ws = rust_xlsxwriter::Worksheet::new();
    assert!(write_header("a, b", &mut ws).is_ok());
    assert!(write_body(&vec![row(&[Some("1"), None])], &mut ws).is_ok());
}

#[test]
fn rendered_workbook_is_a_zip_archive() {
    let bytes = workbook_bytes("x, y", &vec![row(&[Some("1"), Some("2")])]);
    assert!(bytes.len() > 4);
    assert_eq!(&bytes[0..2], b"PK");
}

#[test]
fn rendering_twice_gives_the_same_bytes() {
    let messages = vec![row(&[Some("x"), Some("y")]), row(&[Some("1"), None])];
    assert_eq!(workbook_bytes("a, b", &messages), workbook_bytes("a, b", &messages));
}
