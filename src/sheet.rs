//! The cells of the spreadsheet: the header row at row 0, then each data row
//! of the result in the order it came, with a missing value as empty text.

use rust_xlsxwriter::{Worksheet, XlsxError};
use vstd::prelude::*;
use vstd::string::*;

use crate::error::ExportError;
use crate::header::{header_fields, split_header, texts};

verus! {

#[verifier::external_type_specification]
#[verifier::external_body]
pub struct ExWorksheet(Worksheet);

#[verifier::external_type_specification]
#[verifier::external_body]
pub struct ExXlsxError(XlsxError);

/// Rows a worksheet has.
pub const ROW_LIMIT: usize = 1048576;

/// Columns a worksheet has.
pub const COL_LIMIT: usize = 16384;

/// Characters a cell's text may hold.
pub const TEXT_LIMIT: usize = 32767;

/// The text cells of a worksheet, by (row, column).
pub uninterp spec fn text_cells(ws: Worksheet) -> Map<(int, int), Seq<char>>;

/// Relies on `Worksheet::new`: a new worksheet holds no cell.
pub assume_specification[ Worksheet::new ]() -> (r: Worksheet)
    ensures
        text_cells(r) =~= Map::empty(),
;

/// Relies on `Worksheet::write_string`: empty text is accepted and leaves the
/// sheet as it was; other text is refused outside the sheet's rows and
/// columns or beyond the longest text a cell holds, and else takes the cell's
/// place.
#[verifier::external_body]
fn put_text(ws: &mut Worksheet, row: u32, col: u16, text: &str) -> (r: Result<(), XlsxError>)
    ensures
        r is Ok <==> (text@.len() == 0 || (row < ROW_LIMIT && col < COL_LIMIT && text@.len()
            <= TEXT_LIMIT)),
        r is Ok && text@.len() == 0 ==> text_cells(*final(ws)) == text_cells(*old(ws)),
        r is Ok && text@.len() > 0 ==> text_cells(*final(ws)) == text_cells(*old(ws)).insert(
            (row as int, col as int),
            text@,
        ),
{
    ws.write_string(row, col, text).map(|_| ())
}

/// Relies on `XlsxError`'s `Display`, for the message of a failed write.
#[verifier::external_body]
fn error_text(e: &XlsxError) -> String {
    e.to_string()
}

/// One message of a query's result: a data row, whose values may be null,
/// or anything else the database sends.
#[derive(Debug, PartialEq, Eq)]
pub enum ResultMessage {
    Row(Vec<Option<String>>),
    Other,
}

/// The text a value shows in its cell: a null shows as empty text.
pub open spec fn cell_text(v: Option<String>) -> Seq<char> {
    match v {
        Some(s) => s@,
        None => Seq::empty(),
    }
}

/// The texts of a data row's values, in order.
pub open spec fn row_texts(v: Seq<Option<String>>) -> Seq<Seq<char>> {
    v.map_values(|x: Option<String>| cell_text(x))
}

/// The texts of rows of strings.
pub open spec fn grid_texts(g: Seq<Vec<String>>) -> Seq<Seq<Seq<char>>> {
    g.map_values(|row: Vec<String>| texts(row@))
}

/// The data rows among `msgs`, in order, each as its texts.
pub open spec fn data_rows_of(msgs: Seq<ResultMessage>) -> Seq<Seq<Seq<char>>>
    decreases msgs.len(),
{
    if msgs.len() == 0 {
        Seq::empty()
    } else {
        let before = data_rows_of(msgs.drop_last());
        match msgs.last() {
            ResultMessage::Row(v) => before.push(row_texts(v@)),
            ResultMessage::Other => before,
        }
    }
}

/// The cells that `rows` fill when the first of them stands at row `first`:
/// each non-empty text at its row and column.
pub open spec fn rows_cells(first: int, rows: Seq<Seq<Seq<char>>>) -> Map<(int, int), Seq<char>> {
    Map::new(
        |p: (int, int)|
            first <= p.0 < first + rows.len() && 0 <= p.1 < rows[p.0 - first].len() && rows[p.0
                - first][p.1].len() > 0,
        |p: (int, int)| rows[p.0 - first][p.1],
    )
}

/// Whether each non-empty text of `rows`, the first at row `first`, lies
/// within a worksheet's rows and columns and within a cell's length.
pub open spec fn rows_fit(first: int, rows: Seq<Seq<Seq<char>>>) -> bool {
    forall|r: int, c: int|
        0 <= r < rows.len() && 0 <= c < rows[r].len() && (#[trigger] rows[r][c]).len() > 0 ==> first
            + r < ROW_LIMIT && c < COL_LIMIT && rows[r][c].len() <= TEXT_LIMIT
}

/// The rows of the sheet for a header text and a result: the labels, then
/// the data rows.
pub open spec fn sheet_rows(header: Seq<char>, msgs: Seq<ResultMessage>) -> Seq<Seq<Seq<char>>> {
    seq![header_fields(header)] + data_rows_of(msgs)
}

proof fn lemma_rows_concat(first: int, a: Seq<Seq<Seq<char>>>, b: Seq<Seq<Seq<char>>>)
    ensures
        rows_cells(first, a).union_prefer_right(rows_cells(first + a.len(), b)) == rows_cells(
            first,
            a + b,
        ),
        rows_fit(first, a + b) <==> rows_fit(first, a) && rows_fit(first + a.len(), b),
{
    let ab = a + b;
    assert forall|r: int, c: int| 0 <= r < b.len() && 0 <= c < b[r].len() implies #[trigger] b[r][c]
        == ab[r + a.len()][c] by {
        assert(ab[r + a.len()] == b[r]);
    }
    assert forall|r: int, c: int| 0 <= r < a.len() && 0 <= c < a[r].len() implies #[trigger] a[r][c]
        == ab[r][c] by {
        assert(ab[r] == a[r]);
    }
    assert(rows_cells(first, a).union_prefer_right(rows_cells(first + a.len(), b)) =~= rows_cells(
        first,
        ab,
    ));
    if rows_fit(first, ab) {
        assert forall|r: int, c: int|
            0 <= r < b.len() && 0 <= c < b[r].len() && (#[trigger] b[r][c]).len() > 0 implies first
            + a.len() + r < ROW_LIMIT && c < COL_LIMIT && b[r][c].len() <= TEXT_LIMIT by {
            assert(ab[r + a.len()][c] == b[r][c]);
        }
        assert forall|r: int, c: int|
            0 <= r < a.len() && 0 <= c < a[r].len() && (#[trigger] a[r][c]).len() > 0 implies first
            + r < ROW_LIMIT && c < COL_LIMIT && a[r][c].len() <= TEXT_LIMIT by {
            assert(ab[r][c] == a[r][c]);
        }
    }
    if rows_fit(first, a) && rows_fit(first + a.len(), b) {
        assert forall|r: int, c: int|
            0 <= r < ab.len() && 0 <= c < ab[r].len() && (#[trigger] ab[r][c]).len() > 0 implies first
            + r < ROW_LIMIT && c < COL_LIMIT && ab[r][c].len() <= TEXT_LIMIT by {
            if r < a.len() {
                assert(a[r][c] == ab[r][c]);
            } else {
                assert(b[r - a.len()][c] == ab[r][c]);
            }
        }
    }
}

/// Writes `cells` into row `row`, cell `c` at column `c`.
fn write_row(ws: &mut Worksheet, row: usize, cells: &Vec<String>) -> (r: Result<(), ExportError>)
    ensures
        r is Ok <==> rows_fit(row as int, seq![texts(cells@)]),
        r is Ok ==> text_cells(*final(ws)) == text_cells(*old(ws)).union_prefer_right(
            rows_cells(row as int, seq![texts(cells@)]),
        ),
{
    let ghost start = text_cells(*ws);
    let ghost tx = texts(cells@);
    let mut c: usize = 0;
    assert(rows_cells(row as int, seq![tx.take(0)]) =~= Map::empty());
    assert(start.union_prefer_right(Map::empty()) =~= start);
    while c < cells.len()
        invariant
            tx == texts(cells@),
            0 <= c <= cells@.len(),
            rows_fit(row as int, seq![tx.take(c as int)]),
            text_cells(*ws) == start.union_prefer_right(rows_cells(row as int, seq![tx.take(c as int)])),
        decreases cells@.len() - c,
    {
        let text = cells[c].as_str();
        let ghost before = seq![tx.take(c as int)];
        let ghost after = seq![tx.take(c + 1)];
        assert(after[0][c as int] == tx[c as int]);
        assert forall|k: int| 0 <= k < c implies after[0][k] == before[0][k] by {}
        if row <= u32::MAX as usize && c <= u16::MAX as usize {
            match put_text(ws, row as u32, c as u16, text) {
                Ok(()) => {},
                Err(e) => {
                    assert(!rows_fit(row as int, seq![tx])) by {
                        assert(seq![tx][0][c as int] == tx[c as int]);
                    }
                    return Err(ExportError::Save(error_text(&e)));
                },
            }
        } else if text.unicode_len() > 0 {
            assert(!rows_fit(row as int, seq![tx])) by {
                assert(seq![tx][0][c as int] == tx[c as int]);
            }
            return Err(ExportError::Save(String::from_str("cell outside the worksheet")));
        }
        assert(text_cells(*ws) =~= start.union_prefer_right(rows_cells(row as int, after)));
        c = c + 1;
    }
    assert(tx.take(c as int) =~= tx);
    Ok(())
}

/// Writes `rows` into consecutive rows, the first at row `first`.
fn write_rows(ws: &mut Worksheet, first: usize, rows: &Vec<Vec<String>>) -> (r: Result<(), ExportError>)
    requires
        first + rows@.len() <= usize::MAX,
    ensures
        r is Ok <==> rows_fit(first as int, grid_texts(rows@)),
        r is Ok ==> text_cells(*final(ws)) == text_cells(*old(ws)).union_prefer_right(
            rows_cells(first as int, grid_texts(rows@)),
        ),
{
    let ghost start = text_cells(*ws);
    let ghost g = grid_texts(rows@);
    let mut i: usize = 0;
    assert(rows_cells(first as int, g.take(0)) =~= Map::empty());
    assert(start.union_prefer_right(Map::empty()) =~= start);
    while i < rows.len()
        invariant
            g == grid_texts(rows@),
            first + rows@.len() <= usize::MAX,
            0 <= i <= rows@.len(),
            rows_fit(first as int, g.take(i as int)),
            text_cells(*ws) == start.union_prefer_right(rows_cells(first as int, g.take(i as int))),
        decreases rows@.len() - i,
    {
        let ghost mid = text_cells(*ws);
        let res = write_row(ws, first + i, &rows[i]);
        proof {
            assert(g.take(i + 1) =~= g.take(i as int) + seq![g[i as int]]);
            lemma_rows_concat(first as int, g.take(i as int), seq![g[i as int]]);
            lemma_rows_concat(first as int, g.take(i + 1), g.skip(i + 1));
            assert(g.take(i + 1) + g.skip(i + 1) =~= g);
        }
        match res {
            Ok(()) => {},
            Err(e) => {
                return Err(e);
            },
        }
        assert(text_cells(*ws) =~= start.union_prefer_right(rows_cells(first as int, g.take(i + 1))));
        i = i + 1;
    }
    assert(g.take(i as int) =~= g);
    Ok(())
}

/// The texts of a data row's values, a null as empty text.
pub fn row_text(values: &Vec<Option<String>>) -> (r: Vec<String>)
    ensures
        texts(r@) == row_texts(values@),
{
    let mut out: Vec<String> = Vec::new();
    let mut j: usize = 0;
    while j < values.len()
        invariant
            0 <= j <= values@.len(),
            texts(out@) == row_texts(values@.take(j as int)),
        decreases values@.len() - j,
    {
        let text = match &values[j] {
            Some(s) => s.clone(),
            None => String::new(),
        };
        assert(text@ =~= cell_text(values@[j as int]));
        let ghost prev = out@;
        out.push(text);
        assert(values@.take(j + 1) =~= values@.take(j as int).push(values@[j as int]));
        assert(texts(out@) =~= texts(prev).push(text@));
        assert(texts(out@) =~= row_texts(values@.take(j + 1)));
        j = j + 1;
    }
    assert(values@.take(j as int) =~= values@);
    out
}

/// The data rows among `messages`, in the order they came, each as the
/// texts of its values; other messages are passed over.
pub fn data_rows(messages: &Vec<ResultMessage>) -> (r: Vec<Vec<String>>)
    ensures
        grid_texts(r@) == data_rows_of(messages@),
        r@.len() <= messages@.len(),
{
    let mut out: Vec<Vec<String>> = Vec::new();
    let mut i: usize = 0;
    assert(messages@.take(0) =~= Seq::<ResultMessage>::empty());
    while i < messages.len()
        invariant
            0 <= i <= messages@.len(),
            out@.len() <= i,
            grid_texts(out@) == data_rows_of(messages@.take(i as int)),
        decreases messages@.len() - i,
    {
        assert(messages@.take(i + 1).drop_last() =~= messages@.take(i as int));
        match &messages[i] {
            ResultMessage::Row(values) => {
                let texts_row = row_text(values);
                out.push(texts_row);
                assert(grid_texts(out@) =~= data_rows_of(messages@.take(i + 1)));
            },
            ResultMessage::Other => {},
        }
        i = i + 1;
    }
    assert(messages@.take(i as int) =~= messages@);
    out
}

/// Writes the labels of `header` into row 0, label `c` at column `c`.
pub fn write_header(header: &str, ws: &mut Worksheet) -> (r: Result<(), ExportError>)
    ensures
        r is Ok <==> rows_fit(0, seq![header_fields(header@)]),
        r is Ok ==> text_cells(*final(ws)) == text_cells(*old(ws)).union_prefer_right(
            rows_cells(0, seq![header_fields(header@)]),
        ),
{
    let fields = split_header(header);
    let rows = vec![fields];
    assert(grid_texts(rows@) =~= seq![header_fields(header@)]);
    write_rows(ws, 0, &rows)
}

/// Writes the data rows among `messages` below the header: the `k`-th data
/// row, counted from 1, into row `k`.
pub fn write_body(messages: &Vec<ResultMessage>, ws: &mut Worksheet) -> (r: Result<(), ExportError>)
    requires
        messages@.len() < usize::MAX,
    ensures
        r is Ok <==> rows_fit(1, data_rows_of(messages@)),
        r is Ok ==> text_cells(*final(ws)) == text_cells(*old(ws)).union_prefer_right(
            rows_cells(1, data_rows_of(messages@)),
        ),
{
    let rows = data_rows(messages);
    write_rows(ws, 1, &rows)
}

/// A new worksheet holding the labels of `header` in row 0 and the data rows
/// of `messages` below, in order; it fails exactly when a non-empty text falls
/// outside the worksheet or is too long for a cell.
pub fn build_sheet(header: &str, messages: &Vec<ResultMessage>) -> (r: Result<Worksheet, ExportError>)
    requires
        messages@.len() < usize::MAX,
    ensures
        r is Ok <==> rows_fit(0, sheet_rows(header@, messages@)),
        r matches Ok(ws) ==> text_cells(ws) == rows_cells(0, sheet_rows(header@, messages@)),
{
    let mut ws = Worksheet::new();
    let ghost hf = seq![header_fields(header@)];
    let ghost d = data_rows_of(messages@);
    proof {
        lemma_rows_concat(0, hf, d);
    }
    let ghost empty = text_cells(ws);
    match write_header(header, &mut ws) {
        Ok(()) => {},
        Err(e) => {
            return Err(e);
        },
    }
    match write_body(messages, &mut ws) {
        Ok(()) => {},
        Err(e) => {
            return Err(e);
        },
    }
    assert(text_cells(ws) =~= rows_cells(0, sheet_rows(header@, messages@)));
    Ok(ws)
}

/// Layout of the sheet: each non-empty label stands in row 0 at its position,
/// each non-empty value of the `k`-th data row (from 0) in row `k + 1` at its
/// position, whatever the number of labels and of values; and no other cell
/// holds text.
pub proof fn lemma_sheet_layout(header: Seq<char>, msgs: Seq<ResultMessage>)
    ensures
        forall|c: int|
            0 <= c < header_fields(header).len() && (#[trigger] header_fields(header)[c]).len() > 0
                ==> rows_cells(0, sheet_rows(header, msgs)).contains_key((0, c)) && rows_cells(
                0,
                sheet_rows(header, msgs),
            )[(0, c)] == header_fields(header)[c],
        forall|k: int, c: int|
            0 <= k < data_rows_of(msgs).len() && 0 <= c < data_rows_of(msgs)[k].len() && (
            #[trigger] data_rows_of(msgs)[k][c]).len() > 0 ==> rows_cells(
                0,
                sheet_rows(header, msgs),
            ).contains_key((k + 1, c)) && rows_cells(0, sheet_rows(header, msgs))[(k + 1, c)]
                == data_rows_of(msgs)[k][c],
        forall|p: (int, int)|
            #[trigger] rows_cells(0, sheet_rows(header, msgs)).contains_key(p) ==> (p.0 == 0 && 0
                <= p.1 < header_fields(header).len()) || (1 <= p.0 <= data_rows_of(msgs).len() && 0
                <= p.1 < data_rows_of(msgs)[p.0 - 1].len()),
{
    let g = sheet_rows(header, msgs);
    let d = data_rows_of(msgs);
    assert(g[0] == header_fields(header));
    assert forall|k: int| 0 <= k < d.len() implies #[trigger] g[k + 1] == d[k] by {}
}

/// When every message is a data row, every row is kept, in order: the
/// `i`-th data row holds the texts of the `i`-th message's values.
pub proof fn lemma_rows_kept(msgs: Seq<ResultMessage>)
    requires
        forall|i: int| 0 <= i < msgs.len() ==> (#[trigger] msgs[i]) is Row,
    ensures
        data_rows_of(msgs).len() == msgs.len(),
        forall|i: int|
            0 <= i < msgs.len() ==> #[trigger] data_rows_of(msgs)[i] == row_texts(msgs[i]->Row_0@),
    decreases msgs.len(),
{
    if msgs.len() > 0 {
        let before = msgs.drop_last();
        assert forall|i: int| 0 <= i < before.len() implies (#[trigger] before[i]) is Row by {
            assert(before[i] == msgs[i]);
        }
        lemma_rows_kept(before);
        assert(msgs[msgs.len() - 1] is Row);
    }
}

} // verus!
