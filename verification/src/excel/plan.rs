use vstd::prelude::*;
use vstd::string::{StrSliceExecFns, StringExecFns};

use crate::compare::tally::{concat_upto, lemma_concat_contains};
use crate::models::compare_result::{CompareResult, CompareResultSpec};
use crate::models::difference::{
    Difference, DifferenceSpec, DuplicateKeyInfo, DuplicateKeyInfoSpec, KeyValue, KeyValueSpec,
};
use crate::text::contains_string;
use crate::text::{char_text, decimal_string, join_strings, owned, spec_decimal, spec_join};

verus! {

/// How a cell is drawn.
#[derive(Debug, Clone, Copy, PartialEq, Eq, Structural)]
pub enum CellStyle {
    /// Bold, larger: the title of the summary.
    Title,
    /// Bold: the name of a summary item.
    Item,
    /// Bold on a light blue ground, centred, framed: a column heading.
    Header,
    /// Framed: an ordinary value.
    Text,
}

/// One text cell of a sheet.
pub struct Cell {
    pub row: u64,
    pub col: u64,
    pub text: String,
    pub style: CellStyle,
}

/// Mathematical form of a [`Cell`]: row, column, text, style.
pub type CellSpec = (u64, u64, Seq<char>, CellStyle);

impl DeepView for Cell {
    type V = CellSpec;

    open spec fn deep_view(&self) -> CellSpec {
        (self.row, self.col, self.text@, self.style)
    }
}

/// What one worksheet holds: its name, its cells, the widths of its columns,
/// whether its first row stays in view, and the last row and column of the
/// filter that starts at its top-left cell, if it has one.
pub struct SheetPlan {
    pub name: String,
    pub cells: Vec<Cell>,
    pub widths: Vec<(u64, u64)>,
    pub freeze_header: bool,
    pub filter: Option<(u64, u64)>,
}

/// Mathematical form of a [`SheetPlan`].
pub struct SheetSpec {
    pub name: Seq<char>,
    pub cells: Seq<CellSpec>,
    pub widths: Seq<(u64, u64)>,
    pub freeze_header: bool,
    pub filter: Option<(u64, u64)>,
}

impl DeepView for SheetPlan {
    type V = SheetSpec;

    open spec fn deep_view(&self) -> SheetSpec {
        SheetSpec {
            name: self.name@,
            cells: self.cells.deep_view(),
            widths: self.widths@,
            freeze_header: self.freeze_header,
            filter: self.filter,
        }
    }
}

/// `digits` with a comma before every group of three digits counted from the
/// right, looking at its first `n` digits.
pub open spec fn spec_grouped_upto(digits: Seq<char>, n: int) -> Seq<char>
    decreases n,
{
    if n <= 0 {
        Seq::empty()
    } else {
        let sep: Seq<char> = if n - 1 > 0 && (digits.len() - (n - 1)) % 3 == 0 {
            seq![',']
        } else {
            Seq::empty()
        };
        spec_grouped_upto(digits, n - 1) + sep + seq![digits[n - 1]]
    }
}

/// A number in decimal with a comma between groups of three digits.
pub open spec fn spec_format_number(n: u64) -> Seq<char> {
    spec_grouped_upto(spec_decimal(n), spec_decimal(n).len() as int)
}

pub fn format_number(n: u64) -> (s: String)
    ensures
        s@ == spec_format_number(n),
{
    let digits = decimal_string(n);
    let ds = digits.as_str();
    let len = ds.unicode_len();
    let mut out = String::new();
    let mut i: usize = 0;
    while i < len
        invariant
            len == ds@.len(),
            ds@ == spec_decimal(n),
            i <= len,
            out@ == spec_grouped_upto(ds@, i as int),
        decreases len - i,
    {
        let ghost before = out@;
        proof {
            reveal_strlit(",");
        }
        if i > 0 && (len - i) % 3 == 0 {
            out.append(",");
        }
        let c = ds.get_char(i);
        out.append(char_text(c).as_str());
        proof {
            let sep: Seq<char> = if i > 0 && (ds@.len() - i) % 3 == 0 {
                seq![',']
            } else {
                Seq::empty()
            };
            assert(out@ =~= before + sep + seq![c]);
        }
        i = i + 1;
    }
    out
}

/// A label and value cell pair for each of `rows`, from row `first` on.
pub open spec fn spec_item_cells(rows: Seq<(Seq<char>, Seq<char>)>, first: u64) -> Seq<CellSpec>
    decreases rows.len(),
{
    if rows.len() == 0 {
        Seq::empty()
    } else {
        let r = (first + rows.len() - 1) as u64;
        spec_item_cells(rows.drop_last(), first) + seq![
            (r, 0u64, rows.last().0, CellStyle::Item),
            (r, 1u64, rows.last().1, CellStyle::Text),
        ]
    }
}

/// The items of the summary sheet, in order.
pub open spec fn spec_summary_rows(r: CompareResultSpec) -> Seq<(Seq<char>, Seq<char>)> {
    seq![
        ("File A"@, r.file_a_name),
        ("File A Encoding"@, r.file_a_encoding),
        ("File A Delimiter"@, r.file_a_delimiter),
        ("File B"@, r.file_b_name),
        ("File B Encoding"@, r.file_b_encoding),
        ("File B Delimiter"@, r.file_b_delimiter),
        ("Compare Mode"@, r.compare_mode),
        ("Key Columns"@, if r.key_columns.len() == 0 { "—"@ } else { spec_join(r.key_columns, " / "@) }),
        ("Rows A"@, spec_decimal(r.rows_a)),
        ("Rows B"@, spec_decimal(r.rows_b)),
        ("Matched Records"@, spec_decimal(r.matched_records)),
        ("Same Records"@, spec_decimal(r.same_records)),
        ("Different Records"@, spec_decimal(r.different_records)),
        ("A Only"@, spec_decimal(r.a_only_records)),
        ("B Only"@, spec_decimal(r.b_only_records)),
        ("Different Cells"@, spec_decimal(r.different_cells)),
        ("Duplicate Keys A"@, spec_decimal(r.duplicate_keys_a)),
        ("Duplicate Keys B"@, spec_decimal(r.duplicate_keys_b)),
        ("Empty Keys A"@, spec_decimal(r.empty_keys_a)),
        ("Empty Keys B"@, spec_decimal(r.empty_keys_b)),
        ("Incomplete Keys A"@, spec_decimal(r.incomplete_keys_a)),
        ("Incomplete Keys B"@, spec_decimal(r.incomplete_keys_b)),
        ("Result"@, if r.identical { "IDENTICAL"@ } else { "DIFFERENT"@ }),
        ("Compare Time"@, r.compare_time),
    ]
}

/// The summary sheet: a title, then one row per item from the third row on.
pub open spec fn spec_summary_sheet(r: CompareResultSpec) -> SheetSpec {
    SheetSpec {
        name: "Summary"@,
        cells: seq![(0u64, 0u64, "CSV Compare 結果摘要"@, CellStyle::Title)] + spec_item_cells(spec_summary_rows(r), 2),
        widths: seq![(0u64, 24u64), (1u64, 80u64)],
        freeze_header: false,
        filter: None,
    }
}

fn push_cell(cells: &mut Vec<Cell>, row: u64, col: u64, text: String, style: CellStyle)
    ensures
        final(cells).deep_view() == old(cells).deep_view().push((row, col, text@, style)),
{
    let ghost before = cells.deep_view();
    let cell = Cell { row, col, text, style };
    cells.push(cell);
    proof {
        assert(cells.deep_view() =~= before.push((row, col, text@, style)));
    }
}

fn summary_rows(result: &CompareResult) -> (rows: Vec<(String, String)>)
    ensures
        rows.deep_view() == spec_summary_rows(result.deep_view()),
{
    let mut rows: Vec<(String, String)> = Vec::new();
    rows.push((owned("File A"), result.file_a_name.clone()));
    rows.push((owned("File A Encoding"), result.file_a_encoding.clone()));
    rows.push((owned("File A Delimiter"), result.file_a_delimiter.clone()));
    rows.push((owned("File B"), result.file_b_name.clone()));
    rows.push((owned("File B Encoding"), result.file_b_encoding.clone()));
    rows.push((owned("File B Delimiter"), result.file_b_delimiter.clone()));
    rows.push((owned("Compare Mode"), result.compare_mode.clone()));
    let keys = if result.key_columns.len() == 0 {
        owned("—")
    } else {
        join_strings(&result.key_columns, " / ")
    };
    rows.push((owned("Key Columns"), keys));
    rows.push((owned("Rows A"), decimal_string(result.rows_a)));
    rows.push((owned("Rows B"), decimal_string(result.rows_b)));
    rows.push((owned("Matched Records"), decimal_string(result.matched_records)));
    rows.push((owned("Same Records"), decimal_string(result.same_records)));
    rows.push((owned("Different Records"), decimal_string(result.different_records)));
    rows.push((owned("A Only"), decimal_string(result.a_only_records)));
    rows.push((owned("B Only"), decimal_string(result.b_only_records)));
    rows.push((owned("Different Cells"), decimal_string(result.different_cells)));
    rows.push((owned("Duplicate Keys A"), decimal_string(result.duplicate_keys_a)));
    rows.push((owned("Duplicate Keys B"), decimal_string(result.duplicate_keys_b)));
    rows.push((owned("Empty Keys A"), decimal_string(result.empty_keys_a)));
    rows.push((owned("Empty Keys B"), decimal_string(result.empty_keys_b)));
    rows.push((owned("Incomplete Keys A"), decimal_string(result.incomplete_keys_a)));
    rows.push((owned("Incomplete Keys B"), decimal_string(result.incomplete_keys_b)));
    let verdict = if result.identical {
        owned("IDENTICAL")
    } else {
        owned("DIFFERENT")
    };
    rows.push((owned("Result"), verdict));
    rows.push((owned("Compare Time"), result.compare_time.clone()));
    proof {
        assert(rows.deep_view() =~= spec_summary_rows(result.deep_view()));
    }
    rows
}

/// The summary sheet of a comparison result.
pub fn summary_sheet(result: &CompareResult) -> (sheet: SheetPlan)
    ensures
        sheet.deep_view() == spec_summary_sheet(result.deep_view()),
{
    let rows = summary_rows(result);
    let ghost rs = rows.deep_view();
    let mut cells: Vec<Cell> = Vec::new();
    push_cell(&mut cells, 0, 0, owned("CSV Compare 結果摘要"), CellStyle::Title);
    let ghost start = cells.deep_view();
    proof {
        assert(start =~= seq![(0u64, 0u64, "CSV Compare 結果摘要"@, CellStyle::Title)]);
        assert(rs.take(0) =~= Seq::<(Seq<char>, Seq<char>)>::empty());
        assert(start + spec_item_cells(rs.take(0), 2) =~= start);
    }
    let mut i: usize = 0;
    while i < rows.len()
        invariant
            rs == rows.deep_view(),
            rs.len() == 24,
            i <= rows.len(),
            cells.deep_view() == start + spec_item_cells(rs.take(i as int), 2),
        decreases rows.len() - i,
    {
        proof {
            assert(rs.take(i + 1).drop_last() =~= rs.take(i as int));
            assert(rows@[i as int].deep_view() == rs[i as int]);
        }
        let r: u64 = 2 + i as u64;
        push_cell(&mut cells, r, 0, rows[i].0.clone(), CellStyle::Item);
        push_cell(&mut cells, r, 1, rows[i].1.clone(), CellStyle::Text);
        i = i + 1;
        proof {
            assert(cells.deep_view() =~= start + spec_item_cells(rs.take(i as int), 2));
        }
    }
    proof {
        assert(rs.take(rows.len() as int) =~= rs);
    }
    let mut widths: Vec<(u64, u64)> = Vec::new();
    widths.push((0, 24));
    widths.push((1, 80));
    proof {
        assert(widths@ =~= seq![(0u64, 24u64), (1u64, 80u64)]);
    }
    SheetPlan { name: owned("Summary"), cells, widths, freeze_header: false, filter: None }
}

/// The value of key column `column` among `key_values`; the last entry for the
/// column wins, and a column without an entry reads as empty.
pub open spec fn spec_key_lookup(key_values: Seq<KeyValueSpec>, column: Seq<char>) -> Seq<char>
    decreases key_values.len(),
{
    if key_values.len() == 0 {
        Seq::empty()
    } else if key_values.last().column == column {
        key_values.last().value
    } else {
        spec_key_lookup(key_values.drop_last(), column)
    }
}

/// A row number in decimal, or nothing.
pub open spec fn spec_opt_number(n: Option<u64>) -> Seq<char> {
    match n {
        Some(v) => spec_decimal(v),
        None => Seq::empty(),
    }
}

/// A text, or nothing.
pub open spec fn spec_opt_text(t: Option<Seq<char>>) -> Seq<char> {
    match t {
        Some(v) => v,
        None => Seq::empty(),
    }
}

/// Heading cells for `headers` across the first row.
pub open spec fn spec_header_cells(headers: Seq<Seq<char>>, first_col: u64) -> Seq<CellSpec> {
    Seq::new(headers.len(), |i: int| (0u64, (first_col + i) as u64, headers[i], CellStyle::Header))
}

/// The headings of the differences sheet.
pub open spec fn spec_difference_headers(key_columns: Seq<Seq<char>>) -> Seq<Seq<char>> {
    key_columns + seq!["Row A"@, "Row B"@, "Column"@, "File A Value"@, "File B Value"@, "Type"@]
}

/// The cells of one difference on row `row`: its value of each key column, then
/// the rows, the column, the two values and the type.
pub open spec fn spec_difference_row(key_columns: Seq<Seq<char>>, d: DifferenceSpec, row: u64) -> Seq<CellSpec> {
    let kc = key_columns.len();
    Seq::new(kc, |c: int| (row, c as u64, spec_key_lookup(d.key_values, key_columns[c]), CellStyle::Text)) + seq![
        (row, kc as u64, spec_opt_number(d.row_a), CellStyle::Text),
        (row, (kc + 1) as u64, spec_opt_number(d.row_b), CellStyle::Text),
        (row, (kc + 2) as u64, spec_opt_text(d.column_name), CellStyle::Text),
        (row, (kc + 3) as u64, spec_opt_text(d.value_a), CellStyle::Text),
        (row, (kc + 4) as u64, spec_opt_text(d.value_b), CellStyle::Text),
        (row, (kc + 5) as u64, d.difference_type.spec_label(), CellStyle::Text),
    ]
}

pub open spec fn spec_difference_row_fn(key_columns: Seq<Seq<char>>, diffs: Seq<DifferenceSpec>) -> spec_fn(int) -> Seq<CellSpec> {
    |t: int| spec_difference_row(key_columns, diffs[t], (t + 1) as u64)
}

/// The width of a column of the differences sheet: wide for the two values.
pub open spec fn spec_difference_width(header: Seq<char>) -> u64 {
    if header == "File A Value"@ || header == "File B Value"@ {
        40
    } else {
        16
    }
}

/// The differences sheet: a heading row, then one row per difference (or a
/// note that there is none), the heading frozen and filtered.
pub open spec fn spec_differences_sheet(r: CompareResultSpec) -> SheetSpec {
    let headers = spec_difference_headers(r.key_columns);
    let n = r.differences.len();
    SheetSpec {
        name: "Differences"@,
        cells: spec_header_cells(headers, 0) + if n == 0 {
            seq![(1u64, 0u64, "No differences found."@, CellStyle::Text)]
        } else {
            concat_upto(spec_difference_row_fn(r.key_columns, r.differences), n as int)
        },
        widths: Seq::new(headers.len(), |i: int| (i as u64, spec_difference_width(headers[i]))),
        freeze_header: true,
        filter: Some((if n == 0 { 1u64 } else { n as u64 }, (r.key_columns.len() + 5) as u64)),
    }
}

fn key_lookup(key_values: &Vec<KeyValue>, column: &str) -> (s: String)
    ensures
        s@ == spec_key_lookup(key_values.deep_view(), column@),
{
    let ghost kvs = key_values.deep_view();
    let target = owned(column);
    let mut i: usize = key_values.len();
    proof {
        assert(kvs.take(key_values.len() as int) =~= kvs);
    }
    while i > 0
        invariant
            kvs == key_values.deep_view(),
            target@ == column@,
            i <= key_values.len(),
            spec_key_lookup(kvs, column@) == spec_key_lookup(kvs.take(i as int), column@),
        decreases i,
    {
        let ghost pre = kvs.take(i as int);
        proof {
            assert(pre.drop_last() =~= kvs.take(i - 1));
            assert(pre.last() == key_values@[i - 1].deep_view());
        }
        if key_values[i - 1].column == target {
            return key_values[i - 1].value.clone();
        }
        i = i - 1;
    }
    proof {
        reveal_strlit("");
        assert(kvs.take(0).len() == 0);
    }
    owned("")
}

fn push_header_cells(cells: &mut Vec<Cell>, headers: &Vec<String>, first_col: u64)
    requires
        first_col + headers.len() <= u64::MAX,
    ensures
        final(cells).deep_view() == old(cells).deep_view() + spec_header_cells(headers.deep_view(), first_col),
{
    let ghost start = cells.deep_view();
    let ghost hs = headers.deep_view();
    let mut i: usize = 0;
    while i < headers.len()
        invariant
            hs == headers.deep_view(),
            first_col + headers.len() <= u64::MAX,
            i <= headers.len(),
            cells.deep_view() == start + spec_header_cells(hs, first_col).take(i as int),
        decreases headers.len() - i,
    {
        let col: u64 = first_col + i as u64;
        push_cell(cells, 0, col, headers[i].clone(), CellStyle::Header);
        i = i + 1;
        proof {
            assert(cells.deep_view() =~= start + spec_header_cells(hs, first_col).take(i as int));
        }
    }
    proof {
        assert(spec_header_cells(hs, first_col).take(headers.len() as int) =~= spec_header_cells(hs, first_col));
    }
}

fn opt_number(n: Option<u64>) -> (s: String)
    ensures
        s@ == spec_opt_number(n),
{
    proof {
        reveal_strlit("");
    }
    match n {
        Some(v) => decimal_string(v),
        None => owned(""),
    }
}

fn opt_text(t: &Option<String>) -> (s: String)
    ensures
        s@ == spec_opt_text(t.deep_view()),
{
    proof {
        reveal_strlit("");
    }
    match t {
        Some(v) => v.clone(),
        None => owned(""),
    }
}

fn push_difference_row(cells: &mut Vec<Cell>, key_columns: &Vec<String>, d: &Difference, row: u64)
    requires
        key_columns.len() + 8 <= u64::MAX,
    ensures
        final(cells).deep_view() == old(cells).deep_view() + spec_difference_row(key_columns.deep_view(), d.deep_view(), row),
{
    let ghost start = cells.deep_view();
    let ghost kcs = key_columns.deep_view();
    let ghost target = spec_difference_row(kcs, d.deep_view(), row);
    let mut c: usize = 0;
    while c < key_columns.len()
        invariant
            kcs == key_columns.deep_view(),
            key_columns.len() + 8 <= u64::MAX,
            target == spec_difference_row(kcs, d.deep_view(), row),
            c <= key_columns.len(),
            cells.deep_view() == start + target.take(c as int),
        decreases key_columns.len() - c,
    {
        let v = key_lookup(&d.key_values, key_columns[c].as_str());
        push_cell(cells, row, c as u64, v, CellStyle::Text);
        c = c + 1;
        proof {
            assert(cells.deep_view() =~= start + target.take(c as int));
        }
    }
    let kc: u64 = key_columns.len() as u64;
    push_cell(cells, row, kc, opt_number(d.row_a), CellStyle::Text);
    push_cell(cells, row, kc + 1, opt_number(d.row_b), CellStyle::Text);
    push_cell(cells, row, kc + 2, opt_text(&d.column_name), CellStyle::Text);
    push_cell(cells, row, kc + 3, opt_text(&d.value_a), CellStyle::Text);
    push_cell(cells, row, kc + 4, opt_text(&d.value_b), CellStyle::Text);
    push_cell(cells, row, kc + 5, owned(d.difference_type.label()), CellStyle::Text);
    proof {
        assert(cells.deep_view() =~= start + target);
    }
}

fn difference_headers(key_columns: &Vec<String>) -> (h: Vec<String>)
    ensures
        h.deep_view() == spec_difference_headers(key_columns.deep_view()),
{
    let mut h = key_columns.clone();
    let ghost before = h.deep_view();
    h.push(owned("Row A"));
    h.push(owned("Row B"));
    h.push(owned("Column"));
    h.push(owned("File A Value"));
    h.push(owned("File B Value"));
    h.push(owned("Type"));
    proof {
        assert(h.deep_view() =~= spec_difference_headers(key_columns.deep_view()));
    }
    h
}

fn column_widths(headers: &Vec<String>, wide: &str, wide_width: u64, other: &str, narrow_width: u64) -> (w: Vec<(u64, u64)>)
    ensures
        w@ == Seq::new(
            headers.len() as nat,
            |i: int| (i as u64, if headers.deep_view()[i] == wide@ || headers.deep_view()[i] == other@ {
                wide_width
            } else {
                narrow_width
            }),
        ),
{
    let ghost hs = headers.deep_view();
    let ghost target = Seq::new(
        headers.len() as nat,
        |i: int| (i as u64, if hs[i] == wide@ || hs[i] == other@ {
            wide_width
        } else {
            narrow_width
        }),
    );
    let wide_text = owned(wide);
    let other_text = owned(other);
    let mut w: Vec<(u64, u64)> = Vec::new();
    let mut i: usize = 0;
    while i < headers.len()
        invariant
            hs == headers.deep_view(),
            wide_text@ == wide@,
            other_text@ == other@,
            target == Seq::new(
                headers.len() as nat,
                |i: int| (i as u64, if hs[i] == wide@ || hs[i] == other@ {
                    wide_width
                } else {
                    narrow_width
                }),
            ),
            i <= headers.len(),
            w@ == target.take(i as int),
        decreases headers.len() - i,
    {
        proof {
            assert(headers@[i as int]@ == hs[i as int]);
        }
        let width = if headers[i] == wide_text || headers[i] == other_text {
            wide_width
        } else {
            narrow_width
        };
        w.push((i as u64, width));
        i = i + 1;
        proof {
            assert(w@ =~= target.take(i as int));
        }
    }
    proof {
        assert(target.take(headers.len() as int) =~= target);
    }
    w
}

/// The differences sheet of a comparison result.
pub fn differences_sheet(result: &CompareResult) -> (sheet: SheetPlan)
    requires
        result.key_columns.len() + 8 <= u64::MAX,
    ensures
        sheet.deep_view() == spec_differences_sheet(result.deep_view()),
{
    let ghost r = result.deep_view();
    let headers = difference_headers(&result.key_columns);
    let mut cells: Vec<Cell> = Vec::new();
    proof {
        assert(cells.deep_view() =~= Seq::<CellSpec>::empty());
    }
    push_header_cells(&mut cells, &headers, 0);
    let ghost start = cells.deep_view();
    proof {
        assert(start =~= spec_header_cells(spec_difference_headers(r.key_columns), 0));
    }
    let n = result.differences.len();
    if n == 0 {
        push_cell(&mut cells, 1, 0, owned("No differences found."), CellStyle::Text);
    } else {
        let mut t: usize = 0;
        while t < n
            invariant
                r == result.deep_view(),
                n == result.differences.len(),
                result.key_columns.len() + 8 <= u64::MAX,
                t <= n,
                cells.deep_view() == start + concat_upto(spec_difference_row_fn(r.key_columns, r.differences), t as int),
            decreases n - t,
        {
            proof {
                assert(result.differences@[t as int].deep_view() == r.differences[t as int]);
            }
            let row: u64 = t as u64 + 1;
            push_difference_row(&mut cells, &result.key_columns, &result.differences[t], row);
            t = t + 1;
            proof {
                assert(cells.deep_view() =~= start + concat_upto(spec_difference_row_fn(r.key_columns, r.differences), t as int));
            }
        }
    }
    proof {
        assert(cells.deep_view() =~= spec_differences_sheet(r).cells);
    }
    let widths = column_widths(&headers, "File A Value", 40, "File B Value", 16);
    let last_row: u64 = if n == 0 {
        1
    } else {
        n as u64
    };
    let last_col: u64 = result.key_columns.len() as u64 + 5;
    proof {
        reveal_strlit("File A Value");
        reveal_strlit("File B Value");
        assert(widths@ =~= spec_differences_sheet(r).widths);
    }
    SheetPlan { name: owned("Differences"), cells, widths, freeze_header: true, filter: Some((last_row, last_col)) }
}

/// The status of a column in the column sheet.
pub open spec fn spec_column_status(r: CompareResultSpec, column: Seq<char>) -> Seq<char> {
    if r.excluded_columns.contains(column) {
        "EXCLUDED"@
    } else if r.column_a_only.contains(column) {
        "A_ONLY"@
    } else if r.column_b_only.contains(column) {
        "B_ONLY"@
    } else {
        "SAME"@
    }
}

/// Each of `names` with the given presence marks.
pub open spec fn spec_marked(names: Seq<Seq<char>>, in_a: Seq<char>, in_b: Seq<char>) -> Seq<(Seq<char>, Seq<char>, Seq<char>)> {
    Seq::new(names.len(), |i: int| (names[i], in_a, in_b))
}

/// The rows of the column sheet: compared columns, then those only in A, those
/// only in B and the excluded ones, each with whether A and B have it.
pub open spec fn spec_column_rows(r: CompareResultSpec) -> Seq<(Seq<char>, Seq<char>, Seq<char>)> {
    spec_marked(r.compared_columns, "Yes"@, "Yes"@) + spec_marked(r.column_a_only, "Yes"@, "No"@)
        + spec_marked(r.column_b_only, "No"@, "Yes"@) + spec_marked(r.excluded_columns, "-"@, "-"@)
}

pub open spec fn spec_column_row_fn(r: CompareResultSpec) -> spec_fn(int) -> Seq<CellSpec> {
    |t: int| {
        let (c, a, b) = spec_column_rows(r)[t];
        let row = (t + 1) as u64;
        seq![
            (row, 0u64, c, CellStyle::Text),
            (row, 1u64, a, CellStyle::Text),
            (row, 2u64, b, CellStyle::Text),
            (row, 3u64, spec_column_status(r, c), CellStyle::Text),
        ]
    }
}

/// The column sheet: a heading row, then one row per column.
pub open spec fn spec_column_differences_sheet(r: CompareResultSpec) -> SheetSpec {
    let rows = spec_column_rows(r);
    SheetSpec {
        name: "Column_Differences"@,
        cells: spec_header_cells(seq!["Column"@, "File A"@, "File B"@, "Status"@], 0) + concat_upto(
            spec_column_row_fn(r),
            rows.len() as int,
        ),
        widths: seq![(0u64, 20u64), (1u64, 20u64), (2u64, 20u64), (3u64, 20u64)],
        freeze_header: true,
        filter: Some((rows.len() as u64, 3u64)),
    }
}

fn push_marked(rows: &mut Vec<(String, String, String)>, names: &Vec<String>, in_a: &str, in_b: &str)
    ensures
        final(rows).deep_view() == old(rows).deep_view() + spec_marked(names.deep_view(), in_a@, in_b@),
{
    let ghost start = rows.deep_view();
    let ghost target = spec_marked(names.deep_view(), in_a@, in_b@);
    let mut i: usize = 0;
    while i < names.len()
        invariant
            target == spec_marked(names.deep_view(), in_a@, in_b@),
            i <= names.len(),
            rows.deep_view() == start + target.take(i as int),
        decreases names.len() - i,
    {
        let ghost before = rows.deep_view();
        let entry = (names[i].clone(), owned(in_a), owned(in_b));
        rows.push(entry);
        i = i + 1;
        proof {
            assert(rows.deep_view() =~= before.push(entry.deep_view()));
            assert(rows.deep_view() =~= start + target.take(i as int));
        }
    }
    proof {
        assert(target.take(names.len() as int) =~= target);
    }
}

fn column_status(result: &CompareResult, column: &String) -> (s: String)
    ensures
        s@ == spec_column_status(result.deep_view(), column@),
{
    if contains_string(&result.excluded_columns, column.as_str()) {
        owned("EXCLUDED")
    } else if contains_string(&result.column_a_only, column.as_str()) {
        owned("A_ONLY")
    } else if contains_string(&result.column_b_only, column.as_str()) {
        owned("B_ONLY")
    } else {
        owned("SAME")
    }
}

fn fixed_headers(a: &str, b: &str, c: &str, d: &str) -> (h: Vec<String>)
    ensures
        h.deep_view() == seq![a@, b@, c@, d@],
{
    let mut h: Vec<String> = Vec::new();
    h.push(owned(a));
    h.push(owned(b));
    h.push(owned(c));
    h.push(owned(d));
    proof {
        assert(h.deep_view() =~= seq![a@, b@, c@, d@]);
    }
    h
}

/// The sheet that lists every column with where it occurs.
pub fn column_differences_sheet(result: &CompareResult) -> (sheet: SheetPlan)
    ensures
        sheet.deep_view() == spec_column_differences_sheet(result.deep_view()),
{
    let ghost r = result.deep_view();
    let mut rows: Vec<(String, String, String)> = Vec::new();
    proof {
        assert(rows.deep_view() =~= Seq::<(Seq<char>, Seq<char>, Seq<char>)>::empty());
    }
    push_marked(&mut rows, &result.compared_columns, "Yes", "Yes");
    push_marked(&mut rows, &result.column_a_only, "Yes", "No");
    push_marked(&mut rows, &result.column_b_only, "No", "Yes");
    push_marked(&mut rows, &result.excluded_columns, "-", "-");
    proof {
        assert(rows.deep_view() =~= spec_column_rows(r));
    }
    let ghost rs = rows.deep_view();
    let headers = fixed_headers("Column", "File A", "File B", "Status");
    let mut cells: Vec<Cell> = Vec::new();
    proof {
        assert(cells.deep_view() =~= Seq::<CellSpec>::empty());
    }
    push_header_cells(&mut cells, &headers, 0);
    let ghost start = cells.deep_view();
    proof {
        assert(start =~= spec_header_cells(seq!["Column"@, "File A"@, "File B"@, "Status"@], 0));
    }
    let mut t: usize = 0;
    while t < rows.len()
        invariant
            r == result.deep_view(),
            rs == rows.deep_view(),
            rs == spec_column_rows(r),
            t <= rows.len(),
            cells.deep_view() == start + concat_upto(spec_column_row_fn(r), t as int),
        decreases rows.len() - t,
    {
        proof {
            assert(rows@[t as int].deep_view() == rs[t as int]);
        }
        let row: u64 = t as u64 + 1;
        let status = column_status(result, &rows[t].0);
        push_cell(&mut cells, row, 0, rows[t].0.clone(), CellStyle::Text);
        push_cell(&mut cells, row, 1, rows[t].1.clone(), CellStyle::Text);
        push_cell(&mut cells, row, 2, rows[t].2.clone(), CellStyle::Text);
        push_cell(&mut cells, row, 3, status, CellStyle::Text);
        t = t + 1;
        proof {
            assert(cells.deep_view() =~= start + concat_upto(spec_column_row_fn(r), t as int));
        }
    }
    let mut widths: Vec<(u64, u64)> = Vec::new();
    widths.push((0, 20));
    widths.push((1, 20));
    widths.push((2, 20));
    widths.push((3, 20));
    proof {
        assert(widths@ =~= seq![(0u64, 20u64), (1u64, 20u64), (2u64, 20u64), (3u64, 20u64)]);
    }
    let last_row: u64 = rows.len() as u64;
    SheetPlan { name: owned("Column_Differences"), cells, widths, freeze_header: true, filter: Some((last_row, 3)) }
}

/// The sheet that lists the excluded columns, or says that there is none.
pub open spec fn spec_excluded_columns_sheet(r: CompareResultSpec) -> SheetSpec {
    let ex = r.excluded_columns;
    SheetSpec {
        name: "Excluded_Columns"@,
        cells: seq![(0u64, 0u64, "Column"@, CellStyle::Header)] + if ex.len() == 0 {
            seq![(1u64, 0u64, "No excluded columns."@, CellStyle::Text)]
        } else {
            Seq::new(ex.len(), |i: int| ((i + 1) as u64, 0u64, ex[i], CellStyle::Text))
        },
        widths: seq![(0u64, 24u64)],
        freeze_header: false,
        filter: None,
    }
}

pub fn excluded_columns_sheet(result: &CompareResult) -> (sheet: SheetPlan)
    ensures
        sheet.deep_view() == spec_excluded_columns_sheet(result.deep_view()),
{
    let ghost r = result.deep_view();
    let ghost ex = r.excluded_columns;
    let mut cells: Vec<Cell> = Vec::new();
    push_cell(&mut cells, 0, 0, owned("Column"), CellStyle::Header);
    let ghost start = cells.deep_view();
    proof {
        assert(start =~= seq![(0u64, 0u64, "Column"@, CellStyle::Header)]);
    }
    if result.excluded_columns.len() == 0 {
        push_cell(&mut cells, 1, 0, owned("No excluded columns."), CellStyle::Text);
    } else {
        let ghost target = Seq::new(ex.len(), |i: int| ((i + 1) as u64, 0u64, ex[i], CellStyle::Text));
        let mut i: usize = 0;
        while i < result.excluded_columns.len()
            invariant
                r == result.deep_view(),
                ex == r.excluded_columns,
                target == Seq::new(ex.len(), |i: int| ((i + 1) as u64, 0u64, ex[i], CellStyle::Text)),
                i <= result.excluded_columns.len(),
                cells.deep_view() == start + target.take(i as int),
            decreases result.excluded_columns.len() - i,
        {
            let row: u64 = i as u64 + 1;
            push_cell(&mut cells, row, 0, result.excluded_columns[i].clone(), CellStyle::Text);
            i = i + 1;
            proof {
                assert(cells.deep_view() =~= start + target.take(i as int));
            }
        }
        proof {
            assert(target.take(ex.len() as int) =~= target);
        }
    }
    let mut widths: Vec<(u64, u64)> = Vec::new();
    widths.push((0, 24));
    proof {
        assert(widths@ =~= seq![(0u64, 24u64)]);
        assert(cells.deep_view() =~= spec_excluded_columns_sheet(r).cells);
    }
    SheetPlan { name: owned("Excluded_Columns"), cells, widths, freeze_header: false, filter: None }
}

/// The headings of the duplicate-key sheet.
pub open spec fn spec_duplicate_headers(key_columns: Seq<Seq<char>>) -> Seq<Seq<char>> {
    seq!["Source"@] + key_columns + seq!["Count"@, "Rows"@]
}

/// The row numbers of a duplicate key, in decimal, separated by commas.
pub open spec fn spec_rows_text(rows: Seq<u64>) -> Seq<char> {
    spec_join(Seq::new(rows.len(), |i: int| spec_decimal(rows[i])), ", "@)
}

/// The cells of one duplicate-key report on row `row`.
pub open spec fn spec_duplicate_row(key_columns: Seq<Seq<char>>, d: DuplicateKeyInfoSpec, row: u64) -> Seq<CellSpec> {
    let kc = key_columns.len();
    seq![(row, 0u64, d.source, CellStyle::Text)] + Seq::new(
        kc,
        |c: int| (row, (c + 1) as u64, spec_key_lookup(d.key_values, key_columns[c]), CellStyle::Text),
    ) + seq![
        (row, (kc + 1) as u64, spec_format_number(d.count), CellStyle::Text),
        (row, (kc + 2) as u64, spec_rows_text(d.rows), CellStyle::Text),
    ]
}

pub open spec fn spec_duplicate_row_fn(key_columns: Seq<Seq<char>>, details: Seq<DuplicateKeyInfoSpec>) -> spec_fn(int) -> Seq<CellSpec> {
    |t: int| spec_duplicate_row(key_columns, details[t], (t + 1) as u64)
}

/// The width of a column of the duplicate-key sheet: wide for the rows.
pub open spec fn spec_duplicate_width(header: Seq<char>) -> u64 {
    if header == "Rows"@ {
        60
    } else {
        20
    }
}

/// The duplicate-key sheet: the reports of file A then those of file B, one row
/// each under a heading row, or a note that there is none.
pub open spec fn spec_duplicate_keys_sheet(r: CompareResultSpec) -> SheetSpec {
    let details = r.duplicate_details_a + r.duplicate_details_b;
    let headers = spec_duplicate_headers(r.key_columns);
    if details.len() == 0 {
        SheetSpec {
            name: "Duplicate_Keys"@,
            cells: seq![(0u64, 0u64, "No duplicate keys found."@, CellStyle::Text)],
            widths: seq![(0u64, 30u64)],
            freeze_header: false,
            filter: None,
        }
    } else {
        SheetSpec {
            name: "Duplicate_Keys"@,
            cells: spec_header_cells(headers, 0) + concat_upto(
                spec_duplicate_row_fn(r.key_columns, details),
                details.len() as int,
            ),
            widths: Seq::new(headers.len(), |i: int| (i as u64, spec_duplicate_width(headers[i]))),
            freeze_header: true,
            filter: None,
        }
    }
}

fn rows_text(rows: &Vec<u64>) -> (s: String)
    ensures
        s@ == spec_rows_text(rows@),
{
    let ghost target = Seq::new(rows@.len(), |i: int| spec_decimal(rows@[i]));
    let mut parts: Vec<String> = Vec::new();
    let mut i: usize = 0;
    while i < rows.len()
        invariant
            target == Seq::new(rows@.len(), |i: int| spec_decimal(rows@[i])),
            i <= rows.len(),
            parts.deep_view() == target.take(i as int),
        decreases rows.len() - i,
    {
        let ghost before = parts.deep_view();
        let p = decimal_string(rows[i]);
        parts.push(p);
        i = i + 1;
        proof {
            assert(parts.deep_view() =~= before.push(p@));
            assert(parts.deep_view() =~= target.take(i as int));
        }
    }
    proof {
        assert(target.take(rows.len() as int) =~= target);
    }
    join_strings(&parts, ", ")
}

fn push_duplicate_row(cells: &mut Vec<Cell>, key_columns: &Vec<String>, d: &DuplicateKeyInfo, row: u64)
    requires
        key_columns.len() + 8 <= u64::MAX,
    ensures
        final(cells).deep_view() == old(cells).deep_view() + spec_duplicate_row(key_columns.deep_view(), d.deep_view(), row),
{
    let ghost start = cells.deep_view();
    let ghost kcs = key_columns.deep_view();
    let ghost target = spec_duplicate_row(kcs, d.deep_view(), row);
    push_cell(cells, row, 0, d.source.clone(), CellStyle::Text);
    let mut c: usize = 0;
    while c < key_columns.len()
        invariant
            kcs == key_columns.deep_view(),
            key_columns.len() + 8 <= u64::MAX,
            target == spec_duplicate_row(kcs, d.deep_view(), row),
            c <= key_columns.len(),
            cells.deep_view() == start + target.take(c + 1),
        decreases key_columns.len() - c,
    {
        let v = key_lookup(&d.key_values, key_columns[c].as_str());
        push_cell(cells, row, c as u64 + 1, v, CellStyle::Text);
        c = c + 1;
        proof {
            assert(cells.deep_view() =~= start + target.take(c + 1));
        }
    }
    let kc: u64 = key_columns.len() as u64;
    push_cell(cells, row, kc + 1, format_number(d.count), CellStyle::Text);
    push_cell(cells, row, kc + 2, rows_text(&d.rows), CellStyle::Text);
    proof {
        assert(cells.deep_view() =~= start + target);
    }
}

fn duplicate_headers(key_columns: &Vec<String>) -> (h: Vec<String>)
    ensures
        h.deep_view() == spec_duplicate_headers(key_columns.deep_view()),
{
    let mut h: Vec<String> = Vec::new();
    h.push(owned("Source"));
    let mut i: usize = 0;
    while i < key_columns.len()
        invariant
            i <= key_columns.len(),
            h.deep_view() == seq!["Source"@] + key_columns.deep_view().take(i as int),
        decreases key_columns.len() - i,
    {
        let ghost before = h.deep_view();
        let col = key_columns[i].clone();
        h.push(col);
        proof {
            assert(h.deep_view() =~= before.push(col@));
            assert(key_columns.deep_view().take(i + 1) =~= key_columns.deep_view().take(i as int).push(col@));
        }
        i = i + 1;
        proof {
            assert(h.deep_view() =~= seq!["Source"@] + key_columns.deep_view().take(i as int));
        }
    }
    h.push(owned("Count"));
    h.push(owned("Rows"));
    proof {
        assert(key_columns.deep_view().take(key_columns.len() as int) =~= key_columns.deep_view());
        assert(h.deep_view() =~= spec_duplicate_headers(key_columns.deep_view()));
    }
    h
}

/// The duplicate-key sheet of a comparison result.
pub fn duplicate_keys_sheet(result: &CompareResult) -> (sheet: SheetPlan)
    requires
        result.key_columns.len() + 8 <= u64::MAX,
        result.duplicate_details_a.len() + result.duplicate_details_b.len() < usize::MAX,
    ensures
        sheet.deep_view() == spec_duplicate_keys_sheet(result.deep_view()),
{
    let ghost r = result.deep_view();
    let ghost details = r.duplicate_details_a + r.duplicate_details_b;
    let na = result.duplicate_details_a.len();
    let nb = result.duplicate_details_b.len();
    if na == 0 && nb == 0 {
        let mut cells: Vec<Cell> = Vec::new();
        push_cell(&mut cells, 0, 0, owned("No duplicate keys found."), CellStyle::Text);
        let mut widths: Vec<(u64, u64)> = Vec::new();
        widths.push((0, 30));
        proof {
            assert(cells.deep_view() =~= seq![(0u64, 0u64, "No duplicate keys found."@, CellStyle::Text)]);
            assert(widths@ =~= seq![(0u64, 30u64)]);
        }
        return SheetPlan { name: owned("Duplicate_Keys"), cells, widths, freeze_header: false, filter: None };
    }
    let headers = duplicate_headers(&result.key_columns);
    let mut cells: Vec<Cell> = Vec::new();
    proof {
        assert(cells.deep_view() =~= Seq::<CellSpec>::empty());
    }
    push_header_cells(&mut cells, &headers, 0);
    let ghost start = cells.deep_view();
    proof {
        assert(start =~= spec_header_cells(spec_duplicate_headers(r.key_columns), 0));
    }
    let mut t: usize = 0;
    while t < na + nb
        invariant
            r == result.deep_view(),
            details == r.duplicate_details_a + r.duplicate_details_b,
            na == result.duplicate_details_a.len(),
            nb == result.duplicate_details_b.len(),
            result.key_columns.len() + 8 <= u64::MAX,
            na + nb < usize::MAX,
            t <= na + nb,
            cells.deep_view() == start + concat_upto(spec_duplicate_row_fn(r.key_columns, details), t as int),
        decreases na + nb - t,
    {
        let row: u64 = t as u64 + 1;
        if t < na {
            proof {
                assert(result.duplicate_details_a@[t as int].deep_view() == details[t as int]);
            }
            push_duplicate_row(&mut cells, &result.key_columns, &result.duplicate_details_a[t], row);
        } else {
            proof {
                assert(result.duplicate_details_b@[t - na].deep_view() == details[t as int]);
            }
            push_duplicate_row(&mut cells, &result.key_columns, &result.duplicate_details_b[t - na], row);
        }
        t = t + 1;
        proof {
            assert(cells.deep_view() =~= start + concat_upto(spec_duplicate_row_fn(r.key_columns, details), t as int));
        }
    }
    let widths = column_widths(&headers, "Rows", 60, "Rows", 20);
    proof {
        reveal_strlit("Rows");
        assert(widths@ =~= spec_duplicate_keys_sheet(r).widths);
        assert(cells.deep_view() =~= spec_duplicate_keys_sheet(r).cells);
    }
    SheetPlan { name: owned("Duplicate_Keys"), cells, widths, freeze_header: true, filter: None }
}

/// The sheets of the workbook that a comparison result is exported to, in order.
pub open spec fn spec_workbook(r: CompareResultSpec) -> Seq<SheetSpec> {
    seq![
        spec_summary_sheet(r),
        spec_differences_sheet(r),
        spec_column_differences_sheet(r),
        spec_excluded_columns_sheet(r),
        spec_duplicate_keys_sheet(r),
    ]
}

/// The sheets of the workbook that a comparison result is exported to.
pub fn workbook_plan(result: &CompareResult) -> (sheets: Vec<SheetPlan>)
    requires
        result.key_columns.len() + 8 <= u64::MAX,
        result.duplicate_details_a.len() + result.duplicate_details_b.len() < usize::MAX,
    ensures
        sheets.deep_view() == spec_workbook(result.deep_view()),
{
    let mut sheets: Vec<SheetPlan> = Vec::new();
    sheets.push(summary_sheet(result));
    sheets.push(differences_sheet(result));
    sheets.push(column_differences_sheet(result));
    sheets.push(excluded_columns_sheet(result));
    sheets.push(duplicate_keys_sheet(result));
    proof {
        assert(sheets.deep_view() =~= spec_workbook(result.deep_view()));
    }
    sheets
}

/// Each difference has a row of its own in the differences sheet, on which its
/// key values stand in separate columns, one per key column, and the values of
/// both files are written as the very text they had, as text cells.
pub proof fn law_difference_rows_keep_values(r: CompareResultSpec, t: int)
    requires
        0 <= t < r.differences.len(),
        r.key_columns.len() + 8 <= u64::MAX,
    ensures
        ({
            let d = r.differences[t];
            let kc = r.key_columns.len();
            let row = (t + 1) as u64;
            let cells = spec_differences_sheet(r).cells;
            &&& forall|c: int|
                0 <= c < kc ==> cells.contains(
                    (row, c as u64, spec_key_lookup(d.key_values, #[trigger] r.key_columns[c]), CellStyle::Text),
                )
            &&& cells.contains((row, (kc + 3) as u64, spec_opt_text(d.value_a), CellStyle::Text))
            &&& cells.contains((row, (kc + 4) as u64, spec_opt_text(d.value_b), CellStyle::Text))
        }),
{
    let d = r.differences[t];
    let kc = r.key_columns.len();
    let row = (t + 1) as u64;
    let f = spec_difference_row_fn(r.key_columns, r.differences);
    let n = r.differences.len() as int;
    let head = spec_header_cells(spec_difference_headers(r.key_columns), 0);
    let body = concat_upto(f, n);
    let cells = spec_differences_sheet(r).cells;
    assert(cells == head + body);
    assert(f(t) == spec_difference_row(r.key_columns, d, row));
    assert forall|x: CellSpec| body.contains(x) implies cells.contains(x) by {
        let i = choose|i: int| 0 <= i < body.len() && body[i] == x;
        assert(cells[head.len() + i] == x);
    }
    assert forall|c: int| 0 <= c < kc implies cells.contains(
        (row, c as u64, spec_key_lookup(d.key_values, #[trigger] r.key_columns[c]), CellStyle::Text),
    ) by {
        assert(f(t)[c] == (row, c as u64, spec_key_lookup(d.key_values, r.key_columns[c]), CellStyle::Text));
        lemma_concat_contains(f, n, t, c);
    }
    assert(f(t)[kc + 3int] == (row, (kc + 3) as u64, spec_opt_text(d.value_a), CellStyle::Text));
    lemma_concat_contains(f, n, t, kc + 3int);
    assert(f(t)[kc + 4int] == (row, (kc + 4) as u64, spec_opt_text(d.value_b), CellStyle::Text));
    lemma_concat_contains(f, n, t, kc + 4int);
}

/// Some cell of `cells` stands at row `row`, column `col`.
pub open spec fn spec_has_cell_at(cells: Seq<CellSpec>, row: u64, col: u64) -> bool {
    exists|i: int| 0 <= i < cells.len() && #[trigger] cells[i].0 == row && cells[i].1 == col
}

/// What the cells of the differences sheet say: the headings "Row A", "Row B",
/// "Column", "File A Value", "File B Value" and "Type" stand after the key
/// columns in the first row; difference `t` has row `t + 1`, and every cell of
/// that row under one of these headings holds, in that order, the decimal
/// number of its record in file A (or nothing), that in file B (or nothing),
/// its column (or nothing), the value in file A, the value in file B (or
/// nothing) and its kind.
pub open spec fn spec_difference_cell_ok(key_count: int, d: DifferenceSpec, col: int, text: Seq<char>) -> bool {
    &&& col == key_count ==> text == match d.row_a {
        Some(v) => spec_decimal(v),
        None => Seq::<char>::empty(),
    }
    &&& col == key_count + 1 ==> text == match d.row_b {
        Some(v) => spec_decimal(v),
        None => Seq::<char>::empty(),
    }
    &&& col == key_count + 2 ==> text == match d.column_name {
        Some(v) => v,
        None => Seq::<char>::empty(),
    }
    &&& col == key_count + 3 ==> text == match d.value_a {
        Some(v) => v,
        None => Seq::<char>::empty(),
    }
    &&& col == key_count + 4 ==> text == match d.value_b {
        Some(v) => v,
        None => Seq::<char>::empty(),
    }
    &&& col == key_count + 5 ==> text == d.difference_type.spec_label()
}

/// Law: on the differences sheet, "Row A" heads the column right after the key
/// columns and "Row B" the next one, followed by "Column", "File A Value",
/// "File B Value" and "Type"; the row of difference `t` holds under "Row A" the
/// number of its record in file A and under "Row B" that in file B, and under
/// the other headings its column, its two values and its kind, each cell of that
/// row and column holding just that.
pub proof fn law_difference_rows_under_their_headings(r: CompareResultSpec, t: int)
    requires
        0 <= t < r.differences.len(),
        r.differences.len() < u64::MAX,
        r.key_columns.len() + 8 <= u64::MAX,
    ensures
        ({
            let kc = r.key_columns.len() as int;
            let d = r.differences[t];
            let row = (t + 1) as u64;
            let cells = spec_differences_sheet(r).cells;
            &&& cells.contains((0u64, kc as u64, "Row A"@, CellStyle::Header))
            &&& cells.contains((0u64, (kc + 1) as u64, "Row B"@, CellStyle::Header))
            &&& cells.contains((0u64, (kc + 2) as u64, "Column"@, CellStyle::Header))
            &&& cells.contains((0u64, (kc + 3) as u64, "File A Value"@, CellStyle::Header))
            &&& cells.contains((0u64, (kc + 4) as u64, "File B Value"@, CellStyle::Header))
            &&& cells.contains((0u64, (kc + 5) as u64, "Type"@, CellStyle::Header))
            &&& forall|m: int| 0 <= m < 6 ==> #[trigger] spec_has_cell_at(cells, row, (kc + m) as u64)
            &&& forall|i: int|
                0 <= i < cells.len() && #[trigger] cells[i].0 == row && cells[i].1 >= kc ==> cells[i].3 == CellStyle::Text
                    && spec_difference_cell_ok(kc, d, cells[i].1 as int, cells[i].2)
        }),
{
    let kc = r.key_columns.len() as int;
    let d = r.differences[t];
    let row = (t + 1) as u64;
    let f = spec_difference_row_fn(r.key_columns, r.differences);
    let n = r.differences.len() as int;
    let headers = spec_difference_headers(r.key_columns);
    let head = spec_header_cells(headers, 0);
    let body = concat_upto(f, n);
    let cells = spec_differences_sheet(r).cells;
    assert(cells == head + body);
    // The headings.
    assert(headers[kc] == "Row A"@);
    assert(headers[kc + 1] == "Row B"@);
    assert(headers[kc + 2] == "Column"@);
    assert(headers[kc + 3] == "File A Value"@);
    assert(headers[kc + 4] == "File B Value"@);
    assert(headers[kc + 5] == "Type"@);
    assert(cells[kc] == head[kc]);
    assert(cells[kc + 1] == head[kc + 1]);
    assert(cells[kc + 2] == head[kc + 2]);
    assert(cells[kc + 3] == head[kc + 3]);
    assert(cells[kc + 4] == head[kc + 4]);
    assert(cells[kc + 5] == head[kc + 5]);
    // Each heading has a cell on row `t + 1`.
    assert forall|m: int| 0 <= m < 6 implies #[trigger] spec_has_cell_at(cells, row, (kc + m) as u64) by {
        let rc = spec_difference_row(r.key_columns, d, row);
        assert(f(t) == rc);
        let tail = seq![
            (row, kc as u64, spec_opt_number(d.row_a), CellStyle::Text),
            (row, (kc + 1) as u64, spec_opt_number(d.row_b), CellStyle::Text),
            (row, (kc + 2) as u64, spec_opt_text(d.column_name), CellStyle::Text),
            (row, (kc + 3) as u64, spec_opt_text(d.value_a), CellStyle::Text),
            (row, (kc + 4) as u64, spec_opt_text(d.value_b), CellStyle::Text),
            (row, (kc + 5) as u64, d.difference_type.spec_label(), CellStyle::Text),
        ];
        assert(rc[kc + m] == tail[m]);
        assert(tail[m].0 == row && tail[m].1 == (kc + m) as u64);
        lemma_concat_contains(f, n, t, kc + m);
        let j = choose|j: int| 0 <= j < body.len() && body[j] == f(t)[kc + m];
        assert(cells[head.len() + j] == body[j]);
        assert(cells[head.len() + j].0 == row && cells[head.len() + j].1 == (kc + m) as u64);
    }
    // Every cell of row `t + 1` under a heading holds what the difference says.
    assert forall|i: int|
        0 <= i < cells.len() && #[trigger] cells[i].0 == row && cells[i].1 >= kc implies cells[i].3 == CellStyle::Text
            && spec_difference_cell_ok(kc, d, cells[i].1 as int, cells[i].2) by {
        assert(i >= head.len());
        let (k, u) = crate::compare::laws::lemma_concat_index(f, n, i - head.len());
        assert(cells[i] == f(k)[u]);
        let dk = r.differences[k];
        assert(f(k) == spec_difference_row(r.key_columns, dk, (k + 1) as u64));
        if u < kc {
            assert(f(k)[u].1 == u as u64);
        } else {
            assert(f(k)[u].0 == (k + 1) as u64);
            assert(k == t);
        }
    }
}

} // verus!
