use rust_xlsxwriter::{Color, Format, FormatAlign, FormatBorder, Workbook, Worksheet};
use vstd::prelude::*;

use crate::error::app_error::{AppError, AppErrorSpec};
use crate::models::compare_result::{CompareResult, CompareResultSpec};

use crate::text::spec_decimal;

use super::plan::{spec_workbook, workbook_plan, CellSpec, CellStyle, SheetPlan, SheetSpec};

verus! {

#[verifier::external_type_specification]
#[verifier::external_body]
pub struct ExWorkbook(Workbook);

#[verifier::external_type_specification]
#[verifier::external_body]
pub struct ExWorksheet(Worksheet);

#[verifier::external_type_specification]
#[verifier::external_body]
pub struct ExFormat(Format);

/// `rust_xlsxwriter::Format` for a cell style: `Format::new` with the setters
/// that draw it. Nothing is stated of the format, which is opaque.
#[verifier::external_body]
fn format_for(style: CellStyle) -> Format {
    match style {
        CellStyle::Title => Format::new().set_bold().set_font_size(14),
        CellStyle::Item => Format::new().set_bold(),
        CellStyle::Header => Format::new()
            .set_bold()
            .set_background_color(Color::RGB(0xD9E1F2))
            .set_align(FormatAlign::Center)
            .set_border(FormatBorder::Thin),
        CellStyle::Text => Format::new().set_border(FormatBorder::Thin),
    }
}

/// The number of UTF-16 code units that encode `s`: two for a character beyond
/// the Basic Multilingual Plane, one for any other.
pub open spec fn spec_utf16_len(s: Seq<char>) -> nat
    decreases s.len(),
{
    if s.len() == 0 {
        0
    } else {
        spec_utf16_len(s.drop_last()) + if (s.last() as int) >= 0x10000 { 2nat } else { 1nat }
    }
}

/// A character that a worksheet name cannot hold.
pub open spec fn spec_forbidden_in_sheet_name(c: char) -> bool {
    c == '*' || c == '?' || c == ':' || c == '[' || c == ']' || c == '\\' || c == '/'
}

/// A name that a worksheet accepts: not empty, at most 31 UTF-16 units, none of
/// `* ? : [ ] \ /`, neither starting nor ending with an apostrophe.
pub open spec fn spec_valid_sheet_name(name: Seq<char>) -> bool {
    &&& name.len() > 0
    &&& spec_utf16_len(name) <= 31
    &&& forall|i: int| 0 <= i < name.len() ==> !spec_forbidden_in_sheet_name(#[trigger] name[i])
    &&& name[0] != '\''
    &&& name.last() != '\''
}

/// A cell position inside a worksheet's 1,048,576 rows and 16,384 columns.
pub open spec fn spec_inside_sheet(row: int, col: int) -> bool {
    row < 1048576 && col < 16384
}

/// A cell that a worksheet accepts: inside the sheet, with a text of at most
/// 32,767 UTF-16 units.
pub open spec fn spec_cell_fits(row: int, col: int, text: Seq<char>) -> bool {
    spec_inside_sheet(row, col) && spec_utf16_len(text) <= 32767
}

/// A filter range that a worksheet accepts: both corners inside the sheet, the
/// first above and left of the last.
pub open spec fn spec_filter_range_ok(first_row: int, first_col: int, last_row: int, last_col: int) -> bool {
    spec_inside_sheet(first_row, first_col) && spec_inside_sheet(last_row, last_col) && first_row <= last_row
        && first_col <= last_col
}

/// What a worksheet holds, as far as this library sets it: its name; its text
/// cells by row and column, each with the style whose format was given (a cell
/// written with empty text is a blank cell, held as empty text); the width set
/// for each column in character units (255 at most; 0 asks for the column to be
/// hidden); the top-left cell of the frozen area ((0, 0) when nothing is frozen);
/// the range of its filter, if it has one; and whether a table has been added
/// to it.
pub type SheetContents = (
    Seq<char>,
    Map<(u32, u16), (Seq<char>, CellStyle)>,
    Map<u16, u16>,
    (u32, u16),
    Option<(u32, u16, u32, u16)>,
    bool,
);

/// What a `rust_xlsxwriter::Worksheet` holds.
pub uninterp spec fn worksheet_contents(ws: Worksheet) -> SheetContents;

/// The worksheets of a `rust_xlsxwriter::Workbook`, in order.
pub uninterp spec fn workbook_sheets(wb: Workbook) -> Seq<SheetContents>;

/// What `Workbook::save_to_buffer` makes of a workbook: the bytes of the xlsx
/// file, or `None` where it refuses the workbook. The workbook carries the time
/// at which it was created, which goes into the file.
pub uninterp spec fn workbook_saved(wb: Workbook) -> Option<Seq<u8>>;

/// `rust_xlsxwriter::Worksheet::new`: a worksheet without a name, cells,
/// column widths, frozen area, filter or table.
#[verifier::external_body]
fn worksheet_new() -> (ws: Worksheet)
    ensures
        worksheet_contents(ws) == (
            Seq::<char>::empty(),
            Map::<(u32, u16), (Seq<char>, CellStyle)>::empty(),
            Map::<u16, u16>::empty(),
            (0u32, 0u16),
            None::<(u32, u16, u32, u16)>,
            false,
        ),
{
    Worksheet::new()
}

/// `Worksheet::set_name`: succeeds exactly on a valid sheet name, and then the
/// worksheet bears `name`, the rest unchanged; a refusal leaves the worksheet as
/// it was and becomes `ExportError`.
#[verifier::external_body]
fn worksheet_set_name(ws: &mut Worksheet, name: &str) -> (r: Result<(), AppError>)
    ensures
        r is Ok <==> spec_valid_sheet_name(name@),
        match r {
            Ok(_) => {
                let old_c = worksheet_contents(*old(ws));
                worksheet_contents(*final(ws)) == (name@, old_c.1, old_c.2, old_c.3, old_c.4, old_c.5)
            },
            Err(e) => e.deep_view() == AppErrorSpec::ExportError
                && worksheet_contents(*final(ws)) == worksheet_contents(*old(ws)),
        },
{
    ws.set_name(name).map(|_| ()).map_err(|_| AppError::ExportError)
}

/// `Worksheet::write_string_with_format` with the format of `style`: succeeds
/// exactly when the cell is inside the sheet and the text within Excel's
/// length, and then the cell at (`row`, `col`) holds `text` with that style, the
/// rest unchanged; a refusal leaves the worksheet as it was and becomes
/// `ExportError`.
#[verifier::external_body]
fn worksheet_write(ws: &mut Worksheet, row: u32, col: u16, text: &str, style: CellStyle) -> (r: Result<(), AppError>)
    ensures
        r is Ok <==> spec_cell_fits(row as int, col as int, text@),
        match r {
            Ok(_) => {
                let old_c = worksheet_contents(*old(ws));
                worksheet_contents(*final(ws)) == (
                    old_c.0,
                    old_c.1.insert((row, col), (text@, style)),
                    old_c.2,
                    old_c.3,
                    old_c.4,
                    old_c.5,
                )
            },
            Err(e) => e.deep_view() == AppErrorSpec::ExportError
                && worksheet_contents(*final(ws)) == worksheet_contents(*old(ws)),
        },
{
    ws.write_string_with_format(row, col, text, &format_for(style)).map(|_| ()).map_err(|_| AppError::ExportError)
}

/// `Worksheet::set_column_width` in character units: succeeds exactly on a
/// column inside the sheet, and then the column's width is `width`, capped at
/// 255 (0 hides the column), the rest unchanged; a refusal leaves the worksheet
/// as it was and becomes `ExportError`.
#[verifier::external_body]
fn worksheet_set_width(ws: &mut Worksheet, col: u16, width: u16) -> (r: Result<(), AppError>)
    ensures
        r is Ok <==> spec_inside_sheet(0, col as int),
        match r {
            Ok(_) => {
                let old_c = worksheet_contents(*old(ws));
                worksheet_contents(*final(ws)) == (
                    old_c.0,
                    old_c.1,
                    old_c.2.insert(col, if width > 255 { 255u16 } else { width }),
                    old_c.3,
                    old_c.4,
                    old_c.5,
                )
            },
            Err(e) => e.deep_view() == AppErrorSpec::ExportError
                && worksheet_contents(*final(ws)) == worksheet_contents(*old(ws)),
        },
{
    ws.set_column_width(col, width).map(|_| ()).map_err(|_| AppError::ExportError)
}

/// `Worksheet::set_freeze_panes`: succeeds exactly on a cell inside the sheet,
/// and then the area above and left of (`row`, `col`) is frozen, the rest
/// unchanged; a refusal leaves the worksheet as it was and becomes `ExportError`.
#[verifier::external_body]
fn worksheet_freeze(ws: &mut Worksheet, row: u32, col: u16) -> (r: Result<(), AppError>)
    ensures
        r is Ok <==> spec_inside_sheet(row as int, col as int),
        match r {
            Ok(_) => {
                let old_c = worksheet_contents(*old(ws));
                worksheet_contents(*final(ws)) == (old_c.0, old_c.1, old_c.2, (row, col), old_c.4, old_c.5)
            },
            Err(e) => e.deep_view() == AppErrorSpec::ExportError
                && worksheet_contents(*final(ws)) == worksheet_contents(*old(ws)),
        },
{
    ws.set_freeze_panes(row, col).map(|_| ()).map_err(|_| AppError::ExportError)
}

/// `Worksheet::autofilter` over the given cell range. On a worksheet without a
/// table it succeeds exactly when both corners are inside the sheet and in
/// order, and a refusal then leaves the worksheet as it was. On success the
/// worksheet has that filter, the rest unchanged; any refusal becomes
/// `ExportError` and leaves the name, cells, widths, frozen area and tables as
/// they were (what becomes of the filter when the range overlaps a table's is
/// not stated).
#[verifier::external_body]
fn worksheet_autofilter(ws: &mut Worksheet, first_row: u32, first_col: u16, last_row: u32, last_col: u16) -> (r: Result<(), AppError>)
    ensures
        !worksheet_contents(*old(ws)).5 ==> (r is Ok <==> spec_filter_range_ok(
            first_row as int,
            first_col as int,
            last_row as int,
            last_col as int,
        )),
        r is Err && !spec_filter_range_ok(first_row as int, first_col as int, last_row as int, last_col as int)
            ==> worksheet_contents(*final(ws)) == worksheet_contents(*old(ws)),
        match r {
            Ok(_) => {
                let old_c = worksheet_contents(*old(ws));
                worksheet_contents(*final(ws)) == (
                    old_c.0,
                    old_c.1,
                    old_c.2,
                    old_c.3,
                    Some((first_row, first_col, last_row, last_col)),
                    old_c.5,
                )
            },
            Err(e) => {
                let old_c = worksheet_contents(*old(ws));
                let new_c = worksheet_contents(*final(ws));
                e.deep_view() == AppErrorSpec::ExportError && new_c.0 == old_c.0 && new_c.1 == old_c.1
                    && new_c.2 == old_c.2 && new_c.3 == old_c.3 && new_c.5 == old_c.5
            },
        },
{
    ws.autofilter(first_row, first_col, last_row, last_col).map(|_| ()).map_err(|_| AppError::ExportError)
}

/// `rust_xlsxwriter::Workbook::new`: a workbook without worksheets.
#[verifier::external_body]
fn workbook_new() -> (wb: Workbook)
    ensures
        workbook_sheets(wb) == Seq::<SheetContents>::empty(),
{
    Workbook::new()
}

/// `Workbook::push_worksheet`: the worksheet becomes the workbook's last sheet;
/// one without a name is named `Sheet` and its position counted from 1.
#[verifier::external_body]
fn workbook_push(wb: &mut Workbook, ws: Worksheet)
    ensures
        workbook_sheets(*final(wb)) == workbook_sheets(*old(wb)).push(
            if worksheet_contents(ws).0.len() == 0 {
                let c = worksheet_contents(ws);
                ("Sheet"@ + spec_decimal((workbook_sheets(*old(wb)).len() + 1) as u64), c.1, c.2, c.3, c.4, c.5)
            } else {
                worksheet_contents(ws)
            },
        ),
{
    wb.push_worksheet(ws);
}

/// `Workbook::save_to_buffer`: the bytes of the xlsx file of the workbook as it
/// stood, `workbook_saved`; a refusal (`workbook_saved` is `None`) becomes
/// `ExportError`. Which workbooks it refuses is left to the name.
#[verifier::external_body]
fn workbook_to_buffer(wb: &mut Workbook) -> (r: Result<Vec<u8>, AppError>)
    ensures
        match r {
            Ok(bytes) => workbook_saved(*old(wb)) == Some(bytes@),
            Err(e) => workbook_saved(*old(wb)) is None && e.deep_view() == AppErrorSpec::ExportError,
        },
{
    wb.save_to_buffer().map_err(|_| AppError::ExportError)
}

/// The cells of `cells[0 .. n]` by position; a later cell at the same place wins.
pub open spec fn spec_cell_map(cells: Seq<CellSpec>, n: int) -> Map<(u32, u16), (Seq<char>, CellStyle)>
    decreases n,
{
    if n <= 0 {
        Map::empty()
    } else {
        let c = cells[n - 1];
        spec_cell_map(cells, n - 1).insert((c.0 as u32, c.1 as u16), (c.2, c.3))
    }
}

/// The widths of `widths[0 .. n]` by column, capped at 255; a later width wins.
pub open spec fn spec_width_map(widths: Seq<(u64, u64)>, n: int) -> Map<u16, u16>
    decreases n,
{
    if n <= 0 {
        Map::empty()
    } else {
        let w = widths[n - 1];
        spec_width_map(widths, n - 1).insert(w.0 as u16, if w.1 > 255 { 255u16 } else { w.1 as u16 })
    }
}

/// What a worksheet written from a sheet plan holds.
pub open spec fn spec_sheet_contents(sheet: SheetSpec) -> SheetContents {
    (
        sheet.name,
        spec_cell_map(sheet.cells, sheet.cells.len() as int),
        spec_width_map(sheet.widths, sheet.widths.len() as int),
        if sheet.freeze_header { (1u32, 0u16) } else { (0u32, 0u16) },
        match sheet.filter {
            Some((r, c)) => Some((0u32, 0u16, r as u32, c as u16)),
            None => None,
        },
        false,
    )
}

/// A planned cell that a worksheet accepts.
pub open spec fn spec_cell_writable(cell: CellSpec) -> bool {
    spec_cell_fits(cell.0 as int, cell.1 as int, cell.2)
}

/// A sheet plan that a worksheet accepts: a valid name, every cell inside the
/// sheet with a text within Excel's length, every width for a column inside the
/// sheet, and a filter whose last cell is inside the sheet.
pub open spec fn spec_sheet_writable(sheet: SheetSpec) -> bool {
    &&& spec_valid_sheet_name(sheet.name)
    &&& forall|i: int| 0 <= i < sheet.cells.len() ==> spec_cell_writable(#[trigger] sheet.cells[i])
    &&& forall|i: int| 0 <= i < sheet.widths.len() ==> spec_inside_sheet(0, (#[trigger] sheet.widths[i]).0 as int)
    &&& (sheet.filter matches Some((r, c)) ==> spec_inside_sheet(r as int, c as int))
}

/// Every sheet of `sheets` is one that a worksheet accepts.
pub open spec fn spec_sheets_writable(sheets: Seq<SheetSpec>) -> bool {
    forall|i: int| 0 <= i < sheets.len() ==> spec_sheet_writable(#[trigger] sheets[i])
}

/// What the worksheets written from `sheets` hold, in order.
pub open spec fn spec_sheets_contents(sheets: Seq<SheetSpec>) -> Seq<SheetContents> {
    sheets.map_values(|s: SheetSpec| spec_sheet_contents(s))
}

/// Writes one planned sheet into a new worksheet of `wb`. It succeeds exactly
/// when the worksheet accepts the plan, and then the workbook gains, as its last
/// sheet, a worksheet holding exactly what the plan says; on failure it is left
/// as it was.
fn write_sheet(wb: &mut Workbook, sheet: &SheetPlan) -> (r: Result<(), AppError>)
    ensures
        r is Ok <==> spec_sheet_writable(sheet.deep_view()),
        match r {
            Ok(_) => workbook_sheets(*final(wb)) == workbook_sheets(*old(wb)).push(spec_sheet_contents(sheet.deep_view())),
            Err(e) => e.deep_view() == AppErrorSpec::ExportError && workbook_sheets(*final(wb)) == workbook_sheets(*old(wb)),
        },
{
    let ghost p = sheet.deep_view();
    let mut ws = worksheet_new();
    match worksheet_set_name(&mut ws, sheet.name.as_str()) {
        Ok(_) => {},
        Err(e) => return Err(e),
    }
    let mut i: usize = 0;
    while i < sheet.cells.len()
        invariant
            p == sheet.deep_view(),
            i <= sheet.cells.len(),
            spec_valid_sheet_name(p.name),
            forall|j: int| 0 <= j < i ==> spec_cell_writable(#[trigger] p.cells[j]),
            worksheet_contents(ws) == (
                p.name,
                spec_cell_map(p.cells, i as int),
                Map::<u16, u16>::empty(),
                (0u32, 0u16),
                None::<(u32, u16, u32, u16)>,
                false,
            ),
        decreases sheet.cells.len() - i,
    {
        let cell = &sheet.cells[i];
        proof {
            assert(cell.deep_view() == p.cells[i as int]);
        }
        if cell.row >= 1048576 || cell.col >= 16384 {
            proof {
                assert(!spec_cell_writable(p.cells[i as int]));
            }
            return Err(AppError::ExportError);
        }
        match worksheet_write(&mut ws, cell.row as u32, cell.col as u16, cell.text.as_str(), cell.style) {
            Ok(_) => {},
            Err(e) => {
                proof {
                    assert(!spec_cell_writable(p.cells[i as int]));
                }
                return Err(e);
            },
        }
        i = i + 1;
    }
    let mut w: usize = 0;
    while w < sheet.widths.len()
        invariant
            p == sheet.deep_view(),
            w <= sheet.widths.len(),
            spec_valid_sheet_name(p.name),
            forall|j: int| 0 <= j < p.cells.len() ==> spec_cell_writable(#[trigger] p.cells[j]),
            forall|j: int| 0 <= j < w ==> spec_inside_sheet(0, (#[trigger] p.widths[j]).0 as int),
            worksheet_contents(ws) == (
                p.name,
                spec_cell_map(p.cells, p.cells.len() as int),
                spec_width_map(p.widths, w as int),
                (0u32, 0u16),
                None::<(u32, u16, u32, u16)>,
                false,
            ),
        decreases sheet.widths.len() - w,
    {
        let (c, width) = sheet.widths[w];
        if c >= 16384 {
            proof {
                assert(p.widths[w as int].0 == c);
            }
            return Err(AppError::ExportError);
        }
        let width16: u16 = if width > 255 { 255 } else { width as u16 };
        match worksheet_set_width(&mut ws, c as u16, width16) {
            Ok(_) => {},
            Err(e) => return Err(e),
        }
        w = w + 1;
    }
    if sheet.freeze_header {
        match worksheet_freeze(&mut ws, 1, 0) {
            Ok(_) => {},
            Err(e) => return Err(e),
        }
    }
    if let Some((last_row, last_col)) = sheet.filter {
        if last_row >= 1048576 || last_col >= 16384 {
            return Err(AppError::ExportError);
        }
        match worksheet_autofilter(&mut ws, 0, 0, last_row as u32, last_col as u16) {
            Ok(_) => {},
            Err(e) => return Err(e),
        }
    }
    proof {
        assert(worksheet_contents(ws) == spec_sheet_contents(p));
    }
    workbook_push(wb, ws);
    Ok(())
}

/// The workbook of a comparison result, with the sheets of `workbook_plan` in
/// order: Summary, Differences, Column_Differences, Excluded_Columns and
/// Duplicate_Keys. It is built exactly when every planned sheet is one that a
/// worksheet accepts, and then holds exactly what the plans say; otherwise the
/// error is `ExportError`.
pub fn build_workbook(result: &CompareResult) -> (r: Result<Workbook, AppError>)
    requires
        result.key_columns.len() + 8 <= u64::MAX,
        result.duplicate_details_a.len() + result.duplicate_details_b.len() < usize::MAX,
    ensures
        r is Ok <==> spec_sheets_writable(spec_workbook(result.deep_view())),
        match r {
            Ok(wb) => workbook_sheets(wb) == spec_sheets_contents(spec_workbook(result.deep_view())),
            Err(e) => e.deep_view() == AppErrorSpec::ExportError,
        },
{
    let sheets = workbook_plan(result);
    let ghost plan = sheets.deep_view();
    let mut wb = workbook_new();
    let mut i: usize = 0;
    while i < sheets.len()
        invariant
            plan == sheets.deep_view(),
            plan == spec_workbook(result.deep_view()),
            i <= sheets.len(),
            forall|j: int| 0 <= j < i ==> spec_sheet_writable(#[trigger] plan[j]),
            workbook_sheets(wb) == spec_sheets_contents(plan.take(i as int)),
        decreases sheets.len() - i,
    {
        proof {
            assert(sheets[i as int].deep_view() == plan[i as int]);
        }
        match write_sheet(&mut wb, &sheets[i]) {
            Ok(_) => {},
            Err(e) => return Err(e),
        }
        proof {
            assert(plan.take(i + 1) =~= plan.take(i as int).push(plan[i as int]));
            assert(spec_sheets_contents(plan.take(i + 1)) =~= spec_sheets_contents(plan.take(i as int)).push(
                spec_sheet_contents(plan[i as int]),
            ));
        }
        i = i + 1;
    }
    proof {
        assert(plan.take(i as int) =~= plan);
    }
    Ok(wb)
}

/// The comparison result as the bytes of an xlsx workbook with the sheets of
/// `workbook_plan`: Summary, Differences, Column_Differences, Excluded_Columns
/// and Duplicate_Keys. On success every planned sheet was one that a worksheet
/// accepts and the bytes are what the workbook writer saves for a workbook
/// holding exactly those sheets; a failure is `ExportError`, and comes when a
/// planned sheet is not accepted or the writer refuses such a workbook.
pub fn export_excel(result: &CompareResult) -> (r: Result<Vec<u8>, AppError>)
    requires
        result.key_columns.len() + 8 <= u64::MAX,
        result.duplicate_details_a.len() + result.duplicate_details_b.len() < usize::MAX,
    ensures
        match r {
            Ok(bytes) => spec_sheets_writable(spec_workbook(result.deep_view())) && exists|wb: Workbook|
                workbook_sheets(wb) == spec_sheets_contents(spec_workbook(result.deep_view()))
                    && #[trigger] workbook_saved(wb) == Some(bytes@),
            Err(e) => e.deep_view() == AppErrorSpec::ExportError && (!spec_sheets_writable(
                spec_workbook(result.deep_view()),
            ) || exists|wb: Workbook|
                workbook_sheets(wb) == spec_sheets_contents(spec_workbook(result.deep_view()))
                    && #[trigger] workbook_saved(wb) is None),
        },
{
    let mut wb = match build_workbook(result) {
        Ok(wb) => wb,
        Err(e) => return Err(e),
    };
    let ghost built = wb;
    let r = workbook_to_buffer(&mut wb);
    proof {
        // The workbook that was saved is the witness.
        assert(workbook_sheets(built) == spec_sheets_contents(spec_workbook(result.deep_view())));
    }
    r
}

/// A name of ASCII letters and underscores, no longer than a sheet name may
/// be, is valid.
proof fn lemma_plain_name_valid(name: Seq<char>)
    requires
        0 < name.len() <= 31,
        forall|i: int| 0 <= i < name.len() ==> ('A' <= #[trigger] name[i] <= 'Z' || 'a' <= name[i] <= 'z' || name[i] == '_'),
    ensures
        spec_valid_sheet_name(name),
{
    lemma_utf16_len_ascii(name);
}

/// Every char below U+10000 is one UTF-16 unit.
proof fn lemma_utf16_len_ascii(s: Seq<char>)
    requires
        forall|i: int| 0 <= i < s.len() ==> (#[trigger] s[i] as int) < 0x10000,
    ensures
        spec_utf16_len(s) == s.len(),
    decreases s.len(),
{
    if s.len() > 0 {
        let t = s.drop_last();
        assert forall|i: int| 0 <= i < t.len() implies (#[trigger] t[i] as int) < 0x10000 by {
            assert(t[i] == s[i]);
        }
        lemma_utf16_len_ascii(t);
    }
}

/// Law: the five sheets of the workbook bear valid sheet names, so whether the
/// workbook can be built depends on the size of what they hold alone.
pub proof fn law_planned_sheet_names_are_valid(r: CompareResultSpec)
    ensures
        forall|i: int| 0 <= i < spec_workbook(r).len() ==> spec_valid_sheet_name(#[trigger] spec_workbook(r)[i].name),
{
    reveal_strlit("Summary");
    reveal_strlit("Differences");
    reveal_strlit("Column_Differences");
    reveal_strlit("Excluded_Columns");
    reveal_strlit("Duplicate_Keys");
    lemma_plain_name_valid("Summary"@);
    lemma_plain_name_valid("Differences"@);
    lemma_plain_name_valid("Column_Differences"@);
    lemma_plain_name_valid("Excluded_Columns"@);
    lemma_plain_name_valid("Duplicate_Keys"@);
}

} // verus!
