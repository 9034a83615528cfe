use std::sync::atomic::{AtomicBool, Ordering};
use vstd::prelude::*;

use crate::error::app_error::{AppError, AppErrorSpec};
use crate::models::compare_result::{CompareResult, CompareResultSpec};
use crate::models::parse_options::ParseOptions;
use crate::parser::decoder::{open_delimited_reader, spec_open_file};
use crate::parser::delimited_parser::{check_duplicate_headers, DelimitedReader};
use crate::parser::delimiter::spec_delimiter_label;

use super::difference::ColumnLayout;

verus! {

/// The outcome of a cancellation check once the flag has been read: `Cancelled`
/// exactly when cancellation was requested.
pub fn cancel_outcome(requested: bool) -> (r: Result<(), AppError>)
    ensures
        r is Err <==> requested,
        r matches Err(e) ==> e.deep_view() == AppErrorSpec::Cancelled,
{
    if requested {
        Err(AppError::Cancelled)
    } else {
        Ok(())
    }
}

/// Fails with `Cancelled` when cancellation has been requested: reads the flag
/// and goes by `cancel_outcome`. The flag is set by another thread, so which
/// outcome comes back is not stated, only its two possible shapes.
pub fn check_cancel(cancel: &AtomicBool) -> (r: Result<(), AppError>)
    ensures
        r matches Err(e) ==> e.deep_view() == AppErrorSpec::Cancelled,
{
    cancel_outcome(cancel.load(Ordering::Relaxed))
}

/// The char of a decimal digit.
pub open spec fn spec_digit_char(d: int) -> char {
    if d == 0 {
        '0'
    } else if d == 1 {
        '1'
    } else if d == 2 {
        '2'
    } else if d == 3 {
        '3'
    } else if d == 4 {
        '4'
    } else if d == 5 {
        '5'
    } else if d == 6 {
        '6'
    } else if d == 7 {
        '7'
    } else if d == 8 {
        '8'
    } else {
        '9'
    }
}

/// `n` (below 100) as two digits.
pub open spec fn spec_two_digits(n: int) -> Seq<char> {
    seq![spec_digit_char(n / 10), spec_digit_char(n % 10)]
}

/// `n` (below 10000) as four digits.
pub open spec fn spec_four_digits(n: int) -> Seq<char> {
    seq![spec_digit_char(n / 1000), spec_digit_char((n / 100) % 10), spec_digit_char((n / 10) % 10), spec_digit_char(n % 10)]
}

/// A year as `%Y` writes it: four digits from 0 to 9999; otherwise a sign, then
/// at least four digits.
pub open spec fn spec_year_text(y: int) -> Seq<char> {
    if 0 <= y <= 9999 {
        spec_four_digits(y)
    } else {
        let a = if y < 0 { -y } else { y };
        seq![if y < 0 { '-' } else { '+' }] + if a <= 9999 { spec_four_digits(a) } else { crate::text::spec_decimal(a as u64) }
    }
}

/// A date and time as `%Y-%m-%d %H:%M:%S` writes it.
pub open spec fn spec_timestamp(year: int, month: int, day: int, hour: int, minute: int, second: int) -> Seq<char> {
    spec_year_text(year) + seq!['-'] + spec_two_digits(month) + seq!['-'] + spec_two_digits(day) + seq![' ']
        + spec_two_digits(hour) + seq![':'] + spec_two_digits(minute) + seq![':'] + spec_two_digits(second)
}

/// `t` is a date and time written as `%Y-%m-%d %H:%M:%S`: a month from 1 to 12,
/// a day from 1 to 31, an hour below 24, a minute below 60, a second up to 60
/// (a leap second).
pub open spec fn spec_is_timestamp(t: Seq<char>) -> bool {
    exists|year: int, month: int, day: int, hour: int, minute: int, second: int|
        #![trigger spec_timestamp(year, month, day, hour, minute, second)]
        i32::MIN <= year <= i32::MAX && 1 <= month <= 12 && 1 <= day <= 31 && 0 <= hour < 24 && 0 <= minute < 60
            && 0 <= second <= 60 && t == spec_timestamp(year, month, day, hour, minute, second)
}

/// Law: a time stamp is `YYYY-MM-DD hh:mm:ss` (19 chars, digits but for `-` at
/// 4 and 7, a space at 10 and `:` at 13 and 16), unless its year lies outside 0
/// to 9999, in which case it starts with the year's sign.
pub proof fn law_timestamp_shape(t: Seq<char>)
    requires
        spec_is_timestamp(t),
    ensures
        ({
            &&& t.len() == 19
            &&& t[4] == '-' && t[7] == '-' && t[10] == ' ' && t[13] == ':' && t[16] == ':'
            &&& forall|i: int| 0 <= i < 19 && i != 4 && i != 7 && i != 10 && i != 13 && i != 16 ==> '0' <= #[trigger] t[i] <= '9'
        }) || t[0] == '+' || t[0] == '-',
{
    let (y, mo, d, h, mi, sec) = choose|year: int, month: int, day: int, hour: int, minute: int, second: int|
        #![trigger spec_timestamp(year, month, day, hour, minute, second)]
        i32::MIN <= year <= i32::MAX && 1 <= month <= 12 && 1 <= day <= 31 && 0 <= hour < 24 && 0 <= minute < 60
            && 0 <= second <= 60 && t == spec_timestamp(year, month, day, hour, minute, second);
    if 0 <= y <= 9999 {
        assert(t =~= seq![
            spec_digit_char(y / 1000), spec_digit_char((y / 100) % 10), spec_digit_char((y / 10) % 10), spec_digit_char(y % 10),
            '-', spec_digit_char(mo / 10), spec_digit_char(mo % 10), '-', spec_digit_char(d / 10), spec_digit_char(d % 10),
            ' ', spec_digit_char(h / 10), spec_digit_char(h % 10), ':', spec_digit_char(mi / 10), spec_digit_char(mi % 10),
            ':', spec_digit_char(sec / 10), spec_digit_char(sec % 10),
        ]);
    } else {
        assert(t[0] == spec_year_text(y)[0]);
    }
}

/// The local time as `%Y-%m-%d %H:%M:%S`, from `chrono::Local::now` formatted
/// with `format`. Which time is the clock's reading; chrono's documentation of
/// the specifiers gives the shape: the year zero-padded to four digits (with a
/// sign outside 0 to 9999), then month, day, hour, minute and second as two
/// digits each, the second being 60 on a leap second.
#[verifier::external_body]
pub fn now_string() -> (r: String)
    ensures
        spec_is_timestamp(r@),
{
    chrono::Local::now().format("%Y-%m-%d %H:%M:%S").to_string()
}

/// Two files count as identical when nothing at all was found to differ.
pub open spec fn spec_is_identical(r: CompareResultSpec) -> bool {
    r.a_only_records == 0 && r.b_only_records == 0 && r.different_records == 0
        && r.duplicate_keys_a == 0 && r.duplicate_keys_b == 0 && r.empty_keys_a == 0
        && r.empty_keys_b == 0 && r.incomplete_keys_a == 0 && r.incomplete_keys_b == 0
        && r.column_a_only.len() == 0 && r.column_b_only.len() == 0
}

pub fn is_identical(r: &CompareResult) -> (b: bool)
    ensures
        b == spec_is_identical(r.deep_view()),
        b ==> r.a_only_records == 0 && r.b_only_records == 0 && r.different_records == 0 && r.duplicate_keys_a == 0
            && r.duplicate_keys_b == 0 && r.empty_keys_a == 0 && r.empty_keys_b == 0 && r.incomplete_keys_a == 0
            && r.incomplete_keys_b == 0 && r.column_a_only.len() == 0 && r.column_b_only.len() == 0,
{
    r.a_only_records == 0 && r.b_only_records == 0 && r.different_records == 0
        && r.duplicate_keys_a == 0 && r.duplicate_keys_b == 0 && r.empty_keys_a == 0
        && r.empty_keys_b == 0 && r.incomplete_keys_a == 0 && r.incomplete_keys_b == 0
        && r.column_a_only.len() == 0 && r.column_b_only.len() == 0
}

/// Opens file contents for a comparison (strict field counts), checks that no
/// header name is given twice, and returns the reader positioned after the
/// header, the header layout and the labels of the encoding and delimiter.
pub fn open_for_compare(bytes: &[u8], options: ParseOptions) -> (r: Result<(DelimitedReader, ColumnLayout, String, String), AppError>)
    ensures
        match r {
            Ok((reader, layout, encoding_label, delimiter_label)) => match spec_open_file(bytes@, options.encoding, options.delimiter) {
                Ok(f) => {
                    &&& reader.wf()
                    &&& reader.entries() == f.entries
                    &&& reader.headers_view() == f.headers
                    &&& reader.is_strict()
                    &&& reader.position() == 1
                    &&& reader.records_read() == 0
                    &&& !reader.at_end()
                    &&& layout.wf()
                    &&& layout.headers.deep_view() == f.headers
                    &&& encoding_label@ == f.encoding.spec_label()
                    &&& delimiter_label@ == spec_delimiter_label(f.delimiter)
                },
                Err(_) => false,
            },
            Err(e) => spec_open_file(bytes@, options.encoding, options.delimiter) == Err::<crate::parser::decoder::OpenedFileSpec, AppErrorSpec>(e.deep_view()),
        },
{
    let (reader, encoding_label, delimiter_label) = open_delimited_reader(bytes, options.encoding, options.delimiter, true)?;
    let layout = ColumnLayout::new(reader.headers().clone());
    check_duplicate_headers(&layout.headers)?;
    Ok((reader, layout, encoding_label, delimiter_label))
}

} // verus!
