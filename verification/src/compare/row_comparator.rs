use std::sync::atomic::AtomicBool;
use vstd::prelude::*;

use crate::error::app_error::{AppError, AppErrorSpec};
use crate::models::compare_options::ComparisonMode;
use crate::models::compare_result::{CompareResult, CompareResultSpec};
use crate::models::difference::{Difference, DifferenceSpec, DifferenceType, KeyValue, KeyValueSpec};
use crate::text::{join_strings, owned, spec_join};

use super::difference::{
    column_differences, columns_only_in, format_mode, names_not_in, push_record_changes,
    spec_cell_changes, spec_column_differences, spec_column_differences_of, spec_not_in, spec_only_in, spec_present_in,
    spec_record_changes, ColumnLayout, CompareSettings, RecordSpec,
};
use super::key_comparator::poll_cancel;
use crate::progress::{progress_ok, report_progress};
use super::util::{check_cancel, now_string, open_for_compare};
use crate::models::compare_options::CompareOptions;
use crate::parser::decoder::{spec_open_file, OpenedFileSpec};
use crate::parser::delimited_parser::{
    lemma_records_upto_err, lemma_records_upto_len, spec_records_upto, DelimitedReader,
};
use crate::parser::delimiter::spec_delimiter_label;
use crate::parser::reader::{file_name, spec_file_name};
use super::key_builder::settings_from;
use super::tally::{concat_upto, count_upto, lemma_concat_contains};
use super::util::{is_identical, spec_is_identical};

verus! {

/// The inputs of a row-by-row comparison once both files have been read.
pub struct RowCompareSpec {
    pub headers_a: Seq<Seq<char>>,
    pub records_a: Seq<RecordSpec>,
    pub headers_b: Seq<Seq<char>>,
    pub records_b: Seq<RecordSpec>,
    pub compared: Seq<Seq<char>>,
    pub settings: CompareSettings,
}

impl RowCompareSpec {
    /// How many positions both files have a record at.
    pub open spec fn matched(self) -> nat {
        if self.records_a.len() <= self.records_b.len() {
            self.records_a.len()
        } else {
            self.records_b.len()
        }
    }

    /// How many positions at least one file has a record at.
    pub open spec fn span(self) -> nat {
        if self.records_a.len() <= self.records_b.len() {
            self.records_b.len()
        } else {
            self.records_a.len()
        }
    }

    /// The cells in which the records at position `t` differ.
    pub open spec fn changes(self, t: int) -> Seq<DifferenceSpec> {
        spec_record_changes(
            self.headers_a,
            self.records_a[t],
            self.headers_b,
            self.records_b[t],
            self.compared,
            self.settings,
            Seq::empty(),
        )
    }

    pub open spec fn changes_fn(self) -> spec_fn(int) -> Seq<DifferenceSpec> {
        |t: int| self.changes(t)
    }

    pub open spec fn same_fn(self) -> spec_fn(int) -> bool {
        |t: int| self.changes(t).len() == 0
    }

    pub open spec fn different_fn(self) -> spec_fn(int) -> bool {
        |t: int| self.changes(t).len() > 0
    }

    /// What position `t` contributes: the differing cells of a pair, or the
    /// A_ONLY / B_ONLY entry of a record that the other file lacks.
    pub open spec fn piece(self, t: int) -> Seq<DifferenceSpec> {
        if t < self.matched() {
            self.changes(t)
        } else if t < self.records_a.len() {
            seq![DifferenceSpec {
                key_values: Seq::empty(),
                row_a: Some(self.records_a[t].0),
                row_b: None,
                column_name: None,
                value_a: Some(spec_join(self.records_a[t].1, "\t"@)),
                value_b: None,
                difference_type: DifferenceType::AOnly,
            }]
        } else {
            seq![DifferenceSpec {
                key_values: Seq::empty(),
                row_a: None,
                row_b: Some(self.records_b[t].0),
                column_name: None,
                value_a: None,
                value_b: Some(spec_join(self.records_b[t].1, "\t"@)),
                difference_type: DifferenceType::BOnly,
            }]
        }
    }

    pub open spec fn piece_fn(self) -> spec_fn(int) -> Seq<DifferenceSpec> {
        |t: int| self.piece(t)
    }

    /// All differences, in the order in which they are reported.
    pub open spec fn differences(self, excluded: Seq<Seq<char>>) -> Seq<DifferenceSpec> {
        spec_column_differences(self.headers_a, self.headers_b, excluded) + concat_upto(
            self.piece_fn(),
            self.span() as int,
        )
    }
}

/// The description of a row-by-row comparison of two read files.
pub open spec fn spec_row_compare(
    headers_a: Seq<Seq<char>>,
    records_a: Seq<RecordSpec>,
    headers_b: Seq<Seq<char>>,
    records_b: Seq<RecordSpec>,
    excluded: Seq<Seq<char>>,
    settings: CompareSettings,
) -> RowCompareSpec {
    RowCompareSpec {
        headers_a,
        records_a,
        headers_b,
        records_b,
        compared: spec_not_in(spec_present_in(headers_a, headers_b), excluded),
        settings,
    }
}

/// The result `r` reports exactly the row-by-row comparison `s`, apart from the
/// names, encodings and delimiters of the files and the time of the comparison.
pub open spec fn row_result_matches(r: CompareResultSpec, s: RowCompareSpec, excluded: Seq<Seq<char>>) -> bool {
    &&& r.rows_a == s.records_a.len()
    &&& r.rows_b == s.records_b.len()
    &&& r.key_columns.len() == 0
    &&& r.compared_columns == s.compared
    &&& r.excluded_columns == excluded
    &&& r.column_a_only == spec_only_in(s.headers_a, s.headers_b, excluded)
    &&& r.column_b_only == spec_only_in(s.headers_b, s.headers_a, excluded)
    &&& r.matched_records == s.matched()
    &&& r.same_records == count_upto(s.same_fn(), s.matched() as int)
    &&& r.different_records == count_upto(s.different_fn(), s.matched() as int)
    &&& r.a_only_records == s.records_a.len() - s.matched()
    &&& r.b_only_records == s.records_b.len() - s.matched()
    &&& r.duplicate_keys_a == 0
    &&& r.duplicate_keys_b == 0
    &&& r.empty_keys_a == 0
    &&& r.empty_keys_b == 0
    &&& r.incomplete_keys_a == 0
    &&& r.incomplete_keys_b == 0
    &&& r.different_cells == concat_upto(s.changes_fn(), s.matched() as int).len()
    &&& r.differences == s.differences(excluded)
    &&& r.duplicate_details_a.len() == 0
    &&& r.duplicate_details_b.len() == 0
    &&& !r.cancelled
    &&& r.identical == spec_is_identical(r)
}

/// Row-by-row comparison of two files that have been read: the n-th record of A
/// is paired with the n-th record of B, columns being matched by header name.
/// The file names, encodings, delimiters and time of the result are left empty.
/// `cancel`, when given, is polled at every position.
pub fn compare_row_records(
    layout_a: &ColumnLayout,
    records_a: &Vec<(u64, Vec<String>)>,
    layout_b: &ColumnLayout,
    records_b: &Vec<(u64, Vec<String>)>,
    excluded: &Vec<String>,
    settings: CompareSettings,
    cancel: Option<&AtomicBool>,
) -> (r: Result<CompareResult, AppError>)
    requires
        layout_a.wf(),
        layout_b.wf(),
    ensures
        match r {
            Ok(res) => row_result_matches(
                res.deep_view(),
                spec_row_compare(
                    layout_a.headers.deep_view(),
                    records_a.deep_view(),
                    layout_b.headers.deep_view(),
                    records_b.deep_view(),
                    excluded.deep_view(),
                    settings,
                ),
                excluded.deep_view(),
            ) && res.compare_mode@ == "ROW_BY_ROW"@ && res.file_a_name@.len() == 0 && res.file_b_name@.len() == 0
                && res.compare_time@.len() == 0,
            Err(e) => cancel is Some && e.deep_view() == AppErrorSpec::Cancelled,
        },
{
    let ghost s = spec_row_compare(
        layout_a.headers.deep_view(),
        records_a.deep_view(),
        layout_b.headers.deep_view(),
        records_b.deep_view(),
        excluded.deep_view(),
        settings,
    );
    let common = layout_a.common_with(layout_b);
    let compared = names_not_in(&common, excluded);
    let column_a_only = columns_only_in(layout_a, layout_b, excluded);
    let column_b_only = columns_only_in(layout_b, layout_a, excluded);
    let mut differences = column_differences(layout_a, layout_b, excluded);
    let ghost start = differences.deep_view();
    let no_keys: Vec<KeyValue> = Vec::new();
    proof {
        assert(no_keys.deep_view() =~= Seq::<KeyValueSpec>::empty());
    }
    let n_a = records_a.len();
    let n_b = records_b.len();
    let matched = if n_a <= n_b {
        n_a
    } else {
        n_b
    };
    let mut same: u64 = 0;
    let mut different: u64 = 0;
    let mut cells: u64 = 0;
    let mut t: usize = 0;
    while t < n_a || t < n_b
        invariant
            layout_a.wf(),
            layout_b.wf(),
            s == spec_row_compare(
                layout_a.headers.deep_view(),
                records_a.deep_view(),
                layout_b.headers.deep_view(),
                records_b.deep_view(),
                excluded.deep_view(),
                settings,
            ),
            compared.deep_view() == s.compared,
            no_keys.deep_view() == Seq::<KeyValueSpec>::empty(),
            n_a == records_a.len(),
            n_b == records_b.len(),
            matched == s.matched(),
            t <= s.span(),
            differences.deep_view() == start + concat_upto(s.piece_fn(), t as int),
            same == count_upto(s.same_fn(), if t <= matched { t as int } else { matched as int }),
            different == count_upto(s.different_fn(), if t <= matched { t as int } else { matched as int }),
            same + different <= t,
            cells == concat_upto(s.changes_fn(), if t <= matched { t as int } else { matched as int }).len(),
            cells <= differences.deep_view().len(),
        decreases s.span() - t,
    {
        poll_cancel(cancel)?;
        let ghost before = differences.deep_view();
        proof {
            if t < n_a {
                assert(records_a.deep_view()[t as int] == records_a@[t as int].deep_view());
            }
            if t < n_b {
                assert(records_b.deep_view()[t as int] == records_b@[t as int].deep_view());
            }
        }
        if t < n_a && t < n_b {
            let n = push_record_changes(
                &mut differences,
                layout_a,
                &records_a[t],
                layout_b,
                &records_b[t],
                &compared,
                settings,
                &no_keys,
            );
            let total = differences.len();
            if n == 0 {
                same = same + 1;
            } else {
                different = different + 1;
                cells = cells + n as u64;
            }
        } else if t < n_a {
            let d = Difference {
                key_values: Vec::new(),
                row_a: Some(records_a[t].0),
                row_b: None,
                column_name: None,
                value_a: Some(join_strings(&records_a[t].1, "\t")),
                value_b: None,
                difference_type: DifferenceType::AOnly,
            };
            proof {
                assert(d.key_values.deep_view() =~= Seq::<KeyValueSpec>::empty());
            }
            differences.push(d);
            proof {
                assert(differences.deep_view() =~= before.push(d.deep_view()));
            }
        } else {
            let d = Difference {
                key_values: Vec::new(),
                row_a: None,
                row_b: Some(records_b[t].0),
                column_name: None,
                value_a: None,
                value_b: Some(join_strings(&records_b[t].1, "\t")),
                difference_type: DifferenceType::BOnly,
            };
            proof {
                assert(d.key_values.deep_view() =~= Seq::<KeyValueSpec>::empty());
            }
            differences.push(d);
            proof {
                assert(differences.deep_view() =~= before.push(d.deep_view()));
            }
        }
        t = t + 1;
        proof {
            assert(differences.deep_view() =~= start + concat_upto(s.piece_fn(), t as int));
        }
    }
    let mut result = CompareResult {
        identical: false,
        rows_a: n_a as u64,
        rows_b: n_b as u64,
        key_columns: Vec::new(),
        compared_columns: compared,
        excluded_columns: excluded.clone(),
        column_a_only,
        column_b_only,
        matched_records: matched as u64,
        same_records: same,
        different_records: different,
        a_only_records: (n_a - matched) as u64,
        b_only_records: (n_b - matched) as u64,
        duplicate_keys_a: 0,
        duplicate_keys_b: 0,
        empty_keys_a: 0,
        empty_keys_b: 0,
        incomplete_keys_a: 0,
        incomplete_keys_b: 0,
        different_cells: cells,
        differences,
        duplicate_details_a: Vec::new(),
        duplicate_details_b: Vec::new(),
        file_a_name: String::new(),
        file_b_name: String::new(),
        file_a_encoding: String::new(),
        file_b_encoding: String::new(),
        file_a_delimiter: String::new(),
        file_b_delimiter: String::new(),
        compare_mode: owned(format_mode(ComparisonMode::RowByRow)),
        compare_time: String::new(),
        cancelled: false,
    };
    result.identical = is_identical(&result);
    proof {
        assert(result.key_columns.deep_view().len() == 0);
        assert(result.duplicate_details_a.deep_view().len() == 0);
        assert(result.duplicate_details_b.deep_view().len() == 0);
    }
    Ok(result)
}

/// The records of `entries` after `n` reading steps: those of entries `1 ..= n`,
/// or of all entries once `n` passes the end, or the first problem among them.
pub open spec fn spec_records_at(entries: Seq<(bool, Seq<Seq<char>>)>, header_len: nat, n: int) -> Result<Seq<RecordSpec>, AppErrorSpec> {
    spec_records_upto(entries, header_len, true, if n < entries.len() { n } else { entries.len() - 1 })
}

/// Two files read side by side for `n` steps, each step reading a record of A
/// and then one of B, stopping at the first problem.
pub open spec fn spec_paired_upto(
    entries_a: Seq<(bool, Seq<Seq<char>>)>,
    header_len_a: nat,
    entries_b: Seq<(bool, Seq<Seq<char>>)>,
    header_len_b: nat,
    n: int,
) -> Result<(Seq<RecordSpec>, Seq<RecordSpec>), AppErrorSpec>
    decreases n,
{
    if n <= 0 {
        Ok((Seq::empty(), Seq::empty()))
    } else {
        match spec_paired_upto(entries_a, header_len_a, entries_b, header_len_b, n - 1) {
            Err(e) => Err(e),
            Ok(_) => match spec_records_at(entries_a, header_len_a, n) {
                Err(e) => Err(e),
                Ok(records_a) => match spec_records_at(entries_b, header_len_b, n) {
                    Err(e) => Err(e),
                    Ok(records_b) => Ok((records_a, records_b)),
                },
            },
        }
    }
}

/// Both files read side by side to the end of the longer one.
pub open spec fn spec_paired_records(
    entries_a: Seq<(bool, Seq<Seq<char>>)>,
    header_len_a: nat,
    entries_b: Seq<(bool, Seq<Seq<char>>)>,
    header_len_b: nat,
) -> Result<(Seq<RecordSpec>, Seq<RecordSpec>), AppErrorSpec> {
    let steps = if entries_a.len() < entries_b.len() { entries_b.len() - 1 } else { entries_a.len() - 1 };
    spec_paired_upto(entries_a, header_len_a, entries_b, header_len_b, steps)
}

proof fn lemma_paired_err(
    entries_a: Seq<(bool, Seq<Seq<char>>)>,
    header_len_a: nat,
    entries_b: Seq<(bool, Seq<Seq<char>>)>,
    header_len_b: nat,
    m: int,
    n: int,
)
    requires
        m <= n,
        spec_paired_upto(entries_a, header_len_a, entries_b, header_len_b, m) is Err,
    ensures
        spec_paired_upto(entries_a, header_len_a, entries_b, header_len_b, n)
            == spec_paired_upto(entries_a, header_len_a, entries_b, header_len_b, m),
    decreases n - m,
{
    if m < n {
        lemma_paired_err(entries_a, header_len_a, entries_b, header_len_b, m, n - 1);
    }
}

proof fn lemma_paired_stable(
    entries_a: Seq<(bool, Seq<Seq<char>>)>,
    header_len_a: nat,
    entries_b: Seq<(bool, Seq<Seq<char>>)>,
    header_len_b: nat,
    m: int,
    n: int,
)
    requires
        1 <= entries_a.len(),
        1 <= entries_b.len(),
        entries_a.len() - 1 <= m,
        entries_b.len() - 1 <= m,
        m <= n,
        spec_paired_upto(entries_a, header_len_a, entries_b, header_len_b, m) is Ok,
        m == 0 ==> spec_records_at(entries_a, header_len_a, 0) == Ok::<Seq<RecordSpec>, AppErrorSpec>(Seq::empty())
            && spec_records_at(entries_b, header_len_b, 0) == Ok::<Seq<RecordSpec>, AppErrorSpec>(Seq::empty()),
    ensures
        spec_paired_upto(entries_a, header_len_a, entries_b, header_len_b, n)
            == spec_paired_upto(entries_a, header_len_a, entries_b, header_len_b, m),
    decreases n - m,
{
    if m < n {
        lemma_paired_stable(entries_a, header_len_a, entries_b, header_len_b, m, n - 1);
    }
}

/// `reader` has taken `p` reading steps from its fresh state.
pub open spec fn tracks(reader: DelimitedReader, p: int) -> bool {
    &&& reader.wf()
    &&& reader.is_strict()
    &&& p >= 0
    &&& if p < reader.entries().len() {
        reader.position() == p + 1 && !reader.at_end()
    } else {
        reader.at_end() && reader.position() == reader.entries().len()
    }
}

/// One reading step: the next record, if any, is appended to `out`.
fn advance(reader: &mut DelimitedReader, out: &mut Vec<(u64, Vec<String>)>, Ghost(p): Ghost<int>) -> (r: Result<bool, AppError>)
    requires
        tracks(*old(reader), p),
        old(reader).records_read() == old(out)@.len(),
        spec_records_at(old(reader).entries(), old(reader).headers_view().len(), p)
            == Ok::<Seq<RecordSpec>, AppErrorSpec>(old(out).deep_view()),
    ensures
        final(reader).entries() == old(reader).entries(),
        final(reader).headers_view() == old(reader).headers_view(),
        match r {
            Ok(got) => {
                &&& got == (p + 1 < old(reader).entries().len())
                &&& tracks(*final(reader), p + 1)
                &&& final(reader).records_read() == final(out)@.len()
                &&& spec_records_at(old(reader).entries(), old(reader).headers_view().len(), p + 1)
                    == Ok::<Seq<RecordSpec>, AppErrorSpec>(final(out).deep_view())
            },
            Err(e) => {
                &&& p + 1 < old(reader).entries().len()
                &&& spec_records_at(old(reader).entries(), old(reader).headers_view().len(), p + 1)
                    == Err::<Seq<RecordSpec>, AppErrorSpec>(e.deep_view())
            },
        },
{
    let ghost entries = reader.entries();
    let ghost hl = reader.headers_view().len();
    let ghost before = out.deep_view();
    let ghost count = reader.records_read();
    proof {
        reader.lemma_wf();
        if p + 1 < entries.len() {
            lemma_records_upto_len(entries, hl, true, p);
        }
    }
    match reader.next_record() {
        Ok(Some(rec)) => {
            out.push(rec);
            proof {
                assert(out.deep_view() =~= before.push(rec.deep_view()));
            }
            Ok(true)
        },
        Ok(None) => Ok(false),
        Err(e) => Err(e),
    }
}

/// Reads two fresh readers side by side, a record of A then one of B at each
/// step, until both are exhausted, stopping at the first problem or once
/// cancellation has been requested.
fn read_paired<P: Fn(u64, Option<u64>, &'static str)>(
    reader_a: &mut DelimitedReader,
    reader_b: &mut DelimitedReader,
    cancel: &AtomicBool,
    progress: &P,
) -> (r: Result<(Vec<(u64, Vec<String>)>, Vec<(u64, Vec<String>)>), AppError>)
    requires
        progress_ok(progress),
        tracks(*old(reader_a), 0),
        old(reader_a).records_read() == 0,
        tracks(*old(reader_b), 0),
        old(reader_b).records_read() == 0,
    ensures
        match r {
            Ok((records_a, records_b)) => spec_paired_records(
                old(reader_a).entries(),
                old(reader_a).headers_view().len(),
                old(reader_b).entries(),
                old(reader_b).headers_view().len(),
            ) == Ok::<(Seq<RecordSpec>, Seq<RecordSpec>), AppErrorSpec>((records_a.deep_view(), records_b.deep_view())),
            Err(e) => e.deep_view() == AppErrorSpec::Cancelled || spec_paired_records(
                old(reader_a).entries(),
                old(reader_a).headers_view().len(),
                old(reader_b).entries(),
                old(reader_b).headers_view().len(),
            ) == Err::<(Seq<RecordSpec>, Seq<RecordSpec>), AppErrorSpec>(e.deep_view()),
        },
{
    let ghost ea = reader_a.entries();
    let ghost ha = reader_a.headers_view().len();
    let ghost eb = reader_b.entries();
    let ghost hb = reader_b.headers_view().len();
    let ghost steps: int = if ea.len() < eb.len() { eb.len() - 1 } else { ea.len() - 1 };
    let mut out_a: Vec<(u64, Vec<String>)> = Vec::new();
    let mut out_b: Vec<(u64, Vec<String>)> = Vec::new();
    let ghost mut p: int = 0;
    let mut processed: u64 = 0;
    proof {
        reader_a.lemma_wf();
        reader_b.lemma_wf();
        assert(out_a.deep_view() =~= Seq::<RecordSpec>::empty());
        assert(out_b.deep_view() =~= Seq::<RecordSpec>::empty());
    }
    loop
        invariant
            ea == old(reader_a).entries(),
            ha == old(reader_a).headers_view().len(),
            eb == old(reader_b).entries(),
            hb == old(reader_b).headers_view().len(),
            steps == (if ea.len() < eb.len() { eb.len() - 1 } else { ea.len() - 1 }),
            reader_a.entries() == ea,
            reader_a.headers_view().len() == ha,
            reader_b.entries() == eb,
            reader_b.headers_view().len() == hb,
            tracks(*reader_a, p),
            tracks(*reader_b, p),
            0 <= p <= steps,
            reader_a.records_read() == out_a@.len(),
            reader_b.records_read() == out_b@.len(),
            spec_records_at(ea, ha, p) == Ok::<Seq<RecordSpec>, AppErrorSpec>(out_a.deep_view()),
            spec_records_at(eb, hb, p) == Ok::<Seq<RecordSpec>, AppErrorSpec>(out_b.deep_view()),
            spec_paired_upto(ea, ha, eb, hb, p)
                == Ok::<(Seq<RecordSpec>, Seq<RecordSpec>), AppErrorSpec>((out_a.deep_view(), out_b.deep_view())),
            processed == p,
            progress_ok(progress),
        decreases steps - p,
    {
        check_cancel(cancel)?;
        proof {
            reader_a.lemma_wf();
            reader_b.lemma_wf();
        }
        processed = processed + 1;
        report_progress(progress, processed, 2000, "依資料列順序比對");
        let got_a = match advance(reader_a, &mut out_a, Ghost(p)) {
            Ok(g) => g,
            Err(e) => {
                proof {
                    lemma_paired_err(ea, ha, eb, hb, p + 1, steps);
                }
                return Err(e);
            },
        };
        let got_b = match advance(reader_b, &mut out_b, Ghost(p)) {
            Ok(g) => g,
            Err(e) => {
                proof {
                    lemma_paired_err(ea, ha, eb, hb, p + 1, steps);
                }
                return Err(e);
            },
        };
        proof {
            p = p + 1;
        }
        if !got_a && !got_b {
            proof {
                reader_a.lemma_wf();
                reader_b.lemma_wf();
                lemma_paired_stable(ea, ha, eb, hb, steps, p);
            }
            return Ok((out_a, out_b));
        }
    }
}

/// What a row-by-row comparison of two files' contents starts from: both files
/// opened and read side by side, or the first problem met: file A opened, file
/// B opened, then the first problem met while reading them side by side.
pub open spec fn spec_row_inputs(opts: CompareOptions, bytes_a: Seq<u8>, bytes_b: Seq<u8>) -> Result<(OpenedFileSpec, Seq<RecordSpec>, OpenedFileSpec, Seq<RecordSpec>), AppErrorSpec> {
    match spec_open_file(bytes_a, opts.file_a_parse_options.encoding, opts.file_a_parse_options.delimiter) {
        Err(e) => Err(e),
        Ok(a) => match spec_open_file(bytes_b, opts.file_b_parse_options.encoding, opts.file_b_parse_options.delimiter) {
            Err(e) => Err(e),
            Ok(b) => match spec_paired_records(a.entries, a.headers.len(), b.entries, b.headers.len()) {
                Err(e) => Err(e),
                Ok((records_a, records_b)) => Ok((a, records_a, b, records_b)),
            },
        },
    }
}

/// The result `r` of comparing two opened files reports exactly their
/// row-by-row comparison, with the files' names, encodings and delimiters.
pub open spec fn row_based_result(r: CompareResultSpec, opts: CompareOptions, a: OpenedFileSpec, records_a: Seq<RecordSpec>, b: OpenedFileSpec, records_b: Seq<RecordSpec>) -> bool {
    &&& row_result_matches(
        r,
        spec_row_compare(
            a.headers,
            records_a,
            b.headers,
            records_b,
            opts.excluded_columns.deep_view(),
            CompareSettings { trim_whitespace: opts.trim_whitespace, ignore_case: opts.ignore_case },
        ),
        opts.excluded_columns.deep_view(),
    )
    &&& r.file_a_name == spec_file_name(opts.file_a_path@)
    &&& r.file_b_name == spec_file_name(opts.file_b_path@)
    &&& r.file_a_encoding == a.encoding.spec_label()
    &&& r.file_b_encoding == b.encoding.spec_label()
    &&& r.file_a_delimiter == spec_delimiter_label(a.delimiter)
    &&& r.file_b_delimiter == spec_delimiter_label(b.delimiter)
    &&& r.compare_mode == super::difference::spec_format_mode(opts.comparison_mode)
}

/// Row-by-row comparison of the contents of two files: the n-th record of A is
/// paired with the n-th record of B, columns matched by header name. Fails with
/// the first problem met, or with `Cancelled` once cancellation has been
/// requested. The time of the comparison is the clock's.
pub fn compare_row_by_row<P: Fn(u64, Option<u64>, &'static str)>(
    opts: &CompareOptions,
    bytes_a: &[u8],
    bytes_b: &[u8],
    cancel: &AtomicBool,
    progress: &P,
) -> (r: Result<CompareResult, AppError>)
    requires
        progress_ok(progress),
    ensures
        match r {
            Ok(res) => match spec_row_inputs(*opts, bytes_a@, bytes_b@) {
                Ok((a, records_a, b, records_b)) => row_based_result(res.deep_view(), *opts, a, records_a, b, records_b),
                Err(_) => false,
            },
            Err(e) => e.deep_view() == AppErrorSpec::Cancelled
                || spec_row_inputs(*opts, bytes_a@, bytes_b@) == Err::<(OpenedFileSpec, Seq<RecordSpec>, OpenedFileSpec, Seq<RecordSpec>), AppErrorSpec>(e.deep_view()),
        },        r matches Ok(res) ==> super::util::spec_is_timestamp(res.compare_time@),
{
    check_cancel(cancel)?;
    let (mut reader_a, layout_a, enc_a, delim_a) = open_for_compare(bytes_a, opts.file_a_parse_options)?;
    let (mut reader_b, layout_b, enc_b, delim_b) = open_for_compare(bytes_b, opts.file_b_parse_options)?;
    let (records_a, records_b) = read_paired(&mut reader_a, &mut reader_b, cancel, progress)?;
    let settings = settings_from(opts);
    let mut result = compare_row_records(
        &layout_a,
        &records_a,
        &layout_b,
        &records_b,
        &opts.excluded_columns,
        settings,
        Some(cancel),
    )?;
    check_cancel(cancel)?;
    result.file_a_name = file_name(opts.file_a_path.as_str());
    result.file_b_name = file_name(opts.file_b_path.as_str());
    result.file_a_encoding = enc_a;
    result.file_b_encoding = enc_b;
    result.file_a_delimiter = delim_a;
    result.file_b_delimiter = delim_b;
    result.compare_mode = owned(format_mode(opts.comparison_mode));
    result.compare_time = now_string();
    Ok(result)
}

/// How many of `ds` are of kind `kind`.
pub open spec fn spec_count_kind(ds: Seq<DifferenceSpec>, kind: DifferenceType) -> nat
    decreases ds.len(),
{
    if ds.len() == 0 {
        0
    } else {
        spec_count_kind(ds.drop_last(), kind) + if ds.last().difference_type == kind {
            1nat
        } else {
            0nat
        }
    }
}

/// The B_ONLY entry of a record that only file B has at its position.
pub open spec fn spec_b_only_entry(record: RecordSpec) -> DifferenceSpec {
    DifferenceSpec {
        key_values: Seq::empty(),
        row_a: None,
        row_b: Some(record.0),
        column_name: None,
        value_a: None,
        value_b: Some(spec_join(record.1, "\t"@)),
        difference_type: DifferenceType::BOnly,
    }
}

/// The A_ONLY entry of a record that only file A has at its position.
pub open spec fn spec_a_only_entry(record: RecordSpec) -> DifferenceSpec {
    DifferenceSpec {
        key_values: Seq::empty(),
        row_a: Some(record.0),
        row_b: None,
        column_name: None,
        value_a: Some(spec_join(record.1, "\t"@)),
        value_b: None,
        difference_type: DifferenceType::AOnly,
    }
}

pub proof fn lemma_count_kind_concat(x: Seq<DifferenceSpec>, y: Seq<DifferenceSpec>, kind: DifferenceType)
    ensures
        spec_count_kind(x + y, kind) == spec_count_kind(x, kind) + spec_count_kind(y, kind),
    decreases y.len(),
{
    if y.len() == 0 {
        assert(x + y =~= x);
    } else {
        lemma_count_kind_concat(x, y.drop_last(), kind);
        assert((x + y).drop_last() =~= x + y.drop_last());
        assert((x + y).last() == y.last());
    }
}

pub proof fn lemma_count_kind_none(ds: Seq<DifferenceSpec>, kind: DifferenceType)
    requires
        forall|i: int| 0 <= i < ds.len() ==> (#[trigger] ds[i]).difference_type != kind,
    ensures
        spec_count_kind(ds, kind) == 0,
    decreases ds.len(),
{
    if ds.len() > 0 {
        let init = ds.drop_last();
        assert forall|i: int| 0 <= i < init.len() implies (#[trigger] init[i]).difference_type != kind by {
            assert(init[i] == ds[i]);
        }
        lemma_count_kind_none(init, kind);
    }
}

/// Every differing cell is reported as VALUE_CHANGED.
pub proof fn lemma_cell_changes_kind(
    headers_a: Seq<Seq<char>>,
    a: RecordSpec,
    headers_b: Seq<Seq<char>>,
    b: RecordSpec,
    compared: Seq<Seq<char>>,
    settings: CompareSettings,
    key_values: Seq<KeyValueSpec>,
    n: int,
)
    ensures
        forall|i: int| 0 <= i < spec_cell_changes(headers_a, a, headers_b, b, compared, settings, key_values, n).len()
            ==> (#[trigger] spec_cell_changes(headers_a, a, headers_b, b, compared, settings, key_values, n)[i]).difference_type
                == DifferenceType::ValueChanged,
    decreases n,
{
    if n > 0 {
        lemma_cell_changes_kind(headers_a, a, headers_b, b, compared, settings, key_values, n - 1);
    }
}

/// Counting the positions from `lo` on below `n`.
proof fn lemma_count_from(lo: int, n: int)
    requires
        0 <= lo,
        0 <= n,
    ensures
        count_upto(|t: int| lo <= t, n) == if n > lo { n - lo } else { 0 },
    decreases n,
{
    if n > 0 {
        lemma_count_from(lo, n - 1);
    }
}

/// Among the pieces of the first `n` positions, one entry of kind B_ONLY per
/// position from the end of file A on, one of kind A_ONLY per position from the
/// end of file B on.
proof fn lemma_piece_kinds(s: RowCompareSpec, n: int)
    requires
        0 <= n <= s.span(),
    ensures
        spec_count_kind(concat_upto(s.piece_fn(), n), DifferenceType::BOnly) == count_upto(|t: int| s.records_a.len() <= t, n),
        spec_count_kind(concat_upto(s.piece_fn(), n), DifferenceType::AOnly) == count_upto(|t: int| s.records_b.len() <= t, n),
    decreases n,
{
    if n > 0 {
        lemma_piece_kinds(s, n - 1);
        let t = n - 1;
        let piece = s.piece(t);
        assert(s.piece_fn()(t) == piece);
        lemma_count_kind_concat(concat_upto(s.piece_fn(), t), piece, DifferenceType::BOnly);
        lemma_count_kind_concat(concat_upto(s.piece_fn(), t), piece, DifferenceType::AOnly);
        if t < s.matched() {
            lemma_cell_changes_kind(s.headers_a, s.records_a[t], s.headers_b, s.records_b[t], s.compared, s.settings, Seq::empty(), s.compared.len() as int);
            lemma_count_kind_none(piece, DifferenceType::BOnly);
            lemma_count_kind_none(piece, DifferenceType::AOnly);
        } else {
            assert(piece.drop_last() =~= Seq::<DifferenceSpec>::empty());
            assert(spec_count_kind(piece.drop_last(), DifferenceType::BOnly) == 0);
            assert(spec_count_kind(piece.drop_last(), DifferenceType::AOnly) == 0);
            assert(piece.last() == piece[0]);
            if t < s.records_a.len() {
                assert(piece[0].difference_type == DifferenceType::AOnly);
                assert(s.records_b.len() <= t);
            } else {
                assert(piece[0].difference_type == DifferenceType::BOnly);
                assert(t < s.records_b.len());
            }
        }
        assert(concat_upto(s.piece_fn(), n) == concat_upto(s.piece_fn(), t) + piece);
        assert(count_upto(|x: int| s.records_a.len() <= x, n) == count_upto(|x: int| s.records_a.len() <= x, t)
            + if s.records_a.len() <= t { 1nat } else { 0nat });
        assert(count_upto(|x: int| s.records_b.len() <= x, n) == count_upto(|x: int| s.records_b.len() <= x, t)
            + if s.records_b.len() <= t { 1nat } else { 0nat });
    }
}

/// Law: in a row-by-row result, every record left over in one file is listed:
/// each record of file B past the end of file A has its B_ONLY entry (its
/// record number as `row_b`, its fields joined by tabs as `value_b`), each
/// record of file A past the end of file B its A_ONLY entry, and the
/// differences hold exactly as many B_ONLY entries as `b_only_records` and as
/// many A_ONLY entries as `a_only_records`.
pub proof fn law_row_leftover_records_are_listed(r: CompareResultSpec, s: RowCompareSpec, excluded: Seq<Seq<char>>, j: int)
    requires
        row_result_matches(r, s, excluded),
    ensures
        s.records_a.len() <= j < s.records_b.len() ==> r.differences.contains(spec_b_only_entry(s.records_b[j])),
        s.records_b.len() <= j < s.records_a.len() ==> r.differences.contains(spec_a_only_entry(s.records_a[j])),
        spec_count_kind(r.differences, DifferenceType::BOnly) == r.b_only_records,
        spec_count_kind(r.differences, DifferenceType::AOnly) == r.a_only_records,
{
    let cols = spec_column_differences(s.headers_a, s.headers_b, excluded);
    let body = concat_upto(s.piece_fn(), s.span() as int);
    assert(r.differences == cols + body);
    if s.records_a.len() <= j < s.records_b.len() {
        assert(s.piece_fn()(j) == s.piece(j));
        assert(s.piece(j)[0] == spec_b_only_entry(s.records_b[j]));
        lemma_concat_contains(s.piece_fn(), s.span() as int, j, 0);
        let i = choose|i: int| 0 <= i < body.len() && body[i] == spec_b_only_entry(s.records_b[j]);
        assert(r.differences[cols.len() + i] == body[i]);
    }
    if s.records_b.len() <= j < s.records_a.len() {
        assert(s.piece_fn()(j) == s.piece(j));
        assert(s.piece(j)[0] == spec_a_only_entry(s.records_a[j]));
        lemma_concat_contains(s.piece_fn(), s.span() as int, j, 0);
        let i = choose|i: int| 0 <= i < body.len() && body[i] == spec_a_only_entry(s.records_a[j]);
        assert(r.differences[cols.len() + i] == body[i]);
    }
    let ca = spec_column_differences_of(spec_only_in(s.headers_a, s.headers_b, excluded), DifferenceType::ColumnAOnly);
    let cb = spec_column_differences_of(spec_only_in(s.headers_b, s.headers_a, excluded), DifferenceType::ColumnBOnly);
    assert forall|i: int| 0 <= i < cols.len() implies #[trigger] cols[i].difference_type != DifferenceType::BOnly
        && cols[i].difference_type != DifferenceType::AOnly by {
        if i < ca.len() {
            assert(cols[i] == ca[i]);
        } else {
            assert(cols[i] == cb[i - ca.len()]);
        }
    }
    lemma_count_kind_none(cols, DifferenceType::BOnly);
    lemma_count_kind_none(cols, DifferenceType::AOnly);
    lemma_count_kind_concat(cols, body, DifferenceType::BOnly);
    lemma_count_kind_concat(cols, body, DifferenceType::AOnly);
    lemma_piece_kinds(s, s.span() as int);
    lemma_count_from(s.records_a.len() as int, s.span() as int);
    lemma_count_from(s.records_b.len() as int, s.span() as int);
}

} // verus!
