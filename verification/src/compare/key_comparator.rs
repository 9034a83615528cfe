use std::sync::atomic::AtomicBool;
use vstd::prelude::*;

use crate::error::app_error::{AppError, AppErrorSpec};
use crate::models::compare_result::{CompareResult, CompareResultSpec};
use crate::text::owned;
use super::difference::{column_differences, columns_only_in, names_not_in, spec_not_in, spec_only_in, spec_present_in};
use crate::progress::{progress_ok, report_progress};
use super::util::{is_identical, spec_is_identical};
use crate::models::difference::{
    Difference, DifferenceSpec, DifferenceType, DuplicateKeyInfoSpec, KeyValueSpec,
};

use crate::models::composite_key::CompositeKey;
use crate::models::compare_options::CompareOptions;
use crate::parser::decoder::OpenedFileSpec;
use crate::parser::delimited_parser::spec_records;
use crate::parser::delimiter::spec_delimiter_label;
use crate::parser::reader::{file_name, spec_file_name};
use super::key_builder::{spec_validate_options, settings_from, validate_options};
use super::util::{now_string, open_for_compare};

use crate::text::join_strings;
use super::key_index::{lemma_occ, lemma_occ_prefix};
use super::difference::{
    push_record_changes, build_key_values, spec_column_differences, spec_key_status, spec_key_values,
    spec_record_changes, ColumnLayout, CompareSettings, KeyStatus, RecordSpec,
};
use super::duplicate_detector::{
    key_count, key_status_diff, spec_duplicate_infos, spec_key_status_diff, DuplicateTracker,
};
use super::key_builder::{spec_key_of, KeyBuilder};
use super::util::check_cancel;
use super::key_index::{first_keys, occ};
use super::tally::{concat_upto, count_upto};

verus! {

/// The inputs of a key-based comparison once both files have been read.
pub struct KeyCompareSpec {
    pub headers_a: Seq<Seq<char>>,
    pub records_a: Seq<RecordSpec>,
    pub headers_b: Seq<Seq<char>>,
    pub records_b: Seq<RecordSpec>,
    /// The key columns, in file A's header order.
    pub key_columns: Seq<Seq<char>>,
    /// The columns whose values are compared.
    pub compared: Seq<Seq<char>>,
    pub settings: CompareSettings,
}

/// The number of pairs among `pairs` whose records agree in every compared column.
pub open spec fn count_same(s: KeyCompareSpec, pairs: Seq<(int, int)>) -> nat
    decreases pairs.len(),
{
    if pairs.len() == 0 {
        0
    } else {
        count_same(s, pairs.drop_last()) + if s.changes(pairs.last().0, pairs.last().1).len() == 0 {
            1nat
        } else {
            0nat
        }
    }
}

/// The number of pairs among `pairs` whose records differ in some compared column.
pub open spec fn count_different(s: KeyCompareSpec, pairs: Seq<(int, int)>) -> nat
    decreases pairs.len(),
{
    if pairs.len() == 0 {
        0
    } else {
        count_different(s, pairs.drop_last()) + if s.changes(pairs.last().0, pairs.last().1).len() > 0 {
            1nat
        } else {
            0nat
        }
    }
}

/// The VALUE_CHANGED differences of all pairs among `pairs`, pair by pair.
pub open spec fn pair_changes(s: KeyCompareSpec, pairs: Seq<(int, int)>) -> Seq<DifferenceSpec>
    decreases pairs.len(),
{
    if pairs.len() == 0 {
        Seq::empty()
    } else {
        pair_changes(s, pairs.drop_last()) + s.changes(pairs.last().0, pairs.last().1)
    }
}

impl KeyCompareSpec {
    /// The key of record `i` of file A.
    pub open spec fn key_a(self, i: int) -> Seq<Seq<char>> {
        spec_key_of(self.key_columns, self.headers_a, self.records_a[i].1)
    }

    /// The key of record `j` of file B.
    pub open spec fn key_b(self, j: int) -> Seq<Seq<char>> {
        spec_key_of(self.key_columns, self.headers_b, self.records_b[j].1)
    }

    pub open spec fn keys_a(self) -> Seq<Seq<Seq<char>>> {
        Seq::new(self.records_a.len(), |i: int| self.key_a(i))
    }

    pub open spec fn keys_b(self) -> Seq<Seq<Seq<char>>> {
        Seq::new(self.records_b.len(), |j: int| self.key_b(j))
    }

    pub open spec fn status_a(self, i: int) -> KeyStatus {
        spec_key_status(self.key_a(i))
    }

    pub open spec fn status_b(self, j: int) -> KeyStatus {
        spec_key_status(self.key_b(j))
    }

    /// Which records of file A have a usable key.
    pub open spec fn valid_a(self) -> Seq<bool> {
        Seq::new(self.records_a.len(), |i: int| self.status_a(i) == KeyStatus::Valid)
    }

    /// Which records of file B have a usable key.
    pub open spec fn valid_b(self) -> Seq<bool> {
        Seq::new(self.records_b.len(), |j: int| self.status_b(j) == KeyStatus::Valid)
    }

    /// How many records of file A carry the usable key `k`.
    pub open spec fn count_a(self, k: Seq<Seq<char>>) -> nat {
        key_count(self.keys_a(), self.valid_a(), k)
    }

    /// How many records of file B carry the usable key `k`.
    pub open spec fn count_b(self, k: Seq<Seq<char>>) -> nat {
        key_count(self.keys_b(), self.valid_b(), k)
    }

    /// The positions of the records of file A that carry the usable key `k`.
    pub open spec fn occ_a(self, k: Seq<Seq<char>>) -> Seq<usize> {
        occ(self.keys_a(), self.valid_a(), k, self.records_a.len() as int)
    }

    /// The positions of the records of file B that carry the usable key `k`.
    pub open spec fn occ_b(self, k: Seq<Seq<char>>) -> Seq<usize> {
        occ(self.keys_b(), self.valid_b(), k, self.records_b.len() as int)
    }

    /// Whether record `i` of file A is the first to carry its (usable) key.
    pub open spec fn first_in_a(self, i: int) -> bool {
        self.valid_a()[i] && occ(self.keys_a(), self.valid_a(), self.key_a(i), i).len() == 0
    }

    /// The key columns with their values in record `i` of file A.
    pub open spec fn key_values_a(self, i: int) -> Seq<KeyValueSpec> {
        spec_key_values(self.key_columns, self.headers_a, self.records_a[i].1)
    }

    /// The key columns with their values in record `j` of file B.
    pub open spec fn key_values_b(self, j: int) -> Seq<KeyValueSpec> {
        spec_key_values(self.key_columns, self.headers_b, self.records_b[j].1)
    }

    /// The cells in which record `i` of A and record `j` of B differ.
    pub open spec fn changes(self, i: int, j: int) -> Seq<DifferenceSpec> {
        spec_record_changes(
            self.headers_a,
            self.records_a[i],
            self.headers_b,
            self.records_b[j],
            self.compared,
            self.settings,
            self.key_values_a(i),
        )
    }

    /// The key problem reported for record `i` of file A, if any.
    pub open spec fn a_issue(self, i: int) -> Seq<DifferenceSpec> {
        match spec_key_status_diff(self.status_a(i), true, self.key_values_a(i), self.records_a[i].0) {
            Some(d) => seq![d],
            None => Seq::empty(),
        }
    }

    pub open spec fn a_issue_fn(self) -> spec_fn(int) -> Seq<DifferenceSpec> {
        |i: int| self.a_issue(i)
    }

    /// The B_ONLY difference for record `j` of file B.
    pub open spec fn b_only_diff(self, j: int) -> DifferenceSpec {
        DifferenceSpec {
            key_values: self.key_values_b(j),
            row_a: None,
            row_b: Some(self.records_b[j].0),
            column_name: None,
            value_a: None,
            value_b: Some(crate::text::spec_join(self.records_b[j].1, "\t"@)),
            difference_type: DifferenceType::BOnly,
        }
    }

    /// Whether record `j` of file B is paired with the single record of file A
    /// that has its key: the key is usable and unique in both files.
    pub open spec fn b_matched(self, j: int) -> bool {
        self.valid_b()[j] && self.count_b(self.key_b(j)) == 1 && self.count_a(self.key_b(j)) == 1
    }

    /// Whether record `j` of file B has a usable key that is unique in B and absent from A.
    pub open spec fn b_only(self, j: int) -> bool {
        self.valid_b()[j] && self.count_b(self.key_b(j)) == 1 && self.count_a(self.key_b(j)) == 0
    }

    /// What record `j` of file B contributes to the differences: its key problem,
    /// the cells in which it differs from its partner, or its B_ONLY entry.
    pub open spec fn b_piece(self, j: int) -> Seq<DifferenceSpec> {
        if self.status_b(j) != KeyStatus::Valid {
            match spec_key_status_diff(self.status_b(j), false, self.key_values_b(j), self.records_b[j].0) {
                Some(d) => seq![d],
                None => Seq::empty(),
            }
        } else if self.b_matched(j) {
            self.changes(self.occ_a(self.key_b(j))[0] as int, j)
        } else if self.b_only(j) {
            seq![self.b_only_diff(j)]
        } else {
            Seq::empty()
        }
    }

    pub open spec fn b_piece_fn(self) -> spec_fn(int) -> Seq<DifferenceSpec> {
        |j: int| self.b_piece(j)
    }

    /// The pair formed by record `j` of file B, if any.
    pub open spec fn b_pair(self, j: int) -> Seq<(int, int)> {
        if self.b_matched(j) {
            seq![(self.occ_a(self.key_b(j))[0] as int, j)]
        } else {
            Seq::empty()
        }
    }

    pub open spec fn b_pair_fn(self) -> spec_fn(int) -> Seq<(int, int)> {
        |j: int| self.b_pair(j)
    }

    /// Whether record `i` of file A opens a key that is duplicated in both files.
    pub open spec fn dup_both(self, i: int) -> bool {
        self.first_in_a(i) && self.count_a(self.key_a(i)) >= 2 && self.count_b(self.key_a(i)) >= 2
    }

    /// For a key duplicated in both files, opened by record `i` of A: its
    /// occurrences paired in order, as far as both files have them.
    pub open spec fn dup_pairs(self, i: int) -> Seq<(int, int)> {
        if self.dup_both(i) {
            let k = self.key_a(i);
            let m = if self.count_a(k) <= self.count_b(k) {
                self.count_a(k)
            } else {
                self.count_b(k)
            };
            Seq::new(m, |p: int| (self.occ_a(k)[p] as int, self.occ_b(k)[p] as int))
        } else {
            Seq::empty()
        }
    }

    pub open spec fn dup_pairs_fn(self) -> spec_fn(int) -> Seq<(int, int)> {
        |i: int| self.dup_pairs(i)
    }

    pub open spec fn dup_changes_fn(self) -> spec_fn(int) -> Seq<DifferenceSpec> {
        |i: int| pair_changes(self, self.dup_pairs(i))
    }

    /// Whether record `i` of file A has a usable key that is unique in A and absent from B.
    pub open spec fn a_only(self, i: int) -> bool {
        self.valid_a()[i] && self.count_a(self.key_a(i)) == 1 && self.count_b(self.key_a(i)) == 0
    }

    /// The A_ONLY entry of record `i` of file A, if it has one.
    pub open spec fn a_only_piece(self, i: int) -> Seq<DifferenceSpec> {
        if self.a_only(i) {
            seq![DifferenceSpec {
                key_values: self.key_values_a(i),
                row_a: Some(self.records_a[i].0),
                row_b: None,
                column_name: None,
                value_a: Some(crate::text::spec_join(self.records_a[i].1, "\t"@)),
                value_b: None,
                difference_type: DifferenceType::AOnly,
            }]
        } else {
            Seq::empty()
        }
    }

    pub open spec fn a_only_fn(self) -> spec_fn(int) -> Seq<DifferenceSpec> {
        |i: int| self.a_only_piece(i)
    }

    /// All matched pairs `(record of A, record of B)`: first those made by
    /// unique keys, in file B's order; then those of keys duplicated in both
    /// files, key by key in file A's order.
    pub open spec fn pairs(self) -> Seq<(int, int)> {
        concat_upto(self.b_pair_fn(), self.records_b.len() as int) + concat_upto(
            self.dup_pairs_fn(),
            self.records_a.len() as int,
        )
    }

    /// All differences, in the order in which they are reported.
    pub open spec fn differences(self, excluded: Seq<Seq<char>>) -> Seq<DifferenceSpec> {
        concat_upto(self.a_issue_fn(), self.records_a.len() as int) + spec_column_differences(
            self.headers_a,
            self.headers_b,
            excluded,
        ) + concat_upto(self.b_piece_fn(), self.records_b.len() as int) + concat_upto(
            self.dup_changes_fn(),
            self.records_a.len() as int,
        ) + concat_upto(self.a_only_fn(), self.records_a.len() as int)
    }

    pub open spec fn empty_a_fn(self) -> spec_fn(int) -> bool {
        |i: int| self.status_a(i) == KeyStatus::Empty
    }

    pub open spec fn incomplete_a_fn(self) -> spec_fn(int) -> bool {
        |i: int| self.status_a(i) == KeyStatus::Incomplete
    }

    pub open spec fn empty_b_fn(self) -> spec_fn(int) -> bool {
        |j: int| self.status_b(j) == KeyStatus::Empty
    }

    pub open spec fn incomplete_b_fn(self) -> spec_fn(int) -> bool {
        |j: int| self.status_b(j) == KeyStatus::Incomplete
    }

    pub open spec fn a_only_pred(self) -> spec_fn(int) -> bool {
        |i: int| self.a_only(i)
    }

    pub open spec fn b_only_pred(self) -> spec_fn(int) -> bool {
        |j: int| self.b_only(j)
    }

    pub open spec fn empty_keys_a(self) -> nat {
        count_upto(self.empty_a_fn(), self.records_a.len() as int)
    }

    pub open spec fn incomplete_keys_a(self) -> nat {
        count_upto(self.incomplete_a_fn(), self.records_a.len() as int)
    }

    pub open spec fn empty_keys_b(self) -> nat {
        count_upto(self.empty_b_fn(), self.records_b.len() as int)
    }

    pub open spec fn incomplete_keys_b(self) -> nat {
        count_upto(self.incomplete_b_fn(), self.records_b.len() as int)
    }

    pub open spec fn a_only_records(self) -> nat {
        count_upto(self.a_only_pred(), self.records_a.len() as int)
    }

    pub open spec fn b_only_records(self) -> nat {
        count_upto(self.b_only_pred(), self.records_b.len() as int)
    }

    /// The rows of the records of file A.
    pub open spec fn rows_a(self) -> Seq<u64> {
        Seq::new(self.records_a.len(), |i: int| self.records_a[i].0)
    }

    /// The rows of the records of file B.
    pub open spec fn rows_b(self) -> Seq<u64> {
        Seq::new(self.records_b.len(), |j: int| self.records_b[j].0)
    }

    /// The duplicate-key reports of file A.
    pub open spec fn duplicates_a(self) -> Seq<DuplicateKeyInfoSpec> {
        let fk = first_keys(self.keys_a(), self.valid_a(), self.records_a.len() as int);
        spec_duplicate_infos("File A"@, self.key_columns, self.keys_a(), self.valid_a(), self.rows_a(), fk, fk.len() as int)
    }

    /// The duplicate-key reports of file B.
    pub open spec fn duplicates_b(self) -> Seq<DuplicateKeyInfoSpec> {
        let fk = first_keys(self.keys_b(), self.valid_b(), self.records_b.len() as int);
        spec_duplicate_infos("File B"@, self.key_columns, self.keys_b(), self.valid_b(), self.rows_b(), fk, fk.len() as int)
    }
}


/// Fails with `Cancelled` when a cancellation flag is given and set.
pub fn poll_cancel(cancel: Option<&AtomicBool>) -> (r: Result<(), AppError>)
    ensures
        r matches Err(e) ==> cancel is Some && e.deep_view() == AppErrorSpec::Cancelled,
{
    match cancel {
        Some(c) => check_cancel(c),
        None => Ok(()),
    }
}

/// The keys of one file's records, their statuses, and a tally of the usable ones.
pub struct KeyScan {
    pub keys: Vec<CompositeKey>,
    pub statuses: Vec<KeyStatus>,
    pub tracker: DuplicateTracker,
}

/// What `scan_keys` promises of a scan of `records` under `headers`.
pub open spec fn scan_matches(scan: KeyScan, columns: Seq<Seq<char>>, headers: Seq<Seq<char>>, records: Seq<RecordSpec>) -> bool {
    &&& scan.tracker.wf()
    &&& scan.keys@.len() == records.len()
    &&& scan.statuses@.len() == records.len()
    &&& forall|i: int| 0 <= i < records.len() ==> (#[trigger] scan.keys@[i])@ == spec_key_of(columns, headers, records[i].1)
    &&& forall|i: int| 0 <= i < records.len() ==> #[trigger] scan.statuses@[i] == spec_key_status(spec_key_of(columns, headers, records[i].1))
    &&& scan.tracker.keys() == Seq::new(records.len(), |i: int| spec_key_of(columns, headers, records[i].1))
    &&& scan.tracker.counted() == Seq::new(records.len(), |i: int| spec_key_status(spec_key_of(columns, headers, records[i].1)) == KeyStatus::Valid)
    &&& scan.tracker.rows() == Seq::new(records.len(), |i: int| records[i].0)
}

/// Builds the key of every record and tallies the usable keys.
pub fn scan_keys(
    builder: &KeyBuilder,
    layout: &ColumnLayout,
    records: &Vec<(u64, Vec<String>)>,
    cancel: Option<&AtomicBool>,
) -> (r: Result<KeyScan, AppError>)
    requires
        layout.wf(),
    ensures
        match r {
            Ok(scan) => scan_matches(scan, builder.columns_view(), layout.headers.deep_view(), records.deep_view()),
            Err(e) => cancel is Some && e.deep_view() == AppErrorSpec::Cancelled,
        },
{
    let ghost cols = builder.columns_view();
    let ghost hs = layout.headers.deep_view();
    let ghost rs = records.deep_view();
    let mut keys: Vec<CompositeKey> = Vec::new();
    let mut statuses: Vec<KeyStatus> = Vec::new();
    let mut tracker = DuplicateTracker::new();
    let mut i: usize = 0;
    while i < records.len()
        invariant
            layout.wf(),
            cols == builder.columns_view(),
            hs == layout.headers.deep_view(),
            rs == records.deep_view(),
            i <= records.len(),
            tracker.wf(),
            keys@.len() == i,
            statuses@.len() == i,
            forall|t: int| 0 <= t < i ==> (#[trigger] keys@[t])@ == spec_key_of(cols, hs, rs[t].1),
            forall|t: int| 0 <= t < i ==> #[trigger] statuses@[t] == spec_key_status(spec_key_of(cols, hs, rs[t].1)),
            tracker.keys() == Seq::new(i as nat, |t: int| spec_key_of(cols, hs, rs[t].1)),
            tracker.counted() == Seq::new(i as nat, |t: int| spec_key_status(spec_key_of(cols, hs, rs[t].1)) == KeyStatus::Valid),
            tracker.rows() == Seq::new(i as nat, |t: int| rs[t].0),
        decreases records.len() - i,
    {
        poll_cancel(cancel)?;
        let record = &records[i];
        let (key, status) = builder.build(&record.1, layout);
        proof {
            assert(record.deep_view() == rs[i as int]);
        }
        tracker.record_event(key.0.clone(), record.0, status == KeyStatus::Valid);
        keys.push(key);
        statuses.push(status);
        proof {
            assert(tracker.keys() =~= Seq::new((i + 1) as nat, |t: int| spec_key_of(cols, hs, rs[t].1)));
            assert(tracker.counted() =~= Seq::new((i + 1) as nat, |t: int| spec_key_status(spec_key_of(cols, hs, rs[t].1)) == KeyStatus::Valid));
            assert(tracker.rows() =~= Seq::new((i + 1) as nat, |t: int| rs[t].0));
        }
        i = i + 1;
    }
    Ok(KeyScan { keys, statuses, tracker })
}


/// The two files' layouts and records, the key builder and the compared
/// columns are those that `s` describes.
pub open spec fn inputs_match(
    s: KeyCompareSpec,
    builder: &KeyBuilder,
    layout_a: &ColumnLayout,
    records_a: &Vec<(u64, Vec<String>)>,
    layout_b: &ColumnLayout,
    records_b: &Vec<(u64, Vec<String>)>,
    compared: &Vec<String>,
    settings: CompareSettings,
) -> bool {
    &&& layout_a.wf()
    &&& layout_b.wf()
    &&& s.headers_a == layout_a.headers.deep_view()
    &&& s.headers_b == layout_b.headers.deep_view()
    &&& s.records_a == records_a.deep_view()
    &&& s.records_b == records_b.deep_view()
    &&& s.key_columns == builder.columns_view()
    &&& s.compared == compared.deep_view()
    &&& s.settings == settings
}

/// Appends the key problems of file A's records; returns how many keys were
/// empty and how many incomplete.
fn push_a_issues(
    out: &mut Vec<Difference>,
    builder: &KeyBuilder,
    layout_a: &ColumnLayout,
    records_a: &Vec<(u64, Vec<String>)>,
    scan_a: &KeyScan,
    Ghost(s): Ghost<KeyCompareSpec>,
) -> (r: (u64, u64))
    requires
        layout_a.wf(),
        s.headers_a == layout_a.headers.deep_view(),
        s.records_a == records_a.deep_view(),
        s.key_columns == builder.columns_view(),
        scan_matches(*scan_a, s.key_columns, s.headers_a, s.records_a),
    ensures
        final(out).deep_view() == old(out).deep_view() + concat_upto(s.a_issue_fn(), s.records_a.len() as int),
        r.0 == s.empty_keys_a(),
        r.1 == s.incomplete_keys_a(),
{
    let ghost start = out.deep_view();
    let mut empty: u64 = 0;
    let mut incomplete: u64 = 0;
    let mut i: usize = 0;
    while i < records_a.len()
        invariant
            layout_a.wf(),
            s.headers_a == layout_a.headers.deep_view(),
            s.records_a == records_a.deep_view(),
            s.key_columns == builder.columns_view(),
            scan_matches(*scan_a, s.key_columns, s.headers_a, s.records_a),
            i <= records_a.len(),
            out.deep_view() == start + concat_upto(s.a_issue_fn(), i as int),
            empty == count_upto(s.empty_a_fn(), i as int),
            incomplete == count_upto(s.incomplete_a_fn(), i as int),
            empty + incomplete <= i,
        decreases records_a.len() - i,
    {
        let status = scan_a.statuses[i];
        proof {
            assert(status == s.status_a(i as int));
            assert(records_a.deep_view()[i as int] == records_a@[i as int].deep_view());
        }
        if status != KeyStatus::Valid {
            let kv = build_key_values(builder.columns(), layout_a, &records_a[i].1);
            let d = key_status_diff(status, true, &kv, records_a[i].0);
            match d {
                Some(d) => {
                    let ghost prev = out.deep_view();
                    out.push(d);
                    proof {
                        assert(out.deep_view() =~= prev.push(d.deep_view()));
                    }
                },
                None => {},
            }
            if status == KeyStatus::Empty {
                empty = empty + 1;
            } else {
                incomplete = incomplete + 1;
            }
        }
        i = i + 1;
        proof {
            assert(out.deep_view() =~= start + concat_upto(s.a_issue_fn(), i as int));
        }
    }
    (empty, incomplete)
}


/// The matched pairs found so far, with how many of them agree, how many
/// differ, and how many cells differ.
pub struct PairTally {
    pub pairs: Vec<(usize, usize)>,
    pub same: u64,
    pub different: u64,
    pub cells: u64,
}

/// The pairs of a tally as pairs of integers.
pub open spec fn pairs_view(t: PairTally) -> Seq<(int, int)> {
    t.pairs@.map_values(|p: (usize, usize)| (p.0 as int, p.1 as int))
}

/// The tally describes the pairs `pairs_view(t)`.
pub open spec fn tally_ok(s: KeyCompareSpec, t: PairTally, out_len: nat) -> bool {
    &&& t.same == count_same(s, pairs_view(t))
    &&& t.different == count_different(s, pairs_view(t))
    &&& t.same + t.different == t.pairs@.len()
    &&& t.cells == pair_changes(s, pairs_view(t)).len()
    &&& t.cells <= out_len
}

/// Compares record `i` of A with record `j` of B, appends the cells in which they
/// differ and adds the pair to the tally.
fn add_pair(
    out: &mut Vec<Difference>,
    tally: &mut PairTally,
    builder: &KeyBuilder,
    layout_a: &ColumnLayout,
    records_a: &Vec<(u64, Vec<String>)>,
    layout_b: &ColumnLayout,
    records_b: &Vec<(u64, Vec<String>)>,
    compared: &Vec<String>,
    settings: CompareSettings,
    i: usize,
    j: usize,
    Ghost(s): Ghost<KeyCompareSpec>,
)
    requires
        inputs_match(s, builder, layout_a, records_a, layout_b, records_b, compared, settings),
        i < records_a.len(),
        j < records_b.len(),
        tally_ok(s, *old(tally), old(out).deep_view().len()),
    ensures
        final(out).deep_view() == old(out).deep_view() + s.changes(i as int, j as int),
        pairs_view(*final(tally)) == pairs_view(*old(tally)).push((i as int, j as int)),
        tally_ok(s, *final(tally), final(out).deep_view().len()),
{
    let ghost ps = pairs_view(*tally);
    let ghost old_len = out.deep_view().len();
    let kv = build_key_values(builder.columns(), layout_a, &records_a[i].1);
    proof {
        assert(records_a.deep_view()[i as int] == records_a@[i as int].deep_view());
        assert(records_b.deep_view()[j as int] == records_b@[j as int].deep_view());
    }
    let n = push_record_changes(out, layout_a, &records_a[i], layout_b, &records_b[j], compared, settings, &kv);
    let total = out.len();
    proof {
        assert(out.deep_view().len() == old_len + n);
        assert(total == out.deep_view().len());
        assert(tally.cells + n <= total);
    }
    tally.pairs.push((i, j));
    let count = tally.pairs.len();
    if n == 0 {
        tally.same = tally.same + 1;
    } else {
        tally.different = tally.different + 1;
        tally.cells = tally.cells + n as u64;
    }
    proof {
        let ps2 = pairs_view(*tally);
        assert(ps2 =~= ps.push((i as int, j as int)));
        assert(ps2.drop_last() =~= ps);
        assert(ps2.last() == (i as int, j as int));
    }
}

/// Appends what each record of file B contributes to the differences, pairs
/// the records whose key is unique in both files, and counts key problems and
/// B_ONLY records. Returns (empty keys, incomplete keys, B_ONLY records).
fn push_b_pieces<P: Fn(u64, Option<u64>, &'static str)>(
    out: &mut Vec<Difference>,
    tally: &mut PairTally,
    builder: &KeyBuilder,
    layout_a: &ColumnLayout,
    records_a: &Vec<(u64, Vec<String>)>,
    layout_b: &ColumnLayout,
    records_b: &Vec<(u64, Vec<String>)>,
    compared: &Vec<String>,
    settings: CompareSettings,
    scan_a: &KeyScan,
    scan_b: &KeyScan,
    cancel: Option<&AtomicBool>,
    progress: &P,
    Ghost(s): Ghost<KeyCompareSpec>,
) -> (r: Result<(u64, u64, u64), AppError>)
    requires
        progress_ok(progress),
        inputs_match(s, builder, layout_a, records_a, layout_b, records_b, compared, settings),
        scan_matches(*scan_a, s.key_columns, s.headers_a, s.records_a),
        scan_matches(*scan_b, s.key_columns, s.headers_b, s.records_b),
        tally_ok(s, *old(tally), old(out).deep_view().len()),
        pairs_view(*old(tally)).len() == 0,
    ensures
        match r {
            Ok(counts) => {
                &&& final(out).deep_view() == old(out).deep_view() + concat_upto(s.b_piece_fn(), s.records_b.len() as int)
                &&& pairs_view(*final(tally)) == concat_upto(s.b_pair_fn(), s.records_b.len() as int)
                &&& tally_ok(s, *final(tally), final(out).deep_view().len())
                &&& counts.0 == s.empty_keys_b()
                &&& counts.1 == s.incomplete_keys_b()
                &&& counts.2 == s.b_only_records()
            },
            Err(e) => cancel is Some && e.deep_view() == AppErrorSpec::Cancelled,
        },
{
    let ghost start = out.deep_view();
    proof {
        assert(scan_a.tracker.keys() =~= s.keys_a());
        assert(scan_a.tracker.counted() =~= s.valid_a());
        assert(scan_b.tracker.keys() =~= s.keys_b());
        assert(scan_b.tracker.counted() =~= s.valid_b());
    }
    let n_a = records_a.len();
    let mut empty: u64 = 0;
    let mut incomplete: u64 = 0;
    let mut b_only: u64 = 0;
    let mut j: usize = 0;
    while j < records_b.len()
        invariant
            inputs_match(s, builder, layout_a, records_a, layout_b, records_b, compared, settings),
            scan_matches(*scan_a, s.key_columns, s.headers_a, s.records_a),
            scan_matches(*scan_b, s.key_columns, s.headers_b, s.records_b),
            scan_a.tracker.keys() == s.keys_a(),
            scan_a.tracker.counted() == s.valid_a(),
            scan_b.tracker.keys() == s.keys_b(),
            scan_b.tracker.counted() == s.valid_b(),
            j <= records_b.len(),
            n_a == s.records_a.len(),
            out.deep_view() == start + concat_upto(s.b_piece_fn(), j as int),
            pairs_view(*tally) == concat_upto(s.b_pair_fn(), j as int),
            tally_ok(s, *tally, out.deep_view().len()),
            empty == count_upto(s.empty_b_fn(), j as int),
            incomplete == count_upto(s.incomplete_b_fn(), j as int),
            b_only == count_upto(s.b_only_pred(), j as int),
            empty + incomplete + b_only <= j,
            progress_ok(progress),
        decreases records_b.len() - j,
    {
        poll_cancel(cancel)?;
        report_progress(progress, (j + 1) as u64, 5000, "比對 File B");
        let status = scan_b.statuses[j];
        proof {
            assert(status == s.status_b(j as int));
            assert(records_b.deep_view()[j as int] == records_b@[j as int].deep_view());
        }
        let ghost before = out.deep_view();
        let ghost ps = pairs_view(*tally);
        if status != KeyStatus::Valid {
            let kv = build_key_values(builder.columns(), layout_b, &records_b[j].1);
            let d = key_status_diff(status, false, &kv, records_b[j].0);
            match d {
                Some(d) => {
                    out.push(d);
                    proof {
                        assert(out.deep_view() =~= before.push(d.deep_view()));
                    }
                },
                None => {},
            }
            if status == KeyStatus::Empty {
                empty = empty + 1;
            } else {
                incomplete = incomplete + 1;
            }
            proof {
                assert(!s.b_matched(j as int));
                assert(!s.b_only(j as int));
            }
        } else {
            let key = &scan_b.keys[j];
            let ghost k = key@;
            proof {
                assert(k == s.key_b(j as int));
                lemma_occ(s.keys_b(), s.valid_b(), k, s.records_b.len() as int);
                assert(s.valid_b()[j as int]);
                assert(s.keys_b()[j as int] == k);
            }
            let cb = scan_b.tracker.count_of(&key.0);
            let ca = scan_a.tracker.count_of(&key.0);
            if cb >= 2 || ca >= 2 {
                proof {
                    assert(!s.b_matched(j as int));
                    assert(!s.b_only(j as int));
                }
            } else if ca == 1 {
                let i = match scan_a.tracker.positions(&key.0) {
                    Some(p) => p[0],
                    None => 0,
                };
                proof {
                    assert(s.b_matched(j as int));
                    lemma_occ(s.keys_a(), s.valid_a(), k, s.records_a.len() as int);
                    assert(i == s.occ_a(k)[0]);
                    assert(i < s.records_a.len());
                }
                add_pair(out, tally, builder, layout_a, records_a, layout_b, records_b, compared, settings, i, j, Ghost(s));
            } else {
                let kv = build_key_values(builder.columns(), layout_b, &records_b[j].1);
                let d = Difference {
                    key_values: kv,
                    row_a: None,
                    row_b: Some(records_b[j].0),
                    column_name: None,
                    value_a: None,
                    value_b: Some(join_strings(&records_b[j].1, "\t")),
                    difference_type: DifferenceType::BOnly,
                };
                out.push(d);
                b_only = b_only + 1;
                proof {
                    assert(s.b_only(j as int));
                    assert(d.deep_view() == s.b_only_diff(j as int));
                    assert(out.deep_view() =~= before.push(d.deep_view()));
                }
            }
        }
        j = j + 1;
        proof {
            assert(out.deep_view() =~= start + concat_upto(s.b_piece_fn(), j as int));
            assert(pairs_view(*tally) =~= concat_upto(s.b_pair_fn(), j as int));
        }
    }
    Ok((empty, incomplete, b_only))
}


/// Record `i` of A opens its key exactly when it is the first position that `occ` lists.
proof fn lemma_first_in_a(s: KeyCompareSpec, i: int)
    requires
        0 <= i < s.records_a.len(),
        s.records_a.len() <= usize::MAX,
        s.valid_a()[i],
    ensures
        s.occ_a(s.key_a(i)).len() >= 1,
        s.first_in_a(i) <==> s.occ_a(s.key_a(i))[0] == i,
{
    let k = s.key_a(i);
    let keys = s.keys_a();
    let valid = s.valid_a();
    let n = s.records_a.len() as int;
    assert(keys[i] == k);
    lemma_occ(keys, valid, k, n);
    lemma_occ(keys, valid, k, i);
    lemma_occ_prefix(keys, valid, k, i, n);
    lemma_occ_prefix(keys, valid, k, i + 1, n);
    let before = occ(keys, valid, k, i);
    assert(occ(keys, valid, k, i + 1) == before.push(i as usize));
    if before.len() == 0 {
        assert(occ(keys, valid, k, n).take(1) == occ(keys, valid, k, i + 1));
        assert(occ(keys, valid, k, n)[0] == occ(keys, valid, k, n).take(1)[0]);
    } else {
        assert(occ(keys, valid, k, n).take(before.len() as int) == before);
        assert(occ(keys, valid, k, n)[0] == before[0]);
        assert(before[0] < i);
    }
}

/// For every key duplicated in both files, in the order in which file A first
/// has the keys: pairs the key's occurrences in order and compares each pair.
fn push_duplicate_pairs(
    out: &mut Vec<Difference>,
    tally: &mut PairTally,
    builder: &KeyBuilder,
    layout_a: &ColumnLayout,
    records_a: &Vec<(u64, Vec<String>)>,
    layout_b: &ColumnLayout,
    records_b: &Vec<(u64, Vec<String>)>,
    compared: &Vec<String>,
    settings: CompareSettings,
    scan_a: &KeyScan,
    scan_b: &KeyScan,
    cancel: Option<&AtomicBool>,
    Ghost(s): Ghost<KeyCompareSpec>,
) -> (r: Result<(), AppError>)
    requires
        inputs_match(s, builder, layout_a, records_a, layout_b, records_b, compared, settings),
        scan_matches(*scan_a, s.key_columns, s.headers_a, s.records_a),
        scan_matches(*scan_b, s.key_columns, s.headers_b, s.records_b),
        tally_ok(s, *old(tally), old(out).deep_view().len()),
    ensures
        match r {
            Ok(()) => {
                &&& final(out).deep_view() == old(out).deep_view() + concat_upto(s.dup_changes_fn(), s.records_a.len() as int)
                &&& pairs_view(*final(tally)) == pairs_view(*old(tally)) + concat_upto(s.dup_pairs_fn(), s.records_a.len() as int)
                &&& tally_ok(s, *final(tally), final(out).deep_view().len())
            },
            Err(e) => cancel is Some && e.deep_view() == AppErrorSpec::Cancelled,
        },
{
    let ghost start = out.deep_view();
    let ghost base = pairs_view(*tally);
    proof {
        assert(scan_a.tracker.keys() =~= s.keys_a());
        assert(scan_a.tracker.counted() =~= s.valid_a());
        assert(scan_b.tracker.keys() =~= s.keys_b());
        assert(scan_b.tracker.counted() =~= s.valid_b());
    }
    let n_a = records_a.len();
    let n_b = records_b.len();
    let mut i: usize = 0;
    while i < records_a.len()
        invariant
            inputs_match(s, builder, layout_a, records_a, layout_b, records_b, compared, settings),
            scan_matches(*scan_a, s.key_columns, s.headers_a, s.records_a),
            scan_matches(*scan_b, s.key_columns, s.headers_b, s.records_b),
            scan_a.tracker.keys() == s.keys_a(),
            scan_a.tracker.counted() == s.valid_a(),
            scan_b.tracker.keys() == s.keys_b(),
            scan_b.tracker.counted() == s.valid_b(),
            n_a == s.records_a.len(),
            n_b == s.records_b.len(),
            i <= records_a.len(),
            out.deep_view() == start + concat_upto(s.dup_changes_fn(), i as int),
            pairs_view(*tally) == base + concat_upto(s.dup_pairs_fn(), i as int),
            tally_ok(s, *tally, out.deep_view().len()),
        decreases records_a.len() - i,
    {
        poll_cancel(cancel)?;
        let ghost before = out.deep_view();
        let ghost ps = pairs_view(*tally);
        let status = scan_a.statuses[i];
        proof {
            assert(status == s.status_a(i as int));
        }
        if status == KeyStatus::Valid {
            let key = &scan_a.keys[i];
            let ghost k = key@;
            proof {
                assert(k == s.key_a(i as int));
                assert(s.valid_a()[i as int]);
                lemma_first_in_a(s, i as int);
                lemma_occ(s.keys_a(), s.valid_a(), k, s.records_a.len() as int);
                lemma_occ(s.keys_b(), s.valid_b(), k, s.records_b.len() as int);
            }
            match scan_a.tracker.positions(&key.0) {
                Some(pa) => {
                    if pa[0] == i && pa.len() >= 2 {
                        match scan_b.tracker.positions(&key.0) {
                            Some(pb) => {
                                if pb.len() >= 2 {
                                    let m = if pa.len() <= pb.len() {
                                        pa.len()
                                    } else {
                                        pb.len()
                                    };
                                    let ghost dp = s.dup_pairs(i as int);
                                    proof {
                                        assert(s.dup_both(i as int));
                                        assert(dp.len() == m);
                                    }
                                    let mut p: usize = 0;
                                    while p < m
                                        invariant
                                            inputs_match(s, builder, layout_a, records_a, layout_b, records_b, compared, settings),
                                            n_a == s.records_a.len(),
                                            n_b == s.records_b.len(),
                                            p <= m,
                                            m <= pa@.len(),
                                            m <= pb@.len(),
                                            pa@ == s.occ_a(k),
                                            pb@ == s.occ_b(k),
                                            forall|t: int| 0 <= t < pa@.len() ==> #[trigger] pa@[t] < n_a,
                                            forall|t: int| 0 <= t < pb@.len() ==> #[trigger] pb@[t] < n_b,
                                            dp == s.dup_pairs(i as int),
                                            dp.len() == m,
                                            forall|t: int| 0 <= t < m ==> #[trigger] dp[t] == (pa@[t] as int, pb@[t] as int),
                                            out.deep_view() == before + pair_changes(s, dp.take(p as int)),
                                            pairs_view(*tally) == ps + dp.take(p as int),
                                            tally_ok(s, *tally, out.deep_view().len()),
                                        decreases m - p,
                                    {
                                        let ghost before_p = out.deep_view();
                                        let ghost ps_p = pairs_view(*tally);
                                        let ia = pa[p];
                                        let jb = pb[p];
                                        add_pair(out, tally, builder, layout_a, records_a, layout_b, records_b, compared, settings, ia, jb, Ghost(s));
                                        p = p + 1;
                                        proof {
                                            assert(dp.take(p as int).drop_last() =~= dp.take(p - 1));
                                            assert(dp.take(p as int).last() == (ia as int, jb as int));
                                            assert(out.deep_view() =~= before + pair_changes(s, dp.take(p as int)));
                                            assert(pairs_view(*tally) =~= ps + dp.take(p as int));
                                        }
                                    }
                                    proof {
                                        assert(dp.take(m as int) =~= dp);
                                    }
                                } else {
                                    proof {
                                        assert(!s.dup_both(i as int));
                                    }
                                }
                            },
                            None => {
                                proof {
                                    assert(!s.dup_both(i as int));
                                }
                            },
                        }
                    } else {
                        proof {
                            assert(!s.dup_both(i as int));
                        }
                    }
                },
                None => {},
            }
        } else {
            proof {
                assert(!s.dup_both(i as int));
            }
        }
        i = i + 1;
        proof {
            assert(out.deep_view() =~= start + concat_upto(s.dup_changes_fn(), i as int));
            assert(pairs_view(*tally) =~= base + concat_upto(s.dup_pairs_fn(), i as int));
        }
    }
    Ok(())
}

/// Appends an A_ONLY entry for every record of file A whose key is unique in A
/// and absent from B; returns how many.
fn push_a_only(
    out: &mut Vec<Difference>,
    builder: &KeyBuilder,
    layout_a: &ColumnLayout,
    records_a: &Vec<(u64, Vec<String>)>,
    scan_a: &KeyScan,
    scan_b: &KeyScan,
    Ghost(s): Ghost<KeyCompareSpec>,
) -> (r: u64)
    requires
        layout_a.wf(),
        s.headers_a == layout_a.headers.deep_view(),
        s.records_a == records_a.deep_view(),
        s.key_columns == builder.columns_view(),
        scan_matches(*scan_a, s.key_columns, s.headers_a, s.records_a),
        scan_matches(*scan_b, s.key_columns, s.headers_b, s.records_b),
    ensures
        final(out).deep_view() == old(out).deep_view() + concat_upto(s.a_only_fn(), s.records_a.len() as int),
        r == s.a_only_records(),
{
    let ghost start = out.deep_view();
    proof {
        assert(scan_a.tracker.keys() =~= s.keys_a());
        assert(scan_a.tracker.counted() =~= s.valid_a());
        assert(scan_b.tracker.keys() =~= s.keys_b());
        assert(scan_b.tracker.counted() =~= s.valid_b());
    }
    let mut count: u64 = 0;
    let mut i: usize = 0;
    while i < records_a.len()
        invariant
            layout_a.wf(),
            s.headers_a == layout_a.headers.deep_view(),
            s.records_a == records_a.deep_view(),
            s.key_columns == builder.columns_view(),
            scan_matches(*scan_a, s.key_columns, s.headers_a, s.records_a),
            scan_matches(*scan_b, s.key_columns, s.headers_b, s.records_b),
            scan_a.tracker.keys() == s.keys_a(),
            scan_a.tracker.counted() == s.valid_a(),
            scan_b.tracker.keys() == s.keys_b(),
            scan_b.tracker.counted() == s.valid_b(),
            i <= records_a.len(),
            out.deep_view() == start + concat_upto(s.a_only_fn(), i as int),
            count == count_upto(s.a_only_pred(), i as int),
            count <= i,
        decreases records_a.len() - i,
    {
        let ghost before = out.deep_view();
        let status = scan_a.statuses[i];
        proof {
            assert(status == s.status_a(i as int));
            assert(records_a.deep_view()[i as int] == records_a@[i as int].deep_view());
        }
        if status == KeyStatus::Valid {
            let key = &scan_a.keys[i];
            proof {
                assert(key@ == s.key_a(i as int));
            }
            let ca = scan_a.tracker.count_of(&key.0);
            let cb = scan_b.tracker.count_of(&key.0);
            if ca == 1 && cb == 0 {
                let kv = build_key_values(builder.columns(), layout_a, &records_a[i].1);
                let d = Difference {
                    key_values: kv,
                    row_a: Some(records_a[i].0),
                    row_b: None,
                    column_name: None,
                    value_a: Some(join_strings(&records_a[i].1, "\t")),
                    value_b: None,
                    difference_type: DifferenceType::AOnly,
                };
                out.push(d);
                count = count + 1;
                proof {
                    assert(s.a_only(i as int));
                    assert(out.deep_view() =~= before + s.a_only_piece(i as int));
                }
            } else {
                proof {
                    assert(!s.a_only(i as int));
                }
            }
        }
        i = i + 1;
        proof {
            assert(out.deep_view() =~= start + concat_upto(s.a_only_fn(), i as int));
        }
    }
    count
}


/// The description of a key-based comparison of two read files.
pub open spec fn spec_key_compare(
    headers_a: Seq<Seq<char>>,
    records_a: Seq<RecordSpec>,
    headers_b: Seq<Seq<char>>,
    records_b: Seq<RecordSpec>,
    key_columns: Seq<Seq<char>>,
    excluded: Seq<Seq<char>>,
    settings: CompareSettings,
) -> KeyCompareSpec {
    KeyCompareSpec {
        headers_a,
        records_a,
        headers_b,
        records_b,
        key_columns,
        compared: spec_not_in(spec_present_in(headers_a, headers_b), excluded),
        settings,
    }
}

/// The result `r` reports exactly the key-based comparison `s`, apart from the
/// names, encodings and delimiters of the files and the time of the comparison.
pub open spec fn key_result_matches(r: CompareResultSpec, s: KeyCompareSpec, excluded: Seq<Seq<char>>) -> bool {
    &&& r.rows_a == s.records_a.len()
    &&& r.rows_b == s.records_b.len()
    &&& r.key_columns == s.key_columns
    &&& r.compared_columns == s.compared
    &&& r.excluded_columns == excluded
    &&& r.column_a_only == spec_only_in(s.headers_a, s.headers_b, excluded)
    &&& r.column_b_only == spec_only_in(s.headers_b, s.headers_a, excluded)
    &&& r.matched_records == s.pairs().len()
    &&& r.same_records == count_same(s, s.pairs())
    &&& r.different_records == count_different(s, s.pairs())
    &&& r.a_only_records == s.a_only_records()
    &&& r.b_only_records == s.b_only_records()
    &&& r.duplicate_keys_a == s.duplicates_a().len()
    &&& r.duplicate_keys_b == s.duplicates_b().len()
    &&& r.empty_keys_a == s.empty_keys_a()
    &&& r.empty_keys_b == s.empty_keys_b()
    &&& r.incomplete_keys_a == s.incomplete_keys_a()
    &&& r.incomplete_keys_b == s.incomplete_keys_b()
    &&& r.different_cells == pair_changes(s, s.pairs()).len()
    &&& r.differences == s.differences(excluded)
    &&& r.duplicate_details_a == s.duplicates_a()
    &&& r.duplicate_details_b == s.duplicates_b()
    &&& !r.cancelled
    &&& r.identical == spec_is_identical(r)
}

/// Key-based comparison of two files that have been read: records are paired by
/// their composite key, whatever their order. The file names, encodings,
/// delimiters and time of the result are left empty. `cancel`, when given, is
/// polled while the records are scanned.
pub fn compare_key_records<P: Fn(u64, Option<u64>, &'static str)>(
    layout_a: &ColumnLayout,
    records_a: &Vec<(u64, Vec<String>)>,
    layout_b: &ColumnLayout,
    records_b: &Vec<(u64, Vec<String>)>,
    builder: &KeyBuilder,
    excluded: &Vec<String>,
    settings: CompareSettings,
    cancel: Option<&AtomicBool>,
    progress: &P,
) -> (r: Result<CompareResult, AppError>)
    requires
        progress_ok(progress),
        layout_a.wf(),
        layout_b.wf(),
    ensures
        match r {
            Ok(res) => key_result_matches(
                res.deep_view(),
                spec_key_compare(
                    layout_a.headers.deep_view(),
                    records_a.deep_view(),
                    layout_b.headers.deep_view(),
                    records_b.deep_view(),
                    builder.columns_view(),
                    excluded.deep_view(),
                    settings,
                ),
                excluded.deep_view(),
            ) && res.compare_mode@ == "KEY_BASED"@ && res.file_a_name@.len() == 0 && res.file_b_name@.len() == 0
                && res.compare_time@.len() == 0,
            Err(e) => cancel is Some && e.deep_view() == AppErrorSpec::Cancelled,
        },
{
    let ghost s = spec_key_compare(
        layout_a.headers.deep_view(),
        records_a.deep_view(),
        layout_b.headers.deep_view(),
        records_b.deep_view(),
        builder.columns_view(),
        excluded.deep_view(),
        settings,
    );
    let common = layout_a.common_with(layout_b);
    let compared = names_not_in(&common, excluded);
    let scan_a = scan_keys(builder, layout_a, records_a, cancel)?;
    let mut differences: Vec<Difference> = Vec::new();
    let (empty_a, incomplete_a) = push_a_issues(&mut differences, builder, layout_a, records_a, &scan_a, Ghost(s));
    let column_a_only = columns_only_in(layout_a, layout_b, excluded);
    let column_b_only = columns_only_in(layout_b, layout_a, excluded);
    let mut col_diffs = column_differences(layout_a, layout_b, excluded);
    differences.append(&mut col_diffs);
    let scan_b = scan_keys(builder, layout_b, records_b, cancel)?;
    let mut tally = PairTally { pairs: Vec::new(), same: 0, different: 0, cells: 0 };
    proof {
        assert(pairs_view(tally) =~= Seq::<(int, int)>::empty());
    }
    let (empty_b, incomplete_b, b_only) = push_b_pieces(
        &mut differences,
        &mut tally,
        builder,
        layout_a,
        records_a,
        layout_b,
        records_b,
        &compared,
        settings,
        &scan_a,
        &scan_b,
        cancel,
        progress,
        Ghost(s),
    )?;
    push_duplicate_pairs(
        &mut differences,
        &mut tally,
        builder,
        layout_a,
        records_a,
        layout_b,
        records_b,
        &compared,
        settings,
        &scan_a,
        &scan_b,
        cancel,
        Ghost(s),
    )?;
    let a_only = push_a_only(&mut differences, builder, layout_a, records_a, &scan_a, &scan_b, Ghost(s));
    let details_a = scan_a.tracker.to_infos("File A", builder.columns());
    let details_b = scan_b.tracker.to_infos("File B", builder.columns());
    proof {
        assert(scan_a.tracker.keys() =~= s.keys_a());
        assert(scan_a.tracker.counted() =~= s.valid_a());
        assert(scan_a.tracker.rows() =~= s.rows_a());
        assert(scan_b.tracker.keys() =~= s.keys_b());
        assert(scan_b.tracker.counted() =~= s.valid_b());
        assert(scan_b.tracker.rows() =~= s.rows_b());
    }
    let mut result = CompareResult {
        identical: false,
        rows_a: records_a.len() as u64,
        rows_b: records_b.len() as u64,
        key_columns: builder.columns().clone(),
        compared_columns: compared,
        excluded_columns: excluded.clone(),
        column_a_only,
        column_b_only,
        matched_records: tally.pairs.len() as u64,
        same_records: tally.same,
        different_records: tally.different,
        a_only_records: a_only,
        b_only_records: b_only,
        duplicate_keys_a: details_a.len() as u64,
        duplicate_keys_b: details_b.len() as u64,
        empty_keys_a: empty_a,
        empty_keys_b: empty_b,
        incomplete_keys_a: incomplete_a,
        incomplete_keys_b: incomplete_b,
        different_cells: tally.cells,
        differences,
        duplicate_details_a: details_a,
        duplicate_details_b: details_b,
        file_a_name: String::new(),
        file_b_name: String::new(),
        file_a_encoding: String::new(),
        file_b_encoding: String::new(),
        file_a_delimiter: String::new(),
        file_b_delimiter: String::new(),
        compare_mode: owned(super::difference::format_mode(crate::models::compare_options::ComparisonMode::KeyBased)),
        compare_time: String::new(),
        cancelled: false,
    };
    result.identical = is_identical(&result);
    proof {
        assert(result.differences.deep_view() =~= s.differences(excluded.deep_view()));
    }
    Ok(result)
}

/// What a key-based comparison of two files' contents starts from: both files
/// opened and read, or the first problem met, in the order in which the
/// comparison meets them: file A opened, its records read, file B opened, the
/// key columns checked against both headers, file B's records read.
pub open spec fn spec_key_inputs(opts: CompareOptions, bytes_a: Seq<u8>, bytes_b: Seq<u8>) -> Result<(OpenedFileSpec, Seq<RecordSpec>, OpenedFileSpec, Seq<RecordSpec>), AppErrorSpec> {
    match crate::parser::decoder::spec_open_file(bytes_a, opts.file_a_parse_options.encoding, opts.file_a_parse_options.delimiter) {
        Err(e) => Err(e),
        Ok(a) => match spec_records(a.entries, a.headers.len(), true) {
            Err(e) => Err(e),
            Ok(records_a) => match crate::parser::decoder::spec_open_file(bytes_b, opts.file_b_parse_options.encoding, opts.file_b_parse_options.delimiter) {
                Err(e) => Err(e),
                Ok(b) => match spec_validate_options(opts.key_columns.deep_view(), a.headers, b.headers, opts.excluded_columns.deep_view()) {
                    Some(e) => Err(e),
                    None => match spec_records(b.entries, b.headers.len(), true) {
                        Err(e) => Err(e),
                        Ok(records_b) => Ok((a, records_a, b, records_b)),
                    },
                },
            },
        },
    }
}

/// The result `r` of comparing two opened files reports exactly their key-based
/// comparison, with the files' names, encodings and delimiters.
pub open spec fn key_based_result(r: CompareResultSpec, opts: CompareOptions, a: OpenedFileSpec, records_a: Seq<RecordSpec>, b: OpenedFileSpec, records_b: Seq<RecordSpec>) -> bool {
    &&& key_result_matches(
        r,
        spec_key_compare(
            a.headers,
            records_a,
            b.headers,
            records_b,
            spec_present_in(a.headers, opts.key_columns.deep_view()),
            opts.excluded_columns.deep_view(),
            CompareSettings { trim_whitespace: opts.trim_whitespace, ignore_case: opts.ignore_case },
        ),
        opts.excluded_columns.deep_view(),
    )
    &&& r.file_a_name == spec_file_name(opts.file_a_path@)
    &&& r.file_b_name == spec_file_name(opts.file_b_path@)
    &&& r.file_a_encoding == a.encoding.spec_label()
    &&& r.file_b_encoding == b.encoding.spec_label()
    &&& r.file_a_delimiter == spec_delimiter_label(a.delimiter)
    &&& r.file_b_delimiter == spec_delimiter_label(b.delimiter)
    &&& r.compare_mode == super::difference::spec_format_mode(opts.comparison_mode)
}

/// Key-based comparison of the contents of two files: records are paired by
/// their composite key (file A's header order), whatever their order in the
/// files. Fails with the first problem met, or with `Cancelled` once
/// cancellation has been requested. The time of the comparison is the clock's.
pub fn compare_key_based<P: Fn(u64, Option<u64>, &'static str)>(
    opts: &CompareOptions,
    bytes_a: &[u8],
    bytes_b: &[u8],
    cancel: &AtomicBool,
    progress: &P,
) -> (r: Result<CompareResult, AppError>)
    requires
        progress_ok(progress),
    ensures
        match r {
            Ok(res) => match spec_key_inputs(*opts, bytes_a@, bytes_b@) {
                Ok((a, records_a, b, records_b)) => key_based_result(res.deep_view(), *opts, a, records_a, b, records_b),
                Err(_) => false,
            },
            Err(e) => e.deep_view() == AppErrorSpec::Cancelled
                || spec_key_inputs(*opts, bytes_a@, bytes_b@) == Err::<(OpenedFileSpec, Seq<RecordSpec>, OpenedFileSpec, Seq<RecordSpec>), AppErrorSpec>(e.deep_view()),
        },        r matches Ok(res) ==> super::util::spec_is_timestamp(res.compare_time@),
{
    check_cancel(cancel)?;
    let (mut reader_a, layout_a, enc_a, delim_a) = open_for_compare(bytes_a, opts.file_a_parse_options)?;
    let key_builder = KeyBuilder::new(opts.key_columns.clone(), &layout_a);
    let records_a = reader_a.read_all(Some(cancel), progress, "讀取 File A")?;
    let (mut reader_b, layout_b, enc_b, delim_b) = open_for_compare(bytes_b, opts.file_b_parse_options)?;
    validate_options(opts, &layout_a, &layout_b, &key_builder)?;
    let records_b = reader_b.read_all(Some(cancel), progress, "掃描 File B 重複 Key")?;
    let settings = settings_from(opts);
    let mut result = compare_key_records(
        &layout_a,
        &records_a,
        &layout_b,
        &records_b,
        &key_builder,
        &opts.excluded_columns,
        settings,
        Some(cancel),
        progress,
    )?;
    check_cancel(cancel)?;
    result.file_a_name = file_name(opts.file_a_path.as_str());
    result.file_b_name = file_name(opts.file_b_path.as_str());
    result.file_a_encoding = enc_a;
    result.file_b_encoding = enc_b;
    result.file_a_delimiter = delim_a;
    result.file_b_delimiter = delim_b;
    result.compare_mode = owned(super::difference::format_mode(opts.comparison_mode));
    result.compare_time = now_string();
    Ok(result)
}

/// The first problem that a comparison meets in file A before it turns to file
/// B, if any: file A cannot be opened, or (key-based) its records cannot be read.
pub open spec fn spec_file_a_problem(opts: CompareOptions, bytes_a: Seq<u8>) -> Option<AppErrorSpec> {
    match crate::parser::decoder::spec_open_file(bytes_a, opts.file_a_parse_options.encoding, opts.file_a_parse_options.delimiter) {
        Err(e) => Some(e),
        Ok(a) => match opts.comparison_mode {
            crate::models::compare_options::ComparisonMode::KeyBased => match spec_records(a.entries, a.headers.len(), true) {
                Err(e) => Some(e),
                Ok(_) => None,
            },
            crate::models::compare_options::ComparisonMode::RowByRow => None,
        },
    }
}

/// The part of a comparison that needs file A alone, up to where it turns to
/// file B: fails with `Cancelled` once cancellation has been requested, or with
/// the first problem met in file A; such a problem is the one the whole
/// comparison fails with, whatever file B holds.
pub fn check_file_a<P: Fn(u64, Option<u64>, &'static str)>(
    opts: &CompareOptions,
    bytes_a: &[u8],
    cancel: &AtomicBool,
    progress: &P,
) -> (r: Result<(), AppError>)
    requires
        progress_ok(progress),
    ensures
        match r {
            Ok(_) => spec_file_a_problem(*opts, bytes_a@) is None,
            Err(e) => e.deep_view() == AppErrorSpec::Cancelled || spec_file_a_problem(*opts, bytes_a@) == Some(e.deep_view()),
        },
        forall|bytes_b: Seq<u8>|
            #![trigger spec_key_inputs(*opts, bytes_a@, bytes_b)]
            #![trigger super::row_comparator::spec_row_inputs(*opts, bytes_a@, bytes_b)]
            spec_file_a_problem(*opts, bytes_a@) is Some ==> {
                let e = spec_file_a_problem(*opts, bytes_a@)->0;
                match opts.comparison_mode {
                    crate::models::compare_options::ComparisonMode::KeyBased => spec_key_inputs(*opts, bytes_a@, bytes_b)
                        == Err::<(OpenedFileSpec, Seq<RecordSpec>, OpenedFileSpec, Seq<RecordSpec>), AppErrorSpec>(e),
                    crate::models::compare_options::ComparisonMode::RowByRow => super::row_comparator::spec_row_inputs(
                        *opts,
                        bytes_a@,
                        bytes_b,
                    ) == Err::<(OpenedFileSpec, Seq<RecordSpec>, OpenedFileSpec, Seq<RecordSpec>), AppErrorSpec>(e),
                }
            },
{
    check_cancel(cancel)?;
    let (mut reader_a, _layout_a, _enc_a, _delim_a) = open_for_compare(bytes_a, opts.file_a_parse_options)?;
    match opts.comparison_mode {
        crate::models::compare_options::ComparisonMode::KeyBased => {
            reader_a.read_all(Some(cancel), progress, "讀取 File A")?;
            Ok(())
        },
        crate::models::compare_options::ComparisonMode::RowByRow => Ok(()),
    }
}

} // verus!
