use vstd::prelude::*;

use crate::models::compare_result::CompareResultSpec;
use crate::models::difference::{DifferenceSpec, DifferenceType};

use super::difference::{
    spec_cell_changes, spec_column_differences, spec_column_differences_of, spec_key_status, spec_key_values, spec_not_in, spec_only_in, spec_present_in, spec_record_changes,
    spec_value_or_empty, spec_values_equal, spec_normalize, CompareSettings, RecordSpec,
};
use super::difference::KeyStatus;
use crate::text::{is_white_space, spec_trim_end, spec_trim_start};
use super::duplicate_detector::{key_count, lemma_report_count_is_repeated_keys, spec_duplicate_infos, spec_repeated_keys};
use super::key_builder::spec_key_of;
use super::key_comparator::{
    count_different, count_same, key_result_matches, pair_changes, spec_key_compare, KeyCompareSpec,
};
use super::key_index::{lemma_occ, occ};
use super::row_comparator::{
    lemma_cell_changes_kind, lemma_count_kind_concat, lemma_count_kind_none, row_result_matches, spec_count_kind, spec_row_compare,
    RowCompareSpec,
};
use super::tally::{
    lemma_concat_contains, concat_upto, count_upto, lemma_concat_len_count, lemma_count_ext, lemma_count_reordered, lemma_sum_ext, lemma_sum_reordered,
    sum_upto,
};
use super::util::spec_is_identical;

verus! {

/// Where element `t` of `concat_upto(f, n)` comes from: piece `k`, position `u`.
pub proof fn lemma_concat_index<T>(f: spec_fn(int) -> Seq<T>, n: int, t: int) -> (ku: (int, int))
    requires
        0 <= t < concat_upto(f, n).len(),
    ensures
        0 <= ku.0 < n,
        0 <= ku.1 < f(ku.0).len(),
        concat_upto(f, ku.0).len() + ku.1 == t,
        concat_upto(f, n)[t] == f(ku.0)[ku.1],
    decreases n,
{
    let prev = concat_upto(f, n - 1);
    if t < prev.len() {
        let ku = lemma_concat_index(f, n - 1, t);
        ku
    } else {
        (n - 1, t - prev.len())
    }
}

/// Empty pieces make an empty concatenation.
pub proof fn lemma_concat_empty<T>(f: spec_fn(int) -> Seq<T>, n: int)
    requires
        forall|k: int| 0 <= k < n ==> #[trigger] f(k).len() == 0,
    ensures
        concat_upto(f, n).len() == 0,
    decreases n,
{
    if n > 0 {
        lemma_concat_empty(f, n - 1);
        assert(f(n - 1).len() == 0);
    }
}

/// Nothing satisfying `p` gives a zero count.
pub proof fn lemma_count_none(p: spec_fn(int) -> bool, n: int)
    requires
        forall|k: int| 0 <= k < n ==> !#[trigger] p(k),
    ensures
        count_upto(p, n) == 0,
    decreases n,
{
    if n > 0 {
        lemma_count_none(p, n - 1);
        assert(!p(n - 1));
    }
}

/// Everything satisfying `p` gives a count of `n`.
pub proof fn lemma_count_all(p: spec_fn(int) -> bool, n: int)
    requires
        n >= 0,
        forall|k: int| 0 <= k < n ==> #[trigger] p(k),
    ensures
        count_upto(p, n) == n,
    decreases n,
{
    if n > 0 {
        lemma_count_all(p, n - 1);
        assert(p(n - 1));
    }
}

/// Every difference between two records is a VALUE_CHANGED of one of the compared
/// columns whose values are unequal under the settings, and it shows the raw,
/// unnormalized values of both records.
pub proof fn law_changes_show_raw_values(
    headers_a: Seq<Seq<char>>,
    a: RecordSpec,
    headers_b: Seq<Seq<char>>,
    b: RecordSpec,
    compared: Seq<Seq<char>>,
    settings: CompareSettings,
    key_values: Seq<crate::models::difference::KeyValueSpec>,
    t: int,
)
    requires
        0 <= t < spec_record_changes(headers_a, a, headers_b, b, compared, settings, key_values).len(),
    ensures
        ({
            let d = spec_record_changes(headers_a, a, headers_b, b, compared, settings, key_values)[t];
            exists|c: int|
                #![trigger compared[c]]
                0 <= c < compared.len() && {
                    let va = spec_value_or_empty(headers_a, compared[c], a.1);
                    let vb = spec_value_or_empty(headers_b, compared[c], b.1);
                    &&& d.difference_type == DifferenceType::ValueChanged
                    &&& d.column_name == Some(compared[c])
                    &&& d.value_a == Some(va)
                    &&& d.value_b == Some(vb)
                    &&& d.row_a == Some(a.0)
                    &&& d.row_b == Some(b.0)
                    &&& !spec_values_equal(va, vb, settings)
                }
        }),
{
    lemma_cell_changes_shape(headers_a, a, headers_b, b, compared, settings, key_values, compared.len() as int, t);
}

proof fn lemma_cell_changes_shape(
    headers_a: Seq<Seq<char>>,
    a: RecordSpec,
    headers_b: Seq<Seq<char>>,
    b: RecordSpec,
    compared: Seq<Seq<char>>,
    settings: CompareSettings,
    key_values: Seq<crate::models::difference::KeyValueSpec>,
    n: int,
    t: int,
)
    requires
        n <= compared.len(),
        0 <= t < spec_cell_changes(headers_a, a, headers_b, b, compared, settings, key_values, n).len(),
    ensures
        ({
            let d = spec_cell_changes(headers_a, a, headers_b, b, compared, settings, key_values, n)[t];
            exists|c: int|
                #![trigger compared[c]]
                0 <= c < n && {
                    let va = spec_value_or_empty(headers_a, compared[c], a.1);
                    let vb = spec_value_or_empty(headers_b, compared[c], b.1);
                    &&& d.difference_type == DifferenceType::ValueChanged
                    &&& d.column_name == Some(compared[c])
                    &&& d.value_a == Some(va)
                    &&& d.value_b == Some(vb)
                    &&& d.row_a == Some(a.0)
                    &&& d.row_b == Some(b.0)
                    &&& !spec_values_equal(va, vb, settings)
                }
        }),
    decreases n,
{
    let rest = spec_cell_changes(headers_a, a, headers_b, b, compared, settings, key_values, n - 1);
    if t < rest.len() {
        lemma_cell_changes_shape(headers_a, a, headers_b, b, compared, settings, key_values, n - 1, t);
    } else {
        let c = n - 1;
        assert(compared[c] == compared[n - 1]);
    }
}

/// A column that is excluded from comparison is never among the compared ones.
pub proof fn law_excluded_never_compared(names: Seq<Seq<char>>, excluded: Seq<Seq<char>>, c: Seq<char>)
    requires
        excluded.contains(c),
    ensures
        !spec_not_in(names, excluded).contains(c),
    decreases names.len(),
{
    if names.len() > 0 {
        law_excluded_never_compared(names.drop_last(), excluded, c);
    }
}

/// Two records with the same fields under the same header do not differ.
pub proof fn lemma_same_record_no_changes(
    headers: Seq<Seq<char>>,
    a: RecordSpec,
    b: RecordSpec,
    compared: Seq<Seq<char>>,
    settings: CompareSettings,
    key_values: Seq<crate::models::difference::KeyValueSpec>,
    n: int,
)
    requires
        a.1 == b.1,
    ensures
        spec_cell_changes(headers, a, headers, b, compared, settings, key_values, n).len() == 0,
    decreases n,
{
    if n > 0 {
        lemma_same_record_no_changes(headers, a, b, compared, settings, key_values, n - 1);
    }
}

/// A header list has no name that only it has.
pub proof fn lemma_only_in_self(names: Seq<Seq<char>>, all: Seq<Seq<char>>, excluded: Seq<Seq<char>>)
    requires
        forall|i: int| 0 <= i < names.len() ==> all.contains(#[trigger] names[i]),
    ensures
        spec_only_in(names, all, excluded).len() == 0,
    decreases names.len(),
{
    if names.len() > 0 {
        assert(all.contains(names[names.len() - 1]));
        lemma_only_in_self(names.drop_last(), all, excluded);
    }
}

/// Comparing a file with itself row by row finds the files identical: every
/// record is paired with itself and is the same.
pub proof fn law_row_self_comparison_identical(
    r: CompareResultSpec,
    headers: Seq<Seq<char>>,
    records: Seq<RecordSpec>,
    excluded: Seq<Seq<char>>,
    settings: CompareSettings,
)
    requires
        row_result_matches(r, spec_row_compare(headers, records, headers, records, excluded, settings), excluded),
    ensures
        spec_is_identical(r),
        r.identical,
        r.matched_records == records.len(),
        r.same_records == records.len(),
        r.differences.len() == 0,
{
    let s = spec_row_compare(headers, records, headers, records, excluded, settings);
    assert forall|t: int| 0 <= t < s.matched() implies #[trigger] s.changes(t).len() == 0 by {
        lemma_same_record_no_changes(headers, records[t], records[t], s.compared, settings, Seq::empty(), s.compared.len() as int);
    }
    assert forall|t: int| 0 <= t < s.span() implies #[trigger] s.piece_fn()(t).len() == 0 by {
        assert(s.changes(t).len() == 0);
    }
    lemma_concat_empty(s.piece_fn(), s.span() as int);
    assert forall|t: int| 0 <= t < s.matched() implies !#[trigger] s.different_fn()(t) by {
        assert(s.changes(t).len() == 0);
    }
    lemma_count_none(s.different_fn(), s.matched() as int);
    assert forall|t: int| 0 <= t < s.matched() implies #[trigger] s.changes_fn()(t).len() == 0 by {
        assert(s.changes(t).len() == 0);
    }
    lemma_concat_empty(s.changes_fn(), s.matched() as int);
    assert forall|t: int| 0 <= t < s.matched() implies #[trigger] s.same_fn()(t) by {
        assert(s.changes(t).len() == 0);
    }
    lemma_count_all(s.same_fn(), s.matched() as int);
    assert forall|i: int| 0 <= i < headers.len() implies headers.contains(#[trigger] headers[i]) by {}
    lemma_only_in_self(headers, headers, excluded);
    assert(s.differences(excluded) =~= Seq::<DifferenceSpec>::empty());
}

/// Where pair `t` of a key-based comparison comes from: `(true, j, 0)` for the
/// pair made by record `j` of file B through a key unique in both files, or
/// `(false, i, u)` for the `u`-th pair of the key duplicated in both files that
/// record `i` of file A opens.
proof fn lemma_pair_origin(s: KeyCompareSpec, t: int) -> (o: (bool, int, int))
    requires
        0 <= t < s.pairs().len(),
    ensures
        o.0 ==> {
            &&& 0 <= o.1 < s.records_b.len()
            &&& o.2 == 0
            &&& s.b_matched(o.1)
            &&& s.pairs()[t] == (s.occ_a(s.key_b(o.1))[0] as int, o.1)
            &&& concat_upto(s.b_pair_fn(), o.1).len() == t
        },
        !o.0 ==> {
            let k = s.key_a(o.1);
            &&& 0 <= o.1 < s.records_a.len()
            &&& s.dup_both(o.1)
            &&& 0 <= o.2 < s.count_a(k)
            &&& o.2 < s.count_b(k)
            &&& s.pairs()[t] == (s.occ_a(k)[o.2] as int, s.occ_b(k)[o.2] as int)
            &&& concat_upto(s.b_pair_fn(), s.records_b.len() as int).len() + concat_upto(s.dup_pairs_fn(), o.1).len() + o.2 == t
        },
{
    let front = concat_upto(s.b_pair_fn(), s.records_b.len() as int);
    let back = concat_upto(s.dup_pairs_fn(), s.records_a.len() as int);
    if t < front.len() {
        let (j, u) = lemma_concat_index(s.b_pair_fn(), s.records_b.len() as int, t);
        assert(s.b_pair_fn()(j) == s.b_pair(j));
        (true, j, u)
    } else {
        let (i, u) = lemma_concat_index(s.dup_pairs_fn(), s.records_a.len() as int, t - front.len());
        assert(s.dup_pairs_fn()(i) == s.dup_pairs(i));
        assert(s.pairs()[t] == back[t - front.len()]);
        (false, i, u)
    }
}

/// Facts about the positions that carry key `k` in file A.
proof fn lemma_occ_a(s: KeyCompareSpec, k: Seq<Seq<char>>)
    requires
        s.records_a.len() <= usize::MAX,
    ensures
        s.count_a(k) == s.occ_a(k).len(),
        forall|t: int| 0 <= t < s.occ_a(k).len() ==> {
            let p = #[trigger] s.occ_a(k)[t] as int;
            &&& 0 <= p < s.records_a.len()
            &&& s.status_a(p) == KeyStatus::Valid
            &&& s.key_a(p) == k
        },
        forall|t1: int, t2: int| 0 <= t1 < t2 < s.occ_a(k).len() ==> s.occ_a(k)[t1] < s.occ_a(k)[t2],
        forall|i: int|
            0 <= i < s.records_a.len() && s.status_a(i) == KeyStatus::Valid && s.key_a(i) == k
                ==> s.occ_a(k).contains(i as usize),
{
    lemma_occ(s.keys_a(), s.valid_a(), k, s.records_a.len() as int);
    assert forall|t: int| 0 <= t < s.occ_a(k).len() implies {
        let p = #[trigger] s.occ_a(k)[t] as int;
        &&& 0 <= p < s.records_a.len()
        &&& s.status_a(p) == KeyStatus::Valid
        &&& s.key_a(p) == k
    } by {
        let p = s.occ_a(k)[t] as int;
        assert(s.keys_a()[p] == s.key_a(p));
        assert(s.valid_a()[p] == (s.status_a(p) == KeyStatus::Valid));
    }
    assert forall|i: int|
        0 <= i < s.records_a.len() && s.status_a(i) == KeyStatus::Valid && s.key_a(i) == k
        implies s.occ_a(k).contains(i as usize) by {
        assert(s.keys_a()[i] == s.key_a(i));
        assert(s.valid_a()[i]);
    }
}

/// Facts about the positions that carry key `k` in file B.
proof fn lemma_occ_b(s: KeyCompareSpec, k: Seq<Seq<char>>)
    requires
        s.records_b.len() <= usize::MAX,
    ensures
        s.count_b(k) == s.occ_b(k).len(),
        forall|t: int| 0 <= t < s.occ_b(k).len() ==> {
            let p = #[trigger] s.occ_b(k)[t] as int;
            &&& 0 <= p < s.records_b.len()
            &&& s.status_b(p) == KeyStatus::Valid
            &&& s.key_b(p) == k
        },
        forall|t1: int, t2: int| 0 <= t1 < t2 < s.occ_b(k).len() ==> s.occ_b(k)[t1] < s.occ_b(k)[t2],
        forall|j: int|
            0 <= j < s.records_b.len() && s.status_b(j) == KeyStatus::Valid && s.key_b(j) == k
                ==> s.occ_b(k).contains(j as usize),
{
    lemma_occ(s.keys_b(), s.valid_b(), k, s.records_b.len() as int);
    assert forall|t: int| 0 <= t < s.occ_b(k).len() implies {
        let p = #[trigger] s.occ_b(k)[t] as int;
        &&& 0 <= p < s.records_b.len()
        &&& s.status_b(p) == KeyStatus::Valid
        &&& s.key_b(p) == k
    } by {
        let p = s.occ_b(k)[t] as int;
        assert(s.keys_b()[p] == s.key_b(p));
        assert(s.valid_b()[p] == (s.status_b(p) == KeyStatus::Valid));
    }
    assert forall|j: int|
        0 <= j < s.records_b.len() && s.status_b(j) == KeyStatus::Valid && s.key_b(j) == k
        implies s.occ_b(k).contains(j as usize) by {
        assert(s.keys_b()[j] == s.key_b(j));
        assert(s.valid_b()[j]);
    }
}

/// Records are paired only by their exact key: both records of a pair have a
/// usable key, the two keys are equal value for value (no trimming, no case
/// folding, no numeric reading), and the key is either unique in both files or
/// duplicated in both; a key duplicated in one file only is never paired.
pub proof fn law_pairs_share_exact_key(s: KeyCompareSpec, t: int)
    requires
        s.records_a.len() <= usize::MAX,
        s.records_b.len() <= usize::MAX,
        0 <= t < s.pairs().len(),
    ensures
        ({
            let (i, j) = s.pairs()[t];
            let k = s.key_a(i);
            &&& 0 <= i < s.records_a.len()
            &&& 0 <= j < s.records_b.len()
            &&& s.status_a(i) == KeyStatus::Valid
            &&& s.status_b(j) == KeyStatus::Valid
            &&& s.key_b(j) == k
            &&& (s.count_a(k) == 1 && s.count_b(k) == 1) || (s.count_a(k) >= 2 && s.count_b(k) >= 2)
        }),
{
    let o = lemma_pair_origin(s, t);
    if o.0 {
        let j = o.1;
        let k = s.key_b(j);
        lemma_occ_a(s, k);
        assert(s.occ_a(k).len() == 1);
        let i = s.occ_a(k)[0] as int;
        assert(s.key_a(i) == k);
    } else {
        let k = s.key_a(o.1);
        lemma_occ_a(s, k);
        lemma_occ_b(s, k);
        let i = s.occ_a(k)[o.2] as int;
        let j = s.occ_b(k)[o.2] as int;
        assert(s.key_a(i) == k);
        assert(s.key_b(j) == k);
    }
}

/// Two distinct records carrying the same usable key in file B make it count twice.
proof fn lemma_two_in_b(s: KeyCompareSpec, j1: int, j2: int)
    requires
        s.records_b.len() <= usize::MAX,
        0 <= j1 < s.records_b.len(),
        0 <= j2 < s.records_b.len(),
        j1 != j2,
        s.status_b(j1) == KeyStatus::Valid,
        s.status_b(j2) == KeyStatus::Valid,
        s.key_b(j1) == s.key_b(j2),
    ensures
        s.count_b(s.key_b(j1)) >= 2,
{
    let k = s.key_b(j1);
    lemma_occ_b(s, k);
    if s.occ_b(k).len() < 2 {
        assert(s.occ_b(k).contains(j1 as usize));
        assert(s.occ_b(k).contains(j2 as usize));
        let t1 = choose|t: int| 0 <= t < s.occ_b(k).len() && s.occ_b(k)[t] == j1 as usize;
        let t2 = choose|t: int| 0 <= t < s.occ_b(k).len() && s.occ_b(k)[t] == j2 as usize;
        assert(t1 == 0 && t2 == 0);
    }
}

/// Two records of file A that both open their key carry different keys.
proof fn lemma_first_keys_differ(s: KeyCompareSpec, i1: int, i2: int)
    requires
        s.records_a.len() <= usize::MAX,
        0 <= i1 < i2 < s.records_a.len(),
        s.first_in_a(i1),
        s.first_in_a(i2),
    ensures
        s.key_a(i1) != s.key_a(i2),
{
    if s.key_a(i1) == s.key_a(i2) {
        lemma_occ(s.keys_a(), s.valid_a(), s.key_a(i2), i2);
        assert(s.keys_a()[i1] == s.key_a(i1));
        assert(occ(s.keys_a(), s.valid_a(), s.key_a(i2), i2).contains(i1 as usize));
    }
}

/// No record takes part in two pairs: a record of file A is paired with at
/// most one record of file B, and the other way round.
pub proof fn law_records_paired_once(s: KeyCompareSpec, t1: int, t2: int)
    requires
        s.records_a.len() <= usize::MAX,
        s.records_b.len() <= usize::MAX,
        0 <= t1 < s.pairs().len(),
        0 <= t2 < s.pairs().len(),
        t1 != t2,
    ensures
        s.pairs()[t1].0 != s.pairs()[t2].0,
        s.pairs()[t1].1 != s.pairs()[t2].1,
{
    let o1 = lemma_pair_origin(s, t1);
    let o2 = lemma_pair_origin(s, t2);
    law_pairs_share_exact_key(s, t1);
    law_pairs_share_exact_key(s, t2);
    let (i1, j1) = s.pairs()[t1];
    let (i2, j2) = s.pairs()[t2];
    if o1.0 && o2.0 {
        assert(o1.1 != o2.1);
        if i1 == i2 {
            lemma_two_in_b(s, j1, j2);
        }
    } else if !o1.0 && !o2.0 {
        let k1 = s.key_a(o1.1);
        let k2 = s.key_a(o2.1);
        lemma_occ_a(s, k1);
        lemma_occ_b(s, k1);
        lemma_occ_a(s, k2);
        lemma_occ_b(s, k2);
        if o1.1 == o2.1 {
            assert(o1.2 != o2.2);
            if o1.2 < o2.2 {
                assert(s.occ_a(k1)[o1.2] < s.occ_a(k1)[o2.2]);
                assert(s.occ_b(k1)[o1.2] < s.occ_b(k1)[o2.2]);
            } else {
                assert(s.occ_a(k1)[o2.2] < s.occ_a(k1)[o1.2]);
                assert(s.occ_b(k1)[o2.2] < s.occ_b(k1)[o1.2]);
            }
        } else {
            if o1.1 < o2.1 {
                lemma_first_keys_differ(s, o1.1, o2.1);
            } else {
                lemma_first_keys_differ(s, o2.1, o1.1);
            }
            assert(s.key_a(i1) == k1);
            assert(s.key_a(i2) == k2);
            assert(s.key_b(j1) == k1);
            assert(s.key_b(j2) == k2);
        }
    } else {
        let (ob, od) = if o1.0 { (o1, o2) } else { (o2, o1) };
        let kb = s.key_b(ob.1);
        let kd = s.key_a(od.1);
        lemma_occ_a(s, kb);
        lemma_occ_a(s, kd);
        lemma_occ_b(s, kd);
        assert(s.key_a(s.occ_a(kb)[0] as int) == kb);
        assert(s.key_a(s.occ_a(kd)[od.2] as int) == kd);
        assert(s.key_b(s.occ_b(kd)[od.2] as int) == kd);
    }
}

/// Every pair is counted once, as same or as different.
pub proof fn law_same_plus_different(s: KeyCompareSpec, pairs: Seq<(int, int)>)
    ensures
        count_same(s, pairs) + count_different(s, pairs) == pairs.len(),
    decreases pairs.len(),
{
    if pairs.len() > 0 {
        law_same_plus_different(s, pairs.drop_last());
    }
}

/// Pairs whose records never differ are all counted as same.
proof fn lemma_no_different(s: KeyCompareSpec, pairs: Seq<(int, int)>)
    requires
        forall|t: int| 0 <= t < pairs.len() ==> s.changes(#[trigger] pairs[t].0, pairs[t].1).len() == 0,
    ensures
        count_different(s, pairs) == 0,
    decreases pairs.len(),
{
    if pairs.len() > 0 {
        let rest = pairs.drop_last();
        assert forall|t: int| 0 <= t < rest.len() implies s.changes(#[trigger] rest[t].0, rest[t].1).len() == 0 by {
            assert(rest[t] == pairs[t]);
        }
        lemma_no_different(s, rest);
        assert(s.changes(pairs[pairs.len() - 1].0, pairs[pairs.len() - 1].1).len() == 0);
    }
}

/// No key counted twice means no duplicate-key report.
proof fn lemma_no_duplicate_infos(
    source: Seq<char>,
    columns: Seq<Seq<char>>,
    keys: Seq<Seq<Seq<char>>>,
    counted: Seq<bool>,
    rows: Seq<u64>,
    fk: Seq<Seq<Seq<char>>>,
    n: int,
)
    requires
        forall|k: Seq<Seq<char>>| #[trigger] key_count(keys, counted, k) <= 1,
    ensures
        spec_duplicate_infos(source, columns, keys, counted, rows, fk, n).len() == 0,
    decreases n,
{
    if n > 0 {
        lemma_no_duplicate_infos(source, columns, keys, counted, rows, fk, n - 1);
        assert(key_count(keys, counted, fk[n - 1]) <= 1);
    }
}

/// Pieces of length one make a concatenation as long as their number.
proof fn lemma_concat_singletons<T>(f: spec_fn(int) -> Seq<T>, n: int)
    requires
        n >= 0,
        forall|k: int| 0 <= k < n ==> #[trigger] f(k).len() == 1,
    ensures
        concat_upto(f, n).len() == n,
    decreases n,
{
    if n > 0 {
        lemma_concat_singletons(f, n - 1);
        assert(f(n - 1).len() == 1);
    }
}

/// With keys unique in file A, a key is carried by at most one of its records.
proof fn lemma_unique_a(s: KeyCompareSpec, k: Seq<Seq<char>>)
    requires
        s.records_a.len() <= usize::MAX,
        forall|i1: int, i2: int|
            0 <= i1 < s.records_a.len() && 0 <= i2 < s.records_a.len() && i1 != i2
                ==> #[trigger] s.key_a(i1) != #[trigger] s.key_a(i2),
    ensures
        s.count_a(k) <= 1,
{
    lemma_occ_a(s, k);
    if s.occ_a(k).len() >= 2 {
        assert(s.occ_a(k)[0] < s.occ_a(k)[1]);
        assert(s.key_a(s.occ_a(k)[0] as int) == k);
        assert(s.key_a(s.occ_a(k)[1] as int) == k);
    }
}

/// With keys unique in file B, a key is carried by at most one of its records.
proof fn lemma_unique_b(s: KeyCompareSpec, k: Seq<Seq<char>>)
    requires
        s.records_b.len() <= usize::MAX,
        forall|j1: int, j2: int|
            0 <= j1 < s.records_b.len() && 0 <= j2 < s.records_b.len() && j1 != j2
                ==> #[trigger] s.key_b(j1) != #[trigger] s.key_b(j2),
    ensures
        s.count_b(k) <= 1,
{
    lemma_occ_b(s, k);
    if s.occ_b(k).len() >= 2 {
        assert(s.occ_b(k)[0] < s.occ_b(k)[1]);
        assert(s.key_b(s.occ_b(k)[0] as int) == k);
        assert(s.key_b(s.occ_b(k)[1] as int) == k);
    }
}

/// Row order does not matter in a key-based comparison: when file B holds the
/// records of file A under the same header, in any order (`order[j]` is the
/// record of A that is record `j` of B, `back` the way back), and every key is
/// usable and unique,
/// every record is paired, all pairs are the same, and the files are identical.
pub proof fn law_key_compare_ignores_row_order(
    r: CompareResultSpec,
    headers: Seq<Seq<char>>,
    records_a: Seq<RecordSpec>,
    records_b: Seq<RecordSpec>,
    key_columns: Seq<Seq<char>>,
    excluded: Seq<Seq<char>>,
    settings: CompareSettings,
    order: Seq<int>,
    back: Seq<int>,
)
    requires
        records_a.len() <= usize::MAX,
        records_b.len() == records_a.len(),
        order.len() == records_b.len(),
        back.len() == records_a.len(),
        forall|j: int| 0 <= j < order.len() ==> 0 <= #[trigger] order[j] < records_a.len() && records_b[j].1 == records_a[order[j]].1 && back[order[j]] == j,
        forall|i: int| 0 <= i < back.len() ==> 0 <= #[trigger] back[i] < order.len() && order[back[i]] == i,
        forall|i: int|
            0 <= i < records_a.len() ==> spec_key_status(#[trigger] spec_key_of(key_columns, headers, records_a[i].1))
                == KeyStatus::Valid,
        forall|i1: int, i2: int|
            0 <= i1 < records_a.len() && 0 <= i2 < records_a.len() && i1 != i2
                ==> #[trigger] spec_key_of(key_columns, headers, records_a[i1].1) != #[trigger] spec_key_of(key_columns, headers, records_a[i2].1),
        key_result_matches(r, spec_key_compare(headers, records_a, headers, records_b, key_columns, excluded, settings), excluded),
    ensures
        spec_is_identical(r),
        r.identical,
        r.matched_records == records_a.len(),
        r.same_records == records_a.len(),
{
    let s = spec_key_compare(headers, records_a, headers, records_b, key_columns, excluded, settings);
    let n = records_a.len() as int;
    assert forall|j: int| 0 <= j < n implies #[trigger] s.key_b(j) == s.key_a(order[j]) by {
        assert(records_b[j].1 == records_a[order[j]].1);
    }
    assert forall|i1: int, i2: int| 0 <= i1 < n && 0 <= i2 < n && i1 != i2 implies #[trigger] s.key_a(i1) != #[trigger] s.key_a(i2) by {
        assert(spec_key_of(key_columns, headers, records_a[i1].1) != spec_key_of(key_columns, headers, records_a[i2].1));
    }
    assert forall|j1: int, j2: int| 0 <= j1 < n && 0 <= j2 < n && j1 != j2 implies #[trigger] s.key_b(j1) != #[trigger] s.key_b(j2) by {
        assert(s.key_b(j1) == s.key_a(order[j1]));
        assert(s.key_b(j2) == s.key_a(order[j2]));
        assert(back[order[j1]] == j1);
        assert(back[order[j2]] == j2);
    }
    assert forall|i: int| 0 <= i < n implies #[trigger] s.status_a(i) == KeyStatus::Valid by {
        assert(spec_key_status(spec_key_of(key_columns, headers, records_a[i].1)) == KeyStatus::Valid);
    }
    assert forall|j: int| 0 <= j < n implies #[trigger] s.status_b(j) == KeyStatus::Valid by {
        assert(s.key_b(j) == s.key_a(order[j]));
        assert(s.status_a(order[j]) == KeyStatus::Valid);
    }
    assert forall|k: Seq<Seq<char>>| s.count_a(k) <= 1 by {
        lemma_unique_a(s, k);
    }
    assert forall|k: Seq<Seq<char>>| s.count_b(k) <= 1 by {
        lemma_unique_b(s, k);
    }
    // Every key of A is carried once by B, and every key of B once by A.
    assert forall|i: int| 0 <= i < n implies s.count_b(#[trigger] s.key_a(i)) == 1 by {
        let j = back[i];
        lemma_occ_b(s, s.key_a(i));
        assert(s.key_b(j) == s.key_a(i));
        assert(s.status_b(j) == KeyStatus::Valid);
        assert(s.occ_b(s.key_a(i)).contains(j as usize));
        lemma_unique_b(s, s.key_a(i));
    }
    assert forall|j: int| 0 <= j < n implies s.count_a(#[trigger] s.key_b(j)) == 1 by {
        lemma_occ_a(s, s.key_b(j));
        assert(s.key_b(j) == s.key_a(order[j]));
        assert(s.status_a(order[j]) == KeyStatus::Valid);
        assert(s.occ_a(s.key_b(j)).contains(order[j] as usize));
        lemma_unique_a(s, s.key_b(j));
    }
    assert forall|j: int| 0 <= j < n implies s.count_b(#[trigger] s.key_b(j)) == 1 by {
        lemma_occ_b(s, s.key_b(j));
        assert(s.occ_b(s.key_b(j)).contains(j as usize));
        lemma_unique_b(s, s.key_b(j));
    }
    // The pairs: one per record of B, none from duplicated keys.
    assert forall|j: int| 0 <= j < n implies #[trigger] s.b_pair_fn()(j).len() == 1 by {
        assert(s.valid_b()[j]);
        assert(s.b_matched(j));
    }
    lemma_concat_singletons(s.b_pair_fn(), n);
    assert forall|i: int| 0 <= i < n implies #[trigger] s.dup_pairs_fn()(i).len() == 0 by {
        assert(s.count_a(s.key_a(i)) <= 1);
    }
    lemma_concat_empty(s.dup_pairs_fn(), n);
    assert(s.pairs().len() == n);
    // Paired records are the same record.
    assert forall|t: int| 0 <= t < s.pairs().len() implies s.changes(#[trigger] s.pairs()[t].0, s.pairs()[t].1).len() == 0 by {
        law_pairs_share_exact_key(s, t);
        let (i, j) = s.pairs()[t];
        assert(s.key_b(j) == s.key_a(order[j]));
        assert(i == order[j]);
        lemma_same_record_no_changes(headers, records_a[i], records_b[j], s.compared, settings, s.key_values_a(i), s.compared.len() as int);
    }
    lemma_no_different(s, s.pairs());
    law_same_plus_different(s, s.pairs());
    // Nothing is left over on either side.
    assert forall|i: int| 0 <= i < n implies !#[trigger] s.a_only_pred()(i) by {
        assert(s.count_b(s.key_a(i)) == 1);
    }
    lemma_count_none(s.a_only_pred(), n);
    assert forall|j: int| 0 <= j < n implies !#[trigger] s.b_only_pred()(j) by {
        assert(s.count_a(s.key_b(j)) == 1);
    }
    lemma_count_none(s.b_only_pred(), n);
    assert forall|i: int| 0 <= i < n implies !#[trigger] s.empty_a_fn()(i) by {
        assert(s.status_a(i) == KeyStatus::Valid);
    }
    lemma_count_none(s.empty_a_fn(), n);
    assert forall|i: int| 0 <= i < n implies !#[trigger] s.incomplete_a_fn()(i) by {
        assert(s.status_a(i) == KeyStatus::Valid);
    }
    lemma_count_none(s.incomplete_a_fn(), n);
    assert forall|j: int| 0 <= j < n implies !#[trigger] s.empty_b_fn()(j) by {
        assert(s.status_b(j) == KeyStatus::Valid);
    }
    lemma_count_none(s.empty_b_fn(), n);
    assert forall|j: int| 0 <= j < n implies !#[trigger] s.incomplete_b_fn()(j) by {
        assert(s.status_b(j) == KeyStatus::Valid);
    }
    lemma_count_none(s.incomplete_b_fn(), n);
    assert forall|k: Seq<Seq<char>>| #[trigger] key_count(s.keys_a(), s.valid_a(), k) <= 1 by {
        assert(s.count_a(k) <= 1);
    }
    assert forall|k: Seq<Seq<char>>| #[trigger] key_count(s.keys_b(), s.valid_b(), k) <= 1 by {
        assert(s.count_b(k) <= 1);
    }
    let fka = super::key_index::first_keys(s.keys_a(), s.valid_a(), n);
    let fkb = super::key_index::first_keys(s.keys_b(), s.valid_b(), n);
    lemma_no_duplicate_infos("File A"@, key_columns, s.keys_a(), s.valid_a(), s.rows_a(), fka, fka.len() as int);
    lemma_no_duplicate_infos("File B"@, key_columns, s.keys_b(), s.valid_b(), s.rows_b(), fkb, fkb.len() as int);
    assert forall|i: int| 0 <= i < headers.len() implies headers.contains(#[trigger] headers[i]) by {}
    lemma_only_in_self(headers, headers, excluded);
}

/// A column that is excluded is never reported as one that only one file has.
proof fn lemma_only_in_not_excluded(names: Seq<Seq<char>>, others: Seq<Seq<char>>, excluded: Seq<Seq<char>>, c: Seq<char>)
    requires
        excluded.contains(c),
    ensures
        !spec_only_in(names, others, excluded).contains(c),
    decreases names.len(),
{
    if names.len() > 0 {
        lemma_only_in_not_excluded(names.drop_last(), others, excluded, c);
    }
}

/// No column-level difference names an excluded column.
proof fn lemma_column_differences_not_excluded(a: Seq<Seq<char>>, b: Seq<Seq<char>>, excluded: Seq<Seq<char>>, t: int)
    requires
        0 <= t < spec_column_differences(a, b, excluded).len(),
    ensures
        spec_column_differences(a, b, excluded)[t].column_name matches Some(c) ==> !excluded.contains(c),
{
    let xa = spec_only_in(a, b, excluded);
    let xb = spec_only_in(b, a, excluded);
    if t < xa.len() {
        let c = xa[t];
        if excluded.contains(c) {
            lemma_only_in_not_excluded(a, b, excluded, c);
            assert(xa.contains(c));
        }
    } else {
        let c = xb[t - xa.len()];
        if excluded.contains(c) {
            lemma_only_in_not_excluded(b, a, excluded, c);
            assert(xb.contains(c));
        }
    }
}

/// No difference between two records names an excluded column, when only
/// columns outside `excluded` are compared.
proof fn lemma_changes_not_excluded(
    headers_a: Seq<Seq<char>>,
    a: RecordSpec,
    headers_b: Seq<Seq<char>>,
    b: RecordSpec,
    names: Seq<Seq<char>>,
    excluded: Seq<Seq<char>>,
    settings: CompareSettings,
    key_values: Seq<crate::models::difference::KeyValueSpec>,
    t: int,
)
    requires
        0 <= t < spec_record_changes(headers_a, a, headers_b, b, spec_not_in(names, excluded), settings, key_values).len(),
    ensures
        spec_record_changes(headers_a, a, headers_b, b, spec_not_in(names, excluded), settings, key_values)[t].column_name
            matches Some(c) ==> !excluded.contains(c),
{
    let compared = spec_not_in(names, excluded);
    law_changes_show_raw_values(headers_a, a, headers_b, b, compared, settings, key_values, t);
    let d = spec_record_changes(headers_a, a, headers_b, b, compared, settings, key_values)[t];
    let c = choose|c: int| #![trigger compared[c]] 0 <= c < compared.len() && d.column_name == Some(compared[c]);
    if excluded.contains(compared[c]) {
        law_excluded_never_compared(names, excluded, compared[c]);
        assert(compared.contains(compared[c]));
    }
}

/// Element `t` of the changes of a list of pairs is a change of one of the pairs.
proof fn lemma_pair_changes_index(s: KeyCompareSpec, pairs: Seq<(int, int)>, t: int) -> (qu: (int, int))
    requires
        0 <= t < pair_changes(s, pairs).len(),
    ensures
        0 <= qu.0 < pairs.len(),
        0 <= qu.1 < s.changes(pairs[qu.0].0, pairs[qu.0].1).len(),
        pair_changes(s, pairs)[t] == s.changes(pairs[qu.0].0, pairs[qu.0].1)[qu.1],
    decreases pairs.len(),
{
    let rest = pair_changes(s, pairs.drop_last());
    if t < rest.len() {
        let qu = lemma_pair_changes_index(s, pairs.drop_last(), t);
        assert(pairs.drop_last()[qu.0] == pairs[qu.0]);
        qu
    } else {
        (pairs.len() - 1, t - rest.len())
    }
}

/// Excluded columns take no part in a key-based comparison: no difference it
/// reports names an excluded column.
pub proof fn law_key_differences_skip_excluded(s: KeyCompareSpec, excluded: Seq<Seq<char>>, t: int)
    requires
        s.compared == spec_not_in(spec_present_in(s.headers_a, s.headers_b), excluded),
        0 <= t < s.differences(excluded).len(),
    ensures
        s.differences(excluded)[t].column_name matches Some(c) ==> !excluded.contains(c),
{
    let na = s.records_a.len() as int;
    let nb = s.records_b.len() as int;
    let p1 = concat_upto(s.a_issue_fn(), na);
    let p2 = spec_column_differences(s.headers_a, s.headers_b, excluded);
    let p3 = concat_upto(s.b_piece_fn(), nb);
    let p4 = concat_upto(s.dup_changes_fn(), na);
    let p5 = concat_upto(s.a_only_fn(), na);
    let names = spec_present_in(s.headers_a, s.headers_b);
    assert(s.differences(excluded) == p1 + p2 + p3 + p4 + p5);
    let d = s.differences(excluded)[t];
    if t < p1.len() {
        let (k, u) = lemma_concat_index(s.a_issue_fn(), na, t);
        assert(d == s.a_issue(k)[u]);
    } else if t < p1.len() + p2.len() {
        lemma_column_differences_not_excluded(s.headers_a, s.headers_b, excluded, t - p1.len());
        assert(d == p2[t - p1.len()]);
    } else if t < p1.len() + p2.len() + p3.len() {
        let (j, u) = lemma_concat_index(s.b_piece_fn(), nb, t - p1.len() - p2.len());
        assert(d == s.b_piece(j)[u]);
        if s.status_b(j) == KeyStatus::Valid && s.b_matched(j) {
            let i = s.occ_a(s.key_b(j))[0] as int;
            lemma_changes_not_excluded(s.headers_a, s.records_a[i], s.headers_b, s.records_b[j], names, excluded, s.settings, s.key_values_a(i), u);
        }
    } else if t < p1.len() + p2.len() + p3.len() + p4.len() {
        let (i, u) = lemma_concat_index(s.dup_changes_fn(), na, t - p1.len() - p2.len() - p3.len());
        assert(d == pair_changes(s, s.dup_pairs(i))[u]);
        let (q, v) = lemma_pair_changes_index(s, s.dup_pairs(i), u);
        let (x, y) = s.dup_pairs(i)[q];
        lemma_changes_not_excluded(s.headers_a, s.records_a[x], s.headers_b, s.records_b[y], names, excluded, s.settings, s.key_values_a(x), v);
    } else {
        let (k, u) = lemma_concat_index(s.a_only_fn(), na, t - p1.len() - p2.len() - p3.len() - p4.len());
        assert(d == s.a_only_piece(k)[u]);
    }
}

/// Excluded columns take no part in a row-by-row comparison: no difference it
/// reports names an excluded column.
pub proof fn law_row_differences_skip_excluded(s: RowCompareSpec, excluded: Seq<Seq<char>>, t: int)
    requires
        s.compared == spec_not_in(spec_present_in(s.headers_a, s.headers_b), excluded),
        0 <= t < s.differences(excluded).len(),
    ensures
        s.differences(excluded)[t].column_name matches Some(c) ==> !excluded.contains(c),
{
    let p1 = spec_column_differences(s.headers_a, s.headers_b, excluded);
    let p2 = concat_upto(s.piece_fn(), s.span() as int);
    let d = s.differences(excluded)[t];
    if t < p1.len() {
        lemma_column_differences_not_excluded(s.headers_a, s.headers_b, excluded, t);
    } else {
        let (k, u) = lemma_concat_index(s.piece_fn(), s.span() as int, t - p1.len());
        assert(d == s.piece(k)[u]);
        if k < s.matched() {
            lemma_changes_not_excluded(
                s.headers_a,
                s.records_a[k],
                s.headers_b,
                s.records_b[k],
                spec_present_in(s.headers_a, s.headers_b),
                excluded,
                s.settings,
                Seq::empty(),
                u,
            );
        }
    }
}

/// In a row-by-row comparison every record is either paired with the record
/// at its position in the other file or left over, and records can be left
/// over in one file only; every pair is counted once, as same or as different.
pub proof fn law_row_counts(r: CompareResultSpec, s: RowCompareSpec, excluded: Seq<Seq<char>>)
    requires
        row_result_matches(r, s, excluded),
    ensures
        r.matched_records + r.a_only_records == r.rows_a,
        r.matched_records + r.b_only_records == r.rows_b,
        r.a_only_records == 0 || r.b_only_records == 0,
        r.same_records + r.different_records == r.matched_records,
{
    lemma_count_split(s.same_fn(), s.different_fn(), s.matched() as int);
}

/// Two complementary predicates split a count.
proof fn lemma_count_split(p: spec_fn(int) -> bool, q: spec_fn(int) -> bool, n: int)
    requires
        n >= 0,
        forall|k: int| 0 <= k < n ==> #[trigger] p(k) != q(k),
    ensures
        count_upto(p, n) + count_upto(q, n) == n,
    decreases n,
{
    if n > 0 {
        lemma_count_split(p, q, n - 1);
        assert(p(n - 1) != q(n - 1));
    }
}

/// In a key-based comparison every pair is counted once, as same or as different.
pub proof fn law_key_same_plus_different(r: CompareResultSpec, s: KeyCompareSpec, excluded: Seq<Seq<char>>)
    requires
        key_result_matches(r, s, excluded),
    ensures
        r.same_records + r.different_records == r.matched_records,
{
    law_same_plus_different(s, s.pairs());
}

/// The key columns are taken in file A's header order, whatever the order in
/// which they were asked for: two requests naming the same columns give the
/// same key columns.
pub proof fn law_key_columns_follow_header_order(headers: Seq<Seq<char>>, asked1: Seq<Seq<char>>, asked2: Seq<Seq<char>>)
    requires
        forall|c: Seq<char>| asked1.contains(c) <==> asked2.contains(c),
    ensures
        spec_present_in(headers, asked1) == spec_present_in(headers, asked2),
    decreases headers.len(),
{
    if headers.len() > 0 {
        law_key_columns_follow_header_order(headers.drop_last(), asked1, asked2);
        assert(asked1.contains(headers.last()) == asked2.contains(headers.last()));
    }
}

/// A composite key is its values column by column: two keys are equal exactly
/// when every key column has the same value in both records, so values are
/// never run together (`A` + `BC` is not `AB` + `C`).
pub proof fn law_composite_key_is_per_column(
    columns: Seq<Seq<char>>,
    headers_a: Seq<Seq<char>>,
    record_a: Seq<Seq<char>>,
    headers_b: Seq<Seq<char>>,
    record_b: Seq<Seq<char>>,
)
    ensures
        spec_key_of(columns, headers_a, record_a) == spec_key_of(columns, headers_b, record_b)
            <==> forall|i: int| 0 <= i < columns.len() ==> spec_value_or_empty(headers_a, #[trigger] columns[i], record_a)
                == spec_value_or_empty(headers_b, columns[i], record_b),
{
    let ka = spec_key_of(columns, headers_a, record_a);
    let kb = spec_key_of(columns, headers_b, record_b);
    if forall|i: int| 0 <= i < columns.len() ==> spec_value_or_empty(headers_a, #[trigger] columns[i], record_a)
        == spec_value_or_empty(headers_b, columns[i], record_b) {
        assert(ka =~= kb);
    }
    if ka == kb {
        assert forall|i: int| 0 <= i < columns.len() implies spec_value_or_empty(headers_a, #[trigger] columns[i], record_a)
            == spec_value_or_empty(headers_b, columns[i], record_b) by {
            assert(ka[i] == kb[i]);
        }
    }
}

/// Two paired records are the same exactly when every compared column, looked
/// up by its name in each file's header, has values that are equal under the
/// settings; the position of a column in either file plays no part.
pub proof fn law_same_iff_compared_columns_equal(
    headers_a: Seq<Seq<char>>,
    a: RecordSpec,
    headers_b: Seq<Seq<char>>,
    b: RecordSpec,
    compared: Seq<Seq<char>>,
    settings: CompareSettings,
    key_values: Seq<crate::models::difference::KeyValueSpec>,
)
    ensures
        spec_record_changes(headers_a, a, headers_b, b, compared, settings, key_values).len() == 0
            <==> forall|c: int|
            0 <= c < compared.len() ==> spec_values_equal(
                spec_value_or_empty(headers_a, #[trigger] compared[c], a.1),
                spec_value_or_empty(headers_b, compared[c], b.1),
                settings,
            ),
{
    lemma_no_changes_upto(headers_a, a, headers_b, b, compared, settings, key_values, compared.len() as int);
}

proof fn lemma_no_changes_upto(
    headers_a: Seq<Seq<char>>,
    a: RecordSpec,
    headers_b: Seq<Seq<char>>,
    b: RecordSpec,
    compared: Seq<Seq<char>>,
    settings: CompareSettings,
    key_values: Seq<crate::models::difference::KeyValueSpec>,
    n: int,
)
    requires
        0 <= n <= compared.len(),
    ensures
        spec_cell_changes(headers_a, a, headers_b, b, compared, settings, key_values, n).len() == 0
            <==> forall|c: int|
            0 <= c < n ==> spec_values_equal(
                spec_value_or_empty(headers_a, #[trigger] compared[c], a.1),
                spec_value_or_empty(headers_b, compared[c], b.1),
                settings,
            ),
    decreases n,
{
    if n > 0 {
        lemma_no_changes_upto(headers_a, a, headers_b, b, compared, settings, key_values, n - 1);
        let c = n - 1;
        assert(compared[c] == compared[n - 1]);
    }
}

/// The number of positions that carry key `k` is a count.
proof fn lemma_occ_len_count(keys: Seq<Seq<Seq<char>>>, valid: Seq<bool>, k: Seq<Seq<char>>, n: int, p: spec_fn(int) -> bool)
    requires
        forall|j: int| 0 <= j < n ==> #[trigger] p(j) == (valid[j] && keys[j] == k),
    ensures
        occ(keys, valid, k, n).len() == count_upto(p, n),
    decreases n,
{
    if n > 0 {
        lemma_occ_len_count(keys, valid, k, n - 1, p);
        assert(p(n - 1) == (valid[n - 1] && keys[n - 1] == k));
    }
}

/// How many cells differ depends on the records' fields, not on their numbers
/// nor on the key values attached to the differences.
proof fn lemma_changes_len_ignore_rows(
    headers_a: Seq<Seq<char>>,
    a1: RecordSpec,
    a2: RecordSpec,
    headers_b: Seq<Seq<char>>,
    b1: RecordSpec,
    b2: RecordSpec,
    compared: Seq<Seq<char>>,
    settings: CompareSettings,
    kv1: Seq<crate::models::difference::KeyValueSpec>,
    kv2: Seq<crate::models::difference::KeyValueSpec>,
    n: int,
)
    requires
        a1.1 == a2.1,
        b1.1 == b2.1,
    ensures
        spec_cell_changes(headers_a, a1, headers_b, b1, compared, settings, kv1, n).len()
            == spec_cell_changes(headers_a, a2, headers_b, b2, compared, settings, kv2, n).len(),
    decreases n,
{
    if n > 0 {
        lemma_changes_len_ignore_rows(headers_a, a1, a2, headers_b, b1, b2, compared, settings, kv1, kv2, n - 1);
    }
}

/// Same pairs of a concatenation are those of its parts.
proof fn lemma_count_same_split(s: KeyCompareSpec, x: Seq<(int, int)>, y: Seq<(int, int)>)
    ensures
        count_same(s, x + y) == count_same(s, x) + count_same(s, y),
    decreases y.len(),
{
    if y.len() == 0 {
        assert(x + y =~= x);
    } else {
        lemma_count_same_split(s, x, y.drop_last());
        assert((x + y).drop_last() =~= x + y.drop_last());
        assert((x + y).last() == y.last());
    }
}

/// The same pairs among those made by unique keys, counted over file B.
proof fn lemma_count_same_b_pairs(s: KeyCompareSpec, n: int, q: spec_fn(int) -> bool)
    requires
        forall|j: int| 0 <= j < n ==> #[trigger] q(j) == (s.b_matched(j) && s.changes(s.occ_a(s.key_b(j))[0] as int, j).len() == 0),
    ensures
        count_same(s, concat_upto(s.b_pair_fn(), n)) == count_upto(q, n),
    decreases n,
{
    if n > 0 {
        lemma_count_same_b_pairs(s, n - 1, q);
        assert(q(n - 1) == (s.b_matched(n - 1) && s.changes(s.occ_a(s.key_b(n - 1))[0] as int, n - 1).len() == 0));
        lemma_count_same_split(s, concat_upto(s.b_pair_fn(), n - 1), s.b_pair_fn()(n - 1));
        let piece = s.b_pair_fn()(n - 1);
        assert(piece == s.b_pair(n - 1));
        if s.b_matched(n - 1) {
            assert(piece.drop_last() =~= Seq::<(int, int)>::empty());
            assert(piece.last() == (s.occ_a(s.key_b(n - 1))[0] as int, n - 1));
            assert(count_same(s, piece.drop_last()) == 0);
            assert(count_same(s, piece) == if q(n - 1) { 1nat } else { 0nat });
        } else {
            assert(piece.len() == 0);
            assert(count_same(s, piece) == 0);
        }
        assert(concat_upto(s.b_pair_fn(), n) == concat_upto(s.b_pair_fn(), n - 1) + piece);
    }
}

/// Differing cells of a concatenation of pairs are those of its parts.
proof fn lemma_pair_changes_split(s: KeyCompareSpec, x: Seq<(int, int)>, y: Seq<(int, int)>)
    ensures
        pair_changes(s, x + y).len() == pair_changes(s, x).len() + pair_changes(s, y).len(),
    decreases y.len(),
{
    if y.len() == 0 {
        assert(x + y =~= x);
    } else {
        lemma_pair_changes_split(s, x, y.drop_last());
        assert((x + y).drop_last() =~= x + y.drop_last());
        assert((x + y).last() == y.last());
    }
}

/// The differing cells of the pairs made by unique keys, summed over file B.
proof fn lemma_changes_b_pairs(s: KeyCompareSpec, n: int, c: spec_fn(int) -> nat)
    requires
        forall|j: int| 0 <= j < n ==> #[trigger] c(j) == (if s.b_matched(j) {
            s.changes(s.occ_a(s.key_b(j))[0] as int, j).len()
        } else {
            0
        }),
    ensures
        pair_changes(s, concat_upto(s.b_pair_fn(), n)).len() == sum_upto(c, n),
    decreases n,
{
    if n > 0 {
        lemma_changes_b_pairs(s, n - 1, c);
        assert(c(n - 1) == (if s.b_matched(n - 1) {
            s.changes(s.occ_a(s.key_b(n - 1))[0] as int, n - 1).len()
        } else {
            0
        }));
        lemma_pair_changes_split(s, concat_upto(s.b_pair_fn(), n - 1), s.b_pair_fn()(n - 1));
        let piece = s.b_pair_fn()(n - 1);
        assert(piece == s.b_pair(n - 1));
        if s.b_matched(n - 1) {
            assert(piece.drop_last() =~= Seq::<(int, int)>::empty());
            assert(piece.last() == (s.occ_a(s.key_b(n - 1))[0] as int, n - 1));
            assert(pair_changes(s, piece.drop_last()).len() == 0);
        } else {
            assert(piece.len() == 0);
        }
        assert(concat_upto(s.b_pair_fn(), n) == concat_upto(s.b_pair_fn(), n - 1) + piece);
    }
}

/// Row order does not matter in a key-based comparison: arranging the records
/// of file B in another order (`order[j]` is the record that comes `j`-th,
/// `back` the way back) changes none of the counts of the result, as long as
/// no key is duplicated in both files (whose occurrences are paired in order).
pub proof fn law_key_counts_ignore_order_of_b(s: KeyCompareSpec, t: KeyCompareSpec, order: Seq<int>, back: Seq<int>)
    requires
        s.records_a.len() <= usize::MAX,
        s.records_b.len() <= usize::MAX,
        t.headers_a == s.headers_a,
        t.records_a == s.records_a,
        t.headers_b == s.headers_b,
        t.key_columns == s.key_columns,
        t.compared == s.compared,
        t.settings == s.settings,
        t.records_b.len() == s.records_b.len(),
        order.len() == s.records_b.len(),
        back.len() == s.records_b.len(),
        forall|j: int|
            0 <= j < order.len() ==> 0 <= #[trigger] order[j] < order.len() && back[order[j]] == j
                && t.records_b[j].1 == s.records_b[order[j]].1,
        forall|k: int| 0 <= k < back.len() ==> 0 <= #[trigger] back[k] < back.len() && order[back[k]] == k,
        forall|i: int| 0 <= i < s.records_a.len() ==> !(s.count_a(#[trigger] s.key_a(i)) >= 2 && s.count_b(s.key_a(i)) >= 2),
    ensures
        t.pairs().len() == s.pairs().len(),
        count_same(t, t.pairs()) == count_same(s, s.pairs()),
        count_different(t, t.pairs()) == count_different(s, s.pairs()),
        t.a_only_records() == s.a_only_records(),
        t.b_only_records() == s.b_only_records(),
        t.empty_keys_b() == s.empty_keys_b(),
        t.incomplete_keys_b() == s.incomplete_keys_b(),
        t.empty_keys_a() == s.empty_keys_a(),
        t.incomplete_keys_a() == s.incomplete_keys_a(),
        t.duplicates_a().len() == s.duplicates_a().len(),
        t.duplicates_b().len() == s.duplicates_b().len(),
        pair_changes(t, t.pairs()).len() == pair_changes(s, s.pairs()).len(),
        forall|k: Seq<Seq<char>>| #[trigger] t.count_a(k) == s.count_a(k) && t.count_b(k) == s.count_b(k),
{
    let na = s.records_a.len() as int;
    let n = s.records_b.len() as int;
    assert(t.keys_a() =~= s.keys_a());
    assert(t.valid_a() =~= s.valid_a());
    assert forall|k: Seq<Seq<char>>| #[trigger] t.occ_a(k) == s.occ_a(k) by {}
    assert forall|j: int| 0 <= j < n implies #[trigger] t.key_b(j) == s.key_b(order[j]) && t.status_b(j) == s.status_b(order[j]) by {
        assert(t.records_b[j].1 == s.records_b[order[j]].1);
    }
    // Every key is carried as often by the rearranged file B.
    assert forall|k: Seq<Seq<char>>| #[trigger] t.count_b(k) == s.count_b(k) by {
        let ps = |x: int| s.valid_b()[x] && s.keys_b()[x] == k;
        let pt = |j: int| t.valid_b()[j] && t.keys_b()[j] == k;
        lemma_occ_len_count(t.keys_b(), t.valid_b(), k, n, pt);
        lemma_occ_len_count(s.keys_b(), s.valid_b(), k, n, ps);
        assert(t.keys_b().len() == n);
        assert(s.keys_b().len() == n);
        assert forall|j: int| 0 <= j < n implies #[trigger] pt(j) == ps(order[j]) by {
            let x = order[j];
            assert(t.key_b(j) == s.key_b(x));
            assert(t.status_b(j) == s.status_b(x));
            assert(t.keys_b()[j] == t.key_b(j));
            assert(s.keys_b()[x] == s.key_b(x));
            assert(t.valid_b()[j] == (t.status_b(j) == KeyStatus::Valid));
            assert(s.valid_b()[x] == (s.status_b(x) == KeyStatus::Valid));
        }
        lemma_count_ext(pt, |j: int| ps(order[j]), n);
        lemma_count_reordered(ps, n, order, back);
    }
    // A only: the same records.
    assert forall|i: int| 0 <= i < na implies #[trigger] t.a_only_pred()(i) == s.a_only_pred()(i) by {
        assert(t.count_b(t.key_a(i)) == s.count_b(s.key_a(i)));
    }
    lemma_count_ext(t.a_only_pred(), s.a_only_pred(), na);
    // Pointwise facts on file B, moved by `order`.
    assert forall|j: int| 0 <= j < n implies {
        &&& #[trigger] t.b_only_pred()(j) == s.b_only_pred()(order[j])
        &&& t.empty_b_fn()(j) == s.empty_b_fn()(order[j])
        &&& t.incomplete_b_fn()(j) == s.incomplete_b_fn()(order[j])
        &&& t.b_matched(j) == s.b_matched(order[j])
    } by {
        assert(t.key_b(j) == s.key_b(order[j]));
        assert(t.status_b(j) == s.status_b(order[j]));
        assert(t.valid_b()[j] == s.valid_b()[order[j]]);
        assert(t.count_b(t.key_b(j)) == s.count_b(s.key_b(order[j])));
        assert(t.count_a(t.key_b(j)) == s.count_a(s.key_b(order[j])));
    }
    lemma_count_ext(t.b_only_pred(), |j: int| s.b_only_pred()(order[j]), n);
    lemma_count_reordered(s.b_only_pred(), n, order, back);
    lemma_count_ext(t.empty_b_fn(), |j: int| s.empty_b_fn()(order[j]), n);
    lemma_count_reordered(s.empty_b_fn(), n, order, back);
    lemma_count_ext(t.incomplete_b_fn(), |j: int| s.incomplete_b_fn()(order[j]), n);
    lemma_count_reordered(s.incomplete_b_fn(), n, order, back);
    // No pairs come from duplicated keys.
    assert forall|i: int| 0 <= i < na implies #[trigger] s.dup_pairs_fn()(i).len() == 0 && t.dup_pairs_fn()(i).len() == 0 by {
        assert(t.count_b(t.key_a(i)) == s.count_b(s.key_a(i)));
        assert(!(s.count_a(s.key_a(i)) >= 2 && s.count_b(s.key_a(i)) >= 2));
    }
    lemma_concat_empty(s.dup_pairs_fn(), na);
    lemma_concat_empty(t.dup_pairs_fn(), na);
    assert(s.pairs() =~= concat_upto(s.b_pair_fn(), n));
    assert(t.pairs() =~= concat_upto(t.b_pair_fn(), n));
    // Pairs made by unique keys: one per matched record of B.
    let ms = |j: int| s.b_matched(j);
    let mt = |j: int| t.b_matched(j);
    assert forall|j: int| 0 <= j < n implies #[trigger] s.b_pair_fn()(j).len() == (if ms(j) { 1int } else { 0int }) by {}
    assert forall|j: int| 0 <= j < n implies #[trigger] t.b_pair_fn()(j).len() == (if mt(j) { 1int } else { 0int }) by {}
    lemma_concat_len_count(s.b_pair_fn(), ms, n);
    lemma_concat_len_count(t.b_pair_fn(), mt, n);
    lemma_count_ext(mt, |j: int| ms(order[j]), n);
    lemma_count_reordered(ms, n, order, back);
    // Same pairs: the same records of A and B, whatever the numbering of B's.
    let qs = |j: int| s.b_matched(j) && s.changes(s.occ_a(s.key_b(j))[0] as int, j).len() == 0;
    let qt = |j: int| t.b_matched(j) && t.changes(t.occ_a(t.key_b(j))[0] as int, j).len() == 0;
    assert forall|j: int| 0 <= j < n implies #[trigger] qt(j) == qs(order[j]) by {
        let x = order[j];
        assert(t.key_b(j) == s.key_b(x));
        let i = s.occ_a(s.key_b(x))[0] as int;
        assert(t.occ_a(t.key_b(j))[0] as int == i);
        assert(t.records_b[j].1 == s.records_b[x].1);
        lemma_changes_len_ignore_rows(
            s.headers_a,
            t.records_a[i],
            s.records_a[i],
            s.headers_b,
            t.records_b[j],
            s.records_b[x],
            s.compared,
            s.settings,
            t.key_values_a(i),
            s.key_values_a(i),
            s.compared.len() as int,
        );
    }
    lemma_count_same_b_pairs(s, n, qs);
    lemma_count_same_b_pairs(t, n, qt);
    lemma_count_ext(qt, |j: int| qs(order[j]), n);
    lemma_count_reordered(qs, n, order, back);
    // Differing cells: the same pairs of records, whatever the numbering of B's.
    let cs = |j: int| if s.b_matched(j) { s.changes(s.occ_a(s.key_b(j))[0] as int, j).len() } else { 0 };
    let ct = |j: int| if t.b_matched(j) { t.changes(t.occ_a(t.key_b(j))[0] as int, j).len() } else { 0 };
    assert forall|j: int| 0 <= j < n implies #[trigger] ct(j) == cs(order[j]) by {
        let x = order[j];
        assert(t.key_b(j) == s.key_b(x));
        assert(t.b_matched(j) == s.b_matched(x));
        let i = s.occ_a(s.key_b(x))[0] as int;
        assert(t.occ_a(t.key_b(j))[0] as int == i);
        assert(t.records_b[j].1 == s.records_b[x].1);
        lemma_changes_len_ignore_rows(
            s.headers_a,
            t.records_a[i],
            s.records_a[i],
            s.headers_b,
            t.records_b[j],
            s.records_b[x],
            s.compared,
            s.settings,
            t.key_values_a(i),
            s.key_values_a(i),
            s.compared.len() as int,
        );
    }
    lemma_changes_b_pairs(s, n, cs);
    lemma_changes_b_pairs(t, n, ct);
    lemma_sum_ext(ct, |j: int| cs(order[j]), n);
    lemma_sum_reordered(cs, n, order, back);
    law_same_plus_different(s, s.pairs());
    law_same_plus_different(t, t.pairs());
    // File A is untouched; file B's duplicated keys are the same keys.
    assert(t.rows_a() =~= s.rows_a());
    assert(t.duplicates_a() == s.duplicates_a());
    assert(t.empty_a_fn() == s.empty_a_fn());
    assert(t.incomplete_a_fn() == s.incomplete_a_fn());
    lemma_report_count_is_repeated_keys("File B"@, t.key_columns, t.keys_b(), t.valid_b(), t.rows_b());
    lemma_report_count_is_repeated_keys("File B"@, s.key_columns, s.keys_b(), s.valid_b(), s.rows_b());
    assert forall|k: Seq<Seq<char>>| #[trigger] spec_repeated_keys(t.keys_b(), t.valid_b()).contains(k)
        == spec_repeated_keys(s.keys_b(), s.valid_b()).contains(k) by {
        assert(t.count_b(k) == s.count_b(k));
    }
    assert(spec_repeated_keys(t.keys_b(), t.valid_b()) =~= spec_repeated_keys(s.keys_b(), s.valid_b()));
}

/// Row order does not matter in a key-based comparison, on the side of file A
/// too: arranging its records in another order (`order[i]` is the record that
/// comes `i`-th, `back` the way back) changes none of the counts of the result,
/// as long as no key is duplicated in both files.
pub proof fn law_key_counts_ignore_order_of_a(s: KeyCompareSpec, t: KeyCompareSpec, order: Seq<int>, back: Seq<int>)
    requires
        s.records_a.len() <= usize::MAX,
        s.records_b.len() <= usize::MAX,
        t.headers_a == s.headers_a,
        t.headers_b == s.headers_b,
        t.records_b == s.records_b,
        t.key_columns == s.key_columns,
        t.compared == s.compared,
        t.settings == s.settings,
        t.records_a.len() == s.records_a.len(),
        order.len() == s.records_a.len(),
        back.len() == s.records_a.len(),
        forall|i: int|
            0 <= i < order.len() ==> 0 <= #[trigger] order[i] < order.len() && back[order[i]] == i
                && t.records_a[i].1 == s.records_a[order[i]].1,
        forall|k: int| 0 <= k < back.len() ==> 0 <= #[trigger] back[k] < back.len() && order[back[k]] == k,
        forall|i: int| 0 <= i < s.records_a.len() ==> !(s.count_a(#[trigger] s.key_a(i)) >= 2 && s.count_b(s.key_a(i)) >= 2),
    ensures
        t.pairs().len() == s.pairs().len(),
        count_same(t, t.pairs()) == count_same(s, s.pairs()),
        count_different(t, t.pairs()) == count_different(s, s.pairs()),
        t.a_only_records() == s.a_only_records(),
        t.b_only_records() == s.b_only_records(),
        t.empty_keys_a() == s.empty_keys_a(),
        t.incomplete_keys_a() == s.incomplete_keys_a(),
        t.empty_keys_b() == s.empty_keys_b(),
        t.incomplete_keys_b() == s.incomplete_keys_b(),
        t.duplicates_a().len() == s.duplicates_a().len(),
        t.duplicates_b().len() == s.duplicates_b().len(),
        pair_changes(t, t.pairs()).len() == pair_changes(s, s.pairs()).len(),
        forall|k: Seq<Seq<char>>| #[trigger] t.count_a(k) == s.count_a(k) && t.count_b(k) == s.count_b(k),
{
    let na = s.records_a.len() as int;
    let n = s.records_b.len() as int;
    assert(t.keys_b() =~= s.keys_b());
    assert(t.valid_b() =~= s.valid_b());
    assert forall|k: Seq<Seq<char>>| #[trigger] t.occ_b(k) == s.occ_b(k) by {}
    assert forall|i: int| 0 <= i < na implies #[trigger] t.key_a(i) == s.key_a(order[i]) && t.status_a(i) == s.status_a(order[i]) by {
        assert(t.records_a[i].1 == s.records_a[order[i]].1);
    }
    // Every key is carried as often by the rearranged file A.
    assert forall|k: Seq<Seq<char>>| #[trigger] t.count_a(k) == s.count_a(k) by {
        let ps = |x: int| s.valid_a()[x] && s.keys_a()[x] == k;
        let pt = |i: int| t.valid_a()[i] && t.keys_a()[i] == k;
        lemma_occ_len_count(t.keys_a(), t.valid_a(), k, na, pt);
        lemma_occ_len_count(s.keys_a(), s.valid_a(), k, na, ps);
        assert(t.keys_a().len() == na);
        assert(s.keys_a().len() == na);
        assert forall|i: int| 0 <= i < na implies #[trigger] pt(i) == ps(order[i]) by {
            let x = order[i];
            assert(t.key_a(i) == s.key_a(x));
            assert(t.status_a(i) == s.status_a(x));
            assert(t.keys_a()[i] == t.key_a(i));
            assert(s.keys_a()[x] == s.key_a(x));
            assert(t.valid_a()[i] == (t.status_a(i) == KeyStatus::Valid));
            assert(s.valid_a()[x] == (s.status_a(x) == KeyStatus::Valid));
        }
        lemma_count_ext(pt, |i: int| ps(order[i]), na);
        lemma_count_reordered(ps, na, order, back);
    }
    // B only, and which records of B are matched: unchanged.
    assert forall|j: int| 0 <= j < n implies #[trigger] t.b_only_pred()(j) == s.b_only_pred()(j) && t.b_matched(j) == s.b_matched(j) by {
        assert(t.count_a(t.key_b(j)) == s.count_a(s.key_b(j)));
    }
    lemma_count_ext(t.b_only_pred(), s.b_only_pred(), n);
    // Pointwise facts on file A, moved by `order`.
    assert forall|i: int| 0 <= i < na implies {
        &&& #[trigger] t.a_only_pred()(i) == s.a_only_pred()(order[i])
        &&& t.empty_a_fn()(i) == s.empty_a_fn()(order[i])
        &&& t.incomplete_a_fn()(i) == s.incomplete_a_fn()(order[i])
    } by {
        assert(t.key_a(i) == s.key_a(order[i]));
        assert(t.status_a(i) == s.status_a(order[i]));
        assert(t.valid_a()[i] == s.valid_a()[order[i]]);
        assert(t.count_a(t.key_a(i)) == s.count_a(s.key_a(order[i])));
    }
    lemma_count_ext(t.a_only_pred(), |i: int| s.a_only_pred()(order[i]), na);
    lemma_count_reordered(s.a_only_pred(), na, order, back);
    lemma_count_ext(t.empty_a_fn(), |i: int| s.empty_a_fn()(order[i]), na);
    lemma_count_reordered(s.empty_a_fn(), na, order, back);
    lemma_count_ext(t.incomplete_a_fn(), |i: int| s.incomplete_a_fn()(order[i]), na);
    lemma_count_reordered(s.incomplete_a_fn(), na, order, back);
    // No pairs come from duplicated keys.
    assert forall|i: int| 0 <= i < na implies #[trigger] s.dup_pairs_fn()(i).len() == 0 && t.dup_pairs_fn()(i).len() == 0 by {
        let x = order[i];
        assert(t.key_a(i) == s.key_a(x));
        assert(t.count_a(t.key_a(i)) == s.count_a(s.key_a(x)));
        assert(!(s.count_a(s.key_a(x)) >= 2 && s.count_b(s.key_a(x)) >= 2));
        assert(!(s.count_a(s.key_a(i)) >= 2 && s.count_b(s.key_a(i)) >= 2));
    }
    lemma_concat_empty(s.dup_pairs_fn(), na);
    lemma_concat_empty(t.dup_pairs_fn(), na);
    assert(s.pairs() =~= concat_upto(s.b_pair_fn(), n));
    assert(t.pairs() =~= concat_upto(t.b_pair_fn(), n));
    // Pairs made by unique keys: one per matched record of B.
    let ms = |j: int| s.b_matched(j);
    let mt = |j: int| t.b_matched(j);
    assert forall|j: int| 0 <= j < n implies #[trigger] s.b_pair_fn()(j).len() == (if ms(j) { 1int } else { 0int }) by {}
    assert forall|j: int| 0 <= j < n implies #[trigger] t.b_pair_fn()(j).len() == (if mt(j) { 1int } else { 0int }) by {}
    lemma_concat_len_count(s.b_pair_fn(), ms, n);
    lemma_concat_len_count(t.b_pair_fn(), mt, n);
    lemma_count_ext(mt, ms, n);
    // Same pairs: the partner in A is the same record, wherever it stands.
    let qs = |j: int| s.b_matched(j) && s.changes(s.occ_a(s.key_b(j))[0] as int, j).len() == 0;
    let qt = |j: int| t.b_matched(j) && t.changes(t.occ_a(t.key_b(j))[0] as int, j).len() == 0;
    assert forall|j: int| 0 <= j < n implies #[trigger] qt(j) == qs(j) by {
        if s.b_matched(j) {
            let k = s.key_b(j);
            assert(t.key_b(j) == k);
            lemma_occ_a(s, k);
            lemma_occ_a(t, k);
            let it = t.occ_a(k)[0] as int;
            let is = s.occ_a(k)[0] as int;
            assert(t.key_a(it) == k);
            assert(s.key_a(order[it]) == k);
            assert(s.status_a(order[it]) == KeyStatus::Valid);
            assert(s.occ_a(k).contains(order[it] as usize));
            assert(order[it] == is);
            assert(t.records_a[it].1 == s.records_a[is].1);
            lemma_changes_len_ignore_rows(
                s.headers_a,
                t.records_a[it],
                s.records_a[is],
                s.headers_b,
                t.records_b[j],
                s.records_b[j],
                s.compared,
                s.settings,
                t.key_values_a(it),
                s.key_values_a(is),
                s.compared.len() as int,
            );
        }
    }
    lemma_count_same_b_pairs(s, n, qs);
    lemma_count_same_b_pairs(t, n, qt);
    lemma_count_ext(qt, qs, n);
    // Differing cells: the partner in A is the same record, wherever it stands.
    let cs = |j: int| if s.b_matched(j) { s.changes(s.occ_a(s.key_b(j))[0] as int, j).len() } else { 0 };
    let ct = |j: int| if t.b_matched(j) { t.changes(t.occ_a(t.key_b(j))[0] as int, j).len() } else { 0 };
    assert forall|j: int| 0 <= j < n implies #[trigger] ct(j) == cs(j) by {
        assert(t.b_matched(j) == s.b_matched(j));
        if s.b_matched(j) {
            let k = s.key_b(j);
            assert(t.key_b(j) == k);
            lemma_occ_a(s, k);
            lemma_occ_a(t, k);
            let it = t.occ_a(k)[0] as int;
            let is = s.occ_a(k)[0] as int;
            assert(t.key_a(it) == k);
            assert(s.key_a(order[it]) == k);
            assert(s.status_a(order[it]) == KeyStatus::Valid);
            assert(s.occ_a(k).contains(order[it] as usize));
            assert(order[it] == is);
            assert(t.records_a[it].1 == s.records_a[is].1);
            lemma_changes_len_ignore_rows(
                s.headers_a,
                t.records_a[it],
                s.records_a[is],
                s.headers_b,
                t.records_b[j],
                s.records_b[j],
                s.compared,
                s.settings,
                t.key_values_a(it),
                s.key_values_a(is),
                s.compared.len() as int,
            );
        }
    }
    lemma_changes_b_pairs(s, n, cs);
    lemma_changes_b_pairs(t, n, ct);
    lemma_sum_ext(ct, cs, n);
    law_same_plus_different(s, s.pairs());
    law_same_plus_different(t, t.pairs());
    // File B is untouched; file A's duplicated keys are the same keys.
    assert(t.rows_b() =~= s.rows_b());
    assert(t.duplicates_b() == s.duplicates_b());
    assert(t.empty_b_fn() == s.empty_b_fn());
    assert(t.incomplete_b_fn() == s.incomplete_b_fn());
    lemma_report_count_is_repeated_keys("File A"@, t.key_columns, t.keys_a(), t.valid_a(), t.rows_a());
    lemma_report_count_is_repeated_keys("File A"@, s.key_columns, s.keys_a(), s.valid_a(), s.rows_a());
    assert forall|k: Seq<Seq<char>>| #[trigger] spec_repeated_keys(t.keys_a(), t.valid_a()).contains(k)
        == spec_repeated_keys(s.keys_a(), s.valid_a()).contains(k) by {
        assert(t.count_a(k) == s.count_a(k));
    }
    assert(spec_repeated_keys(t.keys_a(), t.valid_a()) =~= spec_repeated_keys(s.keys_a(), s.valid_a()));
}

/// What trimming leaves neither starts with white space nor, once the end is
/// trimmed too, ends with it.
proof fn lemma_trim_start_edges(s: Seq<char>)
    ensures
        spec_trim_start(s).len() == 0 || !is_white_space(spec_trim_start(s)[0]),
    decreases s.len(),
{
    if s.len() > 0 && is_white_space(s[0]) {
        lemma_trim_start_edges(s.drop_first());
    }
}

/// Trimming the end keeps the first char of what remains.
proof fn lemma_trim_end_keeps_start(s: Seq<char>)
    ensures
        spec_trim_end(s).len() == 0 || (spec_trim_end(s)[0] == s[0] && !is_white_space(spec_trim_end(s).last())),
    decreases s.len(),
{
    if s.len() > 0 && is_white_space(s.last()) {
        lemma_trim_end_keeps_start(s.drop_last());
        let r = spec_trim_end(s.drop_last());
        if r.len() > 0 {
            assert(s.drop_last()[0] == s[0]);
        }
    }
}

/// Law: with case folding off, normalizing a normalized value changes nothing;
/// in particular trimming is done once and for all, and with both options off a
/// value is compared exactly as it is.
pub proof fn law_normalize_idempotent_without_case_folding(value: Seq<char>, settings: CompareSettings)
    requires
        !settings.ignore_case,
    ensures
        spec_normalize(spec_normalize(value, settings), settings) == spec_normalize(value, settings),
        !settings.trim_whitespace ==> spec_normalize(value, settings) == value,
{
    if settings.trim_whitespace {
        let a = spec_trim_start(value);
        let z = spec_trim_end(a);
        lemma_trim_start_edges(value);
        lemma_trim_end_keeps_start(a);
        if z.len() > 0 {
            assert(!is_white_space(z[0]));
            assert(spec_trim_start(z) == z);
            assert(spec_trim_end(z) == z);
        } else {
            assert(spec_trim_start(z) == z);
            assert(spec_trim_end(z) == z);
        }
    }
}

/// A count is positive when one of the positions counted satisfies the test.
proof fn lemma_count_positive(p: spec_fn(int) -> bool, n: int, j: int)
    requires
        0 <= j < n,
        p(j),
    ensures
        count_upto(p, n) > 0,
    decreases n,
{
    if j < n - 1 {
        lemma_count_positive(p, n - 1, j);
    }
}

/// Whether nothing at all was found to differ: no record of one file only, no
/// differing record, no duplicate, empty or incomplete key, no column of one
/// file only.
pub open spec fn spec_nothing_differs(r: CompareResultSpec) -> bool {
    &&& r.a_only_records == 0
    &&& r.b_only_records == 0
    &&& r.different_records == 0
    &&& r.duplicate_keys_a == 0
    &&& r.duplicate_keys_b == 0
    &&& r.empty_keys_a == 0
    &&& r.empty_keys_b == 0
    &&& r.incomplete_keys_a == 0
    &&& r.incomplete_keys_b == 0
    &&& r.column_a_only.len() == 0
    &&& r.column_b_only.len() == 0
}

/// Law: a key-based result is identical exactly when nothing differs; in
/// particular a record that only file B (or only file A) has, paired with
/// nothing, makes the files different.
pub proof fn law_key_identical_only_when_nothing_differs(r: CompareResultSpec, s: KeyCompareSpec, excluded: Seq<Seq<char>>, j: int, i: int)
    requires
        key_result_matches(r, s, excluded),
    ensures
        r.identical <==> spec_nothing_differs(r),
        0 <= j < s.records_b.len() && s.b_only(j) ==> r.b_only_records > 0 && !r.identical,
        0 <= i < s.records_a.len() && s.a_only(i) ==> r.a_only_records > 0 && !r.identical,
{
    if 0 <= j < s.records_b.len() && s.b_only(j) {
        lemma_count_positive(s.b_only_pred(), s.records_b.len() as int, j);
    }
    if 0 <= i < s.records_a.len() && s.a_only(i) {
        lemma_count_positive(s.a_only_pred(), s.records_a.len() as int, i);
    }
}

/// Law: a row-by-row result is identical exactly when nothing differs; in
/// particular when one file has more records than the other, the files are
/// different.
pub proof fn law_row_identical_only_when_nothing_differs(r: CompareResultSpec, s: RowCompareSpec, excluded: Seq<Seq<char>>)
    requires
        row_result_matches(r, s, excluded),
    ensures
        r.identical <==> spec_nothing_differs(r),
        s.records_a.len() != s.records_b.len() ==> !r.identical,
{
}

/// The number of entries of a kind in a concatenation of pieces, each of which
/// holds one such entry or none.
proof fn lemma_count_kind_pieces(f: spec_fn(int) -> Seq<DifferenceSpec>, p: spec_fn(int) -> bool, n: int, kind: DifferenceType)
    requires
        forall|t: int| 0 <= t < n ==> spec_count_kind(#[trigger] f(t), kind) == (if p(t) { 1nat } else { 0nat }),
    ensures
        spec_count_kind(concat_upto(f, n), kind) == count_upto(p, n),
    decreases n,
{
    if n > 0 {
        lemma_count_kind_pieces(f, p, n - 1, kind);
        lemma_count_kind_concat(concat_upto(f, n - 1), f(n - 1), kind);
        assert(spec_count_kind(f(n - 1), kind) == (if p(n - 1) { 1nat } else { 0nat }));
    }
}

/// The changes of a list of pairs are all VALUE_CHANGED.
proof fn lemma_pair_changes_kind(s: KeyCompareSpec, pairs: Seq<(int, int)>, kind: DifferenceType)
    requires
        kind != DifferenceType::ValueChanged,
    ensures
        spec_count_kind(pair_changes(s, pairs), kind) == 0,
    decreases pairs.len(),
{
    if pairs.len() > 0 {
        lemma_pair_changes_kind(s, pairs.drop_last(), kind);
        let (i, j) = pairs.last();
        lemma_cell_changes_kind(s.headers_a, s.records_a[i], s.headers_b, s.records_b[j], s.compared, s.settings,
            s.key_values_a(i), s.compared.len() as int);
        lemma_count_kind_none(s.changes(i, j), kind);
        lemma_count_kind_concat(pair_changes(s, pairs.drop_last()), s.changes(i, j), kind);
    }
}

/// A piece of at most one entry counts that entry when it is of the kind.
proof fn lemma_count_kind_single(piece: Seq<DifferenceSpec>, kind: DifferenceType)
    requires
        piece.len() <= 1,
    ensures
        spec_count_kind(piece, kind) == (if piece.len() == 1 && piece[0].difference_type == kind { 1nat } else { 0nat }),
{
    if piece.len() == 1 {
        assert(piece.drop_last() =~= Seq::<DifferenceSpec>::empty());
        assert(spec_count_kind(piece.drop_last(), kind) == 0);
        assert(piece.last() == piece[0]);
    }
}

/// The B_ONLY entry of record `j` of file B in a key-based comparison.
pub open spec fn spec_key_b_only_entry(s: KeyCompareSpec, j: int) -> DifferenceSpec {
    DifferenceSpec {
        key_values: spec_key_values(s.key_columns, s.headers_b, s.records_b[j].1),
        row_a: None,
        row_b: Some(s.records_b[j].0),
        column_name: None,
        value_a: None,
        value_b: Some(crate::text::spec_join(s.records_b[j].1, "\t"@)),
        difference_type: DifferenceType::BOnly,
    }
}

/// The A_ONLY entry of record `i` of file A in a key-based comparison.
pub open spec fn spec_key_a_only_entry(s: KeyCompareSpec, i: int) -> DifferenceSpec {
    DifferenceSpec {
        key_values: spec_key_values(s.key_columns, s.headers_a, s.records_a[i].1),
        row_a: Some(s.records_a[i].0),
        row_b: None,
        column_name: None,
        value_a: Some(crate::text::spec_join(s.records_a[i].1, "\t"@)),
        value_b: None,
        difference_type: DifferenceType::AOnly,
    }
}

/// Law: in a key-based result, every record whose usable key is unique in its
/// file and absent from the other is listed: a record of file B has its B_ONLY
/// entry (its key values, its record number as `row_b`, its fields joined by
/// tabs as `value_b`), a record of file A its A_ONLY entry; and the differences
/// hold exactly as many B_ONLY entries as `b_only_records` and as many A_ONLY
/// entries as `a_only_records`.
pub proof fn law_key_one_file_records_are_listed(r: CompareResultSpec, s: KeyCompareSpec, excluded: Seq<Seq<char>>, j: int, i: int)
    requires
        key_result_matches(r, s, excluded),
    ensures
        0 <= j < s.records_b.len() && s.b_only(j) ==> r.differences.contains(spec_key_b_only_entry(s, j)),
        0 <= i < s.records_a.len() && s.a_only(i) ==> r.differences.contains(spec_key_a_only_entry(s, i)),
        spec_count_kind(r.differences, DifferenceType::BOnly) == r.b_only_records,
        spec_count_kind(r.differences, DifferenceType::AOnly) == r.a_only_records,
{
    let na = s.records_a.len() as int;
    let nb = s.records_b.len() as int;
    let p1 = concat_upto(s.a_issue_fn(), na);
    let p2 = spec_column_differences(s.headers_a, s.headers_b, excluded);
    let p3 = concat_upto(s.b_piece_fn(), nb);
    let p4 = concat_upto(s.dup_changes_fn(), na);
    let p5 = concat_upto(s.a_only_fn(), na);
    assert(r.differences == p1 + p2 + p3 + p4 + p5);
    // Where the entries stand.
    if 0 <= j < nb && s.b_only(j) {
        assert(s.b_piece_fn()(j) == s.b_piece(j));
        assert(!s.b_matched(j));
        assert(s.b_piece(j)[0] == spec_key_b_only_entry(s, j));
        lemma_concat_contains(s.b_piece_fn(), nb, j, 0);
        let x = choose|x: int| 0 <= x < p3.len() && p3[x] == spec_key_b_only_entry(s, j);
        assert(r.differences[p1.len() + p2.len() + x] == p3[x]);
    }
    if 0 <= i < na && s.a_only(i) {
        assert(s.a_only_fn()(i) == s.a_only_piece(i));
        assert(s.a_only_piece(i)[0] == spec_key_a_only_entry(s, i));
        lemma_concat_contains(s.a_only_fn(), na, i, 0);
        let x = choose|x: int| 0 <= x < p5.len() && p5[x] == spec_key_a_only_entry(s, i);
        assert(r.differences[p1.len() + p2.len() + p3.len() + p4.len() + x] == p5[x]);
    }
    // How many there are, kind by kind and part by part.
    let never = |t: int| false;
    assert forall|t: int| 0 <= t < na implies spec_count_kind(#[trigger] s.a_issue_fn()(t), DifferenceType::BOnly) == (if never(t) { 1nat } else { 0nat })
        && spec_count_kind(s.a_issue_fn()(t), DifferenceType::AOnly) == (if never(t) { 1nat } else { 0nat }) by {
        assert(s.a_issue_fn()(t) == s.a_issue(t));
        lemma_count_kind_single(s.a_issue(t), DifferenceType::BOnly);
        lemma_count_kind_single(s.a_issue(t), DifferenceType::AOnly);
    }
    lemma_count_kind_pieces(s.a_issue_fn(), never, na, DifferenceType::BOnly);
    lemma_count_kind_pieces(s.a_issue_fn(), never, na, DifferenceType::AOnly);
    lemma_count_none(never, na);
    let ca = spec_column_differences_of(spec_only_in(s.headers_a, s.headers_b, excluded), DifferenceType::ColumnAOnly);
    let cb = spec_column_differences_of(spec_only_in(s.headers_b, s.headers_a, excluded), DifferenceType::ColumnBOnly);
    assert forall|x: int| 0 <= x < p2.len() implies #[trigger] p2[x].difference_type != DifferenceType::BOnly
        && p2[x].difference_type != DifferenceType::AOnly by {
        if x < ca.len() {
            assert(p2[x] == ca[x]);
        } else {
            assert(p2[x] == cb[x - ca.len()]);
        }
    }
    lemma_count_kind_none(p2, DifferenceType::BOnly);
    lemma_count_kind_none(p2, DifferenceType::AOnly);
    assert forall|t: int| 0 <= t < nb implies spec_count_kind(#[trigger] s.b_piece_fn()(t), DifferenceType::BOnly)
        == (if s.b_only_pred()(t) { 1nat } else { 0nat }) && spec_count_kind(s.b_piece_fn()(t), DifferenceType::AOnly)
        == (if never(t) { 1nat } else { 0nat }) by {
        let piece = s.b_piece(t);
        assert(s.b_piece_fn()(t) == piece);
        if s.status_b(t) != KeyStatus::Valid {
            lemma_count_kind_single(piece, DifferenceType::BOnly);
            lemma_count_kind_single(piece, DifferenceType::AOnly);
        } else if s.b_matched(t) {
            let a = s.occ_a(s.key_b(t))[0] as int;
            lemma_cell_changes_kind(s.headers_a, s.records_a[a], s.headers_b, s.records_b[t], s.compared, s.settings,
                s.key_values_a(a), s.compared.len() as int);
            lemma_count_kind_none(piece, DifferenceType::BOnly);
            lemma_count_kind_none(piece, DifferenceType::AOnly);
        } else {
            lemma_count_kind_single(piece, DifferenceType::BOnly);
            lemma_count_kind_single(piece, DifferenceType::AOnly);
        }
    }
    lemma_count_kind_pieces(s.b_piece_fn(), s.b_only_pred(), nb, DifferenceType::BOnly);
    lemma_count_kind_pieces(s.b_piece_fn(), never, nb, DifferenceType::AOnly);
    lemma_count_none(never, nb);
    assert forall|t: int| 0 <= t < na implies spec_count_kind(#[trigger] s.dup_changes_fn()(t), DifferenceType::BOnly)
        == (if never(t) { 1nat } else { 0nat }) && spec_count_kind(s.dup_changes_fn()(t), DifferenceType::AOnly)
        == (if never(t) { 1nat } else { 0nat }) by {
        assert(s.dup_changes_fn()(t) == pair_changes(s, s.dup_pairs(t)));
        lemma_pair_changes_kind(s, s.dup_pairs(t), DifferenceType::BOnly);
        lemma_pair_changes_kind(s, s.dup_pairs(t), DifferenceType::AOnly);
    }
    lemma_count_kind_pieces(s.dup_changes_fn(), never, na, DifferenceType::BOnly);
    lemma_count_kind_pieces(s.dup_changes_fn(), never, na, DifferenceType::AOnly);
    assert forall|t: int| 0 <= t < na implies spec_count_kind(#[trigger] s.a_only_fn()(t), DifferenceType::BOnly)
        == (if never(t) { 1nat } else { 0nat }) && spec_count_kind(s.a_only_fn()(t), DifferenceType::AOnly)
        == (if s.a_only_pred()(t) { 1nat } else { 0nat }) by {
        assert(s.a_only_fn()(t) == s.a_only_piece(t));
        lemma_count_kind_single(s.a_only_piece(t), DifferenceType::BOnly);
        lemma_count_kind_single(s.a_only_piece(t), DifferenceType::AOnly);
    }
    lemma_count_kind_pieces(s.a_only_fn(), never, na, DifferenceType::BOnly);
    lemma_count_kind_pieces(s.a_only_fn(), s.a_only_pred(), na, DifferenceType::AOnly);
    lemma_count_kind_concat(p1, p2, DifferenceType::BOnly);
    lemma_count_kind_concat(p1 + p2, p3, DifferenceType::BOnly);
    lemma_count_kind_concat(p1 + p2 + p3, p4, DifferenceType::BOnly);
    lemma_count_kind_concat(p1 + p2 + p3 + p4, p5, DifferenceType::BOnly);
    lemma_count_kind_concat(p1, p2, DifferenceType::AOnly);
    lemma_count_kind_concat(p1 + p2, p3, DifferenceType::AOnly);
    lemma_count_kind_concat(p1 + p2 + p3, p4, DifferenceType::AOnly);
    lemma_count_kind_concat(p1 + p2 + p3 + p4, p5, DifferenceType::AOnly);
}

} // verus!
