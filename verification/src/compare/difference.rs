use vstd::hash_map::StringHashMap;
use vstd::prelude::*;

use crate::models::compare_options::ComparisonMode;
use crate::models::difference::{Difference, DifferenceSpec, DifferenceType, KeyValue, KeyValueSpec};
use super::duplicate_detector::copy_key_values;
use crate::text::{
    contains_string, lowercase_text, owned, spec_trim, std_to_lowercase, trim_text,
};

verus! {

/// Options that loosen how two cell values are compared.
#[derive(Debug, Clone, Copy)]
pub struct CompareSettings {
    pub trim_whitespace: bool,
    pub ignore_case: bool,
}

/// The form in which a cell value takes part in a comparison.
pub open spec fn spec_normalize(value: Seq<char>, settings: CompareSettings) -> Seq<char> {
    let trimmed = if settings.trim_whitespace {
        spec_trim(value)
    } else {
        value
    };
    if settings.ignore_case {
        std_to_lowercase(trimmed)
    } else {
        trimmed
    }
}

/// Two cell values count as equal when their normalized forms are equal.
pub open spec fn spec_values_equal(a: Seq<char>, b: Seq<char>, settings: CompareSettings) -> bool {
    spec_normalize(a, settings) == spec_normalize(b, settings)
}

pub fn normalize(value: &str, settings: CompareSettings) -> (s: String)
    ensures
        s@ == spec_normalize(value@, settings),
{
    let mut s = owned(value);
    if settings.trim_whitespace {
        s = trim_text(s.as_str());
    }
    if settings.ignore_case {
        s = lowercase_text(s.as_str());
    }
    s
}

/// Whether two cell values are equal under the settings.
pub fn values_equal(a: &str, b: &str, settings: CompareSettings) -> (r: bool)
    ensures
        r == spec_values_equal(a@, b@, settings),
{
    let na = normalize(a, settings);
    let nb = normalize(b, settings);
    na == nb
}

/// Whether a record's key can be used to pair it.
#[derive(Debug, Clone, Copy, PartialEq, Eq, Structural)]
pub enum KeyStatus {
    Valid,
    Empty,
    Incomplete,
}

/// A key with no values, or only empty ones, is empty; one with some empty
/// values is incomplete; any other key is valid.
pub open spec fn spec_key_status(values: Seq<Seq<char>>) -> KeyStatus {
    if forall|i: int| 0 <= i < values.len() ==> #[trigger] values[i].len() == 0 {
        KeyStatus::Empty
    } else if exists|i: int| 0 <= i < values.len() && #[trigger] values[i].len() == 0 {
        KeyStatus::Incomplete
    } else {
        KeyStatus::Valid
    }
}

pub fn classify_key(values: &Vec<String>) -> (status: KeyStatus)
    ensures
        status == spec_key_status(values.deep_view()),
{
    let ghost vs = values.deep_view();
    let mut empty_count: usize = 0;
    let mut first_empty: usize = 0;
    let mut first_filled: usize = 0;
    let mut i: usize = 0;
    while i < values.len()
        invariant
            i <= values.len(),
            vs == values.deep_view(),
            empty_count <= i,
            empty_count == 0 ==> forall|j: int| 0 <= j < i ==> #[trigger] vs[j].len() > 0,
            empty_count > 0 ==> first_empty < i && vs[first_empty as int].len() == 0,
            empty_count == i ==> forall|j: int| 0 <= j < i ==> #[trigger] vs[j].len() == 0,
            empty_count < i ==> first_filled < i && vs[first_filled as int].len() > 0,
        decreases values.len() - i,
    {
        if values[i].as_str().is_empty() {
            if empty_count == 0 {
                first_empty = i;
            }
            empty_count = empty_count + 1;
        } else {
            first_filled = i;
        }
        i = i + 1;
    }
    if empty_count == values.len() {
        KeyStatus::Empty
    } else if empty_count > 0 {
        proof {
            assert(vs[first_filled as int].len() > 0);
            assert(vs[first_empty as int].len() == 0);
        }
        KeyStatus::Incomplete
    } else {
        proof {
            assert(vs[first_filled as int].len() > 0);
        }
        KeyStatus::Valid
    }
}

/// Position of the last occurrence of `h` in `headers`, or -1.
pub open spec fn last_index_of(headers: Seq<Seq<char>>, h: Seq<char>) -> int
    decreases headers.len(),
{
    if headers.len() == 0 {
        -1
    } else if headers.last() == h {
        headers.len() - 1
    } else {
        last_index_of(headers.drop_last(), h)
    }
}

pub proof fn lemma_last_index_of(headers: Seq<Seq<char>>, h: Seq<char>)
    ensures
        headers.contains(h) <==> last_index_of(headers, h) >= 0,
        last_index_of(headers, h) < headers.len(),
        last_index_of(headers, h) >= 0 ==> headers[last_index_of(headers, h)] == h,
        last_index_of(headers, h) >= 0 ==> forall|j: int|
            last_index_of(headers, h) < j < headers.len() ==> headers[j] != h,
    decreases headers.len(),
{
    if headers.len() > 0 {
        lemma_last_index_of(headers.drop_last(), h);
        if headers.last() != h {
            if headers.contains(h) {
                let k = choose|k: int| 0 <= k < headers.len() && headers[k] == h;
                assert(headers.drop_last()[k] == h);
            }
            if headers.drop_last().contains(h) {
                let k = choose|k: int| 0 <= k < headers.len() - 1 && headers.drop_last()[k] == h;
                assert(headers[k] == h);
            }
            assert forall|j: int| last_index_of(headers, h) >= 0 && last_index_of(headers, h) < j < headers.len() implies headers[j] != h by {
                if j < headers.len() - 1 {
                    assert(headers.drop_last()[j] == headers[j]);
                }
            }
        } else {
            assert(headers[headers.len() - 1] == h);
        }
    }
}

/// Each header name mapped to its (last) position.
pub open spec fn spec_index_map(headers: Seq<Seq<char>>) -> Map<Seq<char>, usize> {
    Map::new(|h: Seq<char>| headers.contains(h), |h: Seq<char>| last_index_of(headers, h) as usize)
}

/// The value of `column` in `record` under `headers`, if the column exists and
/// the record is long enough to hold it.
pub open spec fn spec_lookup(headers: Seq<Seq<char>>, column: Seq<char>, record: Seq<Seq<char>>) -> Option<Seq<char>> {
    let i = last_index_of(headers, column);
    if 0 <= i < record.len() {
        Some(record[i])
    } else {
        None
    }
}

/// The value of `column` in `record`, with a missing value read as empty.
pub open spec fn spec_value_or_empty(headers: Seq<Seq<char>>, column: Seq<char>, record: Seq<Seq<char>>) -> Seq<char> {
    match spec_lookup(headers, column, record) {
        Some(v) => v,
        None => Seq::empty(),
    }
}

/// The columns of one file and where each of them stands.
pub struct ColumnLayout {
    pub headers: Vec<String>,
    pub index_of: StringHashMap<usize>,
}

impl ColumnLayout {
    /// The lookup table agrees with the header list.
    pub open spec fn wf(&self) -> bool {
        &&& self.index_of@ == spec_index_map(self.headers.deep_view())
        &&& self.headers.len() <= usize::MAX
    }

    pub fn new(headers: Vec<String>) -> (layout: Self)
        ensures
            layout.wf(),
            layout.headers.deep_view() == headers.deep_view(),
    {
        let ghost hs = headers.deep_view();
        let mut index_of: StringHashMap<usize> = StringHashMap::new();
        let mut i: usize = 0;
        while i < headers.len()
            invariant
                i <= headers.len(),
                hs == headers.deep_view(),
                index_of@ == spec_index_map(hs.take(i as int)),
            decreases headers.len() - i,
        {
            proof {
                let prev = hs.take(i as int);
                let next = hs.take(i + 1);
                assert(next.drop_last() =~= prev);
                assert(next.last() == hs[i as int]);
                assert forall|h: Seq<char>| #[trigger] next.contains(h) <==> (prev.contains(h) || h
                    == hs[i as int]) by {
                    if next.contains(h) {
                        let k = choose|k: int| 0 <= k < next.len() && next[k] == h;
                        if k < i {
                            assert(prev[k] == h);
                        }
                    }
                    if prev.contains(h) {
                        let k = choose|k: int| 0 <= k < prev.len() && prev[k] == h;
                        assert(next[k] == h);
                    }
                    if h == hs[i as int] {
                        assert(next[i as int] == h);
                    }
                }
                assert(spec_index_map(next) =~= spec_index_map(prev).insert(hs[i as int], i));
            }
            index_of.insert(headers[i].clone(), i);
            i = i + 1;
        }
        proof {
            assert(hs.take(headers.len() as int) =~= hs);
        }
        ColumnLayout { headers, index_of }
    }

    pub fn get<'a>(&self, column: &str, record: &'a Vec<String>) -> (r: Option<&'a String>)
        requires
            self.wf(),
        ensures
            r.deep_view() == spec_lookup(self.headers.deep_view(), column@, record.deep_view()),
    {
        proof {
            lemma_last_index_of(self.headers.deep_view(), column@);
        }
        match self.index_of.get(column) {
            Some(i) => {
                if *i < record.len() {
                    Some(&record[*i])
                } else {
                    None
                }
            },
            None => None,
        }
    }

    /// The value of `column` in `record`, or an empty string when there is none.
    pub fn value_or_empty(&self, column: &str, record: &Vec<String>) -> (r: String)
        requires
            self.wf(),
        ensures
            r@ == spec_value_or_empty(self.headers.deep_view(), column@, record.deep_view()),
    {
        match self.get(column, record) {
            Some(v) => v.clone(),
            None => String::new(),
        }
    }

    /// Whether `column` is one of the headers.
    pub fn has_column(&self, column: &str) -> (r: bool)
        requires
            self.wf(),
        ensures
            r == self.headers.deep_view().contains(column@),
    {
        self.index_of.contains_key(column)
    }

    /// The headers of this layout that the other layout has too, in this layout's order.
    pub fn common_with(&self, other: &ColumnLayout) -> (r: Vec<String>)
        requires
            self.wf(),
            other.wf(),
        ensures
            r.deep_view() == spec_present_in(self.headers.deep_view(), other.headers.deep_view()),
    {
        let ghost hs = self.headers.deep_view();
        let mut r: Vec<String> = Vec::new();
        let mut i: usize = 0;
        while i < self.headers.len()
            invariant
                self.wf(),
                other.wf(),
                hs == self.headers.deep_view(),
                i <= self.headers.len(),
                r.deep_view() == spec_present_in(hs.take(i as int), other.headers.deep_view()),
            decreases self.headers.len() - i,
        {
            proof {
                assert(hs.take(i + 1).drop_last() =~= hs.take(i as int));
            }
            if other.has_column(self.headers[i].as_str()) {
                r.push(self.headers[i].clone());
                proof {
                    assert(r.deep_view() =~= spec_present_in(hs.take(i as int), other.headers.deep_view()).push(hs[i as int]));
                }
            }
            i = i + 1;
        }
        proof {
            assert(hs.take(self.headers.len() as int) =~= hs);
        }
        r
    }
}

/// The names of `names` that also occur in `others`, in order.
pub open spec fn spec_present_in(names: Seq<Seq<char>>, others: Seq<Seq<char>>) -> Seq<Seq<char>>
    decreases names.len(),
{
    if names.len() == 0 {
        Seq::empty()
    } else {
        let rest = spec_present_in(names.drop_last(), others);
        if others.contains(names.last()) {
            rest.push(names.last())
        } else {
            rest
        }
    }
}

/// The names of `names` that occur neither in `others` nor in `excluded`, in order.
pub open spec fn spec_only_in(names: Seq<Seq<char>>, others: Seq<Seq<char>>, excluded: Seq<Seq<char>>) -> Seq<Seq<char>>
    decreases names.len(),
{
    if names.len() == 0 {
        Seq::empty()
    } else {
        let rest = spec_only_in(names.drop_last(), others, excluded);
        if !others.contains(names.last()) && !excluded.contains(names.last()) {
            rest.push(names.last())
        } else {
            rest
        }
    }
}

/// The names of `names` that do not occur in `excluded`, in order.
pub open spec fn spec_not_in(names: Seq<Seq<char>>, excluded: Seq<Seq<char>>) -> Seq<Seq<char>>
    decreases names.len(),
{
    if names.len() == 0 {
        Seq::empty()
    } else {
        let rest = spec_not_in(names.drop_last(), excluded);
        if !excluded.contains(names.last()) {
            rest.push(names.last())
        } else {
            rest
        }
    }
}

/// A column-level difference for one column name.
pub open spec fn spec_column_difference(name: Seq<char>, kind: DifferenceType) -> DifferenceSpec {
    DifferenceSpec {
        key_values: Seq::empty(),
        row_a: None,
        row_b: None,
        column_name: Some(name),
        value_a: None,
        value_b: None,
        difference_type: kind,
    }
}

/// Column-level differences for a list of column names.
pub open spec fn spec_column_differences_of(names: Seq<Seq<char>>, kind: DifferenceType) -> Seq<DifferenceSpec> {
    Seq::new(names.len(), |i: int| spec_column_difference(names[i], kind))
}

/// The columns that only one file has, not counting excluded ones: first those of
/// file A, then those of file B, each in its file's header order.
pub open spec fn spec_column_differences(a: Seq<Seq<char>>, b: Seq<Seq<char>>, excluded: Seq<Seq<char>>) -> Seq<DifferenceSpec> {
    spec_column_differences_of(spec_only_in(a, b, excluded), DifferenceType::ColumnAOnly)
        + spec_column_differences_of(spec_only_in(b, a, excluded), DifferenceType::ColumnBOnly)
}

/// The headers of `layout` that `other` lacks and that are not excluded.
pub fn columns_only_in(layout: &ColumnLayout, other: &ColumnLayout, excluded: &Vec<String>) -> (r: Vec<String>)
    requires
        layout.wf(),
        other.wf(),
    ensures
        r.deep_view() == spec_only_in(layout.headers.deep_view(), other.headers.deep_view(), excluded.deep_view()),
{
    let ghost hs = layout.headers.deep_view();
    let mut r: Vec<String> = Vec::new();
    let mut i: usize = 0;
    while i < layout.headers.len()
        invariant
            layout.wf(),
            other.wf(),
            hs == layout.headers.deep_view(),
            i <= layout.headers.len(),
            r.deep_view() == spec_only_in(hs.take(i as int), other.headers.deep_view(), excluded.deep_view()),
        decreases layout.headers.len() - i,
    {
        proof {
            assert(hs.take(i + 1).drop_last() =~= hs.take(i as int));
        }
        let h = layout.headers[i].as_str();
        if !other.has_column(h) && !contains_string(excluded, h) {
            r.push(layout.headers[i].clone());
            proof {
                assert(r.deep_view() =~= spec_only_in(hs.take(i as int), other.headers.deep_view(), excluded.deep_view()).push(hs[i as int]));
            }
        }
        i = i + 1;
    }
    proof {
        assert(hs.take(layout.headers.len() as int) =~= hs);
    }
    r
}

/// The names of `names` that are not excluded, in order.
pub fn names_not_in(names: &Vec<String>, excluded: &Vec<String>) -> (r: Vec<String>)
    ensures
        r.deep_view() == spec_not_in(names.deep_view(), excluded.deep_view()),
{
    let ghost hs = names.deep_view();
    let mut r: Vec<String> = Vec::new();
    let mut i: usize = 0;
    while i < names.len()
        invariant
            hs == names.deep_view(),
            i <= names.len(),
            r.deep_view() == spec_not_in(hs.take(i as int), excluded.deep_view()),
        decreases names.len() - i,
    {
        proof {
            assert(hs.take(i + 1).drop_last() =~= hs.take(i as int));
        }
        if !contains_string(excluded, names[i].as_str()) {
            r.push(names[i].clone());
            proof {
                assert(r.deep_view() =~= spec_not_in(hs.take(i as int), excluded.deep_view()).push(hs[i as int]));
            }
        }
        i = i + 1;
    }
    proof {
        assert(hs.take(names.len() as int) =~= hs);
    }
    r
}

fn push_column_differences(out: &mut Vec<Difference>, names: Vec<String>, kind: DifferenceType)
    ensures
        final(out).deep_view() == old(out).deep_view() + spec_column_differences_of(names.deep_view(), kind),
{
    let ghost start = out.deep_view();
    let ghost ns = names.deep_view();
    let mut i: usize = 0;
    while i < names.len()
        invariant
            i <= names.len(),
            ns == names.deep_view(),
            out.deep_view() =~= start + spec_column_differences_of(ns.take(i as int), kind),
        decreases names.len() - i,
    {
        let d = Difference {
            key_values: Vec::new(),
            row_a: None,
            row_b: None,
            column_name: Some(names[i].clone()),
            value_a: None,
            value_b: None,
            difference_type: kind,
        };
        proof {
            assert(d.key_values.deep_view() =~= Seq::<KeyValueSpec>::empty());
            assert(d.deep_view() == spec_column_difference(ns[i as int], kind));
        }
        let ghost prev = out.deep_view();
        out.push(d);
        proof {
            assert(out.deep_view() =~= prev.push(d.deep_view()));
        }
        i = i + 1;
        proof {
            assert(out.deep_view() =~= start + spec_column_differences_of(ns.take(i as int), kind));
        }
    }
    proof {
        assert(ns.take(names.len() as int) =~= ns);
    }
}

/// Header-level differences (COLUMN_A_ONLY / COLUMN_B_ONLY).
pub fn column_differences(a: &ColumnLayout, b: &ColumnLayout, excluded: &Vec<String>) -> (out: Vec<Difference>)
    requires
        a.wf(),
        b.wf(),
    ensures
        out.deep_view() == spec_column_differences(a.headers.deep_view(), b.headers.deep_view(), excluded.deep_view()),
{
    let a_only = columns_only_in(a, b, excluded);
    let b_only = columns_only_in(b, a, excluded);
    let mut out: Vec<Difference> = Vec::new();
    push_column_differences(&mut out, a_only, DifferenceType::ColumnAOnly);
    push_column_differences(&mut out, b_only, DifferenceType::ColumnBOnly);
    proof {
        assert(out.deep_view() =~= spec_column_differences(a.headers.deep_view(), b.headers.deep_view(), excluded.deep_view()));
    }
    out
}

/// The key columns paired with their values in `record`, a missing value read as empty.
pub open spec fn spec_key_values(key_columns: Seq<Seq<char>>, headers: Seq<Seq<char>>, record: Seq<Seq<char>>) -> Seq<KeyValueSpec> {
    Seq::new(
        key_columns.len(),
        |i: int| KeyValueSpec { column: key_columns[i], value: spec_value_or_empty(headers, key_columns[i], record) },
    )
}

pub fn build_key_values(key_columns: &Vec<String>, layout: &ColumnLayout, record: &Vec<String>) -> (out: Vec<KeyValue>)
    requires
        layout.wf(),
    ensures
        out.deep_view() == spec_key_values(key_columns.deep_view(), layout.headers.deep_view(), record.deep_view()),
{
    let ghost target = spec_key_values(key_columns.deep_view(), layout.headers.deep_view(), record.deep_view());
    let mut out: Vec<KeyValue> = Vec::new();
    let mut i: usize = 0;
    while i < key_columns.len()
        invariant
            layout.wf(),
            i <= key_columns.len(),
            target == spec_key_values(key_columns.deep_view(), layout.headers.deep_view(), record.deep_view()),
            out.deep_view() =~= target.take(i as int),
        decreases key_columns.len() - i,
    {
        let col = &key_columns[i];
        let value = layout.value_or_empty(col.as_str(), record);
        let kv = KeyValue { column: col.clone(), value };
        proof {
            assert(kv.deep_view() == target[i as int]);
        }
        let ghost prev = out.deep_view();
        out.push(kv);
        proof {
            assert(out.deep_view() =~= prev.push(kv.deep_view()));
        }
        i = i + 1;
        proof {
            assert(out.deep_view() =~= target.take(i as int));
        }
    }
    proof {
        assert(target.take(key_columns.len() as int) =~= target);
    }
    out
}

/// The name under which a comparison mode is reported.
pub open spec fn spec_format_mode(mode: ComparisonMode) -> Seq<char> {
    match mode {
        ComparisonMode::KeyBased => "KEY_BASED"@,
        ComparisonMode::RowByRow => "ROW_BY_ROW"@,
    }
}

pub fn format_mode(mode: ComparisonMode) -> (s: &'static str)
    ensures
        s@ == spec_format_mode(mode),
{
    match mode {
        ComparisonMode::KeyBased => "KEY_BASED",
        ComparisonMode::RowByRow => "ROW_BY_ROW",
    }
}


/// One data record: its logical record number and its fields.
pub type RecordSpec = (u64, Seq<Seq<char>>);

/// The VALUE_CHANGED difference for column `column` between records `a` and `b`.
pub open spec fn spec_value_changed(
    key_values: Seq<KeyValueSpec>,
    a: RecordSpec,
    b: RecordSpec,
    column: Seq<char>,
    value_a: Seq<char>,
    value_b: Seq<char>,
) -> DifferenceSpec {
    DifferenceSpec {
        key_values,
        row_a: Some(a.0),
        row_b: Some(b.0),
        column_name: Some(column),
        value_a: Some(value_a),
        value_b: Some(value_b),
        difference_type: DifferenceType::ValueChanged,
    }
}

/// The cells of the first `n` compared columns in which records `a` (under
/// `headers_a`) and `b` (under `headers_b`) differ, as VALUE_CHANGED differences.
pub open spec fn spec_cell_changes(
    headers_a: Seq<Seq<char>>,
    a: RecordSpec,
    headers_b: Seq<Seq<char>>,
    b: RecordSpec,
    compared: Seq<Seq<char>>,
    settings: CompareSettings,
    key_values: Seq<KeyValueSpec>,
    n: int,
) -> Seq<DifferenceSpec>
    decreases n,
{
    if n <= 0 {
        Seq::empty()
    } else {
        let rest = spec_cell_changes(headers_a, a, headers_b, b, compared, settings, key_values, n - 1);
        let column = compared[n - 1];
        let va = spec_value_or_empty(headers_a, column, a.1);
        let vb = spec_value_or_empty(headers_b, column, b.1);
        if spec_values_equal(va, vb, settings) {
            rest
        } else {
            rest.push(spec_value_changed(key_values, a, b, column, va, vb))
        }
    }
}

/// The cells of all compared columns in which the two records differ.
pub open spec fn spec_record_changes(
    headers_a: Seq<Seq<char>>,
    a: RecordSpec,
    headers_b: Seq<Seq<char>>,
    b: RecordSpec,
    compared: Seq<Seq<char>>,
    settings: CompareSettings,
    key_values: Seq<KeyValueSpec>,
) -> Seq<DifferenceSpec> {
    spec_cell_changes(headers_a, a, headers_b, b, compared, settings, key_values, compared.len() as int)
}

/// Compares two records column by column over `compared` and appends a
/// VALUE_CHANGED difference for every cell that differs. Returns how many.
pub fn push_record_changes(
    out: &mut Vec<Difference>,
    layout_a: &ColumnLayout,
    a: &(u64, Vec<String>),
    layout_b: &ColumnLayout,
    b: &(u64, Vec<String>),
    compared: &Vec<String>,
    settings: CompareSettings,
    key_values: &Vec<KeyValue>,
) -> (n: usize)
    requires
        layout_a.wf(),
        layout_b.wf(),
    ensures
        final(out).deep_view() == old(out).deep_view() + spec_record_changes(
            layout_a.headers.deep_view(),
            a.deep_view(),
            layout_b.headers.deep_view(),
            b.deep_view(),
            compared.deep_view(),
            settings,
            key_values.deep_view(),
        ),
        n == spec_record_changes(
            layout_a.headers.deep_view(),
            a.deep_view(),
            layout_b.headers.deep_view(),
            b.deep_view(),
            compared.deep_view(),
            settings,
            key_values.deep_view(),
        ).len(),
{
    let ghost ha = layout_a.headers.deep_view();
    let ghost hb = layout_b.headers.deep_view();
    let ghost cs = compared.deep_view();
    let ghost kv = key_values.deep_view();
    let ghost start = out.deep_view();
    let mut n: usize = 0;
    let mut i: usize = 0;
    while i < compared.len()
        invariant
            layout_a.wf(),
            layout_b.wf(),
            ha == layout_a.headers.deep_view(),
            hb == layout_b.headers.deep_view(),
            cs == compared.deep_view(),
            kv == key_values.deep_view(),
            i <= compared.len(),
            out.deep_view() == start + spec_cell_changes(ha, a.deep_view(), hb, b.deep_view(), cs, settings, kv, i as int),
            n == spec_cell_changes(ha, a.deep_view(), hb, b.deep_view(), cs, settings, kv, i as int).len(),
            n <= i,
        decreases compared.len() - i,
    {
        let column = &compared[i];
        let va = layout_a.value_or_empty(column.as_str(), &a.1);
        let vb = layout_b.value_or_empty(column.as_str(), &b.1);
        if !values_equal(va.as_str(), vb.as_str(), settings) {
            let d = Difference {
                key_values: copy_key_values(key_values),
                row_a: Some(a.0),
                row_b: Some(b.0),
                column_name: Some(column.clone()),
                value_a: Some(va),
                value_b: Some(vb),
                difference_type: DifferenceType::ValueChanged,
            };
            let ghost prev = out.deep_view();
            out.push(d);
            proof {
                assert(out.deep_view() =~= prev.push(d.deep_view()));
            }
            n = n + 1;
        }
        i = i + 1;
        proof {
            assert(out.deep_view() =~= start + spec_cell_changes(ha, a.deep_view(), hb, b.deep_view(), cs, settings, kv, i as int));
        }
    }
    n
}

} // verus!
