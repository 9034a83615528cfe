use vstd::prelude::*;
use vstd::string::StringExecFns;

use crate::error::app_error::{AppError, AppErrorSpec};
use crate::models::compare_options::CompareOptions;
use crate::models::composite_key::CompositeKey;
use crate::text::{contains_string, owned};

use super::difference::{
    classify_key, spec_key_status, spec_present_in, spec_value_or_empty, ColumnLayout,
    CompareSettings, KeyStatus,
};

verus! {

/// The values of `columns` in `record`, a missing value read as empty.
pub open spec fn spec_key_of(columns: Seq<Seq<char>>, headers: Seq<Seq<char>>, record: Seq<Seq<char>>) -> Seq<Seq<char>> {
    Seq::new(columns.len(), |i: int| spec_value_or_empty(headers, columns[i], record))
}

/// The first of `names` that `headers` lacks, if any.
pub open spec fn spec_first_missing(names: Seq<Seq<char>>, headers: Seq<Seq<char>>) -> Option<Seq<char>>
    decreases names.len(),
{
    if names.len() == 0 {
        None
    } else if !headers.contains(names[0]) {
        Some(names[0])
    } else {
        spec_first_missing(names.drop_first(), headers)
    }
}

/// The first of `names` that `excluded` holds, if any.
pub open spec fn spec_first_excluded(names: Seq<Seq<char>>, excluded: Seq<Seq<char>>) -> Option<Seq<char>>
    decreases names.len(),
{
    if names.len() == 0 {
        None
    } else if excluded.contains(names[0]) {
        Some(names[0])
    } else {
        spec_first_excluded(names.drop_first(), excluded)
    }
}

/// The message for a key column that is also excluded from comparison.
pub open spec fn spec_excluded_key_message(column: Seq<char>) -> Seq<char> {
    "Key 欄位不得同時設為排除比較欄位："@ + column
}

/// Why the requested key columns cannot be used with the two header lists, if
/// they cannot: a key column missing from file A, else one missing from file B,
/// else a key column that is also excluded.
pub open spec fn spec_validate_options(
    requested: Seq<Seq<char>>,
    headers_a: Seq<Seq<char>>,
    headers_b: Seq<Seq<char>>,
    excluded: Seq<Seq<char>>,
) -> Option<AppErrorSpec> {
    match spec_first_missing(requested, headers_a) {
        Some(c) => Some(AppErrorSpec::MissingKeyColumn(c)),
        None => match spec_first_missing(requested, headers_b) {
            Some(c) => Some(AppErrorSpec::MissingKeyColumn(c)),
            None => match spec_first_excluded(requested, excluded) {
                Some(c) => Some(AppErrorSpec::Other(spec_excluded_key_message(c))),
                None => None,
            },
        },
    }
}

/// Extracts composite keys from records. The key columns follow the order of
/// the layout the builder was made with (file A's header order).
pub struct KeyBuilder {
    requested: Vec<String>,
    columns: Vec<String>,
}

impl KeyBuilder {
    /// The key columns as the user asked for them.
    pub closed spec fn requested_view(&self) -> Seq<Seq<char>> {
        self.requested.deep_view()
    }

    /// The key columns used to build keys.
    pub closed spec fn columns_view(&self) -> Seq<Seq<char>> {
        self.columns.deep_view()
    }

    pub fn new(key_columns: Vec<String>, layout: &ColumnLayout) -> (b: Self)
        requires
            layout.wf(),
        ensures
            b.requested_view() == key_columns.deep_view(),
            b.columns_view() == spec_present_in(layout.headers.deep_view(), key_columns.deep_view()),
    {
        let ghost hs = layout.headers.deep_view();
        let mut columns: Vec<String> = Vec::new();
        let mut i: usize = 0;
        while i < layout.headers.len()
            invariant
                layout.wf(),
                hs == layout.headers.deep_view(),
                i <= layout.headers.len(),
                columns.deep_view() == spec_present_in(hs.take(i as int), key_columns.deep_view()),
            decreases layout.headers.len() - i,
        {
            proof {
                assert(hs.take(i + 1).drop_last() =~= hs.take(i as int));
            }
            if contains_string(&key_columns, layout.headers[i].as_str()) {
                columns.push(layout.headers[i].clone());
                proof {
                    assert(columns.deep_view() =~= spec_present_in(hs.take(i as int), key_columns.deep_view()).push(hs[i as int]));
                }
            }
            i = i + 1;
        }
        proof {
            assert(hs.take(layout.headers.len() as int) =~= hs);
        }
        KeyBuilder { requested: key_columns, columns }
    }

    pub fn columns(&self) -> (c: &Vec<String>)
        ensures
            c.deep_view() == self.columns_view(),
    {
        &self.columns
    }

    pub fn requested(&self) -> (c: &Vec<String>)
        ensures
            c.deep_view() == self.requested_view(),
    {
        &self.requested
    }

    /// Fails with the first requested key column that `layout` lacks.
    pub fn validate_present(&self, layout: &ColumnLayout) -> (r: Result<(), AppError>)
        requires
            layout.wf(),
        ensures
            match spec_first_missing(self.requested_view(), layout.headers.deep_view()) {
                Some(c) => r matches Err(e) && e.deep_view() == AppErrorSpec::MissingKeyColumn(c),
                None => r is Ok,
            },
    {
        first_missing(&self.requested, layout)
    }

    pub fn build(&self, record: &Vec<String>, layout: &ColumnLayout) -> (r: (CompositeKey, KeyStatus))
        requires
            layout.wf(),
        ensures
            r.0@ == spec_key_of(self.columns_view(), layout.headers.deep_view(), record.deep_view()),
            r.1 == spec_key_status(r.0@),
    {
        let ghost target = spec_key_of(self.columns_view(), layout.headers.deep_view(), record.deep_view());
        let mut values: Vec<String> = Vec::new();
        let mut i: usize = 0;
        while i < self.columns.len()
            invariant
                layout.wf(),
                i <= self.columns.len(),
                target == spec_key_of(self.columns_view(), layout.headers.deep_view(), record.deep_view()),
                values.deep_view() =~= target.take(i as int),
            decreases self.columns.len() - i,
        {
            let v = layout.value_or_empty(self.columns[i].as_str(), record);
            let ghost prev = values.deep_view();
            values.push(v);
            proof {
                assert(values.deep_view() =~= prev.push(v@));
            }
            i = i + 1;
            proof {
                assert(values.deep_view() =~= target.take(i as int));
            }
        }
        proof {
            assert(target.take(self.columns.len() as int) =~= target);
        }
        let status = classify_key(&values);
        (CompositeKey(values), status)
    }
}

/// Fails with the first of `names` that `layout` lacks.
fn first_missing(names: &Vec<String>, layout: &ColumnLayout) -> (r: Result<(), AppError>)
    requires
        layout.wf(),
    ensures
        match spec_first_missing(names.deep_view(), layout.headers.deep_view()) {
            Some(c) => r matches Err(e) && e.deep_view() == AppErrorSpec::MissingKeyColumn(c),
            None => r is Ok,
        },
{
    let ghost ns = names.deep_view();
    let ghost hs = layout.headers.deep_view();
    proof {
        assert(ns.skip(0) =~= ns);
    }
    let mut i: usize = 0;
    while i < names.len()
        invariant
            layout.wf(),
            ns == names.deep_view(),
            hs == layout.headers.deep_view(),
            i <= names.len(),
            spec_first_missing(ns, hs) == spec_first_missing(ns.skip(i as int), hs),
        decreases names.len() - i,
    {
        proof {
            assert(ns.skip(i as int).drop_first() =~= ns.skip(i + 1));
            assert(ns.skip(i as int)[0] == ns[i as int]);
        }
        if !layout.has_column(names[i].as_str()) {
            return Err(AppError::MissingKeyColumn(names[i].clone()));
        }
        i = i + 1;
    }
    proof {
        assert(ns.skip(names.len() as int).len() == 0);
    }
    Ok(())
}

/// The first of `names` that `excluded` holds, if any.
fn first_excluded(names: &Vec<String>, excluded: &Vec<String>) -> (r: Option<usize>)
    ensures
        match spec_first_excluded(names.deep_view(), excluded.deep_view()) {
            Some(c) => r matches Some(i) && i < names.len() && names.deep_view()[i as int] == c,
            None => r is None,
        },
{
    let ghost ns = names.deep_view();
    proof {
        assert(ns.skip(0) =~= ns);
    }
    let mut i: usize = 0;
    while i < names.len()
        invariant
            ns == names.deep_view(),
            i <= names.len(),
            spec_first_excluded(ns, excluded.deep_view()) == spec_first_excluded(ns.skip(i as int), excluded.deep_view()),
        decreases names.len() - i,
    {
        proof {
            assert(ns.skip(i as int).drop_first() =~= ns.skip(i + 1));
            assert(ns.skip(i as int)[0] == ns[i as int]);
        }
        if contains_string(excluded, names[i].as_str()) {
            return Some(i);
        }
        i = i + 1;
    }
    proof {
        assert(ns.skip(names.len() as int).len() == 0);
    }
    None
}

/// Validate the compare options against the actual file layouts.
pub fn validate_options(
    opts: &CompareOptions,
    layout_a: &ColumnLayout,
    layout_b: &ColumnLayout,
    key_builder: &KeyBuilder,
) -> (r: Result<(), AppError>)
    requires
        layout_a.wf(),
        layout_b.wf(),
    ensures
        match spec_validate_options(key_builder.requested_view(), layout_a.headers.deep_view(), layout_b.headers.deep_view(), opts.excluded_columns.deep_view()) {
            Some(e) => r matches Err(x) && x.deep_view() == e,
            None => r is Ok,
        },
{
    key_builder.validate_present(layout_a)?;
    key_builder.validate_present(layout_b)?;
    match first_excluded(key_builder.requested(), &opts.excluded_columns) {
        Some(i) => {
            let mut message = owned("Key 欄位不得同時設為排除比較欄位：");
            message.append(key_builder.requested()[i].as_str());
            Err(AppError::Other(message))
        },
        None => Ok(()),
    }
}

pub fn settings_from(opts: &CompareOptions) -> (s: CompareSettings)
    ensures
        s.trim_whitespace == opts.trim_whitespace,
        s.ignore_case == opts.ignore_case,
{
    CompareSettings { trim_whitespace: opts.trim_whitespace, ignore_case: opts.ignore_case }
}

} // verus!
