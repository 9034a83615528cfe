use vstd::prelude::*;

verus! {

/// One key column together with the value it has in a record.
#[derive(Debug, Clone)]
pub struct KeyValue {
    pub column: String,
    pub value: String,
}

/// Mathematical form of a [`KeyValue`].
pub struct KeyValueSpec {
    pub column: Seq<char>,
    pub value: Seq<char>,
}

impl DeepView for KeyValue {
    type V = KeyValueSpec;

    open spec fn deep_view(&self) -> KeyValueSpec {
        KeyValueSpec { column: self.column@, value: self.value@ }
    }
}

/// The kinds of difference that a comparison reports.
#[derive(Debug, Clone, Copy, PartialEq, Eq, Structural)]
pub enum DifferenceType {
    ValueChanged,
    AOnly,
    BOnly,
    ColumnAOnly,
    ColumnBOnly,
    DuplicateKeyA,
    DuplicateKeyB,
    EmptyKeyA,
    EmptyKeyB,
    IncompleteKeyA,
    IncompleteKeyB,
}

impl DifferenceType {
    /// The upper-case name under which the kind is shown and exported.
    pub open spec fn spec_label(self) -> Seq<char> {
        match self {
            DifferenceType::ValueChanged => "VALUE_CHANGED"@,
            DifferenceType::AOnly => "A_ONLY"@,
            DifferenceType::BOnly => "B_ONLY"@,
            DifferenceType::ColumnAOnly => "COLUMN_A_ONLY"@,
            DifferenceType::ColumnBOnly => "COLUMN_B_ONLY"@,
            DifferenceType::DuplicateKeyA => "DUPLICATE_KEY_A"@,
            DifferenceType::DuplicateKeyB => "DUPLICATE_KEY_B"@,
            DifferenceType::EmptyKeyA => "EMPTY_KEY_A"@,
            DifferenceType::EmptyKeyB => "EMPTY_KEY_B"@,
            DifferenceType::IncompleteKeyA => "INCOMPLETE_KEY_A"@,
            DifferenceType::IncompleteKeyB => "INCOMPLETE_KEY_B"@,
        }
    }

    pub fn label(&self) -> (s: &'static str)
        ensures
            s@ == self.spec_label(),
    {
        match self {
            DifferenceType::ValueChanged => "VALUE_CHANGED",
            DifferenceType::AOnly => "A_ONLY",
            DifferenceType::BOnly => "B_ONLY",
            DifferenceType::ColumnAOnly => "COLUMN_A_ONLY",
            DifferenceType::ColumnBOnly => "COLUMN_B_ONLY",
            DifferenceType::DuplicateKeyA => "DUPLICATE_KEY_A",
            DifferenceType::DuplicateKeyB => "DUPLICATE_KEY_B",
            DifferenceType::EmptyKeyA => "EMPTY_KEY_A",
            DifferenceType::EmptyKeyB => "EMPTY_KEY_B",
            DifferenceType::IncompleteKeyA => "INCOMPLETE_KEY_A",
            DifferenceType::IncompleteKeyB => "INCOMPLETE_KEY_B",
        }
    }
}

/// One reported difference between the two files.
#[derive(Debug, Clone)]
pub struct Difference {
    pub key_values: Vec<KeyValue>,
    pub row_a: Option<u64>,
    pub row_b: Option<u64>,
    pub column_name: Option<String>,
    pub value_a: Option<String>,
    pub value_b: Option<String>,
    pub difference_type: DifferenceType,
}

/// Mathematical form of a [`Difference`].
pub struct DifferenceSpec {
    pub key_values: Seq<KeyValueSpec>,
    pub row_a: Option<u64>,
    pub row_b: Option<u64>,
    pub column_name: Option<Seq<char>>,
    pub value_a: Option<Seq<char>>,
    pub value_b: Option<Seq<char>>,
    pub difference_type: DifferenceType,
}

impl DeepView for Difference {
    type V = DifferenceSpec;

    open spec fn deep_view(&self) -> DifferenceSpec {
        DifferenceSpec {
            key_values: self.key_values.deep_view(),
            row_a: self.row_a,
            row_b: self.row_b,
            column_name: self.column_name.deep_view(),
            value_a: self.value_a.deep_view(),
            value_b: self.value_b.deep_view(),
            difference_type: self.difference_type,
        }
    }
}

/// A key that occurs more than once in one file.
#[derive(Debug, Clone)]
pub struct DuplicateKeyInfo {
    pub source: String,
    pub key_values: Vec<KeyValue>,
    pub count: u64,
    pub rows: Vec<u64>,
}

/// Mathematical form of a [`DuplicateKeyInfo`].
pub struct DuplicateKeyInfoSpec {
    pub source: Seq<char>,
    pub key_values: Seq<KeyValueSpec>,
    pub count: u64,
    pub rows: Seq<u64>,
}

impl DeepView for DuplicateKeyInfo {
    type V = DuplicateKeyInfoSpec;

    open spec fn deep_view(&self) -> DuplicateKeyInfoSpec {
        DuplicateKeyInfoSpec {
            source: self.source@,
            key_values: self.key_values.deep_view(),
            count: self.count,
            rows: self.rows@,
        }
    }
}

} // verus!
