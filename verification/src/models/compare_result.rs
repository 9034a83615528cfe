use vstd::prelude::*;

use super::difference::{Difference, DifferenceSpec, DuplicateKeyInfo, DuplicateKeyInfoSpec};

verus! {

/// Everything that one comparison found.
#[derive(Debug, Clone)]
pub struct CompareResult {
    pub identical: bool,
    pub rows_a: u64,
    pub rows_b: u64,
    pub key_columns: Vec<String>,
    pub compared_columns: Vec<String>,
    pub excluded_columns: Vec<String>,
    pub column_a_only: Vec<String>,
    pub column_b_only: Vec<String>,
    pub matched_records: u64,
    pub same_records: u64,
    pub different_records: u64,
    pub a_only_records: u64,
    pub b_only_records: u64,
    pub duplicate_keys_a: u64,
    pub duplicate_keys_b: u64,
    pub empty_keys_a: u64,
    pub empty_keys_b: u64,
    pub incomplete_keys_a: u64,
    pub incomplete_keys_b: u64,
    pub different_cells: u64,
    pub differences: Vec<Difference>,
    pub duplicate_details_a: Vec<DuplicateKeyInfo>,
    pub duplicate_details_b: Vec<DuplicateKeyInfo>,
    pub file_a_name: String,
    pub file_b_name: String,
    pub file_a_encoding: String,
    pub file_b_encoding: String,
    pub file_a_delimiter: String,
    pub file_b_delimiter: String,
    pub compare_mode: String,
    pub compare_time: String,
    pub cancelled: bool,
}

/// Mathematical form of a [`CompareResult`].
pub struct CompareResultSpec {
    pub identical: bool,
    pub rows_a: u64,
    pub rows_b: u64,
    pub key_columns: Seq<Seq<char>>,
    pub compared_columns: Seq<Seq<char>>,
    pub excluded_columns: Seq<Seq<char>>,
    pub column_a_only: Seq<Seq<char>>,
    pub column_b_only: Seq<Seq<char>>,
    pub matched_records: u64,
    pub same_records: u64,
    pub different_records: u64,
    pub a_only_records: u64,
    pub b_only_records: u64,
    pub duplicate_keys_a: u64,
    pub duplicate_keys_b: u64,
    pub empty_keys_a: u64,
    pub empty_keys_b: u64,
    pub incomplete_keys_a: u64,
    pub incomplete_keys_b: u64,
    pub different_cells: u64,
    pub differences: Seq<DifferenceSpec>,
    pub duplicate_details_a: Seq<DuplicateKeyInfoSpec>,
    pub duplicate_details_b: Seq<DuplicateKeyInfoSpec>,
    pub file_a_name: Seq<char>,
    pub file_b_name: Seq<char>,
    pub file_a_encoding: Seq<char>,
    pub file_b_encoding: Seq<char>,
    pub file_a_delimiter: Seq<char>,
    pub file_b_delimiter: Seq<char>,
    pub compare_mode: Seq<char>,
    pub compare_time: Seq<char>,
    pub cancelled: bool,
}

impl DeepView for CompareResult {
    type V = CompareResultSpec;

    open spec fn deep_view(&self) -> CompareResultSpec {
        CompareResultSpec {
            identical: self.identical,
            rows_a: self.rows_a,
            rows_b: self.rows_b,
            key_columns: self.key_columns.deep_view(),
            compared_columns: self.compared_columns.deep_view(),
            excluded_columns: self.excluded_columns.deep_view(),
            column_a_only: self.column_a_only.deep_view(),
            column_b_only: self.column_b_only.deep_view(),
            matched_records: self.matched_records,
            same_records: self.same_records,
            different_records: self.different_records,
            a_only_records: self.a_only_records,
            b_only_records: self.b_only_records,
            duplicate_keys_a: self.duplicate_keys_a,
            duplicate_keys_b: self.duplicate_keys_b,
            empty_keys_a: self.empty_keys_a,
            empty_keys_b: self.empty_keys_b,
            incomplete_keys_a: self.incomplete_keys_a,
            incomplete_keys_b: self.incomplete_keys_b,
            different_cells: self.different_cells,
            differences: self.differences.deep_view(),
            duplicate_details_a: self.duplicate_details_a.deep_view(),
            duplicate_details_b: self.duplicate_details_b.deep_view(),
            file_a_name: self.file_a_name@,
            file_b_name: self.file_b_name@,
            file_a_encoding: self.file_a_encoding@,
            file_b_encoding: self.file_b_encoding@,
            file_a_delimiter: self.file_a_delimiter@,
            file_b_delimiter: self.file_b_delimiter@,
            compare_mode: self.compare_mode@,
            compare_time: self.compare_time@,
            cancelled: self.cancelled,
        }
    }
}

impl Default for CompareResult {
    /// An empty result: all counts zero, all lists and texts empty, nothing flagged.
    fn default() -> (r: CompareResult)
        ensures
            !r.identical,
            !r.cancelled,
            r.rows_a == 0 && r.rows_b == 0,
            r.key_columns@.len() == 0 && r.compared_columns@.len() == 0,
            r.excluded_columns@.len() == 0,
            r.column_a_only@.len() == 0 && r.column_b_only@.len() == 0,
            r.matched_records == 0 && r.same_records == 0 && r.different_records == 0,
            r.a_only_records == 0 && r.b_only_records == 0,
            r.duplicate_keys_a == 0 && r.duplicate_keys_b == 0,
            r.empty_keys_a == 0 && r.empty_keys_b == 0,
            r.incomplete_keys_a == 0 && r.incomplete_keys_b == 0,
            r.different_cells == 0,
            r.differences@.len() == 0,
            r.duplicate_details_a@.len() == 0 && r.duplicate_details_b@.len() == 0,
            r.file_a_name@.len() == 0 && r.file_b_name@.len() == 0,
            r.file_a_encoding@.len() == 0 && r.file_b_encoding@.len() == 0,
            r.file_a_delimiter@.len() == 0 && r.file_b_delimiter@.len() == 0,
            r.compare_mode@.len() == 0 && r.compare_time@.len() == 0,
    {
        CompareResult {
            identical: false,
            rows_a: 0,
            rows_b: 0,
            key_columns: Vec::new(),
            compared_columns: Vec::new(),
            excluded_columns: Vec::new(),
            column_a_only: Vec::new(),
            column_b_only: Vec::new(),
            matched_records: 0,
            same_records: 0,
            different_records: 0,
            a_only_records: 0,
            b_only_records: 0,
            duplicate_keys_a: 0,
            duplicate_keys_b: 0,
            empty_keys_a: 0,
            empty_keys_b: 0,
            incomplete_keys_a: 0,
            incomplete_keys_b: 0,
            different_cells: 0,
            differences: Vec::new(),
            duplicate_details_a: Vec::new(),
            duplicate_details_b: Vec::new(),
            file_a_name: String::new(),
            file_b_name: String::new(),
            file_a_encoding: String::new(),
            file_b_encoding: String::new(),
            file_a_delimiter: String::new(),
            file_b_delimiter: String::new(),
            compare_mode: String::new(),
            compare_time: String::new(),
            cancelled: false,
        }
    }
}

} // verus!
