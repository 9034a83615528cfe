use vstd::prelude::*;

use super::parse_options::ParseOptions;

verus! {

/// How records of the two files are paired.
#[derive(Debug, Clone, Copy, PartialEq, Eq, Structural)]
pub enum ComparisonMode {
    KeyBased,
    RowByRow,
}

/// Everything that one comparison is asked to do.
#[derive(Debug, Clone)]
pub struct CompareOptions {
    pub file_a_path: String,
    pub file_b_path: String,
    pub file_a_parse_options: ParseOptions,
    pub file_b_parse_options: ParseOptions,
    pub comparison_mode: ComparisonMode,
    pub key_columns: Vec<String>,
    pub excluded_columns: Vec<String>,
    pub trim_whitespace: bool,
    pub ignore_case: bool,
}

} // verus!
