use std::sync::atomic::AtomicBool;

use csv_compare::compare::key_comparator::compare_key_based;
use csv_compare::compare::row_comparator::compare_row_by_row;
use csv_compare::compare::util::is_identical;
use csv_compare::error::app_error::AppError;
use csv_compare::excel::exporter::export_excel;
use csv_compare::models::compare_options::{CompareOptions, ComparisonMode};
use csv_compare::models::compare_result::CompareResult;
use csv_compare::models::difference::DifferenceType;
use csv_compare::models::parse_options::{DelimiterOption, EncodingOption, ParseOptions};

/// A progress sink that ignores what it is told.
fn progress(_processed: u64, _total: Option<u64>, _stage: &str) {}

fn big5(content: &str) -> Vec<u8> {
    let (bytes, _, _) = encoding_rs::BIG5.encode(content);
    bytes.into_owned()
}

// encoding_rs has no UTF-16 encoder, so the bytes are produced by hand.
fn encode_utf16(s: &str, little_endian: bool) -> Vec<u8> {
    let mut out = Vec::new();
    for unit in s.encode_utf16() {
        if little_endian {
            out.extend_from_slice(&unit.to_le_bytes());
        } else {
            out.extend_from_slice(&unit.to_be_bytes());
        }
    }
    out
}

#[allow(clippy::too_many_arguments)]
fn opts(
    a_path: &str,
    b_path: &str,
    a_enc: EncodingOption,
    b_enc: EncodingOption,
    a_delim: DelimiterOption,
    b_delim: DelimiterOption,
    mode: ComparisonMode,
    keys: Vec<&str>,
    excluded: Vec<&str>,
) -> CompareOptions {
    CompareOptions {
        file_a_path: a_path.to_string(),
        file_b_path: b_path.to_string(),
        file_a_parse_options: ParseOptions { encoding: a_enc, delimiter: a_delim },
        file_b_parse_options: ParseOptions { encoding: b_enc, delimiter: b_delim },
        comparison_mode: mode,
        key_columns: keys.into_iter().map(|s| s.to_string()).collect(),
        excluded_columns: excluded.into_iter().map(|s| s.to_string()).collect(),
        trim_whitespace: false,
        ignore_case: false,
    }
}

fn utf8_key_opts(keys: Vec<&str>, excluded: Vec<&str>) -> CompareOptions {
    opts(
        "a.csv",
        "b.csv",
        EncodingOption::Utf8,
        EncodingOption::Utf8,
        DelimiterOption::Comma,
        DelimiterOption::Comma,
        ComparisonMode::KeyBased,
        keys,
        excluded,
    )
}

#[test]
fn test_integration_spec_case() {
    let a = big5(
        "\"客戶編號\",\"交易日期\",\"交易序號\",\"金額\",\"更新時間\"\n\
         \"001\",\"2026/09/18\",\"01\",\"1000\",\"08:00\"\n\
         \"001\",\"2026/09/18\",\"02\",\"2000\",\"08:00\"\n\
         \"002\",\"2026/09/18\",\"01\",\"3000\",\"08:00\"\n",
    );
    let b = "\"交易日期\"|\"交易序號\"|\"客戶編號\"|\"金額\"|\"更新時間\"\n\
         \"2026/09/18\"|\"01\"|\"002\"|\"3000\"|\"09:30\"\n\
         \"2026/09/18\"|\"01\"|\"001\"|\"1000\"|\"09:30\"\n\
         \"2026/09/18\"|\"02\"|\"001\"|\"2500\"|\"09:30\"\n";

    let cancel = AtomicBool::new(false);
    let options = opts(
        "spec_a.csv",
        "spec_b.txt",
        EncodingOption::Cp950,
        EncodingOption::Utf8,
        DelimiterOption::Comma,
        DelimiterOption::Pipe,
        ComparisonMode::KeyBased,
        vec!["客戶編號", "交易日期", "交易序號"],
        vec!["更新時間"],
    );

    let result = compare_key_based(&options, &a, b.as_bytes(), &cancel, &progress).unwrap();

    assert_eq!(result.rows_a, 3);
    assert_eq!(result.rows_b, 3);
    assert_eq!(result.matched_records, 3);
    assert_eq!(result.same_records, 2);
    assert_eq!(result.different_records, 1);
    assert_eq!(result.a_only_records, 0);
    assert_eq!(result.b_only_records, 0);
    assert_eq!(result.different_cells, 1);
    assert_eq!(result.duplicate_keys_a, 0);
    assert_eq!(result.duplicate_keys_b, 0);
    assert!(!result.identical);
    assert_eq!(result.file_a_encoding, "CP950");
    assert_eq!(result.file_b_delimiter, "Pipe (|)");

    let vc: Vec<_> = result
        .differences
        .iter()
        .filter(|d| d.difference_type == DifferenceType::ValueChanged)
        .collect();
    assert_eq!(vc.len(), 1);
    assert_eq!(vc[0].column_name.as_deref(), Some("金額"));
    assert_eq!(vc[0].value_a.as_deref(), Some("2000"));
    assert_eq!(vc[0].value_b.as_deref(), Some("2500"));
}

#[test]
fn test_a_only_and_b_only() {
    let a = "ID,Name\n001,Wang\n002,Chen\n003,Lin\n";
    let b = "ID,Name\n002,Chen\n004,Zhao\n";
    let cancel = AtomicBool::new(false);
    let options = utf8_key_opts(vec!["ID"], vec![]);

    let result = compare_key_based(&options, a.as_bytes(), b.as_bytes(), &cancel, &progress).unwrap();
    assert_eq!(result.rows_a, 3);
    assert_eq!(result.rows_b, 2);
    assert_eq!(result.a_only_records, 2); // 001, 003
    assert_eq!(result.b_only_records, 1); // 004
    assert_eq!(result.same_records, 1); // 002
    assert_eq!(result.matched_records, 1);
}

#[test]
fn test_duplicate_keys() {
    let a = "ID,Name\n001,Wang\n001,Chen\n002,Lin\n";
    let b = "ID,Name\n001,Wang\n002,Lin\n";
    let cancel = AtomicBool::new(false);
    let options = utf8_key_opts(vec!["ID"], vec![]);

    let result = compare_key_based(&options, a.as_bytes(), b.as_bytes(), &cancel, &progress).unwrap();
    assert_eq!(result.duplicate_keys_a, 1); // key 001 duplicated
    assert_eq!(result.duplicate_details_a.len(), 1);
    assert_eq!(result.duplicate_details_a[0].count, 2);
    assert_eq!(result.duplicate_details_a[0].rows, vec![1, 2]);
    assert!(!result.identical);
}

#[test]
fn test_file_b_duplicate_key_is_excluded_from_all_match_statistics() {
    let a = "ID,Name\n001,Wang\n";
    let b = "ID,Name\n001,Wang\n001,Wang\n";
    let cancel = AtomicBool::new(false);
    let options = utf8_key_opts(vec!["ID"], vec![]);

    let result = compare_key_based(&options, a.as_bytes(), b.as_bytes(), &cancel, &progress).unwrap();
    assert_eq!(result.matched_records, 0);
    assert_eq!(result.same_records, 0);
    assert_eq!(result.different_records, 0);
    assert_eq!(result.a_only_records, 0);
    assert_eq!(result.b_only_records, 0);
    assert_eq!(result.duplicate_keys_b, 1);
    assert_eq!(result.duplicate_details_b[0].count, 2);
    assert_eq!(result.duplicate_details_b[0].rows, vec![1, 2]);
}

#[test]
fn test_file_b_duplicate_key_never_produces_value_changed_or_b_only() {
    let a = "ID,Name\n001,Wang\n";
    let b = "ID,Name\n001,Chen\n001,Lin\n002,Zhao\n002,Li\n";
    let cancel = AtomicBool::new(false);
    let options = utf8_key_opts(vec!["ID"], vec![]);

    let result = compare_key_based(&options, a.as_bytes(), b.as_bytes(), &cancel, &progress).unwrap();
    assert_eq!(result.matched_records, 0);
    assert_eq!(result.different_records, 0);
    assert_eq!(result.a_only_records, 0);
    assert_eq!(result.b_only_records, 0);
    assert_eq!(result.duplicate_keys_b, 2);
    assert!(!result.differences.iter().any(|d| matches!(
        d.difference_type,
        DifferenceType::ValueChanged | DifferenceType::BOnly
    )));
}

#[test]
fn test_matching_duplicate_keys_still_compare_duplicate_rows() {
    let a = "ID,Name\n001,Wang\n001,Chen\n002,Lin\n";
    let b = "ID,Name\n001,Wang\n001,Chang\n002,Lin\n";
    let cancel = AtomicBool::new(false);
    let options = utf8_key_opts(vec!["ID"], vec![]);

    let result = compare_key_based(&options, a.as_bytes(), b.as_bytes(), &cancel, &progress).unwrap();
    assert_eq!(result.matched_records, 3);
    assert_eq!(result.same_records, 2);
    assert_eq!(result.different_records, 1);
    assert_eq!(result.different_cells, 1);
    assert!(result.differences.iter().any(|d| {
        d.difference_type == DifferenceType::ValueChanged
            && d.row_a == Some(2)
            && d.row_b == Some(2)
            && d.column_name.as_deref() == Some("Name")
            && d.value_a.as_deref() == Some("Chen")
            && d.value_b.as_deref() == Some("Chang")
    }));
}

#[test]
fn test_pre_cancelled_small_comparisons_stop_immediately() {
    let a = "ID,Name\n001,Wang\n";
    let b = "ID,Name\n001,Wang\n";
    let cancel = AtomicBool::new(true);

    for mode in [ComparisonMode::KeyBased, ComparisonMode::RowByRow] {
        let options = opts(
            "cancel_a.csv",
            "cancel_b.csv",
            EncodingOption::Utf8,
            EncodingOption::Utf8,
            DelimiterOption::Comma,
            DelimiterOption::Comma,
            mode,
            if mode == ComparisonMode::KeyBased { vec!["ID"] } else { vec![] },
            vec![],
        );
        let err = if mode == ComparisonMode::KeyBased {
            compare_key_based(&options, a.as_bytes(), b.as_bytes(), &cancel, &progress).unwrap_err()
        } else {
            compare_row_by_row(&options, a.as_bytes(), b.as_bytes(), &cancel, &progress).unwrap_err()
        };
        assert!(matches!(err, AppError::Cancelled));
    }
}

#[test]
fn test_low_confidence_auto_encoding_is_blocked_but_manual_encoding_works() {
    let mut uncertain = b"ID,Name\n1,".to_vec();
    uncertain.push(0x80);
    uncertain.push(b'\n');
    let cancel = AtomicBool::new(false);
    let auto = opts(
        "low_confidence_a.csv",
        "low_confidence_b.csv",
        EncodingOption::Auto,
        EncodingOption::Cp950,
        DelimiterOption::Comma,
        DelimiterOption::Comma,
        ComparisonMode::KeyBased,
        vec!["ID"],
        vec![],
    );
    let err = compare_key_based(&auto, &uncertain, &uncertain, &cancel, &progress).unwrap_err();
    assert!(err.text().contains("Encoding"), "{}", err.text());

    let manual = opts(
        "low_confidence_a.csv",
        "low_confidence_b.csv",
        EncodingOption::Cp950,
        EncodingOption::Cp950,
        DelimiterOption::Comma,
        DelimiterOption::Comma,
        ComparisonMode::KeyBased,
        vec!["ID"],
        vec![],
    );
    assert_eq!(compare_key_based(&manual, &uncertain, &uncertain, &cancel, &progress).unwrap().same_records, 1);
}

#[test]
fn test_empty_incomplete_keys() {
    let a = "ID,Name\n,Wang\n001,Chen\n";
    let b = "ID,Name\n001,Chen\n002,Lin\n";
    let cancel = AtomicBool::new(false);
    let options = utf8_key_opts(vec!["ID"], vec![]);

    let result = compare_key_based(&options, a.as_bytes(), b.as_bytes(), &cancel, &progress).unwrap();
    assert_eq!(result.empty_keys_a, 1);
    assert_eq!(result.rows_a, 2);
}

#[test]
fn test_row_by_row() {
    let a = "ID,Name,Amount\n001,Wang,1000\n002,Chen,2000\n003,Lin,3000\n";
    let b = "Amount,Name,ID\n3000,Lin,003\n2000,Chen,002\n1000,Wang,001\n";
    let cancel = AtomicBool::new(false);
    let options = opts(
        "row_a.csv",
        "row_b.csv",
        EncodingOption::Utf8,
        EncodingOption::Utf8,
        DelimiterOption::Comma,
        DelimiterOption::Comma,
        ComparisonMode::RowByRow,
        vec![],
        vec![],
    );

    let result = compare_row_by_row(&options, a.as_bytes(), b.as_bytes(), &cancel, &progress).unwrap();
    // Row-by-row pairs by position; B is reversed so only row 2 matches by name-mapping.
    assert_eq!(result.same_records, 1);
    assert_eq!(result.different_records, 2);
    assert!(!result.identical);
}

#[test]
fn test_value_changed_and_excluded() {
    let a = "ID,Amount,Stamp\n001,1000,08:00\n002,2000,08:00\n";
    let b = "ID,Amount,Stamp\n002,2000,09:00\n001,1200,09:00\n";
    let cancel = AtomicBool::new(false);
    let options = utf8_key_opts(vec!["ID"], vec!["Stamp"]);

    let result = compare_key_based(&options, a.as_bytes(), b.as_bytes(), &cancel, &progress).unwrap();
    assert_eq!(result.same_records, 1); // 002, Stamp excluded
    assert_eq!(result.different_records, 1); // 001 Amount changed
    assert_eq!(result.different_cells, 1);
}

#[test]
fn test_column_order_and_quoted() {
    let a = "\"ID\",\"Name\",\"Address\"\n\"001\",\"Wang\",\"台北市,中正區\"\n\"002\",\"Chen\",\"高雄市\"\n";
    let b = "\"Address\"|\"Name\"|\"ID\"\n\"高雄市\"|\"Chen\"|\"002\"\n\"台北市,中正區\"|\"Wang\"|\"001\"\n";
    let cancel = AtomicBool::new(false);
    let options = opts(
        "q_a.csv",
        "q_b.csv",
        EncodingOption::Utf8,
        EncodingOption::Utf8,
        DelimiterOption::Comma,
        DelimiterOption::Pipe,
        ComparisonMode::KeyBased,
        vec!["ID"],
        vec![],
    );

    let result = compare_key_based(&options, a.as_bytes(), b.as_bytes(), &cancel, &progress).unwrap();
    assert_eq!(result.same_records, 2);
    assert!(result.identical);
}

#[test]
fn test_excel_export() {
    let a = "ID,Name\n001,Wang\n002,Chen\n";
    let b = "ID,Name\n001,Wang\n002,Chun\n";
    let cancel = AtomicBool::new(false);
    let options = utf8_key_opts(vec!["ID"], vec![]);
    let result = compare_key_based(&options, a.as_bytes(), b.as_bytes(), &cancel, &progress).unwrap();

    let bytes = export_excel(&result).unwrap();
    assert!(!bytes.is_empty());
    assert!(bytes.len() > 1000);
}

#[test]
fn test_is_identical_helper() {
    let mut r = CompareResult::default();
    assert!(is_identical(&r));
    r.a_only_records = 1;
    assert!(!is_identical(&r));
}

#[test]
fn test_invalid_record_count() {
    let a = "ID,Name\n001,Wang\n002\n"; // 1 field but header has 2
    let b = "ID,Name\n001,Wang\n002,Chen\n";
    let cancel = AtomicBool::new(false);
    let options = utf8_key_opts(vec!["ID"], vec![]);
    let err = compare_key_based(&options, a.as_bytes(), b.as_bytes(), &cancel, &progress).unwrap_err();
    assert!(err.text().contains("檔案格式異常"), "{}", err.text());
}

#[test]
fn test_duplicate_header_error() {
    let a = "ID,Name,ID\n001,Wang,9\n";
    let b = "ID,Name\n001,Wang\n";
    let cancel = AtomicBool::new(false);
    let options = utf8_key_opts(vec!["ID"], vec![]);
    let err = compare_key_based(&options, a.as_bytes(), b.as_bytes(), &cancel, &progress).unwrap_err();
    assert!(err.text().contains("重複欄位名稱"), "{}", err.text());
}

#[test]
fn test_missing_key_column_error() {
    let a = "ID,Name\n001,Wang\n";
    let b = "ID,Name\n001,Wang\n";
    let cancel = AtomicBool::new(false);
    let options = utf8_key_opts(vec!["不存在欄位"], vec![]);
    let err = compare_key_based(&options, a.as_bytes(), b.as_bytes(), &cancel, &progress).unwrap_err();
    assert!(err.text().contains("Key 欄位不存在"), "{}", err.text());
}

#[test]
fn test_trim_and_ignore_case() {
    let a = "ID,Name\n001,  Wang  \n002,ABC\n";
    let b = "ID,Name\n001,Wang\n002,abc\n";
    let cancel = AtomicBool::new(false);
    let mut options = utf8_key_opts(vec!["ID"], vec![]);
    options.trim_whitespace = true;
    options.ignore_case = true;

    let result = compare_key_based(&options, a.as_bytes(), b.as_bytes(), &cancel, &progress).unwrap();
    assert_eq!(result.same_records, 2);
    assert!(result.identical);
}

#[test]
fn test_key_strict_string() {
    // 001 vs 1 must NOT match; ABC vs abc must NOT match as keys.
    let a = "ID,Name\n001,Wang\nABC,Chen\n";
    let b = "ID,Name\n1,Wang\nabc,Chen\n";
    let cancel = AtomicBool::new(false);
    let mut options = utf8_key_opts(vec!["ID"], vec![]);
    options.ignore_case = true; // keys must still match strictly

    let result = compare_key_based(&options, a.as_bytes(), b.as_bytes(), &cancel, &progress).unwrap();
    assert_eq!(result.same_records, 0);
    assert_eq!(result.a_only_records, 2);
    assert_eq!(result.b_only_records, 2);
}

#[test]
fn test_utf16_files() {
    let a = encode_utf16("ID,Name\n001,Wang\n", true);
    let b = encode_utf16("Name,ID\nWang,001\n", false);
    let cancel = AtomicBool::new(false);
    let options = opts(
        "u16_a.csv",
        "u16_b.csv",
        EncodingOption::Utf16Le,
        EncodingOption::Utf16Be,
        DelimiterOption::Comma,
        DelimiterOption::Comma,
        ComparisonMode::KeyBased,
        vec!["ID"],
        vec![],
    );
    let result = compare_key_based(&options, &a, &b, &cancel, &progress).unwrap();
    assert_eq!(result.same_records, 1);
    assert!(result.identical);
}

#[test]
fn test_utf8_bom() {
    let mut a = vec![0xEF, 0xBB, 0xBF];
    a.extend_from_slice(b"ID,Name\n001,Wang\n");
    let b = "ID,Name\n001,Wang\n";
    let cancel = AtomicBool::new(false);
    let options = opts(
        "bom_a.csv",
        "bom_b.csv",
        EncodingOption::Auto,
        EncodingOption::Utf8,
        DelimiterOption::Auto,
        DelimiterOption::Comma,
        ComparisonMode::KeyBased,
        vec!["ID"],
        vec![],
    );
    let result = compare_key_based(&options, &a, b.as_bytes(), &cancel, &progress).unwrap();
    assert_eq!(result.same_records, 1);
    assert!(result.identical);
    assert_eq!(result.file_a_encoding, "UTF-8");
}

#[test]
fn test_auto_detection() {
    let a = "ID;Name;City\n001;Wang;台北\n";
    let b = "Name|ID|City\nWang|001|台北\n";
    let cancel = AtomicBool::new(false);
    let options = opts(
        "auto_a.csv",
        "auto_b.txt",
        EncodingOption::Auto,
        EncodingOption::Auto,
        DelimiterOption::Auto,
        DelimiterOption::Auto,
        ComparisonMode::KeyBased,
        vec!["ID"],
        vec![],
    );
    let result = compare_key_based(&options, a.as_bytes(), b.as_bytes(), &cancel, &progress).unwrap();
    assert_eq!(result.same_records, 1);
    assert!(result.identical);
    assert_eq!(result.file_a_delimiter, "Semicolon (;)");
    assert_eq!(result.file_b_delimiter, "Pipe (|)");
}
