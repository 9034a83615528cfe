use std::sync::atomic::AtomicBool;

use csv_compare::commands::inspect_file::inspect_file;
use csv_compare::compare::difference::{
    classify_key, column_differences, normalize, values_equal, ColumnLayout, CompareSettings, KeyStatus,
};
use csv_compare::compare::duplicate_detector::DuplicateTracker;
use csv_compare::compare::key_builder::{validate_options, KeyBuilder};
use csv_compare::compare::key_comparator::{check_file_a, compare_key_based};
use csv_compare::compare::row_comparator::compare_row_by_row;
use csv_compare::compare::util::{cancel_outcome, check_cancel};
use csv_compare::error::app_error::{AppError, IoFailure};
use csv_compare::excel::exporter::{build_workbook, export_excel};
use csv_compare::excel::plan::{
    differences_sheet, duplicate_keys_sheet, excluded_columns_sheet, format_number, summary_sheet,
    workbook_plan, CellStyle,
};
use csv_compare::models::compare_options::{CompareOptions, ComparisonMode};
use csv_compare::models::composite_key::CompositeKey;
use csv_compare::models::difference::DifferenceType;
use csv_compare::models::parse_options::{DelimiterOption, EncodingOption, ParseOptions};
use csv_compare::parser::decoder::open_delimited_reader;
use csv_compare::parser::delimited_parser::{check_duplicate_headers, DelimitedReader};
use csv_compare::parser::delimiter::{delimiter_label, detect_delimiter};
use csv_compare::parser::encoding::{detect_encoding, DetectedEncoding};
use csv_compare::parser::reader::{decode_to_string, decoder_for, file_name, resolve_delimiter, resolve_encoding, WhatwgDecoder};

/// A progress sink that ignores what it is told.
fn progress(_processed: u64, _total: Option<u64>, _stage: &str) {}

fn strings(v: &[&str]) -> Vec<String> {
    v.iter().map(|s| s.to_string()).collect()
}

fn options(mode: ComparisonMode, keys: &[&str], excluded: &[&str]) -> CompareOptions {
    CompareOptions {
        file_a_path: "dir/a.csv".to_string(),
        file_b_path: "b.csv".to_string(),
        file_a_parse_options: ParseOptions { encoding: EncodingOption::Utf8, delimiter: DelimiterOption::Comma },
        file_b_parse_options: ParseOptions { encoding: EncodingOption::Utf8, delimiter: DelimiterOption::Comma },
        comparison_mode: mode,
        key_columns: strings(keys),
        excluded_columns: strings(excluded),
        trim_whitespace: false,
        ignore_case: false,
    }
}

fn key_compare(a: &str, b: &str, keys: &[&str], excluded: &[&str]) -> csv_compare::models::compare_result::CompareResult {
    let cancel = AtomicBool::new(false);
    compare_key_based(&options(ComparisonMode::KeyBased, keys, excluded), a.as_bytes(), b.as_bytes(), &cancel, &progress).unwrap()
}

fn row_compare(a: &str, b: &str, excluded: &[&str]) -> Result<csv_compare::models::compare_result::CompareResult, AppError> {
    let cancel = AtomicBool::new(false);
    compare_row_by_row(&options(ComparisonMode::RowByRow, &[], excluded), a.as_bytes(), b.as_bytes(), &cancel, &progress)
}

#[test]
fn format_number_groups_thousands() {
    assert_eq!(format_number(0), "0");
    assert_eq!(format_number(7), "7");
    assert_eq!(format_number(100), "100");
    assert_eq!(format_number(1000), "1,000");
    assert_eq!(format_number(1234567), "1,234,567");
    assert_eq!(format_number(u64::MAX), "18,446,744,073,709,551,615");
}

#[test]
fn detect_delimiter_prefers_stable_multi_field_records() {
    assert_eq!(detect_delimiter("a,b,c\n1,2,3\n4,5,6\n"), Some(b','));
    assert_eq!(detect_delimiter("a;b\n1;2\n"), Some(b';'));
    assert_eq!(detect_delimiter("a\tb\n1\t2\n"), Some(b'\t'));
    assert_eq!(detect_delimiter("a:b\n1:2\n"), Some(b':'));
    assert_eq!(detect_delimiter("a|b|c\n1,5|2|3\n"), Some(b'|'));
    assert_eq!(detect_delimiter("abc\ndef\n"), None);
    assert_eq!(detect_delimiter(""), None);
}

#[test]
fn detect_delimiter_result_occurs_in_sample() {
    for sample in ["x,y\n1,2\n", "p;q;r\n", "no delimiter here", "a:b|c\n1:2|3\n"] {
        if let Some(d) = detect_delimiter(sample) {
            assert!(sample.contains(d as char));
            assert!(b",;\t|:".contains(&d));
        }
    }
}

#[test]
fn delimiter_labels() {
    assert_eq!(delimiter_label(b','), "Comma (,)");
    assert_eq!(delimiter_label(b';'), "Semicolon (;)");
    assert_eq!(delimiter_label(b'\t'), "Tab");
    assert_eq!(delimiter_label(b'|'), "Pipe (|)");
    assert_eq!(delimiter_label(b':'), "Colon (:)");
    assert_eq!(delimiter_label(b'^'), "Custom (^)");
}

#[test]
fn detect_encoding_by_byte_order_mark_and_utf8() {
    assert_eq!(detect_encoding(&[0xEF, 0xBB, 0xBF, b'a']), (DetectedEncoding::Utf8, true));
    assert_eq!(detect_encoding(&[0xFF, 0xFE, b'a', 0]), (DetectedEncoding::Utf16Le, true));
    assert_eq!(detect_encoding(&[0xFE, 0xFF, 0, b'a']), (DetectedEncoding::Utf16Be, true));
    assert_eq!(detect_encoding(&[0x00, 0x00, 0xFE, 0xFF]), (DetectedEncoding::Utf16Be, true));
    assert_eq!(detect_encoding("ID,名稱\n".as_bytes()), (DetectedEncoding::Utf8, true));
    assert_eq!(detect_encoding(b""), (DetectedEncoding::Utf8, true));
}

#[test]
fn detect_encoding_recognises_big5_text() {
    let text = "客戶編號,姓名,金額,交易日期\n001,王小明,1000,2026/09/18\n002,陳小華,2000,2026/09/18\n003,林大同,3000,2026/09/19\n";
    let (bytes, _, _) = encoding_rs::BIG5.encode(text);
    let (enc, confident) = detect_encoding(&bytes);
    assert!(matches!(enc, DetectedEncoding::Big5 | DetectedEncoding::Cp950));
    assert_eq!(confident, enc == DetectedEncoding::Big5);
}

#[test]
fn encoding_labels_and_decoders() {
    assert_eq!(DetectedEncoding::Cp950.label(), "CP950");
    assert_eq!(DetectedEncoding::Cp950.encoding(), "Big5");
    assert_eq!(DetectedEncoding::Utf16Le.label(), "UTF-16 LE");
    assert_eq!(DetectedEncoding::Utf16Be.encoding(), "UTF-16BE");
}

#[test]
fn decode_to_string_decodes_each_encoding() {
    let (big5, _, _) = encoding_rs::BIG5.encode("台北");
    assert_eq!(decode_to_string(&big5, DetectedEncoding::Cp950), "台北");
    assert_eq!(decode_to_string(&[b'a', 0, b'b', 0], DetectedEncoding::Utf16Le), "ab");
    assert_eq!(decode_to_string(&[0, b'a', 0, b'b'], DetectedEncoding::Utf16Be), "ab");
    assert_eq!(decode_to_string("é".as_bytes(), DetectedEncoding::Utf8), "é");
}

#[test]
fn resolve_encoding_keeps_manual_choice() {
    assert_eq!(resolve_encoding(b"\xff\xfe", EncodingOption::Big5), (DetectedEncoding::Big5, true));
    assert_eq!(resolve_encoding(b"\xff\xfe", EncodingOption::Auto), (DetectedEncoding::Utf16Le, true));
}

#[test]
fn resolve_delimiter_checks_custom_and_auto() {
    assert_eq!(resolve_delimiter(b"", DetectedEncoding::Utf8, DelimiterOption::Custom('^')).unwrap(), b'^');
    let err = resolve_delimiter(b"", DetectedEncoding::Utf8, DelimiterOption::Custom('é')).unwrap_err();
    assert_eq!(err.text(), "自訂分隔符號僅支援單一位元組字元（ASCII）。");
    assert!(matches!(
        resolve_delimiter(b"abc\n", DetectedEncoding::Utf8, DelimiterOption::Auto),
        Err(AppError::DelimiterDetectionError)
    ));
    assert_eq!(resolve_delimiter(b"a|b\n1|2\n", DetectedEncoding::Utf8, DelimiterOption::Auto).unwrap(), b'|');
}

#[test]
fn file_name_takes_last_component() {
    assert_eq!(file_name("/tmp/data/a.csv"), "a.csv");
    assert_eq!(file_name("b.txt"), "b.txt");
    assert_eq!(file_name(""), "");
}

#[test]
fn reader_reports_empty_input_and_counts_fields() {
    match DelimitedReader::new("", b',', true) {
        Err(AppError::Other(m)) => assert_eq!(m, "檔案內容為空白，無法解析 Header。"),
        _ => panic!("an empty text has no header"),
    }
    let mut reader = DelimitedReader::new("A,B\n1,2\n3\n4,5\n", b',', true).ok().unwrap();
    assert_eq!(reader.headers(), &strings(&["A", "B"]));
    assert_eq!(reader.next_record().ok().unwrap(), Some((1, strings(&["1", "2"]))));
    match reader.next_record() {
        Err(AppError::InvalidRecord { record, expected, actual }) => {
            assert_eq!((record, expected, actual), (2, 2, 1));
        },
        _ => panic!("a short record is refused in strict mode"),
    }
    assert_eq!(reader.next_record().ok().unwrap(), Some((3, strings(&["4", "5"]))));
    assert_eq!(reader.next_record().ok().unwrap(), None);
    assert_eq!(reader.next_record().ok().unwrap(), None);

    let mut loose = DelimitedReader::new("A,B\n\"x,y\"\n", b',', false).ok().unwrap();
    assert_eq!(loose.next_record().ok().unwrap(), Some((1, strings(&["x,y"]))));
}

#[test]
fn reader_reads_quoted_fields() {
    let mut reader = DelimitedReader::new("A,B\n\"say \"\"hi\"\"\",\"line\nbreak\"\n", b',', true).ok().unwrap();
    assert_eq!(reader.next_record().ok().unwrap(), Some((1, strings(&["say \"hi\"", "line\nbreak"]))));
}

#[test]
fn duplicate_headers_are_refused() {
    assert!(check_duplicate_headers(&strings(&["ID", "Name"])).is_ok());
    match check_duplicate_headers(&strings(&["ID", "Name", "Name", "ID"])) {
        Err(AppError::DuplicateHeader(h)) => assert_eq!(h, "ID"),
        _ => panic!("a repeated name is refused"),
    }
}

#[test]
fn open_delimited_reader_reports_labels_and_errors() {
    let (reader, enc, delim) = open_delimited_reader(b"A;B\n1;2\n", EncodingOption::Auto, DelimiterOption::Auto, true).ok().unwrap();
    assert_eq!(reader.headers(), &strings(&["A", "B"]));
    assert_eq!(enc, "UTF-8");
    assert_eq!(delim, "Semicolon (;)");
    assert!(matches!(
        open_delimited_reader(b"ID,Name\n1,\x80\n", EncodingOption::Auto, DelimiterOption::Comma, true),
        Err(AppError::EncodingDetectionError)
    ));
}

#[test]
fn inspect_file_describes_the_file() {
    let info = inspect_file("x/data.csv".to_string(), b"ID|Name\n1|a\n", EncodingOption::Auto, DelimiterOption::Auto).ok().unwrap();
    assert_eq!(info.path, "x/data.csv");
    assert_eq!(info.encoding, "UTF-8");
    assert!(info.encoding_confident);
    assert_eq!(info.encoding_warning, None);
    assert_eq!(info.delimiter, "Pipe (|)");
    assert!(info.delimiter_confident);
    assert_eq!(info.headers, strings(&["ID", "Name"]));
    assert_eq!(info.row_count, None);

    let uncertain = inspect_file("u.csv".to_string(), b"ID,Name\n1,\x80\n", EncodingOption::Auto, DelimiterOption::Comma).ok().unwrap();
    assert!(!uncertain.encoding_confident);
    assert_eq!(uncertain.encoding_warning.as_deref(), Some("無法可靠判斷文字編碼，請手動指定 Encoding。"));

    assert!(matches!(
        inspect_file("d.csv".to_string(), b"A,A\n", EncodingOption::Utf8, DelimiterOption::Comma),
        Err(AppError::DuplicateHeader(_))
    ));
}

#[test]
fn error_texts_and_messages() {
    assert_eq!(AppError::FileNotFound("a.csv".to_string()).text(), "找不到檔案：\n\na.csv");
    assert_eq!(
        AppError::InvalidRecord { record: 12, expected: 3, actual: 2 }.text(),
        "檔案格式異常。\n\nRecord：12\n預期欄位：3\n實際欄位：2"
    );
    assert_eq!(AppError::Cancelled.text(), "比較已取消");
    assert_eq!(AppError::Io("disk".to_string()).text(), "disk");
    assert_eq!(AppError::Io("disk".to_string()).to_message(), "無法讀取檔案：disk");
    assert_eq!(AppError::MissingKeyColumn("K".to_string()).to_message(), "Key 欄位不存在於兩個檔案：\n\nK");
    assert!(AppError::ExportError.text().starts_with("Excel 報告無法儲存。"));
    assert!(matches!(
        AppError::from(IoFailure { permission_denied: true, message: "x".to_string() }),
        AppError::FileAccessError
    ));
    assert!(matches!(
        AppError::from(IoFailure { permission_denied: false, message: "x".to_string() }),
        AppError::Io(m) if m == "x"
    ));
}

#[test]
fn check_cancel_follows_the_flag() {
    assert!(check_cancel(&AtomicBool::new(false)).is_ok());
    assert!(matches!(check_cancel(&AtomicBool::new(true)), Err(AppError::Cancelled)));
}

#[test]
fn normalize_and_values_equal() {
    let strict = CompareSettings { trim_whitespace: false, ignore_case: false };
    let loose = CompareSettings { trim_whitespace: true, ignore_case: true };
    assert_eq!(normalize("  AbC ", strict), "  AbC ");
    assert_eq!(normalize("  AbC ", loose), "abc");
    assert!(!values_equal("00123", "123", loose));
    assert!(!values_equal("", " ", strict));
    assert!(values_equal("", " ", loose));
    assert!(!values_equal("ABC", "abc", strict));
}

#[test]
fn classify_keys() {
    assert_eq!(classify_key(&strings(&["", ""])), KeyStatus::Empty);
    assert_eq!(classify_key(&strings(&["001", ""])), KeyStatus::Incomplete);
    assert_eq!(classify_key(&strings(&["001", "02"])), KeyStatus::Valid);
}

#[test]
fn layout_lookup_and_column_differences() {
    let a = ColumnLayout::new(strings(&["ID", "Name", "Amount"]));
    let b = ColumnLayout::new(strings(&["Date", "ID", "Name", "Note"]));
    let record = strings(&["1", "Wang"]);
    assert_eq!(a.get("Name", &record), Some(&"Wang".to_string()));
    assert_eq!(a.get("Amount", &record), None);
    assert_eq!(a.get("Missing", &record), None);
    assert_eq!(a.common_with(&b), strings(&["ID", "Name"]));
    let diffs = column_differences(&a, &b, &strings(&["Note"]));
    let kinds: Vec<_> = diffs.iter().map(|d| (d.difference_type, d.column_name.clone().unwrap())).collect();
    assert_eq!(
        kinds,
        vec![
            (DifferenceType::ColumnAOnly, "Amount".to_string()),
            (DifferenceType::ColumnBOnly, "Date".to_string()),
        ]
    );
}

#[test]
fn key_columns_follow_header_order() {
    let layout = ColumnLayout::new(strings(&["交易日期", "客戶編號", "交易序號", "金額"]));
    let first = KeyBuilder::new(strings(&["交易序號", "客戶編號", "交易日期"]), &layout);
    let second = KeyBuilder::new(strings(&["客戶編號", "交易日期", "交易序號"]), &layout);
    assert_eq!(first.columns(), &strings(&["交易日期", "客戶編號", "交易序號"]));
    assert_eq!(first.columns(), second.columns());
    let (key, status) = first.build(&strings(&["2026/09/18", "001", "01", "1000"]), &layout);
    assert_eq!(key, CompositeKey(strings(&["2026/09/18", "001", "01"])));
    assert_eq!(status, KeyStatus::Valid);
}

#[test]
fn composite_keys_keep_values_apart() {
    let layout = ColumnLayout::new(strings(&["X", "Y"]));
    let builder = KeyBuilder::new(strings(&["X", "Y"]), &layout);
    let (k1, _) = builder.build(&strings(&["A", "BC"]), &layout);
    let (k2, _) = builder.build(&strings(&["AB", "C"]), &layout);
    assert_ne!(k1, k2);
}

#[test]
fn validate_options_rejects_missing_and_excluded_keys() {
    let a = ColumnLayout::new(strings(&["ID", "Name"]));
    let b = ColumnLayout::new(strings(&["ID", "Name"]));
    let builder = KeyBuilder::new(strings(&["ID"]), &a);
    let opts = options(ComparisonMode::KeyBased, &["ID"], &["ID"]);
    match validate_options(&opts, &a, &b, &builder) {
        Err(AppError::Other(m)) => assert_eq!(m, "Key 欄位不得同時設為排除比較欄位：ID"),
        _ => panic!("a key column cannot be excluded"),
    }
    let b2 = ColumnLayout::new(strings(&["Name"]));
    assert!(matches!(validate_options(&options(ComparisonMode::KeyBased, &["ID"], &[]), &a, &b2, &builder), Err(AppError::MissingKeyColumn(c)) if c == "ID"));
}

#[test]
fn duplicate_tracker_counts_occurrences() {
    let mut t = DuplicateTracker::new();
    let k1 = CompositeKey(strings(&["001"]));
    let k2 = CompositeKey(strings(&["002"]));
    assert!(!t.record(&k1, 1));
    assert!(!t.record(&k2, 2));
    assert!(t.record(&k1, 3));
    assert!(t.is_duplicate(&k1));
    assert!(!t.is_duplicate(&k2));
    let dups = t.duplicate_keys();
    assert_eq!(dups.len(), 1);
    assert_eq!(dups[0].0, k1);
    assert_eq!(dups[0].1, (2, vec![1, 3]));
    let infos = t.to_infos("File A", &strings(&["ID"]));
    assert_eq!(infos.len(), 1);
    assert_eq!(infos[0].source, "File A");
    assert_eq!(infos[0].count, 2);
    assert_eq!(infos[0].rows, vec![1, 3]);
    assert_eq!(infos[0].key_values[0].column, "ID");
    assert_eq!(infos[0].key_values[0].value, "001");
}

#[test]
fn key_comparison_ignores_row_order() {
    let a = "ID,Name,Amount\n001,Wang,1000\n002,Chen,2000\n003,Lin,3000\n";
    let b = "ID,Name,Amount\n003,Lin,3000\n001,Wang,1000\n002,Chen,2000\n";
    let r = key_compare(a, b, &["ID"], &[]);
    assert!(r.identical);
    assert_eq!(r.matched_records, 3);
    assert_eq!(r.same_records, 3);
    assert!(r.differences.is_empty());
}

#[test]
fn key_pairs_use_exact_keys_once() {
    let a = "ID,Name\n001,Wang\n 002,Chen\n";
    let b = "ID,Name\n1,Wang\n002,Chen\n";
    let r = key_compare(a, b, &["ID"], &[]);
    assert_eq!(r.matched_records, 0);
    assert_eq!(r.a_only_records, 2);
    assert_eq!(r.b_only_records, 2);
    assert_eq!(r.same_records + r.different_records, r.matched_records);
}

#[test]
fn key_comparison_reports_key_problems_and_column_differences() {
    let a = "ID,Sub,Name,Extra\n,,Wang,x\n001,,Chen,y\n002,1,Lin,z\n";
    let b = "ID,Sub,Name,Other\n002,1,Lim,q\n";
    let r = key_compare(a, b, &["ID", "Sub"], &[]);
    assert_eq!(r.empty_keys_a, 1);
    assert_eq!(r.incomplete_keys_a, 1);
    assert_eq!(r.column_a_only, strings(&["Extra"]));
    assert_eq!(r.column_b_only, strings(&["Other"]));
    assert_eq!(r.compared_columns, strings(&["ID", "Sub", "Name"]));
    let kinds: Vec<_> = r.differences.iter().map(|d| d.difference_type).collect();
    assert_eq!(
        kinds,
        vec![
            DifferenceType::EmptyKeyA,
            DifferenceType::IncompleteKeyA,
            DifferenceType::ColumnAOnly,
            DifferenceType::ColumnBOnly,
            DifferenceType::ValueChanged,
        ]
    );
    let vc = &r.differences[4];
    assert_eq!(vc.row_a, Some(3));
    assert_eq!(vc.row_b, Some(1));
    assert_eq!(vc.value_a.as_deref(), Some("Lin"));
    assert_eq!(vc.value_b.as_deref(), Some("Lim"));
    assert_eq!(r.file_a_name, "a.csv");
    assert_eq!(r.compare_mode, "KEY_BASED");
}

#[test]
fn excluded_columns_never_appear_in_differences() {
    let a = "ID,Amount,Stamp,OnlyA\n001,1,08:00,x\n";
    let b = "ID,Amount,Stamp\n001,2,09:00\n";
    let r = key_compare(a, b, &["ID"], &["Stamp", "OnlyA"]);
    assert_eq!(r.different_cells, 1);
    assert!(r.column_a_only.is_empty());
    for d in &r.differences {
        if let Some(c) = &d.column_name {
            assert!(c != "Stamp" && c != "OnlyA");
        }
    }
}

#[test]
fn trimmed_values_are_shown_raw() {
    let cancel = AtomicBool::new(false);
    let mut o = options(ComparisonMode::KeyBased, &["ID"], &[]);
    o.trim_whitespace = true;
    let r = compare_key_based(&o, b"ID,Name\n1, Wang \n", b"ID,Name\n1, Chen\n", &cancel, &progress).unwrap();
    assert_eq!(r.differences[0].value_a.as_deref(), Some(" Wang "));
    assert_eq!(r.differences[0].value_b.as_deref(), Some(" Chen"));
}

#[test]
fn row_comparison_with_itself_is_identical() {
    let a = "ID,Name\n1,a\n2,b\n";
    let r = row_compare(a, a, &[]).ok().unwrap();
    assert!(r.identical);
    assert_eq!(r.matched_records, 2);
    assert_eq!(r.same_records, 2);
    assert_eq!(r.compare_mode, "ROW_BY_ROW");
    assert!(r.key_columns.is_empty());
}

#[test]
fn row_comparison_counts_leftover_rows() {
    let r = row_compare("ID,Name\n1,a\n2,b\n3,c\n", "ID,Name\n1,a\n", &[]).ok().unwrap();
    assert_eq!(r.matched_records, 1);
    assert_eq!(r.a_only_records, 2);
    assert_eq!(r.b_only_records, 0);
    assert_eq!(r.matched_records + r.a_only_records, r.rows_a);
    let kinds: Vec<_> = r.differences.iter().map(|d| d.difference_type).collect();
    assert_eq!(kinds, vec![DifferenceType::AOnly, DifferenceType::AOnly]);
    assert_eq!(r.differences[0].value_a.as_deref(), Some("2\tb"));
}

#[test]
fn row_comparison_reports_the_first_error_met_side_by_side() {
    // File A fails at its second record, file B at its first: B's comes first.
    match row_compare("ID,Name\n1,a\n2\n", "ID,Name\n3\n", &[]) {
        Err(AppError::InvalidRecord { record, expected, actual }) => assert_eq!((record, expected, actual), (1, 2, 1)),
        _ => panic!("the first problem is reported"),
    }
    // Both fail at the first record: A is read first.
    match row_compare("ID,Name\n1,a,x\n", "ID,Name\n3\n", &[]) {
        Err(AppError::InvalidRecord { actual, .. }) => assert_eq!(actual, 3),
        _ => panic!("the first problem is reported"),
    }
}

#[test]
fn key_comparison_reads_file_a_before_opening_file_b() {
    let cancel = AtomicBool::new(false);
    let o = options(ComparisonMode::KeyBased, &["ID"], &[]);
    let err = compare_key_based(&o, b"ID,Name\n1\n", b"", &cancel, &progress).unwrap_err();
    assert!(matches!(err, AppError::InvalidRecord { record: 1, expected: 2, actual: 1 }));
    let err = compare_key_based(&o, b"ID,Name\n1,a\n", b"", &cancel, &progress).unwrap_err();
    assert!(matches!(err, AppError::Other(m) if m == "檔案內容為空白，無法解析 Header。"));
}

#[test]
fn excel_plan_sheets() {
    let r = key_compare("ID,Name\n001,Wang\n001,Lee\n002,Chen\n", "ID,Name\n002,Chun\n", &["ID"], &["Note"]);
    let sheets = workbook_plan(&r);
    let names: Vec<_> = sheets.iter().map(|s| s.name.clone()).collect();
    assert_eq!(names, strings(&["Summary", "Differences", "Column_Differences", "Excluded_Columns", "Duplicate_Keys"]));

    let summary = summary_sheet(&r);
    assert_eq!(summary.cells[0].text, "CSV Compare 結果摘要");
    assert_eq!(summary.cells[0].style, CellStyle::Title);
    assert_eq!(summary.cells.len(), 1 + 2 * 24);
    assert_eq!((summary.cells[1].row, summary.cells[1].col), (2, 0));
    assert_eq!(summary.cells[1].text, "File A");
    assert_eq!(summary.cells[2].text, "a.csv");
    assert_eq!(summary.cells[15].text, "Key Columns");
    assert_eq!(summary.cells[16].text, "ID");
    assert_eq!(summary.cells[45].text, "Result");
    assert_eq!(summary.cells[46].text, "DIFFERENT");

    let diffs = differences_sheet(&r);
    let header: Vec<_> = diffs.cells.iter().take(7).map(|c| c.text.clone()).collect();
    assert_eq!(header, strings(&["ID", "Row A", "Row B", "Column", "File A Value", "File B Value", "Type"]));
    assert_eq!(diffs.widths[4], (4, 40));
    assert_eq!(diffs.widths[0], (0, 16));
    assert_eq!(diffs.filter, Some((r.differences.len() as u64, 6)));
    assert!(diffs.freeze_header);

    let excluded = excluded_columns_sheet(&r);
    assert_eq!(excluded.cells[1].text, "Note");
    assert_eq!(excluded.cells[1].row, 1);

    let dups = duplicate_keys_sheet(&r);
    let texts: Vec<_> = dups.cells.iter().map(|c| c.text.clone()).collect();
    assert_eq!(texts, strings(&["Source", "ID", "Count", "Rows", "File A", "001", "2", "1, 2"]));
    assert_eq!(dups.widths, vec![(0, 20), (1, 20), (2, 20), (3, 60)]);
}

#[test]
fn excel_plan_notes_when_empty() {
    let r = key_compare("ID\n1\n", "ID\n1\n", &["ID"], &[]);
    let diffs = differences_sheet(&r);
    assert_eq!(diffs.cells.last().unwrap().text, "No differences found.");
    assert_eq!(diffs.filter, Some((1, 6)));
    assert_eq!(excluded_columns_sheet(&r).cells[1].text, "No excluded columns.");
    let dups = duplicate_keys_sheet(&r);
    assert_eq!(dups.cells.len(), 1);
    assert_eq!(dups.cells[0].text, "No duplicate keys found.");
    assert_eq!(dups.widths, vec![(0, 30)]);
}

#[test]
fn key_counts_ignore_row_order_in_either_file() {
    let a1 = "ID,N\n1,a\n2,b\n3,c\n3,d\n5,e\n";
    let a2 = "ID,N\n3,d\n5,e\n2,b\n1,a\n3,c\n";
    let b1 = "ID,N\n2,x\n4,y\n1,a\n,z\n";
    let b2 = "ID,N\n,z\n1,a\n4,y\n2,x\n";
    let base = key_compare(a1, b1, &["ID"], &[]);
    for (a, b) in [(a1, b2), (a2, b1), (a2, b2)] {
        let r = key_compare(a, b, &["ID"], &[]);
        assert_eq!(r.matched_records, base.matched_records);
        assert_eq!(r.same_records, base.same_records);
        assert_eq!(r.different_records, base.different_records);
        assert_eq!(r.a_only_records, base.a_only_records);
        assert_eq!(r.b_only_records, base.b_only_records);
        assert_eq!(r.empty_keys_b, base.empty_keys_b);
    }
    assert_eq!(base.matched_records, 2);
    assert_eq!(base.same_records, 1);
    assert_eq!(base.a_only_records, 1);
    assert_eq!(base.b_only_records, 1);
    assert_eq!(base.duplicate_keys_a, 1);
}

#[test]
fn difference_rows_keep_raw_values() {
    let r = key_compare("K1,K2,V\n001,A,001234\n", "K1,K2,V\n001,A,1234\n", &["K1", "K2"], &[]);
    let sheet = differences_sheet(&r);
    let row: Vec<_> = sheet.cells.iter().filter(|c| c.row == 1).map(|c| (c.col, c.text.clone())).collect();
    assert_eq!(
        row,
        vec![
            (0, "001".to_string()),
            (1, "A".to_string()),
            (2, "1".to_string()),
            (3, "1".to_string()),
            (4, "V".to_string()),
            (5, "001234".to_string()),
            (6, "1234".to_string()),
            (7, "VALUE_CHANGED".to_string()),
        ]
    );
    assert!(sheet.cells.iter().filter(|c| c.row > 0).all(|c| c.style == CellStyle::Text));
}

#[test]
fn summary_counts_are_plain_decimals() {
    let mut r = key_compare("ID,Name\n1,a\n", "ID,Name\n1,a\n", &["ID"], &[]);
    r.rows_a = 10000;
    r.different_cells = 1234567;
    let summary = summary_sheet(&r);
    assert_eq!(summary.cells[17].text, "Rows A");
    assert_eq!(summary.cells[18].text, "10000");
    assert_eq!(summary.cells[31].text, "Different Cells");
    assert_eq!(summary.cells[32].text, "1234567");
}

#[test]
fn compare_mode_names_the_requested_mode() {
    let cancel = AtomicBool::new(false);
    let o = options(ComparisonMode::KeyBased, &["ID"], &[]);
    let r = compare_key_based(&o, b"ID\n1\n", b"ID\n1\n", &cancel, &progress).ok().unwrap();
    assert_eq!(r.compare_mode, "KEY_BASED");
    let o = options(ComparisonMode::RowByRow, &[], &[]);
    let r = compare_row_by_row(&o, b"ID\n1\n", b"ID\n1\n", &cancel, &progress).ok().unwrap();
    assert_eq!(r.compare_mode, "ROW_BY_ROW");
    // The mode written is the one the options name.
    let o = options(ComparisonMode::RowByRow, &["ID"], &[]);
    let r = compare_key_based(&o, b"ID\n1\n", b"ID\n1\n", &cancel, &progress).ok().unwrap();
    assert_eq!(r.compare_mode, "ROW_BY_ROW");
}

#[test]
fn workbook_is_built_within_excel_limits() {
    let r = key_compare("ID,Name\n1,a\n", "ID,Name\n1,b\n", &["ID"], &[]);
    assert!(build_workbook(&r).is_ok());
    let bytes = export_excel(&r).ok().unwrap();
    assert_eq!(&bytes[0..2], b"PK");

    // A value longer than a cell can hold: the workbook is refused.
    let long = "x".repeat(40000);
    let a = format!("ID,Name\n1,{}\n", long);
    let r = key_compare(&a, "ID,Name\n1,b\n", &["ID"], &[]);
    assert!(matches!(build_workbook(&r), Err(AppError::ExportError)));
    assert!(matches!(export_excel(&r), Err(AppError::ExportError)));

    // Exactly at the limit the cell is accepted; characters beyond the Basic
    // Multilingual Plane count twice.
    let at_limit = "x".repeat(32767);
    let a = format!("ID,Name\n1,{}\n", at_limit);
    let r = key_compare(&a, "ID,Name\n1,b\n", &["ID"], &[]);
    assert!(build_workbook(&r).is_ok());
    let wide = "\u{1F600}".repeat(16384);
    let a = format!("ID,Name\n1,{}\n", wide);
    let r = key_compare(&a, "ID,Name\n1,b\n", &["ID"], &[]);
    assert!(matches!(build_workbook(&r), Err(AppError::ExportError)));
}

#[test]
fn duplicate_listing_and_reports_agree() {
    let mut t = DuplicateTracker::new();
    let k1 = CompositeKey(strings(&["001", "A"]));
    let k2 = CompositeKey(strings(&["002", "B"]));
    let k3 = CompositeKey(strings(&["003", "C"]));
    assert!(!t.record(&k2, 10));
    assert!(!t.record(&k1, 11));
    assert!(t.record(&k2, 12));
    assert!(!t.record(&k3, 13));
    assert!(t.record(&k1, 14));
    assert!(t.record(&k2, 15));
    assert!(t.is_duplicate(&k1) && t.is_duplicate(&k2) && !t.is_duplicate(&k3));
    let dups = t.duplicate_keys();
    let infos = t.to_infos("File B", &strings(&["ID", "Code"]));
    assert_eq!(dups.len(), infos.len());
    assert_eq!(dups[0], (k2.clone(), (3, vec![10, 12, 15])));
    assert_eq!(dups[1], (k1.clone(), (2, vec![11, 14])));
    for (d, info) in dups.iter().zip(infos.iter()) {
        assert_eq!(info.source, "File B");
        assert_eq!(info.count, d.1 .0);
        assert_eq!(info.rows, d.1 .1);
        let values: Vec<_> = info.key_values.iter().map(|kv| (kv.column.clone(), kv.value.clone())).collect();
        assert_eq!(values, vec![("ID".to_string(), d.0 .0[0].clone()), ("Code".to_string(), d.0 .0[1].clone())]);
    }
}

#[test]
fn file_a_problems_come_before_file_b() {
    let cancel = AtomicBool::new(false);
    let o = options(ComparisonMode::KeyBased, &["ID"], &[]);
    assert!(matches!(
        check_file_a(&o, b"ID,Name\n1\n", &cancel, &progress),
        Err(AppError::InvalidRecord { record: 1, expected: 2, actual: 1 })
    ));
    assert!(check_file_a(&o, b"ID,Name\n1,a\n", &cancel, &progress).is_ok());
    // Row by row, records are read side by side, so only opening A counts.
    let o = options(ComparisonMode::RowByRow, &[], &[]);
    assert!(check_file_a(&o, b"ID,Name\n1\n", &cancel, &progress).is_ok());
    assert!(check_file_a(&o, b"", &cancel, &progress).is_err());
    let cancelled = AtomicBool::new(true);
    assert!(matches!(check_file_a(&o, b"ID\n1\n", &cancelled, &progress), Err(AppError::Cancelled)));
}

#[test]
fn cancel_outcome_follows_the_request() {
    assert!(cancel_outcome(false).is_ok());
    assert!(matches!(cancel_outcome(true), Err(AppError::Cancelled)));
}

fn counts(r: &csv_compare::models::compare_result::CompareResult) -> Vec<u64> {
    vec![
        r.rows_a,
        r.rows_b,
        r.matched_records,
        r.same_records,
        r.different_records,
        r.a_only_records,
        r.b_only_records,
        r.different_cells,
        r.duplicate_keys_a,
        r.duplicate_keys_b,
        r.empty_keys_a,
        r.empty_keys_b,
        r.incomplete_keys_a,
        r.incomplete_keys_b,
    ]
}

#[test]
fn key_counts_ignore_column_order() {
    let a = "K1,K2,V,W\n1,x,a,p\n1,x,b,q\n2,,c,r\n3,y,d,s\n,,e,t\n";
    let b = "K1,K2,V,W\n1,x,a,p\n3,y,D,S\n4,z,f,u\n";
    let base = key_compare(a, b, &["K1", "K2"], &[]);
    // The same files with their columns in another order.
    let a2 = "W,K2,V,K1\np,x,a,1\nq,x,b,1\nr,,c,2\ns,y,d,3\nt,,e,\n";
    let b2 = "V,K2,K1,W\na,x,1,p\nD,y,3,S\nf,z,4,u\n";
    let moved = key_compare(a2, b2, &["K2", "K1"], &[]);
    assert_eq!(counts(&moved), counts(&base));
    assert_eq!(counts(&base), vec![5, 3, 1, 0, 1, 0, 1, 2, 1, 0, 1, 0, 1, 0]);
    assert_eq!(moved.key_columns, strings(&["K2", "K1"]));
}

#[test]
fn key_counts_ignore_row_and_column_order_together() {
    let a = "ID,Name,City\n1,Wang,Taipei\n2,Lee,Tainan\n3,Chen,Hsinchu\n";
    let b = "ID,Name,City\n1,Wang,Taipei\n2,Li,Tainan\n4,Lin,Keelung\n";
    let base = key_compare(a, b, &["ID"], &[]);
    let a2 = "City,ID,Name\nHsinchu,3,Chen\nTaipei,1,Wang\nTainan,2,Lee\n";
    let b2 = "Name,City,ID\nLin,Keelung,4\nLi,Tainan,2\nWang,Taipei,1\n";
    let moved = key_compare(a2, b2, &["ID"], &[]);
    assert_eq!(counts(&moved), counts(&base));
    assert_eq!(base.identical, moved.identical);
    assert_eq!(counts(&base), vec![3, 3, 2, 1, 1, 1, 1, 1, 0, 0, 0, 0, 0, 0]);
}

#[test]
fn normalizing_twice_changes_nothing_without_case_folding() {
    let trim = CompareSettings { trim_whitespace: true, ignore_case: false };
    for v in ["  a b  ", "\t\u{3000}x\u{a0}", "", "   ", "plain"] {
        let once = normalize(v, trim);
        assert_eq!(normalize(&once, trim), once);
    }
    assert_eq!(normalize("\u{3000} 全形 \u{3000}", trim), "全形");
}

#[test]
fn progress_is_reported_every_few_thousand_records() {
    let cancel = AtomicBool::new(false);
    let calls = std::cell::RefCell::new(Vec::new());
    let record = |n: u64, t: Option<u64>, s: &str| calls.borrow_mut().push((n, t, s.to_string()));
    let mut text = String::from("ID,V\n");
    for i in 0..5000 {
        text.push_str(&format!("{i},x\n"));
    }
    let o = options(ComparisonMode::KeyBased, &["ID"], &[]);
    let r = compare_key_based(&o, text.as_bytes(), text.as_bytes(), &cancel, &record).ok().unwrap();
    assert_eq!(r.same_records, 5000);
    assert_eq!(
        calls.borrow().clone(),
        vec![
            (5000, None, "讀取 File A".to_string()),
            (5000, None, "掃描 File B 重複 Key".to_string()),
            (5000, None, "比對 File B".to_string()),
        ]
    );
    calls.borrow_mut().clear();
    let o = options(ComparisonMode::RowByRow, &[], &[]);
    compare_row_by_row(&o, text.as_bytes(), text.as_bytes(), &cancel, &record).ok().unwrap();
    let counts: Vec<u64> = calls.borrow().iter().map(|c| c.0).collect();
    assert_eq!(counts, vec![2000, 4000]);
    assert!(calls.borrow().iter().all(|c| c.1.is_none() && c.2 == "依資料列順序比對"));
}

#[test]
fn compare_time_is_a_time_stamp() {
    let r = key_compare("ID\n1\n", "ID\n1\n", &["ID"], &[]);
    let t: Vec<char> = r.compare_time.chars().collect();
    assert_eq!(t.len(), 19);
    for (i, c) in t.iter().enumerate() {
        match i {
            4 | 7 => assert_eq!(*c, '-'),
            10 => assert_eq!(*c, ' '),
            13 | 16 => assert_eq!(*c, ':'),
            _ => assert!(c.is_ascii_digit()),
        }
    }
}

#[test]
fn cp950_is_read_with_the_big5_decoder() {
    assert_eq!(decoder_for(DetectedEncoding::Cp950), WhatwgDecoder::Big5);
    assert_eq!(decoder_for(DetectedEncoding::Big5), WhatwgDecoder::Big5);
    assert_eq!(decoder_for(DetectedEncoding::Utf8), WhatwgDecoder::Utf8);
    assert_eq!(decoder_for(DetectedEncoding::Utf16Le), WhatwgDecoder::Utf16Le);
    assert_eq!(decoder_for(DetectedEncoding::Utf16Be), WhatwgDecoder::Utf16Be);
}
