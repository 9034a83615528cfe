use vstd::prelude::*;
use vstd::string::StringExecFns;

use crate::text::{decimal_string, owned, spec_decimal};

verus! {

/// Every way in which inspecting, comparing or exporting can fail.
#[derive(Debug)]
pub enum AppError {
    FileNotFound(String),
    FileAccessError,
    DelimiterDetectionError,
    EncodingDetectionError,
    InvalidRecord { record: u64, expected: usize, actual: usize },
    DuplicateHeader(String),
    MissingKeyColumn(String),
    ExportError,
    Cancelled,
    Io(String),
    Other(String),
}

/// Mathematical form of an [`AppError`].
pub enum AppErrorSpec {
    FileNotFound(Seq<char>),
    FileAccessError,
    DelimiterDetectionError,
    EncodingDetectionError,
    InvalidRecord { record: u64, expected: usize, actual: usize },
    DuplicateHeader(Seq<char>),
    MissingKeyColumn(Seq<char>),
    ExportError,
    Cancelled,
    Io(Seq<char>),
    Other(Seq<char>),
}

impl DeepView for AppError {
    type V = AppErrorSpec;

    open spec fn deep_view(&self) -> AppErrorSpec {
        match self {
            AppError::FileNotFound(p) => AppErrorSpec::FileNotFound(p@),
            AppError::FileAccessError => AppErrorSpec::FileAccessError,
            AppError::DelimiterDetectionError => AppErrorSpec::DelimiterDetectionError,
            AppError::EncodingDetectionError => AppErrorSpec::EncodingDetectionError,
            AppError::InvalidRecord { record, expected, actual } => AppErrorSpec::InvalidRecord {
                record: *record,
                expected: *expected,
                actual: *actual,
            },
            AppError::DuplicateHeader(h) => AppErrorSpec::DuplicateHeader(h@),
            AppError::MissingKeyColumn(c) => AppErrorSpec::MissingKeyColumn(c@),
            AppError::ExportError => AppErrorSpec::ExportError,
            AppError::Cancelled => AppErrorSpec::Cancelled,
            AppError::Io(m) => AppErrorSpec::Io(m@),
            AppError::Other(m) => AppErrorSpec::Other(m@),
        }
    }
}

/// The text under which an error is shown to the user.
pub open spec fn spec_error_text(e: AppErrorSpec) -> Seq<char> {
    match e {
        AppErrorSpec::FileNotFound(p) => "找不到檔案：\n\n"@ + p,
        AppErrorSpec::FileAccessError => "無法讀取檔案。\n\n請確認檔案是否存在，以及目前帳號是否具有讀取權限。"@,
        AppErrorSpec::DelimiterDetectionError => "無法可靠判斷欄位分隔符號。\n\n請手動指定 Delimiter。"@,
        AppErrorSpec::EncodingDetectionError => "無法可靠判斷檔案 Encoding。\n\n請手動指定 Encoding 後再進行比較。"@,
        AppErrorSpec::InvalidRecord { record, expected, actual } => "檔案格式異常。\n\nRecord："@
            + spec_decimal(record) + "\n預期欄位："@ + spec_decimal(expected as u64) + "\n實際欄位："@
            + spec_decimal(actual as u64),
        AppErrorSpec::DuplicateHeader(h) => "發現重複欄位名稱：\n\n"@ + h
            + "\n\n請修正來源檔案後重新執行。"@,
        AppErrorSpec::MissingKeyColumn(c) => "Key 欄位不存在於兩個檔案：\n\n"@ + c,
        AppErrorSpec::ExportError => "Excel 報告無法儲存。\n\n請確認：\n1. 輸出資料夾具有寫入權限\n2. 同名 Excel 是否正在開啟\n3. 磁碟空間是否足夠"@,
        AppErrorSpec::Cancelled => "比較已取消"@,
        AppErrorSpec::Io(m) => m,
        AppErrorSpec::Other(m) => m,
    }
}

/// The message handed to the user interface: the error's text, except that an
/// I/O failure is introduced as a failure to read the file.
pub open spec fn spec_error_message(e: AppErrorSpec) -> Seq<char> {
    match e {
        AppErrorSpec::Io(m) => "無法讀取檔案："@ + m,
        other => spec_error_text(other),
    }
}

impl AppError {
    /// The text under which the error is shown.
    pub fn text(&self) -> (s: String)
        ensures
            s@ == spec_error_text(self.deep_view()),
    {
        match self {
            AppError::FileNotFound(p) => {
                let mut s = owned("找不到檔案：\n\n");
                s.append(p.as_str());
                s
            },
            AppError::FileAccessError => owned(
                "無法讀取檔案。\n\n請確認檔案是否存在，以及目前帳號是否具有讀取權限。",
            ),
            AppError::DelimiterDetectionError => owned(
                "無法可靠判斷欄位分隔符號。\n\n請手動指定 Delimiter。",
            ),
            AppError::EncodingDetectionError => owned(
                "無法可靠判斷檔案 Encoding。\n\n請手動指定 Encoding 後再進行比較。",
            ),
            AppError::InvalidRecord { record, expected, actual } => {
                let mut s = owned("檔案格式異常。\n\nRecord：");
                s.append(decimal_string(*record).as_str());
                s.append("\n預期欄位：");
                s.append(decimal_string(*expected as u64).as_str());
                s.append("\n實際欄位：");
                s.append(decimal_string(*actual as u64).as_str());
                s
            },
            AppError::DuplicateHeader(h) => {
                let mut s = owned("發現重複欄位名稱：\n\n");
                s.append(h.as_str());
                s.append("\n\n請修正來源檔案後重新執行。");
                s
            },
            AppError::MissingKeyColumn(c) => {
                let mut s = owned("Key 欄位不存在於兩個檔案：\n\n");
                s.append(c.as_str());
                s
            },
            AppError::ExportError => owned(
                "Excel 報告無法儲存。\n\n請確認：\n1. 輸出資料夾具有寫入權限\n2. 同名 Excel 是否正在開啟\n3. 磁碟空間是否足夠",
            ),
            AppError::Cancelled => owned("比較已取消"),
            AppError::Io(m) => owned(m.as_str()),
            AppError::Other(m) => owned(m.as_str()),
        }
    }

    /// The message handed to the user interface.
    pub fn to_message(&self) -> (s: String)
        ensures
            s@ == spec_error_message(self.deep_view()),
    {
        match self {
            AppError::Io(e) => {
                let mut s = owned("無法讀取檔案：");
                s.append(e.as_str());
                s
            },
            other => other.text(),
        }
    }
}

/// A failed read as the file system reported it: whether permission was
/// refused, and the failure's own text.
pub struct IoFailure {
    pub permission_denied: bool,
    pub message: String,
}

impl From<IoFailure> for AppError {
    /// A refused permission is a file access error; any other failure keeps its text.
    fn from(e: IoFailure) -> (r: Self) {
        if e.permission_denied {
            AppError::FileAccessError
        } else {
            AppError::Io(e.message)
        }
    }
}

impl vstd::std_specs::convert::FromSpecImpl<IoFailure> for AppError {
    open spec fn obeys_from_spec() -> bool {
        true
    }

    open spec fn from_spec(v: IoFailure) -> AppError {
        if v.permission_denied {
            AppError::FileAccessError
        } else {
            AppError::Io(v.message)
        }
    }
}

} // verus!
