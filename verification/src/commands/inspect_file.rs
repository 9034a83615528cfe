use vstd::prelude::*;

use crate::error::app_error::{AppError, AppErrorSpec};
use crate::models::file_info::FileInfo;
use crate::models::parse_options::{DelimiterOption, EncodingOption};
use crate::parser::decoder::spec_file_records;
use crate::parser::delimited_parser::{
    check_duplicate_headers, spec_first_duplicate, spec_header_outcome, DelimitedReader,
};
use crate::parser::delimiter::{delimiter_label, spec_delimiter_label};
use crate::parser::encoding::DetectedEncoding;
use crate::parser::reader::{
    decode_to_string, resolve_delimiter, resolve_encoding, spec_resolve_delimiter,
    spec_resolve_encoding,
};
use crate::text::owned;

verus! {

/// The warning shown when an encoding that was to be detected could not be
/// detected reliably.
pub open spec fn spec_encoding_warning_text() -> Seq<char> {
    "無法可靠判斷文字編碼，請手動指定 Encoding。"@
}

/// What inspecting file contents finds: the encoding and whether it is
/// reliable, the delimiter and the header, or the first problem met.
pub open spec fn spec_inspect(bytes: Seq<u8>, encoding_option: EncodingOption, delimiter_option: DelimiterOption) -> Result<(DetectedEncoding, bool, u8, Seq<Seq<char>>), AppErrorSpec> {
    let (encoding, confident) = spec_resolve_encoding(bytes, encoding_option);
    match spec_resolve_delimiter(bytes, encoding, delimiter_option) {
        Err(e) => Err(e),
        Ok(d) => match spec_header_outcome(spec_file_records(bytes, encoding, d)) {
            Err(e) => Err(e),
            Ok(headers) => match spec_first_duplicate(headers, headers) {
                Some(name) => Err(AppErrorSpec::DuplicateHeader(name)),
                None => Ok((encoding, confident, d, headers)),
            },
        },
    }
}

/// Inspects the contents of the file at `path`: its encoding (with a warning
/// when detection was asked for and is unreliable), its delimiter and its
/// header. The number of rows is not counted.
pub fn inspect_file(path: String, bytes: &[u8], encoding: EncodingOption, delimiter: DelimiterOption) -> (r: Result<FileInfo, AppError>)
    ensures
        match r {
            Ok(info) => match spec_inspect(bytes@, encoding, delimiter) {
                Ok((enc, confident, d, headers)) => {
                    &&& info.path@ == path@
                    &&& info.encoding@ == enc.spec_label()
                    &&& info.encoding_confident == confident
                    &&& info.encoding_warning.deep_view() == if encoding == EncodingOption::Auto && !confident {
                        Some(spec_encoding_warning_text())
                    } else {
                        None
                    }
                    &&& info.delimiter@ == spec_delimiter_label(d)
                    &&& info.delimiter_confident
                    &&& info.headers.deep_view() == headers
                    &&& info.row_count is None
                },
                Err(_) => false,
            },
            Err(e) => spec_inspect(bytes@, encoding, delimiter) == Err::<(DetectedEncoding, bool, u8, Seq<Seq<char>>), AppErrorSpec>(e.deep_view()),
        },
{
    let (detected, confident) = resolve_encoding(bytes, encoding);
    let encoding_label = owned(detected.label());
    let encoding_warning = if encoding == EncodingOption::Auto && !confident {
        Some(owned("無法可靠判斷文字編碼，請手動指定 Encoding。"))
    } else {
        None
    };
    let delim = resolve_delimiter(bytes, detected, delimiter)?;
    let delim_label = delimiter_label(delim);
    let text = decode_to_string(bytes, detected);
    let reader = DelimitedReader::new(text.as_str(), delim, false)?;
    let headers = reader.headers().clone();
    check_duplicate_headers(&headers)?;
    Ok(FileInfo {
        path,
        encoding: encoding_label,
        encoding_confident: confident,
        encoding_warning,
        delimiter: delim_label,
        delimiter_confident: true,
        headers,
        row_count: None,
    })
}

} // verus!
