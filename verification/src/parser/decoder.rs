use vstd::prelude::*;

use crate::error::app_error::{AppError, AppErrorSpec};
use crate::models::parse_options::{DelimiterOption, EncodingOption};
use crate::text::owned;

use super::delimited_parser::{csv_records, spec_first_duplicate, spec_header_outcome, DelimitedReader};
use super::delimiter::{delimiter_label, spec_delimiter_label};
use super::encoding::DetectedEncoding;
use super::reader::{
    decode_to_string, encoding_rs_decode, resolve_delimiter, resolve_encoding,
    spec_resolve_delimiter, spec_resolve_encoding,
};

verus! {

/// The encoding and delimiter that file contents are read with, or why they
/// cannot be settled: an encoding that was to be detected and could not be
/// detected reliably, or the delimiter's own problem.
pub open spec fn spec_open_settings(bytes: Seq<u8>, encoding_option: EncodingOption, delimiter_option: DelimiterOption) -> Result<(DetectedEncoding, u8), AppErrorSpec> {
    let (encoding, confident) = spec_resolve_encoding(bytes, encoding_option);
    if encoding_option == EncodingOption::Auto && !confident {
        Err(AppErrorSpec::EncodingDetectionError)
    } else {
        match spec_resolve_delimiter(bytes, encoding, delimiter_option) {
            Ok(d) => Ok((encoding, d)),
            Err(e) => Err(e),
        }
    }
}

/// The records that the contents of a file are read into with given settings.
pub open spec fn spec_file_records(bytes: Seq<u8>, encoding: DetectedEncoding, delimiter: u8) -> Seq<(bool, Seq<Seq<char>>)> {
    csv_records(encoding_rs_decode(encoding.spec_encoding(), bytes), delimiter)
}

/// Open file contents and produce a delimited reader using the given options,
/// with the labels of the encoding and delimiter that were used. Auto encoding
/// and delimiter are resolved from the leading bytes before parsing.
pub fn open_delimited_reader(
    bytes: &[u8],
    encoding_option: EncodingOption,
    delimiter_option: DelimiterOption,
    strict: bool,
) -> (r: Result<(DelimitedReader, String, String), AppError>)
    ensures
        match r {
            Ok((reader, encoding_label, delimiter_label)) => match spec_open_settings(bytes@, encoding_option, delimiter_option) {
                Ok((encoding, delimiter)) => {
                    &&& reader.wf()
                    &&& reader.entries() == spec_file_records(bytes@, encoding, delimiter)
                    &&& spec_header_outcome(reader.entries()) == Ok::<Seq<Seq<char>>, AppErrorSpec>(reader.headers_view())
                    &&& reader.is_strict() == strict
                    &&& reader.position() == 1
                    &&& reader.records_read() == 0
                    &&& !reader.at_end()
                    &&& encoding_label@ == encoding.spec_label()
                    &&& delimiter_label@ == spec_delimiter_label(delimiter)
                },
                Err(_) => false,
            },
            Err(e) => match spec_open_settings(bytes@, encoding_option, delimiter_option) {
                Ok((encoding, delimiter)) => spec_header_outcome(spec_file_records(bytes@, encoding, delimiter))
                    == Err::<Seq<Seq<char>>, AppErrorSpec>(e.deep_view()),
                Err(x) => e.deep_view() == x,
            },
        },
{
    let (encoding, confident) = resolve_encoding(bytes, encoding_option);
    if encoding_option == EncodingOption::Auto && !confident {
        return Err(AppError::EncodingDetectionError);
    }
    let delimiter = resolve_delimiter(bytes, encoding, delimiter_option)?;
    let text = decode_to_string(bytes, encoding);
    let reader = DelimitedReader::new(text.as_str(), delimiter, strict)?;
    let encoding_label = owned(encoding.label());
    let delimiter_label = delimiter_label(delimiter);
    Ok((reader, encoding_label, delimiter_label))
}

/// A file as it has been opened: how it was read, its header, and all that was
/// read from it, header included.
pub struct OpenedFileSpec {
    pub encoding: DetectedEncoding,
    pub delimiter: u8,
    pub headers: Seq<Seq<char>>,
    pub entries: Seq<(bool, Seq<Seq<char>>)>,
}

/// File contents opened with the given options and their header checked, or
/// the first problem met: the settings, the header, a header name given twice.
pub open spec fn spec_open_file(bytes: Seq<u8>, encoding_option: EncodingOption, delimiter_option: DelimiterOption) -> Result<OpenedFileSpec, AppErrorSpec> {
    match spec_open_settings(bytes, encoding_option, delimiter_option) {
        Err(e) => Err(e),
        Ok((encoding, delimiter)) => {
            let entries = spec_file_records(bytes, encoding, delimiter);
            match spec_header_outcome(entries) {
                Err(e) => Err(e),
                Ok(headers) => match spec_first_duplicate(headers, headers) {
                    Some(name) => Err(AppErrorSpec::DuplicateHeader(name)),
                    None => Ok(OpenedFileSpec { encoding, delimiter, headers, entries }),
                },
            }
        },
    }
}

/// Law: with automatic encoding, a file whose first bytes carry no byte-order
/// mark, are not UTF-8, and are guessed Big5 by chardetng is read as Big5: the
/// settings are not refused for an unreliable detection.
pub proof fn law_auto_reads_guessed_big5_as_big5(bytes: Seq<u8>, delimiter_option: DelimiterOption)
    requires
        super::encoding::spec_no_bom(super::reader::spec_prefix(bytes, super::reader::ENCODING_SAMPLE_BYTES as nat)),
        !vstd::utf8::valid_utf8(super::reader::spec_prefix(bytes, super::reader::ENCODING_SAMPLE_BYTES as nat)),
        super::encoding::chardetng_guess(super::reader::spec_prefix(bytes, super::reader::ENCODING_SAMPLE_BYTES as nat)) == "Big5"@,
    ensures
        spec_open_settings(bytes, EncodingOption::Auto, delimiter_option) != Err::<(DetectedEncoding, u8), AppErrorSpec>(
            AppErrorSpec::EncodingDetectionError,
        ),
        spec_open_settings(bytes, EncodingOption::Auto, delimiter_option) matches Ok((e, _)) ==> e == DetectedEncoding::Big5,
{
    super::encoding::law_detection_follows_the_guess(
        super::reader::spec_prefix(bytes, super::reader::ENCODING_SAMPLE_BYTES as nat),
    );
}

} // verus!
