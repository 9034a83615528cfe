use vstd::prelude::*;

use crate::error::app_error::{AppError, AppErrorSpec};
use crate::models::parse_options::{DelimiterOption, EncodingOption};
use crate::text::owned;

use super::delimiter::{detect_delimiter, spec_detect_delimiter};
use super::encoding::{detect_encoding, spec_detect_encoding, DetectedEncoding};

verus! {

/// How many leading bytes of a file encoding detection looks at.
pub const ENCODING_SAMPLE_BYTES: usize = 131072;

/// How many leading bytes of a file delimiter detection looks at.
pub const DELIMITER_SAMPLE_BYTES: usize = 262144;

/// The text that `encoding_rs` decodes from `bytes` with the encoding of the
/// given name, a byte-order mark at the start taking precedence and malformed
/// sequences becoming U+FFFD.
pub uninterp spec fn encoding_rs_decode(encoding_name: Seq<char>, bytes: Seq<u8>) -> Seq<char>;

/// The WHATWG decoders that files are read with.
#[derive(Clone, Copy, Debug, PartialEq, Eq, Structural)]
pub enum WhatwgDecoder {
    Utf8,
    Big5,
    Utf16Le,
    Utf16Be,
}

impl WhatwgDecoder {
    /// The decoder's name in `encoding_rs`.
    pub open spec fn spec_name(self) -> Seq<char> {
        match self {
            WhatwgDecoder::Utf8 => "UTF-8"@,
            WhatwgDecoder::Big5 => "Big5"@,
            WhatwgDecoder::Utf16Le => "UTF-16LE"@,
            WhatwgDecoder::Utf16Be => "UTF-16BE"@,
        }
    }
}

/// The decoder a detected encoding is read with: CP950 is read with the Big5
/// decoder, whose WHATWG definition covers it.
pub fn decoder_for(encoding: DetectedEncoding) -> (d: WhatwgDecoder)
    ensures
        d.spec_name() == encoding.spec_encoding(),
{
    match encoding {
        DetectedEncoding::Utf8 => WhatwgDecoder::Utf8,
        DetectedEncoding::Big5 | DetectedEncoding::Cp950 => WhatwgDecoder::Big5,
        DetectedEncoding::Utf16Le => WhatwgDecoder::Utf16Le,
        DetectedEncoding::Utf16Be => WhatwgDecoder::Utf16Be,
    }
}

/// `encoding_rs::Encoding::decode` with the `encoding_rs` encoding of the same
/// name as `decoder`, the result taken as an owned string. Its result is named:
/// it is the WHATWG decoder of that encoding.
#[verifier::external_body]
fn decode_with(bytes: &[u8], decoder: WhatwgDecoder) -> (s: String)
    ensures
        s@ == encoding_rs_decode(decoder.spec_name(), bytes@),
{
    let enc = match decoder {
        WhatwgDecoder::Utf8 => encoding_rs::UTF_8,
        WhatwgDecoder::Big5 => encoding_rs::BIG5,
        WhatwgDecoder::Utf16Le => encoding_rs::UTF_16LE,
        WhatwgDecoder::Utf16Be => encoding_rs::UTF_16BE,
    };
    enc.decode(bytes).0.into_owned()
}

/// The text of `bytes` in the given encoding, with `encoding_rs`: a byte-order
/// mark at the start takes precedence and malformed sequences become U+FFFD.
pub fn decode_to_string(bytes: &[u8], encoding: DetectedEncoding) -> (s: String)
    ensures
        s@ == encoding_rs_decode(encoding.spec_encoding(), bytes@),
{
    decode_with(bytes, decoder_for(encoding))
}

/// The first `max` bytes of `bytes`, or all of them when there are fewer.
pub open spec fn spec_prefix(bytes: Seq<u8>, max: nat) -> Seq<u8> {
    if bytes.len() <= max {
        bytes
    } else {
        bytes.take(max as int)
    }
}

fn prefix(bytes: &[u8], max: usize) -> (p: &[u8])
    ensures
        p@ == spec_prefix(bytes@, max as nat),
{
    if bytes.len() <= max {
        bytes
    } else {
        let p = vstd::slice::slice_subrange(bytes, 0, max);
        proof {
            assert(p@ =~= bytes@.take(max as int));
        }
        p
    }
}

/// The encoding a file is read with, and whether it is reliable: the one asked
/// for, or the one detected in the file's first bytes.
pub open spec fn spec_resolve_encoding(bytes: Seq<u8>, option: EncodingOption) -> (DetectedEncoding, bool) {
    match option {
        EncodingOption::Utf8 => (DetectedEncoding::Utf8, true),
        EncodingOption::Big5 => (DetectedEncoding::Big5, true),
        EncodingOption::Cp950 => (DetectedEncoding::Cp950, true),
        EncodingOption::Utf16Le => (DetectedEncoding::Utf16Le, true),
        EncodingOption::Utf16Be => (DetectedEncoding::Utf16Be, true),
        EncodingOption::Auto => spec_detect_encoding(spec_prefix(bytes, ENCODING_SAMPLE_BYTES as nat)),
    }
}

/// Resolve the concrete encoding for file contents given a (possibly Auto)
/// option. Returns the encoding and whether the result is reliable.
pub fn resolve_encoding(bytes: &[u8], option: EncodingOption) -> (r: (DetectedEncoding, bool))
    ensures
        r == spec_resolve_encoding(bytes@, option),
{
    match option {
        EncodingOption::Utf8 => (DetectedEncoding::Utf8, true),
        EncodingOption::Big5 => (DetectedEncoding::Big5, true),
        EncodingOption::Cp950 => (DetectedEncoding::Cp950, true),
        EncodingOption::Utf16Le => (DetectedEncoding::Utf16Le, true),
        EncodingOption::Utf16Be => (DetectedEncoding::Utf16Be, true),
        EncodingOption::Auto => detect_encoding(prefix(bytes, ENCODING_SAMPLE_BYTES)),
    }
}

/// The message for a custom delimiter that is not a single byte.
pub open spec fn spec_custom_delimiter_text() -> Seq<char> {
    "自訂分隔符號僅支援單一位元組字元（ASCII）。"@
}

/// The delimiter a file is read with: the one asked for, or the one detected
/// in the file's first bytes decoded with `encoding`. A custom delimiter must
/// be one byte in UTF-8, that is, below U+0080.
pub open spec fn spec_resolve_delimiter(bytes: Seq<u8>, encoding: DetectedEncoding, option: DelimiterOption) -> Result<u8, AppErrorSpec> {
    match option {
        DelimiterOption::Comma => Ok(0x2Cu8),
        DelimiterOption::Semicolon => Ok(0x3Bu8),
        DelimiterOption::Tab => Ok(0x09u8),
        DelimiterOption::Pipe => Ok(0x7Cu8),
        DelimiterOption::Colon => Ok(0x3Au8),
        DelimiterOption::Custom(c) => if (c as u32) < 0x80 {
            Ok(c as u8)
        } else {
            Err(AppErrorSpec::Other(spec_custom_delimiter_text()))
        },
        DelimiterOption::Auto => match spec_detect_delimiter(
            encoding_rs_decode(encoding.spec_encoding(), spec_prefix(bytes, DELIMITER_SAMPLE_BYTES as nat)),
        ) {
            Some(d) => Ok(d),
            None => Err(AppErrorSpec::DelimiterDetectionError),
        },
    }
}

/// Resolve the concrete delimiter for file contents given a (possibly Auto) option.
pub fn resolve_delimiter(bytes: &[u8], encoding: DetectedEncoding, option: DelimiterOption) -> (r: Result<u8, AppError>)
    ensures
        match r {
            Ok(d) => spec_resolve_delimiter(bytes@, encoding, option) == Ok::<u8, AppErrorSpec>(d),
            Err(e) => spec_resolve_delimiter(bytes@, encoding, option) == Err::<u8, AppErrorSpec>(e.deep_view()),
        },
{
    match option {
        DelimiterOption::Comma => Ok(0x2C),
        DelimiterOption::Semicolon => Ok(0x3B),
        DelimiterOption::Tab => Ok(0x09),
        DelimiterOption::Pipe => Ok(0x7C),
        DelimiterOption::Colon => Ok(0x3A),
        DelimiterOption::Custom(c) => {
            if (c as u32) < 0x80 {
                Ok(c as u8)
            } else {
                Err(AppError::Other(owned("自訂分隔符號僅支援單一位元組字元（ASCII）。")))
            }
        },
        DelimiterOption::Auto => {
            let sample = prefix(bytes, DELIMITER_SAMPLE_BYTES);
            let decoded = decode_to_string(sample, encoding);
            match detect_delimiter(decoded.as_str()) {
                Some(d) => Ok(d),
                None => Err(AppError::DelimiterDetectionError),
            }
        },
    }
}

/// The last component of a path, when it has one, as `Path::file_name` finds it.
pub uninterp spec fn std_path_file_name(path: Seq<char>) -> Option<Seq<char>>;

/// `std::path::Path::file_name`, the name converted lossily to UTF-8 (a name
/// taken from a `&str` is valid UTF-8, so nothing is replaced). The result is
/// named: which components the platform's path syntax recognises is not stated.
#[verifier::external_body]
fn path_file_name(path: &str) -> (r: Option<String>)
    ensures
        r.deep_view() == std_path_file_name(path@),
{
    std::path::Path::new(path).file_name().map(|s| s.to_string_lossy().into_owned())
}

/// The name shown for a file: the last component of its path, or the whole path
/// when it has none.
pub open spec fn spec_file_name(path: Seq<char>) -> Seq<char> {
    match std_path_file_name(path) {
        Some(n) => n,
        None => path,
    }
}

pub fn file_name(path: &str) -> (s: String)
    ensures
        s@ == spec_file_name(path@),
{
    match path_file_name(path) {
        Some(n) => n,
        None => owned(path),
    }
}

} // verus!
