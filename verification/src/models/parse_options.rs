use vstd::prelude::*;

verus! {

/// Text encoding requested for a source file.
#[derive(Debug, Clone, Copy, PartialEq, Eq, Structural)]
pub enum EncodingOption {
    Auto,
    Utf8,
    Big5,
    Cp950,
    Utf16Le,
    Utf16Be,
}

/// Field delimiter requested for a source file.
#[derive(Debug, Clone, Copy, PartialEq, Eq, Structural)]
pub enum DelimiterOption {
    Auto,
    Comma,
    Semicolon,
    Tab,
    Pipe,
    Colon,
    Custom(char),
}

/// How one source file is to be read.
#[derive(Debug, Clone, Copy)]
pub struct ParseOptions {
    pub encoding: EncodingOption,
    pub delimiter: DelimiterOption,
}

} // verus!
