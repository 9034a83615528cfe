use vstd::prelude::*;

use crate::text::owned;

verus! {

/// The encoding that a file was found, or told, to be in.
#[derive(Debug, Clone, Copy, PartialEq, Eq, Structural)]
pub enum DetectedEncoding {
    Utf8,
    Big5,
    Utf16Le,
    Utf16Be,
    Cp950,
}

impl DetectedEncoding {
    /// The name under which the encoding is shown.
    pub open spec fn spec_label(self) -> Seq<char> {
        match self {
            DetectedEncoding::Utf8 => "UTF-8"@,
            DetectedEncoding::Big5 => "Big5"@,
            DetectedEncoding::Utf16Le => "UTF-16 LE"@,
            DetectedEncoding::Utf16Be => "UTF-16 BE"@,
            DetectedEncoding::Cp950 => "CP950"@,
        }
    }

    /// The name of the encoding that decodes it; CP950 is decoded as Big5.
    pub open spec fn spec_encoding(self) -> Seq<char> {
        match self {
            DetectedEncoding::Utf8 => "UTF-8"@,
            DetectedEncoding::Big5 | DetectedEncoding::Cp950 => "Big5"@,
            DetectedEncoding::Utf16Le => "UTF-16LE"@,
            DetectedEncoding::Utf16Be => "UTF-16BE"@,
        }
    }

    pub fn label(&self) -> (s: &'static str)
        ensures
            s@ == self.spec_label(),
    {
        match self {
            DetectedEncoding::Utf8 => "UTF-8",
            DetectedEncoding::Big5 => "Big5",
            DetectedEncoding::Utf16Le => "UTF-16 LE",
            DetectedEncoding::Utf16Be => "UTF-16 BE",
            DetectedEncoding::Cp950 => "CP950",
        }
    }

    /// The name of the encoding that decodes it; CP950 is decoded as Big5.
    pub fn encoding(&self) -> (s: &'static str)
        ensures
            s@ == self.spec_encoding(),
    {
        match self {
            DetectedEncoding::Utf8 => "UTF-8",
            DetectedEncoding::Big5 | DetectedEncoding::Cp950 => "Big5",
            DetectedEncoding::Utf16Le => "UTF-16LE",
            DetectedEncoding::Utf16Be => "UTF-16BE",
        }
    }
}

/// The name of the encoding that `chardetng` guesses for a complete input
/// (no top-level domain, UTF-8 allowed).
pub uninterp spec fn chardetng_guess(bytes: Seq<u8>) -> Seq<char>;

/// `chardetng::EncodingDetector`: a fresh detector is fed the whole input as
/// its last buffer, then `guess(None, true)` is asked; the result is the name of
/// the guessed `encoding_rs` encoding. Nothing more is stated: the guess rests
/// on frequency tables.
#[verifier::external_body]
fn guess_encoding_name(bytes: &[u8]) -> (name: String)
    ensures
        name@ == chardetng_guess(bytes@),
{
    let mut detector = chardetng::EncodingDetector::new();
    detector.feed(bytes, true);
    detector.guess(None, true).name().to_string()
}

/// `std::str::from_utf8` succeeds exactly on well-formed UTF-8.
#[verifier::external_body]
fn is_utf8(bytes: &[u8]) -> (r: bool)
    ensures
        r == vstd::utf8::valid_utf8(bytes@),
{
    std::str::from_utf8(bytes).is_ok()
}

/// Whether `bytes` begins with `prefix`.
pub open spec fn spec_starts_with(bytes: Seq<u8>, prefix: Seq<u8>) -> bool {
    prefix.len() <= bytes.len() && bytes.take(prefix.len() as int) == prefix
}

/// What a guessed encoding name is taken to mean, and whether it is trusted.
pub open spec fn spec_from_guess(name: Seq<char>) -> (DetectedEncoding, bool) {
    if name == "UTF-8"@ {
        (DetectedEncoding::Utf8, true)
    } else if name == "UTF-16LE"@ {
        (DetectedEncoding::Utf16Le, true)
    } else if name == "UTF-16BE"@ {
        (DetectedEncoding::Utf16Be, true)
    } else if name == "Big5"@ {
        (DetectedEncoding::Big5, true)
    } else {
        (DetectedEncoding::Cp950, false)
    }
}

/// The encoding of a sample: a byte-order mark decides first, then well-formed
/// UTF-8 is taken as UTF-8, then the detector's guess; anything else falls back
/// to CP950, flagged as unreliable.
pub open spec fn spec_detect_encoding(bytes: Seq<u8>) -> (DetectedEncoding, bool) {
    if spec_starts_with(bytes, seq![0xEFu8, 0xBBu8, 0xBFu8]) {
        (DetectedEncoding::Utf8, true)
    } else if spec_starts_with(bytes, seq![0xFFu8, 0xFEu8]) {
        (DetectedEncoding::Utf16Le, true)
    } else if spec_starts_with(bytes, seq![0xFEu8, 0xFFu8]) {
        (DetectedEncoding::Utf16Be, true)
    } else if spec_starts_with(bytes, seq![0x00u8, 0x00u8, 0xFEu8, 0xFFu8]) {
        (DetectedEncoding::Utf16Be, true)
    } else if vstd::utf8::valid_utf8(bytes) {
        (DetectedEncoding::Utf8, true)
    } else {
        spec_from_guess(chardetng_guess(bytes))
    }
}

fn starts_with(bytes: &[u8], prefix: &[u8]) -> (r: bool)
    ensures
        r == spec_starts_with(bytes@, prefix@),
{
    if prefix.len() > bytes.len() {
        return false;
    }
    let mut i: usize = 0;
    while i < prefix.len()
        invariant
            prefix@.len() <= bytes@.len(),
            i <= prefix.len(),
            forall|t: int| 0 <= t < i ==> bytes@[t] == prefix@[t],
        decreases prefix.len() - i,
    {
        if bytes[i] != prefix[i] {
            proof {
                assert(bytes@.take(prefix@.len() as int)[i as int] != prefix@[i as int]);
            }
            return false;
        }
        i = i + 1;
    }
    proof {
        assert(bytes@.take(prefix@.len() as int) =~= prefix@);
    }
    true
}

/// Detect the encoding of raw sample bytes.
/// Returns the encoding and whether the detection is reliable.
pub fn detect_encoding(bytes: &[u8]) -> (r: (DetectedEncoding, bool))
    ensures
        r == spec_detect_encoding(bytes@),
{
    let bom8: [u8; 3] = [0xEF, 0xBB, 0xBF];
    let le: [u8; 2] = [0xFF, 0xFE];
    let be: [u8; 2] = [0xFE, 0xFF];
    let be32: [u8; 4] = [0x00, 0x00, 0xFE, 0xFF];
    proof {
        assert(bom8@ =~= seq![0xEFu8, 0xBBu8, 0xBFu8]);
        assert(le@ =~= seq![0xFFu8, 0xFEu8]);
        assert(be@ =~= seq![0xFEu8, 0xFFu8]);
        assert(be32@ =~= seq![0x00u8, 0x00u8, 0xFEu8, 0xFFu8]);
    }
    if starts_with(bytes, &bom8) {
        return (DetectedEncoding::Utf8, true);
    }
    if starts_with(bytes, &le) {
        return (DetectedEncoding::Utf16Le, true);
    }
    if starts_with(bytes, &be) {
        return (DetectedEncoding::Utf16Be, true);
    }
    if starts_with(bytes, &be32) {
        return (DetectedEncoding::Utf16Be, true);
    }
    if is_utf8(bytes) {
        return (DetectedEncoding::Utf8, true);
    }
    let guessed = guess_encoding_name(bytes);
    if guessed == owned("UTF-8") {
        return (DetectedEncoding::Utf8, true);
    }
    if guessed == owned("UTF-16LE") {
        return (DetectedEncoding::Utf16Le, true);
    }
    if guessed == owned("UTF-16BE") {
        return (DetectedEncoding::Utf16Be, true);
    }
    if guessed == owned("Big5") {
        return (DetectedEncoding::Big5, true);
    }
    // Fallback for traditional Chinese environments (Big5 / CP950).
    (DetectedEncoding::Cp950, false)
}

/// No byte-order mark that detection recognises opens `bytes`.
pub open spec fn spec_no_bom(bytes: Seq<u8>) -> bool {
    &&& !(bytes.len() >= 3 && bytes[0] == 0xEFu8 && bytes[1] == 0xBBu8 && bytes[2] == 0xBFu8)
    &&& !(bytes.len() >= 2 && bytes[0] == 0xFFu8 && bytes[1] == 0xFEu8)
    &&& !(bytes.len() >= 2 && bytes[0] == 0xFEu8 && bytes[1] == 0xFFu8)
    &&& !(bytes.len() >= 4 && bytes[0] == 0x00u8 && bytes[1] == 0x00u8 && bytes[2] == 0xFEu8 && bytes[3] == 0xFFu8)
}

/// Law: without a byte-order mark, bytes that are not UTF-8 are taken as the
/// encoding that chardetng names when it names UTF-8, UTF-16LE, UTF-16BE or
/// Big5, and then reliably; only a guess outside these four falls back to
/// CP950, flagged as unreliable.
pub proof fn law_detection_follows_the_guess(bytes: Seq<u8>)
    requires
        spec_no_bom(bytes),
        !vstd::utf8::valid_utf8(bytes),
    ensures
        chardetng_guess(bytes) == "Big5"@ ==> spec_detect_encoding(bytes) == (DetectedEncoding::Big5, true),
        chardetng_guess(bytes) == "UTF-8"@ ==> spec_detect_encoding(bytes) == (DetectedEncoding::Utf8, true),
        chardetng_guess(bytes) == "UTF-16LE"@ ==> spec_detect_encoding(bytes) == (DetectedEncoding::Utf16Le, true),
        chardetng_guess(bytes) == "UTF-16BE"@ ==> spec_detect_encoding(bytes) == (DetectedEncoding::Utf16Be, true),
        spec_detect_encoding(bytes).1 <==> (chardetng_guess(bytes) == "Big5"@ || chardetng_guess(bytes) == "UTF-8"@
            || chardetng_guess(bytes) == "UTF-16LE"@ || chardetng_guess(bytes) == "UTF-16BE"@),
        !spec_detect_encoding(bytes).1 ==> spec_detect_encoding(bytes).0 == DetectedEncoding::Cp950,
{
    lemma_no_bom_prefix(bytes);
    reveal_strlit("UTF-8");
    reveal_strlit("UTF-16LE");
    reveal_strlit("UTF-16BE");
    reveal_strlit("Big5");
    assert("Big5"@.len() == 4 && "UTF-8"@.len() == 5 && "UTF-16LE"@.len() == 8 && "UTF-16BE"@.len() == 8);
    assert("UTF-16LE"@[6] != "UTF-16BE"@[6]);
    assert("Big5"@ != "UTF-8"@ && "Big5"@ != "UTF-16LE"@ && "Big5"@ != "UTF-16BE"@);
    assert("UTF-16LE"@ != "UTF-16BE"@ && "UTF-8"@ != "UTF-16BE"@ && "UTF-8"@ != "UTF-16LE"@);
}

/// Law: a byte-order mark decides, and reliably: EF BB BF is UTF-8, FF FE is
/// UTF-16LE, FE FF (alone or after 00 00) is UTF-16BE; without one, well-formed
/// UTF-8 is UTF-8.
pub proof fn law_bom_decides(bytes: Seq<u8>)
    ensures
        bytes.len() >= 3 && bytes[0] == 0xEFu8 && bytes[1] == 0xBBu8 && bytes[2] == 0xBFu8
            ==> spec_detect_encoding(bytes) == (DetectedEncoding::Utf8, true),
        bytes.len() >= 2 && bytes[0] == 0xFFu8 && bytes[1] == 0xFEu8 ==> spec_detect_encoding(bytes) == (DetectedEncoding::Utf16Le, true),
        bytes.len() >= 2 && bytes[0] == 0xFEu8 && bytes[1] == 0xFFu8 ==> spec_detect_encoding(bytes) == (DetectedEncoding::Utf16Be, true),
        bytes.len() >= 4 && bytes[0] == 0x00u8 && bytes[1] == 0x00u8 && bytes[2] == 0xFEu8 && bytes[3] == 0xFFu8
            ==> spec_detect_encoding(bytes) == (DetectedEncoding::Utf16Be, true),
        vstd::utf8::valid_utf8(bytes) ==> spec_detect_encoding(bytes).1,
        spec_no_bom(bytes) && vstd::utf8::valid_utf8(bytes) ==> spec_detect_encoding(bytes) == (DetectedEncoding::Utf8, true),
{
    if spec_no_bom(bytes) {
        lemma_no_bom_prefix(bytes);
    }
    if bytes.len() >= 3 && bytes[0] == 0xEFu8 && bytes[1] == 0xBBu8 && bytes[2] == 0xBFu8 {
        assert(bytes.take(3) =~= seq![0xEFu8, 0xBBu8, 0xBFu8]);
    }
    if bytes.len() >= 2 && bytes[0] == 0xFFu8 && bytes[1] == 0xFEu8 {
        assert(bytes.take(2) =~= seq![0xFFu8, 0xFEu8]);
        assert(!spec_starts_with(bytes, seq![0xEFu8, 0xBBu8, 0xBFu8]) || bytes.take(3)[0] == 0xEFu8);
    }
    if bytes.len() >= 2 && bytes[0] == 0xFEu8 && bytes[1] == 0xFFu8 {
        assert(bytes.take(2) =~= seq![0xFEu8, 0xFFu8]);
        if spec_starts_with(bytes, seq![0xEFu8, 0xBBu8, 0xBFu8]) {
            assert(bytes.take(3)[0] == 0xEFu8);
        }
        if spec_starts_with(bytes, seq![0xFFu8, 0xFEu8]) {
            assert(bytes.take(2)[0] == 0xFFu8);
        }
    }
    if bytes.len() >= 4 && bytes[0] == 0x00u8 && bytes[1] == 0x00u8 && bytes[2] == 0xFEu8 && bytes[3] == 0xFFu8 {
        assert(bytes.take(4) =~= seq![0x00u8, 0x00u8, 0xFEu8, 0xFFu8]);
        if spec_starts_with(bytes, seq![0xEFu8, 0xBBu8, 0xBFu8]) {
            assert(bytes.take(3)[0] == 0xEFu8);
        }
        if spec_starts_with(bytes, seq![0xFFu8, 0xFEu8]) {
            assert(bytes.take(2)[0] == 0xFFu8);
        }
        if spec_starts_with(bytes, seq![0xFEu8, 0xFFu8]) {
            assert(bytes.take(2)[0] == 0xFEu8);
        }
    }
}

/// Without a byte-order mark, none of the marks' prefixes match.
proof fn lemma_no_bom_prefix(bytes: Seq<u8>)
    requires
        spec_no_bom(bytes),
    ensures
        !spec_starts_with(bytes, seq![0xEFu8, 0xBBu8, 0xBFu8]),
        !spec_starts_with(bytes, seq![0xFFu8, 0xFEu8]),
        !spec_starts_with(bytes, seq![0xFEu8, 0xFFu8]),
        !spec_starts_with(bytes, seq![0x00u8, 0x00u8, 0xFEu8, 0xFFu8]),
{
    if spec_starts_with(bytes, seq![0xEFu8, 0xBBu8, 0xBFu8]) {
        assert(bytes.take(3)[0] == bytes[0] && bytes.take(3)[1] == bytes[1] && bytes.take(3)[2] == bytes[2]);
    }
    if spec_starts_with(bytes, seq![0xFFu8, 0xFEu8]) {
        assert(bytes.take(2)[0] == bytes[0] && bytes.take(2)[1] == bytes[1]);
    }
    if spec_starts_with(bytes, seq![0xFEu8, 0xFFu8]) {
        assert(bytes.take(2)[0] == bytes[0] && bytes.take(2)[1] == bytes[1]);
    }
    if spec_starts_with(bytes, seq![0x00u8, 0x00u8, 0xFEu8, 0xFFu8]) {
        assert(bytes.take(4)[0] == bytes[0] && bytes.take(4)[1] == bytes[1] && bytes.take(4)[2] == bytes[2]
            && bytes.take(4)[3] == bytes[3]);
    }
}

} // verus!
