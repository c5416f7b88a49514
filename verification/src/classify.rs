//! The file classifier: size check, binary heuristic over the leading bytes,
//! lossy text decoding, and the resulting classification of one file.

use vstd::prelude::*;

use crate::numfmt::{get_file_size, size_str_spec};
use crate::tokenizer::{tokens_of, Scheme, Tokenizer};

verus! {

/// The text that lossy UTF-8 decoding yields for `bytes`: a function of the
/// bytes alone, with invalid sequences turned into replacement characters.
pub uninterp spec fn lossy_utf8_of(bytes: Seq<u8>) -> Seq<char>;

/// Relies on alloc::string::String::from_utf8_lossy: the decoded text depends
/// on the bytes alone, and no bytes decode to no text.
#[verifier::external_body]
fn decode_lossy(raw: &Vec<u8>) -> (r: String)
    ensures
        r@ == lossy_utf8_of(raw@),
        raw@.len() == 0 ==> r@.len() == 0,
{
    String::from_utf8_lossy(raw).into_owned()
}

/// Whether one of the first fifty bytes is a control byte at or below 0x08,
/// the heuristic for non-text data.
pub open spec fn has_binary_prefix(raw: Seq<u8>) -> bool {
    exists|i: int| 0 <= i < raw.len() && i < 50 && raw[i] <= 0x08
}

fn binary_prefix(raw: &Vec<u8>) -> (r: bool)
    ensures
        r == has_binary_prefix(raw@),
{
    let limit = if raw.len() < 50 {
        raw.len()
    } else {
        50
    };
    let mut i: usize = 0;
    while i < limit
        invariant
            raw@.len() < 50 ==> limit == raw@.len(),
            raw@.len() >= 50 ==> limit == 50,
            0 <= i <= limit,
            forall|j: int| 0 <= j < i ==> raw@[j] > 0x08,
        decreases limit - i,
    {
        if raw[i] <= 0x08 {
            assert(has_binary_prefix(raw@));
            return true;
        }
        i += 1;
    }
    assert(!has_binary_prefix(raw@));
    false
}

pub(crate) fn contains_replacement(s: &str) -> (r: bool)
    ensures
        r == s@.contains('\u{FFFD}'),
{
    let mut found = false;
    for c in it: s.chars()
        invariant
            it.seq() == s@,
            found <==> exists|j: int| 0 <= j < it.index() && s@[j] == '\u{FFFD}',
    {
        if c == '\u{FFFD}' {
            found = true;
            proof {
                assert(s@[it.index() as int] == '\u{FFFD}');
            }
        }
    }
    proof {
        assert(found == s@.contains('\u{FFFD}')) by {
            if s@.contains('\u{FFFD}') {
                let j = choose|j: int| 0 <= j < s@.len() && s@[j] == '\u{FFFD}';
                assert(0 <= j < s@.len() && s@[j] == '\u{FFFD}');
            }
        }
    }
    found
}

/// The outcome of classifying one visited file.
#[derive(Clone, Copy, Debug, PartialEq, Eq, Structural)]
pub enum Classification {
    /// Non-empty decodable text; `token_count` tokens.
    Valid { token_count: usize },
    /// The decoded content has zero length.
    Empty,
    /// Heuristically detected as non-text.
    Binary,
    /// Decodable only through replacement characters.
    InvalidEncoding,
    /// The raw size exceeds the configured maximum; content not decoded.
    Oversized,
}

/// The classification policy: the size check comes first, then the binary
/// heuristic over the leading bytes, then the decoded content decides.
pub open spec fn classification_of(
    raw: Seq<u8>,
    size: u64,
    max_size: u64,
    scheme: Scheme,
) -> Classification {
    if size > max_size {
        Classification::Oversized
    } else if has_binary_prefix(raw) {
        Classification::Binary
    } else if lossy_utf8_of(raw).len() == 0 {
        Classification::Empty
    } else if lossy_utf8_of(raw).contains('\u{FFFD}') {
        Classification::InvalidEncoding
    } else {
        Classification::Valid {
            token_count: tokens_of(scheme.name_seq(), lossy_utf8_of(raw)) as usize,
        }
    }
}

/// Classifies one file from its raw bytes and size; the bytes are not looked
/// at when the size alone decides.
pub fn classify_bytes(raw: &Vec<u8>, size: u64, max_size: u64, tok: &Tokenizer) -> (c:
    Classification)
    ensures
        c == classification_of(raw@, size, max_size, tok.scheme_spec()),
{
    if size > max_size {
        Classification::Oversized
    } else if binary_prefix(raw) {
        Classification::Binary
    } else {
        let text = decode_lossy(raw);
        if text.as_str().is_empty() {
            Classification::Empty
        } else if contains_replacement(text.as_str()) {
            Classification::InvalidEncoding
        } else {
            let n = tok.token_count(text.as_str());
            Classification::Valid { token_count: n }
        }
    }
}

/// A file read for token counting: its raw bytes, its size rendered with a
/// fitting unit, and (once decoded) its text.
pub struct FileToken {
    pub raw: Vec<u8>,
    pub size: String,
    pub string: String,
}

impl FileToken {
    /// Packs raw content and size; the text stays empty until `not_binary`
    /// decodes it.
    pub fn new(raw: Vec<u8>, size: u64) -> (t: FileToken)
        ensures
            t.raw@ == raw@,
            t.size@ == size_str_spec(size as nat),
            t.string@ == Seq::<char>::empty(),
    {
        FileToken { raw, size: get_file_size(size), string: String::new() }
    }

    /// Applies the binary heuristic to the leading bytes; when the content is
    /// not binary, decodes it (lossily) into `string`.
    pub fn not_binary(&mut self) -> (r: bool)
        ensures
            r == !has_binary_prefix(old(self).raw@),
            final(self).raw@ == old(self).raw@,
            final(self).size == old(self).size,
            r ==> final(self).string@ == lossy_utf8_of(old(self).raw@),
            !r ==> final(self).string == old(self).string,
    {
        if binary_prefix(&self.raw) {
            false
        } else {
            self.string = decode_lossy(&self.raw);
            true
        }
    }
}

/// A byte sequence whose leading bytes (the first fifty, or all of them when
/// there are fewer) hold no value at or below 0x08 is never classified
/// binary, whatever the sizes and the scheme.
pub proof fn lemma_no_control_bytes_never_binary(
    raw: Seq<u8>,
    size: u64,
    max_size: u64,
    scheme: Scheme,
)
    requires
        forall|i: int| 0 <= i < raw.len() && i < 50 ==> raw[i] > 0x08,
    ensures
        classification_of(raw, size, max_size, scheme) != Classification::Binary,
{
    if has_binary_prefix(raw) {
        let i = choose|i: int| 0 <= i < raw.len() && i < 50 && raw[i] <= 0x08;
        assert(raw[i] > 0x08);
    }
}

/// Content that decodes to the empty string is classified empty whenever the
/// size allows reading it and the binary heuristic does not strike,
/// whatever the bytes themselves are.
pub proof fn lemma_empty_decoded_is_empty(raw: Seq<u8>, size: u64, max_size: u64, scheme: Scheme)
    requires
        size <= max_size,
        !has_binary_prefix(raw),
        lossy_utf8_of(raw).len() == 0,
    ensures
        classification_of(raw, size, max_size, scheme) == Classification::Empty,
{
}

/// A raw size above the cap is classified oversized, whatever the bytes.
pub proof fn lemma_oversized(raw: Seq<u8>, size: u64, max_size: u64, scheme: Scheme)
    requires
        size > max_size,
    ensures
        classification_of(raw, size, max_size, scheme) == Classification::Oversized,
{
}

/// With an unlimited size cap no file is ever classified oversized.
pub proof fn lemma_unlimited_never_oversized(raw: Seq<u8>, size: u64, scheme: Scheme)
    ensures
        classification_of(raw, size, u64::MAX, scheme) != Classification::Oversized,
{
}

} // verus!
