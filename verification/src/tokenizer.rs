//! The tokenizer adapter: a fixed set of encoding schemes, each backed by an
//! externally supplied byte-pair encoder, exposed as `token_count`.

use vstd::prelude::*;
use vstd::string::StringExecFns;

use crate::error::MyError;

verus! {

/// Declares tiktoken_rs::CoreBPE, the externally supplied byte-pair encoder,
/// so that it can stand in fields; it stays opaque to verification.
#[verifier::external_type_specification]
#[verifier::external_body]
pub struct ExCoreBPE(tiktoken_rs::CoreBPE);

/// The five supported encoding schemes.
#[derive(Clone, Copy, Debug, PartialEq, Eq, Structural)]
pub enum Scheme {
    O200kBase,
    Cl100kBase,
    P50kBase,
    P50kEdit,
    R50kBase,
}

impl Scheme {
    /// The canonical name of the scheme.
    pub open spec fn name_seq(self) -> Seq<char> {
        match self {
            Scheme::O200kBase => "o200k_base"@,
            Scheme::Cl100kBase => "cl100k_base"@,
            Scheme::P50kBase => "p50k_base"@,
            Scheme::P50kEdit => "p50k_edit"@,
            Scheme::R50kBase => "r50k_base"@,
        }
    }

    pub fn name(self) -> (r: &'static str)
        ensures
            r@ == self.name_seq(),
    {
        match self {
            Scheme::O200kBase => "o200k_base",
            Scheme::Cl100kBase => "cl100k_base",
            Scheme::P50kBase => "p50k_base",
            Scheme::P50kEdit => "p50k_edit",
            Scheme::R50kBase => "r50k_base",
        }
    }
}

/// The number of tokens that the scheme named `scheme` assigns to `text`
/// (special tokens included). For a fixed scheme this depends on the text
/// alone.
pub uninterp spec fn tokens_of(scheme: Seq<char>, text: Seq<char>) -> nat;

/// The scheme that a `-e` value selects; an unrecognized name falls back to
/// the default scheme rather than failing.
pub open spec fn scheme_of_name_spec(name: Seq<char>) -> Scheme {
    if name == "o200k_base"@ {
        Scheme::O200kBase
    } else if name == "cl100k_base"@ {
        Scheme::Cl100kBase
    } else if name == "p50k_base"@ {
        Scheme::P50kBase
    } else if name == "p50k_edit"@ {
        Scheme::P50kEdit
    } else if name == "r50k_base"@ || name == "gpt2"@ {
        Scheme::R50kBase
    } else {
        Scheme::O200kBase
    }
}

pub fn scheme_of_name(name: &str) -> (s: Scheme)
    ensures
        s == scheme_of_name_spec(name@),
{
    let n = name.to_owned();
    if n == String::from_str("o200k_base") {
        Scheme::O200kBase
    } else if n == String::from_str("cl100k_base") {
        Scheme::Cl100kBase
    } else if n == String::from_str("p50k_base") {
        Scheme::P50kBase
    } else if n == String::from_str("p50k_edit") {
        Scheme::P50kEdit
    } else if n == String::from_str("r50k_base") || n == String::from_str("gpt2") {
        Scheme::R50kBase
    } else {
        Scheme::O200kBase
    }
}

/// A loaded encoder together with the scheme it was built for.
pub struct Tokenizer {
    bpe: tiktoken_rs::CoreBPE,
    scheme: Scheme,
}

impl Tokenizer {
    /// The scheme this tokenizer was built for.
    pub closed spec fn scheme_spec(&self) -> Scheme {
        self.scheme
    }

    pub fn scheme(&self) -> (s: Scheme)
        ensures
            s == self.scheme_spec(),
    {
        self.scheme
    }

    /// Relies on tiktoken_rs::CoreBPE::encode_with_special_tokens: for a fixed
    /// encoding scheme the token sequence is a function of the text alone, and
    /// its length is the token count.
    #[verifier::external_body]
    pub fn token_count(&self, text: &str) -> (r: usize)
        ensures
            r as nat == tokens_of(self.scheme_spec().name_seq(), text@),
    {
        self.bpe.encode_with_special_tokens(text).len()
    }
}

/// Relies on tiktoken_rs::o200k_base: builds the encoder of that scheme from
/// vocabulary tables embedded at compile time, which always parse, so the
/// call succeeds.
#[verifier::external_body]
fn make_o200k() -> (r: Result<Tokenizer, String>)
    ensures
        r is Ok,
        r->Ok_0.scheme_spec() == Scheme::O200kBase,
{
    match tiktoken_rs::o200k_base() {
        Ok(bpe) => Ok(Tokenizer { bpe, scheme: Scheme::O200kBase }),
        Err(e) => Err(e.to_string()),
    }
}

/// Relies on tiktoken_rs::cl100k_base: builds the encoder of that scheme from
/// vocabulary tables embedded at compile time, which always parse, so the
/// call succeeds.
#[verifier::external_body]
fn make_cl100k() -> (r: Result<Tokenizer, String>)
    ensures
        r is Ok,
        r->Ok_0.scheme_spec() == Scheme::Cl100kBase,
{
    match tiktoken_rs::cl100k_base() {
        Ok(bpe) => Ok(Tokenizer { bpe, scheme: Scheme::Cl100kBase }),
        Err(e) => Err(e.to_string()),
    }
}

/// Relies on tiktoken_rs::p50k_base: builds the encoder of that scheme from
/// vocabulary tables embedded at compile time, which always parse, so the
/// call succeeds.
#[verifier::external_body]
fn make_p50k_base() -> (r: Result<Tokenizer, String>)
    ensures
        r is Ok,
        r->Ok_0.scheme_spec() == Scheme::P50kBase,
{
    match tiktoken_rs::p50k_base() {
        Ok(bpe) => Ok(Tokenizer { bpe, scheme: Scheme::P50kBase }),
        Err(e) => Err(e.to_string()),
    }
}

/// Relies on tiktoken_rs::p50k_edit: builds the encoder of that scheme from
/// vocabulary tables embedded at compile time, which always parse, so the
/// call succeeds.
#[verifier::external_body]
fn make_p50k_edit() -> (r: Result<Tokenizer, String>)
    ensures
        r is Ok,
        r->Ok_0.scheme_spec() == Scheme::P50kEdit,
{
    match tiktoken_rs::p50k_edit() {
        Ok(bpe) => Ok(Tokenizer { bpe, scheme: Scheme::P50kEdit }),
        Err(e) => Err(e.to_string()),
    }
}

/// Relies on tiktoken_rs::r50k_base: builds the encoder of that scheme from
/// vocabulary tables embedded at compile time, which always parse, so the
/// call succeeds.
#[verifier::external_body]
fn make_r50k() -> (r: Result<Tokenizer, String>)
    ensures
        r is Ok,
        r->Ok_0.scheme_spec() == Scheme::R50kBase,
{
    match tiktoken_rs::r50k_base() {
        Ok(bpe) => Ok(Tokenizer { bpe, scheme: Scheme::R50kBase }),
        Err(e) => Err(e.to_string()),
    }
}

/// Builds the tokenizer that `encoding` names; an unrecognized name falls
/// back to the default scheme rather than failing. The encoders load from
/// embedded tables, so the call always succeeds.
pub fn get_tokenizer(encoding: &str) -> (r: Result<Tokenizer, MyError>)
    ensures
        r is Ok,
        r->Ok_0.scheme_spec() == scheme_of_name_spec(encoding@),
{
    let scheme = scheme_of_name(encoding);
    let made = match scheme {
        Scheme::O200kBase => make_o200k(),
        Scheme::Cl100kBase => make_cl100k(),
        Scheme::P50kBase => make_p50k_base(),
        Scheme::P50kEdit => make_p50k_edit(),
        Scheme::R50kBase => make_r50k(),
    };
    match made {
        Ok(t) => Ok(t),
        Err(e) => Err(
            MyError::TokenizerError { tokenizer: scheme.name().to_owned(), error: e },
        ),
    }
}

/// An unrecognized encoding name counts exactly as the default scheme does:
/// it falls back to that scheme, and token counts are a function of the
/// scheme's name and the text alone.
pub proof fn lemma_unrecognized_name_counts_as_default(name: Seq<char>, text: Seq<char>)
    requires
        name != "o200k_base"@,
        name != "cl100k_base"@,
        name != "p50k_base"@,
        name != "p50k_edit"@,
        name != "r50k_base"@,
        name != "gpt2"@,
    ensures
        scheme_of_name_spec(name) == Scheme::O200kBase,
        tokens_of(scheme_of_name_spec(name).name_seq(), text) == tokens_of("o200k_base"@, text),
{
}

} // verus!
