//! Annotation texts for files and directories, and the single-line reports
//! for files and strings given on the command line.

use vstd::prelude::*;
use vstd::string::StringExecFns;

use crate::classify::{classification_of, contains_replacement, Classification, FileToken};
use crate::numfmt::{dec_rep, get_file_size, size_str_spec, u64_to_string};
use crate::tokenizer::{tokens_of, Tokenizer};

verus! {

/// The annotation for a classified file: its rendered size and the outcome.
pub open spec fn file_annotation_of(
    c: Classification,
    size: u64,
    max_size_str: Seq<char>,
) -> Seq<char> {
    match c {
        Classification::Valid { token_count } => size_str_spec(size as nat) + ", "@ + dec_rep(
            token_count as nat,
        ) + " tokens"@,
        Classification::Empty => size_str_spec(size as nat) + ", 0 token"@,
        Classification::Binary => size_str_spec(size as nat) + ", binary file"@,
        Classification::InvalidEncoding => size_str_spec(size as nat)
            + ", contain invalid UTF-8"@,
        Classification::Oversized => size_str_spec(size as nat) + ", file size "@ + dec_rep(
            size as nat,
        ) + " bytes > "@ + max_size_str,
    }
}

pub fn file_annotation(c: Classification, size: u64, max_size_str: &str) -> (r: String)
    ensures
        r@ == file_annotation_of(c, size, max_size_str@),
{
    let mut s = get_file_size(size);
    match c {
        Classification::Valid { token_count } => {
            s.append(", ");
            s.append(u64_to_string(token_count as u64).as_str());
            s.append(" tokens");
        },
        Classification::Empty => {
            s.append(", 0 token");
        },
        Classification::Binary => {
            s.append(", binary file");
        },
        Classification::InvalidEncoding => {
            s.append(", contain invalid UTF-8");
        },
        Classification::Oversized => {
            s.append(", file size ");
            s.append(u64_to_string(size).as_str());
            s.append(" bytes > ");
            s.append(max_size_str);
        },
    }
    proof {
        assert(s@ =~= file_annotation_of(c, size, max_size_str@));
    }
    s
}

/// The annotation for a directory: its accumulated size and token total.
pub open spec fn dir_annotation_of(size: nat, tokens: nat) -> Seq<char> {
    if tokens == 0 {
        size_str_spec(size) + ", total 0 token"@
    } else {
        size_str_spec(size) + ", total "@ + dec_rep(tokens) + " tokens"@
    }
}

pub fn dir_annotation(size: u64, tokens: u64) -> (r: String)
    ensures
        r@ == dir_annotation_of(size as nat, tokens as nat),
{
    let mut s = get_file_size(size);
    if tokens == 0 {
        s.append(", total 0 token");
    } else {
        s.append(", total ");
        s.append(u64_to_string(tokens).as_str());
        s.append(" tokens");
    }
    proof {
        assert(s@ =~= dir_annotation_of(size as nat, tokens as nat));
    }
    s
}

/// The report line for one file named on the command line, or nothing when
/// that file is left out: a tokenizable file outside the token range says
/// nothing, and an empty or invalidly encoded file says nothing when only
/// valid files are wanted.
pub open spec fn file_report_of(
    display: Seq<char>,
    c: Classification,
    size: u64,
    max_size_str: Seq<char>,
    min_token: usize,
    max_token: usize,
    only_valid: bool,
) -> Option<Seq<char>> {
    let line = display + " ("@ + file_annotation_of(c, size, max_size_str) + ")"@;
    match c {
        Classification::Valid { token_count } => if min_token <= token_count && token_count
            <= max_token {
            Some(line)
        } else {
            None
        },
        Classification::Empty => if only_valid {
            None
        } else {
            Some(line)
        },
        Classification::InvalidEncoding => if only_valid {
            None
        } else {
            Some(line)
        },
        Classification::Binary => Some(line),
        Classification::Oversized => Some(line),
    }
}

fn report_line(display: &str, c: Classification, size: u64, max_size_str: &str) -> (r: String)
    ensures
        r@ == display@ + " ("@ + file_annotation_of(c, size, max_size_str@) + ")"@,
{
    let mut s = display.to_owned();
    s.append(" (");
    s.append(file_annotation(c, size, max_size_str).as_str());
    s.append(")");
    proof {
        assert(s@ =~= display@ + " ("@ + file_annotation_of(c, size, max_size_str@) + ")"@);
    }
    s
}

/// Classifies one file given on the command line and renders its report
/// line; the raw bytes are not looked at when the size alone decides.
pub fn file_report_line(
    display: &str,
    raw: Vec<u8>,
    size: u64,
    max_size: u64,
    max_size_str: &str,
    min_token: usize,
    max_token: usize,
    only_valid: bool,
    tok: &Tokenizer,
) -> (r: Option<String>)
    ensures
        ({
            let expected = file_report_of(
                display@,
                classification_of(raw@, size, max_size, tok.scheme_spec()),
                size,
                max_size_str@,
                min_token,
                max_token,
                only_valid,
            );
            match r {
                Some(line) => expected matches Some(e) && line@ == e,
                None => expected is None,
            }
        }),
{
    if size > max_size {
        let c = Classification::Oversized;
        Some(report_line(display, c, size, max_size_str))
    } else {
        let mut ft = FileToken::new(raw, size);
        if ft.not_binary() {
            if ft.string.as_str().is_empty() {
                if only_valid {
                    None
                } else {
                    Some(report_line(display, Classification::Empty, size, max_size_str))
                }
            } else if contains_replacement(ft.string.as_str()) {
                if only_valid {
                    None
                } else {
                    Some(
                        report_line(display, Classification::InvalidEncoding, size, max_size_str),
                    )
                }
            } else {
                let n = tok.token_count(ft.string.as_str());
                if min_token <= n && n <= max_token {
                    Some(
                        report_line(
                            display,
                            Classification::Valid { token_count: n },
                            size,
                            max_size_str,
                        ),
                    )
                } else {
                    None
                }
            }
        } else {
            Some(report_line(display, Classification::Binary, size, max_size_str))
        }
    }
}

/// The report line for a string given on the command line.
pub open spec fn string_report_of(text: Seq<char>, scheme_name: Seq<char>) -> Seq<char> {
    "-s string: "@ + dec_rep(tokens_of(scheme_name, text)) + " tokens"@
}

/// Counts the tokens of a string given on the command line and renders its
/// report line.
pub fn string_report_line(text: &str, tok: &Tokenizer) -> (r: String)
    ensures
        r@ == string_report_of(text@, tok.scheme_spec().name_seq()),
{
    let n = tok.token_count(text);
    let mut s = String::new();
    s.append("-s string: ");
    s.append(u64_to_string(n as u64).as_str());
    s.append(" tokens");
    proof {
        assert(s@ =~= string_report_of(text@, tok.scheme_spec().name_seq()));
    }
    s
}

} // verus!
