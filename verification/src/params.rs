//! Resolution of the command-line parameters: the `-m` size grammar with its
//! `b`/`k`/`m`/`g` suffixes, the encoding whitelist, the token range
//! defaults, and the rule that at least one input must be given.

use vstd::prelude::*;
use vstd::string::StringExecFns;

use crate::error::MyError;
use crate::numfmt::u64_to_string;
use crate::numfmt::dec_rep;

verus! {

/// The parsed and validated command-line parameters.
#[derive(Debug)]
pub struct ParsedParas {
    pub files: Option<Vec<String>>,
    pub string: Option<String>,
    pub path: Option<String>,
    pub encoding: String,
    pub max_size: u64,
    pub max_size_str: String,
    pub min_token: usize,
    pub max_token: usize,
    pub only_valid: bool,
}

/// Relies on alloc::string::String::push: appends the one character to the
/// end of the string.
#[verifier::external_body]
fn push_char(s: &mut String, c: char)
    ensures
        final(s)@ == old(s)@ + seq![c],
{
    s.push(c)
}

/// Turns a string into the vector of its characters.
pub fn chars_vec(s: &str) -> (v: Vec<char>)
    ensures
        v@ == s@,
{
    let mut v: Vec<char> = Vec::new();
    for c in it: s.chars()
        invariant
            it.seq() == s@,
            v@.len() == it.index(),
            forall|j: int| 0 <= j < v@.len() ==> v@[j] == s@[j],
    {
        v.push(c);
    }
    proof {
        assert(v@ =~= s@);
    }
    v
}

/// Why a numeric prefix fails to parse.
#[derive(Clone, Copy, Debug, PartialEq, Eq, Structural)]
pub enum NumParseError {
    EmptyInput,
    InvalidDigit,
    Overflow,
}

pub open spec fn is_digit(c: char) -> bool {
    '0' <= c <= '9'
}

pub open spec fn digit_of(c: char) -> int {
    c as int - '0' as int
}

/// Left-to-right decimal parsing from position `i` with accumulator `acc`:
/// the first non-digit fails, as does the first digit that would push the
/// value past the largest representable one.
pub open spec fn parse_u64_rec(s: Seq<char>, i: int, acc: nat) -> Result<u64, NumParseError>
    decreases s.len() - i,
{
    if i < 0 || i >= s.len() {
        Ok(acc as u64)
    } else if !is_digit(s[i]) {
        Err(NumParseError::InvalidDigit)
    } else if acc * 10 + digit_of(s[i]) > u64::MAX {
        Err(NumParseError::Overflow)
    } else {
        parse_u64_rec(s, i + 1, (acc * 10 + digit_of(s[i])) as nat)
    }
}

/// Decimal parsing of a whole string; an empty string is its own error.
pub open spec fn parse_u64_spec(s: Seq<char>) -> Result<u64, NumParseError> {
    if s.len() == 0 {
        Err(NumParseError::EmptyInput)
    } else {
        parse_u64_rec(s, 0, 0)
    }
}

/// Parses `chars[..end]` as a decimal number.
pub fn parse_u64(chars: &Vec<char>, end: usize) -> (r: Result<u64, NumParseError>)
    requires
        end <= chars@.len(),
    ensures
        r == parse_u64_spec(chars@.take(end as int)),
{
    let ghost s = chars@.take(end as int);
    if end == 0 {
        return Err(NumParseError::EmptyInput);
    }
    let mut acc: u64 = 0;
    let mut i: usize = 0;
    while i < end
        invariant
            0 <= i <= end <= chars@.len(),
            s == chars@.take(end as int),
            parse_u64_rec(s, 0, 0) == parse_u64_rec(s, i as int, acc as nat),
        decreases end - i,
    {
        let c = chars[i];
        proof {
            assert(s[i as int] == chars@[i as int]);
        }
        if !('0' <= c && c <= '9') {
            return Err(NumParseError::InvalidDigit);
        }
        let d = (c as u32 - '0' as u32) as u64;
        assert(d as int == digit_of(s[i as int]));
        assert(d <= 9);
        let overflow = acc > (u64::MAX - d) / 10;
        assert(overflow == (acc * 10 + d > u64::MAX)) by (nonlinear_arith)
            requires
                overflow == (acc > (u64::MAX - d) / 10),
                d <= 9,
        ;
        if overflow {
            return Err(NumParseError::Overflow);
        }
        acc = acc * 10 + d;
        i += 1;
    }
    Ok(acc)
}

/// The display string for an unlimited size cap.
pub open spec fn unlimited_str() -> Seq<char> {
    dec_rep((u64::MAX / 1073741824) as nat) + "Gb"@
}

fn unlimited_string() -> (r: String)
    ensures
        r@ == unlimited_str(),
{
    let mut s = u64_to_string(u64::MAX / 1073741824);
    s.append("Gb");
    s
}

/// Why a `-m` value is refused.
pub enum SizeArgError {
    /// The numeric prefix does not parse, or the scaled size does not fit.
    Parse(NumParseError),
    /// The unit suffix is not one of the four supported ones.
    BadSuffix(char),
}

/// What a `-m` value resolves to: the size cap in bytes and its display
/// string. An absent or empty value gives the default cap of 10 MiB; a zero
/// count of any unit means unlimited; otherwise the decimal prefix is scaled
/// by its `b`/`k`/`m`/`g` suffix, case-insensitively.
pub open spec fn max_size_spec(arg: Seq<char>) -> Result<(u64, Seq<char>), SizeArgError> {
    if arg.len() == 0 {
        Ok((10485760, "10Mb"@))
    } else {
        let num = arg.take(arg.len() - 1);
        let sfx = arg.last();
        match parse_u64_spec(num) {
            Err(e) => Err(SizeArgError::Parse(e)),
            Ok(n) => if sfx == 'b' || sfx == 'B' {
                if n == 0 {
                    Ok((u64::MAX, unlimited_str()))
                } else {
                    Ok((n, dec_rep(n as nat) + " bytes"@))
                }
            } else if sfx == 'k' || sfx == 'K' {
                if n == 0 {
                    Ok((u64::MAX, unlimited_str()))
                } else if n <= u64::MAX / 1024 {
                    Ok(((n * 1024) as u64, dec_rep(n as nat) + "Kb"@))
                } else {
                    Err(SizeArgError::Parse(NumParseError::Overflow))
                }
            } else if sfx == 'm' || sfx == 'M' {
                if n == 0 {
                    Ok((u64::MAX, unlimited_str()))
                } else if n <= u64::MAX / 1048576 {
                    Ok(((n * 1048576) as u64, dec_rep(n as nat) + "Mb"@))
                } else {
                    Err(SizeArgError::Parse(NumParseError::Overflow))
                }
            } else if sfx == 'g' || sfx == 'G' {
                if n == 0 {
                    Ok((u64::MAX, unlimited_str()))
                } else if n <= u64::MAX / 1073741824 {
                    Ok(((n * 1073741824) as u64, dec_rep(n as nat) + "Gb"@))
                } else {
                    Err(SizeArgError::Parse(NumParseError::Overflow))
                }
            } else {
                Err(SizeArgError::BadSuffix(sfx))
            },
        }
    }
}

/// The message a failed numeric parse reports.
pub open spec fn num_err_msg(e: NumParseError) -> Seq<char> {
    match e {
        NumParseError::EmptyInput => "cannot parse integer from empty string"@,
        NumParseError::InvalidDigit => "invalid digit found in string"@,
        NumParseError::Overflow => "number too large to fit in target type"@,
    }
}

fn num_err_str(e: NumParseError) -> (r: &'static str)
    ensures
        r@ == num_err_msg(e),
{
    match e {
        NumParseError::EmptyInput => "cannot parse integer from empty string",
        NumParseError::InvalidDigit => "invalid digit found in string",
        NumParseError::Overflow => "number too large to fit in target type",
    }
}

/// The five encoding names that `-e` accepts.
pub open spec fn is_valid_encoding(e: Seq<char>) -> bool {
    ||| e == "o200k_base"@
    ||| e == "cl100k_base"@
    ||| e == "p50k_base"@
    ||| e == "p50k_edit"@
    ||| e == "r50k_base"@
}

fn valid_encoding(e: &String) -> (r: bool)
    ensures
        r == is_valid_encoding(e@),
{
    *e == String::from_str("o200k_base") || *e == String::from_str("cl100k_base") || *e
        == String::from_str("p50k_base") || *e == String::from_str("p50k_edit") || *e
        == String::from_str("r50k_base")
}

/// The resolved token range: the lower bound defaults to zero; an absent or
/// zero upper bound means unlimited.
pub open spec fn resolved_min(token_low: Option<usize>) -> usize {
    match token_low {
        Some(t) => t,
        None => 0,
    }
}

pub open spec fn resolved_max(token_hight: Option<usize>) -> usize {
    match token_hight {
        Some(t) => if t == 0 {
            usize::MAX
        } else {
            t
        },
        None => usize::MAX,
    }
}

/// Validates and resolves the command-line parameters. The `-m` value is
/// checked first, then the `-e` whitelist, then that at least one of the
/// three inputs is present; existence of the named files and directory is
/// the caller's concern.
pub fn resolve_paras(
    files: Option<Vec<String>>,
    string: Option<String>,
    path: Option<String>,
    encoding: Option<String>,
    max_size: Option<String>,
    token_low: Option<usize>,
    token_hight: Option<usize>,
    valid: bool,
) -> (r: Result<ParsedParas, MyError>)
    ensures
        ({
            let ms = match max_size {
                Some(a) => a@,
                None => Seq::<char>::empty(),
            };
            match max_size_spec(ms) {
                Err(SizeArgError::Parse(e)) => r matches Err(
                    MyError::ParseStringError { from, to, error },
                ) && from@ == ms && to@ == "u64"@ && error@ == num_err_msg(e),
                Err(SizeArgError::BadSuffix(c)) => r matches Err(MyError::ParaError { para })
                    && para@ == "-m suffix only support b, k, m, g, not "@ + seq![c],
                Ok((limit, sstr)) => {
                    if (encoding matches Some(e) && !is_valid_encoding(e@)) {
                        r matches Err(MyError::ParaError { para }) && para@
                            == "-e only support o200k_base, cl100k_base, p50k_base, p50k_edit, r50k_base, not: "@
                            + encoding->0@
                    } else if files is None && string is None && path is None {
                        r matches Err(MyError::ParaError { para }) && para@
                            == "must specify -f or -s or -p"@
                    } else {
                        r matches Ok(p) && p.files == files && p.string == string && p.path == path
                            && p.encoding@ == (match encoding {
                            Some(e) => e@,
                            None => "o200k_base"@,
                        }) && p.max_size == limit && p.max_size_str@ == sstr && p.min_token
                            == resolved_min(token_low) && p.max_token == resolved_max(token_hight)
                            && p.only_valid == valid
                    }
                },
            }
        }),
{
    let msr: Result<(u64, String), MyError> = match &max_size {
        Some(a) => {
            let chars = chars_vec(a.as_str());
            if chars.len() == 0 {
                Ok((10485760, String::from_str("10Mb")))
            } else {
                let sfx = chars[chars.len() - 1];
                proof {
                    assert(a@.take(a@.len() - 1) =~= chars@.take(chars@.len() - 1));
                    assert(sfx == a@.last());
                }
                match parse_u64(&chars, chars.len() - 1) {
                    Err(e) => Err(
                        MyError::ParseStringError {
                            from: a.clone(),
                            to: String::from_str("u64"),
                            error: num_err_str(e).to_owned(),
                        },
                    ),
                    Ok(n) => {
                        if sfx == 'b' || sfx == 'B' {
                            if n == 0 {
                                Ok((u64::MAX, unlimited_string()))
                            } else {
                                let mut s = u64_to_string(n);
                                s.append(" bytes");
                                Ok((n, s))
                            }
                        } else if sfx == 'k' || sfx == 'K' {
                            if n == 0 {
                                Ok((u64::MAX, unlimited_string()))
                            } else if n <= u64::MAX / 1024 {
                                let mut s = u64_to_string(n);
                                s.append("Kb");
                                Ok((n * 1024, s))
                            } else {
                                Err(
                                    MyError::ParseStringError {
                                        from: a.clone(),
                                        to: String::from_str("u64"),
                                        error: num_err_str(NumParseError::Overflow).to_owned(),
                                    },
                                )
                            }
                        } else if sfx == 'm' || sfx == 'M' {
                            if n == 0 {
                                Ok((u64::MAX, unlimited_string()))
                            } else if n <= u64::MAX / 1048576 {
                                let mut s = u64_to_string(n);
                                s.append("Mb");
                                Ok((n * 1048576, s))
                            } else {
                                Err(
                                    MyError::ParseStringError {
                                        from: a.clone(),
                                        to: String::from_str("u64"),
                                        error: num_err_str(NumParseError::Overflow).to_owned(),
                                    },
                                )
                            }
                        } else if sfx == 'g' || sfx == 'G' {
                            if n == 0 {
                                Ok((u64::MAX, unlimited_string()))
                            } else if n <= u64::MAX / 1073741824 {
                                let mut s = u64_to_string(n);
                                s.append("Gb");
                                Ok((n * 1073741824, s))
                            } else {
                                Err(
                                    MyError::ParseStringError {
                                        from: a.clone(),
                                        to: String::from_str("u64"),
                                        error: num_err_str(NumParseError::Overflow).to_owned(),
                                    },
                                )
                            }
                        } else {
                            let mut msg = String::from_str(
                                "-m suffix only support b, k, m, g, not ",
                            );
                            push_char(&mut msg, sfx);
                            Err(MyError::ParaError { para: msg })
                        }
                    },
                }
            }
        },
        None => Ok((10485760, String::from_str("10Mb"))),
    };
    let resolved = match msr {
        Ok(v) => v,
        Err(e) => {
            return Err(e);
        },
    };
    let enc: String = match encoding {
        Some(e) => {
            if valid_encoding(&e) {
                e
            } else {
                let mut msg = String::from_str(
                    "-e only support o200k_base, cl100k_base, p50k_base, p50k_edit, r50k_base, not: ",
                );
                msg.append(e.as_str());
                return Err(MyError::ParaError { para: msg });
            }
        },
        None => String::from_str("o200k_base"),
    };
    if files.is_none() && string.is_none() && path.is_none() {
        return Err(
            MyError::ParaError { para: String::from_str("must specify -f or -s or -p") },
        );
    }
    Ok(
        ParsedParas {
            files,
            string,
            path,
            encoding: enc,
            max_size: resolved.0,
            max_size_str: resolved.1,
            min_token: match token_low {
                Some(t) => t,
                None => 0,
            },
            max_token: match token_hight {
                Some(t) => if t == 0 {
                    usize::MAX
                } else {
                    t
                },
                None => usize::MAX,
            },
            only_valid: valid,
        },
    )
}

} // verus!
