use tokenum::error::MyError;
use tokenum::params::resolve_paras;

fn ok_with_max_size(max_size: Option<&str>) -> tokenum::params::ParsedParas {
    resolve_paras(
        None,
        Some(String::from("x")),
        None,
        None,
        max_size.map(String::from),
        None,
        None,
        false,
    )
    .unwrap()
}

#[test]
fn defaults() {
    let p = ok_with_max_size(None);
    assert_eq!(p.max_size, 10485760);
    assert_eq!(p.max_size_str, "10Mb");
    assert_eq!(p.encoding, "o200k_base");
    assert_eq!(p.min_token, 0);
    assert_eq!(p.max_token, usize::MAX);
    assert!(!p.only_valid);
}

#[test]
fn empty_size_value_gives_default() {
    let p = ok_with_max_size(Some(""));
    assert_eq!(p.max_size, 10485760);
    assert_eq!(p.max_size_str, "10Mb");
}

#[test]
fn zero_of_any_unit_means_unlimited() {
    for arg in ["0b", "0k", "0m", "0g"] {
        let p = ok_with_max_size(Some(arg));
        assert_eq!(p.max_size, u64::MAX, "for {}", arg);
        assert_eq!(p.max_size_str, "17179869183Gb", "for {}", arg);
    }
}

#[test]
fn unit_scaling() {
    assert_eq!(ok_with_max_size(Some("26b")).max_size, 26);
    assert_eq!(ok_with_max_size(Some("26b")).max_size_str, "26 bytes");
    assert_eq!(ok_with_max_size(Some("10k")).max_size, 10240);
    assert_eq!(ok_with_max_size(Some("10k")).max_size_str, "10Kb");
    assert_eq!(ok_with_max_size(Some("98m")).max_size, 98 * 1048576);
    assert_eq!(ok_with_max_size(Some("98m")).max_size_str, "98Mb");
    assert_eq!(ok_with_max_size(Some("4g")).max_size, 4 * 1073741824);
    assert_eq!(ok_with_max_size(Some("4g")).max_size_str, "4Gb");
}

#[test]
fn suffix_is_case_insensitive() {
    assert_eq!(ok_with_max_size(Some("10K")).max_size, 10240);
    assert_eq!(ok_with_max_size(Some("5G")).max_size, 5 * 1073741824);
}

#[test]
fn bad_suffix_is_a_parameter_error() {
    let e = resolve_paras(
        None,
        Some(String::from("x")),
        None,
        None,
        Some(String::from("10x")),
        None,
        None,
        false,
    )
    .unwrap_err();
    assert_eq!(e.message(), "Error - -m suffix only support b, k, m, g, not x");
}

#[test]
fn bad_number_is_a_parse_error() {
    let e = resolve_paras(
        None,
        Some(String::from("x")),
        None,
        None,
        Some(String::from("abk")),
        None,
        None,
        false,
    )
    .unwrap_err();
    assert_eq!(e.message(), "Error - parse abk -> u64: invalid digit found in string");
}

#[test]
fn missing_number_is_a_parse_error() {
    let e = resolve_paras(
        None,
        Some(String::from("x")),
        None,
        None,
        Some(String::from("k")),
        None,
        None,
        false,
    )
    .unwrap_err();
    assert_eq!(e.message(), "Error - parse k -> u64: cannot parse integer from empty string");
}

#[test]
fn huge_number_is_an_overflow_error() {
    let e = resolve_paras(
        None,
        Some(String::from("x")),
        None,
        None,
        Some(String::from("18446744073709551616b")),
        None,
        None,
        false,
    )
    .unwrap_err();
    assert_eq!(
        e.message(),
        "Error - parse 18446744073709551616b -> u64: number too large to fit in target type"
    );
}

#[test]
fn scaled_overflow_is_an_overflow_error() {
    let e = resolve_paras(
        None,
        Some(String::from("x")),
        None,
        None,
        Some(String::from("18014398509481985k")),
        None,
        None,
        false,
    )
    .unwrap_err();
    assert!(matches!(e, MyError::ParseStringError { .. }));
}

#[test]
fn largest_byte_count_is_accepted() {
    let p = ok_with_max_size(Some("18446744073709551615b"));
    assert_eq!(p.max_size, u64::MAX);
}

#[test]
fn valid_encodings_accepted() {
    for e in ["o200k_base", "cl100k_base", "p50k_base", "p50k_edit", "r50k_base"] {
        let p = resolve_paras(
            None,
            Some(String::from("x")),
            None,
            Some(String::from(e)),
            None,
            None,
            None,
            false,
        )
        .unwrap();
        assert_eq!(p.encoding, e);
    }
}

#[test]
fn unknown_encoding_is_a_parameter_error() {
    let e = resolve_paras(
        None,
        Some(String::from("x")),
        None,
        Some(String::from("gpt2")),
        None,
        None,
        None,
        false,
    )
    .unwrap_err();
    assert_eq!(
        e.message(),
        "Error - -e only support o200k_base, cl100k_base, p50k_base, p50k_edit, r50k_base, not: gpt2"
    );
}

#[test]
fn some_input_must_be_given() {
    let e = resolve_paras(None, None, None, None, None, None, None, false).unwrap_err();
    assert_eq!(e.message(), "Error - must specify -f or -s or -p");
}

#[test]
fn token_range_resolution() {
    let p = resolve_paras(
        None,
        Some(String::from("x")),
        None,
        None,
        None,
        Some(5),
        Some(10),
        true,
    )
    .unwrap();
    assert_eq!(p.min_token, 5);
    assert_eq!(p.max_token, 10);
    assert!(p.only_valid);
    let q = resolve_paras(
        None,
        Some(String::from("x")),
        None,
        None,
        None,
        Some(5),
        Some(0),
        false,
    )
    .unwrap();
    assert_eq!(q.max_token, usize::MAX);
}

#[test]
fn error_messages_render() {
    let e = MyError::DirNotExistError { dir: String::from("/nope") };
    assert_eq!(e.message(), "Error - /nope does not exist");
    let e = MyError::FileNotExistError { file: String::from("a.txt") };
    assert_eq!(e.message(), "Error - a.txt does not exist");
    let e = MyError::IoError { error: String::from("denied") };
    assert_eq!(e.message(), "I/O error occurred");
    let e = MyError::TokenizerError {
        tokenizer: String::from("o200k_base"),
        error: String::from("boom"),
    };
    assert_eq!(e.message(), "Error - Initialize o200k_base tokenizer: boom");
    let e = MyError::ParaError { para: String::from("oops") };
    assert_eq!(e.message(), "Error - oops");
}
