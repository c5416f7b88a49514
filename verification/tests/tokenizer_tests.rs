use tokenum::report::{file_report_line, string_report_line};
use tokenum::tokenizer::{get_tokenizer, scheme_of_name, Scheme};

#[test]
fn names_map_to_schemes() {
    assert_eq!(scheme_of_name("o200k_base"), Scheme::O200kBase);
    assert_eq!(scheme_of_name("cl100k_base"), Scheme::Cl100kBase);
    assert_eq!(scheme_of_name("p50k_base"), Scheme::P50kBase);
    assert_eq!(scheme_of_name("p50k_edit"), Scheme::P50kEdit);
    assert_eq!(scheme_of_name("r50k_base"), Scheme::R50kBase);
    assert_eq!(scheme_of_name("gpt2"), Scheme::R50kBase);
}

#[test]
fn unknown_name_falls_back_to_default() {
    assert_eq!(scheme_of_name("unknown"), Scheme::O200kBase);
    assert_eq!(scheme_of_name(""), Scheme::O200kBase);
}

#[test]
fn tokenizer_reports_its_scheme() {
    let tok = get_tokenizer("cl100k_base").unwrap();
    assert_eq!(tok.scheme(), Scheme::Cl100kBase);
}

#[test]
fn every_scheme_builds() {
    for name in ["o200k_base", "cl100k_base", "p50k_base", "p50k_edit", "r50k_base"] {
        assert!(get_tokenizer(name).is_ok(), "for {}", name);
    }
}

#[test]
fn unrecognized_name_falls_back_to_working_default() {
    let fallback = get_tokenizer("no_such_scheme").unwrap();
    assert_eq!(fallback.scheme(), Scheme::O200kBase);
    let default = get_tokenizer("o200k_base").unwrap();
    for text in ["", "hello world", "some text worth counting"] {
        assert_eq!(fallback.token_count(text), default.token_count(text));
    }
}

#[test]
fn empty_text_has_no_tokens() {
    let tok = get_tokenizer("o200k_base").unwrap();
    assert_eq!(tok.token_count(""), 0);
}

#[test]
fn counting_is_deterministic_and_positive() {
    let tok = get_tokenizer("o200k_base").unwrap();
    let a = tok.token_count("some text worth counting");
    let b = tok.token_count("some text worth counting");
    assert_eq!(a, b);
    assert!(a >= 1);
    assert!(tok.token_count("a") >= 1);
}

#[test]
fn counts_come_from_byte_pair_merging() {
    let tok = get_tokenizer("o200k_base").unwrap();
    let n = tok.token_count("hello world");
    assert!((1..=4).contains(&n));
    let long = "a".repeat(100);
    assert!(tok.token_count(&long) < 100);
}

#[test]
fn string_report_format() {
    let tok = get_tokenizer("o200k_base").unwrap();
    assert_eq!(string_report_line("", &tok), "-s string: 0 tokens");
    let line = string_report_line("hello world", &tok);
    let n = tok.token_count("hello world");
    assert_eq!(line, format!("-s string: {} tokens", n));
}

#[test]
fn file_report_lines() {
    let tok = get_tokenizer("o200k_base").unwrap();
    let line = file_report_line("d/x.bin", vec![0x00], 1, 100, "10Mb", 0, usize::MAX, false, &tok);
    assert_eq!(line.unwrap(), "d/x.bin (1 bytes, binary file)");
    let line = file_report_line("big", vec![], 500, 100, "100 bytes", 0, usize::MAX, false, &tok);
    assert_eq!(line.unwrap(), "big (500 bytes, file size 500 bytes > 100 bytes)");
    let line = file_report_line("e.txt", vec![], 0, 100, "10Mb", 0, usize::MAX, false, &tok);
    assert_eq!(line.unwrap(), "e.txt (0 bytes, 0 token)");
    let line = file_report_line("e.txt", vec![], 0, 100, "10Mb", 0, usize::MAX, true, &tok);
    assert!(line.is_none());
    let line = file_report_line("bad", vec![0xFF], 1, 100, "10Mb", 0, usize::MAX, false, &tok);
    assert_eq!(line.unwrap(), "bad (1 bytes, contain invalid UTF-8)");
    let n = tok.token_count("hello world");
    let line = file_report_line(
        "h.txt",
        b"hello world".to_vec(),
        11,
        100,
        "10Mb",
        0,
        usize::MAX,
        false,
        &tok,
    );
    assert_eq!(line.unwrap(), format!("h.txt (11 bytes, {} tokens)", n));
    let line = file_report_line(
        "h.txt",
        b"hello world".to_vec(),
        11,
        100,
        "10Mb",
        n + 1,
        usize::MAX,
        false,
        &tok,
    );
    assert!(line.is_none());
}

#[test]
fn binary_files_report_even_when_only_valid() {
    let tok = get_tokenizer("o200k_base").unwrap();
    let line = file_report_line("x.bin", vec![0x00], 1, 100, "10Mb", 0, usize::MAX, true, &tok);
    assert_eq!(line.unwrap(), "x.bin (1 bytes, binary file)");
}
