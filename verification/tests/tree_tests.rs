use tokenum::classify::Classification;
use tokenum::tokenizer::get_tokenizer;
use tokenum::tree::TreeBuilder;

fn builder(min_token: usize, max_token: usize, only_valid: bool) -> TreeBuilder {
    TreeBuilder::new(
        String::from("proj"),
        10485760,
        String::from("10Mb"),
        min_token,
        max_token,
        only_valid,
    )
}

fn comps(parts: &[&str]) -> Vec<String> {
    parts.iter().map(|p| String::from(*p)).collect()
}

#[test]
fn end_to_end_aggregation_and_rendering() {
    let mut b = builder(0, usize::MAX, false);
    assert!(b.add_classified(&comps(&["a.txt"]), Classification::Valid { token_count: 20 }, 10));
    b.add_directory(&comps(&["sub"]));
    assert!(b.add_classified(&comps(&["sub", "b.bin"]), Classification::Binary, 100));
    assert!(b.add_classified(&comps(&["sub", "c.txt"]), Classification::Valid { token_count: 5 }, 7));
    assert_eq!(b.totals(), (117, 25));
    let out = b.finish();
    let expected = "proj (117 bytes, total 25 tokens)\n\
                    \u{20}   a.txt (10 bytes, 20 tokens)\n\
                    \u{20}   sub (107 bytes, total 5 tokens)\n\
                    \u{20}       b.bin (100 bytes, binary file)\n\
                    \u{20}       c.txt (7 bytes, 5 tokens)\n";
    assert_eq!(out, expected);
}

#[test]
fn rerendering_gives_identical_strings() {
    let mut b = builder(0, usize::MAX, false);
    b.add_directory(&comps(&["sub"]));
    b.add_classified(&comps(&["sub", "a.txt"]), Classification::Valid { token_count: 3 }, 9);
    let first = b.finish();
    let second = b.finish();
    assert_eq!(first, second);
}

#[test]
fn token_range_misses_are_omitted_entirely() {
    let mut b = builder(5, 10, false);
    assert!(!b.add_classified(&comps(&["low.txt"]), Classification::Valid { token_count: 4 }, 50));
    assert!(!b.add_classified(&comps(&["high.txt"]), Classification::Valid { token_count: 11 }, 50));
    assert_eq!(b.totals(), (0, 0));
    assert!(b.add_classified(&comps(&["mid.txt"]), Classification::Valid { token_count: 7 }, 50));
    assert_eq!(b.totals(), (50, 7));
    let out = b.finish();
    assert!(!out.contains("low.txt"));
    assert!(!out.contains("high.txt"));
    assert!(out.contains("mid.txt (50 bytes, 7 tokens)"));
}

#[test]
fn empty_files_are_shown_but_not_aggregated() {
    let mut b = builder(0, usize::MAX, false);
    assert!(b.add_classified(&comps(&["e.txt"]), Classification::Empty, 0));
    assert_eq!(b.totals(), (0, 0));
    let out = b.finish();
    assert!(out.contains("e.txt (0 bytes, 0 token)"));
}

#[test]
fn oversized_files_aggregate_their_size_only() {
    let mut b = builder(0, usize::MAX, false);
    assert!(b.add_classified(&comps(&["big.bin"]), Classification::Oversized, 500));
    assert_eq!(b.totals(), (500, 0));
    let out = b.finish();
    assert!(out.contains("big.bin (500 bytes, file size 500 bytes > 10Mb)"));
}

#[test]
fn invalid_encoding_aggregates_size_only() {
    let mut b = builder(0, usize::MAX, false);
    assert!(b.add_classified(&comps(&["bad.txt"]), Classification::InvalidEncoding, 33));
    assert_eq!(b.totals(), (33, 0));
    let out = b.finish();
    assert!(out.contains("bad.txt (33 bytes, contain invalid UTF-8)"));
}

#[test]
fn only_valid_hides_but_still_aggregates() {
    let mut b = builder(0, usize::MAX, true);
    assert!(b.add_classified(&comps(&["x.bin"]), Classification::Binary, 64));
    assert_eq!(b.totals(), (64, 0));
    let out = b.finish();
    assert!(!out.contains("x.bin"));
    assert!(out.contains("proj (64 bytes, total 0 token)"));
}

#[test]
fn directories_with_no_eligible_files_still_render() {
    let mut b = builder(0, usize::MAX, false);
    b.add_directory(&comps(&["sub"]));
    let out = b.finish();
    assert_eq!(out, "proj (0 bytes, total 0 token)\n    sub (0 bytes, total 0 token)\n");
}

#[test]
fn intermediate_directories_are_created_on_demand() {
    let mut b = builder(0, usize::MAX, false);
    assert!(b.add_classified(&comps(&["a", "b", "f.txt"]), Classification::Valid { token_count: 2 }, 4));
    let out = b.finish();
    let expected = "proj (4 bytes, total 2 tokens)\n\
                    \u{20}   a (4 bytes, total 2 tokens)\n\
                    \u{20}       b (4 bytes, total 2 tokens)\n\
                    \u{20}           f.txt (4 bytes, 2 tokens)\n";
    assert_eq!(out, expected);
}

#[test]
fn duplicate_entries_are_ignored() {
    let mut b = builder(0, usize::MAX, false);
    assert!(b.add_classified(&comps(&["a.txt"]), Classification::Valid { token_count: 2 }, 4));
    assert!(!b.add_classified(&comps(&["a.txt"]), Classification::Valid { token_count: 9 }, 9));
    assert_eq!(b.totals(), (4, 2));
}

#[test]
fn add_file_classifies_and_records() {
    let tok = get_tokenizer("o200k_base").unwrap();
    let mut b = builder(0, usize::MAX, false);
    let raw = b"hello world".to_vec();
    assert!(b.add_file(&comps(&["h.txt"]), &raw, 11, &tok));
    let (size, tokens) = b.totals();
    assert_eq!(size, 11);
    assert_eq!(tokens as usize, tok.token_count("hello world"));
    let binary = vec![0x00u8, 0x01];
    assert!(b.add_file(&comps(&["b.bin"]), &binary, 2, &tok));
    assert_eq!(b.totals().0, 13);
    assert_eq!(b.totals().1, tokens);
}
