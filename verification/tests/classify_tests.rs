use tokenum::classify::{classify_bytes, Classification, FileToken};
use tokenum::tokenizer::get_tokenizer;

#[test]
fn control_byte_means_binary() {
    let tok = get_tokenizer("o200k_base").unwrap();
    let raw = vec![0x00u8, 0x01, 0x02];
    assert_eq!(classify_bytes(&raw, 3, 100, &tok), Classification::Binary);
}

#[test]
fn no_control_bytes_never_binary() {
    let tok = get_tokenizer("o200k_base").unwrap();
    let raw = vec![0x09u8];
    assert_ne!(classify_bytes(&raw, 1, 100, &tok), Classification::Binary);
}

#[test]
fn only_first_fifty_bytes_checked() {
    let tok = get_tokenizer("o200k_base").unwrap();
    let mut raw = vec![b'a'; 50];
    raw.push(0x00);
    let c = classify_bytes(&raw, 51, 100, &tok);
    assert_ne!(c, Classification::Binary);
}

#[test]
fn control_byte_within_fifty_detected() {
    let tok = get_tokenizer("o200k_base").unwrap();
    let mut raw = vec![b'a'; 49];
    raw.push(0x08);
    assert_eq!(classify_bytes(&raw, 50, 100, &tok), Classification::Binary);
}

#[test]
fn empty_content_is_empty() {
    let tok = get_tokenizer("o200k_base").unwrap();
    let raw: Vec<u8> = vec![];
    assert_eq!(classify_bytes(&raw, 0, 100, &tok), Classification::Empty);
}

#[test]
fn invalid_utf8_detected() {
    let tok = get_tokenizer("o200k_base").unwrap();
    let raw = vec![0xFFu8, 0xFE, b'a'];
    assert_eq!(classify_bytes(&raw, 3, 100, &tok), Classification::InvalidEncoding);
}

#[test]
fn size_above_cap_is_oversized() {
    let tok = get_tokenizer("o200k_base").unwrap();
    let raw = vec![b'a'];
    assert_eq!(classify_bytes(&raw, 101, 100, &tok), Classification::Oversized);
}

#[test]
fn oversized_wins_over_binary() {
    let tok = get_tokenizer("o200k_base").unwrap();
    let raw = vec![0x00u8];
    assert_eq!(classify_bytes(&raw, 101, 100, &tok), Classification::Oversized);
}

#[test]
fn unlimited_cap_never_oversized() {
    let tok = get_tokenizer("o200k_base").unwrap();
    let raw = vec![b'a'];
    assert_ne!(classify_bytes(&raw, u64::MAX, u64::MAX, &tok), Classification::Oversized);
}

#[test]
fn text_is_valid_with_token_count() {
    let tok = get_tokenizer("o200k_base").unwrap();
    let raw = b"hello world".to_vec();
    match classify_bytes(&raw, 11, 100, &tok) {
        Classification::Valid { token_count } => {
            assert!(token_count >= 1);
            assert_eq!(token_count, tok.token_count("hello world"));
        },
        c => panic!("unexpected classification {:?}", c),
    }
}

#[test]
fn file_token_decodes_text() {
    let mut ft = FileToken::new(b"hi".to_vec(), 2);
    assert_eq!(ft.size, "2 bytes");
    assert_eq!(ft.string, "");
    assert!(ft.not_binary());
    assert_eq!(ft.string, "hi");
}

#[test]
fn file_token_flags_binary() {
    let mut ft = FileToken::new(vec![0x00u8, b'a'], 2);
    assert!(!ft.not_binary());
    assert_eq!(ft.string, "");
}

#[test]
fn file_token_replaces_invalid_bytes() {
    let mut ft = FileToken::new(vec![0xFFu8], 1);
    assert!(ft.not_binary());
    assert_eq!(ft.string, "\u{FFFD}");
}
