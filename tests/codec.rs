use upman::codec::{decode, encode};
use upman::text::{is_blank, is_white_space, split_at_char, split_lines};

#[test]
fn encode_prefixes_marker() {
    assert_eq!(encode("echo hi"), "$ echo hi");
}

#[test]
fn decode_round_trip() {
    for t in ["echo hi", "x", "sudo apt update && sudo apt upgrade", " lead", "a$ b"] {
        assert_eq!(decode(&encode(t)), Some(t.to_string()));
    }
}

#[test]
fn decode_non_entry_lines() {
    assert_eq!(decode(""), None);
    assert_eq!(decode("   "), None);
    assert_eq!(decode("echo hi"), None);
    assert_eq!(decode(" $ echo hi"), None);
}

#[test]
fn decode_bare_marker_is_empty() {
    assert_eq!(decode("$"), Some(String::new()));
    assert_eq!(decode("$ "), Some(String::new()));
    assert_eq!(decode("$echo"), Some(String::new()));
}

#[test]
fn split_lines_cases() {
    assert_eq!(split_lines(""), Vec::<String>::new());
    assert_eq!(split_lines("a"), vec!["a".to_string()]);
    assert_eq!(split_lines("a\n"), vec!["a".to_string()]);
    assert_eq!(split_lines("a\nb"), vec!["a".to_string(), "b".to_string()]);
    assert_eq!(split_lines("a\n\nb\n"), vec!["a".to_string(), String::new(), "b".to_string()]);
    assert_eq!(split_lines("\n"), vec![String::new()]);
}

#[test]
fn split_at_char_keeps_empty_pieces() {
    assert_eq!(
        split_at_char("echo  hi ", ' '),
        vec!["echo".to_string(), String::new(), "hi".to_string(), String::new()]
    );
    assert_eq!(split_at_char("", ' '), vec![String::new()]);
    assert_eq!(split_at_char("é ü", ' '), vec!["é".to_string(), "ü".to_string()]);
}

#[test]
fn blank_text() {
    assert!(is_blank(""));
    assert!(is_blank(" \t "));
    assert!(is_blank("\u{a0}"));
    assert!(!is_blank(" x "));
}

#[test]
fn white_space_matches_std_on_every_char() {
    for u in 0u32..=0x10FFFF {
        if let Some(c) = char::from_u32(u) {
            assert_eq!(is_white_space(c), c.is_whitespace(), "U+{:04X}", u);
        }
    }
}

#[test]
fn blank_text_wide_spaces() {
    assert!(is_blank("\u{3000}\u{85}\u{2028}\r\n"));
    assert!(!is_blank("\u{200B}"));
}
