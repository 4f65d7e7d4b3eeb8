use bwaa::text::{
    chunk_utf8, contains, is_blank, join, parse_u64, str_eq, trim, truncate_str,
    u64_to_decimal,
};

#[test]
fn trim_removes_surrounding_white_space() {
    assert_eq!(trim("  hello world \n\t"), "hello world");
    assert_eq!(trim("\u{3000}x\u{a0}"), "x");
    assert_eq!(trim("   "), "");
}

#[test]
fn blank_texts() {
    assert!(is_blank(""));
    assert!(is_blank(" \n\t\u{2028}"));
    assert!(!is_blank(" a "));
}

#[test]
fn truncate_str_cuts_after_max_bytes() {
    assert_eq!(truncate_str("hello", 3), "hel");
    assert_eq!(truncate_str("hello", 10), "hello");
    assert_eq!(truncate_str("héllo", 3), "hé");
}

#[test]
fn chunks_of_ascii_text() {
    let text = "a".repeat(4000);
    let chunks = chunk_utf8(&text, 1900);
    assert_eq!(chunks.len(), 3);
    assert_eq!(chunks[0].len(), 1900);
    assert_eq!(chunks[1].len(), 1900);
    assert_eq!(chunks[2].len(), 200);
}

#[test]
fn chunks_split_inside_a_character_are_dropped() {
    // "é" is two bytes: cutting after three bytes splits the second "é".
    let chunks = chunk_utf8("aéé", 2);
    // pieces: [a, 0xC3] invalid, [0xA9, 0xC3] invalid, [0xA9] invalid
    assert!(chunks.is_empty());
    let chunks = chunk_utf8("abcd", 3);
    assert_eq!(chunks, vec!["abc".to_string(), "d".to_string()]);
}

#[test]
fn join_with_separator() {
    let v = vec!["a".to_string(), "b".to_string(), "c".to_string()];
    assert_eq!(join(&v, " OR "), "a OR b OR c");
    assert_eq!(join(&Vec::new(), ", "), "");
}

#[test]
fn contains_finds_occurrences() {
    assert!(contains("status: Invalid argument (400)", "Invalid argument"));
    assert!(!contains("Invalid", "Invalid argument"));
    assert!(contains("abc", ""));
}

#[test]
fn parse_u64_like_std() {
    assert_eq!(parse_u64("123"), Some(123));
    assert_eq!(parse_u64("+7"), Some(7));
    assert_eq!(parse_u64("18446744073709551615"), Some(u64::MAX));
    assert_eq!(parse_u64("18446744073709551616"), None);
    assert_eq!(parse_u64(""), None);
    assert_eq!(parse_u64("+"), None);
    assert_eq!(parse_u64("-1"), None);
    assert_eq!(parse_u64("12a"), None);
    for s in ["0", "42", "+0042", "99999999999999999999", " 1", "1 "] {
        assert_eq!(parse_u64(s), s.parse::<u64>().ok());
    }
}

#[test]
fn decimal_text_like_std() {
    for n in [0u64, 7, 10, 1234567890, u64::MAX] {
        assert_eq!(u64_to_decimal(n), n.to_string());
    }
}

#[test]
fn str_eq_compares_characters() {
    assert!(str_eq("model", "model"));
    assert!(!str_eq("model", "user"));
    assert!(!str_eq("mode", "model"));
}

#[test]
fn decimal_text_reads_back_as_the_number() {
    for n in [0u64, 9, 10, 1234567890123456789, u64::MAX] {
        assert_eq!(parse_u64(&u64_to_decimal(n)), Some(n));
    }
}

#[test]
fn chunks_of_ascii_text_join_back_to_the_text() {
    let text: String = (0..5000).map(|i| char::from(b'a' + (i % 26) as u8)).collect();
    for size in [1, 7, 1900, 5000, 6000] {
        assert_eq!(chunk_utf8(&text, size).concat(), text);
    }
}

#[test]
fn chunks_cut_at_character_boundaries_join_back() {
    // Every cut after two bytes falls between two "é".
    let text = "é".repeat(10);
    assert_eq!(chunk_utf8(&text, 2).concat(), text);
    assert_eq!(chunk_utf8(&text, 4).concat(), text);
}
