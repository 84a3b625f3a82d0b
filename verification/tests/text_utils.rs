use explainer::text::{
    byte_len_exceeds, byte_prefix_chars, char_width, join_strings, push_decimal, u64_to_decimal,
};

#[test]
fn decimal_of_zero_and_small_numbers() {
    assert_eq!(u64_to_decimal(0), "0");
    assert_eq!(u64_to_decimal(7), "7");
    assert_eq!(u64_to_decimal(10), "10");
    assert_eq!(u64_to_decimal(1895656874), "1895656874");
}

#[test]
fn decimal_of_largest_number() {
    assert_eq!(u64_to_decimal(u64::MAX), "18446744073709551615");
    assert_eq!(u64_to_decimal(u64::MAX), u64::MAX.to_string());
}

#[test]
fn push_decimal_appends() {
    let mut s = String::from("offset=");
    push_decimal(&mut s, 42);
    assert_eq!(s, "offset=42");
}

#[test]
fn char_widths_follow_utf8() {
    assert_eq!(char_width('a'), 1);
    assert_eq!(char_width('é'), 2);
    assert_eq!(char_width('日'), 3);
    assert_eq!(char_width('😀'), 4);
    for c in ['a', 'é', '日', '😀', '\u{7f}', '\u{80}', '\u{7ff}', '\u{800}', '\u{ffff}', '\u{10000}'] {
        assert_eq!(char_width(c), c.len_utf8());
    }
}

#[test]
fn byte_length_comparisons() {
    assert!(byte_len_exceeds("abc", 2));
    assert!(!byte_len_exceeds("abc", 3));
    assert!(byte_len_exceeds("é", 1));
    assert!(!byte_len_exceeds("é", 2));
    assert!(byte_len_exceeds("日本", 5));
    assert!(!byte_len_exceeds("", 0));
}

#[test]
fn byte_prefixes_stop_at_character_boundaries() {
    assert_eq!(byte_prefix_chars("bix", 3), Some(3));
    assert_eq!(byte_prefix_chars("aé", 3), Some(2));
    assert_eq!(byte_prefix_chars("éé", 3), None);
    assert_eq!(byte_prefix_chars("ab", 3), None);
    assert_eq!(byte_prefix_chars("", 0), Some(0));
    assert_eq!(byte_prefix_chars("日", 1), None);
    for (s, k) in [("bixby", 3usize), ("aé", 3), ("éé", 3), ("ab", 3), ("日", 1), ("x", 1)] {
        let expected = s.get(..k).map(|p| p.chars().count());
        assert_eq!(byte_prefix_chars(s, k), expected);
    }
}

#[test]
fn join_places_separator_between_parts() {
    let parts = vec![String::from("a"), String::from("b"), String::from("c")];
    assert_eq!(join_strings(&parts, ", "), "a, b, c");
    assert_eq!(join_strings(&vec![String::from("only")], "-"), "only");
    assert_eq!(join_strings(&Vec::new(), "-"), "");
    assert_eq!(join_strings(&parts, ", "), parts.join(", "));
}

#[test]
fn byte_length_agrees_with_str_len() {
    for s in ["", "a", "bix", "é", "日本", "😀x", "aé日😀"] {
        for n in 0..12usize {
            assert_eq!(byte_len_exceeds(s, n), s.len() > n);
        }
    }
}
