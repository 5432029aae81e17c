use imap_safe_mail::name_map::NameMap;
use imap_safe_mail::text::{
    chars_of, compare, decimal_string, parse_decimal, split, split_lines, string_of, strip_prefix,
    trim, white_space, Comparison,
};

#[test]
fn white_space_is_the_unicode_property() {
    let mut n: u32 = 0;
    while n <= 0x10FFFF {
        if let Some(c) = char::from_u32(n) {
            assert_eq!(white_space(c), c.is_whitespace());
        }
        n += 1;
    }
    assert_eq!(chars_of("aé"), vec!['a', 'é']);
}

#[test]
fn lines_and_parts_are_those_of_the_standard_library() {
    for s in ["", "\n", "a", "a\n", "a\r\nb", "a\r", "\r\n\r\n", "a\n\nb\r\r\n", "é,\n,x"] {
        let chars = chars_of(s);
        let lines: Vec<String> = split_lines(&chars).iter().map(|l| string_of(l)).collect();
        assert_eq!(lines, s.lines().collect::<Vec<&str>>());
        let parts: Vec<String> = split(&chars, ',').iter().map(|l| string_of(l)).collect();
        assert_eq!(parts, s.split(',').collect::<Vec<&str>>());
        assert_eq!(string_of(trim(&chars)), s.trim());
    }
}

#[test]
fn numbers_are_read_and_written_in_decimal() {
    assert_eq!(decimal_string(0), "0");
    assert_eq!(decimal_string(1050), "1050");
    assert_eq!(decimal_string(u64::MAX), "18446744073709551615");
    for s in ["0", "+0", "00042", "", "+", "-1", "1x", "++1", "256", "255", "18446744073709551616"] {
        let chars = chars_of(s);
        assert_eq!(parse_decimal(&chars, u64::MAX), s.parse::<u64>().ok());
        assert_eq!(
            parse_decimal(&chars, 255),
            s.parse::<u8>().ok().map(u64::from)
        );
    }
}

#[test]
fn texts_are_ordered_by_their_bytes() {
    let texts = ["", "a", "B", "ab", "é", "\u{FFFD}", "\u{10000}"];
    for a in texts {
        for b in texts {
            let less = matches!(compare(a, b), Comparison::Less);
            let equal = matches!(compare(a, b), Comparison::Equal);
            assert_eq!(less, a < b);
            assert_eq!(equal, a == b);
        }
    }
    let chars = chars_of("key=value");
    assert_eq!(strip_prefix(&chars, "key=").map(string_of), Some("value".to_string()));
    assert!(strip_prefix(&chars, "value").is_none());
}

#[test]
fn a_name_map_keeps_its_names_in_order() {
    let mut map: NameMap<u32> = NameMap::new();
    map.insert("b".to_string(), 1);
    map.insert("c".to_string(), 2);
    map.insert("a".to_string(), 3);
    map.insert("b".to_string(), 4);
    assert_eq!(map.len(), 3);
    assert_eq!(map.entry(0), ("a", &3));
    assert_eq!(map.entry(1), ("b", &4));
    assert_eq!(map.entry(2), ("c", &2));
    assert_eq!(map.get("b"), Some(&4));
    assert_eq!(map.get("d"), None);
}
