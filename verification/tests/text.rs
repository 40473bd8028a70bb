use kidplan_downloader::digits::{push_decimal, push_hexadecimal, push_signed, push_zero_padded};
use kidplan_downloader::order::{chars_less, TextSet};
use kidplan_downloader::text::{
    ascii_alphanumeric, chars_of, find_last, first_token_chars, has_prefix, has_suffix,
    same_chars, split_chars, string_of, trim_char, trim_chars, white_space,
};

fn chars(s: &str) -> Vec<char> {
    s.chars().collect()
}

fn text(v: &Vec<char>) -> String {
    v.iter().collect()
}

#[test]
fn chars_and_strings_convert_both_ways() {
    for s in ["", "a", "Åpen Dag", "日本語 \u{1F600}!"] {
        assert_eq!(chars_of(s), chars(s));
        assert_eq!(string_of(&chars(s)), s);
    }
}

#[test]
fn white_space_is_what_std_calls_white_space() {
    let mut n: u32 = 0;
    while n <= 0x10FFFF {
        if let Some(c) = char::from_u32(n) {
            assert_eq!(white_space(c), c.is_whitespace());
            assert_eq!(ascii_alphanumeric(c), c.is_ascii_alphanumeric());
        }
        n += 1;
    }
}

#[test]
fn trimming_agrees_with_std() {
    for s in ["", "   ", " a ", "\t\r\n x y \u{a0}\u{3000}", "none", "\u{2003}é\u{85}"] {
        assert_eq!(text(&trim_chars(&chars(s))), s.trim());
    }
    for s in ["", "---", "-a-", "--a--b--", "a", "-"] {
        assert_eq!(text(&trim_char(&chars(s), '-')), s.trim_matches('-'));
    }
}

#[test]
fn splitting_agrees_with_std() {
    for s in ["", ",", "a", "a,b", "a,,b,", ",a", "x y, z 2x ,"] {
        let pieces: Vec<String> = split_chars(&chars(s), ',').iter().map(text).collect();
        let expected: Vec<String> = s.split(',').map(String::from).collect();
        assert_eq!(pieces, expected);
    }
}

#[test]
fn first_token_is_the_first_word() {
    for s in ["", "  ", "a", "  a b ", "url 2x", "\n\turl\u{a0}480w", " x"] {
        let expected = s.trim().split_whitespace().next().unwrap_or("");
        assert_eq!(text(&first_token_chars(&chars(s))), expected);
    }
}

#[test]
fn prefixes_suffixes_and_last_index_agree_with_std() {
    let samples = ["", "a", "ab", "abc", "img.kidplan.com", "ximg.kidplan.com", "http://", "//x"];
    for s in samples {
        for p in samples {
            assert_eq!(has_prefix(&chars(s), &chars(p)), s.starts_with(p));
            assert_eq!(has_suffix(&chars(s), &chars(p)), s.ends_with(p));
            assert_eq!(same_chars(&chars(s), &chars(p)), s == p);
        }
    }
    assert_eq!(find_last(&chars("/a.b/c.d"), '.'), Some(6));
    assert_eq!(find_last(&chars("."), '.'), Some(0));
    assert_eq!(find_last(&chars("abc"), '.'), None);
    assert_eq!(find_last(&chars(""), '.'), None);
}

#[test]
fn lexicographic_order_is_the_order_of_strings() {
    let samples = ["", "a", "A", "ab", "b", "aa", "å", "z", "日本", "\u{10FFFF}", "a\u{0}"];
    for a in samples {
        for b in samples {
            assert_eq!(chars_less(&chars(a), &chars(b)), a < b);
        }
    }
}

#[test]
fn text_set_keeps_each_text_once_and_in_order() {
    let mut set = TextSet::new();
    assert_eq!(set.len(), 0);
    assert!(!set.contains("b"));
    assert!(set.insert("b".to_string()));
    assert!(set.insert("a".to_string()));
    assert!(set.insert("c".to_string()));
    assert!(!set.insert("b".to_string()));
    assert!(set.insert("".to_string()));
    assert_eq!(set.len(), 4);
    assert!(set.contains("a") && set.contains("b") && set.contains("c") && set.contains(""));
    assert!(!set.contains("d"));
    assert_eq!(set.get(1), "a");
    set.insert_all(&vec!["d".to_string(), "a".to_string(), "0".to_string()]);
    assert_eq!(set.into_vec(), vec!["", "0", "a", "b", "c", "d"]);
}

#[test]
fn numbers_are_written_as_format_writes_them() {
    for n in [0u128, 7, 9, 10, 42, 100, 65535, u64::MAX as u128, u128::MAX] {
        let mut d = Vec::new();
        push_decimal(&mut d, n);
        assert_eq!(text(&d), format!("{}", n));
        let mut h = Vec::new();
        push_hexadecimal(&mut h, n);
        assert_eq!(text(&h), format!("{:x}", n));
    }
    for n in [0i64, -1, 1, 17, -450, i64::MAX, i64::MIN] {
        let mut d = chars("kid=");
        push_signed(&mut d, n);
        assert_eq!(text(&d), format!("kid={}", n));
    }
    for n in [0usize, 5, 12, 999, 1000, 9999, 10000, 123456] {
        let mut d = Vec::new();
        push_zero_padded(&mut d, &chars(&format!("{}", n)), 4);
        assert_eq!(text(&d), format!("{:04}", n));
    }
}
