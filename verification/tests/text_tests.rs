use rust_slint_sticky::clock::current_timestamp;
use rust_slint_sticky::text::{
    chars_of, contains_chars, contains_text, decimal_text, is_blank, same_text, split_words,
};

fn chars(s: &str) -> Vec<char> {
    s.chars().collect()
}

#[test]
fn split_words_matches_split_whitespace() {
    let samples = [
        "",
        " ",
        "one",
        " one ",
        "one two",
        "  one \t two\nthree  ",
        "a\u{a0}b\u{2003}c\u{3000}d\u{85}e\u{1680}f",
        "tab\tseparated\u{b}vertical\u{c}feed\rreturn",
        "zero\u{200b}width stays",
        "éé üü\u{2028}ßß",
    ];
    for sample in samples {
        let expected: Vec<String> = sample.split_whitespace().map(|w| w.to_string()).collect();
        assert_eq!(split_words(sample), expected, "{:?}", sample);
    }
}

#[test]
fn chars_of_lists_the_characters() {
    assert_eq!(chars_of(""), Vec::<char>::new());
    assert_eq!(chars_of("añ€😀"), vec!['a', 'ñ', '€', '😀']);
}

#[test]
fn contains_chars_matches_str_contains() {
    let cases = [
        ("", ""),
        ("abc", ""),
        ("", "a"),
        ("abc", "abc"),
        ("abc", "abcd"),
        ("aab", "ab"),
        ("abab", "bab"),
        ("abab", "bb"),
        ("good morning", "morning"),
        ("ñandú", "dú"),
    ];
    for (haystack, needle) in cases {
        assert_eq!(
            contains_chars(&chars(haystack), &chars(needle)),
            haystack.contains(needle),
            "{:?} {:?}",
            haystack,
            needle
        );
    }
}

#[test]
fn same_text_compares_characters() {
    assert!(same_text("", ""));
    assert!(same_text("note", "note"));
    assert!(!same_text("note", "notes"));
    assert!(!same_text("note", "nota"));
    assert!(!same_text("é", "e\u{301}"));
    let list = vec!["a".to_string(), "bc".to_string()];
    assert!(contains_text(&list, "bc"));
    assert!(!contains_text(&list, "b"));
    assert!(!contains_text(&Vec::new(), ""));
}

#[test]
fn is_blank_matches_trim() {
    for sample in ["", " ", "\n\t \r", "\u{a0}\u{3000}", " x ", "\u{200b}", "{}"] {
        assert_eq!(is_blank(sample), sample.trim().is_empty(), "{:?}", sample);
    }
}

#[test]
fn decimal_text_writes_numbers() {
    for n in [0u128, 1, 9, 10, 11, 99, 100, 1023, 1024, 18446744073709551615, u128::MAX] {
        assert_eq!(decimal_text(n), n.to_string());
    }
}

#[test]
fn current_timestamp_is_year_month_day_hour_minute() {
    let stamp = current_timestamp();
    let bytes = stamp.as_bytes();
    assert_eq!(bytes.len(), 16, "{}", stamp);
    for (i, b) in bytes.iter().enumerate() {
        match i {
            4 | 7 => assert_eq!(*b, b'-'),
            10 => assert_eq!(*b, b' '),
            13 => assert_eq!(*b, b':'),
            _ => assert!(b.is_ascii_digit()),
        }
    }
    let month: u32 = stamp[5..7].parse().unwrap();
    let day: u32 = stamp[8..10].parse().unwrap();
    let hour: u32 = stamp[11..13].parse().unwrap();
    let minute: u32 = stamp[14..16].parse().unwrap();
    assert!((1..=12).contains(&month) && (1..=31).contains(&day));
    assert!(hour < 24 && minute < 60);
}

fn carries_white_space(c: char) -> bool {
    matches!(
        c,
        '\u{9}'..='\u{d}'
            | ' '
            | '\u{85}'
            | '\u{a0}'
            | '\u{1680}'
            | '\u{2000}'..='\u{200a}'
            | '\u{2028}'
            | '\u{2029}'
            | '\u{202f}'
            | '\u{205f}'
            | '\u{3000}'
    )
}

#[test]
fn whitespace_is_the_white_space_property_for_every_character() {
    let mut count = 0;
    for code in 0..=0x10ffffu32 {
        if let Some(c) = char::from_u32(code) {
            let blank = is_blank(c.encode_utf8(&mut [0; 4]));
            assert_eq!(blank, carries_white_space(c), "U+{:04X}", code);
            assert_eq!(blank, c.is_whitespace(), "U+{:04X}", code);
            if blank {
                count += 1;
            }
        }
    }
    assert_eq!(count, 25);
}
