use silent_crawler::text::{
    char_is_whitespace, chars_of, contains_text, copy_range, ends_with, find_first, find_last,
    same_text, starts_with, string_of, strip_trailing_len, trim_bounds,
};

fn chars(s: &str) -> Vec<char> {
    s.chars().collect()
}

#[test]
fn chars_and_strings_convert_both_ways() {
    assert_eq!(chars_of("héllo"), vec!['h', 'é', 'l', 'l', 'o']);
    assert_eq!(chars_of(""), Vec::<char>::new());
    assert_eq!(string_of(&['a', '/', '\u{10FFFF}']), "a/\u{10FFFF}");
    assert_eq!(string_of(&chars_of("http://example.com/ä?x=1#y")), "http://example.com/ä?x=1#y");
}

#[test]
fn copy_range_takes_the_half_open_range() {
    let s = chars("abcdef");
    assert_eq!(copy_range(&s, 1, 4), chars("bcd"));
    assert_eq!(copy_range(&s, 0, 6), s);
    assert_eq!(copy_range(&s, 3, 3), Vec::<char>::new());
}

#[test]
fn find_first_and_last_give_the_outermost_positions() {
    let s = chars("/a/b/c.html");
    assert_eq!(find_first(&s, '/'), Some(0));
    assert_eq!(find_last(&s, '/'), Some(4));
    assert_eq!(find_first(&s, '.'), Some(6));
    assert_eq!(find_last(&s, '.'), Some(6));
    assert_eq!(find_first(&s, '#'), None);
    assert_eq!(find_last(&s, '#'), None);
    assert_eq!(find_first(&[], 'a'), None);
    assert_eq!(find_last(&[], 'a'), None);
}

#[test]
fn prefix_and_suffix_tests() {
    let s = chars("mailto:someone");
    assert!(starts_with(&s, &chars("mailto:")));
    assert!(starts_with(&s, &chars("")));
    assert!(starts_with(&s, &s));
    assert!(!starts_with(&s, &chars("mailto;")));
    assert!(!starts_with(&chars("mail"), &chars("mailto:")));
    assert!(ends_with(&s, &chars("one")));
    assert!(ends_with(&s, &chars("")));
    assert!(ends_with(&s, &s));
    assert!(!ends_with(&s, &chars("two")));
    assert!(!ends_with(&chars("ne"), &chars("one")));
}

#[test]
fn same_text_is_equality_of_texts() {
    assert!(same_text(&chars("http://a/"), &chars("http://a/")));
    assert!(same_text(&chars(""), &chars("")));
    assert!(!same_text(&chars("http://a/"), &chars("http://a")));
    assert!(!same_text(&chars("http://a"), &chars("http://a/")));
    assert!(!same_text(&chars("abc"), &chars("abd")));
}

#[test]
fn contains_text_finds_a_run_anywhere() {
    let s = chars("application/xhtml; text/html; charset=utf-8");
    assert!(contains_text(&s, &chars("text/html")));
    assert!(contains_text(&s, &chars("application")));
    assert!(contains_text(&s, &chars("utf-8")));
    assert!(contains_text(&s, &chars("")));
    assert!(contains_text(&[], &chars("")));
    assert!(!contains_text(&s, &chars("text/plain")));
    assert!(!contains_text(&chars("text/htm"), &chars("text/html")));
    assert!(contains_text(&chars("aaab"), &chars("aab")));
}

#[test]
fn whitespace_is_what_std_calls_whitespace() {
    let mut n: u32 = 0;
    while n <= 0x10FFFF {
        if let Some(c) = char::from_u32(n) {
            assert_eq!(char_is_whitespace(c), c.is_whitespace(), "code point {:x}", n);
        }
        n += 1;
    }
}

#[test]
fn trim_bounds_agree_with_std_trim() {
    let samples = [
        "",
        "   ",
        "abc",
        "  abc",
        "abc  ",
        " \t a b \r\n",
        "\u{3000}x\u{a0}",
        "\u{2003}Disallow: /x\u{85}",
        "a",
        " a",
        "a ",
    ];
    for sample in samples {
        let s = chars(sample);
        let (from, to) = trim_bounds(&s);
        assert!(from <= to && to <= s.len());
        assert_eq!(string_of(&s[from..to]), sample.trim());
    }
}

#[test]
fn strip_trailing_len_drops_the_whole_run() {
    assert_eq!(strip_trailing_len(&chars("http://example.com///"), '/'), 18);
    assert_eq!(strip_trailing_len(&chars("http://example.com"), '/'), 18);
    assert_eq!(strip_trailing_len(&chars("///"), '/'), 0);
    assert_eq!(strip_trailing_len(&chars(""), '/'), 0);
    assert_eq!(strip_trailing_len(&chars("a/b"), '/'), 3);
}
