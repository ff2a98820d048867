use silent_crawler::text_set::{compare, Comparison, TextSet};

fn chars(s: &str) -> Vec<char> {
    s.chars().collect()
}

const WORDS: [&str; 14] = [
    "http://example.com/",
    "",
    "a",
    "ab",
    "b",
    "A",
    "Z",
    "a/",
    "a.",
    "é",
    "z",
    "\u{10FFFF}",
    "\u{FFFF}",
    "http://example.com/a",
];

#[test]
fn compare_orders_as_str_does() {
    for a in WORDS {
        for b in WORDS {
            let expected = if a < b {
                Comparison::Less
            } else if a == b {
                Comparison::Equal
            } else {
                Comparison::Greater
            };
            assert_eq!(compare(&chars(a), &chars(b)), expected, "{:?} against {:?}", a, b);
        }
    }
}

#[test]
fn a_proper_prefix_comes_first() {
    assert_eq!(compare(&chars("abc"), &chars("abcd")), Comparison::Less);
    assert_eq!(compare(&chars("abcd"), &chars("abc")), Comparison::Greater);
    assert_eq!(compare(&chars(""), &chars("")), Comparison::Equal);
}

#[test]
fn insert_says_whether_the_element_is_new() {
    let mut set = TextSet::new();
    assert!(set.is_empty());
    assert!(set.insert(chars("b")));
    assert!(set.insert(chars("a")));
    assert!(!set.insert(chars("b")));
    assert!(set.insert(chars("c")));
    assert!(!set.insert(chars("a")));
    assert_eq!(set.len(), 3);
    assert!(!set.is_empty());
    assert!(set.contains(&chars("a")));
    assert!(set.contains(&chars("b")));
    assert!(set.contains(&chars("c")));
    assert!(!set.contains(&chars("d")));
    assert!(!set.contains(&chars("")));
    assert_eq!(set.get(0), &chars("a"));
    assert_eq!(set.get(2), &chars("c"));
}

#[test]
fn to_strings_is_sorted_and_without_duplicates() {
    let mut set = TextSet::new();
    for word in WORDS {
        set.insert(chars(word));
    }
    for word in WORDS {
        set.insert(chars(word));
    }
    let mut expected: Vec<String> = WORDS.iter().map(|w| w.to_string()).collect();
    expected.sort();
    expected.dedup();
    assert_eq!(set.to_strings(), expected);
    assert_eq!(set.len(), expected.len());
}

#[test]
fn an_empty_set_lists_nothing() {
    let set = TextSet::new();
    assert_eq!(set.len(), 0);
    assert_eq!(set.to_strings(), Vec::<String>::new());
    assert!(!set.contains(&chars("a")));
}
