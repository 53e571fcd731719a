use sigi::text::{
    comes_before, decimal, join_from, joined, lowercased, parse_number, same_text, sorted_texts,
    space, strip_suffix, words_of,
};

fn owned(texts: &[&str]) -> Vec<String> {
    texts.iter().map(|t| t.to_string()).collect()
}

#[test]
fn numbers_are_written_in_decimal() {
    assert_eq!(decimal(0), "0");
    assert_eq!(decimal(7), "7");
    assert_eq!(decimal(10), "10");
    assert_eq!(decimal(42), "42");
    assert_eq!(decimal(1234567890), "1234567890");
    assert_eq!(decimal(usize::MAX), usize::MAX.to_string());
}

#[test]
fn texts_are_the_same_by_their_characters() {
    assert!(same_text("", ""));
    assert!(same_text("stack", "stack"));
    assert!(!same_text("stack", "Stack"));
    assert!(!same_text("stack", "stacks"));
    assert!(same_text("bi\u{e5}he", "biåhe"));
}

#[test]
fn joining_two_texts() {
    assert_eq!(joined("work", "_history"), "work_history");
    assert_eq!(joined("", ""), "");
}

#[test]
fn stripping_a_suffix() {
    assert_eq!(strip_suffix("work.json", ".json"), Some("work".to_string()));
    assert_eq!(strip_suffix(".json", ".json"), Some("".to_string()));
    assert_eq!(strip_suffix("json", ".json"), None);
    assert_eq!(strip_suffix("work.jsonx", ".json"), None);
    assert_eq!(strip_suffix("wörk.json", ".json"), Some("wörk".to_string()));
    assert_eq!(strip_suffix("work", ""), Some("work".to_string()));
}

#[test]
fn the_order_of_texts() {
    assert!(comes_before("a", "b"));
    assert!(!comes_before("b", "a"));
    assert!(!comes_before("a", "a"));
    assert!(comes_before("", "a"));
    assert!(!comes_before("a", ""));
    assert!(comes_before("a", "ab"));
    assert!(comes_before("Z", "a"));
    assert!(comes_before("abc", "abd"));
    assert!(comes_before("z", "é"));
    for (a, b) in [("a", "b"), ("", "x"), ("é", "z"), ("work", "work_history"), ("10", "9")] {
        assert_eq!(comes_before(a, b), a < b);
        assert_eq!(comes_before(b, a), b < a);
    }
}

#[test]
fn sorting_texts() {
    let sorted = sorted_texts(owned(&["pear", "apple", "fig", "Apple", "apple", ""]));
    assert_eq!(sorted, owned(&["", "Apple", "apple", "apple", "fig", "pear"]));
    assert_eq!(sorted_texts(vec![]), Vec::<String>::new());
    let mut expected = owned(&["b", "a", "é", "z", "ab", "B"]);
    expected.sort();
    assert_eq!(sorted_texts(owned(&["b", "a", "é", "z", "ab", "B"])), expected);
}

#[test]
fn white_space() {
    for c in [' ', '\t', '\n', '\r', '\u{c}'] {
        assert!(space(c, true));
        assert!(space(c, false));
    }
    assert!(!space('\u{b}', true));
    assert!(space('\u{b}', false));
    assert!(!space('\u{a0}', true));
    assert!(space('\u{a0}', false));
    assert!(!space('a', true));
    assert!(!space('a', false));
    for n in 0..0x3100u32 {
        if let Some(c) = char::from_u32(n) {
            assert_eq!(space(c, false), c.is_whitespace());
            assert_eq!(space(c, true), c.is_ascii_whitespace());
        }
    }
}

#[test]
fn splitting_into_words() {
    assert_eq!(words_of("push  a new\tthing ", true), owned(&["push", "a", "new", "thing"]));
    assert_eq!(words_of("", true), Vec::<String>::new());
    assert_eq!(words_of(" \n ", true), Vec::<String>::new());
    assert_eq!(words_of("one", true), owned(&["one"]));
    assert_eq!(words_of("a\u{a0}b", true), owned(&["a\u{a0}b"]));
    assert_eq!(words_of("a\u{a0}b", false), owned(&["a", "b"]));
    let line = "  vim -u  NONE\u{2003}file ";
    let expected: Vec<String> = line.split_whitespace().map(|w| w.to_string()).collect();
    assert_eq!(words_of(line, false), expected);
}

#[test]
fn lower_case() {
    assert_eq!(lowercased("HeLLo, World! ÄÖ"), "hello, world! ÄÖ");
    assert_eq!(lowercased("AZ@[az"), "az@[az");
    assert_eq!(lowercased(""), "");
}

#[test]
fn reading_numbers() {
    assert_eq!(parse_number("0"), Some(0));
    assert_eq!(parse_number("42"), Some(42));
    assert_eq!(parse_number("+42"), Some(42));
    assert_eq!(parse_number("007"), Some(7));
    assert_eq!(parse_number(""), None);
    assert_eq!(parse_number("+"), None);
    assert_eq!(parse_number("-1"), None);
    assert_eq!(parse_number("++1"), None);
    assert_eq!(parse_number("1+"), None);
    assert_eq!(parse_number(" 1"), None);
    assert_eq!(parse_number("1a"), None);
    assert_eq!(parse_number("pick"), None);
    assert_eq!(parse_number("١"), None);
    assert_eq!(parse_number(&usize::MAX.to_string()), Some(usize::MAX));
    assert_eq!(parse_number("18446744073709551616"), None);
    assert_eq!(parse_number("99999999999999999999999"), None);
    for text in ["0", "+0", "12", "+", "", "-0", "1 ", "18446744073709551615", "18446744073709551616"] {
        assert_eq!(parse_number(text), text.parse::<usize>().ok());
    }
}

#[test]
fn joining_words() {
    let words = owned(&["push", "a", "new", "thing"]);
    assert_eq!(join_from(&words, 1, " "), "a new thing");
    assert_eq!(join_from(&words, 0, ", "), "push, a, new, thing");
    assert_eq!(join_from(&words, 3, " "), "thing");
    assert_eq!(join_from(&words, 4, " "), "");
    assert_eq!(join_from(&words, 9, " "), "");
    assert_eq!(join_from(&vec![], 0, " "), "");
}
