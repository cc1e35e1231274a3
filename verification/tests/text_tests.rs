use reflect_ai::text::{
    contains, contains_chars, is_whitespace, join_chars, split_chars, split_words, to_chars,
    to_lower, to_string, trim_chars, Separator,
};

fn chars(s: &str) -> Vec<char> {
    s.chars().collect()
}

fn strings(rows: &Vec<Vec<char>>) -> Vec<String> {
    rows.iter().map(|row| row.iter().collect()).collect()
}

#[test]
fn whitespace_is_what_std_calls_whitespace() {
    let mut code: u32 = 0;
    while code <= 0x10FFFF {
        if let Some(c) = char::from_u32(code) {
            assert_eq!(is_whitespace(c), c.is_whitespace(), "U+{:04X}", code);
        }
        code += 1;
    }
}

#[test]
fn whitespace_of_common_characters() {
    assert!(is_whitespace(' '));
    assert!(is_whitespace('\n'));
    assert!(is_whitespace('\r'));
    assert!(is_whitespace('\t'));
    assert!(is_whitespace('\u{A0}'));
    assert!(is_whitespace('\u{3000}'));
    assert!(!is_whitespace('a'));
    assert!(!is_whitespace('.'));
    assert!(!is_whitespace('\u{200B}'));
}

#[test]
fn chars_and_strings_convert_both_ways() {
    assert_eq!(to_chars("héllo"), vec!['h', 'é', 'l', 'l', 'o']);
    assert_eq!(to_chars(""), Vec::<char>::new());
    assert_eq!(to_string(&vec!['a', 'ß', 'c']), "aßc");
    assert_eq!(to_string(&to_chars("round trip ✓")), "round trip ✓");
}

#[test]
fn split_gives_one_piece_more_than_separators() {
    let pieces = split_chars(&chars("One. Two. Three. Four."), Separator::Char('.'));
    assert_eq!(strings(&pieces), vec!["One", " Two", " Three", " Four", ""]);
    let pieces = split_chars(&chars(""), Separator::Char('.'));
    assert_eq!(strings(&pieces), vec![""]);
    let pieces = split_chars(&chars(".."), Separator::Char('.'));
    assert_eq!(strings(&pieces), vec!["", "", ""]);
    let pieces = split_chars(&chars("a b"), Separator::Whitespace);
    assert_eq!(strings(&pieces), vec!["a", "b"]);
}

#[test]
fn words_are_the_runs_between_white_space() {
    let found = split_words(&chars("  the quick\tbrown\n\nfox  "));
    assert_eq!(strings(&found), vec!["the", "quick", "brown", "fox"]);
    assert!(split_words(&chars("")).is_empty());
    assert!(split_words(&chars(" \t\n ")).is_empty());
    let text = "a  b\u{A0}c";
    let expected: Vec<String> = text.split_whitespace().map(|w| w.to_string()).collect();
    assert_eq!(strings(&split_words(&chars(text))), expected);
}

#[test]
fn trim_removes_white_space_at_both_ends_only() {
    assert_eq!(to_string(&trim_chars(&chars("  a b \n"))), "a b");
    assert_eq!(to_string(&trim_chars(&chars("a b"))), "a b");
    assert_eq!(to_string(&trim_chars(&chars(" \t "))), "");
    assert_eq!(to_string(&trim_chars(&chars(""))), "");
}

#[test]
fn join_puts_the_separator_between_neighbours() {
    let parts = vec![chars("One"), chars("Two"), chars("Three")];
    assert_eq!(to_string(&join_chars(&parts, &chars(". "))), "One. Two. Three");
    assert_eq!(to_string(&join_chars(&vec![chars("One")], &chars(". "))), "One");
    assert_eq!(to_string(&join_chars(&Vec::new(), &chars(". "))), "");
    assert_eq!(to_string(&join_chars(&vec![chars(""), chars("")], &chars("-"))), "-");
}

#[test]
fn contains_finds_a_run_of_neighbouring_characters() {
    assert!(contains("hello world", "lo w"));
    assert!(contains("hello world", "hello world"));
    assert!(contains("hello world", "d"));
    assert!(contains("hello world", ""));
    assert!(contains("", ""));
    assert!(!contains("hello world", "low"));
    assert!(!contains("hello", "hello world"));
    assert!(!contains("", "a"));
    assert!(!contains("Hello", "hello"));
    assert!(contains_chars(&chars("aab"), &chars("ab")));
}

#[test]
fn lower_case_follows_unicode() {
    assert_eq!(to_lower("Hello WORLD"), "hello world");
    assert_eq!(to_lower("ÄÖÜ"), "äöü");
    assert_eq!(to_lower(""), "");
    assert_eq!(to_lower("ὈΔΥΣΣΕΎΣ"), "ὀδυσσεύς");
}
