use reflect_ai::text::{contains, split_words, to_chars, to_string, trim_chars};
use reflect_ai::{strip_html, Note, NoteStore, TextAnalyzer, Timestamp};

/// A small generator of repeatable pseudo-random numbers.
struct Numbers(u64);

impl Numbers {
    fn next(&mut self) -> usize {
        self.0 = self.0.wrapping_mul(6364136223846793005).wrapping_add(1442695040888963407);
        (self.0 >> 33) as usize
    }

    fn text(&mut self, alphabet: &[&str], max_len: usize) -> String {
        let len = self.next() % (max_len + 1);
        let mut text = String::new();
        for _ in 0..len {
            text.push_str(alphabet[self.next() % alphabet.len()]);
        }
        text
    }
}

const PROSE: &[&str] = &[
    "a", "b", "the", "cat", "Cat", "CAT", "sat", "on", "mat", "Ran", "42", "é", "Ä", " ", " ", "  ",
    "\n", "\t", "\u{A0}", "\u{2003}", ".", ".", "!", ",", "-", "it's",
];

const MARKUP: &[&str] = &[
    "<", ">", "<", ">", "/", "<script", "</script", "<SCRIPT", "</Script>", "<style", "</style",
    "<STYLE>", "<p>", "</p>", "<b>", "a", "b", "c", "x y", " ", "\n", "\r", "\t", "s", "S", "=", "\"",
    "<!--", "-->", "&amp;",
];

fn strings(rows: &Vec<Vec<char>>) -> Vec<String> {
    rows.iter().map(|row| row.iter().collect()).collect()
}

#[test]
fn split_words_agrees_with_split_whitespace() {
    let mut numbers = Numbers(1);
    for _ in 0..2000 {
        let text = numbers.text(PROSE, 30);
        let expected: Vec<String> = text.split_whitespace().map(|w| w.to_string()).collect();
        assert_eq!(strings(&split_words(&to_chars(&text))), expected, "{:?}", text);
    }
}

#[test]
fn trim_agrees_with_str_trim() {
    let mut numbers = Numbers(2);
    for _ in 0..2000 {
        let text = numbers.text(PROSE, 12);
        assert_eq!(to_string(&trim_chars(&to_chars(&text))), text.trim(), "{:?}", text);
    }
}

#[test]
fn contains_agrees_with_str_contains() {
    let mut numbers = Numbers(3);
    let letters = ["a", "b", "ab", "ba", "é", " "];
    for _ in 0..4000 {
        let hay = numbers.text(&letters, 8);
        let needle = numbers.text(&letters, 3);
        assert_eq!(contains(&hay, &needle), hay.contains(&needle), "{:?} in {:?}", needle, hay);
    }
}

#[test]
fn summarize_agrees_with_split_trim_and_join() {
    let mut numbers = Numbers(4);
    for _ in 0..2000 {
        let text = numbers.text(PROSE, 30);
        let count = numbers.next() % 6;
        let expected = text
            .split('.')
            .take(count)
            .map(|s| s.trim())
            .filter(|s| !s.is_empty())
            .collect::<Vec<_>>()
            .join(". ");
        assert_eq!(TextAnalyzer::summarize(&text, count), expected, "{:?} {}", text, count);
    }
}

/// The scan said byte by byte, for texts in ASCII.
fn strip_ascii(html: &str) -> String {
    let mut result = String::new();
    let mut in_tag = false;
    let mut in_script = false;
    let mut in_style = false;
    let lower = html.to_ascii_lowercase();
    for (i, &byte) in html.as_bytes().iter().enumerate() {
        let remaining = &lower[i..];
        if remaining.starts_with("<script") {
            in_script = true;
            in_tag = true;
        } else if remaining.starts_with("</script") {
            in_script = false;
        } else if remaining.starts_with("<style") {
            in_style = true;
            in_tag = true;
        } else if remaining.starts_with("</style") {
            in_style = false;
        }
        if byte == b'<' {
            in_tag = true;
        } else if byte == b'>' {
            in_tag = false;
            if !in_script && !in_style {
                result.push(' ');
            }
        } else if !in_tag && !in_script && !in_style {
            if byte == b'\n' || byte == b'\r' || byte == b'\t' {
                result.push(' ');
            } else {
                result.push(byte as char);
            }
        }
    }
    result.split_whitespace().collect::<Vec<_>>().join(" ")
}

#[test]
fn strip_html_agrees_with_the_scan_over_bytes() {
    let mut numbers = Numbers(5);
    for _ in 0..3000 {
        let html = numbers.text(MARKUP, 25);
        assert!(html.is_ascii());
        assert_eq!(strip_html(&html), strip_ascii(&html), "{:?}", html);
    }
}

#[test]
fn strip_html_leaves_single_spaces_between_words_only() {
    let mut numbers = Numbers(8);
    let mut alphabet: Vec<&str> = MARKUP.to_vec();
    alphabet.extend_from_slice(PROSE);
    for _ in 0..3000 {
        let html = numbers.text(&alphabet, 25);
        let text = strip_html(&html);
        assert_eq!(text.trim(), text, "{:?}", html);
        assert!(!text.contains("  "), "{:?}", html);
        assert!(text.chars().all(|c| c == ' ' || !c.is_whitespace()), "{:?}", html);
    }
}

fn frequency(words: &[String], word: &str) -> usize {
    words.iter().filter(|w| w.as_str() == word).count()
}

#[test]
fn extract_keywords_agrees_with_counting_and_sorting() {
    let stop_words = [
        "the", "and", "is", "in", "to", "of", "a", "that", "it", "on", "for", "as", "are", "with",
        "was", "this", "by", "an", "be", "or", "from", "at", "which", "has", "have", "had", "do",
        "does", "did", "will", "would", "could", "should",
    ];
    let mut numbers = Numbers(6);
    for _ in 0..2000 {
        let text = numbers.text(PROSE, 30);
        let count = numbers.next() % 6;
        let counted: Vec<String> = text
            .split_whitespace()
            .map(|w| w.to_lowercase().chars().filter(|c| c.is_alphanumeric()).collect::<String>())
            .filter(|w| !w.is_empty() && !stop_words.contains(&w.as_str()))
            .collect();
        let mut vocabulary: Vec<String> = Vec::new();
        for word in &counted {
            if !vocabulary.contains(word) {
                vocabulary.push(word.clone());
            }
        }
        let mut expected = vocabulary.clone();
        expected.sort_by(|a, b| frequency(&counted, b).cmp(&frequency(&counted, a)));
        expected.truncate(count);
        assert_eq!(TextAnalyzer::extract_keywords(&text, count), expected, "{:?} {}", text, count);
    }
}

#[test]
fn search_agrees_with_a_filter_over_lower_case_texts() {
    let mut numbers = Numbers(7);
    let letters = ["a", "B", "b", "A", "é", "É", " ", "x"];
    for _ in 0..300 {
        let mut store = NoteStore::new();
        let size = numbers.next() % 6;
        for n in 0..size {
            let tag_count = numbers.next() % 3;
            let tags = (0..tag_count).map(|_| numbers.text(&letters, 4)).collect();
            store.add_note(Note::created(
                format!("id-{}", n),
                Timestamp { secs: n as i64, nanos: 0 },
                numbers.text(&letters, 5),
                numbers.text(&letters, 8),
                tags,
            ));
        }
        let query = numbers.text(&letters, 3);
        let lowered = query.to_lowercase();
        let expected: Vec<Note> = store
            .notes
            .iter()
            .filter(|note| {
                note.title.to_lowercase().contains(&lowered)
                    || note.content.to_lowercase().contains(&lowered)
                    || note.tags.iter().any(|tag| tag.to_lowercase().contains(&lowered))
            })
            .cloned()
            .collect();
        assert_eq!(store.search_notes(&query), expected, "{:?}", query);
    }
}
