use reflect_ai::analyzer::domain_or_unknown;
use reflect_ai::keywords::rank_keywords;
use reflect_ai::TextAnalyzer;

fn strings(list: &[&str]) -> Vec<String> {
    list.iter().map(|s| s.to_string()).collect()
}

#[test]
fn extract_keywords_ranks_the_most_frequent_word_first() {
    let keywords = TextAnalyzer::extract_keywords("the cat sat on the mat. the cat ran.", 2);
    assert_eq!(keywords.len(), 2);
    assert_eq!(keywords[0], "cat");
    for word in &keywords {
        assert!(["cat", "sat", "mat", "ran"].contains(&word.as_str()));
    }
    assert_eq!(keywords, strings(&["cat", "sat"]));
}

#[test]
fn extract_keywords_gives_fewer_where_the_text_has_fewer() {
    let keywords = TextAnalyzer::extract_keywords("the cat sat on the mat. the cat ran.", 10);
    assert_eq!(keywords, strings(&["cat", "sat", "mat", "ran"]));
    assert!(TextAnalyzer::extract_keywords("the cat", 0).is_empty());
    assert!(TextAnalyzer::extract_keywords("", 5).is_empty());
    assert!(TextAnalyzer::extract_keywords("the and of   \n to", 5).is_empty());
}

#[test]
fn extract_keywords_counts_words_in_lower_case_without_punctuation() {
    let keywords = TextAnalyzer::extract_keywords("Dog, dog! DOG? bird (Bird) fish", 3);
    assert_eq!(keywords, strings(&["dog", "bird", "fish"]));
    let keywords = TextAnalyzer::extract_keywords("... --- !!! rust", 3);
    assert_eq!(keywords, strings(&["rust"]));
    let keywords = TextAnalyzer::extract_keywords("Ärger ÄRGER ärger 42 42", 2);
    assert_eq!(keywords, strings(&["ärger", "42"]));
}

#[test]
fn extract_keywords_leaves_out_every_stop_word() {
    let stop_words = "the and is in to of a that it on for as are with was this by an be or \
                      from at which has have had do does did will would could should";
    assert!(TextAnalyzer::extract_keywords(stop_words, 40).is_empty());
    let keywords = TextAnalyzer::extract_keywords("The AND Is theory android", 5);
    assert_eq!(keywords, strings(&["theory", "android"]));
}

#[test]
fn extract_keywords_puts_the_earlier_of_two_equal_words_first() {
    let keywords = TextAnalyzer::extract_keywords("zebra apple mango apple zebra", 3);
    assert_eq!(keywords, strings(&["zebra", "apple", "mango"]));
    let keywords = TextAnalyzer::extract_keywords("b a c a b c c", 3);
    assert_eq!(keywords, strings(&["c", "b"]).into_iter().collect::<Vec<_>>());
}

#[test]
fn rank_keywords_ranks_cleaned_words() {
    let words = strings(&["cat", "the", "dog", "", "cat", "bird", "dog", "cat"]);
    assert_eq!(rank_keywords(&words, 2), strings(&["cat", "dog"]));
    assert_eq!(rank_keywords(&words, 5), strings(&["cat", "dog", "bird"]));
    assert!(rank_keywords(&words, 0).is_empty());
    assert!(rank_keywords(&Vec::new(), 3).is_empty());
    assert_eq!(rank_keywords(&strings(&["The", "the"]), 3), strings(&["The"]));
}

#[test]
fn summarize_joins_the_first_sentences() {
    assert_eq!(TextAnalyzer::summarize("One. Two. Three. Four.", 2), "One. Two");
    assert_eq!(TextAnalyzer::summarize("One. Two. Three. Four.", 4), "One. Two. Three. Four");
    assert_eq!(TextAnalyzer::summarize("One. Two. Three. Four.", 9), "One. Two. Three. Four");
    assert_eq!(TextAnalyzer::summarize("One. Two. Three. Four.", 1), "One");
}

#[test]
fn summarize_of_nothing_is_empty() {
    assert_eq!(TextAnalyzer::summarize("One. Two.", 0), "");
    assert_eq!(TextAnalyzer::summarize("", 3), "");
    assert_eq!(TextAnalyzer::summarize(" . . ", 3), "");
}

#[test]
fn summarize_drops_empty_pieces_after_taking_them() {
    assert_eq!(TextAnalyzer::summarize("One.. Two. Three", 2), "One");
    assert_eq!(TextAnalyzer::summarize("One.. Two. Three", 3), "One. Two");
    assert_eq!(TextAnalyzer::summarize("  .One", 1), "");
}

#[test]
fn summarize_trims_white_space_and_knows_only_the_full_stop() {
    let text = "  First one \n.\tSecond one  . Third";
    assert_eq!(TextAnalyzer::summarize(text, 2), "First one. Second one");
    let text = "Is it? Yes! It costs 3.50 now";
    assert_eq!(TextAnalyzer::summarize(text, 2), "Is it? Yes! It costs 3. 50 now");
    assert_eq!(TextAnalyzer::summarize("no full stop", 2), "no full stop");
}

#[test]
fn extract_domain_names_the_host() {
    assert_eq!(TextAnalyzer::extract_domain("https://example.com/page"), "example.com");
    assert_eq!(TextAnalyzer::extract_domain("not a url"), "unknown");
}

#[test]
fn extract_domain_of_other_urls() {
    let url = "http://sub.example.org:8080/a?b=c#d";
    assert_eq!(TextAnalyzer::extract_domain(url), "sub.example.org");
    assert_eq!(TextAnalyzer::extract_domain("https://127.0.0.1/index.html"), "127.0.0.1");
    assert_eq!(TextAnalyzer::extract_domain("ftp://rms@example.com"), "example.com");
    assert_eq!(TextAnalyzer::extract_domain("HTTPS://EXAMPLE.COM/"), "example.com");
    assert_eq!(TextAnalyzer::extract_domain("mailto:someone@example.com"), "unknown");
    assert_eq!(TextAnalyzer::extract_domain("data:text/plain,Stuff"), "unknown");
    assert_eq!(TextAnalyzer::extract_domain("/relative/path"), "unknown");
    assert_eq!(TextAnalyzer::extract_domain(""), "unknown");
}

#[test]
fn domain_or_unknown_shows_the_host_where_there_is_one() {
    assert_eq!(domain_or_unknown(Some("example.com".to_string())), "example.com");
    assert_eq!(domain_or_unknown(Some(String::new())), "");
    assert_eq!(domain_or_unknown(None), "unknown");
}
