//! The analysis of a text, and of a web page once its HTML is fetched.

use vstd::prelude::*;
use crate::analyzer::{domain_of, summary, url_host, TextAnalyzer};
use crate::html::{strip_html, stripped};
use crate::keywords::{is_top_ranked, keyword_words};
use crate::text::{split_words, texts, to_chars, words};

verus! {

/// How many sentences the summary of an analysis has at most.
pub const SUMMARY_SENTENCES: usize = 4;

/// How many keywords an analysis names at most.
pub const KEYWORDS_NAMED: usize = 8;

/// What the analysis of a text finds.
#[derive(Debug, PartialEq, Eq)]
pub struct TextReport {
    pub summary: String,
    pub keywords: Vec<String>,
    /// The number of words that white space parts.
    pub word_count: usize,
}

/// What the analysis of a web page finds.
#[derive(Debug, PartialEq, Eq)]
pub struct PageReport {
    pub summary: String,
    pub keywords: Vec<String>,
    pub domain: String,
    /// The number of words in the plain text of the page.
    pub word_count: usize,
    pub url: String,
}

/// Whether `report` is the analysis of `text`.
pub open spec fn reports_text(report: TextReport, text: Seq<char>) -> bool {
    &&& report.summary@ == summary(text, SUMMARY_SENTENCES as nat)
    &&& is_top_ranked(keyword_words(text), texts(report.keywords@), KEYWORDS_NAMED as nat)
    &&& report.word_count == words(text).len()
}

/// Whether `report` is the analysis of the page at `url` whose HTML is `html`:
/// the analysis of its plain text, with the domain of the URL and the URL.
pub open spec fn reports_page(report: PageReport, url: Seq<char>, html: Seq<char>) -> bool {
    &&& report.summary@ == summary(stripped(html), SUMMARY_SENTENCES as nat)
    &&& is_top_ranked(
        keyword_words(stripped(html)),
        texts(report.keywords@),
        KEYWORDS_NAMED as nat,
    )
    &&& report.domain@ == domain_of(url_host(url))
    &&& report.word_count == words(stripped(html)).len()
    &&& report.url@ == url
}

/// The number of words of a text that white space parts.
pub fn word_count(text: &str) -> (count: usize)
    ensures
        count == words(text@).len(),
{
    let chars = to_chars(text);
    split_words(&chars).len()
}

/// Analyses a text: a summary of its first sentences, its most frequent words,
/// and the number of its words.
pub fn analyze_text(text: &str) -> (report: TextReport)
    ensures
        reports_text(report, text@),
{
    TextReport {
        summary: TextAnalyzer::summarize(text, SUMMARY_SENTENCES),
        keywords: TextAnalyzer::extract_keywords(text, KEYWORDS_NAMED),
        word_count: word_count(text),
    }
}

/// Analyses a web page whose HTML was fetched from `url`: the analysis of the
/// plain text of the page, with the domain that the URL names.
pub fn analyze_page(url: &str, html: &str) -> (report: PageReport)
    ensures
        reports_page(report, url@, html@),
{
    let text = strip_html(html);
    PageReport {
        summary: TextAnalyzer::summarize(text.as_str(), SUMMARY_SENTENCES),
        keywords: TextAnalyzer::extract_keywords(text.as_str(), KEYWORDS_NAMED),
        domain: TextAnalyzer::extract_domain(url),
        word_count: word_count(text.as_str()),
        url: url.to_owned(),
    }
}

} // verus!
