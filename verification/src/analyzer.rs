//! What is read off a text: its keywords, a summary of its first sentences, and
//! the domain of a URL.

use vstd::prelude::*;
use crate::keywords::{is_top_ranked, keyword_words, keywords_of};
use crate::text::{
    join, join_chars, rows, split, split_chars, texts, to_chars, to_string, trim, trim_chars,
    Separator,
};

verus! {

/// The sentences of a summary: of the pieces of the text between its full
/// stops the first `count`, or all where there are fewer, each without the
/// white space at its ends, those left out that are then empty.
pub open spec fn sentences(text: Seq<char>, count: nat) -> Seq<Seq<char>> {
    let pieces = split(text, Separator::Char('.'));
    let first = pieces.take(
        if count <= pieces.len() {
            count as int
        } else {
            pieces.len() as int
        },
    );
    first.map_values(|piece: Seq<char>| trim(piece)).filter(|piece: Seq<char>| piece.len() > 0)
}

/// The summary of a text: its first sentences, a full stop and a space between
/// each two.
pub open spec fn summary(text: Seq<char>, count: nat) -> Seq<char> {
    join(sentences(text, count), seq!['.', ' '])
}

/// The host that `url::Url::parse` finds in a text: none where the text is no
/// absolute URL, and none where the URL has no host.
pub uninterp spec fn url_host(url: Seq<char>) -> Option<Seq<char>>;

/// The domain to show for a host: the host itself, or `unknown` where there is
/// none.
pub open spec fn domain_of(host: Option<Seq<char>>) -> Seq<char> {
    match host {
        Some(host) => host,
        None => "unknown"@,
    }
}

/// Parses the text with `url::Url::parse` and reads the host off the URL with
/// `url::Url::host_str`. The result is the host as the URL writes it, and none
/// where the text does not parse or the URL has no host; it depends on the text
/// alone. What the host of a given text is, is not said here.
#[verifier::external_body]
fn parsed_host(url: &str) -> (host: Option<String>)
    ensures
        match host {
            Some(host) => url_host(url@) == Some(host@),
            None => url_host(url@) is None,
        },
{
    match url::Url::parse(url) {
        Ok(parsed) => match parsed.host_str() {
            Some(host) => Some(host.to_string()),
            None => None,
        },
        Err(_) => None,
    }
}

/// The domain to show for a host: the host itself, or `unknown` where there is
/// none.
pub fn domain_or_unknown(host: Option<String>) -> (domain: String)
    ensures
        domain@ == domain_of(
            match host {
                Some(host) => Some(host@),
                None => None,
            },
        ),
{
    match host {
        Some(host) => host,
        None => "unknown".to_owned(),
    }
}

/// The functions that analyse a text.
pub struct TextAnalyzer;

impl TextAnalyzer {
    /// The keywords of a text: its `count` most frequent words, the most
    /// frequent first, fewer where the text has fewer. The words are those that
    /// white space parts, taken in lower case and without what is neither letter
    /// nor number; empty words and stop words are left out. Of two words that
    /// occur as often, the one that the text has first is first.
    pub fn extract_keywords(text: &str, count: usize) -> (keywords: Vec<String>)
        ensures
            is_top_ranked(keyword_words(text@), texts(keywords@), count as nat),
    {
        keywords_of(text, count)
    }

    /// A summary of a text: the first `sentences_count` of the pieces between
    /// its full stops, without the white space at their ends and without those
    /// that are then empty, joined by a full stop and a space.
    pub fn summarize(text: &str, sentences_count: usize) -> (short: String)
        ensures
            short@ == summary(text@, sentences_count as nat),
    {
        let chars = to_chars(text);
        let pieces = split_chars(&chars, Separator::Char('.'));
        let limit = if sentences_count <= pieces.len() {
            sentences_count
        } else {
            pieces.len()
        };
        let ghost trimmed = rows(pieces@).take(limit as int).map_values(
            |piece: Seq<char>| trim(piece),
        );
        let ghost holds = |piece: Seq<char>| piece.len() > 0;
        let mut kept: Vec<Vec<char>> = Vec::new();
        let mut i: usize = 0;
        while i < limit
            invariant
                i <= limit <= pieces.len(),
                holds == |piece: Seq<char>| piece.len() > 0,
                trimmed == rows(pieces@).take(limit as int).map_values(
                    |piece: Seq<char>| trim(piece),
                ),
                rows(kept@) == trimmed.take(i as int).filter(holds),
            decreases limit - i,
        {
            let piece = trim_chars(&pieces[i]);
            proof {
                assert(trimmed.take(i + 1) =~= trimmed.take(i as int).push(piece@));
                trimmed.take(i as int).lemma_filter_push(piece@, holds);
            }
            if piece.len() > 0 {
                kept.push(piece);
            }
            i += 1;
        }
        assert(trimmed.take(limit as int) =~= trimmed);
        let mut between: Vec<char> = Vec::new();
        between.push('.');
        between.push(' ');
        assert(between@ =~= seq!['.', ' ']);
        to_string(&join_chars(&kept, &between))
    }

    /// The domain of a URL: the host that `url` names, or `unknown` where `url`
    /// is no absolute URL or names no host.
    pub fn extract_domain(url: &str) -> (domain: String)
        ensures
            domain@ == domain_of(url_host(url@)),
    {
        domain_or_unknown(parsed_host(url))
    }
}

} // verus!
