//! Plain text out of HTML markup: one pass over the characters, then the white
//! space is tidied.

use vstd::prelude::*;
use crate::text::{
    join, join_chars, lemma_joined_words_are_tidy, split_words, tidy, to_chars, to_string, words,
};

verus! {

/// Where the pass stands: inside a tag, inside a script block, inside a style block.
pub ghost struct Scan {
    pub in_tag: bool,
    pub in_script: bool,
    pub in_style: bool,
}

/// Whether `c` is the character `lower`, or the capital letter of it.
pub open spec fn folds_to(c: char, lower: char) -> bool {
    c == lower || (0x41 <= c as u32 <= 0x5A && c as u32 + 32 == lower as u32)
}

/// Whether `s` holds `marker` from position `i` on, capital and small letters
/// taken as the same. `marker` is written in small letters.
pub open spec fn marker_at(s: Seq<char>, i: int, marker: Seq<char>) -> bool {
    &&& 0 <= i
    &&& i + marker.len() <= s.len()
    &&& forall|k: int| 0 <= k < marker.len() ==> folds_to(#[trigger] s[i + k], marker[k])
}

/// The state before any character is read.
pub open spec fn start() -> Scan {
    Scan { in_tag: false, in_script: false, in_style: false }
}

/// The state once the markers that begin at position `i` are taken in: the
/// opening of a script or style block enters the block and a tag, its closing
/// leaves the block.
pub open spec fn marked(st: Scan, s: Seq<char>, i: int) -> Scan {
    if marker_at(s, i, "<script"@) {
        Scan { in_tag: true, in_script: true, in_style: st.in_style }
    } else if marker_at(s, i, "</script"@) {
        Scan { in_tag: st.in_tag, in_script: false, in_style: st.in_style }
    } else if marker_at(s, i, "<style"@) {
        Scan { in_tag: true, in_script: st.in_script, in_style: true }
    } else if marker_at(s, i, "</style"@) {
        Scan { in_tag: st.in_tag, in_script: st.in_script, in_style: false }
    } else {
        st
    }
}

/// The state after the character at position `i`: `<` enters a tag, `>` leaves it.
pub open spec fn step(st: Scan, s: Seq<char>, i: int) -> Scan {
    let m = marked(st, s, i);
    if s[i] == '<' {
        Scan { in_tag: true, in_script: m.in_script, in_style: m.in_style }
    } else if s[i] == '>' {
        Scan { in_tag: false, in_script: m.in_script, in_style: m.in_style }
    } else {
        m
    }
}

/// What the character at position `i` adds to the text: a space for a `>`
/// outside script and style blocks; outside tags and blocks the character
/// itself, or a space for a line feed, a carriage return or a tab; else nothing.
pub open spec fn emitted(st: Scan, s: Seq<char>, i: int) -> Seq<char> {
    let m = marked(st, s, i);
    let c = s[i];
    if c == '<' {
        Seq::<char>::empty()
    } else if c == '>' {
        if !m.in_script && !m.in_style {
            seq![' ']
        } else {
            Seq::<char>::empty()
        }
    } else if !m.in_tag && !m.in_script && !m.in_style {
        if c == '\n' || c == '\r' || c == '\t' {
            seq![' ']
        } else {
            seq![c]
        }
    } else {
        Seq::<char>::empty()
    }
}

/// The state after the first `n` characters of `s`.
pub open spec fn state_after(s: Seq<char>, n: int) -> Scan
    decreases n,
{
    if n <= 0 {
        start()
    } else {
        step(state_after(s, n - 1), s, n - 1)
    }
}

/// The text that the first `n` characters of `s` give, white space untouched.
pub open spec fn raw_text(s: Seq<char>, n: int) -> Seq<char>
    decreases n,
{
    if n <= 0 {
        Seq::<char>::empty()
    } else {
        raw_text(s, n - 1) + emitted(state_after(s, n - 1), s, n - 1)
    }
}

/// The plain text of `html`: the words of its raw text, one space between each two.
pub open spec fn stripped(html: Seq<char>) -> Seq<char> {
    join(words(raw_text(html, html.len() as int)), seq![' '])
}

/// The white space of the plain text is tidy: nothing but single spaces, each
/// between two characters that are not white space.
pub proof fn lemma_stripped_is_tidy(html: Seq<char>)
    ensures
        tidy(stripped(html)),
{
    lemma_joined_words_are_tidy(raw_text(html, html.len() as int));
}

/// Tests whether `c` is `lower` or the capital letter of it.
fn folds(c: char, lower: char) -> (b: bool)
    ensures
        b == folds_to(c, lower),
{
    let n: u32 = c as u32;
    c == lower || (0x41 <= n && n <= 0x5A && n + 32 == lower as u32)
}

/// Tests whether `chars` holds `marker` from position `i` on.
fn has_marker(chars: &Vec<char>, i: usize, marker: &Vec<char>) -> (b: bool)
    requires
        i <= chars.len(),
    ensures
        b == marker_at(chars@, i as int, marker@),
{
    if marker.len() > chars.len() - i {
        return false;
    }
    let mut k: usize = 0;
    while k < marker.len()
        invariant
            k <= marker.len(),
            i + marker.len() <= chars.len(),
            forall|j: int| 0 <= j < k ==> folds_to(#[trigger] chars[i + j], marker[j]),
        decreases marker.len() - k,
    {
        if !folds(chars[i + k], marker[k]) {
            return false;
        }
        k += 1;
    }
    true
}

/// The plain text of an HTML page. Tags, script blocks and style blocks are left
/// out, each tag end outside a block leaves a space, and the white space of the
/// result is reduced to single spaces between the words.
pub fn strip_html(html: &str) -> (text: String)
    ensures
        text@ == stripped(html@),
{
    let chars = to_chars(html);
    let script_open = to_chars("<script");
    let script_close = to_chars("</script");
    let style_open = to_chars("<style");
    let style_close = to_chars("</style");
    let mut raw: Vec<char> = Vec::new();
    let mut in_tag = false;
    let mut in_script = false;
    let mut in_style = false;
    let mut i: usize = 0;
    while i < chars.len()
        invariant
            i <= chars.len(),
            script_open@ == "<script"@,
            script_close@ == "</script"@,
            style_open@ == "<style"@,
            style_close@ == "</style"@,
            state_after(chars@, i as int) == (Scan { in_tag, in_script, in_style }),
            raw@ == raw_text(chars@, i as int),
        decreases chars.len() - i,
    {
        if has_marker(&chars, i, &script_open) {
            in_script = true;
            in_tag = true;
        } else if has_marker(&chars, i, &script_close) {
            in_script = false;
        } else if has_marker(&chars, i, &style_open) {
            in_style = true;
            in_tag = true;
        } else if has_marker(&chars, i, &style_close) {
            in_style = false;
        }
        let c = chars[i];
        if c == '<' {
            in_tag = true;
        } else if c == '>' {
            in_tag = false;
            if !in_script && !in_style {
                raw.push(' ');
            }
        } else if !in_tag && !in_script && !in_style {
            if c == '\n' || c == '\r' || c == '\t' {
                raw.push(' ');
            } else {
                raw.push(c);
            }
        }
        i += 1;
    }
    let found = split_words(&raw);
    let mut space: Vec<char> = Vec::new();
    space.push(' ');
    to_string(&join_chars(&found, &space))
}

} // verus!
