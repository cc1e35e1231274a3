//! Keywords by frequency: the words of a text are cleaned, the stop words are
//! left out, and the words that remain are ranked by how often they occur.

use vstd::prelude::*;
use crate::text::{
    alphanumeric, copy_chars, lowercase, rows, split_words, texts, to_chars, to_lower, to_string,
    words,
};

verus! {

/// The function words that are never keywords.
pub open spec fn stop_words() -> Seq<Seq<char>> {
    seq![
        "the"@,
        "and"@,
        "is"@,
        "in"@,
        "to"@,
        "of"@,
        "a"@,
        "that"@,
        "it"@,
        "on"@,
        "for"@,
        "as"@,
        "are"@,
        "with"@,
        "was"@,
        "this"@,
        "by"@,
        "an"@,
        "be"@,
        "or"@,
        "from"@,
        "at"@,
        "which"@,
        "has"@,
        "have"@,
        "had"@,
        "do"@,
        "does"@,
        "did"@,
        "will"@,
        "would"@,
        "could"@,
        "should"@,
    ]
}

/// A word of a text in the form in which it is counted: in lower case, and
/// only its letters and numbers.
pub open spec fn cleaned(word: Seq<char>) -> Seq<char> {
    lowercase(word).filter(|c: char| alphanumeric(c))
}

/// Whether a cleaned word is counted: it holds a character and is no stop word.
pub open spec fn counted(word: Seq<char>) -> bool {
    word.len() > 0 && !stop_words().contains(word)
}

/// The cleaned words that are counted, in their order.
pub open spec fn candidates(cleaned_words: Seq<Seq<char>>) -> Seq<Seq<char>> {
    cleaned_words.filter(|word: Seq<char>| counted(word))
}

/// The counted words of a text, in the order of the text.
pub open spec fn keyword_words(text: Seq<char>) -> Seq<Seq<char>> {
    candidates(words(text).map_values(|word: Seq<char>| cleaned(word)))
}

/// How often `word` occurs in `ws`.
pub open spec fn frequency(ws: Seq<Seq<char>>, word: Seq<char>) -> nat
    decreases ws.len(),
{
    if ws.len() == 0 {
        0
    } else {
        frequency(ws.drop_last(), word) + if ws.last() == word {
            1nat
        } else {
            0nat
        }
    }
}

/// The words of `ws`, each once, in the order in which they first occur.
pub open spec fn vocabulary(ws: Seq<Seq<char>>) -> Seq<Seq<char>>
    decreases ws.len(),
{
    if ws.len() == 0 {
        Seq::<Seq<char>>::empty()
    } else {
        let before = vocabulary(ws.drop_last());
        if before.contains(ws.last()) {
            before
        } else {
            before.push(ws.last())
        }
    }
}

/// Whether `a` ranks before `b` among the words `ws`: it occurs more often, or
/// as often and for the first time earlier.
pub open spec fn ranks_before(ws: Seq<Seq<char>>, a: Seq<char>, b: Seq<char>) -> bool {
    ||| frequency(ws, a) > frequency(ws, b)
    ||| (frequency(ws, a) == frequency(ws, b) && vocabulary(ws).index_of(a) < vocabulary(
        ws,
    ).index_of(b))
}

/// Whether `picked` holds the `count` first words of `ws` by rank, or all of
/// them where there are fewer: words of `ws`, each before the next by rank, and
/// each before every word of `ws` that was not picked.
pub open spec fn is_top_ranked(ws: Seq<Seq<char>>, picked: Seq<Seq<char>>, count: nat) -> bool {
    &&& picked.len() == if count <= vocabulary(ws).len() {
        count
    } else {
        vocabulary(ws).len()
    }
    &&& forall|k: int| 0 <= k < picked.len() ==> vocabulary(ws).contains(#[trigger] picked[k])
    &&& forall|j: int, k: int|
        0 <= j < k < picked.len() ==> ranks_before(ws, #[trigger] picked[j], #[trigger] picked[k])
    &&& forall|word: Seq<char>, k: int|
        #![trigger vocabulary(ws).contains(word), picked[k]]
        vocabulary(ws).contains(word) && !picked.contains(word) && 0 <= k < picked.len()
            ==> ranks_before(ws, picked[k], word)
}

/// One more word changes the frequency of that word alone.
pub proof fn lemma_frequency_push(ws: Seq<Seq<char>>, next: Seq<char>, word: Seq<char>)
    ensures
        frequency(ws.push(next), word) == frequency(ws, word) + if next == word {
            1nat
        } else {
            0nat
        },
{
    assert(ws.push(next).drop_last() =~= ws);
}

/// The vocabulary holds no word twice, and holds the words that occur.
pub proof fn lemma_vocabulary(ws: Seq<Seq<char>>)
    ensures
        vocabulary(ws).no_duplicates(),
        vocabulary(ws).len() <= ws.len(),
        forall|word: Seq<char>| #[trigger]
            vocabulary(ws).contains(word) <==> frequency(ws, word) > 0,
        forall|word: Seq<char>| #[trigger] frequency(ws, word) <= ws.len(),
    decreases ws.len(),
{
    if ws.len() > 0 {
        let before = vocabulary(ws.drop_last());
        lemma_vocabulary(ws.drop_last());
        assert forall|word: Seq<char>| #[trigger]
            vocabulary(ws).contains(word) <==> frequency(ws, word) > 0 by {
            if before.contains(ws.last()) {
            } else {
                if before.push(ws.last()).contains(word) {
                    let i = choose|i: int|
                        0 <= i < before.push(ws.last()).len() && before.push(ws.last())[i] == word;
                    if i < before.len() {
                        assert(before[i] == word);
                    }
                }
                if before.contains(word) {
                    let i = choose|i: int| 0 <= i < before.len() && before[i] == word;
                    assert(before.push(ws.last())[i] == word);
                }
                if ws.last() == word {
                    assert(before.push(ws.last())[before.len() as int] == word);
                }
            }
        }
        assert forall|word: Seq<char>| #[trigger] frequency(ws, word) <= ws.len() by {
            assert(frequency(ws.drop_last(), word) <= ws.drop_last().len());
        }
    }
}

/// A word of the vocabulary stands at its own place in it.
pub proof fn lemma_vocabulary_index(ws: Seq<Seq<char>>, i: int)
    requires
        0 <= i < vocabulary(ws).len(),
    ensures
        vocabulary(ws).contains(vocabulary(ws)[i]),
        vocabulary(ws).index_of(vocabulary(ws)[i]) == i,
{
    lemma_vocabulary(ws);
}

/// A word that occurs is one of the words.
pub proof fn lemma_frequent_word_occurs(ws: Seq<Seq<char>>, word: Seq<char>)
    requires
        frequency(ws, word) > 0,
    ensures
        ws.contains(word),
    decreases ws.len(),
{
    if ws.last() == word {
        assert(ws[ws.len() - 1] == word);
    } else {
        lemma_frequent_word_occurs(ws.drop_last(), word);
        let i = choose|i: int| 0 <= i < ws.drop_last().len() && ws.drop_last()[i] == word;
        assert(ws[i] == word);
    }
}

/// Every keyword is a word that is counted: one of the cleaned words, not
/// empty, and no stop word.
pub proof fn lemma_keywords_are_counted(
    cleaned_words: Seq<Seq<char>>,
    picked: Seq<Seq<char>>,
    count: nat,
    k: int,
)
    requires
        is_top_ranked(candidates(cleaned_words), picked, count),
        0 <= k < picked.len(),
    ensures
        cleaned_words.contains(picked[k]),
        picked[k].len() > 0,
        !stop_words().contains(picked[k]),
{
    let ws = candidates(cleaned_words);
    lemma_vocabulary(ws);
    assert(vocabulary(ws).contains(picked[k]));
    lemma_frequent_word_occurs(ws, picked[k]);
    let i = choose|i: int| 0 <= i < ws.len() && ws[i] == picked[k];
    cleaned_words.lemma_filter_pred(|word: Seq<char>| counted(word), i);
    cleaned_words.lemma_filter_contains_rev(|word: Seq<char>| counted(word), picked[k]);
}

/// No keyword is named twice.
pub proof fn lemma_keywords_differ(ws: Seq<Seq<char>>, picked: Seq<Seq<char>>, count: nat)
    requires
        is_top_ranked(ws, picked, count),
    ensures
        picked.no_duplicates(),
{
    assert forall|j: int, k: int|
        0 <= j < picked.len() && 0 <= k < picked.len() && j != k implies picked[j] != picked[k] by {
        if j < k {
            assert(ranks_before(ws, picked[j], picked[k]));
        } else {
            assert(ranks_before(ws, picked[k], picked[j]));
        }
    }
}

/// The keywords are settled by the words and the count: two lists that both
/// hold the first words by rank are one list.
pub proof fn lemma_top_ranked_is_one(
    ws: Seq<Seq<char>>,
    a: Seq<Seq<char>>,
    b: Seq<Seq<char>>,
    count: nat,
)
    requires
        is_top_ranked(ws, a, count),
        is_top_ranked(ws, b, count),
    ensures
        a == b,
{
    lemma_vocabulary(ws);
    assert forall|k: int| 0 <= k < a.len() implies a[k] == b[k] by {
        lemma_same_up_to(ws, a, b, count, k);
    }
    assert(a =~= b);
}

/// Two lists that both hold the first words by rank hold the same word at
/// every place up to `k`.
proof fn lemma_same_up_to(
    ws: Seq<Seq<char>>,
    a: Seq<Seq<char>>,
    b: Seq<Seq<char>>,
    count: nat,
    k: int,
)
    requires
        is_top_ranked(ws, a, count),
        is_top_ranked(ws, b, count),
        0 <= k < a.len(),
    ensures
        forall|j: int| 0 <= j <= k ==> a[j] == b[j],
    decreases k,
{
    if k > 0 {
        lemma_same_up_to(ws, a, b, count, k - 1);
    }
    if a[k] != b[k] {
        let v = vocabulary(ws);
        lemma_vocabulary(ws);
        assert(v.contains(a[k]) && v.contains(b[k]));
        assert(v.index_of(a[k]) != v.index_of(b[k]));
        if ranks_before(ws, a[k], b[k]) {
            lemma_not_behind(ws, b, a, count, k);
        } else {
            assert(ranks_before(ws, b[k], a[k]));
            lemma_not_behind(ws, a, b, count, k);
        }
    }
}

/// Where two lists agree before place `k`, the word that `b` has there does
/// not come after the word that `a` has there.
proof fn lemma_not_behind(
    ws: Seq<Seq<char>>,
    a: Seq<Seq<char>>,
    b: Seq<Seq<char>>,
    count: nat,
    k: int,
)
    requires
        is_top_ranked(ws, a, count),
        is_top_ranked(ws, b, count),
        0 <= k < a.len(),
        forall|j: int| 0 <= j < k ==> a[j] == b[j],
    ensures
        !ranks_before(ws, b[k], a[k]),
{
    let word = b[k];
    assert(vocabulary(ws).contains(word));
    if ranks_before(ws, b[k], a[k]) {
        if a.contains(word) {
            let m = choose|m: int| 0 <= m < a.len() && a[m] == word;
            if m < k {
                assert(ranks_before(ws, b[m], b[k]));
            } else if m > k {
                assert(ranks_before(ws, a[k], a[m]));
            }
        } else {
            assert(ranks_before(ws, a[k], word));
        }
    }
}

/// Whether `a` comes before `b` where the frequencies stand in `counts` at the
/// places of the words in the vocabulary.
pub open spec fn outranks(counts: Seq<usize>, a: int, b: int) -> bool {
    counts[a] > counts[b] || (counts[a] == counts[b] && a < b)
}

/// Whether two character vectors hold the same characters.
fn same_chars(a: &Vec<char>, b: &Vec<char>) -> (same: bool)
    ensures
        same == (a@ == b@),
{
    if a.len() != b.len() {
        return false;
    }
    let mut i: usize = 0;
    while i < a.len()
        invariant
            i <= a.len(),
            a.len() == b.len(),
            forall|k: int| 0 <= k < i ==> a[k] == b[k],
        decreases a.len() - i,
    {
        if a[i] != b[i] {
            return false;
        }
        i += 1;
    }
    assert(a@ =~= b@);
    true
}

/// The first place at which `list` holds `word`.
fn position_of(list: &Vec<Vec<char>>, word: &Vec<char>) -> (at: Option<usize>)
    ensures
        match at {
            Some(i) => i < list.len() && rows(list@)[i as int] == word@,
            None => !rows(list@).contains(word@),
        },
{
    let mut i: usize = 0;
    while i < list.len()
        invariant
            i <= list.len(),
            forall|k: int| 0 <= k < i ==> list[k]@ != word@,
        decreases list.len() - i,
    {
        if same_chars(&list[i], word) {
            return Some(i);
        }
        i += 1;
    }
    None
}

/// The stop words.
fn stop_list() -> (list: Vec<Vec<char>>)
    ensures
        rows(list@) == stop_words(),
{
    let mut list: Vec<Vec<char>> = Vec::new();
    list.push(to_chars("the"));
    list.push(to_chars("and"));
    list.push(to_chars("is"));
    list.push(to_chars("in"));
    list.push(to_chars("to"));
    list.push(to_chars("of"));
    list.push(to_chars("a"));
    list.push(to_chars("that"));
    list.push(to_chars("it"));
    list.push(to_chars("on"));
    list.push(to_chars("for"));
    list.push(to_chars("as"));
    list.push(to_chars("are"));
    list.push(to_chars("with"));
    list.push(to_chars("was"));
    list.push(to_chars("this"));
    list.push(to_chars("by"));
    list.push(to_chars("an"));
    list.push(to_chars("be"));
    list.push(to_chars("or"));
    list.push(to_chars("from"));
    list.push(to_chars("at"));
    list.push(to_chars("which"));
    list.push(to_chars("has"));
    list.push(to_chars("have"));
    list.push(to_chars("had"));
    list.push(to_chars("do"));
    list.push(to_chars("does"));
    list.push(to_chars("did"));
    list.push(to_chars("will"));
    list.push(to_chars("would"));
    list.push(to_chars("could"));
    list.push(to_chars("should"));
    list
}

/// The form of a word in which it is counted.
fn clean(word: &Vec<char>) -> (clean: Vec<char>)
    ensures
        clean@ == cleaned(word@),
{
    let lower = to_lower(to_string(word).as_str());
    let chars = to_chars(lower.as_str());
    let ghost keeps = |c: char| alphanumeric(c);
    let mut clean: Vec<char> = Vec::new();
    let mut i: usize = 0;
    while i < chars.len()
        invariant
            i <= chars.len(),
            keeps == |c: char| alphanumeric(c),
            clean@ == chars@.take(i as int).filter(keeps),
        decreases chars.len() - i,
    {
        proof {
            assert(chars@.take(i + 1) =~= chars@.take(i as int).push(chars[i as int]));
            chars@.take(i as int).lemma_filter_push(chars[i as int], keeps);
        }
        if chars[i].is_alphanumeric() {
            clean.push(chars[i]);
        }
        i += 1;
    }
    assert(chars@.take(chars.len() as int) =~= chars@);
    clean
}

/// The cleaned words that are counted.
fn keep_counted(cleaned_words: &Vec<Vec<char>>) -> (kept: Vec<Vec<char>>)
    ensures
        rows(kept@) == candidates(rows(cleaned_words@)),
{
    let stops = stop_list();
    let ghost all = rows(cleaned_words@);
    let ghost keeps = |word: Seq<char>| counted(word);
    let mut kept: Vec<Vec<char>> = Vec::new();
    let mut i: usize = 0;
    while i < cleaned_words.len()
        invariant
            i <= cleaned_words.len(),
            all == rows(cleaned_words@),
            keeps == |word: Seq<char>| counted(word),
            rows(stops@) == stop_words(),
            rows(kept@) == all.take(i as int).filter(keeps),
        decreases cleaned_words.len() - i,
    {
        let word = &cleaned_words[i];
        proof {
            assert(all.take(i + 1) =~= all.take(i as int).push(word@));
            all.take(i as int).lemma_filter_push(word@, keeps);
        }
        if word.len() > 0 && position_of(&stops, word).is_none() {
            kept.push(copy_chars(word));
        }
        i += 1;
    }
    assert(all.take(cleaned_words.len() as int) =~= all);
    kept
}

/// The vocabulary of `ws`, and beside each of its words how often it occurs.
fn tally(ws: &Vec<Vec<char>>) -> (table: (Vec<Vec<char>>, Vec<usize>))
    ensures
        rows(table.0@) == vocabulary(rows(ws@)),
        table.1.len() == table.0.len(),
        forall|j: int|
            0 <= j < table.0.len() ==> #[trigger] table.1[j] == frequency(
                rows(ws@),
                table.0[j]@,
            ),
{
    let ghost all = rows(ws@);
    let mut known: Vec<Vec<char>> = Vec::new();
    let mut counts: Vec<usize> = Vec::new();
    let mut i: usize = 0;
    while i < ws.len()
        invariant
            i <= ws.len(),
            all == rows(ws@),
            rows(known@) == vocabulary(all.take(i as int)),
            counts.len() == known.len(),
            forall|j: int|
                0 <= j < known.len() ==> #[trigger] counts[j] == frequency(
                    all.take(i as int),
                    known[j]@,
                ),
        decreases ws.len() - i,
    {
        let word = &ws[i];
        let ghost seen = all.take(i as int);
        let ghost before = rows(known@);
        proof {
            assert(all.take(i + 1) =~= seen.push(word@));
            assert(seen.push(word@).drop_last() =~= seen);
            lemma_vocabulary(seen);
            assert forall|other: Seq<char>| #[trigger]
                frequency(all.take(i + 1), other) == frequency(seen, other) + if word@ == other {
                    1nat
                } else {
                    0nat
                } by {
                lemma_frequency_push(seen, word@, other);
            }
        }
        match position_of(&known, word) {
            Some(at) => {
                let n = counts[at];
                counts.set(at, n + 1);
                assert forall|j: int| 0 <= j < known.len() implies #[trigger] counts[j]
                    == frequency(all.take(i + 1), known[j]@) by {
                    assert(before[j] == known[j]@);
                }
            },
            None => {
                known.push(copy_chars(word));
                counts.push(1);
                assert forall|j: int| 0 <= j < known.len() implies #[trigger] counts[j]
                    == frequency(all.take(i + 1), known[j]@) by {
                    if j < before.len() {
                        assert(before[j] == known[j]@);
                    }
                }
            },
        }
        i += 1;
    }
    assert(all.take(ws.len() as int) =~= all);
    (known, counts)
}

/// The places of the `count` first words by rank, where `counts` holds the
/// frequency of the word at each place of the vocabulary.
fn top_places(counts: &Vec<usize>, count: usize) -> (top: Vec<usize>)
    ensures
        top.len() == if count <= counts.len() {
            count
        } else {
            counts.len()
        },
        forall|k: int| 0 <= k < top.len() ==> #[trigger] top[k] < counts.len(),
        forall|j: int, k: int|
            0 <= j < k < top.len() ==> outranks(
                counts@,
                #[trigger] top[j] as int,
                #[trigger] top[k] as int,
            ),
        forall|i: int, k: int|
            #![trigger top@.contains(i as usize), top[k]]
            0 <= i < counts.len() && !top@.contains(i as usize) && 0 <= k < top.len()
                ==> outranks(counts@, top[k] as int, i),
{
    let n = counts.len();
    let limit = if count <= n {
        count
    } else {
        n
    };
    let mut order: Vec<usize> = Vec::new();
    let mut i: usize = 0;
    while i < n
        invariant
            i <= n,
            order.len() == i,
            forall|p: int| 0 <= p < i ==> order[p] == p,
        decreases n - i,
    {
        order.push(i);
        i += 1;
    }
    let ghost mut place: Seq<int> = Seq::new(n as nat, |j: int| j);
    let mut r: usize = 0;
    while r < limit
        invariant
            r <= limit <= n,
            n == counts.len(),
            order.len() == n,
            place.len() == n,
            forall|p: int|
                0 <= p < n ==> 0 <= #[trigger] order[p] < n && place[order[p] as int] == p,
            forall|j: int| 0 <= j < n ==> 0 <= #[trigger] place[j] < n && order[place[j]] == j,
            forall|a: int, b: int|
                0 <= a < r && a < b < n ==> outranks(
                    counts@,
                    #[trigger] order[a] as int,
                    #[trigger] order[b] as int,
                ),
        decreases limit - r,
    {
        let mut best: usize = r;
        let mut p: usize = r + 1;
        while p < n
            invariant
                r <= best < p <= n,
                n == counts.len(),
                order.len() == n,
                place.len() == n,
                forall|q: int|
                    0 <= q < n ==> 0 <= #[trigger] order[q] < n && place[order[q] as int] == q,
                forall|q: int|
                    r <= q < p && q != best ==> outranks(
                        counts@,
                        order[best as int] as int,
                        #[trigger] order[q] as int,
                    ),
            decreases n - p,
        {
            let here = order[p];
            let held = order[best];
            if counts[here] > counts[held] || (counts[here] == counts[held] && here < held) {
                best = p;
            }
            p += 1;
        }
        let first = order[r];
        let chosen = order[best];
        order.set(r, chosen);
        order.set(best, first);
        proof {
            place = place.update(chosen as int, r as int).update(first as int, best as int);
        }
        r += 1;
    }
    let mut top: Vec<usize> = Vec::new();
    let mut k: usize = 0;
    while k < limit
        invariant
            k <= limit <= n,
            order.len() == n,
            top.len() == k,
            forall|j: int| 0 <= j < k ==> top[j] == order[j],
        decreases limit - k,
    {
        top.push(order[k]);
        k += 1;
    }
    proof {
        assert forall|i: int, k: int|
            #![trigger top@.contains(i as usize), top[k]]
            0 <= i < counts.len() && !top@.contains(i as usize) && 0 <= k < top.len()
            implies outranks(counts@, top[k] as int, i) by {
            if place[i] < limit {
                assert(top[place[i]] == i as usize);
            }
        }
    }
    top
}

/// The `count` first of the cleaned words by rank, once the words that are not
/// counted are left out.
fn rank_words(cleaned_words: &Vec<Vec<char>>, count: usize) -> (picked: Vec<String>)
    ensures
        is_top_ranked(candidates(rows(cleaned_words@)), texts(picked@), count as nat),
{
    let kept = keep_counted(cleaned_words);
    let ghost ws = rows(kept@);
    let (known, counts) = tally(&kept);
    let top = top_places(&counts, count);
    let mut picked: Vec<String> = Vec::new();
    let mut k: usize = 0;
    while k < top.len()
        invariant
            k <= top.len(),
            picked.len() == k,
            forall|j: int| 0 <= j < top.len() ==> #[trigger] top[j] < known.len(),
            forall|j: int| 0 <= j < k ==> #[trigger] picked[j]@ == known[top[j] as int]@,
        decreases top.len() - k,
    {
        picked.push(to_string(&known[top[k]]));
        k += 1;
    }
    proof {
        let v = vocabulary(ws);
        let out = texts(picked@);
        assert forall|j: int| 0 <= j < out.len() implies #[trigger] out[j] == v[top[j] as int]
            && v.index_of(out[j]) == top[j] && frequency(ws, out[j]) == counts[top[j] as int] by {
            lemma_vocabulary_index(ws, top[j] as int);
        }
        assert forall|word: Seq<char>, k: int|
            #![trigger v.contains(word), out[k]]
            v.contains(word) && !out.contains(word) && 0 <= k < out.len() implies ranks_before(
            ws,
            out[k],
            word,
        ) by {
            let i = choose|i: int| 0 <= i < v.len() && v[i] == word;
            if top@.contains(i as usize) {
                let j = choose|j: int| 0 <= j < top.len() && top[j] == i as usize;
                assert(out[j] == word);
            }
        }
    }
    picked
}

/// The `count` most frequent of the cleaned words, the most frequent first; of
/// two words that occur as often, the one that comes first in `cleaned_words`
/// is first. Empty words and stop words are not counted.
pub fn rank_keywords(cleaned_words: &Vec<String>, count: usize) -> (keywords: Vec<String>)
    ensures
        is_top_ranked(candidates(texts(cleaned_words@)), texts(keywords@), count as nat),
{
    let mut held: Vec<Vec<char>> = Vec::new();
    let mut i: usize = 0;
    while i < cleaned_words.len()
        invariant
            i <= cleaned_words.len(),
            rows(held@) == texts(cleaned_words@).take(i as int),
        decreases cleaned_words.len() - i,
    {
        let ghost before = rows(held@);
        held.push(to_chars(cleaned_words[i].as_str()));
        i += 1;
        assert(rows(held@) =~= before.push(cleaned_words[i - 1]@));
    }
    assert(texts(cleaned_words@).take(cleaned_words.len() as int) =~= texts(cleaned_words@));
    rank_words(&held, count)
}

/// The `count` first of the counted words of a text by rank.
pub(crate) fn keywords_of(text: &str, count: usize) -> (keywords: Vec<String>)
    ensures
        is_top_ranked(keyword_words(text@), texts(keywords@), count as nat),
{
    let chars = to_chars(text);
    let found = split_words(&chars);
    let mut cleaned_words: Vec<Vec<char>> = Vec::new();
    let mut i: usize = 0;
    while i < found.len()
        invariant
            i <= found.len(),
            rows(cleaned_words@) == rows(found@).map_values(|word: Seq<char>| cleaned(word)).take(
                i as int,
            ),
        decreases found.len() - i,
    {
        let ghost before = rows(cleaned_words@);
        cleaned_words.push(clean(&found[i]));
        i += 1;
        assert(rows(cleaned_words@) =~= before.push(cleaned(found[i - 1]@)));
    }
    assert(rows(found@).map_values(|word: Seq<char>| cleaned(word)).take(found.len() as int)
        =~= rows(found@).map_values(|word: Seq<char>| cleaned(word)));
    rank_words(&cleaned_words, count)
}

} // verus!
