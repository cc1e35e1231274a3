//! Sequences of characters: white space, splitting, trimming, joining and
//! substring search, with the conversions between strings and character vectors.

use vstd::prelude::*;

verus! {

/// Whether `c` is white space: one of the code points to which Unicode gives the
/// property `White_Space`.
pub open spec fn whitespace(c: char) -> bool {
    let n = c as u32;
    ||| 0x09 <= n <= 0x0D
    ||| n == 0x20
    ||| n == 0x85
    ||| n == 0xA0
    ||| n == 0x1680
    ||| 0x2000 <= n <= 0x200A
    ||| n == 0x2028
    ||| n == 0x2029
    ||| n == 0x202F
    ||| n == 0x205F
    ||| n == 0x3000
}

/// Tests a character for white space.
pub fn is_whitespace(c: char) -> (b: bool)
    ensures
        b == whitespace(c),
{
    let n: u32 = c as u32;
    (0x09 <= n && n <= 0x0D) || n == 0x20 || n == 0x85 || n == 0xA0 || n == 0x1680 || (0x2000 <= n
        && n <= 0x200A) || n == 0x2028 || n == 0x2029 || n == 0x202F || n == 0x205F || n == 0x3000
}

/// What parts a text: any white space, or one given character.
#[derive(Clone, Copy, Debug)]
pub enum Separator {
    Whitespace,
    Char(char),
}

impl Separator {
    /// Whether `c` parts two pieces.
    pub open spec fn separates(self, c: char) -> bool {
        match self {
            Separator::Whitespace => whitespace(c),
            Separator::Char(d) => c == d,
        }
    }

    /// Tests a character against the separator.
    pub fn is_separator(self, c: char) -> (b: bool)
        ensures
            b == self.separates(c),
    {
        match self {
            Separator::Whitespace => is_whitespace(c),
            Separator::Char(d) => c == d,
        }
    }
}

/// The pieces of `s` between its separators, in order. Every separator ends one
/// piece and begins the next, so there is one piece more than there are
/// separators, and a piece may be empty.
pub open spec fn split(s: Seq<char>, sep: Separator) -> Seq<Seq<char>>
    decreases s.len(),
{
    if s.len() == 0 {
        seq![Seq::<char>::empty()]
    } else {
        let before = split(s.drop_last(), sep);
        if sep.separates(s.last()) {
            before.push(Seq::<char>::empty())
        } else {
            before.drop_last().push(before.last().push(s.last()))
        }
    }
}

/// The words of `s`: its maximal runs of characters that are not white space.
pub open spec fn words(s: Seq<char>) -> Seq<Seq<char>> {
    split(s, Separator::Whitespace).filter(|piece: Seq<char>| piece.len() > 0)
}

/// `s` without the white space it begins with.
pub open spec fn trim_start(s: Seq<char>) -> Seq<char>
    decreases s.len(),
{
    if s.len() > 0 && whitespace(s.first()) {
        trim_start(s.drop_first())
    } else {
        s
    }
}

/// `s` without the white space it ends with.
pub open spec fn trim_end(s: Seq<char>) -> Seq<char>
    decreases s.len(),
{
    if s.len() > 0 && whitespace(s.last()) {
        trim_end(s.drop_last())
    } else {
        s
    }
}

/// `s` without the white space at either end.
pub open spec fn trim(s: Seq<char>) -> Seq<char> {
    trim_end(trim_start(s))
}

/// The parts in order, with `sep` between each two neighbours.
pub open spec fn join(parts: Seq<Seq<char>>, sep: Seq<char>) -> Seq<char>
    decreases parts.len(),
{
    if parts.len() == 0 {
        Seq::<char>::empty()
    } else if parts.len() == 1 {
        parts[0]
    } else {
        join(parts.drop_last(), sep) + sep + parts.last()
    }
}

/// Whether `needle` stands in `hay` from position `i` on.
pub open spec fn occurs_at(needle: Seq<char>, hay: Seq<char>, i: int) -> bool {
    &&& 0 <= i
    &&& i + needle.len() <= hay.len()
    &&& hay.subrange(i, i + needle.len()) == needle
}

/// Whether `needle` stands somewhere in `hay` as a run of neighbouring characters.
pub open spec fn is_substring(needle: Seq<char>, hay: Seq<char>) -> bool {
    exists|i: int| occurs_at(needle, hay, i)
}

/// The empty sequence is a substring of every sequence.
pub proof fn lemma_empty_is_substring(hay: Seq<char>)
    ensures
        is_substring(Seq::<char>::empty(), hay),
{
    assert(hay.subrange(0, 0) =~= Seq::<char>::empty());
    assert(occurs_at(Seq::<char>::empty(), hay, 0));
}

/// A text always has a piece, and no piece holds a separator.
pub proof fn lemma_split_pieces(s: Seq<char>, sep: Separator)
    ensures
        split(s, sep).len() >= 1,
        forall|i: int, k: int|
            0 <= i < split(s, sep).len() && 0 <= k < split(s, sep)[i].len() ==> !sep.separates(
                #[trigger] split(s, sep)[i][k],
            ),
    decreases s.len(),
{
    if s.len() > 0 {
        lemma_split_pieces(s.drop_last(), sep);
    }
}

/// The pieces that a character parts give the text back when that character
/// joins them.
pub proof fn lemma_join_of_split(s: Seq<char>, c: char)
    ensures
        join(split(s, Separator::Char(c)), seq![c]) == s,
    decreases s.len(),
{
    let sep = Separator::Char(c);
    if s.len() == 0 {
        assert(join(split(s, sep), seq![c]) =~= s);
    } else {
        let before = split(s.drop_last(), sep);
        lemma_split_pieces(s.drop_last(), sep);
        lemma_join_of_split(s.drop_last(), c);
        if sep.separates(s.last()) {
            assert(before.push(Seq::<char>::empty()).drop_last() =~= before);
            assert(join(split(s, sep), seq![c]) =~= s.drop_last().push(c));
        } else {
            let after = before.drop_last().push(before.last().push(s.last()));
            assert(after.drop_last() =~= before.drop_last());
            assert(join(after, seq![c]) =~= join(before, seq![c]).push(s.last()));
        }
        assert(s.drop_last().push(s.last()) =~= s);
    }
}

/// Every word holds a character, and none of its characters is white space.
pub proof fn lemma_words_hold_no_whitespace(s: Seq<char>, i: int)
    requires
        0 <= i < words(s).len(),
    ensures
        words(s)[i].len() > 0,
        forall|k: int| 0 <= k < words(s)[i].len() ==> !whitespace(#[trigger] words(s)[i][k]),
{
    let pieces = split(s, Separator::Whitespace);
    let holds = |piece: Seq<char>| piece.len() > 0;
    pieces.lemma_filter_pred(holds, i);
    pieces.lemma_filter_contains_rev(holds, words(s)[i]);
    let at = choose|at: int| 0 <= at < pieces.len() && pieces[at] == words(s)[i];
    lemma_split_pieces(s, Separator::Whitespace);
    assert forall|k: int| 0 <= k < words(s)[i].len() implies !whitespace(
        #[trigger] words(s)[i][k],
    ) by {
        assert(!Separator::Whitespace.separates(pieces[at][k]));
    }
}

/// Whether the white space of `s` is tidy: nothing but single spaces, each
/// between two characters that are not white space.
pub open spec fn tidy(s: Seq<char>) -> bool {
    forall|i: int|
        0 <= i < s.len() && whitespace(#[trigger] s[i]) ==> {
            &&& s[i] == ' '
            &&& 0 < i < s.len() - 1
            &&& !whitespace(s[i - 1])
            &&& !whitespace(s[i + 1])
        }
}

/// Parts that hold a character each and no white space give a tidy text when
/// single spaces join them.
pub proof fn lemma_join_is_tidy(parts: Seq<Seq<char>>)
    requires
        forall|i: int| 0 <= i < parts.len() ==> (#[trigger] parts[i]).len() > 0,
        forall|i: int, k: int|
            0 <= i < parts.len() && 0 <= k < parts[i].len() ==> !whitespace(
                #[trigger] parts[i][k],
            ),
    ensures
        tidy(join(parts, seq![' '])),
        parts.len() > 0 ==> join(parts, seq![' ']).len() > 0 && !whitespace(
            join(parts, seq![' ']).last(),
        ),
    decreases parts.len(),
{
    if parts.len() == 1 {
        assert forall|k: int| 0 <= k < parts[0].len() implies !whitespace(
            #[trigger] join(parts, seq![' '])[k],
        ) by {
            assert(!whitespace(parts[0][k]));
        }
    } else if parts.len() > 1 {
        let before = join(parts.drop_last(), seq![' ']);
        let last = parts.last();
        let all = join(parts, seq![' ']);
        assert forall|i: int|
            0 <= i < parts.drop_last().len() implies (#[trigger] parts.drop_last()[i]).len() > 0 by {
            assert(parts[i].len() > 0);
        }
        assert forall|i: int, k: int|
            0 <= i < parts.drop_last().len() && 0 <= k < parts.drop_last()[i].len()
            implies !whitespace(#[trigger] parts.drop_last()[i][k]) by {
            assert(!whitespace(parts[i][k]));
        }
        lemma_join_is_tidy(parts.drop_last());
        assert forall|k: int| 0 <= k < last.len() implies !whitespace(#[trigger] last[k]) by {
            assert(!whitespace(parts[parts.len() - 1][k]));
        }
        assert(all =~= before + seq![' '] + last);
        assert forall|i: int| 0 <= i < all.len() && whitespace(#[trigger] all[i]) implies {
            &&& all[i] == ' '
            &&& 0 < i < all.len() - 1
            &&& !whitespace(all[i - 1])
            &&& !whitespace(all[i + 1])
        } by {
            if i < before.len() {
                assert(all[i] == before[i]);
            } else if i == before.len() {
                assert(all[i - 1] == before.last());
                assert(all[i + 1] == last[0]);
            } else {
                assert(all[i] == last[i - before.len() - 1]);
            }
        }
        assert(all.last() == last.last());
    }
}

/// The words of a text, joined by single spaces, are a tidy text.
pub proof fn lemma_joined_words_are_tidy(s: Seq<char>)
    ensures
        tidy(join(words(s), seq![' '])),
{
    assert forall|i: int| 0 <= i < words(s).len() implies (#[trigger] words(s)[i]).len() > 0 by {
        lemma_words_hold_no_whitespace(s, i);
    }
    assert forall|i: int, k: int|
        0 <= i < words(s).len() && 0 <= k < words(s)[i].len() implies !whitespace(
        #[trigger] words(s)[i][k],
    ) by {
        lemma_words_hold_no_whitespace(s, i);
    }
    lemma_join_is_tidy(words(s));
}

/// A trimmed text neither begins nor ends with white space.
pub proof fn lemma_trim_ends(s: Seq<char>)
    ensures
        trim(s).len() > 0 ==> !whitespace(trim(s).first()) && !whitespace(trim(s).last()),
{
    lemma_trim_start(s);
    lemma_trim_end(trim_start(s));
}

/// What is left once the white space at the start is gone does not begin with
/// white space.
proof fn lemma_trim_start(s: Seq<char>)
    ensures
        trim_start(s).len() > 0 ==> !whitespace(trim_start(s).first()),
    decreases s.len(),
{
    if s.len() > 0 && whitespace(s.first()) {
        lemma_trim_start(s.drop_first());
    }
}

/// What is left once the white space at the end is gone does not end with
/// white space, and begins as the text did.
proof fn lemma_trim_end(s: Seq<char>)
    ensures
        trim_end(s).len() > 0 ==> !whitespace(trim_end(s).last()) && trim_end(s).first()
            == s.first(),
    decreases s.len(),
{
    if s.len() > 0 && whitespace(s.last()) {
        lemma_trim_end(s.drop_last());
    }
}

/// What a vector of character vectors holds.
pub open spec fn rows(v: Seq<Vec<char>>) -> Seq<Seq<char>> {
    v.map_values(|row: Vec<char>| row@)
}

/// What a vector of strings holds.
pub open spec fn texts(v: Seq<String>) -> Seq<Seq<char>> {
    v.map_values(|text: String| text@)
}

/// The characters of a string.
pub fn to_chars(s: &str) -> (chars: Vec<char>)
    ensures
        chars@ == s@,
{
    broadcast use vstd::string::group_string_axioms;

    let mut chars: Vec<char> = Vec::new();
    for c in it: s.chars()
        invariant
            it.seq() == s@,
            chars@ == it.history(),
    {
        chars.push(c);
    }
    chars
}

/// `String::push` appends one character to the string.
pub assume_specification[ String::push ](s: &mut String, ch: char)
    ensures
        final(s)@ == old(s)@.push(ch),
;

/// The string of the characters `chars[from..to]`.
pub(crate) fn string_of_range(chars: &Vec<char>, from: usize, to: usize) -> (s: String)
    requires
        from <= to <= chars.len(),
    ensures
        s@ == chars@.subrange(from as int, to as int),
{
    let mut s = String::new();
    let mut i: usize = from;
    while i < to
        invariant
            from <= i <= to <= chars.len(),
            s@ == chars@.subrange(from as int, i as int),
        decreases to - i,
    {
        s.push(chars[i]);
        i += 1;
    }
    s
}

/// The string of the characters of `chars`.
pub fn to_string(chars: &Vec<char>) -> (s: String)
    ensures
        s@ == chars@,
{
    string_of_range(chars, 0, chars.len())
}

/// A copy of the characters `chars[from..to]`.
pub(crate) fn copy_range(chars: &Vec<char>, from: usize, to: usize) -> (part: Vec<char>)
    requires
        from <= to <= chars.len(),
    ensures
        part@ == chars@.subrange(from as int, to as int),
{
    let mut part: Vec<char> = Vec::new();
    let mut i: usize = from;
    while i < to
        invariant
            from <= i <= to <= chars.len(),
            part@ == chars@.subrange(from as int, i as int),
        decreases to - i,
    {
        part.push(chars[i]);
        i += 1;
    }
    part
}

/// A copy of `chars`.
pub fn copy_chars(chars: &Vec<char>) -> (copy: Vec<char>)
    ensures
        copy@ == chars@,
{
    copy_range(chars, 0, chars.len())
}

/// Appends the characters of `more` to `out`.
pub fn append_chars(out: &mut Vec<char>, more: &Vec<char>)
    ensures
        final(out)@ == old(out)@ + more@,
{
    let mut i: usize = 0;
    while i < more.len()
        invariant
            i <= more.len(),
            out@ == old(out)@ + more@.take(i as int),
        decreases more.len() - i,
    {
        out.push(more[i]);
        i += 1;
    }
}

/// Splits `chars` at every separator.
pub fn split_chars(chars: &Vec<char>, sep: Separator) -> (pieces: Vec<Vec<char>>)
    ensures
        rows(pieces@) == split(chars@, sep),
{
    let mut pieces: Vec<Vec<char>> = Vec::new();
    let mut current: Vec<char> = Vec::new();
    let mut i: usize = 0;
    while i < chars.len()
        invariant
            i <= chars.len(),
            rows(pieces@).push(current@) == split(chars@.take(i as int), sep),
        decreases chars.len() - i,
    {
        let c = chars[i];
        assert(chars@.take(i + 1).drop_last() =~= chars@.take(i as int));
        if sep.is_separator(c) {
            pieces.push(current);
            current = Vec::new();
        } else {
            current.push(c);
        }
        i += 1;
    }
    pieces.push(current);
    assert(chars@.take(chars.len() as int) =~= chars@);
    pieces
}

/// The words of `chars`: the pieces between white space that hold a character.
pub fn split_words(chars: &Vec<char>) -> (found: Vec<Vec<char>>)
    ensures
        rows(found@) == words(chars@),
{
    let pieces = split_chars(chars, Separator::Whitespace);
    let ghost holds = |piece: Seq<char>| piece.len() > 0;
    let mut found: Vec<Vec<char>> = Vec::new();
    let mut i: usize = 0;
    while i < pieces.len()
        invariant
            i <= pieces.len(),
            holds == |piece: Seq<char>| piece.len() > 0,
            rows(found@) == rows(pieces@).take(i as int).filter(holds),
        decreases pieces.len() - i,
    {
        proof {
            assert(rows(pieces@).take(i + 1) =~= rows(pieces@).take(i as int).push(
                pieces[i as int]@,
            ));
            rows(pieces@).take(i as int).lemma_filter_push(pieces[i as int]@, holds);
        }
        if pieces[i].len() > 0 {
            found.push(copy_chars(&pieces[i]));
        }
        i += 1;
    }
    assert(rows(pieces@).take(pieces.len() as int) =~= rows(pieces@));
    found
}

/// Removes the white space at both ends of `chars`.
pub fn trim_chars(chars: &Vec<char>) -> (trimmed: Vec<char>)
    ensures
        trimmed@ == trim(chars@),
{
    let mut start: usize = 0;
    assert(chars@.skip(0) =~= chars@);
    while start < chars.len() && is_whitespace(chars[start])
        invariant
            start <= chars.len(),
            trim_start(chars@) == trim_start(chars@.skip(start as int)),
        decreases chars.len() - start,
    {
        assert(chars@.skip(start as int).drop_first() =~= chars@.skip(start + 1));
        start += 1;
    }
    let mut end: usize = chars.len();
    while end > start && is_whitespace(chars[end - 1])
        invariant
            start <= end <= chars.len(),
            trim(chars@) == trim_end(chars@.subrange(start as int, end as int)),
        decreases end - start,
    {
        assert(chars@.subrange(start as int, end as int).drop_last() =~= chars@.subrange(
            start as int,
            end - 1,
        ));
        end -= 1;
    }
    copy_range(chars, start, end)
}

/// Joins the parts with `sep` between each two neighbours.
pub fn join_chars(parts: &Vec<Vec<char>>, sep: &Vec<char>) -> (joined: Vec<char>)
    ensures
        joined@ == join(rows(parts@), sep@),
{
    let mut joined: Vec<char> = Vec::new();
    let mut i: usize = 0;
    while i < parts.len()
        invariant
            i <= parts.len(),
            joined@ == join(rows(parts@).take(i as int), sep@),
        decreases parts.len() - i,
    {
        assert(rows(parts@).take(i + 1).drop_last() =~= rows(parts@).take(i as int));
        if i > 0 {
            append_chars(&mut joined, sep);
        }
        append_chars(&mut joined, &parts[i]);
        i += 1;
    }
    assert(rows(parts@).take(parts.len() as int) =~= rows(parts@));
    joined
}

/// Whether `needle` stands in `hay` from position `i` on.
pub(crate) fn matches_at(hay: &Vec<char>, needle: &Vec<char>, i: usize) -> (m: bool)
    requires
        i + needle.len() <= hay.len(),
    ensures
        m == occurs_at(needle@, hay@, i as int),
{
    let mut j: usize = 0;
    while j < needle.len()
        invariant
            j <= needle.len(),
            i + needle.len() <= hay.len(),
            forall|k: int| 0 <= k < j ==> hay[i + k] == needle[k],
        decreases needle.len() - j,
    {
        if hay[i + j] != needle[j] {
            return false;
        }
        j += 1;
    }
    assert(hay@.subrange(i as int, i + needle.len()) =~= needle@);
    true
}

/// Whether `needle` stands somewhere in `hay`.
pub fn contains_chars(hay: &Vec<char>, needle: &Vec<char>) -> (found: bool)
    ensures
        found == is_substring(needle@, hay@),
{
    if needle.len() > hay.len() {
        return false;
    }
    let last: usize = hay.len() - needle.len();
    let mut i: usize = 0;
    loop
        invariant
            i <= last,
            last == hay.len() - needle.len(),
            forall|k: int| 0 <= k < i ==> !occurs_at(needle@, hay@, k),
        decreases last - i,
    {
        if matches_at(hay, needle, i) {
            return true;
        }
        if i == last {
            return false;
        }
        i += 1;
    }
}

/// Whether `needle` stands somewhere in `haystack`, character for character.
pub fn contains(haystack: &str, needle: &str) -> (found: bool)
    ensures
        found == is_substring(needle@, haystack@),
{
    let hay = to_chars(haystack);
    let pin = to_chars(needle);
    contains_chars(&hay, &pin)
}

/// The lower-case form that Unicode gives a text, as `str::to_lowercase` computes it.
pub uninterp spec fn unicode_lowercase(s: Seq<char>) -> Seq<char>;

/// The lower-case form of a text; the empty text is its own.
pub open spec fn lowercase(s: Seq<char>) -> Seq<char> {
    if s.len() == 0 {
        s
    } else {
        unicode_lowercase(s)
    }
}

/// `str::to_lowercase` returns the lower-case form of the text, which depends on
/// the text alone, and returns the empty string for the empty string.
pub assume_specification[ str::to_lowercase ](s: &str) -> (lower: String)
    ensures
        lower@ == unicode_lowercase(s@),
        s@.len() == 0 ==> lower@.len() == 0,
;

/// The lower-case form of a text.
pub fn to_lower(s: &str) -> (lower: String)
    ensures
        lower@ == lowercase(s@),
{
    s.to_lowercase()
}

/// Whether Unicode counts `c` as a letter or a number, as `char::is_alphanumeric`
/// tells.
pub uninterp spec fn alphanumeric(c: char) -> bool;

/// `char::is_alphanumeric` tells whether the character is a letter or a number,
/// which depends on the character alone.
pub assume_specification[ char::is_alphanumeric ](c: char) -> (b: bool)
    ensures
        b == alphanumeric(c),
;

} // verus!
