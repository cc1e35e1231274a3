//! The store: the notes in the order in which they were added, with the
//! operations that add, edit, delete, find, list and search them.

use vstd::prelude::*;
use crate::error::NotesError;
use crate::note::{edited_note, now, Note, NoteView, Timestamp};
use crate::text::{
    contains_chars, is_substring, lemma_empty_is_substring, lowercase, texts, to_chars, to_lower,
};

verus! {

/// The notes, in the order in which they were added. Nothing keeps two notes
/// from having the same id; an operation that names an id means the first note
/// that has it.
#[derive(Debug, PartialEq, Eq)]
pub struct NoteStore {
    pub notes: Vec<Note>,
}

/// What a vector of notes holds.
pub open spec fn note_views(notes: Seq<Note>) -> Seq<NoteView> {
    notes.map_values(|note: Note| note@)
}

impl View for NoteStore {
    type V = Seq<NoteView>;

    open spec fn view(&self) -> Seq<NoteView> {
        note_views(self.notes@)
    }
}

/// Whether the note at place `k` is the first that has the id.
pub open spec fn is_first_with_id(notes: Seq<NoteView>, id: Seq<char>, k: int) -> bool {
    &&& 0 <= k < notes.len()
    &&& notes[k].id == id
    &&& forall|j: int| 0 <= j < k ==> notes[j].id != id
}

/// The place of the first note that has the id, if there is one.
pub open spec fn position(notes: Seq<NoteView>, id: Seq<char>) -> Option<int> {
    if exists|k: int| is_first_with_id(notes, id, k) {
        Some(choose|k: int| is_first_with_id(notes, id, k))
    } else {
        None
    }
}

/// The notes after one more is added.
pub open spec fn after_add(notes: Seq<NoteView>, note: NoteView) -> Seq<NoteView> {
    notes.push(note)
}

/// The notes after each of `added` is added in turn.
pub open spec fn after_adds(notes: Seq<NoteView>, added: Seq<NoteView>) -> Seq<NoteView>
    decreases added.len(),
{
    if added.len() == 0 {
        notes
    } else {
        after_add(after_adds(notes, added.drop_last()), added.last())
    }
}

/// The notes after the first that has the id is edited at the time `at`; the
/// same notes where none has the id.
pub open spec fn after_update(
    notes: Seq<NoteView>,
    id: Seq<char>,
    title: Seq<char>,
    content: Seq<char>,
    tags: Seq<Seq<char>>,
    at: Timestamp,
) -> Seq<NoteView> {
    match position(notes, id) {
        Some(k) => notes.update(k, edited_note(notes[k], title, content, tags, at)),
        None => notes,
    }
}

/// The notes after the first that has the id is taken out; the same notes
/// where none has the id.
pub open spec fn after_delete(notes: Seq<NoteView>, id: Seq<char>) -> Seq<NoteView> {
    match position(notes, id) {
        Some(k) => notes.remove(k),
        None => notes,
    }
}

/// The first note that has the id.
pub open spec fn lookup(notes: Seq<NoteView>, id: Seq<char>) -> Option<NoteView> {
    match position(notes, id) {
        Some(k) => Some(notes[k]),
        None => None,
    }
}

/// What an edit of the first note that has the id returns: the note as it then
/// is, or `NotFound` where no note has the id.
pub open spec fn edit_outcome(
    notes: Seq<NoteView>,
    id: Seq<char>,
    title: Seq<char>,
    content: Seq<char>,
    tags: Seq<Seq<char>>,
    at: Timestamp,
) -> Result<NoteView, NotesError> {
    match position(notes, id) {
        Some(k) => Ok(edited_note(notes[k], title, content, tags, at)),
        None => Err(NotesError::NotFound),
    }
}

/// What deleting the first note that has the id returns: `NotFound` where no
/// note has the id.
pub open spec fn delete_outcome(notes: Seq<NoteView>, id: Seq<char>) -> Result<(), NotesError> {
    match position(notes, id) {
        Some(_) => Ok(()),
        None => Err(NotesError::NotFound),
    }
}

/// What a note that was found, or not, holds.
pub open spec fn found_view(found: Option<Note>) -> Option<NoteView> {
    match found {
        Some(note) => Some(note@),
        None => None,
    }
}

/// What the note that an edit returned holds, or why the edit failed.
pub open spec fn edit_view(updated: Result<Note, NotesError>) -> Result<NoteView, NotesError> {
    match updated {
        Ok(note) => Ok(note@),
        Err(error) => Err(error),
    }
}

/// Whether `query` stands in one of the texts, character for character.
pub open spec fn occurs_in_any(query: Seq<char>, list: Seq<Seq<char>>) -> bool {
    exists|i: int| 0 <= i < list.len() && is_substring(query, #[trigger] list[i])
}

/// Whether `query` stands in the title, in the content or in one of the tags,
/// character for character.
pub open spec fn found_in(
    query: Seq<char>,
    title: Seq<char>,
    content: Seq<char>,
    tags: Seq<Seq<char>>,
) -> bool {
    is_substring(query, title) || is_substring(query, content) || occurs_in_any(query, tags)
}

/// Whether the note answers a query that is given in lower case: the query
/// stands in the lower-case form of the title, of the content or of a tag.
pub open spec fn answers(note: NoteView, lowered_query: Seq<char>) -> bool {
    found_in(
        lowered_query,
        lowercase(note.title),
        lowercase(note.content),
        note.tags.map_values(|tag: Seq<char>| lowercase(tag)),
    )
}

/// The notes that answer the query, in the order of the store.
pub open spec fn matching(notes: Seq<NoteView>, lowered_query: Seq<char>) -> Seq<NoteView> {
    notes.filter(|note: NoteView| answers(note, lowered_query))
}

/// The first note that has the id stands where a search from the front finds it.
pub proof fn lemma_position(notes: Seq<NoteView>, id: Seq<char>, k: int)
    requires
        is_first_with_id(notes, id, k),
    ensures
        position(notes, id) == Some(k),
{
    let chosen = choose|j: int| is_first_with_id(notes, id, j);
    assert(is_first_with_id(notes, id, chosen));
    if chosen < k {
        assert(notes[chosen].id != id);
    }
    if k < chosen {
        assert(notes[k].id != id);
    }
}

/// Where no note has the id there is no first one.
pub proof fn lemma_no_position(notes: Seq<NoteView>, id: Seq<char>)
    requires
        forall|j: int| 0 <= j < notes.len() ==> notes[j].id != id,
    ensures
        position(notes, id) is None,
{
}

/// Whether `query` stands in the title, in the content or in one of the tags,
/// character for character: the test that a search applies to the lower-case
/// forms.
pub fn found_in_texts(query: &str, title: &str, content: &str, tags: &Vec<String>) -> (found:
    bool)
    ensures
        found == found_in(query@, title@, content@, texts(tags@)),
{
    let pin = to_chars(query);
    if contains_chars(&to_chars(title), &pin) {
        return true;
    }
    if contains_chars(&to_chars(content), &pin) {
        return true;
    }
    let mut i: usize = 0;
    while i < tags.len()
        invariant
            i <= tags.len(),
            pin@ == query@,
            forall|k: int| 0 <= k < i ==> !is_substring(query@, #[trigger] texts(tags@)[k]),
        decreases tags.len() - i,
    {
        if contains_chars(&to_chars(tags[i].as_str()), &pin) {
            assert(is_substring(query@, texts(tags@)[i as int]));
            return true;
        }
        i += 1;
    }
    false
}

impl Note {
    /// Whether the note answers a query that is given in lower case.
    pub fn answers_lowered(&self, lowered_query: &str) -> (found: bool)
        ensures
            found == answers(self@, lowered_query@),
    {
        let title = to_lower(self.title.as_str());
        let content = to_lower(self.content.as_str());
        let mut tags: Vec<String> = Vec::new();
        let mut i: usize = 0;
        while i < self.tags.len()
            invariant
                i <= self.tags.len(),
                tags.len() == i,
                forall|k: int| 0 <= k < i ==> tags[k]@ == lowercase(self.tags[k]@),
            decreases self.tags.len() - i,
        {
            tags.push(to_lower(self.tags[i].as_str()));
            i += 1;
        }
        assert(texts(tags@) =~= self@.tags.map_values(|tag: Seq<char>| lowercase(tag)));
        found_in_texts(lowered_query, title.as_str(), content.as_str(), &tags)
    }
}

impl NoteStore {
    /// A store without notes.
    pub fn new() -> (store: NoteStore)
        ensures
            store@ == Seq::<NoteView>::empty(),
    {
        NoteStore { notes: Vec::new() }
    }

    /// Adds the note behind the others and returns its id.
    pub fn add_note(&mut self, note: Note) -> (id: String)
        ensures
            final(self)@ == after_add(old(self)@, note@),
            id@ == note@.id,
    {
        let id = note.id.clone();
        self.notes.push(note);
        id
    }

    /// The place of the first note that has the id.
    pub fn find(&self, id: &str) -> (at: Option<usize>)
        ensures
            match at {
                Some(k) => k < self.notes.len() && position(self@, id@) == Some(k as int),
                None => position(self@, id@) is None,
            },
    {
        let wanted = id.to_owned();
        let mut i: usize = 0;
        while i < self.notes.len()
            invariant
                i <= self.notes.len(),
                wanted@ == id@,
                forall|j: int| 0 <= j < i ==> self@[j].id != id@,
            decreases self.notes.len() - i,
        {
            if self.notes[i].id == wanted {
                proof {
                    lemma_position(self@, id@, i as int);
                }
                return Some(i);
            }
            i += 1;
        }
        None
    }

    /// Edits the first note that has the id, at the time `at`: its title, its
    /// content and its tags are replaced and `at` becomes the time of its last
    /// edit. Returns a copy of the note as it then is. Where no note has the id
    /// the store is left as it was and the edit fails with `NotFound`.
    pub fn update_note_at(
        &mut self,
        id: &str,
        title: String,
        content: String,
        tags: Vec<String>,
        at: Timestamp,
    ) -> (updated: Result<Note, NotesError>)
        ensures
            final(self)@ == after_update(old(self)@, id@, title@, content@, texts(tags@), at),
            edit_view(updated) == edit_outcome(
                old(self)@,
                id@,
                title@,
                content@,
                texts(tags@),
                at,
            ),
    {
        match self.find(id) {
            Some(k) => {
                let note = self.notes[k].edited(title, content, tags, at);
                let copy = note.clone();
                self.notes.set(k, note);
                Ok(copy)
            },
            None => Err(NotesError::NotFound),
        }
    }

    /// Edits the first note that has the id, now: its title, its content and its
    /// tags are replaced and the time of its last edit is read from the clock.
    /// Returns a copy of the note as it then is. Where no note has the id the
    /// store is left as it was and the edit fails with `NotFound`.
    pub fn update_note(
        &mut self,
        id: &str,
        title: String,
        content: String,
        tags: Vec<String>,
    ) -> (updated: Result<Note, NotesError>)
        ensures
            match updated {
                Ok(note) => {
                    let at = note@.updated_at;
                    &&& final(self)@ == after_update(
                        old(self)@,
                        id@,
                        title@,
                        content@,
                        texts(tags@),
                        at,
                    )
                    &&& Ok::<NoteView, NotesError>(note@) == edit_outcome(
                        old(self)@,
                        id@,
                        title@,
                        content@,
                        texts(tags@),
                        at,
                    )
                },
                Err(error) => {
                    &&& error == NotesError::NotFound
                    &&& position(old(self)@, id@) is None
                    &&& final(self)@ == old(self)@
                },
            },
    {
        self.update_note_at(id, title, content, tags, now())
    }

    /// Takes the first note that has the id out of the store. Where no note has
    /// the id the store is left as it was and the call fails with `NotFound`.
    pub fn delete_note(&mut self, id: &str) -> (deleted: Result<(), NotesError>)
        ensures
            final(self)@ == after_delete(old(self)@, id@),
            deleted == delete_outcome(old(self)@, id@),
    {
        match self.find(id) {
            Some(k) => {
                self.notes.remove(k);
                Ok(())
            },
            None => Err(NotesError::NotFound),
        }
    }

    /// A copy of the first note that has the id.
    pub fn get_note(&self, id: &str) -> (found: Option<Note>)
        ensures
            found_view(found) == lookup(self@, id@),
    {
        match self.find(id) {
            Some(k) => Some(self.notes[k].clone()),
            None => None,
        }
    }

    /// A copy of every note, in the order of the store.
    pub fn list_notes(&self) -> (list: Vec<Note>)
        ensures
            note_views(list@) == self@,
    {
        let mut list: Vec<Note> = Vec::new();
        let mut i: usize = 0;
        while i < self.notes.len()
            invariant
                i <= self.notes.len(),
                list.len() == i,
                forall|k: int| 0 <= k < i ==> list[k]@ == self.notes[k]@,
            decreases self.notes.len() - i,
        {
            list.push(self.notes[i].clone());
            i += 1;
        }
        list
    }

    /// A copy of every note that answers the query, in the order of the store.
    /// A note answers when the query, in lower case, stands in the lower-case
    /// form of its title, of its content or of one of its tags; every note
    /// answers the empty query.
    pub fn search_notes(&self, query: &str) -> (list: Vec<Note>)
        ensures
            note_views(list@) == matching(self@, lowercase(query@)),
            query@.len() == 0 ==> note_views(list@) == self@,
    {
        let lowered = to_lower(query);
        let ghost asked = |note: NoteView| answers(note, lowercase(query@));
        let mut list: Vec<Note> = Vec::new();
        let mut i: usize = 0;
        while i < self.notes.len()
            invariant
                i <= self.notes.len(),
                lowered@ == lowercase(query@),
                asked == |note: NoteView| answers(note, lowercase(query@)),
                note_views(list@) == self@.take(i as int).filter(asked),
            decreases self.notes.len() - i,
        {
            proof {
                assert(self@.take(i + 1) =~= self@.take(i as int).push(self.notes[i as int]@));
                self@.take(i as int).lemma_filter_push(self.notes[i as int]@, asked);
            }
            if self.notes[i].answers_lowered(lowered.as_str()) {
                list.push(self.notes[i].clone());
            }
            i += 1;
        }
        proof {
            assert(self@.take(self.notes.len() as int) =~= self@);
            if query@.len() == 0 {
                assert(query@ =~= Seq::<char>::empty());
                lemma_empty_query_finds_all(self@);
            }
        }
        list
    }
}

impl Clone for NoteStore {
    fn clone(&self) -> (copy: Self)
        ensures
            copy@ == self@,
    {
        NoteStore { notes: self.list_notes() }
    }
}

impl Default for NoteStore {
    fn default() -> (store: Self)
        ensures
            store@ == Seq::<NoteView>::empty(),
    {
        NoteStore::new()
    }
}

/// Notes that are added one after the other stand behind the notes that were
/// there, in the order in which they were added, each as it was handed in.
pub proof fn lemma_adds_keep_order(notes: Seq<NoteView>, added: Seq<NoteView>)
    ensures
        after_adds(notes, added) == notes + added,
    decreases added.len(),
{
    if added.len() == 0 {
        assert(notes + added =~= notes);
    } else {
        lemma_adds_keep_order(notes, added.drop_last());
        assert((notes + added.drop_last()).push(added.last()) =~= notes + added);
    }
}

/// An edit that names an id which no note has fails with `NotFound` and
/// changes nothing.
pub proof fn lemma_update_of_unknown_id(
    notes: Seq<NoteView>,
    id: Seq<char>,
    title: Seq<char>,
    content: Seq<char>,
    tags: Seq<Seq<char>>,
    at: Timestamp,
)
    requires
        forall|j: int| 0 <= j < notes.len() ==> notes[j].id != id,
    ensures
        edit_outcome(notes, id, title, content, tags, at) == Err::<NoteView, NotesError>(
            NotesError::NotFound,
        ),
        after_update(notes, id, title, content, tags, at) == notes,
{
}

/// Once the note with an id is deleted, no note is found under that id,
/// provided that at most one note had it. (Of two notes with one id the second
/// is left, and is found.)
pub proof fn lemma_deleted_is_gone(notes: Seq<NoteView>, id: Seq<char>)
    requires
        forall|i: int, j: int|
            0 <= i < notes.len() && 0 <= j < notes.len() && notes[i].id == id && notes[j].id == id
                ==> i == j,
    ensures
        lookup(after_delete(notes, id), id) is None,
{
    let left = after_delete(notes, id);
    match position(notes, id) {
        Some(k) => {
            assert(is_first_with_id(notes, id, k));
            assert forall|j: int| 0 <= j < left.len() implies left[j].id != id by {
                if j < k {
                    assert(left[j] == notes[j]);
                } else {
                    assert(left[j] == notes[j + 1]);
                }
            }
            lemma_no_position(left, id);
        },
        None => {},
    }
}

/// Every note answers the empty query.
pub proof fn lemma_empty_query_finds_all(notes: Seq<NoteView>)
    ensures
        matching(notes, lowercase(Seq::<char>::empty())) == notes,
    decreases notes.len(),
{
    let asked = |note: NoteView| answers(note, lowercase(Seq::<char>::empty()));
    reveal(Seq::filter);
    if notes.len() > 0 {
        lemma_empty_query_finds_all(notes.drop_last());
        lemma_empty_is_substring(lowercase(notes.last().title));
        assert(asked(notes.last()));
        assert(notes.drop_last().push(notes.last()) =~= notes);
    }
}

/// A search does not tell capital from small letters in the query: two queries
/// with one lower-case form find the same notes.
pub proof fn lemma_search_ignores_query_case(notes: Seq<NoteView>, a: Seq<char>, b: Seq<char>)
    requires
        lowercase(a) == lowercase(b),
    ensures
        matching(notes, lowercase(a)) == matching(notes, lowercase(b)),
{
}

/// A search does not tell capital from small letters in the notes: two notes
/// whose titles, contents and tags have the same lower-case forms answer the
/// same queries.
pub proof fn lemma_search_ignores_note_case(a: NoteView, b: NoteView, lowered_query: Seq<char>)
    requires
        lowercase(a.title) == lowercase(b.title),
        lowercase(a.content) == lowercase(b.content),
        a.tags.len() == b.tags.len(),
        forall|i: int| 0 <= i < a.tags.len() ==> lowercase(a.tags[i]) == lowercase(b.tags[i]),
    ensures
        answers(a, lowered_query) == answers(b, lowered_query),
{
    assert(a.tags.map_values(|tag: Seq<char>| lowercase(tag)) =~= b.tags.map_values(
        |tag: Seq<char>| lowercase(tag),
    ));
}

/// A note answers a query that stands in the lower-case form of its title, of
/// its content, or of one of its tags, and no other.
pub proof fn lemma_answers_by_field(note: NoteView, lowered_query: Seq<char>)
    ensures
        answers(note, lowered_query) <==> (is_substring(lowered_query, lowercase(note.title))
            || is_substring(lowered_query, lowercase(note.content)) || exists|i: int|
            0 <= i < note.tags.len() && is_substring(
                lowered_query,
                lowercase(#[trigger] note.tags[i]),
            )),
{
    let lowered = note.tags.map_values(|tag: Seq<char>| lowercase(tag));
    if occurs_in_any(lowered_query, lowered) {
        let i = choose|i: int|
            0 <= i < lowered.len() && is_substring(lowered_query, #[trigger] lowered[i]);
        assert(is_substring(lowered_query, lowercase(note.tags[i])));
    }
    if exists|i: int|
        0 <= i < note.tags.len() && is_substring(
            lowered_query,
            lowercase(#[trigger] note.tags[i]),
        ) {
        let i = choose|i: int|
            0 <= i < note.tags.len() && is_substring(
                lowered_query,
                lowercase(#[trigger] note.tags[i]),
            );
        assert(is_substring(lowered_query, lowered[i]));
    }
}

} // verus!
