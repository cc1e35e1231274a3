//! A note: a titled, tagged piece of text with an id and two times.

use vstd::prelude::*;
use crate::text::texts;

verus! {

/// A moment in time: the seconds since the start of 1970 in UTC, and the
/// nanoseconds into that second.
#[derive(Clone, Copy, Debug, PartialEq, Eq, Structural)]
pub struct Timestamp {
    pub secs: i64,
    pub nanos: u32,
}

/// One note.
#[derive(Debug, PartialEq, Eq)]
pub struct Note {
    /// Tells the note from every other; given once, when the note is made.
    pub id: String,
    pub title: String,
    pub content: String,
    /// In the order given; neither doubles nor case are touched.
    pub tags: Vec<String>,
    pub created_at: Timestamp,
    /// The time of the last edit; that of the making until the first.
    pub updated_at: Timestamp,
    /// Where the note comes from, if that is known.
    pub source: Option<String>,
}

/// What a note holds.
pub ghost struct NoteView {
    pub id: Seq<char>,
    pub title: Seq<char>,
    pub content: Seq<char>,
    pub tags: Seq<Seq<char>>,
    pub created_at: Timestamp,
    pub updated_at: Timestamp,
    pub source: Option<Seq<char>>,
}

impl View for Note {
    type V = NoteView;

    open spec fn view(&self) -> NoteView {
        NoteView {
            id: self.id@,
            title: self.title@,
            content: self.content@,
            tags: texts(self.tags@),
            created_at: self.created_at,
            updated_at: self.updated_at,
            source: match self.source {
                Some(source) => Some(source@),
                None => None,
            },
        }
    }
}

impl Clone for Note {
    fn clone(&self) -> (copy: Self)
        ensures
            copy@ == self@,
    {
        let tags = copy_texts(&self.tags);
        let source = match &self.source {
            Some(source) => Some(source.clone()),
            None => None,
        };
        Note {
            id: self.id.clone(),
            title: self.title.clone(),
            content: self.content.clone(),
            tags,
            created_at: self.created_at,
            updated_at: self.updated_at,
            source,
        }
    }
}

/// A copy of a list of strings.
fn copy_texts(list: &Vec<String>) -> (copy: Vec<String>)
    ensures
        texts(copy@) == texts(list@),
{
    let mut copy: Vec<String> = Vec::new();
    let mut i: usize = 0;
    while i < list.len()
        invariant
            i <= list.len(),
            copy.len() == i,
            forall|k: int| 0 <= k < i ==> copy[k]@ == list[k]@,
        decreases list.len() - i,
    {
        copy.push(list[i].clone());
        i += 1;
    }
    copy
}

/// The note with the given id as it is when made at the time `at`: not edited
/// since, and of unknown source.
pub open spec fn created_note(
    id: Seq<char>,
    at: Timestamp,
    title: Seq<char>,
    content: Seq<char>,
    tags: Seq<Seq<char>>,
) -> NoteView {
    NoteView { id, title, content, tags, created_at: at, updated_at: at, source: None }
}

/// The note after an edit at the time `at`: title, content and tags are the new
/// ones, the time of the last edit is `at`, the rest is as it was.
pub open spec fn edited_note(
    note: NoteView,
    title: Seq<char>,
    content: Seq<char>,
    tags: Seq<Seq<char>>,
    at: Timestamp,
) -> NoteView {
    NoteView {
        id: note.id,
        title,
        content,
        tags,
        created_at: note.created_at,
        updated_at: at,
        source: note.source,
    }
}

/// The number of characters in which an identifier is written: 32 digits in
/// five groups, with a hyphen between each two.
pub const ID_LENGTH: usize = 36;

/// Calls `uuid::Uuid::new_v4` and writes the identifier out with its `Display`
/// form, which is the hyphenated one. The identifier is random, and the system
/// must have random numbers to give; of the string only its length is claimed.
#[verifier::external_body]
pub(crate) fn fresh_id() -> (id: String)
    ensures
        id@.len() == ID_LENGTH,
{
    uuid::Uuid::new_v4().to_string()
}

/// Calls `chrono::Utc::now` and reads the seconds and nanoseconds of the moment
/// with `DateTime::timestamp` and `DateTime::timestamp_subsec_nanos`. The moment
/// is that of the system clock, which must not stand before 1970; of the value
/// it is only claimed that the nanoseconds stay within one second.
#[verifier::external_body]
pub(crate) fn now() -> (at: Timestamp)
    ensures
        at.nanos < 1_000_000_000,
{
    let moment = chrono::Utc::now();
    Timestamp { secs: moment.timestamp(), nanos: moment.timestamp_subsec_nanos() }
}

impl Note {
    /// A new note with a fresh random id, made and last edited now, of unknown
    /// source.
    pub fn new(title: String, content: String, tags: Vec<String>) -> (note: Note)
        ensures
            note@ == created_note(note@.id, note@.created_at, title@, content@, texts(tags@)),
            note@.id.len() == ID_LENGTH,
            note@.created_at.nanos < 1_000_000_000,
    {
        Note::created(fresh_id(), now(), title, content, tags)
    }

    /// The note with the given id that was made at the time `at`.
    pub fn created(
        id: String,
        at: Timestamp,
        title: String,
        content: String,
        tags: Vec<String>,
    ) -> (note: Note)
        ensures
            note@ == created_note(id@, at, title@, content@, texts(tags@)),
    {
        Note { id, title, content, tags, created_at: at, updated_at: at, source: None }
    }

    /// The note after an edit at the time `at`.
    pub fn edited(
        &self,
        title: String,
        content: String,
        tags: Vec<String>,
        at: Timestamp,
    ) -> (note: Note)
        ensures
            note@ == edited_note(self@, title@, content@, texts(tags@), at),
    {
        let source = match &self.source {
            Some(source) => Some(source.clone()),
            None => None,
        };
        Note {
            id: self.id.clone(),
            title,
            content,
            tags,
            created_at: self.created_at,
            updated_at: at,
            source,
        }
    }
}

} // verus!
