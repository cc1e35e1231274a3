//! Where the store is kept, and what is made of what was found there. Reading
//! and writing the file, and turning notes into text and back, is left to the
//! caller; the rules are here.

use vstd::prelude::*;
use crate::error::NotesError;
use crate::note::NoteView;
use crate::store::NoteStore;

verus! {

/// The directory, below the data directory of the user, in which the notes are kept.
pub const STORAGE_DIR: &'static str = "reflect-ai";

/// The file, in that directory, that holds the notes.
pub const STORAGE_FILE: &'static str = "notes.json";

/// What the caller found at the storage location.
#[derive(Debug, PartialEq, Eq)]
pub enum StoredFile {
    /// There is no file.
    Missing,
    /// There is a file, and it could not be read.
    Unreadable,
    /// The file was read, and what it holds is no store of notes.
    Malformed,
    /// The file holds these notes.
    Snapshot(NoteStore),
}

/// Keeps one store in one file at a place that is fixed when the manager is made.
#[derive(Debug, PartialEq, Eq)]
pub struct StorageManager {
    data_dir: String,
}

impl View for StorageManager {
    type V = Seq<char>;

    /// The data directory of the user.
    closed spec fn view(&self) -> Seq<char> {
        self.data_dir@
    }
}

/// What loading makes of what was found: no notes where there is no file yet,
/// the notes of the file where it holds some, and a failure otherwise.
pub open spec fn loaded(found: StoredFile) -> Result<Seq<NoteView>, NotesError> {
    match found {
        StoredFile::Missing => Ok(Seq::<NoteView>::empty()),
        StoredFile::Unreadable => Err(NotesError::StorageIO),
        StoredFile::Malformed => Err(NotesError::StorageCorrupt),
        StoredFile::Snapshot(store) => Ok(store@),
    }
}

/// The notes of a result, or its failure.
pub open spec fn outcome(result: Result<NoteStore, NotesError>) -> Result<
    Seq<NoteView>,
    NotesError,
> {
    match result {
        Ok(store) => Ok(store@),
        Err(error) => Err(error),
    }
}

impl StorageManager {
    /// A manager for the store below the data directory of the user. Fails with
    /// `StorageIO` where that directory could not be told.
    pub fn new(data_dir: Option<String>) -> (made: Result<StorageManager, NotesError>)
        ensures
            match data_dir {
                Some(dir) => made is Ok && made->Ok_0@ == dir@,
                None => made == Err::<StorageManager, NotesError>(NotesError::StorageIO),
            },
    {
        match data_dir {
            Some(dir) => Ok(StorageManager { data_dir: dir }),
            None => Err(NotesError::StorageIO),
        }
    }

    /// The data directory of the user, below which the store is kept.
    pub fn data_dir(&self) -> (dir: &String)
        ensures
            dir@ == self@,
    {
        &self.data_dir
    }

    /// The store that is loaded, given what was found at the storage location:
    /// an empty store where there is no file yet, the notes of the file where
    /// it holds some, `StorageIO` where it could not be read and
    /// `StorageCorrupt` where it holds something else.
    pub fn load(&self, found: StoredFile) -> (store: Result<NoteStore, NotesError>)
        ensures
            outcome(store) == loaded(found),
    {
        match found {
            StoredFile::Missing => Ok(NoteStore::new()),
            StoredFile::Unreadable => Err(NotesError::StorageIO),
            StoredFile::Malformed => Err(NotesError::StorageCorrupt),
            StoredFile::Snapshot(store) => Ok(store),
        }
    }

    /// The store that takes the place of the stored one, given what the text
    /// that was handed in holds: its notes, and `StorageCorrupt` where it holds
    /// no store. What was stored before is not kept.
    pub fn import_json(&self, parsed: Option<NoteStore>) -> (store: Result<NoteStore, NotesError>)
        ensures
            outcome(store) == match parsed {
                Some(store) => Ok::<Seq<NoteView>, NotesError>(store@),
                None => Err::<Seq<NoteView>, NotesError>(NotesError::StorageCorrupt),
            },
    {
        match parsed {
            Some(store) => Ok(store),
            None => Err(NotesError::StorageCorrupt),
        }
    }
}

} // verus!
