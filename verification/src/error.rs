//! The ways in which an operation on the notes fails.

use vstd::prelude::*;

verus! {

/// Why an operation failed.
#[derive(Clone, Copy, Debug, PartialEq, Eq, Structural)]
pub enum NotesError {
    /// No note has the id that was asked for.
    NotFound,
    /// The storage location could not be resolved, read or written.
    StorageIO,
    /// What is stored, or what was handed in to be stored, is no store of notes.
    StorageCorrupt,
}

impl NotesError {
    /// The words that describe the failure.
    pub open spec fn description(self) -> Seq<char> {
        match self {
            NotesError::NotFound => "Note not found"@,
            NotesError::StorageIO => "Note storage could not be reached"@,
            NotesError::StorageCorrupt => "Stored notes could not be read"@,
        }
    }

    /// A description of the failure for the caller to show.
    pub fn message(&self) -> (text: String)
        ensures
            text@ == self.description(),
    {
        match self {
            NotesError::NotFound => "Note not found".to_owned(),
            NotesError::StorageIO => "Note storage could not be reached".to_owned(),
            NotesError::StorageCorrupt => "Stored notes could not be read".to_owned(),
        }
    }
}

} // verus!
