//! Notes with tags, and what can be read off a text: its keywords, a short
//! summary, the domain of a URL, and the plain text of an HTML page.

pub mod analyzer;
pub mod error;
pub mod html;
pub mod keywords;
pub mod note;
pub mod report;
pub mod storage;
pub mod store;
pub mod text;

pub use analyzer::TextAnalyzer;
pub use error::NotesError;
pub use html::strip_html;
pub use note::{Note, Timestamp};
pub use report::{analyze_page, analyze_text, PageReport, TextReport};
pub use storage::{StorageManager, StoredFile};
pub use store::NoteStore;
