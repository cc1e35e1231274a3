use reflect_ai::storage::{STORAGE_DIR, STORAGE_FILE};
use reflect_ai::{
    analyze_page, analyze_text, Note, NoteStore, NotesError, PageReport, StorageManager,
    StoredFile, TextReport, Timestamp,
};

fn manager() -> StorageManager {
    StorageManager::new(Some("/home/user/.local/share".to_string())).unwrap()
}

fn one_note_store() -> NoteStore {
    let mut store = NoteStore::new();
    store.add_note(Note::created(
        "id".to_string(),
        Timestamp { secs: 1, nanos: 2 },
        "t".to_string(),
        "c".to_string(),
        vec!["tag".to_string()],
    ));
    store
}

#[test]
fn manager_needs_a_data_directory() {
    assert_eq!(StorageManager::new(None), Err(NotesError::StorageIO));
    assert_eq!(manager().data_dir(), "/home/user/.local/share");
    assert_eq!(STORAGE_DIR, "reflect-ai");
    assert_eq!(STORAGE_FILE, "notes.json");
}

#[test]
fn load_without_a_file_gives_an_empty_store() {
    assert_eq!(manager().load(StoredFile::Missing), Ok(NoteStore::new()));
}

#[test]
fn load_gives_the_notes_of_the_file() {
    assert_eq!(manager().load(StoredFile::Snapshot(one_note_store())), Ok(one_note_store()));
}

#[test]
fn load_fails_on_an_unreadable_or_malformed_file() {
    assert_eq!(manager().load(StoredFile::Unreadable), Err(NotesError::StorageIO));
    assert_eq!(manager().load(StoredFile::Malformed), Err(NotesError::StorageCorrupt));
}

#[test]
fn import_replaces_the_store_or_fails_as_corrupt() {
    assert_eq!(manager().import_json(Some(one_note_store())), Ok(one_note_store()));
    assert_eq!(manager().import_json(Some(NoteStore::new())), Ok(NoteStore::new()));
    assert_eq!(manager().import_json(None), Err(NotesError::StorageCorrupt));
}

#[test]
fn analyze_text_reports_summary_keywords_and_word_count() {
    let text = "Rust is fast. Rust is safe. Verus proves Rust code. Four. Five. Six.";
    assert_eq!(
        analyze_text(text),
        TextReport {
            summary: "Rust is fast. Rust is safe. Verus proves Rust code. Four".to_string(),
            keywords: vec![
                "rust".to_string(),
                "fast".to_string(),
                "safe".to_string(),
                "verus".to_string(),
                "proves".to_string(),
                "code".to_string(),
                "four".to_string(),
                "five".to_string(),
            ],
            word_count: 13,
        }
    );
    assert_eq!(
        analyze_text(""),
        TextReport { summary: String::new(), keywords: Vec::new(), word_count: 0 }
    );
}

#[test]
fn analyze_page_reports_on_the_plain_text() {
    let html = "<html><head><style>b{}</style><script>track()</script></head>\
                <body><h1>Cats</h1><p>Cats sleep. Cats eat.</p></body></html>";
    assert_eq!(
        analyze_page("https://pets.example.com/cats", html),
        PageReport {
            summary: "Cats Cats sleep. Cats eat".to_string(),
            keywords: vec!["cats".to_string(), "sleep".to_string(), "eat".to_string()],
            domain: "pets.example.com".to_string(),
            word_count: 5,
            url: "https://pets.example.com/cats".to_string(),
        }
    );
    assert_eq!(analyze_page("nowhere", "").domain, "unknown");
}
