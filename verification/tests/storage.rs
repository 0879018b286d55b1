//! Store lifecycle tests: schema initialization and manager creation.

use synapse::dao::{BlockDao, NoteDao};
use synapse::db_manager::DatabaseManager;
use synapse::models::{Block, Note};

#[test]
fn test_database_initialization() {
    // The schema ran on open: the notes and blocks tables exist and
    // accept rows.
    let mut db = DatabaseManager::in_memory().unwrap();
    let note = Note::new(
        "note-1".to_string(),
        "Test".to_string(),
        "notes/test.md".to_string(),
    );
    NoteDao::create(&mut db, &note).unwrap();
    let block = Block::new(
        "block-1".to_string(),
        "note-1".to_string(),
        "paragraph".to_string(),
        "text".to_string(),
        0,
    );
    BlockDao::create(&mut db, &block).unwrap();
    assert!(NoteDao::get_by_id(&db, &"note-1".to_string(), false)
        .unwrap()
        .is_some());
    assert!(BlockDao::get_by_id(&db, &"block-1".to_string(), false)
        .unwrap()
        .is_some());
}

#[test]
fn test_database_manager_creation() {
    let db = DatabaseManager::in_memory().unwrap();
    let notes = NoteDao::list(&db, true).unwrap();
    assert_eq!(notes.len(), 0);
}

#[test]
fn db_manager_test_database_manager_creation() {
    let db = DatabaseManager::in_memory().unwrap();
    let notes = NoteDao::list(&db, true).unwrap();
    assert_eq!(notes.len(), 0);
}
