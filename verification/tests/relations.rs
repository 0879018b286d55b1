//! Relation-access tests against a transient store.

use synapse::dao::{FolderDao, NoteDao, TagDao};
use synapse::db_manager::DatabaseManager;
use synapse::models::{Folder, Note, Tag};
use synapse::relation_dao::{NoteFolderDao, NoteTagDao};

#[test]
fn test_note_folder_relation() {
    let mut db = DatabaseManager::in_memory().unwrap();

    let note = Note::new(
        "note-1".to_string(),
        "Test".to_string(),
        "notes/test.md".to_string(),
    );
    NoteDao::create(&mut db, &note).unwrap();

    let folder = Folder::new(
        "folder-1".to_string(),
        "Test Folder".to_string(),
        None,
        "/Test Folder".to_string(),
    );
    FolderDao::create(&mut db, &folder).unwrap();

    NoteFolderDao::add(&mut db, &"note-1".to_string(), &"folder-1".to_string(), true, 0)
        .unwrap();

    let folders = NoteFolderDao::get_folders_for_note(&db, &"note-1".to_string()).unwrap();
    assert_eq!(folders.len(), 1);
    assert_eq!(folders[0].0, "folder-1");
    assert!(folders[0].1);

    let notes = NoteFolderDao::get_notes_in_folder(&db, &"folder-1".to_string()).unwrap();
    assert_eq!(notes.len(), 1);
    assert_eq!(notes[0], "note-1");
}

#[test]
fn test_note_tag_relation() {
    let mut db = DatabaseManager::in_memory().unwrap();

    let note = Note::new(
        "note-1".to_string(),
        "Test".to_string(),
        "notes/test.md".to_string(),
    );
    NoteDao::create(&mut db, &note).unwrap();

    let tag = Tag::new("tag-1".to_string(), "Rust".to_string());
    TagDao::create(&mut db, &tag).unwrap();

    NoteTagDao::add(&mut db, &"note-1".to_string(), &"tag-1".to_string()).unwrap();

    let tags = NoteTagDao::get_tags_for_note(&db, &"note-1".to_string()).unwrap();
    assert_eq!(tags.len(), 1);
    assert_eq!(tags[0], "tag-1");

    let notes = NoteTagDao::get_notes_with_tag(&db, &"tag-1".to_string()).unwrap();
    assert_eq!(notes.len(), 1);
    assert_eq!(notes[0], "note-1");
}

#[test]
fn primary_folder_exclusive_across_adds() {
    let mut db = DatabaseManager::in_memory().unwrap();

    let note = Note::new(
        "note-1".to_string(),
        "Test".to_string(),
        "notes/test.md".to_string(),
    );
    NoteDao::create(&mut db, &note).unwrap();
    for k in 0..3 {
        let id = format!("folder-{}", k);
        let folder = Folder::new(id.clone(), format!("F{}", k), None, format!("/F{}", k));
        FolderDao::create(&mut db, &folder).unwrap();
        NoteFolderDao::add(&mut db, &"note-1".to_string(), &id, true, k as i64).unwrap();
    }
    NoteFolderDao::set_primary(&mut db, &"note-1".to_string(), &"folder-0".to_string()).unwrap();

    let folders = NoteFolderDao::get_folders_for_note(&db, &"note-1".to_string()).unwrap();
    assert_eq!(folders.len(), 3);
    let primaries: Vec<_> = folders.iter().filter(|f| f.1).collect();
    assert_eq!(primaries.len(), 1);
    assert_eq!(primaries[0].0, "folder-0");
}
