//! Entity-access tests against a transient store.

use synapse::dao::{BlockDao, BlockReferenceDao, LinkDao, NoteDao, TagDao};
use synapse::db_manager::DatabaseManager;
use synapse::models::{Block, Link, Note, Tag};

#[test]
fn test_note_dao() {
    let mut db = DatabaseManager::in_memory().unwrap();

    let note = Note::new(
        "note-123".to_string(),
        "Test Note".to_string(),
        "notes/test.md".to_string(),
    );
    NoteDao::create(&mut db, &note).unwrap();

    let retrieved = NoteDao::get_by_id(&db, &"note-123".to_string(), false).unwrap();
    assert!(retrieved.is_some());
    let retrieved = retrieved.unwrap();
    assert_eq!(retrieved.id, "note-123");
    assert_eq!(retrieved.title, "Test Note");

    let mut updated = retrieved;
    updated.update_title("Updated Title".to_string());
    NoteDao::update(&mut db, &updated).unwrap();

    let retrieved = NoteDao::get_by_id(&db, &"note-123".to_string(), false)
        .unwrap()
        .unwrap();
    assert_eq!(retrieved.title, "Updated Title");

    NoteDao::soft_delete(&mut db, &"note-123".to_string()).unwrap();
    let retrieved = NoteDao::get_by_id(&db, &"note-123".to_string(), false).unwrap();
    assert!(retrieved.is_none());

    NoteDao::restore(&mut db, &"note-123".to_string()).unwrap();
    let retrieved = NoteDao::get_by_id(&db, &"note-123".to_string(), false).unwrap();
    assert!(retrieved.is_some());
}

#[test]
fn test_tag_dao() {
    let mut db = DatabaseManager::in_memory().unwrap();

    let tag = Tag::new("tag-123".to_string(), "Rust".to_string());
    TagDao::create(&mut db, &tag).unwrap();

    let retrieved = TagDao::get_by_id(&db, &"tag-123".to_string()).unwrap();
    assert!(retrieved.is_some());
    assert_eq!(retrieved.unwrap().name, "Rust");

    let retrieved = TagDao::get_by_name(&db, &"Rust".to_string()).unwrap();
    assert!(retrieved.is_some());
    assert_eq!(retrieved.unwrap().id, "tag-123");
}

#[test]
fn test_link_dao() {
    let mut db = DatabaseManager::in_memory().unwrap();

    let note1 = Note::new(
        "note-1".to_string(),
        "Note 1".to_string(),
        "notes/note1.md".to_string(),
    );
    let note2 = Note::new(
        "note-2".to_string(),
        "Note 2".to_string(),
        "notes/note2.md".to_string(),
    );
    NoteDao::create(&mut db, &note1).unwrap();
    NoteDao::create(&mut db, &note2).unwrap();

    let link = Link::new_note_link(
        "link-1".to_string(),
        "note-1".to_string(),
        "note-2".to_string(),
        Some("Link text".to_string()),
    );
    LinkDao::create(&mut db, &link).unwrap();

    let outgoing = LinkDao::get_outgoing_links(&db, &"note-1".to_string()).unwrap();
    assert_eq!(outgoing.len(), 1);
    assert_eq!(outgoing[0].target_note_id, Some("note-2".to_string()));

    let incoming = LinkDao::get_incoming_links(&db, &"note-2".to_string()).unwrap();
    assert_eq!(incoming.len(), 1);
    assert_eq!(incoming[0].source_note_id, "note-1".to_string());
}

#[test]
fn test_block_reference_dao() {
    let mut db = DatabaseManager::in_memory().unwrap();

    let note = Note::new(
        "note-1".to_string(),
        "Test".to_string(),
        "notes/test.md".to_string(),
    );
    NoteDao::create(&mut db, &note).unwrap();

    let block1 = Block::new(
        "block-1".to_string(),
        "note-1".to_string(),
        "paragraph".to_string(),
        "Content 1".to_string(),
        0,
    );
    let block2 = Block::new(
        "block-2".to_string(),
        "note-1".to_string(),
        "paragraph".to_string(),
        "Content 2".to_string(),
        1,
    );
    BlockDao::create(&mut db, &block1).unwrap();
    BlockDao::create(&mut db, &block2).unwrap();

    BlockReferenceDao::create(
        &mut db,
        &"ref-1".to_string(),
        &"block-1".to_string(),
        &"block-2".to_string(),
    )
    .unwrap();

    let referencing = BlockReferenceDao::get_referencing_blocks(&db, &"block-2".to_string())
        .unwrap();
    assert_eq!(referencing.len(), 1);
    assert_eq!(referencing[0], "block-1");

    let referenced = BlockReferenceDao::get_referenced_blocks(&db, &"block-1".to_string())
        .unwrap();
    assert_eq!(referenced.len(), 1);
    assert_eq!(referenced[0], "block-2");
}
