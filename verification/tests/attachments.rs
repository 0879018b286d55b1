//! Attachment rows and their note and block memberships.

use synapse::dao::{AttachmentDao, BlockDao, NoteDao};
use synapse::db_manager::DatabaseManager;
use synapse::error::Error;
use synapse::models::{Attachment, Block, Note};
use synapse::relation_dao::{BlockAttachmentDao, NoteAttachmentDao};

fn sample_attachment(id: &str, hash: &str) -> Attachment {
    Attachment::new(
        format!("attachment-{}", id),
        format!("{}.png", id),
        format!("attachments/{}.png", id),
        "image".to_string(),
        "image/png".to_string(),
        42,
        hash.to_string(),
    )
}

#[test]
fn attachment_update_keeps_hash() {
    let mut db = DatabaseManager::in_memory().unwrap();
    let a = sample_attachment("1", "h1");
    AttachmentDao::create(&mut db, &a).unwrap();

    let mut changed = a.clone();
    changed.file_name = "renamed.png".to_string();
    changed.hash = "ignored".to_string();
    AttachmentDao::update(&mut db, &changed).unwrap();

    let read = AttachmentDao::get_by_id(&db, &a.id).unwrap().unwrap();
    assert_eq!(read.file_name, "renamed.png");
    assert_eq!(read.hash, "h1");
}

#[test]
fn attachment_delete_cascades_memberships() {
    let mut db = DatabaseManager::in_memory().unwrap();
    let note = Note::new(
        "note-1".to_string(),
        "N".to_string(),
        "notes/n.md".to_string(),
    );
    NoteDao::create(&mut db, &note).unwrap();
    let block = Block::new(
        "block-1".to_string(),
        "note-1".to_string(),
        "paragraph".to_string(),
        "text".to_string(),
        0,
    );
    BlockDao::create(&mut db, &block).unwrap();
    let a = sample_attachment("1", "h1");
    AttachmentDao::create(&mut db, &a).unwrap();

    NoteAttachmentDao::add(&mut db, &"note-1".to_string(), &a.id, 0).unwrap();
    let dup = NoteAttachmentDao::add(&mut db, &"note-1".to_string(), &a.id, 1);
    assert!(matches!(dup, Err(Error::Conflict(_))));
    BlockAttachmentDao::add(&mut db, &"block-1".to_string(), &a.id).unwrap();

    let on_note = NoteAttachmentDao::get_attachments_for_note(&db, &"note-1".to_string())
        .unwrap();
    assert_eq!(on_note, vec![a.id.clone()]);
    let on_block = BlockAttachmentDao::get_attachments_for_block(&db, &"block-1".to_string())
        .unwrap();
    assert_eq!(on_block, vec![a.id.clone()]);
    assert_eq!(
        NoteAttachmentDao::get_notes_with_attachment(&db, &a.id).unwrap(),
        vec!["note-1".to_string()]
    );
    assert_eq!(
        BlockAttachmentDao::get_blocks_with_attachment(&db, &a.id).unwrap(),
        vec!["block-1".to_string()]
    );

    AttachmentDao::delete(&mut db, &a.id).unwrap();
    assert!(AttachmentDao::get_by_id(&db, &a.id).unwrap().is_none());
    assert!(NoteAttachmentDao::get_attachments_for_note(&db, &"note-1".to_string())
        .unwrap()
        .is_empty());
    assert!(BlockAttachmentDao::get_attachments_for_block(&db, &"block-1".to_string())
        .unwrap()
        .is_empty());
}

#[test]
fn note_attachment_positions_order_listing() {
    let mut db = DatabaseManager::in_memory().unwrap();
    let note = Note::new(
        "note-1".to_string(),
        "N".to_string(),
        "notes/n.md".to_string(),
    );
    NoteDao::create(&mut db, &note).unwrap();
    let a = sample_attachment("a", "ha");
    let b = sample_attachment("b", "hb");
    AttachmentDao::create(&mut db, &a).unwrap();
    AttachmentDao::create(&mut db, &b).unwrap();
    NoteAttachmentDao::add(&mut db, &"note-1".to_string(), &a.id, 5).unwrap();
    NoteAttachmentDao::add(&mut db, &"note-1".to_string(), &b.id, 2).unwrap();
    let listed = NoteAttachmentDao::get_attachments_for_note(&db, &"note-1".to_string())
        .unwrap();
    assert_eq!(listed, vec![b.id.clone(), a.id.clone()]);

    NoteAttachmentDao::update_position(&mut db, &"note-1".to_string(), &a.id, 0).unwrap();
    let listed = NoteAttachmentDao::get_attachments_for_note(&db, &"note-1".to_string())
        .unwrap();
    assert_eq!(listed, vec![a.id.clone(), b.id.clone()]);

    NoteAttachmentDao::remove(&mut db, &"note-1".to_string(), &b.id).unwrap();
    let listed = NoteAttachmentDao::get_attachments_for_note(&db, &"note-1".to_string())
        .unwrap();
    assert_eq!(listed, vec![a.id.clone()]);
}
