//! Service-layer scenarios: create/read round trips, soft delete and
//! restore, uniqueness, the folder delete guard, deduplication, search
//! with and without deleted rows, link validation, and the text helpers.

use synapse::error::Error;
use synapse::services::{
    BlockService, FolderService, LinkService, NoteService, SearchService, ServiceContext,
    TagService,
};

#[test]
fn note_create_then_get_round_trip() {
    let mut ctx = ServiceContext::in_memory().unwrap();
    let note = NoteService::create(
        &mut ctx,
        "My First Note".to_string(),
        "hello there world".to_string(),
    )
    .unwrap();
    assert!(note.id.starts_with("note-"));
    assert_eq!(note.title, "My First Note");
    assert_eq!(note.word_count, 3);
    assert!(note.content_path.starts_with("notes/"));
    assert!(note.content_path.ends_with("-my-first-note.md"));

    let read = NoteService::get_by_id(&ctx, &note.id, false).unwrap().unwrap();
    assert_eq!(read.note.id, note.id);
    assert_eq!(read.content, "hello there world");
    assert_eq!(read.note.word_count, 3);
}

#[test]
fn note_missing_body_reads_empty() {
    let mut ctx = ServiceContext::in_memory().unwrap();
    let note = NoteService::create(&mut ctx, "T".to_string(), "body".to_string()).unwrap();
    // A reopened context has not loaded the body yet: simulate by a fresh
    // context sharing nothing, then by loading it back in.
    let read = NoteService::get_by_id(&ctx, &note.id, false).unwrap().unwrap();
    assert_eq!(read.content, "body");
    ctx.load_content(&note.content_path, &"replaced".to_string());
    let read = NoteService::get_by_id(&ctx, &note.id, false).unwrap().unwrap();
    assert_eq!(read.content, "replaced");
}

#[test]
fn note_update_title_and_content() {
    let mut ctx = ServiceContext::in_memory().unwrap();
    let note = NoteService::create(&mut ctx, "Old".to_string(), "one two".to_string()).unwrap();
    NoteService::update(
        &mut ctx,
        &note.id,
        Some("New".to_string()),
        Some("one two three four".to_string()),
    )
    .unwrap();
    let read = NoteService::get_by_id(&ctx, &note.id, false).unwrap().unwrap();
    assert_eq!(read.note.title, "New");
    assert_eq!(read.note.word_count, 4);
    assert_eq!(read.content, "one two three four");

    let missing = NoteService::update(&mut ctx, &"note-absent".to_string(), None, None);
    match missing {
        Err(Error::NotFound(m)) => assert_eq!(m, "Note not found: note-absent"),
        other => panic!("expected NotFound, got {:?}", other),
    }
}

#[test]
fn note_delete_restore_round_trip() {
    let mut ctx = ServiceContext::in_memory().unwrap();
    let note = NoteService::create(&mut ctx, "Keep".to_string(), "safe".to_string()).unwrap();

    NoteService::delete(&mut ctx, &note.id).unwrap();
    assert!(NoteService::get_by_id(&ctx, &note.id, false).unwrap().is_none());
    let hidden = NoteService::get_by_id(&ctx, &note.id, true).unwrap().unwrap();
    assert!(hidden.note.is_deleted);
    assert!(hidden.note.deleted_at.is_some());

    NoteService::restore(&mut ctx, &note.id).unwrap();
    let back = NoteService::get_by_id(&ctx, &note.id, false).unwrap().unwrap();
    assert_eq!(back.note.id, note.id);
    assert_eq!(back.note.title, note.title);
    assert_eq!(back.note.created_at, note.created_at);
    assert_eq!(back.note.updated_at, note.updated_at);
    assert_eq!(back.note.word_count, note.word_count);
    assert!(!back.note.is_deleted);
    assert!(back.note.deleted_at.is_none());
}

#[test]
fn tag_name_uniqueness() {
    let mut ctx = ServiceContext::in_memory().unwrap();
    let first = TagService::create(&mut ctx, "rust".to_string()).unwrap();
    let second = TagService::create(&mut ctx, "rust".to_string());
    assert!(matches!(second, Err(Error::InvalidInput(_))));
    let all = TagService::list(&ctx).unwrap();
    let named: Vec<_> = all.iter().filter(|t| t.name == "rust").collect();
    assert_eq!(named.len(), 1);
    assert_eq!(named[0].id, first.id);
}

#[test]
fn tag_list_sorted_by_name() {
    let mut ctx = ServiceContext::in_memory().unwrap();
    TagService::create(&mut ctx, "zeta".to_string()).unwrap();
    TagService::create(&mut ctx, "alpha".to_string()).unwrap();
    TagService::create(&mut ctx, "Beta".to_string()).unwrap();
    let all = TagService::list(&ctx).unwrap();
    let names: Vec<&str> = all.iter().map(|t| t.name.as_str()).collect();
    assert_eq!(names, vec!["Beta", "alpha", "zeta"]);
}

#[test]
fn folder_delete_guard() {
    let mut ctx = ServiceContext::in_memory().unwrap();
    let parent = FolderService::create(&mut ctx, "Parent".to_string(), None).unwrap();
    assert_eq!(parent.path, "/Parent");
    let child = FolderService::create(&mut ctx, "Child".to_string(), Some(parent.id.clone()))
        .unwrap();
    assert_eq!(child.path, "/Parent/Child");

    let refused = FolderService::delete(&mut ctx, &parent.id);
    assert!(matches!(refused, Err(Error::InvalidInput(_))));
    assert!(FolderService::get_by_id(&ctx, &parent.id).unwrap().is_some());

    FolderService::delete(&mut ctx, &child.id).unwrap();
    assert!(FolderService::get_by_id(&ctx, &child.id).unwrap().is_none());
    FolderService::delete(&mut ctx, &parent.id).unwrap();
    assert!(FolderService::get_by_id(&ctx, &parent.id).unwrap().is_none());

    let orphan = FolderService::create(&mut ctx, "X".to_string(), Some("folder-gone".to_string()));
    assert!(matches!(orphan, Err(Error::NotFound(_))));
}

#[test]
fn attachment_hash_dedup() {
    let mut ctx = ServiceContext::in_memory().unwrap();
    let a = synapse::models::Attachment::new(
        "attachment-1".to_string(),
        "a.png".to_string(),
        "attachments/a.png".to_string(),
        "image".to_string(),
        "image/png".to_string(),
        17,
        "deadbeef".to_string(),
    );
    synapse::dao::AttachmentDao::create(&mut ctx.db, &a).unwrap();
    let b = synapse::models::Attachment::new(
        "attachment-2".to_string(),
        "b.png".to_string(),
        "attachments/b.png".to_string(),
        "image".to_string(),
        "image/png".to_string(),
        17,
        "deadbeef".to_string(),
    );
    let refused = synapse::dao::AttachmentDao::create(&mut ctx.db, &b);
    assert!(matches!(refused, Err(Error::Conflict(_))));
    let found = synapse::dao::AttachmentDao::get_by_hash(&ctx.db, &"deadbeef".to_string())
        .unwrap()
        .unwrap();
    assert_eq!(found.id, "attachment-1");
}

#[test]
fn search_respects_soft_delete() {
    let mut ctx = ServiceContext::in_memory().unwrap();
    let note = NoteService::create(
        &mut ctx,
        "Quarterly Report".to_string(),
        "numbers and figures".to_string(),
    )
    .unwrap();

    let hits = SearchService::search_notes(&mut ctx, &"Quarterly".to_string(), false).unwrap();
    assert_eq!(hits.len(), 1);
    assert_eq!(hits[0].id, note.id);

    NoteService::delete(&mut ctx, &note.id).unwrap();
    let hits = SearchService::search_notes(&mut ctx, &"Quarterly".to_string(), false).unwrap();
    assert!(hits.is_empty());
    let hits = SearchService::search_notes(&mut ctx, &"Quarterly".to_string(), true).unwrap();
    assert_eq!(hits.len(), 1);

    // The title substring path, case-insensitive.
    NoteService::restore(&mut ctx, &note.id).unwrap();
    let hits = NoteService::search_by_title(&ctx, &"quarterly".to_string(), false).unwrap();
    assert_eq!(hits.len(), 1);
    let hits = NoteService::search_by_title(&ctx, &"nothing".to_string(), false).unwrap();
    assert!(hits.is_empty());
}

#[test]
fn block_search_finds_content() {
    let mut ctx = ServiceContext::in_memory().unwrap();
    let note = NoteService::create(&mut ctx, "Host".to_string(), "".to_string()).unwrap();
    let block = BlockService::create(
        &mut ctx,
        note.id.clone(),
        "paragraph".to_string(),
        "an uncommon xylophone word".to_string(),
        0,
    )
    .unwrap();
    let hits = SearchService::search_blocks(&mut ctx, &"xylophone".to_string(), false).unwrap();
    assert_eq!(hits.len(), 1);
    assert_eq!(hits[0].id, block.id);
}

#[test]
fn link_validation_rejects_missing_target() {
    let mut ctx = ServiceContext::in_memory().unwrap();
    let a = NoteService::create(&mut ctx, "A".to_string(), "x".to_string()).unwrap();
    let refused = LinkService::create_note_link(
        &mut ctx,
        a.id.clone(),
        "note-missing".to_string(),
        None,
    );
    match refused {
        Err(Error::NotFound(m)) => assert_eq!(m, "Target note not found: note-missing"),
        other => panic!("expected NotFound, got {:?}", other),
    }
    assert!(LinkService::get_outgoing_links(&ctx, &a.id).unwrap().is_empty());

    let refused = LinkService::create_note_link(
        &mut ctx,
        "note-missing".to_string(),
        a.id.clone(),
        None,
    );
    assert!(matches!(refused, Err(Error::NotFound(_))));
}

#[test]
fn link_scenario_intro_next() {
    let mut ctx = ServiceContext::in_memory().unwrap();
    let a = NoteService::create(&mut ctx, "Intro".to_string(), "hello world".to_string())
        .unwrap();
    let b = NoteService::create(&mut ctx, "Next".to_string(), "".to_string()).unwrap();
    let link = LinkService::create_note_link(
        &mut ctx,
        a.id.clone(),
        b.id.clone(),
        Some("see next".to_string()),
    )
    .unwrap();
    assert_eq!(link.link_type, "note_link");

    let outgoing = LinkService::get_outgoing_links(&ctx, &a.id).unwrap();
    assert_eq!(outgoing.len(), 1);
    assert_eq!(outgoing[0].target_note_id, Some(b.id.clone()));
    assert_eq!(outgoing[0].link_text, Some("see next".to_string()));
}

#[test]
fn block_lifecycle_and_references() {
    let mut ctx = ServiceContext::in_memory().unwrap();
    let refused = BlockService::create(
        &mut ctx,
        "note-absent".to_string(),
        "paragraph".to_string(),
        "x".to_string(),
        0,
    );
    assert!(matches!(refused, Err(Error::NotFound(_))));

    let note = NoteService::create(&mut ctx, "Host".to_string(), "".to_string()).unwrap();
    let b1 = BlockService::create(
        &mut ctx,
        note.id.clone(),
        "paragraph".to_string(),
        "first".to_string(),
        1,
    )
    .unwrap();
    let b2 = BlockService::create(
        &mut ctx,
        note.id.clone(),
        "paragraph".to_string(),
        "second".to_string(),
        0,
    )
    .unwrap();

    let blocks = BlockService::get_by_note(&ctx, &note.id, false).unwrap();
    assert_eq!(blocks.len(), 2);
    assert_eq!(blocks[0].id, b2.id);
    assert_eq!(blocks[1].id, b1.id);

    BlockService::update_content(&mut ctx, &b1.id, "rewritten".to_string()).unwrap();
    let read = BlockService::get_by_id(&ctx, &b1.id, false).unwrap().unwrap();
    assert_eq!(read.content, "rewritten");

    BlockService::create_reference(&mut ctx, b1.id.clone(), b2.id.clone()).unwrap();
    let referencing = BlockService::get_referencing_blocks(&ctx, &b2.id).unwrap();
    assert_eq!(referencing.len(), 1);
    assert_eq!(referencing[0].id, b1.id);

    BlockService::delete(&mut ctx, &b1.id).unwrap();
    assert!(BlockService::get_by_id(&ctx, &b1.id, false).unwrap().is_none());
    BlockService::restore(&mut ctx, &b1.id).unwrap();
    assert!(BlockService::get_by_id(&ctx, &b1.id, false).unwrap().is_some());
}

#[test]
fn folder_membership_and_tags() {
    let mut ctx = ServiceContext::in_memory().unwrap();
    let note = NoteService::create(&mut ctx, "Filed".to_string(), "".to_string()).unwrap();
    let folder = FolderService::create(&mut ctx, "Inbox".to_string(), None).unwrap();
    NoteService::add_to_folder(&mut ctx, &note.id, &folder.id, false, 0).unwrap();
    let dup = NoteService::add_to_folder(&mut ctx, &note.id, &folder.id, false, 0);
    assert!(matches!(dup, Err(Error::Conflict(_))));
    let notes = FolderService::get_notes(&ctx, &folder.id, false).unwrap();
    assert_eq!(notes.len(), 1);
    NoteService::remove_from_folder(&mut ctx, &note.id, &folder.id).unwrap();
    assert!(FolderService::get_notes(&ctx, &folder.id, false).unwrap().is_empty());

    let tag = TagService::create(&mut ctx, "urgent".to_string()).unwrap();
    NoteService::add_tag(&mut ctx, &note.id, &tag.id).unwrap();
    let tags = NoteService::get_tags(&ctx, &note.id).unwrap();
    assert_eq!(tags.len(), 1);
    assert_eq!(tags[0].name, "urgent");
    let notes = TagService::get_notes(&ctx, &tag.id).unwrap();
    assert_eq!(notes.len(), 1);
    NoteService::remove_tag(&mut ctx, &note.id, &tag.id).unwrap();
    assert!(NoteService::get_tags(&ctx, &note.id).unwrap().is_empty());
}

#[test]
fn list_orders_by_recency() {
    let mut ctx = ServiceContext::in_memory().unwrap();
    let a = NoteService::create(&mut ctx, "first".to_string(), "".to_string()).unwrap();
    let b = NoteService::create(&mut ctx, "second".to_string(), "".to_string()).unwrap();
    let all = NoteService::list(&ctx, false).unwrap();
    assert_eq!(all.len(), 2);
    assert!(all[0].updated_at >= all[1].updated_at);
    NoteService::delete(&mut ctx, &a.id).unwrap();
    let live = NoteService::list(&ctx, false).unwrap();
    assert_eq!(live.len(), 1);
    assert_eq!(live[0].id, b.id);
    let every = NoteService::list(&ctx, true).unwrap();
    assert_eq!(every.len(), 2);
}

#[test]
fn count_words_exact_values() {
    assert_eq!(NoteService::count_words(&"".to_string()), 0);
    assert_eq!(NoteService::count_words(&"   ".to_string()), 0);
    assert_eq!(NoteService::count_words(&"one".to_string()), 1);
    assert_eq!(NoteService::count_words(&"hello world".to_string()), 2);
    assert_eq!(
        NoteService::count_words(&"  spread\tout\nacross   lines  ".to_string()),
        4
    );
}

#[test]
fn slugify_exact_values() {
    assert_eq!(NoteService::slugify(&"My First Note".to_string()), "my-first-note");
    assert_eq!(NoteService::slugify(&"  --Weird__Title!!  ".to_string()), "weird-title");
    assert_eq!(NoteService::slugify(&"Gr\u{fc}\u{df}e 42".to_string()), "gr\u{fc}\u{df}e-42");
    assert_eq!(NoteService::slugify(&"ALL CAPS 42".to_string()), "all-caps-42");
    assert_eq!(NoteService::slugify(&"---".to_string()), "");
    let long = "a".repeat(80);
    assert_eq!(NoteService::slugify(&long).len(), 50);
}
