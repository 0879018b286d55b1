//! Link records, block references, and the remaining block and folder
//! operations.

use synapse::error::Error;
use synapse::parser::parse_markdown_to_blocks;
use synapse::services::{
    BlockService, FolderService, LinkService, NoteService, ServiceContext,
};

#[test]
fn link_get_and_delete() {
    let mut ctx = ServiceContext::in_memory().unwrap();
    let a = NoteService::create(&mut ctx, "A".to_string(), "".to_string()).unwrap();
    let b = NoteService::create(&mut ctx, "B".to_string(), "".to_string()).unwrap();
    let link = LinkService::create_note_link(&mut ctx, a.id.clone(), b.id.clone(), None)
        .unwrap();

    let read = LinkService::get_by_id(&ctx, &link.id).unwrap().unwrap();
    assert_eq!(read.source_note_id, a.id);
    let incoming = LinkService::get_incoming_links(&ctx, &b.id).unwrap();
    assert_eq!(incoming.len(), 1);

    LinkService::delete(&mut ctx, &link.id).unwrap();
    assert!(LinkService::get_by_id(&ctx, &link.id).unwrap().is_none());
    assert!(LinkService::get_incoming_links(&ctx, &b.id).unwrap().is_empty());
}

#[test]
fn block_reference_links() {
    let mut ctx = ServiceContext::in_memory().unwrap();
    let host = NoteService::create(&mut ctx, "Host".to_string(), "".to_string()).unwrap();
    let b1 = BlockService::create(
        &mut ctx,
        host.id.clone(),
        "paragraph".to_string(),
        "one".to_string(),
        0,
    )
    .unwrap();
    let b2 = BlockService::create(
        &mut ctx,
        host.id.clone(),
        "paragraph".to_string(),
        "two".to_string(),
        1,
    )
    .unwrap();

    let refused = LinkService::create_block_reference(
        &mut ctx,
        b1.id.clone(),
        "block-missing".to_string(),
        host.id.clone(),
    );
    assert!(matches!(refused, Err(Error::NotFound(_))));

    let link = LinkService::create_block_reference(
        &mut ctx,
        b1.id.clone(),
        b2.id.clone(),
        host.id.clone(),
    )
    .unwrap();
    assert_eq!(link.link_type, "block_reference");
    assert_eq!(link.target_block_id, Some(b2.id.clone()));

    let from_b1 = LinkService::get_links_from_block(&ctx, &b1.id).unwrap();
    assert_eq!(from_b1.len(), 1);
    let to_b2 = LinkService::get_links_to_block(&ctx, &b2.id).unwrap();
    assert_eq!(to_b2.len(), 1);
}

#[test]
fn block_position_moves_and_reference_removal() {
    let mut ctx = ServiceContext::in_memory().unwrap();
    let host = NoteService::create(&mut ctx, "Host".to_string(), "".to_string()).unwrap();
    let b1 = BlockService::create(
        &mut ctx,
        host.id.clone(),
        "paragraph".to_string(),
        "one".to_string(),
        0,
    )
    .unwrap();
    let b2 = BlockService::create(
        &mut ctx,
        host.id.clone(),
        "paragraph".to_string(),
        "two".to_string(),
        1,
    )
    .unwrap();

    BlockService::update_position(&mut ctx, &b1.id, 9).unwrap();
    let blocks = BlockService::get_by_note(&ctx, &host.id, false).unwrap();
    assert_eq!(blocks[0].id, b2.id);
    assert_eq!(blocks[1].id, b1.id);

    BlockService::create_reference(&mut ctx, b1.id.clone(), b2.id.clone()).unwrap();
    assert_eq!(BlockService::get_referenced_blocks(&ctx, &b1.id).unwrap().len(), 1);
    BlockService::delete_reference(&mut ctx, b1.id.clone(), b2.id.clone()).unwrap();
    assert!(BlockService::get_referenced_blocks(&ctx, &b1.id).unwrap().is_empty());

    let missing = BlockService::update_position(&mut ctx, &"block-missing".to_string(), 0);
    assert!(matches!(missing, Err(Error::NotFound(_))));
}

#[test]
fn folder_children_ordering() {
    let mut ctx = ServiceContext::in_memory().unwrap();
    let root = FolderService::create(&mut ctx, "Root".to_string(), None).unwrap();
    let mut c1 = FolderService::create(&mut ctx, "C1".to_string(), Some(root.id.clone()))
        .unwrap();
    let c2 = FolderService::create(&mut ctx, "C2".to_string(), Some(root.id.clone())).unwrap();
    c1.position = 10;
    FolderService::update(&mut ctx, &c1).unwrap();
    let children = FolderService::get_children(&ctx, &root.id).unwrap();
    assert_eq!(children.len(), 2);
    assert_eq!(children[0].id, c2.id);
    assert_eq!(children[1].id, c1.id);
    let roots = FolderService::get_roots(&ctx).unwrap();
    assert_eq!(roots.len(), 1);
    assert_eq!(roots[0].id, root.id);
}

#[test]
fn parser_rules_quotes_and_ordered_items() {
    let content = "> quoted line\n\n1. first\n\n---\n\nplain one\nplain two";
    let blocks = parse_markdown_to_blocks(&content.to_string(), &"note-1".to_string()).unwrap();
    assert_eq!(blocks.len(), 4);
    assert_eq!(blocks[0].block_type, "quote");
    assert_eq!(blocks[0].content, "quoted line");
    assert_eq!(blocks[1].block_type, "list_item");
    assert_eq!(blocks[1].content, "first");
    assert_eq!(blocks[2].block_type, "horizontal_rule");
    assert_eq!(blocks[3].block_type, "paragraph");
    assert_eq!(blocks[3].content, "plain one\nplain two");
    for (k, b) in blocks.iter().enumerate() {
        assert_eq!(b.position, k as i64);
        assert_eq!(b.note_id, "note-1");
        assert!(!b.is_deleted);
    }
}
