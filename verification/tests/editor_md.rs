//! Markdown parsing and rendering tests, and editor buffer behavior.

use synapse::editor::EditorCore;
use synapse::parser::parse_markdown_to_blocks;
use synapse::renderer::render_markdown_to_html;

#[test]
fn test_parse_simple_markdown() {
    let content = "# Heading\n\nThis is a paragraph.";
    let note_id = "note-123";
    let blocks = parse_markdown_to_blocks(&content.to_string(), &note_id.to_string()).unwrap();

    assert_eq!(blocks.len(), 2);
    assert_eq!(blocks[0].block_type, "heading_h1");
    assert_eq!(blocks[0].content, "Heading");
    assert_eq!(blocks[1].block_type, "paragraph");
    assert_eq!(blocks[1].content, "This is a paragraph.");
}

#[test]
fn parser_test_parse_simple_markdown() {
    let content = "# Heading\n\nThis is a paragraph.";
    let note_id = "note-123";
    let blocks = parse_markdown_to_blocks(&content.to_string(), &note_id.to_string()).unwrap();
    assert_eq!(blocks.len(), 2);
    assert_eq!(blocks[0].block_type, "heading_h1");
    assert_eq!(blocks[1].block_type, "paragraph");
}

#[test]
fn test_parse_code_block() {
    let content = "```rust\nfn main() {}\n```";
    let note_id = "note-123";
    let blocks = parse_markdown_to_blocks(&content.to_string(), &note_id.to_string()).unwrap();

    assert_eq!(blocks.len(), 1);
    assert_eq!(blocks[0].block_type, "code_block");
    assert!(blocks[0].content.contains("rust"));
}

#[test]
fn test_parse_list() {
    let content = "- Item 1\n- Item 2";
    let note_id = "note-123";
    let blocks = parse_markdown_to_blocks(&content.to_string(), &note_id.to_string()).unwrap();

    assert!(blocks.len() >= 2);
    assert_eq!(blocks[0].block_type, "list_item");
}

#[test]
fn test_render_heading() {
    let content = "# Heading";
    let html = render_markdown_to_html(content);
    assert!(html.contains("<h1>"));
    assert!(html.contains("Heading"));
}

#[test]
fn renderer_test_render_heading() {
    let content = "# Heading";
    let html = render_markdown_to_html(content);
    assert!(html.contains("<h1>"));
}

#[test]
fn test_render_paragraph() {
    let content = "This is a paragraph.";
    let html = render_markdown_to_html(content);
    assert!(html.contains("<p>"));
    assert!(html.contains("This is a paragraph."));
}

#[test]
fn test_render_code_block() {
    let content = "```rust\nfn main() {}\n```";
    let html = render_markdown_to_html(content);
    assert!(html.contains("<code"));
}

#[test]
fn test_render_list() {
    let content = "- Item 1\n- Item 2";
    let html = render_markdown_to_html(content);
    assert!(html.contains("<ul>"));
    assert!(html.contains("Item 1"));
}

#[test]
fn editor_insert_and_undo_redo() {
    let mut ed = EditorCore::new("hello".to_string());
    assert_eq!(ed.cursor_position(), 5);
    assert_eq!(ed.line_count(), 1);
    assert!(!ed.can_undo());
    assert!(!ed.can_redo());
    ed.insert_at_cursor(" world").unwrap();
    assert_eq!(ed.buffer_content(), "hello world");
    assert_eq!(ed.cursor_position(), 11);
    assert!(ed.can_undo());
    assert!(!ed.can_redo());
    assert!(ed.undo().unwrap());
    assert_eq!(ed.buffer_content(), "hello");
    assert!(ed.can_redo());
    assert!(ed.redo().unwrap());
    assert_eq!(ed.buffer_content(), "hello world");
    assert!(!ed.undo().unwrap() || ed.buffer_content() == "hello");
}

#[test]
fn editor_delete_and_lines() {
    let mut ed = EditorCore::new("one\ntwo\nthree".to_string());
    assert_eq!(ed.line_count(), 3);
    assert_eq!(ed.line_content(0).unwrap(), "one");
    assert_eq!(ed.line_content(1).unwrap(), "two");
    assert_eq!(ed.line_content(2).unwrap(), "three");
    assert!(ed.line_content(3).is_none());
    let rng = ed.line_range(1).unwrap();
    assert_eq!(rng.start, 4);
    assert_eq!(rng.end, 7);

    ed.set_cursor(3).unwrap();
    assert_eq!(ed.cursor_line_index(), 0);
    let removed = ed.delete_backward(2).unwrap();
    assert_eq!(removed, 2);
    assert_eq!(ed.buffer_content(), "o\ntwo\nthree");
    let removed = ed.delete_forward(4).unwrap();
    assert_eq!(removed, 4);
    assert_eq!(ed.buffer_content(), "o\nthree");
}

#[test]
fn editor_selection_and_bytes() {
    let mut ed = EditorCore::new("abc".to_string());
    ed.set_selection(1, 99).unwrap();
    assert_eq!(ed.selection(), Some((1, 3)));
    assert_eq!(ed.char_offset_to_byte(2), 2);
    let ed2 = EditorCore::new("\u{e9}x".to_string());
    assert_eq!(ed2.char_offset_to_byte(1), 2);
    assert_eq!(ed2.char_offset_to_byte(2), 3);
}
