//! Record types stored by the knowledge base, with their constructors and
//! state transitions.
//!
//! Identifiers are opaque strings of the shape `"<kind>-<uuid>"`, generated
//! at creation and never reused. `Note` and `Block` share the soft-delete
//! state machine: active, soft-deleted via `soft_delete`, active again via
//! `restore`.

use vstd::prelude::*;

use crate::clock::now_timestamp;

verus! {

/// Unique identifier for a note.
pub type NoteId = String;

/// Unique identifier for a block.
pub type BlockId = String;

/// Unique identifier for a folder.
pub type FolderId = String;

/// Unique identifier for a tag.
pub type TagId = String;

/// Unique identifier for a link.
pub type LinkId = String;

/// Unique identifier for an attachment.
pub type AttachmentId = String;

/// A note: row metadata only; the Markdown body lives at `content_path`
/// inside the data directory, not in the row.
#[derive(Debug)]
pub struct Note {
    pub id: String,
    pub title: String,
    pub content_path: String,
    pub created_at: i64,
    pub updated_at: i64,
    pub word_count: i64,
    pub is_deleted: bool,
    pub deleted_at: Option<i64>,
}

/// An ordered, typed fragment of a note's content.
#[derive(Debug)]
pub struct Block {
    pub id: String,
    pub note_id: String,
    pub block_type: String,
    pub content: String,
    pub position: i64,
    pub created_at: i64,
    pub updated_at: i64,
    pub is_deleted: bool,
    pub deleted_at: Option<i64>,
}

/// A folder in the tree; `path` is materialized at creation from the
/// ancestor chain and is not re-derived on later renames or moves.
#[derive(Debug)]
pub struct Folder {
    pub id: String,
    pub name: String,
    pub parent_id: Option<String>,
    pub path: String,
    pub created_at: i64,
    pub updated_at: i64,
    pub position: i64,
}

/// A tag; names are globally unique and case-sensitive.
#[derive(Debug)]
pub struct Tag {
    pub id: String,
    pub name: String,
    pub color: Option<String>,
    pub icon: Option<String>,
    pub created_at: i64,
}

/// A link between notes or blocks. Exactly one target kind is populated,
/// consistent with `link_type`.
#[derive(Debug)]
pub struct Link {
    pub id: String,
    pub source_note_id: String,
    pub target_note_id: Option<String>,
    pub source_block_id: Option<String>,
    pub target_block_id: Option<String>,
    pub link_type: String,
    pub link_text: Option<String>,
    pub created_at: i64,
}

/// An attachment row; `hash` is a digest of the file content, globally
/// unique, so identical payloads map to one row.
#[derive(Debug)]
pub struct Attachment {
    pub id: String,
    pub file_name: String,
    pub file_path: String,
    pub file_type: String,
    pub mime_type: String,
    pub file_size: i64,
    pub width: Option<i32>,
    pub height: Option<i32>,
    pub hash: String,
    pub created_at: i64,
    pub updated_at: i64,
}

/// Membership of a note in a folder. At most one row per note carries
/// `is_primary`.
#[derive(Debug)]
pub struct NoteFolder {
    pub note_id: String,
    pub folder_id: String,
    pub is_primary: bool,
    pub position: i64,
    pub created_at: i64,
}

/// Membership of a tag on a note.
#[derive(Debug)]
pub struct NoteTag {
    pub note_id: String,
    pub tag_id: String,
    pub created_at: i64,
}

/// Membership of an attachment on a note, ordered by `position`.
#[derive(Debug)]
pub struct NoteAttachment {
    pub note_id: String,
    pub attachment_id: String,
    pub position: i64,
    pub created_at: i64,
}

/// Membership of an attachment on a block.
#[derive(Debug)]
pub struct BlockAttachment {
    pub block_id: String,
    pub attachment_id: String,
    pub created_at: i64,
}

/// A directed reference from one block to another.
#[derive(Debug)]
pub struct BlockReference {
    pub id: String,
    pub source_block_id: String,
    pub target_block_id: String,
    pub created_at: i64,
}

/// A note joined with the Markdown body read back from content storage.
#[derive(Debug)]
pub struct NoteWithContent {
    pub note: Note,
    pub content: String,
}

pub fn clone_opt_string(o: &Option<String>) -> (r: Option<String>)
    ensures
        r == *o,
{
    match o {
        Some(s) => Some(s.clone()),
        None => None,
    }
}

impl Clone for Note {
    fn clone(&self) -> (r: Self)
        ensures
            r == *self,
    {
        Note {
            id: self.id.clone(),
            title: self.title.clone(),
            content_path: self.content_path.clone(),
            created_at: self.created_at,
            updated_at: self.updated_at,
            word_count: self.word_count,
            is_deleted: self.is_deleted,
            deleted_at: self.deleted_at,
        }
    }
}

impl Clone for Block {
    fn clone(&self) -> (r: Self)
        ensures
            r == *self,
    {
        Block {
            id: self.id.clone(),
            note_id: self.note_id.clone(),
            block_type: self.block_type.clone(),
            content: self.content.clone(),
            position: self.position,
            created_at: self.created_at,
            updated_at: self.updated_at,
            is_deleted: self.is_deleted,
            deleted_at: self.deleted_at,
        }
    }
}

impl Clone for Folder {
    fn clone(&self) -> (r: Self)
        ensures
            r == *self,
    {
        Folder {
            id: self.id.clone(),
            name: self.name.clone(),
            parent_id: clone_opt_string(&self.parent_id),
            path: self.path.clone(),
            created_at: self.created_at,
            updated_at: self.updated_at,
            position: self.position,
        }
    }
}

impl Clone for Tag {
    fn clone(&self) -> (r: Self)
        ensures
            r == *self,
    {
        Tag {
            id: self.id.clone(),
            name: self.name.clone(),
            color: clone_opt_string(&self.color),
            icon: clone_opt_string(&self.icon),
            created_at: self.created_at,
        }
    }
}

impl Clone for Link {
    fn clone(&self) -> (r: Self)
        ensures
            r == *self,
    {
        Link {
            id: self.id.clone(),
            source_note_id: self.source_note_id.clone(),
            target_note_id: clone_opt_string(&self.target_note_id),
            source_block_id: clone_opt_string(&self.source_block_id),
            target_block_id: clone_opt_string(&self.target_block_id),
            link_type: self.link_type.clone(),
            link_text: clone_opt_string(&self.link_text),
            created_at: self.created_at,
        }
    }
}

impl Clone for Attachment {
    fn clone(&self) -> (r: Self)
        ensures
            r == *self,
    {
        Attachment {
            id: self.id.clone(),
            file_name: self.file_name.clone(),
            file_path: self.file_path.clone(),
            file_type: self.file_type.clone(),
            mime_type: self.mime_type.clone(),
            file_size: self.file_size,
            width: self.width,
            height: self.height,
            hash: self.hash.clone(),
            created_at: self.created_at,
            updated_at: self.updated_at,
        }
    }
}

impl Clone for NoteFolder {
    fn clone(&self) -> (r: Self)
        ensures
            r == *self,
    {
        NoteFolder {
            note_id: self.note_id.clone(),
            folder_id: self.folder_id.clone(),
            is_primary: self.is_primary,
            position: self.position,
            created_at: self.created_at,
        }
    }
}

impl Clone for NoteTag {
    fn clone(&self) -> (r: Self)
        ensures
            r == *self,
    {
        NoteTag {
            note_id: self.note_id.clone(),
            tag_id: self.tag_id.clone(),
            created_at: self.created_at,
        }
    }
}

impl Clone for NoteAttachment {
    fn clone(&self) -> (r: Self)
        ensures
            r == *self,
    {
        NoteAttachment {
            note_id: self.note_id.clone(),
            attachment_id: self.attachment_id.clone(),
            position: self.position,
            created_at: self.created_at,
        }
    }
}

impl Clone for BlockAttachment {
    fn clone(&self) -> (r: Self)
        ensures
            r == *self,
    {
        BlockAttachment {
            block_id: self.block_id.clone(),
            attachment_id: self.attachment_id.clone(),
            created_at: self.created_at,
        }
    }
}

impl Clone for BlockReference {
    fn clone(&self) -> (r: Self)
        ensures
            r == *self,
    {
        BlockReference {
            id: self.id.clone(),
            source_block_id: self.source_block_id.clone(),
            target_block_id: self.target_block_id.clone(),
            created_at: self.created_at,
        }
    }
}

impl Clone for NoteWithContent {
    fn clone(&self) -> (r: Self)
        ensures
            r == *self,
    {
        NoteWithContent { note: self.note.clone(), content: self.content.clone() }
    }
}

impl Note {
    /// A fresh, active note with no recorded words yet.
    pub fn new(id: String, title: String, content_path: String) -> (r: Note)
        ensures
            r.id == id,
            r.title == title,
            r.content_path == content_path,
            r.created_at == r.updated_at,
            r.word_count == 0,
            !r.is_deleted,
            r.deleted_at is None,
    {
        let now = now_timestamp();
        Note {
            id,
            title,
            content_path,
            created_at: now,
            updated_at: now,
            word_count: 0,
            is_deleted: false,
            deleted_at: None,
        }
    }

    /// Replaces the title and refreshes `updated_at`, which never decreases.
    pub fn update_title(&mut self, title: String)
        ensures
            final(self).title == title,
            final(self).updated_at >= old(self).updated_at,
            final(self).id == old(self).id,
            final(self).content_path == old(self).content_path,
            final(self).created_at == old(self).created_at,
            final(self).word_count == old(self).word_count,
            final(self).is_deleted == old(self).is_deleted,
            final(self).deleted_at == old(self).deleted_at,
    {
        self.title = title;
        let now = now_timestamp();
        if now > self.updated_at {
            self.updated_at = now;
        }
    }

    /// Replaces the word count and refreshes `updated_at`, which never
    /// decreases.
    pub fn update_word_count(&mut self, word_count: i64)
        ensures
            final(self).word_count == word_count,
            final(self).updated_at >= old(self).updated_at,
            final(self).id == old(self).id,
            final(self).title == old(self).title,
            final(self).content_path == old(self).content_path,
            final(self).created_at == old(self).created_at,
            final(self).is_deleted == old(self).is_deleted,
            final(self).deleted_at == old(self).deleted_at,
    {
        self.word_count = word_count;
        let now = now_timestamp();
        if now > self.updated_at {
            self.updated_at = now;
        }
    }

    /// Marks the note deleted and records when; everything else is kept.
    pub fn soft_delete(&mut self)
        ensures
            final(self).is_deleted,
            final(self).deleted_at is Some,
            final(self).id == old(self).id,
            final(self).title == old(self).title,
            final(self).content_path == old(self).content_path,
            final(self).created_at == old(self).created_at,
            final(self).updated_at == old(self).updated_at,
            final(self).word_count == old(self).word_count,
    {
        self.is_deleted = true;
        self.deleted_at = Some(now_timestamp());
    }

    /// Clears the deletion mark; everything else is kept, so a restored
    /// note is field-for-field the note as it stood before deletion.
    pub fn restore(&mut self)
        ensures
            !final(self).is_deleted,
            final(self).deleted_at is None,
            final(self).id == old(self).id,
            final(self).title == old(self).title,
            final(self).content_path == old(self).content_path,
            final(self).created_at == old(self).created_at,
            final(self).updated_at == old(self).updated_at,
            final(self).word_count == old(self).word_count,
    {
        self.is_deleted = false;
        self.deleted_at = None;
    }
}

impl Block {
    /// A fresh, active block at the given position of its note.
    pub fn new(
        id: String,
        note_id: String,
        block_type: String,
        content: String,
        position: i64,
    ) -> (r: Block)
        ensures
            r.id == id,
            r.note_id == note_id,
            r.block_type == block_type,
            r.content == content,
            r.position == position,
            r.created_at == r.updated_at,
            !r.is_deleted,
            r.deleted_at is None,
    {
        let now = now_timestamp();
        Block {
            id,
            note_id,
            block_type,
            content,
            position,
            created_at: now,
            updated_at: now,
            is_deleted: false,
            deleted_at: None,
        }
    }

    /// Replaces the content and refreshes `updated_at`, which never
    /// decreases.
    pub fn update_content(&mut self, content: String)
        ensures
            final(self).content == content,
            final(self).updated_at >= old(self).updated_at,
            final(self).id == old(self).id,
            final(self).note_id == old(self).note_id,
            final(self).block_type == old(self).block_type,
            final(self).position == old(self).position,
            final(self).created_at == old(self).created_at,
            final(self).is_deleted == old(self).is_deleted,
            final(self).deleted_at == old(self).deleted_at,
    {
        self.content = content;
        let now = now_timestamp();
        if now > self.updated_at {
            self.updated_at = now;
        }
    }

    /// Marks the block deleted and records when; everything else is kept.
    pub fn soft_delete(&mut self)
        ensures
            final(self).is_deleted,
            final(self).deleted_at is Some,
            final(self).id == old(self).id,
            final(self).note_id == old(self).note_id,
            final(self).block_type == old(self).block_type,
            final(self).content == old(self).content,
            final(self).position == old(self).position,
            final(self).created_at == old(self).created_at,
            final(self).updated_at == old(self).updated_at,
    {
        self.is_deleted = true;
        self.deleted_at = Some(now_timestamp());
    }

    /// Clears the deletion mark; everything else is kept.
    pub fn restore(&mut self)
        ensures
            !final(self).is_deleted,
            final(self).deleted_at is None,
            final(self).id == old(self).id,
            final(self).note_id == old(self).note_id,
            final(self).block_type == old(self).block_type,
            final(self).content == old(self).content,
            final(self).position == old(self).position,
            final(self).created_at == old(self).created_at,
            final(self).updated_at == old(self).updated_at,
    {
        self.is_deleted = false;
        self.deleted_at = None;
    }
}

impl Folder {
    /// A fresh folder at sibling position zero.
    pub fn new(id: String, name: String, parent_id: Option<String>, path: String) -> (r: Folder)
        ensures
            r.id == id,
            r.name == name,
            r.parent_id == parent_id,
            r.path == path,
            r.created_at == r.updated_at,
            r.position == 0,
    {
        let now = now_timestamp();
        Folder { id, name, parent_id, path, created_at: now, updated_at: now, position: 0 }
    }
}

impl Tag {
    /// A fresh tag with no color or icon yet.
    pub fn new(id: String, name: String) -> (r: Tag)
        ensures
            r.id == id,
            r.name == name,
            r.color is None,
            r.icon is None,
    {
        Tag { id, name, color: None, icon: None, created_at: now_timestamp() }
    }
}

impl Link {
    /// True of a link whose populated target matches its type: a note link
    /// or database relation targets a note, a block reference targets a
    /// block.
    pub open spec fn valid(self) -> bool {
        &&& (self.link_type@ == "note_link"@ || self.link_type@ == "block_reference"@
            || self.link_type@ == "database_relation"@)
        &&& (self.link_type@ == "block_reference"@ ==> self.target_block_id is Some)
        &&& (self.link_type@ != "block_reference"@ ==> self.target_note_id is Some)
    }

    /// A note-to-note link.
    pub fn new_note_link(
        id: String,
        source_note_id: String,
        target_note_id: String,
        link_text: Option<String>,
    ) -> (r: Link)
        ensures
            r.id == id,
            r.source_note_id == source_note_id,
            r.target_note_id == Some(target_note_id),
            r.source_block_id is None,
            r.target_block_id is None,
            r.link_type@ == "note_link"@,
            r.link_text == link_text,
            r.valid(),
    {
        let link_type: String = new_strlit_string("note_link");
        proof {
            reveal_strlit("note_link");
            reveal_strlit("block_reference");
            reveal_strlit("database_relation");
            assert("note_link"@.len() == 9);
            assert("block_reference"@.len() == 15);
            assert("note_link"@ != "block_reference"@);
        }
        Link {
            id,
            source_note_id,
            target_note_id: Some(target_note_id),
            source_block_id: None,
            target_block_id: None,
            link_type,
            link_text,
            created_at: now_timestamp(),
        }
    }

    /// A block-to-block reference, recorded under the note that owns the
    /// source block.
    pub fn new_block_reference(
        id: String,
        source_block_id: String,
        target_block_id: String,
        source_note_id: String,
    ) -> (r: Link)
        ensures
            r.id == id,
            r.source_note_id == source_note_id,
            r.target_note_id is None,
            r.source_block_id == Some(source_block_id),
            r.target_block_id == Some(target_block_id),
            r.link_type@ == "block_reference"@,
            r.link_text is None,
            r.valid(),
    {
        let link_type: String = new_strlit_string("block_reference");
        proof {
            reveal_strlit("note_link");
            reveal_strlit("block_reference");
            reveal_strlit("database_relation");
        }
        Link {
            id,
            source_note_id,
            target_note_id: None,
            source_block_id: Some(source_block_id),
            target_block_id: Some(target_block_id),
            link_type,
            link_text: None,
            created_at: now_timestamp(),
        }
    }
}

impl Attachment {
    /// A fresh attachment row; width and height stay unset until an image
    /// is measured.
    pub fn new(
        id: String,
        file_name: String,
        file_path: String,
        file_type: String,
        mime_type: String,
        file_size: i64,
        hash: String,
    ) -> (r: Attachment)
        ensures
            r.id == id,
            r.file_name == file_name,
            r.file_path == file_path,
            r.file_type == file_type,
            r.mime_type == mime_type,
            r.file_size == file_size,
            r.width is None,
            r.height is None,
            r.hash == hash,
            r.created_at == r.updated_at,
    {
        let now = now_timestamp();
        Attachment {
            id,
            file_name,
            file_path,
            file_type,
            mime_type,
            file_size,
            width: None,
            height: None,
            hash,
            created_at: now,
            updated_at: now,
        }
    }
}

/// An owned copy of a string literal.
pub fn new_strlit_string(s: &str) -> (r: String)
    ensures
        r@ == s@,
{
    String::from_str(s)
}

} // verus!
