//! The store: verified in-memory tables plus the SQLite mirror.
//!
//! [`DatabaseManager`] owns one mirror connection and one in-memory copy of
//! every table. The in-memory copy is the model that all contracts speak
//! of; the access layer keeps the two in step by sending every mutation to
//! the mirror before applying it to the model. [`DatabaseManager::wf`] is
//! the store invariant that every access-layer operation preserves.

use vstd::prelude::*;

use crate::db::Db;
use crate::error::Error;
use crate::models::{
    Attachment, Block, BlockAttachment, BlockReference, Folder, Link, Note, NoteAttachment,
    NoteFolder, NoteTag, Tag,
};
use crate::schema::init_database;

verus! {

/// No two notes share an id.
pub open spec fn notes_unique(s: Seq<Note>) -> bool {
    forall|i: int, j: int|
        0 <= i < j < s.len() ==> (#[trigger] s[i]).id@ != (#[trigger] s[j]).id@
}

/// No two blocks share an id.
pub open spec fn blocks_unique(s: Seq<Block>) -> bool {
    forall|i: int, j: int|
        0 <= i < j < s.len() ==> (#[trigger] s[i]).id@ != (#[trigger] s[j]).id@
}

/// No two folders share an id.
pub open spec fn folders_unique(s: Seq<Folder>) -> bool {
    forall|i: int, j: int|
        0 <= i < j < s.len() ==> (#[trigger] s[i]).id@ != (#[trigger] s[j]).id@
}

/// No two tags share an id, and no two tags share a name.
pub open spec fn tags_unique(s: Seq<Tag>) -> bool {
    forall|i: int, j: int|
        0 <= i < j < s.len() ==> (#[trigger] s[i]).id@ != (#[trigger] s[j]).id@ && s[i].name@
            != s[j].name@
}

/// No two links share an id.
pub open spec fn links_unique(s: Seq<Link>) -> bool {
    forall|i: int, j: int|
        0 <= i < j < s.len() ==> (#[trigger] s[i]).id@ != (#[trigger] s[j]).id@
}

/// No two attachments share an id, and no two attachments share a content
/// hash: identical payloads map to one row.
pub open spec fn attachments_unique(s: Seq<Attachment>) -> bool {
    forall|i: int, j: int|
        0 <= i < j < s.len() ==> (#[trigger] s[i]).id@ != (#[trigger] s[j]).id@ && s[i].hash@
            != s[j].hash@
}

/// No two note-folder rows name the same (note, folder) pair.
pub open spec fn note_folders_unique(s: Seq<NoteFolder>) -> bool {
    forall|i: int, j: int|
        0 <= i < j < s.len() ==> !((#[trigger] s[i]).note_id@ == (#[trigger] s[j]).note_id@
            && s[i].folder_id@ == s[j].folder_id@)
}

/// Among the folders of any one note, at most one row carries the primary
/// mark.
pub open spec fn primary_exclusive(s: Seq<NoteFolder>) -> bool {
    forall|i: int, j: int|
        0 <= i < j < s.len() && (#[trigger] s[i]).note_id@ == (#[trigger] s[j]).note_id@
            ==> !(s[i].is_primary && s[j].is_primary)
}

/// No two note-tag rows name the same (note, tag) pair.
pub open spec fn note_tags_unique(s: Seq<NoteTag>) -> bool {
    forall|i: int, j: int|
        0 <= i < j < s.len() ==> !((#[trigger] s[i]).note_id@ == (#[trigger] s[j]).note_id@
            && s[i].tag_id@ == s[j].tag_id@)
}

/// No two note-attachment rows name the same (note, attachment) pair.
pub open spec fn note_attachments_unique(s: Seq<NoteAttachment>) -> bool {
    forall|i: int, j: int|
        0 <= i < j < s.len() ==> !((#[trigger] s[i]).note_id@ == (#[trigger] s[j]).note_id@
            && s[i].attachment_id@ == s[j].attachment_id@)
}

/// No two block-attachment rows name the same (block, attachment) pair.
pub open spec fn block_attachments_unique(s: Seq<BlockAttachment>) -> bool {
    forall|i: int, j: int|
        0 <= i < j < s.len() ==> !((#[trigger] s[i]).block_id@ == (#[trigger] s[j]).block_id@
            && s[i].attachment_id@ == s[j].attachment_id@)
}

/// No two block references share an id.
pub open spec fn block_references_unique(s: Seq<BlockReference>) -> bool {
    forall|i: int, j: int|
        0 <= i < j < s.len() ==> (#[trigger] s[i]).id@ != (#[trigger] s[j]).id@
}

/// One open store: the mirror connection and the in-memory model of each
/// table.
pub struct DatabaseManager {
    pub db: Db,
    pub notes: Vec<Note>,
    pub blocks: Vec<Block>,
    pub folders: Vec<Folder>,
    pub tags: Vec<Tag>,
    pub links: Vec<Link>,
    pub attachments: Vec<Attachment>,
    pub note_folders: Vec<NoteFolder>,
    pub note_tags: Vec<NoteTag>,
    pub note_attachments: Vec<NoteAttachment>,
    pub block_attachments: Vec<BlockAttachment>,
    pub block_references: Vec<BlockReference>,
}

impl DatabaseManager {
    /// The store invariant: ids, names, hashes and pairs unique where the
    /// schema demands, and at most one primary folder per note.
    pub open spec fn wf(self) -> bool {
        &&& notes_unique(self.notes@)
        &&& blocks_unique(self.blocks@)
        &&& folders_unique(self.folders@)
        &&& tags_unique(self.tags@)
        &&& links_unique(self.links@)
        &&& attachments_unique(self.attachments@)
        &&& note_folders_unique(self.note_folders@)
        &&& primary_exclusive(self.note_folders@)
        &&& note_tags_unique(self.note_tags@)
        &&& note_attachments_unique(self.note_attachments@)
        &&& block_attachments_unique(self.block_attachments@)
        &&& block_references_unique(self.block_references@)
    }

    /// Every table empty.
    pub open spec fn is_empty(self) -> bool {
        &&& self.notes@.len() == 0
        &&& self.blocks@.len() == 0
        &&& self.folders@.len() == 0
        &&& self.tags@.len() == 0
        &&& self.links@.len() == 0
        &&& self.attachments@.len() == 0
        &&& self.note_folders@.len() == 0
        &&& self.note_tags@.len() == 0
        &&& self.note_attachments@.len() == 0
        &&& self.block_attachments@.len() == 0
        &&& self.block_references@.len() == 0
    }

    /// Opens or creates the database file at `path`, initializes the
    /// schema, and loads the model from what the file already holds.
    pub fn new(db_path: &String) -> (r: Result<DatabaseManager, Error>)
        ensures
            match r {
                Ok(m) => m.wf(),
                Err(e) => e matches Error::Database(_) || e matches Error::Storage(_),
            },
    {
        let mut db = Db::open(db_path)?;
        init_database(&mut db)?;
        let mut m = DatabaseManager::empty(db);
        crate::dao::hydrate(&mut m)?;
        Ok(m)
    }

    /// A transient store backed by an in-memory database; used by tests
    /// and ephemeral sessions.
    pub fn in_memory() -> (r: Result<DatabaseManager, Error>)
        ensures
            match r {
                Ok(m) => m.wf() && m.is_empty(),
                Err(e) => e matches Error::Database(_),
            },
    {
        let mut db = Db::open_in_memory()?;
        init_database(&mut db)?;
        Ok(DatabaseManager::empty(db))
    }

    /// A model with every table empty around an already-open mirror.
    fn empty(db: Db) -> (r: DatabaseManager)
        ensures
            r.wf(),
            r.is_empty(),
    {
        DatabaseManager {
            db,
            notes: Vec::new(),
            blocks: Vec::new(),
            folders: Vec::new(),
            tags: Vec::new(),
            links: Vec::new(),
            attachments: Vec::new(),
            note_folders: Vec::new(),
            note_tags: Vec::new(),
            note_attachments: Vec::new(),
            block_attachments: Vec::new(),
            block_references: Vec::new(),
        }
    }
}

} // verus!
