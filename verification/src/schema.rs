//! Schema creation for the SQLite mirror.
//!
//! Every statement uses IF NOT EXISTS semantics, so initialization is
//! idempotent and safe to run on every open. Foreign keys are switched on
//! for the connection lifetime, and a schema-version marker is written as
//! the final step so future migrations can detect the current version.

use vstd::prelude::*;

use crate::db::{Db, SqlValue};
use crate::error::Error;

verus! {

/// Runs one parameterless DDL statement against the mirror.
fn ddl(db: &mut Db, sql: &str) -> (r: Result<(), Error>)
    ensures
        r is Err ==> (r matches Err(Error::Database(_))),
{
    let no_params: Vec<SqlValue> = Vec::new();
    match db.exec(sql, &no_params) {
        Ok(_) => Ok(()),
        Err(e) => Err(e),
    }
}

/// Brings an empty or partially initialized mirror to the current schema:
/// all entity tables, all junction tables, the two full-text shadow tables,
/// the covering secondary indexes, and last the schema-version marker.
/// Fails with the mirror's error, reported as `Database`, if any
/// statement fails; callers treat that as fatal at startup.
pub fn init_database(db: &mut Db) -> (r: Result<(), Error>)
    ensures
        r is Err ==> (r matches Err(Error::Database(_))),
{
    ddl(db, "PRAGMA foreign_keys = ON")?;
    ddl(
        db,
        "CREATE TABLE IF NOT EXISTS notes (\
         id TEXT PRIMARY KEY, title TEXT NOT NULL, content_path TEXT NOT NULL,\
         created_at INTEGER NOT NULL, updated_at INTEGER NOT NULL,\
         word_count INTEGER DEFAULT 0, is_deleted INTEGER DEFAULT 0, deleted_at INTEGER)",
    )?;
    ddl(
        db,
        "CREATE TABLE IF NOT EXISTS blocks (\
         id TEXT PRIMARY KEY, note_id TEXT NOT NULL, block_type TEXT NOT NULL,\
         content TEXT NOT NULL, position INTEGER NOT NULL,\
         created_at INTEGER NOT NULL, updated_at INTEGER NOT NULL,\
         is_deleted INTEGER DEFAULT 0, deleted_at INTEGER,\
         FOREIGN KEY (note_id) REFERENCES notes(id) ON DELETE CASCADE)",
    )?;
    ddl(
        db,
        "CREATE TABLE IF NOT EXISTS folders (\
         id TEXT PRIMARY KEY, name TEXT NOT NULL, parent_id TEXT, path TEXT NOT NULL,\
         created_at INTEGER NOT NULL, updated_at INTEGER NOT NULL,\
         position INTEGER DEFAULT 0,\
         FOREIGN KEY (parent_id) REFERENCES folders(id))",
    )?;
    ddl(
        db,
        "CREATE TABLE IF NOT EXISTS note_folders (\
         note_id TEXT NOT NULL, folder_id TEXT NOT NULL,\
         is_primary INTEGER DEFAULT 0, position INTEGER DEFAULT 0,\
         created_at INTEGER NOT NULL,\
         PRIMARY KEY (note_id, folder_id),\
         FOREIGN KEY (note_id) REFERENCES notes(id) ON DELETE CASCADE,\
         FOREIGN KEY (folder_id) REFERENCES folders(id) ON DELETE CASCADE)",
    )?;
    ddl(
        db,
        "CREATE TABLE IF NOT EXISTS tags (\
         id TEXT PRIMARY KEY, name TEXT NOT NULL UNIQUE, color TEXT, icon TEXT,\
         created_at INTEGER NOT NULL)",
    )?;
    ddl(
        db,
        "CREATE TABLE IF NOT EXISTS note_tags (\
         note_id TEXT NOT NULL, tag_id TEXT NOT NULL, created_at INTEGER NOT NULL,\
         PRIMARY KEY (note_id, tag_id),\
         FOREIGN KEY (note_id) REFERENCES notes(id) ON DELETE CASCADE,\
         FOREIGN KEY (tag_id) REFERENCES tags(id) ON DELETE CASCADE)",
    )?;
    ddl(
        db,
        "CREATE TABLE IF NOT EXISTS links (\
         id TEXT PRIMARY KEY, source_note_id TEXT NOT NULL, target_note_id TEXT,\
         source_block_id TEXT, target_block_id TEXT, link_type TEXT NOT NULL,\
         link_text TEXT, created_at INTEGER NOT NULL,\
         FOREIGN KEY (source_note_id) REFERENCES notes(id) ON DELETE CASCADE,\
         FOREIGN KEY (target_note_id) REFERENCES notes(id) ON DELETE CASCADE,\
         FOREIGN KEY (source_block_id) REFERENCES blocks(id) ON DELETE CASCADE,\
         FOREIGN KEY (target_block_id) REFERENCES blocks(id) ON DELETE CASCADE,\
         CHECK ((link_type = 'note_link' AND target_note_id IS NOT NULL) OR\
         (link_type = 'block_reference' AND target_block_id IS NOT NULL) OR\
         (link_type = 'database_relation' AND target_note_id IS NOT NULL)))",
    )?;
    ddl(
        db,
        "CREATE TABLE IF NOT EXISTS block_references (\
         id TEXT PRIMARY KEY, source_block_id TEXT NOT NULL, target_block_id TEXT NOT NULL,\
         created_at INTEGER NOT NULL,\
         FOREIGN KEY (source_block_id) REFERENCES blocks(id) ON DELETE CASCADE,\
         FOREIGN KEY (target_block_id) REFERENCES blocks(id) ON DELETE CASCADE)",
    )?;
    ddl(
        db,
        "CREATE TABLE IF NOT EXISTS databases (\
         id TEXT PRIMARY KEY, name TEXT NOT NULL, type TEXT NOT NULL,\
         properties TEXT NOT NULL, views TEXT NOT NULL,\
         created_at INTEGER NOT NULL, updated_at INTEGER NOT NULL)",
    )?;
    ddl(
        db,
        "CREATE TABLE IF NOT EXISTS database_notes (\
         db_id TEXT NOT NULL, note_id TEXT NOT NULL, properties TEXT NOT NULL,\
         position INTEGER DEFAULT 0, created_at INTEGER NOT NULL,\
         PRIMARY KEY (db_id, note_id),\
         FOREIGN KEY (db_id) REFERENCES databases(id) ON DELETE CASCADE,\
         FOREIGN KEY (note_id) REFERENCES notes(id) ON DELETE CASCADE)",
    )?;
    ddl(
        db,
        "CREATE TABLE IF NOT EXISTS attachments (\
         id TEXT PRIMARY KEY, file_name TEXT NOT NULL, file_path TEXT NOT NULL,\
         file_type TEXT NOT NULL, mime_type TEXT NOT NULL, file_size INTEGER NOT NULL,\
         width INTEGER, height INTEGER, hash TEXT NOT NULL UNIQUE,\
         created_at INTEGER NOT NULL, updated_at INTEGER NOT NULL)",
    )?;
    ddl(
        db,
        "CREATE TABLE IF NOT EXISTS note_attachments (\
         note_id TEXT NOT NULL, attachment_id TEXT NOT NULL,\
         position INTEGER DEFAULT 0, created_at INTEGER NOT NULL,\
         PRIMARY KEY (note_id, attachment_id),\
         FOREIGN KEY (note_id) REFERENCES notes(id) ON DELETE CASCADE,\
         FOREIGN KEY (attachment_id) REFERENCES attachments(id) ON DELETE CASCADE)",
    )?;
    ddl(
        db,
        "CREATE TABLE IF NOT EXISTS block_attachments (\
         block_id TEXT NOT NULL, attachment_id TEXT NOT NULL, created_at INTEGER NOT NULL,\
         PRIMARY KEY (block_id, attachment_id),\
         FOREIGN KEY (block_id) REFERENCES blocks(id) ON DELETE CASCADE,\
         FOREIGN KEY (attachment_id) REFERENCES attachments(id) ON DELETE CASCADE)",
    )?;
    ddl(
        db,
        "CREATE VIRTUAL TABLE IF NOT EXISTS notes_fts USING fts5(\
         note_id UNINDEXED, title, content)",
    )?;
    ddl(
        db,
        "CREATE VIRTUAL TABLE IF NOT EXISTS blocks_fts USING fts5(\
         block_id UNINDEXED, content)",
    )?;
    create_indexes(db)?;
    ddl(db, "CREATE TABLE IF NOT EXISTS schema_version (version INTEGER PRIMARY KEY)")?;
    ddl(db, "INSERT OR REPLACE INTO schema_version (version) VALUES (1)")?;
    Ok(())
}

/// The covering set of secondary indexes: by timestamp, parent, position,
/// hash and link endpoint.
fn create_indexes(db: &mut Db) -> (r: Result<(), Error>)
    ensures
        r is Err ==> (r matches Err(Error::Database(_))),
{
    ddl(db, "CREATE INDEX IF NOT EXISTS idx_notes_created_at ON notes(created_at)")?;
    ddl(db, "CREATE INDEX IF NOT EXISTS idx_notes_updated_at ON notes(updated_at)")?;
    ddl(db, "CREATE INDEX IF NOT EXISTS idx_notes_title ON notes(title)")?;
    ddl(db, "CREATE INDEX IF NOT EXISTS idx_notes_deleted_at ON notes(deleted_at)")?;
    ddl(db, "CREATE INDEX IF NOT EXISTS idx_notes_is_deleted ON notes(is_deleted)")?;
    ddl(db, "CREATE INDEX IF NOT EXISTS idx_blocks_note_id ON blocks(note_id)")?;
    ddl(db, "CREATE INDEX IF NOT EXISTS idx_blocks_position ON blocks(note_id, position)")?;
    ddl(db, "CREATE INDEX IF NOT EXISTS idx_blocks_deleted_at ON blocks(deleted_at)")?;
    ddl(db, "CREATE INDEX IF NOT EXISTS idx_blocks_is_deleted ON blocks(is_deleted)")?;
    ddl(db, "CREATE INDEX IF NOT EXISTS idx_folders_parent_id ON folders(parent_id)")?;
    ddl(db, "CREATE INDEX IF NOT EXISTS idx_folders_path ON folders(path)")?;
    ddl(db, "CREATE INDEX IF NOT EXISTS idx_note_folders_note_id ON note_folders(note_id)")?;
    ddl(db, "CREATE INDEX IF NOT EXISTS idx_note_folders_folder_id ON note_folders(folder_id)")?;
    ddl(
        db,
        "CREATE INDEX IF NOT EXISTS idx_note_folders_primary ON note_folders(note_id, is_primary)",
    )?;
    ddl(db, "CREATE INDEX IF NOT EXISTS idx_tags_name ON tags(name)")?;
    ddl(db, "CREATE INDEX IF NOT EXISTS idx_note_tags_note_id ON note_tags(note_id)")?;
    ddl(db, "CREATE INDEX IF NOT EXISTS idx_note_tags_tag_id ON note_tags(tag_id)")?;
    ddl(db, "CREATE INDEX IF NOT EXISTS idx_links_source_note ON links(source_note_id)")?;
    ddl(db, "CREATE INDEX IF NOT EXISTS idx_links_target_note ON links(target_note_id)")?;
    ddl(db, "CREATE INDEX IF NOT EXISTS idx_links_source_block ON links(source_block_id)")?;
    ddl(db, "CREATE INDEX IF NOT EXISTS idx_links_target_block ON links(target_block_id)")?;
    ddl(db, "CREATE INDEX IF NOT EXISTS idx_links_type ON links(link_type)")?;
    ddl(db, "CREATE INDEX IF NOT EXISTS idx_block_refs_source ON block_references(source_block_id)")?;
    ddl(db, "CREATE INDEX IF NOT EXISTS idx_block_refs_target ON block_references(target_block_id)")?;
    ddl(db, "CREATE INDEX IF NOT EXISTS idx_databases_name ON databases(name)")?;
    ddl(db, "CREATE INDEX IF NOT EXISTS idx_db_notes_db_id ON database_notes(db_id)")?;
    ddl(db, "CREATE INDEX IF NOT EXISTS idx_db_notes_note_id ON database_notes(note_id)")?;
    ddl(db, "CREATE INDEX IF NOT EXISTS idx_attachments_type ON attachments(file_type)")?;
    ddl(db, "CREATE INDEX IF NOT EXISTS idx_attachments_hash ON attachments(hash)")?;
    ddl(db, "CREATE INDEX IF NOT EXISTS idx_note_attachments_note_id ON note_attachments(note_id)")?;
    ddl(
        db,
        "CREATE INDEX IF NOT EXISTS idx_note_attachments_attachment_id ON note_attachments(attachment_id)",
    )?;
    ddl(
        db,
        "CREATE INDEX IF NOT EXISTS idx_block_attachments_block_id ON block_attachments(block_id)",
    )?;
    ddl(
        db,
        "CREATE INDEX IF NOT EXISTS idx_block_attachments_attachment_id ON block_attachments(attachment_id)",
    )?;
    Ok(())
}

} // verus!
