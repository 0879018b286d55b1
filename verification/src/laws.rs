//! The library's laws: properties that relate several operations, stated
//! over the same spec functions the operations' own contracts use, and
//! proved from those contracts.

use vstd::prelude::*;

use crate::dao::{has_note, lemma_note_at, note_at, note_is_soft_deleted_form, note_visible};
use crate::db_manager::{notes_unique, tags_unique, DatabaseManager};
use crate::models::{Note, Tag};
use crate::services::{content_at, has_content, ServiceContext};
use crate::text::word_count;

verus! {

/// Creating a note and reading it back by id returns the row just
/// inserted: the body byte-for-byte as it was given, and the word count
/// equal to the whitespace-token count of that body. The premises are
/// exactly what `NoteService::create` ensures on success; the conclusions
/// are what the contract of `NoteService::get_by_id` then forces it to
/// return.
pub proof fn lemma_create_then_get(
    pre: ServiceContext,
    post: ServiceContext,
    n: Note,
    content: String,
)
    requires
        post.wf(),
        n.word_count == word_count(content@),
        !n.is_deleted,
        !has_note(pre.db.notes@, n.id@),
        post.db.notes@ == pre.db.notes@.push(n),
        has_content(post.contents@, n.content_path@),
        post.contents@[content_at(post.contents@, n.content_path@)].content == content,
    ensures
        has_note(post.db.notes@, n.id@),
        post.db.notes@[note_at(post.db.notes@, n.id@)] == n,
        note_visible(n, false),
        post.contents@[content_at(post.contents@, n.content_path@)].content@ == content@,
        post.db.notes@[note_at(post.db.notes@, n.id@)].word_count == word_count(content@),
{
    lemma_note_at(post.db.notes@, n.id@, post.db.notes@.len() - 1);
}

/// Soft-deleting a note and then restoring it yields the table exactly as
/// it stood before the deletion — every field of the record included —
/// while in between the record does not answer a read that excludes
/// deleted rows. The two transition premises are exactly what
/// `NoteService::delete` and `NoteService::restore` ensure on success.
pub proof fn lemma_delete_restore_round_trip(
    s0: Seq<Note>,
    s1: Seq<Note>,
    s2: Seq<Note>,
    id: Seq<char>,
)
    requires
        notes_unique(s0),
        has_note(s0, id),
        !s0[note_at(s0, id)].is_deleted,
        s0[note_at(s0, id)].deleted_at is None,
        s1 == s0.update(note_at(s0, id), s1[note_at(s0, id)]),
        note_is_soft_deleted_form(s1[note_at(s0, id)], s0[note_at(s0, id)]),
        s2 == (if has_note(s1, id) {
            s1.update(
                note_at(s1, id),
                (Note { is_deleted: false, deleted_at: None, ..s1[note_at(s1, id)] }),
            )
        } else {
            s1
        }),
    ensures
        s2 == s0,
        has_note(s1, id),
        !note_visible(s1[note_at(s1, id)], false),
{
    let i = note_at(s0, id);
    lemma_note_at(s0, id, i);
    assert(notes_unique(s1)) by {
        assert(forall|k: int| 0 <= k < s1.len() ==> (#[trigger] s1[k]).id@ == s0[k].id@);
    }
    assert(s1[i].id@ == id);
    lemma_note_at(s1, id, i);
    assert(s2 =~= s0) by {
        assert(s2[i] == (Note { is_deleted: false, deleted_at: None, ..s1[i] }));
        assert(s2[i] == s0[i]);
        assert(forall|k: int| 0 <= k < s0.len() && k != i ==> #[trigger] s2[k] == s0[k]);
    }
}

/// Tag names are unique: however the store was reached, no two rows carry
/// the same name, so after one tag with a name is created there is
/// exactly one row with that name, and `TagService::create` refuses a
/// second by its own contract.
pub proof fn lemma_tag_name_unique(m: DatabaseManager, name: Seq<char>)
    requires
        m.wf(),
    ensures
        forall|i: int, j: int|
            0 <= i < j < m.tags@.len() ==> !((#[trigger] m.tags@[i]).name@ == name && (
            #[trigger] m.tags@[j]).name@ == name),
{
    assert(tags_unique(m.tags@));
}

/// Primary-folder exclusivity: however the store was reached — any
/// sequence of adds, removals and primary switches, each of which
/// preserves the store invariant — at most one membership row of any note
/// carries the primary mark.
pub proof fn lemma_primary_folder_exclusive(m: DatabaseManager, note: Seq<char>)
    requires
        m.wf(),
    ensures
        forall|i: int, j: int|
            0 <= i < j < m.note_folders@.len() && (#[trigger] m.note_folders@[i]).note_id@ == note
                && (#[trigger] m.note_folders@[j]).note_id@ == note ==> !(
            m.note_folders@[i].is_primary && m.note_folders@[j].is_primary),
{
}

/// Attachment deduplication: however the store was reached, no two rows
/// carry the same content hash, and `AttachmentDao::create` refuses a
/// duplicate hash by its own contract, so identical payloads map to one
/// row.
pub proof fn lemma_attachment_hash_unique(m: DatabaseManager, hash: Seq<char>)
    requires
        m.wf(),
    ensures
        forall|i: int, j: int|
            0 <= i < j < m.attachments@.len() ==> !((#[trigger] m.attachments@[i]).hash@ == hash
                && (#[trigger] m.attachments@[j]).hash@ == hash),
{
}

} // verus!
