//! Entity access: create/read/update/soft-delete/restore/list per entity.
//!
//! Every operation validates against the in-memory model, sends the
//! mutation to the SQLite mirror, and then applies it to the model, so the
//! two stay in step and the store invariant [`DatabaseManager::wf`] is
//! preserved. Reads are answered from the model alone.

use vstd::prelude::*;

use crate::clock::now_timestamp;
use crate::db::SqlValue;
use crate::db_manager::{
    attachments_unique, block_attachments_unique, block_references_unique, blocks_unique,
    folders_unique, links_unique, note_attachments_unique, note_folders_unique, note_tags_unique,
    notes_unique, primary_exclusive, tags_unique, DatabaseManager,
};
use crate::error::Error;
use crate::models::{
    new_strlit_string, Attachment, Block, BlockReference, Folder, Link, Note, Tag,
};
use crate::models::{BlockAttachment, NoteAttachment, NoteFolder, NoteTag};
use crate::relation_dao::{
    find_ba, find_na, find_nf, find_nt, nt_without_tag, remove_nt_of_tag,
};
use crate::sorting::{
    blocks_sorted_by_position, folders_sorted_by_position, notes_sorted_by_updated_desc,
    sort_blocks_by_position, sort_folders_by_position, sort_notes_by_updated_desc,
};
use crate::text::{contains_bytes, lower_bytes, lower_bytes_of, title_contains};
use vstd::utf8::encode_utf8;

verus! {

// ---------------------------------------------------------------------
// Column accessors for rows read back from the mirror.
// ---------------------------------------------------------------------
pub fn sv_text(v: &SqlValue) -> (r: Option<String>)
    ensures
        r == (match *v {
            SqlValue::Text(t) => Some(t),
            _ => None::<String>,
        }),
{
    match v {
        SqlValue::Text(s) => Some(s.clone()),
        _ => None,
    }
}

pub fn sv_int(v: &SqlValue) -> (r: Option<i64>)
    ensures
        r == (match *v {
            SqlValue::Integer(n) => Some(n),
            _ => None::<i64>,
        }),
{
    match v {
        SqlValue::Integer(n) => Some(*n),
        _ => None,
    }
}

pub fn sv_bool(v: &SqlValue) -> (r: Option<bool>)
    ensures
        r == (match *v {
            SqlValue::Integer(n) => Some(n != 0),
            _ => None::<bool>,
        }),
{
    match v {
        SqlValue::Integer(n) => Some(*n != 0),
        _ => None,
    }
}

pub fn sv_opt_int(v: &SqlValue) -> (r: Option<Option<i64>>)
    ensures
        r == (match *v {
            SqlValue::Integer(n) => Some(Some(n)),
            SqlValue::Null => Some(None::<i64>),
            _ => None::<Option<i64>>,
        }),
{
    match v {
        SqlValue::Integer(n) => Some(Some(*n)),
        SqlValue::Null => Some(None),
        _ => None,
    }
}

pub fn sv_opt_text(v: &SqlValue) -> (r: Option<Option<String>>)
    ensures
        r == (match *v {
            SqlValue::Text(t) => Some(Some(t)),
            SqlValue::Null => Some(None::<String>),
            _ => None::<Option<String>>,
        }),
{
    match v {
        SqlValue::Text(s) => Some(Some(s.clone())),
        SqlValue::Null => Some(None),
        _ => None,
    }
}

/// The bound form of an optional integer column.
pub fn opt_int_value(o: &Option<i64>) -> (r: SqlValue)
    ensures
        r == (match *o {
            Some(n) => SqlValue::Integer(n),
            None => SqlValue::Null,
        }),
{
    match o {
        Some(n) => SqlValue::Integer(*n),
        None => SqlValue::Null,
    }
}

/// The bound form of an optional text column.
pub fn opt_text_value(o: &Option<String>) -> (r: SqlValue)
    ensures
        r == (match *o {
            Some(s) => SqlValue::Text(s),
            None => SqlValue::Null,
        }),
{
    match o {
        Some(s) => SqlValue::Text(s.clone()),
        None => SqlValue::Null,
    }
}

/// The bound form of a boolean column.
pub fn bool_value(b: bool) -> (r: SqlValue)
    ensures
        r == SqlValue::Integer(if b { 1int as i64 } else { 0int as i64 }),
{
    if b {
        SqlValue::Integer(1)
    } else {
        SqlValue::Integer(0)
    }
}

// ---------------------------------------------------------------------
// Lookup specifications.
// ---------------------------------------------------------------------
/// Some note carries this id.
pub open spec fn has_note(s: Seq<Note>, id: Seq<char>) -> bool {
    exists|i: int| 0 <= i < s.len() && (#[trigger] s[i]).id@ == id
}

/// The index of the note with this id; meaningful only under `has_note`
/// and uniqueness.
pub open spec fn note_at(s: Seq<Note>, id: Seq<char>) -> int {
    choose|i: int| 0 <= i < s.len() && (#[trigger] s[i]).id@ == id
}

/// Some tag carries this id.
pub open spec fn has_tag(s: Seq<Tag>, id: Seq<char>) -> bool {
    exists|i: int| 0 <= i < s.len() && (#[trigger] s[i]).id@ == id
}

/// The index of the tag with this id.
pub open spec fn tag_at(s: Seq<Tag>, id: Seq<char>) -> int {
    choose|i: int| 0 <= i < s.len() && (#[trigger] s[i]).id@ == id
}

/// Some tag carries this name.
pub open spec fn has_tag_named(s: Seq<Tag>, name: Seq<char>) -> bool {
    exists|i: int| 0 <= i < s.len() && (#[trigger] s[i]).name@ == name
}

/// The index of the tag with this name.
pub open spec fn tag_named_at(s: Seq<Tag>, name: Seq<char>) -> int {
    choose|i: int| 0 <= i < s.len() && (#[trigger] s[i]).name@ == name
}

/// Under uniqueness, the chosen index for an id that row `i` carries is
/// `i` itself.
pub proof fn lemma_note_at(s: Seq<Note>, id: Seq<char>, i: int)
    requires
        notes_unique(s),
        0 <= i < s.len(),
        s[i].id@ == id,
    ensures
        has_note(s, id),
        note_at(s, id) == i,
{
    assert(has_note(s, id));
    let k = note_at(s, id);
    if k < i {
        assert(s[k].id@ != s[i].id@);
    }
    if i < k {
        assert(s[i].id@ != s[k].id@);
    }
}

pub proof fn lemma_tag_at(s: Seq<Tag>, id: Seq<char>, i: int)
    requires
        tags_unique(s),
        0 <= i < s.len(),
        s[i].id@ == id,
    ensures
        has_tag(s, id),
        tag_at(s, id) == i,
{
    assert(has_tag(s, id));
    let k = tag_at(s, id);
    if k < i {
        assert(s[k].id@ != s[i].id@);
    }
    if i < k {
        assert(s[i].id@ != s[k].id@);
    }
}

pub proof fn lemma_tag_named_at(s: Seq<Tag>, name: Seq<char>, i: int)
    requires
        tags_unique(s),
        0 <= i < s.len(),
        s[i].name@ == name,
    ensures
        has_tag_named(s, name),
        tag_named_at(s, name) == i,
{
    assert(has_tag_named(s, name));
    let k = tag_named_at(s, name);
    if k < i {
        assert(s[k].name@ != s[i].name@);
    }
    if i < k {
        assert(s[i].name@ != s[k].name@);
    }
}

// ---------------------------------------------------------------------
// Lookup helpers over the model.
// ---------------------------------------------------------------------
pub(crate) fn find_note(notes: &Vec<Note>, id: &String) -> (r: Option<usize>)
    ensures
        match r {
            Some(i) => i < notes@.len() && notes@[i as int].id@ == id@,
            None => !has_note(notes@, id@),
        },
{
    let mut i: usize = 0;
    while i < notes.len()
        invariant
            i <= notes@.len(),
            forall|j: int| 0 <= j < i ==> (#[trigger] notes@[j]).id@ != id@,
        decreases notes@.len() - i,
    {
        if notes[i].id == *id {
            return Some(i);
        }
        i += 1;
    }
    None
}

pub(crate) fn find_tag(tags: &Vec<Tag>, id: &String) -> (r: Option<usize>)
    ensures
        match r {
            Some(i) => i < tags@.len() && tags@[i as int].id@ == id@,
            None => !has_tag(tags@, id@),
        },
{
    let mut i: usize = 0;
    while i < tags.len()
        invariant
            i <= tags@.len(),
            forall|j: int| 0 <= j < i ==> (#[trigger] tags@[j]).id@ != id@,
        decreases tags@.len() - i,
    {
        if tags[i].id == *id {
            return Some(i);
        }
        i += 1;
    }
    None
}

pub(crate) fn find_tag_by_name(tags: &Vec<Tag>, name: &String) -> (r: Option<usize>)
    ensures
        match r {
            Some(i) => i < tags@.len() && tags@[i as int].name@ == name@,
            None => !has_tag_named(tags@, name@),
        },
{
    let mut i: usize = 0;
    while i < tags.len()
        invariant
            i <= tags@.len(),
            forall|j: int| 0 <= j < i ==> (#[trigger] tags@[j]).name@ != name@,
        decreases tags@.len() - i,
    {
        if tags[i].name == *name {
            return Some(i);
        }
        i += 1;
    }
    None
}

// ---------------------------------------------------------------------
// Unchanged-table frames.
// ---------------------------------------------------------------------
/// Every table but `notes` is as it was.
pub open spec fn same_except_notes(a: DatabaseManager, b: DatabaseManager) -> bool {
    &&& a.blocks == b.blocks
    &&& a.folders == b.folders
    &&& a.tags == b.tags
    &&& a.links == b.links
    &&& a.attachments == b.attachments
    &&& a.note_folders == b.note_folders
    &&& a.note_tags == b.note_tags
    &&& a.note_attachments == b.note_attachments
    &&& a.block_attachments == b.block_attachments
    &&& a.block_references == b.block_references
}

/// Every table but `tags` and `note_tags` is as it was.
pub open spec fn same_except_tags(a: DatabaseManager, b: DatabaseManager) -> bool {
    &&& a.notes == b.notes
    &&& a.blocks == b.blocks
    &&& a.folders == b.folders
    &&& a.links == b.links
    &&& a.attachments == b.attachments
    &&& a.note_folders == b.note_folders
    &&& a.note_attachments == b.note_attachments
    &&& a.block_attachments == b.block_attachments
    &&& a.block_references == b.block_references
}

// ---------------------------------------------------------------------
// Query specifications.
// ---------------------------------------------------------------------
/// True of rows a listing shows: live rows, and deleted ones only when
/// asked for.
pub open spec fn note_visible(n: Note, include_deleted: bool) -> bool {
    include_deleted || !n.is_deleted
}

/// `n2` is `n` marked deleted at some recorded moment; every other field
/// is kept.
pub open spec fn note_is_soft_deleted_form(n2: Note, n: Note) -> bool {
    &&& n2.is_deleted
    &&& n2.deleted_at is Some
    &&& n2.id == n.id
    &&& n2.title == n.title
    &&& n2.content_path == n.content_path
    &&& n2.created_at == n.created_at
    &&& n2.updated_at == n.updated_at
    &&& n2.word_count == n.word_count
}

/// The notes a listing shows, in table order.
pub open spec fn visible_notes(s: Seq<Note>, include_deleted: bool) -> Seq<Note>
    decreases s.len(),
{
    if s.len() == 0 {
        Seq::empty()
    } else {
        let rest = visible_notes(s.drop_last(), include_deleted);
        if note_visible(s.last(), include_deleted) {
            rest.push(s.last())
        } else {
            rest
        }
    }
}


/// The membership position of a note within a folder: the position of
/// the unique row naming that pair.
pub open spec fn membership_position(
    nf: Seq<crate::models::NoteFolder>,
    note: Seq<char>,
    folder: Seq<char>,
) -> int {
    nf[crate::relation_dao::nf_at(nf, note, folder)].position as int
}

/// The visible notes whose lowercased title bytes contain the query
/// bytes, in table order.
pub open spec fn title_matching_notes(s: Seq<Note>, qlow: Seq<u8>, include_deleted: bool) -> Seq<
    Note,
>
    decreases s.len(),
{
    if s.len() == 0 {
        Seq::empty()
    } else {
        let rest = title_matching_notes(s.drop_last(), qlow, include_deleted);
        if note_visible(s.last(), include_deleted) && contains_bytes(
            lower_bytes(encode_utf8(s.last().title@)),
            qlow,
        ) {
            rest.push(s.last())
        } else {
            rest
        }
    }
}

/// Note access.
pub struct NoteDao;

impl NoteDao {
    /// Inserts one note row. Fails with `Conflict`, changing nothing, when
    /// the id is already taken.
    pub fn create(m: &mut DatabaseManager, note: &Note) -> (r: Result<(), Error>)
        requires
            old(m).wf(),
        ensures
            final(m).wf(),
            same_except_notes(*old(m), *final(m)),
            has_note(old(m).notes@, note.id@) ==> (r matches Err(Error::Conflict(_))),
            (!has_note(old(m).notes@, note.id@) && r is Err) ==> (r matches Err(
                Error::Database(_),
            )),
            match r {
                Ok(_) => !has_note(old(m).notes@, note.id@) && final(m).notes@ == old(m).notes@.push(
                    *note,
                ),
                Err(_) => final(m).notes@ == old(m).notes@,
            },
    {
        if find_note(&m.notes, &note.id).is_some() {
            return Err(Error::Conflict(new_strlit_string("a note with this id already exists")));
        }
        let params: Vec<SqlValue> = vec![
            SqlValue::Text(note.id.clone()),
            SqlValue::Text(note.title.clone()),
            SqlValue::Text(note.content_path.clone()),
            SqlValue::Integer(note.created_at),
            SqlValue::Integer(note.updated_at),
            SqlValue::Integer(note.word_count),
            bool_value(note.is_deleted),
            opt_int_value(&note.deleted_at),
        ];
        m.db.exec(
            "INSERT INTO notes (id, title, content_path, created_at, updated_at, word_count, is_deleted, deleted_at) VALUES (?1, ?2, ?3, ?4, ?5, ?6, ?7, ?8)",
            &params,
        )?;
        let fts: Vec<SqlValue> = vec![
            SqlValue::Text(note.id.clone()),
            SqlValue::Text(note.title.clone()),
            SqlValue::Text(String::new()),
        ];
        m.db.exec("INSERT INTO notes_fts (note_id, title, content) VALUES (?1, ?2, ?3)", &fts)?;
        m.notes.push(note.clone());
        Ok(())
    }

    /// The note with this id, or nothing: soft-deleted rows are shown only
    /// when `include_deleted` asks for them.
    pub fn get_by_id(m: &DatabaseManager, id: &String, include_deleted: bool) -> (r: Result<
        Option<Note>,
        Error,
    >)
        requires
            m.wf(),
        ensures
            match r {
                Ok(Some(n)) => has_note(m.notes@, id@) && n == m.notes@[note_at(m.notes@, id@)]
                    && note_visible(n, include_deleted),
                Ok(None) => !has_note(m.notes@, id@) || !note_visible(
                    m.notes@[note_at(m.notes@, id@)],
                    include_deleted,
                ),
                Err(_) => false,
            },
    {
        match find_note(&m.notes, id) {
            Some(i) => {
                proof {
                    lemma_note_at(m.notes@, id@, i as int);
                }
                let n = &m.notes[i];
                if n.is_deleted && !include_deleted {
                    Ok(None)
                } else {
                    Ok(Some(n.clone()))
                }
            },
            None => Ok(None),
        }
    }

    /// Full-row overwrite by id; a missing id changes nothing and is not
    /// an error. The row keeps its id, so the store invariant holds.
    pub fn update(m: &mut DatabaseManager, note: &Note) -> (r: Result<(), Error>)
        requires
            old(m).wf(),
        ensures
            r is Err ==> (r matches Err(Error::Database(_))),
            final(m).wf(),
            same_except_notes(*old(m), *final(m)),
            match r {
                Ok(_) => final(m).notes@ == (if has_note(old(m).notes@, note.id@) {
                    old(m).notes@.update(note_at(old(m).notes@, note.id@), *note)
                } else {
                    old(m).notes@
                }),
                Err(_) => final(m).notes@ == old(m).notes@,
            },
    {
        let params: Vec<SqlValue> = vec![
            SqlValue::Text(note.id.clone()),
            SqlValue::Text(note.title.clone()),
            SqlValue::Text(note.content_path.clone()),
            SqlValue::Integer(note.updated_at),
            SqlValue::Integer(note.word_count),
            bool_value(note.is_deleted),
            opt_int_value(&note.deleted_at),
        ];
        m.db.exec(
            "UPDATE notes SET title = ?2, content_path = ?3, updated_at = ?4, word_count = ?5, is_deleted = ?6, deleted_at = ?7 WHERE id = ?1",
            &params,
        )?;
        let fts: Vec<SqlValue> = vec![
            SqlValue::Text(note.title.clone()),
            SqlValue::Text(note.id.clone()),
        ];
        m.db.exec("UPDATE notes_fts SET title = ?1 WHERE note_id = ?2", &fts)?;
        match find_note(&m.notes, &note.id) {
            Some(i) => {
                proof {
                    lemma_note_at(old(m).notes@, note.id@, i as int);
                }
                let ghost before = m.notes@;
                m.notes.remove(i);
                m.notes.insert(i, note.clone());
                proof {
                    assert(m.notes@ =~= before.update(i as int, *note));
                    assert forall|p: int, q: int| 0 <= p < q < m.notes@.len() implies (
                    #[trigger] m.notes@[p]).id@ != (#[trigger] m.notes@[q]).id@ by {
                        assert(m.notes@[p].id@ == before[p].id@);
                        assert(m.notes@[q].id@ == before[q].id@);
                    }
                }
                Ok(())
            },
            None => Ok(()),
        }
    }

    /// Marks the note deleted, recording the moment; everything else in the
    /// row is kept, and a missing id changes nothing.
    pub fn soft_delete(m: &mut DatabaseManager, id: &String) -> (r: Result<(), Error>)
        requires
            old(m).wf(),
        ensures
            r is Err ==> (r matches Err(Error::Database(_))),
            final(m).wf(),
            same_except_notes(*old(m), *final(m)),
            match r {
                Ok(_) => {
                    if has_note(old(m).notes@, id@) {
                        final(m).notes@ == old(m).notes@.update(
                            note_at(old(m).notes@, id@),
                            final(m).notes@[note_at(old(m).notes@, id@)],
                        ) && note_is_soft_deleted_form(
                            final(m).notes@[note_at(old(m).notes@, id@)],
                            old(m).notes@[note_at(old(m).notes@, id@)],
                        )
                    } else {
                        final(m).notes@ == old(m).notes@
                    }
                },
                Err(_) => final(m).notes@ == old(m).notes@,
            },
    {
        let ts = now_timestamp();
        let params: Vec<SqlValue> = vec![SqlValue::Text(id.clone()), SqlValue::Integer(ts)];
        m.db.exec("UPDATE notes SET is_deleted = 1, deleted_at = ?2 WHERE id = ?1", &params)?;
        match find_note(&m.notes, id) {
            Some(i) => {
                proof {
                    lemma_note_at(old(m).notes@, id@, i as int);
                }
                let ghost before = m.notes@;
                let mut n = m.notes[i].clone();
                n.is_deleted = true;
                n.deleted_at = Some(ts);
                m.notes.remove(i);
                m.notes.insert(i, n);
                proof {
                    assert(m.notes@ =~= before.update(
                        i as int,
                        (Note { is_deleted: true, deleted_at: Some(ts), ..before[i as int] }),
                    ));
                    assert forall|p: int, q: int| 0 <= p < q < m.notes@.len() implies (
                    #[trigger] m.notes@[p]).id@ != (#[trigger] m.notes@[q]).id@ by {
                        assert(m.notes@[p].id@ == before[p].id@);
                        assert(m.notes@[q].id@ == before[q].id@);
                    }
                }
                Ok(())
            },
            None => Ok(()),
        }
    }

    /// Clears the deletion mark; everything else in the row is kept, so
    /// the record is exactly as it stood before the soft delete.
    pub fn restore(m: &mut DatabaseManager, id: &String) -> (r: Result<(), Error>)
        requires
            old(m).wf(),
        ensures
            r is Err ==> (r matches Err(Error::Database(_))),
            final(m).wf(),
            same_except_notes(*old(m), *final(m)),
            match r {
                Ok(_) => final(m).notes@ == (if has_note(old(m).notes@, id@) {
                    old(m).notes@.update(
                        note_at(old(m).notes@, id@),
                        (Note {
                            is_deleted: false,
                            deleted_at: None,
                            ..old(m).notes@[note_at(old(m).notes@, id@)]
                        }),
                    )
                } else {
                    old(m).notes@
                }),
                Err(_) => final(m).notes@ == old(m).notes@,
            },
    {
        let params: Vec<SqlValue> = vec![SqlValue::Text(id.clone())];
        m.db.exec(
            "UPDATE notes SET is_deleted = 0, deleted_at = NULL WHERE id = ?1",
            &params,
        )?;
        match find_note(&m.notes, id) {
            Some(i) => {
                proof {
                    lemma_note_at(old(m).notes@, id@, i as int);
                }
                let ghost before = m.notes@;
                let mut n = m.notes[i].clone();
                n.is_deleted = false;
                n.deleted_at = None;
                m.notes.remove(i);
                m.notes.insert(i, n);
                proof {
                    assert(m.notes@ =~= before.update(
                        i as int,
                        (Note { is_deleted: false, deleted_at: None, ..before[i as int] }),
                    ));
                    assert forall|p: int, q: int| 0 <= p < q < m.notes@.len() implies (
                    #[trigger] m.notes@[p]).id@ != (#[trigger] m.notes@[q]).id@ by {
                        assert(m.notes@[p].id@ == before[p].id@);
                        assert(m.notes@[q].id@ == before[q].id@);
                    }
                }
                Ok(())
            },
            None => Ok(()),
        }
    }

    /// Every visible note, most recently updated first.
    pub fn list(m: &DatabaseManager, include_deleted: bool) -> (r: Result<Vec<Note>, Error>)
        requires
            m.wf(),
        ensures
            match r {
                Ok(v) => v@.to_multiset() =~= visible_notes(m.notes@, include_deleted).to_multiset()
                    && notes_sorted_by_updated_desc(v@),
                Err(_) => false,
            },
    {
        let picked = collect_visible_notes(&m.notes, include_deleted);
        Ok(sort_notes_by_updated_desc(picked))
    }

    /// The visible notes whose title contains the query, compared without
    /// regard to ASCII case, most recently updated first.
    pub fn search_by_title(m: &DatabaseManager, query: &String, include_deleted: bool) -> (r:
        Result<Vec<Note>, Error>)
        requires
            m.wf(),
        ensures
            match r {
                Ok(v) => v@.to_multiset() =~= title_matching_notes(
                    m.notes@,
                    lower_bytes(encode_utf8(query@)),
                    include_deleted,
                ).to_multiset() && notes_sorted_by_updated_desc(v@),
                Err(_) => false,
            },
    {
        let q_lower = lower_bytes_of(query);
        let mut picked: Vec<Note> = Vec::new();
        let mut i: usize = 0;
        while i < m.notes.len()
            invariant
                i <= m.notes@.len(),
                q_lower@ == lower_bytes(encode_utf8(query@)),
                picked@ == title_matching_notes(
                    m.notes@.subrange(0, i as int),
                    q_lower@,
                    include_deleted,
                ),
            decreases m.notes@.len() - i,
        {
            let n = &m.notes[i];
            if (include_deleted || !n.is_deleted) && title_contains(&n.title, &q_lower) {
                picked.push(n.clone());
            }
            proof {
                let pre = m.notes@.subrange(0, i as int);
                let cur = m.notes@.subrange(0, i as int + 1);
                assert(cur.drop_last() =~= pre);
                assert(cur.last() == m.notes@[i as int]);
            }
            i += 1;
        }
        proof {
            assert(m.notes@.subrange(0, m.notes@.len() as int) =~= m.notes@);
        }
        Ok(sort_notes_by_updated_desc(picked))
    }

    /// The visible notes of one folder, each reported once and none
    /// missing: every returned note is a stored note, satisfies the
    /// deletion filter, and belongs to the folder; ids are pairwise
    /// distinct; and every membership row whose note is stored and
    /// visible is represented. The order follows the membership rows
    /// sorted by position.
    pub fn get_by_folder(m: &DatabaseManager, folder_id: &String, include_deleted: bool) -> (r:
        Result<Vec<Note>, Error>)
        requires
            m.wf(),
        ensures
            match r {
                Ok(v) => {
                    &&& forall|k: int|
                        0 <= k < v@.len() ==> m.notes@.contains(#[trigger] v@[k]) && note_visible(
                            v@[k],
                            include_deleted,
                        ) && crate::relation_dao::has_nf(m.note_folders@, v@[k].id@, folder_id@)
                    &&& forall|k: int, l: int|
                        0 <= k < l < v@.len() ==> (#[trigger] v@[k]).id@ != (#[trigger] v@[l]).id@
                    &&& forall|k: int, l: int|
                        0 <= k < l < v@.len() ==> membership_position(
                            m.note_folders@,
                            (#[trigger] v@[k]).id@,
                            folder_id@,
                        ) <= membership_position(
                            m.note_folders@,
                            (#[trigger] v@[l]).id@,
                            folder_id@,
                        )
                    &&& forall|w: int|
                        (0 <= w < m.note_folders@.len() && (
                        #[trigger] m.note_folders@[w]).folder_id@ == folder_id@ && has_note(
                            m.notes@,
                            m.note_folders@[w].note_id@,
                        ) && note_visible(
                            m.notes@[note_at(m.notes@, m.note_folders@[w].note_id@)],
                            include_deleted,
                        )) ==> exists|k: int|
                            0 <= k < v@.len() && (#[trigger] v@[k]).id@
                                == m.note_folders@[w].note_id@
                },
                Err(_) => false,
            },
    {
        let rows = crate::relation_dao::collect_nf_of_folder(&m.note_folders, folder_id);
        let ghost collected = rows@;
        let sorted = crate::sorting::sort_note_folders_by_position(rows);
        proof {
            crate::relation_dao::lemma_nf_of_folder_props(m.note_folders@, folder_id@);
            crate::relation_dao::lemma_nf_perm_folder_props(
                collected,
                sorted@,
                m.note_folders@,
                folder_id@,
            );
        }
        let mut out: Vec<Note> = Vec::new();
        let mut i: usize = 0;
        while i < sorted.len()
            invariant
                m.wf(),
                i <= sorted@.len(),
                crate::sorting::note_folders_sorted_by_position(sorted@),
                forall|k: int|
                    0 <= k < sorted@.len() ==> m.note_folders@.contains(#[trigger] sorted@[k])
                        && sorted@[k].folder_id@ == folder_id@,
                forall|k: int|
                    0 <= k < out@.len() ==> m.notes@.contains(#[trigger] out@[k]) && note_visible(
                        out@[k],
                        include_deleted,
                    ) && crate::relation_dao::has_nf(m.note_folders@, out@[k].id@, folder_id@),
                forall|k: int, l: int|
                    0 <= k < l < out@.len() ==> (#[trigger] out@[k]).id@ != (
                    #[trigger] out@[l]).id@,
                i == 0 ==> out@.len() == 0,
                i > 0 ==> forall|k: int|
                    0 <= k < out@.len() ==> membership_position(
                        m.note_folders@,
                        (#[trigger] out@[k]).id@,
                        folder_id@,
                    ) <= sorted@[i - 1].position,
                forall|k: int, l: int|
                    0 <= k < l < out@.len() ==> membership_position(
                        m.note_folders@,
                        (#[trigger] out@[k]).id@,
                        folder_id@,
                    ) <= membership_position(
                        m.note_folders@,
                        (#[trigger] out@[l]).id@,
                        folder_id@,
                    ),
                forall|t: int|
                    (0 <= t < i && has_note(m.notes@, (#[trigger] sorted@[t]).note_id@)
                        && note_visible(
                        m.notes@[note_at(m.notes@, sorted@[t].note_id@)],
                        include_deleted,
                    )) ==> exists|k: int|
                        0 <= k < out@.len() && (#[trigger] out@[k]).id@ == sorted@[t].note_id@,
            decreases sorted@.len() - i,
        {
            let ghost prev_out = out@;
            let row = &sorted[i];
            match find_note(&m.notes, &row.note_id) {
                Some(j) => {
                    proof {
                        lemma_note_at(m.notes@, sorted@[i as int].note_id@, j as int);
                    }
                    let visible = include_deleted || !m.notes[j].is_deleted;
                    let dup = find_note(&out, &m.notes[j].id);
                    proof {
                        if dup is Some {
                            let k0 = dup.unwrap() as int;
                            assert(out@[k0].id@ == m.notes@[j as int].id@);
                        }
                    }
                    if visible && dup.is_none() {
                        proof {
                            let rw = sorted@[i as int];
                            let w = choose|w: int|
                                0 <= w < m.note_folders@.len() && m.note_folders@[w] == rw;
                            assert(m.note_folders@[w].note_id@ == m.notes@[j as int].id@
                                && m.note_folders@[w].folder_id@ == folder_id@);
                            assert(m.notes@.contains(m.notes@[j as int]));
                            crate::relation_dao::lemma_nf_at(
                                m.note_folders@,
                                rw.note_id@,
                                folder_id@,
                                w,
                            );
                            assert(membership_position(
                                m.note_folders@,
                                rw.note_id@,
                                folder_id@,
                            ) == rw.position);
                        }
                        let n = m.notes[j].clone();
                        out.push(n);
                        proof {
                            assert(out@[out@.len() - 1].id@ == sorted@[i as int].note_id@);
                            assert forall|k: int| 0 <= k < out@.len() implies membership_position(
                                m.note_folders@,
                                (#[trigger] out@[k]).id@,
                                folder_id@,
                            ) <= sorted@[i as int].position by {
                                if k < out@.len() - 1 {
                                    assert(out@[k] == prev_out[k]);
                                    if i > 0 {
                                        assert(sorted@[i as int - 1].position <= sorted@[
                                            i as int].position);
                                    }
                                }
                            }
                        }
                    }
                },
                None => {},
            }
            proof {
                assert forall|t: int|
                    (0 <= t < i + 1 && has_note(m.notes@, (#[trigger] sorted@[t]).note_id@)
                        && note_visible(
                        m.notes@[note_at(m.notes@, sorted@[t].note_id@)],
                        include_deleted,
                    )) implies exists|k: int|
                        0 <= k < out@.len() && (#[trigger] out@[k]).id@
                            == sorted@[t].note_id@ by {
                    if t < i {
                        let k0 = choose|k: int|
                            0 <= k < prev_out.len() && (#[trigger] prev_out[k]).id@
                                == sorted@[t].note_id@;
                        assert(out@[k0].id@ == sorted@[t].note_id@);
                    }
                }
                assert forall|k: int| 0 <= k < out@.len() implies membership_position(
                    m.note_folders@,
                    (#[trigger] out@[k]).id@,
                    folder_id@,
                ) <= sorted@[i as int].position by {
                    if i > 0 {
                        assert(sorted@[i as int - 1].position <= sorted@[i as int].position);
                    }
                }
            }
            i += 1;
        }
        proof {
            broadcast use vstd::seq_lib::group_to_multiset_ensures;

            assert forall|w: int|
                (0 <= w < m.note_folders@.len() && (#[trigger] m.note_folders@[w]).folder_id@
                    == folder_id@ && has_note(m.notes@, m.note_folders@[w].note_id@)
                    && note_visible(
                    m.notes@[note_at(m.notes@, m.note_folders@[w].note_id@)],
                    include_deleted,
                )) implies exists|k: int|
                    0 <= k < out@.len() && (#[trigger] out@[k]).id@
                        == m.note_folders@[w].note_id@ by {
                crate::relation_dao::lemma_nf_of_folder_complete(
                    m.note_folders@,
                    folder_id@,
                    w,
                );
                assert(collected.contains(m.note_folders@[w]));
                assert(collected.to_multiset().contains(m.note_folders@[w]));
                assert(sorted@.to_multiset().contains(m.note_folders@[w]));
                assert(sorted@.contains(m.note_folders@[w]));
                let t = choose|t: int|
                    0 <= t < sorted@.len() && sorted@[t] == m.note_folders@[w];
            }
        }
        Ok(out)
    }

}

/// The visible rows of a note table, in table order.
pub(crate) fn collect_visible_notes(notes: &Vec<Note>, include_deleted: bool) -> (r: Vec<Note>)
    ensures
        r@ == visible_notes(notes@, include_deleted),
{
    let mut out: Vec<Note> = Vec::new();
    let mut i: usize = 0;
    while i < notes.len()
        invariant
            i <= notes@.len(),
            out@ == visible_notes(notes@.subrange(0, i as int), include_deleted),
        decreases notes@.len() - i,
    {
        let n = &notes[i];
        if include_deleted || !n.is_deleted {
            out.push(n.clone());
        }
        proof {
            let pre = notes@.subrange(0, i as int);
            let cur = notes@.subrange(0, i as int + 1);
            assert(cur.drop_last() =~= pre);
            assert(cur.last() == notes@[i as int]);
        }
        i += 1;
    }
    proof {
        assert(notes@.subrange(0, notes@.len() as int) =~= notes@);
    }
    out
}

/// Tag access.
pub struct TagDao;

impl TagDao {
    /// Inserts one tag row. Fails with `Conflict`, changing nothing, when
    /// the id or the name is already taken: tag names are globally unique.
    pub fn create(m: &mut DatabaseManager, tag: &Tag) -> (r: Result<(), Error>)
        requires
            old(m).wf(),
        ensures
            final(m).wf(),
            same_except_tags(*old(m), *final(m)),
            final(m).note_tags == old(m).note_tags,
            (has_tag(old(m).tags@, tag.id@) || has_tag_named(old(m).tags@, tag.name@)) ==> (
            r matches Err(Error::Conflict(_))),
            (!has_tag(old(m).tags@, tag.id@) && !has_tag_named(old(m).tags@, tag.name@) && r
                is Err) ==> (r matches Err(Error::Database(_))),
            match r {
                Ok(_) => !has_tag(old(m).tags@, tag.id@) && !has_tag_named(
                    old(m).tags@,
                    tag.name@,
                ) && final(m).tags@ == old(m).tags@.push(*tag),
                Err(_) => final(m).tags@ == old(m).tags@,
            },
    {
        if find_tag(&m.tags, &tag.id).is_some() {
            return Err(Error::Conflict(new_strlit_string("a tag with this id already exists")));
        }
        if find_tag_by_name(&m.tags, &tag.name).is_some() {
            return Err(Error::Conflict(new_strlit_string("a tag with this name already exists")));
        }
        let params: Vec<SqlValue> = vec![
            SqlValue::Text(tag.id.clone()),
            SqlValue::Text(tag.name.clone()),
            opt_text_value(&tag.color),
            opt_text_value(&tag.icon),
            SqlValue::Integer(tag.created_at),
        ];
        m.db.exec(
            "INSERT INTO tags (id, name, color, icon, created_at) VALUES (?1, ?2, ?3, ?4, ?5)",
            &params,
        )?;
        m.tags.push(tag.clone());
        Ok(())
    }

    /// The tag with this id, or nothing.
    pub fn get_by_id(m: &DatabaseManager, id: &String) -> (r: Result<Option<Tag>, Error>)
        requires
            m.wf(),
        ensures
            match r {
                Ok(Some(t)) => has_tag(m.tags@, id@) && t == m.tags@[tag_at(m.tags@, id@)],
                Ok(None) => !has_tag(m.tags@, id@),
                Err(_) => false,
            },
    {
        match find_tag(&m.tags, id) {
            Some(i) => {
                proof {
                    lemma_tag_at(m.tags@, id@, i as int);
                }
                Ok(Some(m.tags[i].clone()))
            },
            None => Ok(None),
        }
    }

    /// The tag with this exact (case-sensitive) name, or nothing.
    pub fn get_by_name(m: &DatabaseManager, name: &String) -> (r: Result<Option<Tag>, Error>)
        requires
            m.wf(),
        ensures
            match r {
                Ok(Some(t)) => has_tag_named(m.tags@, name@) && t == m.tags@[tag_named_at(
                    m.tags@,
                    name@,
                )],
                Ok(None) => !has_tag_named(m.tags@, name@),
                Err(_) => false,
            },
    {
        match find_tag_by_name(&m.tags, name) {
            Some(i) => {
                proof {
                    lemma_tag_named_at(m.tags@, name@, i as int);
                }
                Ok(Some(m.tags[i].clone()))
            },
            None => Ok(None),
        }
    }

    /// Full-row overwrite by id; a missing id changes nothing. Fails with
    /// `Conflict`, changing nothing, exactly when the new name belongs to
    /// a different tag.
    pub fn update(m: &mut DatabaseManager, tag: &Tag) -> (r: Result<(), Error>)
        requires
            old(m).wf(),
        ensures
            final(m).wf(),
            same_except_tags(*old(m), *final(m)),
            final(m).note_tags == old(m).note_tags,
            (has_tag_named(old(m).tags@, tag.name@) && old(m).tags@[tag_named_at(
                old(m).tags@,
                tag.name@,
            )].id@ != tag.id@) <==> (r matches Err(Error::Conflict(_))),
            ((r is Err && !(r matches Err(Error::Conflict(_)))) ==> (r matches Err(
                Error::Database(_),
            ))),
            match r {
                Ok(_) => final(m).tags@ == (if has_tag(old(m).tags@, tag.id@) {
                    old(m).tags@.update(tag_at(old(m).tags@, tag.id@), *tag)
                } else {
                    old(m).tags@
                }),
                Err(_) => final(m).tags@ == old(m).tags@,
            },
    {
        match find_tag_by_name(&m.tags, &tag.name) {
            Some(j) => {
                if !(m.tags[j].id == tag.id) {
                    return Err(
                        Error::Conflict(new_strlit_string("a tag with this name already exists")),
                    );
                }
            },
            None => {},
        }
        let params: Vec<SqlValue> = vec![
            SqlValue::Text(tag.id.clone()),
            SqlValue::Text(tag.name.clone()),
            opt_text_value(&tag.color),
            opt_text_value(&tag.icon),
        ];
        m.db.exec("UPDATE tags SET name = ?2, color = ?3, icon = ?4 WHERE id = ?1", &params)?;
        match find_tag(&m.tags, &tag.id) {
            Some(i) => {
                proof {
                    lemma_tag_at(old(m).tags@, tag.id@, i as int);
                }
                let ghost before = m.tags@;
                m.tags.remove(i);
                m.tags.insert(i, tag.clone());
                proof {
                    assert(m.tags@ =~= before.update(i as int, *tag));
                    assert forall|p: int, q: int| 0 <= p < q < m.tags@.len() implies (
                    #[trigger] m.tags@[p]).id@ != (#[trigger] m.tags@[q]).id@ && m.tags@[p].name@
                        != m.tags@[q].name@ by {
                        if p != i as int && q != i as int {
                            assert(before[p].id@ != before[q].id@);
                            assert(before[p].name@ != before[q].name@);
                        }
                    }
                }
                Ok(())
            },
            None => Ok(()),
        }
    }

    /// Every tag, in ascending name order.
    pub fn list(m: &DatabaseManager) -> (r: Result<Vec<Tag>, Error>)
        requires
            m.wf(),
        ensures
            match r {
                Ok(v) => v@.to_multiset() =~= m.tags@.to_multiset()
                    && crate::sorting::tags_sorted_by_name(v@),
                Err(_) => false,
            },
    {
        let mut out: Vec<Tag> = Vec::new();
        let mut i: usize = 0;
        while i < m.tags.len()
            invariant
                i <= m.tags@.len(),
                out@ == m.tags@.subrange(0, i as int),
            decreases m.tags@.len() - i,
        {
            out.push(m.tags[i].clone());
            proof {
                assert(m.tags@.subrange(0, i as int + 1) =~= m.tags@.subrange(0, i as int).push(
                    m.tags@[i as int],
                ));
            }
            i += 1;
        }
        proof {
            assert(m.tags@.subrange(0, m.tags@.len() as int) =~= m.tags@);
        }
        Ok(crate::sorting::sort_tags_by_name(out))
    }

    /// Removes the tag row for good, together with its note memberships;
    /// a missing id still clears any stray memberships.
    pub fn delete(m: &mut DatabaseManager, id: &String) -> (r: Result<(), Error>)
        requires
            old(m).wf(),
        ensures
            r is Err ==> (r matches Err(Error::Database(_))),
            final(m).wf(),
            same_except_tags(*old(m), *final(m)),
            match r {
                Ok(_) => final(m).tags@ == (if has_tag(old(m).tags@, id@) {
                    old(m).tags@.remove(tag_at(old(m).tags@, id@))
                } else {
                    old(m).tags@
                }) && final(m).note_tags@ == nt_without_tag(old(m).note_tags@, id@),
                Err(_) => final(m).tags@ == old(m).tags@ && final(m).note_tags@ == old(
                    m,
                ).note_tags@,
            },
    {
        let params: Vec<SqlValue> = vec![SqlValue::Text(id.clone())];
        m.db.exec("DELETE FROM tags WHERE id = ?1", &params)?;
        match find_tag(&m.tags, id) {
            Some(i) => {
                proof {
                    lemma_tag_at(old(m).tags@, id@, i as int);
                }
                let ghost before = m.tags@;
                m.tags.remove(i);
                proof {
                    assert forall|p: int, q: int| 0 <= p < q < m.tags@.len() implies (
                    #[trigger] m.tags@[p]).id@ != (#[trigger] m.tags@[q]).id@ && m.tags@[p].name@
                        != m.tags@[q].name@ by {
                        let p0 = if p < i as int { p } else { p + 1 };
                        let q0 = if q < i as int { q } else { q + 1 };
                        assert(m.tags@[p] == before[p0]);
                        assert(m.tags@[q] == before[q0]);
                    }
                }
            },
            None => {},
        }
        remove_nt_of_tag(&mut m.note_tags, id);
        proof {
            crate::relation_dao::lemma_nt_without_tag(old(m).note_tags@, id@);
        }
        Ok(())
    }

}


// ---------------------------------------------------------------------
// Folder access.
// ---------------------------------------------------------------------
/// Some folder carries this id.
pub open spec fn has_folder(s: Seq<Folder>, id: Seq<char>) -> bool {
    exists|i: int| 0 <= i < s.len() && (#[trigger] s[i]).id@ == id
}

/// The index of the folder with this id.
pub open spec fn folder_at(s: Seq<Folder>, id: Seq<char>) -> int {
    choose|i: int| 0 <= i < s.len() && (#[trigger] s[i]).id@ == id
}

pub proof fn lemma_folder_at(s: Seq<Folder>, id: Seq<char>, i: int)
    requires
        folders_unique(s),
        0 <= i < s.len(),
        s[i].id@ == id,
    ensures
        has_folder(s, id),
        folder_at(s, id) == i,
{
    assert(has_folder(s, id));
    let k = folder_at(s, id);
    if k < i {
        assert(s[k].id@ != s[i].id@);
    }
    if i < k {
        assert(s[i].id@ != s[k].id@);
    }
}

pub(crate) fn find_folder(folders: &Vec<Folder>, id: &String) -> (r: Option<usize>)
    ensures
        match r {
            Some(i) => i < folders@.len() && folders@[i as int].id@ == id@,
            None => !has_folder(folders@, id@),
        },
{
    let mut i: usize = 0;
    while i < folders.len()
        invariant
            i <= folders@.len(),
            forall|j: int| 0 <= j < i ==> (#[trigger] folders@[j]).id@ != id@,
        decreases folders@.len() - i,
    {
        if folders[i].id == *id {
            return Some(i);
        }
        i += 1;
    }
    None
}

/// The root folders (no parent), in table order.
pub open spec fn root_folders(s: Seq<Folder>) -> Seq<Folder>
    decreases s.len(),
{
    if s.len() == 0 {
        Seq::empty()
    } else {
        let rest = root_folders(s.drop_last());
        if s.last().parent_id is None {
            rest.push(s.last())
        } else {
            rest
        }
    }
}

/// The children of one folder, in table order.
pub open spec fn children_of(s: Seq<Folder>, parent: Seq<char>) -> Seq<Folder>
    decreases s.len(),
{
    if s.len() == 0 {
        Seq::empty()
    } else {
        let rest = children_of(s.drop_last(), parent);
        if s.last().parent_id matches Some(p) && p@ == parent {
            rest.push(s.last())
        } else {
            rest
        }
    }
}

/// Every table but `folders` and `note_folders` is as it was.
pub open spec fn same_except_folders(a: DatabaseManager, b: DatabaseManager) -> bool {
    &&& a.notes == b.notes
    &&& a.blocks == b.blocks
    &&& a.tags == b.tags
    &&& a.links == b.links
    &&& a.attachments == b.attachments
    &&& a.note_tags == b.note_tags
    &&& a.note_attachments == b.note_attachments
    &&& a.block_attachments == b.block_attachments
    &&& a.block_references == b.block_references
}

/// Folder access. Folders have no soft delete: `delete` removes the row
/// for good, together with its note memberships.
pub struct FolderDao;

impl FolderDao {
    /// Inserts one folder row. Fails with `Conflict`, changing nothing,
    /// when the id is already taken.
    pub fn create(m: &mut DatabaseManager, folder: &Folder) -> (r: Result<(), Error>)
        requires
            old(m).wf(),
        ensures
            final(m).wf(),
            same_except_folders(*old(m), *final(m)),
            final(m).note_folders == old(m).note_folders,
            has_folder(old(m).folders@, folder.id@) ==> (r matches Err(Error::Conflict(_))),
            (!has_folder(old(m).folders@, folder.id@) && r is Err) ==> (r matches Err(
                Error::Database(_),
            )),
            match r {
                Ok(_) => !has_folder(old(m).folders@, folder.id@) && final(m).folders@ == old(m).folders@.push(*folder),
                Err(_) => final(m).folders@ == old(m).folders@,
            },
    {
        if find_folder(&m.folders, &folder.id).is_some() {
            return Err(Error::Conflict(new_strlit_string("a folder with this id already exists")));
        }
        let params: Vec<SqlValue> = vec![
            SqlValue::Text(folder.id.clone()),
            SqlValue::Text(folder.name.clone()),
            opt_text_value(&folder.parent_id),
            SqlValue::Text(folder.path.clone()),
            SqlValue::Integer(folder.created_at),
            SqlValue::Integer(folder.updated_at),
            SqlValue::Integer(folder.position),
        ];
        m.db.exec(
            "INSERT INTO folders (id, name, parent_id, path, created_at, updated_at, position) VALUES (?1, ?2, ?3, ?4, ?5, ?6, ?7)",
            &params,
        )?;
        m.folders.push(folder.clone());
        Ok(())
    }

    /// The folder with this id, or nothing.
    pub fn get_by_id(m: &DatabaseManager, id: &String) -> (r: Result<Option<Folder>, Error>)
        requires
            m.wf(),
        ensures
            match r {
                Ok(Some(f)) => has_folder(m.folders@, id@) && f == m.folders@[folder_at(
                    m.folders@,
                    id@,
                )],
                Ok(None) => !has_folder(m.folders@, id@),
                Err(_) => false,
            },
    {
        match find_folder(&m.folders, id) {
            Some(i) => {
                proof {
                    lemma_folder_at(m.folders@, id@, i as int);
                }
                Ok(Some(m.folders[i].clone()))
            },
            None => Ok(None),
        }
    }

    /// Every root folder, by ascending position.
    pub fn get_roots(m: &DatabaseManager) -> (r: Result<Vec<Folder>, Error>)
        requires
            m.wf(),
        ensures
            match r {
                Ok(v) => v@.to_multiset() =~= root_folders(m.folders@).to_multiset()
                    && folders_sorted_by_position(v@),
                Err(_) => false,
            },
    {
        let mut picked: Vec<Folder> = Vec::new();
        let mut i: usize = 0;
        while i < m.folders.len()
            invariant
                i <= m.folders@.len(),
                picked@ == root_folders(m.folders@.subrange(0, i as int)),
            decreases m.folders@.len() - i,
        {
            let f = &m.folders[i];
            match f.parent_id {
                None => {
                    picked.push(f.clone());
                },
                Some(_) => {},
            }
            proof {
                let pre = m.folders@.subrange(0, i as int);
                let cur = m.folders@.subrange(0, i as int + 1);
                assert(cur.drop_last() =~= pre);
                assert(cur.last() == m.folders@[i as int]);
            }
            i += 1;
        }
        proof {
            assert(m.folders@.subrange(0, m.folders@.len() as int) =~= m.folders@);
        }
        Ok(sort_folders_by_position(picked))
    }

    /// The children of one folder, by ascending position.
    pub fn get_children(m: &DatabaseManager, parent_id: &String) -> (r: Result<Vec<Folder>, Error>)
        requires
            m.wf(),
        ensures
            match r {
                Ok(v) => v@.to_multiset() =~= children_of(m.folders@, parent_id@).to_multiset()
                    && folders_sorted_by_position(v@),
                Err(_) => false,
            },
    {
        let mut picked: Vec<Folder> = Vec::new();
        let mut i: usize = 0;
        while i < m.folders.len()
            invariant
                i <= m.folders@.len(),
                picked@ == children_of(m.folders@.subrange(0, i as int), parent_id@),
            decreases m.folders@.len() - i,
        {
            let f = &m.folders[i];
            match &f.parent_id {
                Some(p) => {
                    if *p == *parent_id {
                        picked.push(f.clone());
                    }
                },
                None => {},
            }
            proof {
                let pre = m.folders@.subrange(0, i as int);
                let cur = m.folders@.subrange(0, i as int + 1);
                assert(cur.drop_last() =~= pre);
                assert(cur.last() == m.folders@[i as int]);
            }
            i += 1;
        }
        proof {
            assert(m.folders@.subrange(0, m.folders@.len() as int) =~= m.folders@);
        }
        Ok(sort_folders_by_position(picked))
    }

    /// Full-row overwrite by id; a missing id changes nothing.
    pub fn update(m: &mut DatabaseManager, folder: &Folder) -> (r: Result<(), Error>)
        requires
            old(m).wf(),
        ensures
            r is Err ==> (r matches Err(Error::Database(_))),
            final(m).wf(),
            same_except_folders(*old(m), *final(m)),
            final(m).note_folders == old(m).note_folders,
            match r {
                Ok(_) => final(m).folders@ == (if has_folder(old(m).folders@, folder.id@) {
                    old(m).folders@.update(folder_at(old(m).folders@, folder.id@), *folder)
                } else {
                    old(m).folders@
                }),
                Err(_) => final(m).folders@ == old(m).folders@,
            },
    {
        let params: Vec<SqlValue> = vec![
            SqlValue::Text(folder.id.clone()),
            SqlValue::Text(folder.name.clone()),
            opt_text_value(&folder.parent_id),
            SqlValue::Text(folder.path.clone()),
            SqlValue::Integer(folder.updated_at),
            SqlValue::Integer(folder.position),
        ];
        m.db.exec(
            "UPDATE folders SET name = ?2, parent_id = ?3, path = ?4, updated_at = ?5, position = ?6 WHERE id = ?1",
            &params,
        )?;
        match find_folder(&m.folders, &folder.id) {
            Some(i) => {
                proof {
                    lemma_folder_at(old(m).folders@, folder.id@, i as int);
                }
                let ghost before = m.folders@;
                m.folders.remove(i);
                m.folders.insert(i, folder.clone());
                proof {
                    assert(m.folders@ =~= before.update(i as int, *folder));
                    assert forall|p: int, q: int| 0 <= p < q < m.folders@.len() implies (
                    #[trigger] m.folders@[p]).id@ != (#[trigger] m.folders@[q]).id@ by {
                        assert(m.folders@[p].id@ == before[p].id@);
                        assert(m.folders@[q].id@ == before[q].id@);
                    }
                }
                Ok(())
            },
            None => Ok(()),
        }
    }

    /// Removes the folder row for good, together with its note
    /// memberships; a missing id still clears any stray memberships. The
    /// mirror refuses the deletion of a folder that still has child
    /// folders, and then nothing changes.
    pub fn delete(m: &mut DatabaseManager, id: &String) -> (r: Result<(), Error>)
        requires
            old(m).wf(),
        ensures
            r is Err ==> (r matches Err(Error::Database(_))),
            final(m).wf(),
            same_except_folders(*old(m), *final(m)),
            match r {
                Ok(_) => final(m).folders@ == (if has_folder(old(m).folders@, id@) {
                    old(m).folders@.remove(folder_at(old(m).folders@, id@))
                } else {
                    old(m).folders@
                }) && final(m).note_folders@ == crate::relation_dao::nf_without_folder(
                    old(m).note_folders@,
                    id@,
                ),
                Err(_) => final(m).folders@ == old(m).folders@ && final(m).note_folders@ == old(m).note_folders@,
            },
    {
        let params: Vec<SqlValue> = vec![SqlValue::Text(id.clone())];
        m.db.exec("DELETE FROM folders WHERE id = ?1", &params)?;
        match find_folder(&m.folders, id) {
            Some(i) => {
                proof {
                    lemma_folder_at(old(m).folders@, id@, i as int);
                }
                let ghost before = m.folders@;
                m.folders.remove(i);
                proof {
                    assert forall|p: int, q: int| 0 <= p < q < m.folders@.len() implies (
                    #[trigger] m.folders@[p]).id@ != (#[trigger] m.folders@[q]).id@ by {
                        let p0 = if p < i as int { p } else { p + 1 };
                        let q0 = if q < i as int { q } else { q + 1 };
                        assert(m.folders@[p] == before[p0]);
                        assert(m.folders@[q] == before[q0]);
                    }
                }
            },
            None => {},
        }
        crate::relation_dao::remove_nf_of_folder(&mut m.note_folders, id);
        proof {
            crate::relation_dao::lemma_nf_without_folder(old(m).note_folders@, id@);
        }
        Ok(())
    }
}

// ---------------------------------------------------------------------
// Block access.
// ---------------------------------------------------------------------
/// Some block carries this id.
pub open spec fn has_block(s: Seq<Block>, id: Seq<char>) -> bool {
    exists|i: int| 0 <= i < s.len() && (#[trigger] s[i]).id@ == id
}

/// The index of the block with this id.
pub open spec fn block_at(s: Seq<Block>, id: Seq<char>) -> int {
    choose|i: int| 0 <= i < s.len() && (#[trigger] s[i]).id@ == id
}

pub proof fn lemma_block_at(s: Seq<Block>, id: Seq<char>, i: int)
    requires
        blocks_unique(s),
        0 <= i < s.len(),
        s[i].id@ == id,
    ensures
        has_block(s, id),
        block_at(s, id) == i,
{
    assert(has_block(s, id));
    let k = block_at(s, id);
    if k < i {
        assert(s[k].id@ != s[i].id@);
    }
    if i < k {
        assert(s[i].id@ != s[k].id@);
    }
}

pub(crate) fn find_block(blocks: &Vec<Block>, id: &String) -> (r: Option<usize>)
    ensures
        match r {
            Some(i) => i < blocks@.len() && blocks@[i as int].id@ == id@,
            None => !has_block(blocks@, id@),
        },
{
    let mut i: usize = 0;
    while i < blocks.len()
        invariant
            i <= blocks@.len(),
            forall|j: int| 0 <= j < i ==> (#[trigger] blocks@[j]).id@ != id@,
        decreases blocks@.len() - i,
    {
        if blocks[i].id == *id {
            return Some(i);
        }
        i += 1;
    }
    None
}

/// True of rows a listing shows.
pub open spec fn block_visible(b: Block, include_deleted: bool) -> bool {
    include_deleted || !b.is_deleted
}

/// `b2` is `b` marked deleted at some recorded moment; every other field
/// is kept.
pub open spec fn block_is_soft_deleted_form(b2: Block, b: Block) -> bool {
    &&& b2.is_deleted
    &&& b2.deleted_at is Some
    &&& b2.id == b.id
    &&& b2.note_id == b.note_id
    &&& b2.block_type == b.block_type
    &&& b2.content == b.content
    &&& b2.position == b.position
    &&& b2.created_at == b.created_at
    &&& b2.updated_at == b.updated_at
}

/// The visible blocks of one note, in table order.
pub open spec fn note_blocks(s: Seq<Block>, note: Seq<char>, include_deleted: bool) -> Seq<Block>
    decreases s.len(),
{
    if s.len() == 0 {
        Seq::empty()
    } else {
        let rest = note_blocks(s.drop_last(), note, include_deleted);
        if s.last().note_id@ == note && block_visible(s.last(), include_deleted) {
            rest.push(s.last())
        } else {
            rest
        }
    }
}

/// Every table but `blocks` is as it was.
pub open spec fn same_except_blocks(a: DatabaseManager, b: DatabaseManager) -> bool {
    &&& a.notes == b.notes
    &&& a.folders == b.folders
    &&& a.tags == b.tags
    &&& a.links == b.links
    &&& a.attachments == b.attachments
    &&& a.note_folders == b.note_folders
    &&& a.note_tags == b.note_tags
    &&& a.note_attachments == b.note_attachments
    &&& a.block_attachments == b.block_attachments
    &&& a.block_references == b.block_references
}

/// Block access.
pub struct BlockDao;

impl BlockDao {
    /// Inserts one block row. Fails with `Conflict`, changing nothing,
    /// when the id is already taken.
    pub fn create(m: &mut DatabaseManager, block: &Block) -> (r: Result<(), Error>)
        requires
            old(m).wf(),
        ensures
            final(m).wf(),
            same_except_blocks(*old(m), *final(m)),
            has_block(old(m).blocks@, block.id@) ==> (r matches Err(Error::Conflict(_))),
            (!has_block(old(m).blocks@, block.id@) && r is Err) ==> (r matches Err(
                Error::Database(_),
            )),
            match r {
                Ok(_) => !has_block(old(m).blocks@, block.id@) && final(m).blocks@ == old(m).blocks@.push(*block),
                Err(_) => final(m).blocks@ == old(m).blocks@,
            },
    {
        if find_block(&m.blocks, &block.id).is_some() {
            return Err(Error::Conflict(new_strlit_string("a block with this id already exists")));
        }
        let params: Vec<SqlValue> = vec![
            SqlValue::Text(block.id.clone()),
            SqlValue::Text(block.note_id.clone()),
            SqlValue::Text(block.block_type.clone()),
            SqlValue::Text(block.content.clone()),
            SqlValue::Integer(block.position),
            SqlValue::Integer(block.created_at),
            SqlValue::Integer(block.updated_at),
            bool_value(block.is_deleted),
            opt_int_value(&block.deleted_at),
        ];
        m.db.exec(
            "INSERT INTO blocks (id, note_id, block_type, content, position, created_at, updated_at, is_deleted, deleted_at) VALUES (?1, ?2, ?3, ?4, ?5, ?6, ?7, ?8, ?9)",
            &params,
        )?;
        let fts: Vec<SqlValue> = vec![
            SqlValue::Text(block.id.clone()),
            SqlValue::Text(block.content.clone()),
        ];
        m.db.exec("INSERT INTO blocks_fts (block_id, content) VALUES (?1, ?2)", &fts)?;
        m.blocks.push(block.clone());
        Ok(())
    }

    /// The block with this id, or nothing: soft-deleted rows are shown
    /// only when `include_deleted` asks for them.
    pub fn get_by_id(m: &DatabaseManager, id: &String, include_deleted: bool) -> (r: Result<
        Option<Block>,
        Error,
    >)
        requires
            m.wf(),
        ensures
            match r {
                Ok(Some(b)) => has_block(m.blocks@, id@) && b == m.blocks@[block_at(m.blocks@, id@)]
                    && block_visible(b, include_deleted),
                Ok(None) => !has_block(m.blocks@, id@) || !block_visible(
                    m.blocks@[block_at(m.blocks@, id@)],
                    include_deleted,
                ),
                Err(_) => false,
            },
    {
        match find_block(&m.blocks, id) {
            Some(i) => {
                proof {
                    lemma_block_at(m.blocks@, id@, i as int);
                }
                let b = &m.blocks[i];
                if b.is_deleted && !include_deleted {
                    Ok(None)
                } else {
                    Ok(Some(b.clone()))
                }
            },
            None => Ok(None),
        }
    }

    /// The visible blocks of one note, by ascending position.
    pub fn get_by_note(m: &DatabaseManager, note_id: &String, include_deleted: bool) -> (r:
        Result<Vec<Block>, Error>)
        requires
            m.wf(),
        ensures
            match r {
                Ok(v) => v@.to_multiset() =~= note_blocks(
                    m.blocks@,
                    note_id@,
                    include_deleted,
                ).to_multiset() && blocks_sorted_by_position(v@),
                Err(_) => false,
            },
    {
        let mut picked: Vec<Block> = Vec::new();
        let mut i: usize = 0;
        while i < m.blocks.len()
            invariant
                i <= m.blocks@.len(),
                picked@ == note_blocks(
                    m.blocks@.subrange(0, i as int),
                    note_id@,
                    include_deleted,
                ),
            decreases m.blocks@.len() - i,
        {
            let b = &m.blocks[i];
            if b.note_id == *note_id && (include_deleted || !b.is_deleted) {
                picked.push(b.clone());
            }
            proof {
                let pre = m.blocks@.subrange(0, i as int);
                let cur = m.blocks@.subrange(0, i as int + 1);
                assert(cur.drop_last() =~= pre);
                assert(cur.last() == m.blocks@[i as int]);
            }
            i += 1;
        }
        proof {
            assert(m.blocks@.subrange(0, m.blocks@.len() as int) =~= m.blocks@);
        }
        Ok(sort_blocks_by_position(picked))
    }

    /// Full-row overwrite by id; a missing id changes nothing.
    pub fn update(m: &mut DatabaseManager, block: &Block) -> (r: Result<(), Error>)
        requires
            old(m).wf(),
        ensures
            r is Err ==> (r matches Err(Error::Database(_))),
            final(m).wf(),
            same_except_blocks(*old(m), *final(m)),
            match r {
                Ok(_) => final(m).blocks@ == (if has_block(old(m).blocks@, block.id@) {
                    old(m).blocks@.update(block_at(old(m).blocks@, block.id@), *block)
                } else {
                    old(m).blocks@
                }),
                Err(_) => final(m).blocks@ == old(m).blocks@,
            },
    {
        let params: Vec<SqlValue> = vec![
            SqlValue::Text(block.id.clone()),
            SqlValue::Text(block.block_type.clone()),
            SqlValue::Text(block.content.clone()),
            SqlValue::Integer(block.position),
            SqlValue::Integer(block.updated_at),
            bool_value(block.is_deleted),
            opt_int_value(&block.deleted_at),
        ];
        m.db.exec(
            "UPDATE blocks SET block_type = ?2, content = ?3, position = ?4, updated_at = ?5, is_deleted = ?6, deleted_at = ?7 WHERE id = ?1",
            &params,
        )?;
        let fts: Vec<SqlValue> = vec![
            SqlValue::Text(block.content.clone()),
            SqlValue::Text(block.id.clone()),
        ];
        m.db.exec("UPDATE blocks_fts SET content = ?1 WHERE block_id = ?2", &fts)?;
        match find_block(&m.blocks, &block.id) {
            Some(i) => {
                proof {
                    lemma_block_at(old(m).blocks@, block.id@, i as int);
                }
                let ghost before = m.blocks@;
                m.blocks.remove(i);
                m.blocks.insert(i, block.clone());
                proof {
                    assert(m.blocks@ =~= before.update(i as int, *block));
                    assert forall|p: int, q: int| 0 <= p < q < m.blocks@.len() implies (
                    #[trigger] m.blocks@[p]).id@ != (#[trigger] m.blocks@[q]).id@ by {
                        assert(m.blocks@[p].id@ == before[p].id@);
                        assert(m.blocks@[q].id@ == before[q].id@);
                    }
                }
                Ok(())
            },
            None => Ok(()),
        }
    }

    /// Marks the block deleted, recording the moment; everything else in
    /// the row is kept, and a missing id changes nothing.
    pub fn soft_delete(m: &mut DatabaseManager, id: &String) -> (r: Result<(), Error>)
        requires
            old(m).wf(),
        ensures
            r is Err ==> (r matches Err(Error::Database(_))),
            final(m).wf(),
            same_except_blocks(*old(m), *final(m)),
            match r {
                Ok(_) => {
                    if has_block(old(m).blocks@, id@) {
                        final(m).blocks@ == old(m).blocks@.update(
                            block_at(old(m).blocks@, id@),
                            final(m).blocks@[block_at(old(m).blocks@, id@)],
                        ) && block_is_soft_deleted_form(
                            final(m).blocks@[block_at(old(m).blocks@, id@)],
                            old(m).blocks@[block_at(old(m).blocks@, id@)],
                        )
                    } else {
                        final(m).blocks@ == old(m).blocks@
                    }
                },
                Err(_) => final(m).blocks@ == old(m).blocks@,
            },
    {
        let ts = now_timestamp();
        let params: Vec<SqlValue> = vec![SqlValue::Text(id.clone()), SqlValue::Integer(ts)];
        m.db.exec("UPDATE blocks SET is_deleted = 1, deleted_at = ?2 WHERE id = ?1", &params)?;
        match find_block(&m.blocks, id) {
            Some(i) => {
                proof {
                    lemma_block_at(old(m).blocks@, id@, i as int);
                }
                let ghost before = m.blocks@;
                let mut b = m.blocks[i].clone();
                b.is_deleted = true;
                b.deleted_at = Some(ts);
                m.blocks.remove(i);
                m.blocks.insert(i, b);
                proof {
                    assert(m.blocks@ =~= before.update(
                        i as int,
                        (Block { is_deleted: true, deleted_at: Some(ts), ..before[i as int] }),
                    ));
                    assert forall|p: int, q: int| 0 <= p < q < m.blocks@.len() implies (
                    #[trigger] m.blocks@[p]).id@ != (#[trigger] m.blocks@[q]).id@ by {
                        assert(m.blocks@[p].id@ == before[p].id@);
                        assert(m.blocks@[q].id@ == before[q].id@);
                    }
                }
                Ok(())
            },
            None => Ok(()),
        }
    }

    /// Clears the deletion mark; everything else in the row is kept.
    pub fn restore(m: &mut DatabaseManager, id: &String) -> (r: Result<(), Error>)
        requires
            old(m).wf(),
        ensures
            r is Err ==> (r matches Err(Error::Database(_))),
            final(m).wf(),
            same_except_blocks(*old(m), *final(m)),
            match r {
                Ok(_) => final(m).blocks@ == (if has_block(old(m).blocks@, id@) {
                    old(m).blocks@.update(
                        block_at(old(m).blocks@, id@),
                        (Block {
                            is_deleted: false,
                            deleted_at: None,
                            ..old(m).blocks@[block_at(old(m).blocks@, id@)]
                        }),
                    )
                } else {
                    old(m).blocks@
                }),
                Err(_) => final(m).blocks@ == old(m).blocks@,
            },
    {
        let params: Vec<SqlValue> = vec![SqlValue::Text(id.clone())];
        m.db.exec("UPDATE blocks SET is_deleted = 0, deleted_at = NULL WHERE id = ?1", &params)?;
        match find_block(&m.blocks, id) {
            Some(i) => {
                proof {
                    lemma_block_at(old(m).blocks@, id@, i as int);
                }
                let ghost before = m.blocks@;
                let mut b = m.blocks[i].clone();
                b.is_deleted = false;
                b.deleted_at = None;
                m.blocks.remove(i);
                m.blocks.insert(i, b);
                proof {
                    assert(m.blocks@ =~= before.update(
                        i as int,
                        (Block { is_deleted: false, deleted_at: None, ..before[i as int] }),
                    ));
                    assert forall|p: int, q: int| 0 <= p < q < m.blocks@.len() implies (
                    #[trigger] m.blocks@[p]).id@ != (#[trigger] m.blocks@[q]).id@ by {
                        assert(m.blocks@[p].id@ == before[p].id@);
                        assert(m.blocks@[q].id@ == before[q].id@);
                    }
                }
                Ok(())
            },
            None => Ok(()),
        }
    }
}


// ---------------------------------------------------------------------
// Attachment access.
// ---------------------------------------------------------------------
/// Some attachment carries this id.
pub open spec fn has_attachment(s: Seq<Attachment>, id: Seq<char>) -> bool {
    exists|i: int| 0 <= i < s.len() && (#[trigger] s[i]).id@ == id
}

/// The index of the attachment with this id.
pub open spec fn attachment_at(s: Seq<Attachment>, id: Seq<char>) -> int {
    choose|i: int| 0 <= i < s.len() && (#[trigger] s[i]).id@ == id
}

/// Some attachment carries this content hash.
pub open spec fn has_attachment_hashed(s: Seq<Attachment>, hash: Seq<char>) -> bool {
    exists|i: int| 0 <= i < s.len() && (#[trigger] s[i]).hash@ == hash
}

/// The index of the attachment with this content hash.
pub open spec fn attachment_hashed_at(s: Seq<Attachment>, hash: Seq<char>) -> int {
    choose|i: int| 0 <= i < s.len() && (#[trigger] s[i]).hash@ == hash
}

pub proof fn lemma_attachment_at(s: Seq<Attachment>, id: Seq<char>, i: int)
    requires
        attachments_unique(s),
        0 <= i < s.len(),
        s[i].id@ == id,
    ensures
        has_attachment(s, id),
        attachment_at(s, id) == i,
{
    assert(has_attachment(s, id));
    let k = attachment_at(s, id);
    if k < i {
        assert(s[k].id@ != s[i].id@);
    }
    if i < k {
        assert(s[i].id@ != s[k].id@);
    }
}

pub proof fn lemma_attachment_hashed_at(s: Seq<Attachment>, hash: Seq<char>, i: int)
    requires
        attachments_unique(s),
        0 <= i < s.len(),
        s[i].hash@ == hash,
    ensures
        has_attachment_hashed(s, hash),
        attachment_hashed_at(s, hash) == i,
{
    assert(has_attachment_hashed(s, hash));
    let k = attachment_hashed_at(s, hash);
    if k < i {
        assert(s[k].hash@ != s[i].hash@);
    }
    if i < k {
        assert(s[i].hash@ != s[k].hash@);
    }
}

pub(crate) fn find_attachment(v: &Vec<Attachment>, id: &String) -> (r: Option<usize>)
    ensures
        match r {
            Some(i) => i < v@.len() && v@[i as int].id@ == id@,
            None => !has_attachment(v@, id@),
        },
{
    let mut i: usize = 0;
    while i < v.len()
        invariant
            i <= v@.len(),
            forall|j: int| 0 <= j < i ==> (#[trigger] v@[j]).id@ != id@,
        decreases v@.len() - i,
    {
        if v[i].id == *id {
            return Some(i);
        }
        i += 1;
    }
    None
}

pub(crate) fn find_attachment_by_hash(v: &Vec<Attachment>, hash: &String) -> (r: Option<usize>)
    ensures
        match r {
            Some(i) => i < v@.len() && v@[i as int].hash@ == hash@,
            None => !has_attachment_hashed(v@, hash@),
        },
{
    let mut i: usize = 0;
    while i < v.len()
        invariant
            i <= v@.len(),
            forall|j: int| 0 <= j < i ==> (#[trigger] v@[j]).hash@ != hash@,
        decreases v@.len() - i,
    {
        if v[i].hash == *hash {
            return Some(i);
        }
        i += 1;
    }
    None
}

/// Every table but `attachments` and its two junctions is as it was.
pub open spec fn same_except_attachments(a: DatabaseManager, b: DatabaseManager) -> bool {
    &&& a.notes == b.notes
    &&& a.blocks == b.blocks
    &&& a.folders == b.folders
    &&& a.tags == b.tags
    &&& a.links == b.links
    &&& a.note_folders == b.note_folders
    &&& a.note_tags == b.note_tags
    &&& a.block_references == b.block_references
}

/// Attachment access. The content hash is globally unique, so identical
/// payloads map to a single row.
pub struct AttachmentDao;

impl AttachmentDao {
    /// Inserts one attachment row. Fails with `Conflict`, changing
    /// nothing, when the id or the content hash is already taken: callers
    /// probing by hash first will reuse the existing row instead.
    pub fn create(m: &mut DatabaseManager, attachment: &Attachment) -> (r: Result<(), Error>)
        requires
            old(m).wf(),
        ensures
            final(m).wf(),
            same_except_attachments(*old(m), *final(m)),
            final(m).note_attachments == old(m).note_attachments,
            final(m).block_attachments == old(m).block_attachments,
            (has_attachment(old(m).attachments@, attachment.id@) || has_attachment_hashed(
                old(m).attachments@,
                attachment.hash@,
            )) ==> (r matches Err(Error::Conflict(_))),
            (!has_attachment(old(m).attachments@, attachment.id@) && !has_attachment_hashed(
                old(m).attachments@,
                attachment.hash@,
            ) && r is Err) ==> (r matches Err(Error::Database(_))),
            match r {
                Ok(_) => !has_attachment(old(m).attachments@, attachment.id@)
                    && !has_attachment_hashed(old(m).attachments@, attachment.hash@) && final(m).attachments@ == old(m).attachments@.push(*attachment),
                Err(_) => final(m).attachments@ == old(m).attachments@,
            },
    {
        if find_attachment(&m.attachments, &attachment.id).is_some() {
            return Err(
                Error::Conflict(new_strlit_string("an attachment with this id already exists")),
            );
        }
        if find_attachment_by_hash(&m.attachments, &attachment.hash).is_some() {
            return Err(
                Error::Conflict(
                    new_strlit_string("an attachment with this content hash already exists"),
                ),
            );
        }
        let params: Vec<SqlValue> = vec![
            SqlValue::Text(attachment.id.clone()),
            SqlValue::Text(attachment.file_name.clone()),
            SqlValue::Text(attachment.file_path.clone()),
            SqlValue::Text(attachment.file_type.clone()),
            SqlValue::Text(attachment.mime_type.clone()),
            SqlValue::Integer(attachment.file_size),
            opt_i32_value(&attachment.width),
            opt_i32_value(&attachment.height),
            SqlValue::Text(attachment.hash.clone()),
            SqlValue::Integer(attachment.created_at),
            SqlValue::Integer(attachment.updated_at),
        ];
        m.db.exec(
            "INSERT INTO attachments (id, file_name, file_path, file_type, mime_type, file_size, width, height, hash, created_at, updated_at) VALUES (?1, ?2, ?3, ?4, ?5, ?6, ?7, ?8, ?9, ?10, ?11)",
            &params,
        )?;
        m.attachments.push(attachment.clone());
        Ok(())
    }

    /// The attachment with this id, or nothing.
    pub fn get_by_id(m: &DatabaseManager, id: &String) -> (r: Result<Option<Attachment>, Error>)
        requires
            m.wf(),
        ensures
            match r {
                Ok(Some(a)) => has_attachment(m.attachments@, id@) && a == m.attachments@[
                    attachment_at(m.attachments@, id@)],
                Ok(None) => !has_attachment(m.attachments@, id@),
                Err(_) => false,
            },
    {
        match find_attachment(&m.attachments, id) {
            Some(i) => {
                proof {
                    lemma_attachment_at(m.attachments@, id@, i as int);
                }
                Ok(Some(m.attachments[i].clone()))
            },
            None => Ok(None),
        }
    }

    /// The attachment with this content hash, or nothing: the probe that
    /// lets callers deduplicate identical payloads.
    pub fn get_by_hash(m: &DatabaseManager, hash: &String) -> (r: Result<
        Option<Attachment>,
        Error,
    >)
        requires
            m.wf(),
        ensures
            match r {
                Ok(Some(a)) => has_attachment_hashed(m.attachments@, hash@) && a == m.attachments@[
                    attachment_hashed_at(m.attachments@, hash@)],
                Ok(None) => !has_attachment_hashed(m.attachments@, hash@),
                Err(_) => false,
            },
    {
        match find_attachment_by_hash(&m.attachments, hash) {
            Some(i) => {
                proof {
                    lemma_attachment_hashed_at(m.attachments@, hash@, i as int);
                }
                Ok(Some(m.attachments[i].clone()))
            },
            None => Ok(None),
        }
    }

    /// Overwrites the mutable columns by id; the stored content hash is
    /// kept, and a missing id changes nothing.
    pub fn update(m: &mut DatabaseManager, attachment: &Attachment) -> (r: Result<(), Error>)
        requires
            old(m).wf(),
        ensures
            r is Err ==> (r matches Err(Error::Database(_))),
            final(m).wf(),
            same_except_attachments(*old(m), *final(m)),
            final(m).note_attachments == old(m).note_attachments,
            final(m).block_attachments == old(m).block_attachments,
            match r {
                Ok(_) => final(m).attachments@ == (if has_attachment(
                    old(m).attachments@,
                    attachment.id@,
                ) {
                    old(m).attachments@.update(
                        attachment_at(old(m).attachments@, attachment.id@),
                        (Attachment {
                            hash: old(m).attachments@[attachment_at(
                                old(m).attachments@,
                                attachment.id@,
                            )].hash,
                            ..*attachment
                        }),
                    )
                } else {
                    old(m).attachments@
                }),
                Err(_) => final(m).attachments@ == old(m).attachments@,
            },
    {
        let params: Vec<SqlValue> = vec![
            SqlValue::Text(attachment.id.clone()),
            SqlValue::Text(attachment.file_name.clone()),
            SqlValue::Text(attachment.file_path.clone()),
            SqlValue::Text(attachment.file_type.clone()),
            SqlValue::Text(attachment.mime_type.clone()),
            SqlValue::Integer(attachment.file_size),
            opt_i32_value(&attachment.width),
            opt_i32_value(&attachment.height),
            SqlValue::Integer(attachment.updated_at),
        ];
        m.db.exec(
            "UPDATE attachments SET file_name = ?2, file_path = ?3, file_type = ?4, mime_type = ?5, file_size = ?6, width = ?7, height = ?8, updated_at = ?9 WHERE id = ?1",
            &params,
        )?;
        match find_attachment(&m.attachments, &attachment.id) {
            Some(i) => {
                proof {
                    lemma_attachment_at(old(m).attachments@, attachment.id@, i as int);
                }
                let ghost before = m.attachments@;
                let mut row = attachment.clone();
                row.hash = m.attachments[i].hash.clone();
                m.attachments.remove(i);
                m.attachments.insert(i, row);
                proof {
                    assert(m.attachments@ =~= before.update(
                        i as int,
                        (Attachment { hash: before[i as int].hash, ..*attachment }),
                    ));
                    assert forall|p: int, q: int| 0 <= p < q < m.attachments@.len() implies (
                    #[trigger] m.attachments@[p]).id@ != (#[trigger] m.attachments@[q]).id@
                        && m.attachments@[p].hash@ != m.attachments@[q].hash@ by {
                        assert(m.attachments@[p].id@ == before[p].id@ && m.attachments@[p].hash@
                            == before[p].hash@);
                        assert(m.attachments@[q].id@ == before[q].id@ && m.attachments@[q].hash@
                            == before[q].hash@);
                    }
                }
                Ok(())
            },
            None => Ok(()),
        }
    }

    /// Removes the attachment row for good, together with its note and
    /// block memberships.
    pub fn delete(m: &mut DatabaseManager, id: &String) -> (r: Result<(), Error>)
        requires
            old(m).wf(),
        ensures
            r is Err ==> (r matches Err(Error::Database(_))),
            final(m).wf(),
            same_except_attachments(*old(m), *final(m)),
            match r {
                Ok(_) => {
                    &&& final(m).attachments@ == (if has_attachment(old(m).attachments@, id@) {
                        old(m).attachments@.remove(attachment_at(old(m).attachments@, id@))
                    } else {
                        old(m).attachments@
                    })
                    &&& final(m).note_attachments@ == crate::relation_dao::na_without_att(
                        old(m).note_attachments@,
                        id@,
                    )
                    &&& final(m).block_attachments@ == crate::relation_dao::ba_without_att(
                        old(m).block_attachments@,
                        id@,
                    )
                },
                Err(_) => final(m).attachments@ == old(m).attachments@ && final(m).note_attachments@ == old(m).note_attachments@ && final(m).block_attachments@
                    == old(m).block_attachments@,
            },
    {
        let params: Vec<SqlValue> = vec![SqlValue::Text(id.clone())];
        m.db.exec("DELETE FROM attachments WHERE id = ?1", &params)?;
        match find_attachment(&m.attachments, id) {
            Some(i) => {
                proof {
                    lemma_attachment_at(old(m).attachments@, id@, i as int);
                }
                let ghost before = m.attachments@;
                m.attachments.remove(i);
                proof {
                    assert forall|p: int, q: int| 0 <= p < q < m.attachments@.len() implies (
                    #[trigger] m.attachments@[p]).id@ != (#[trigger] m.attachments@[q]).id@
                        && m.attachments@[p].hash@ != m.attachments@[q].hash@ by {
                        let p0 = if p < i as int { p } else { p + 1 };
                        let q0 = if q < i as int { q } else { q + 1 };
                        assert(m.attachments@[p] == before[p0]);
                        assert(m.attachments@[q] == before[q0]);
                    }
                }
            },
            None => {},
        }
        crate::relation_dao::remove_na_of_att(&mut m.note_attachments, id);
        crate::relation_dao::remove_ba_of_att(&mut m.block_attachments, id);
        proof {
            crate::relation_dao::lemma_na_without_att(old(m).note_attachments@, id@);
            crate::relation_dao::lemma_ba_without_att(old(m).block_attachments@, id@);
        }
        Ok(())
    }
}

/// The bound form of an optional 32-bit integer column.
pub fn opt_i32_value(o: &Option<i32>) -> (r: SqlValue)
    ensures
        r == (match *o {
            Some(n) => SqlValue::Integer(n as i64),
            None => SqlValue::Null,
        }),
{
    match o {
        Some(n) => SqlValue::Integer(*n as i64),
        None => SqlValue::Null,
    }
}

// ---------------------------------------------------------------------
// Link access.
// ---------------------------------------------------------------------
/// Some link carries this id.
pub open spec fn has_link(s: Seq<Link>, id: Seq<char>) -> bool {
    exists|i: int| 0 <= i < s.len() && (#[trigger] s[i]).id@ == id
}

/// The index of the link with this id.
pub open spec fn link_at(s: Seq<Link>, id: Seq<char>) -> int {
    choose|i: int| 0 <= i < s.len() && (#[trigger] s[i]).id@ == id
}

pub proof fn lemma_link_at(s: Seq<Link>, id: Seq<char>, i: int)
    requires
        links_unique(s),
        0 <= i < s.len(),
        s[i].id@ == id,
    ensures
        has_link(s, id),
        link_at(s, id) == i,
{
    assert(has_link(s, id));
    let k = link_at(s, id);
    if k < i {
        assert(s[k].id@ != s[i].id@);
    }
    if i < k {
        assert(s[i].id@ != s[k].id@);
    }
}

pub(crate) fn find_link(links: &Vec<Link>, id: &String) -> (r: Option<usize>)
    ensures
        match r {
            Some(i) => i < links@.len() && links@[i as int].id@ == id@,
            None => !has_link(links@, id@),
        },
{
    let mut i: usize = 0;
    while i < links.len()
        invariant
            i <= links@.len(),
            forall|j: int| 0 <= j < i ==> (#[trigger] links@[j]).id@ != id@,
        decreases links@.len() - i,
    {
        if links[i].id == *id {
            return Some(i);
        }
        i += 1;
    }
    None
}

/// The links leaving one note, in table order.
pub open spec fn links_from_note(s: Seq<Link>, note: Seq<char>) -> Seq<Link>
    decreases s.len(),
{
    if s.len() == 0 {
        Seq::empty()
    } else {
        let rest = links_from_note(s.drop_last(), note);
        if s.last().source_note_id@ == note {
            rest.push(s.last())
        } else {
            rest
        }
    }
}

/// The links arriving at one note, in table order.
pub open spec fn links_to_note(s: Seq<Link>, note: Seq<char>) -> Seq<Link>
    decreases s.len(),
{
    if s.len() == 0 {
        Seq::empty()
    } else {
        let rest = links_to_note(s.drop_last(), note);
        if s.last().target_note_id matches Some(t) && t@ == note {
            rest.push(s.last())
        } else {
            rest
        }
    }
}

/// The links leaving one block, in table order.
pub open spec fn links_from_block(s: Seq<Link>, block: Seq<char>) -> Seq<Link>
    decreases s.len(),
{
    if s.len() == 0 {
        Seq::empty()
    } else {
        let rest = links_from_block(s.drop_last(), block);
        if s.last().source_block_id matches Some(b) && b@ == block {
            rest.push(s.last())
        } else {
            rest
        }
    }
}

/// The links arriving at one block, in table order.
pub open spec fn links_to_block(s: Seq<Link>, block: Seq<char>) -> Seq<Link>
    decreases s.len(),
{
    if s.len() == 0 {
        Seq::empty()
    } else {
        let rest = links_to_block(s.drop_last(), block);
        if s.last().target_block_id matches Some(b) && b@ == block {
            rest.push(s.last())
        } else {
            rest
        }
    }
}

/// The table with every link leaving one note gone.
pub open spec fn links_without_source(s: Seq<Link>, note: Seq<char>) -> Seq<Link>
    decreases s.len(),
{
    if s.len() == 0 {
        Seq::empty()
    } else {
        let rest = links_without_source(s.drop_last(), note);
        if s.last().source_note_id@ == note {
            rest
        } else {
            rest.push(s.last())
        }
    }
}

/// The table with every link arriving at one note gone.
pub open spec fn links_without_target(s: Seq<Link>, note: Seq<char>) -> Seq<Link>
    decreases s.len(),
{
    if s.len() == 0 {
        Seq::empty()
    } else {
        let rest = links_without_target(s.drop_last(), note);
        if s.last().target_note_id matches Some(t) && t@ == note {
            rest
        } else {
            rest.push(s.last())
        }
    }
}

/// Removing the links leaving a note keeps id uniqueness.
pub proof fn lemma_links_without_source(s: Seq<Link>, note: Seq<char>)
    requires
        links_unique(s),
    ensures
        links_unique(links_without_source(s, note)),
        forall|k: int|
            0 <= k < links_without_source(s, note).len() ==> s.contains(
                #[trigger] links_without_source(s, note)[k],
            ) && links_without_source(s, note)[k].source_note_id@ != note,
    decreases s.len(),
{
    if s.len() > 0 {
        let pre = s.drop_last();
        assert(links_unique(pre)) by {
            assert(forall|i: int| 0 <= i < pre.len() ==> pre[i] == s[i]);
        }
        lemma_links_without_source(pre, note);
        let r = links_without_source(s, note);
        let rp = links_without_source(pre, note);
        if s.last().source_note_id@ != note {
            assert(r == rp.push(s.last()));
            assert forall|k: int| 0 <= k < r.len() implies s.contains(#[trigger] r[k])
                && r[k].source_note_id@ != note by {
                if k == r.len() - 1 {
                    assert(r[k] == s.last());
                    assert(s[s.len() - 1] == s.last());
                } else {
                    assert(r[k] == rp[k]);
                    assert(pre.contains(rp[k]));
                    let w = choose|w: int| 0 <= w < pre.len() && pre[w] == rp[k];
                    assert(s[w] == rp[k]);
                }
            }
            assert forall|p: int, q: int| 0 <= p < q < r.len() implies (#[trigger] r[p]).id@ != (
            #[trigger] r[q]).id@ by {
                if q == r.len() - 1 {
                    assert(pre.contains(rp[p]));
                    let w = choose|w: int| 0 <= w < pre.len() && pre[w] == rp[p];
                    assert(s[w] == rp[p]);
                    assert(s[w].id@ != s[s.len() - 1].id@);
                }
            }
        } else {
            assert forall|k: int| 0 <= k < r.len() implies s.contains(#[trigger] r[k])
                && r[k].source_note_id@ != note by {
                assert(r[k] == rp[k]);
                assert(pre.contains(rp[k]));
                let w = choose|w: int| 0 <= w < pre.len() && pre[w] == rp[k];
                assert(s[w] == rp[k]);
            }
        }
    }
}

/// Removing the links arriving at a note keeps id uniqueness.
pub proof fn lemma_links_without_target(s: Seq<Link>, note: Seq<char>)
    requires
        links_unique(s),
    ensures
        links_unique(links_without_target(s, note)),
        forall|k: int|
            0 <= k < links_without_target(s, note).len() ==> s.contains(
                #[trigger] links_without_target(s, note)[k],
            ) && !(links_without_target(s, note)[k].target_note_id matches Some(t) && t@ == note),
    decreases s.len(),
{
    if s.len() > 0 {
        let pre = s.drop_last();
        assert(links_unique(pre)) by {
            assert(forall|i: int| 0 <= i < pre.len() ==> pre[i] == s[i]);
        }
        lemma_links_without_target(pre, note);
        let r = links_without_target(s, note);
        let rp = links_without_target(pre, note);
        if !(s.last().target_note_id matches Some(t) && t@ == note) {
            assert(r == rp.push(s.last()));
            assert forall|k: int| 0 <= k < r.len() implies s.contains(#[trigger] r[k]) && !(
            r[k].target_note_id matches Some(t) && t@ == note) by {
                if k == r.len() - 1 {
                    assert(r[k] == s.last());
                    assert(s[s.len() - 1] == s.last());
                } else {
                    assert(r[k] == rp[k]);
                    assert(pre.contains(rp[k]));
                    let w = choose|w: int| 0 <= w < pre.len() && pre[w] == rp[k];
                    assert(s[w] == rp[k]);
                }
            }
            assert forall|p: int, q: int| 0 <= p < q < r.len() implies (#[trigger] r[p]).id@ != (
            #[trigger] r[q]).id@ by {
                if q == r.len() - 1 {
                    assert(pre.contains(rp[p]));
                    let w = choose|w: int| 0 <= w < pre.len() && pre[w] == rp[p];
                    assert(s[w] == rp[p]);
                    assert(s[w].id@ != s[s.len() - 1].id@);
                }
            }
        } else {
            assert forall|k: int| 0 <= k < r.len() implies s.contains(#[trigger] r[k]) && !(
            r[k].target_note_id matches Some(t) && t@ == note) by {
                assert(r[k] == rp[k]);
                assert(pre.contains(rp[k]));
                let w = choose|w: int| 0 <= w < pre.len() && pre[w] == rp[k];
                assert(s[w] == rp[k]);
            }
        }
    }
}

/// Every table but `links` is as it was.
pub open spec fn same_except_links(a: DatabaseManager, b: DatabaseManager) -> bool {
    &&& a.notes == b.notes
    &&& a.blocks == b.blocks
    &&& a.folders == b.folders
    &&& a.tags == b.tags
    &&& a.attachments == b.attachments
    &&& a.note_folders == b.note_folders
    &&& a.note_tags == b.note_tags
    &&& a.note_attachments == b.note_attachments
    &&& a.block_attachments == b.block_attachments
    &&& a.block_references == b.block_references
}

/// Whether the link's populated target matches its declared type.
pub fn link_valid_exec(link: &Link) -> (r: bool)
    ensures
        r == link.valid(),
{
    proof {
        reveal_strlit("note_link");
        reveal_strlit("block_reference");
        reveal_strlit("database_relation");
    }
    let nl = new_strlit_string("note_link");
    let br = new_strlit_string("block_reference");
    let dr = new_strlit_string("database_relation");
    let is_nl = link.link_type == nl;
    let is_br = link.link_type == br;
    let is_dr = link.link_type == dr;
    let target_note_set = match &link.target_note_id {
        Some(_) => true,
        None => false,
    };
    let target_block_set = match &link.target_block_id {
        Some(_) => true,
        None => false,
    };
    (is_nl || is_br || is_dr) && (!is_br || target_block_set) && (is_br || target_note_set)
}

/// Link access.
pub struct LinkDao;

impl LinkDao {
    /// Inserts one link row. A link whose target does not match its type
    /// is rejected with `InvalidInput`; a taken id with `Conflict`; either
    /// way nothing changes.
    pub fn create(m: &mut DatabaseManager, link: &Link) -> (r: Result<(), Error>)
        requires
            old(m).wf(),
        ensures
            final(m).wf(),
            same_except_links(*old(m), *final(m)),
            !link.valid() ==> (r matches Err(Error::InvalidInput(_))),
            (link.valid() && has_link(old(m).links@, link.id@)) ==> (r matches Err(
                Error::Conflict(_),
            )),
            (link.valid() && !has_link(old(m).links@, link.id@) && r is Err) ==> (r matches Err(
                Error::Database(_),
            )),
            match r {
                Ok(_) => link.valid() && !has_link(old(m).links@, link.id@) && final(m).links@
                    == old(m).links@.push(*link),
                Err(_) => final(m).links@ == old(m).links@,
            },
    {
        if !link_valid_exec(link) {
            return Err(
                Error::InvalidInput(
                    new_strlit_string("the link's target does not match its type"),
                ),
            );
        }
        if find_link(&m.links, &link.id).is_some() {
            return Err(Error::Conflict(new_strlit_string("a link with this id already exists")));
        }
        let params: Vec<SqlValue> = vec![
            SqlValue::Text(link.id.clone()),
            SqlValue::Text(link.source_note_id.clone()),
            opt_text_value(&link.target_note_id),
            opt_text_value(&link.source_block_id),
            opt_text_value(&link.target_block_id),
            SqlValue::Text(link.link_type.clone()),
            opt_text_value(&link.link_text),
            SqlValue::Integer(link.created_at),
        ];
        m.db.exec(
            "INSERT INTO links (id, source_note_id, target_note_id, source_block_id, target_block_id, link_type, link_text, created_at) VALUES (?1, ?2, ?3, ?4, ?5, ?6, ?7, ?8)",
            &params,
        )?;
        m.links.push(link.clone());
        Ok(())
    }

    /// The link with this id, or nothing.
    pub fn get_by_id(m: &DatabaseManager, id: &String) -> (r: Result<Option<Link>, Error>)
        requires
            m.wf(),
        ensures
            match r {
                Ok(Some(l)) => has_link(m.links@, id@) && l == m.links@[link_at(m.links@, id@)],
                Ok(None) => !has_link(m.links@, id@),
                Err(_) => false,
            },
    {
        match find_link(&m.links, id) {
            Some(i) => {
                proof {
                    lemma_link_at(m.links@, id@, i as int);
                }
                Ok(Some(m.links[i].clone()))
            },
            None => Ok(None),
        }
    }

    /// Every link leaving this note, in table order.
    pub fn get_outgoing_links(m: &DatabaseManager, note_id: &String) -> (r: Result<
        Vec<Link>,
        Error,
    >)
        requires
            m.wf(),
        ensures
            match r {
                Ok(v) => v@ == links_from_note(m.links@, note_id@),
                Err(_) => false,
            },
    {
        let mut out: Vec<Link> = Vec::new();
        let mut i: usize = 0;
        while i < m.links.len()
            invariant
                i <= m.links@.len(),
                out@ == links_from_note(m.links@.subrange(0, i as int), note_id@),
            decreases m.links@.len() - i,
        {
            if m.links[i].source_note_id == *note_id {
                out.push(m.links[i].clone());
            }
            proof {
                let pre = m.links@.subrange(0, i as int);
                let cur = m.links@.subrange(0, i as int + 1);
                assert(cur.drop_last() =~= pre);
                assert(cur.last() == m.links@[i as int]);
            }
            i += 1;
        }
        proof {
            assert(m.links@.subrange(0, m.links@.len() as int) =~= m.links@);
        }
        Ok(out)
    }

    /// Every link arriving at this note, in table order.
    pub fn get_incoming_links(m: &DatabaseManager, note_id: &String) -> (r: Result<
        Vec<Link>,
        Error,
    >)
        requires
            m.wf(),
        ensures
            match r {
                Ok(v) => v@ == links_to_note(m.links@, note_id@),
                Err(_) => false,
            },
    {
        let mut out: Vec<Link> = Vec::new();
        let mut i: usize = 0;
        while i < m.links.len()
            invariant
                i <= m.links@.len(),
                out@ == links_to_note(m.links@.subrange(0, i as int), note_id@),
            decreases m.links@.len() - i,
        {
            let keep = match &m.links[i].target_note_id {
                Some(t) => *t == *note_id,
                None => false,
            };
            if keep {
                out.push(m.links[i].clone());
            }
            proof {
                let pre = m.links@.subrange(0, i as int);
                let cur = m.links@.subrange(0, i as int + 1);
                assert(cur.drop_last() =~= pre);
                assert(cur.last() == m.links@[i as int]);
            }
            i += 1;
        }
        proof {
            assert(m.links@.subrange(0, m.links@.len() as int) =~= m.links@);
        }
        Ok(out)
    }

    /// Every link leaving this block, in table order.
    pub fn get_links_from_block(m: &DatabaseManager, block_id: &String) -> (r: Result<
        Vec<Link>,
        Error,
    >)
        requires
            m.wf(),
        ensures
            match r {
                Ok(v) => v@ == links_from_block(m.links@, block_id@),
                Err(_) => false,
            },
    {
        let mut out: Vec<Link> = Vec::new();
        let mut i: usize = 0;
        while i < m.links.len()
            invariant
                i <= m.links@.len(),
                out@ == links_from_block(m.links@.subrange(0, i as int), block_id@),
            decreases m.links@.len() - i,
        {
            let keep = match &m.links[i].source_block_id {
                Some(b) => *b == *block_id,
                None => false,
            };
            if keep {
                out.push(m.links[i].clone());
            }
            proof {
                let pre = m.links@.subrange(0, i as int);
                let cur = m.links@.subrange(0, i as int + 1);
                assert(cur.drop_last() =~= pre);
                assert(cur.last() == m.links@[i as int]);
            }
            i += 1;
        }
        proof {
            assert(m.links@.subrange(0, m.links@.len() as int) =~= m.links@);
        }
        Ok(out)
    }

    /// Every link arriving at this block, in table order.
    pub fn get_links_to_block(m: &DatabaseManager, block_id: &String) -> (r: Result<
        Vec<Link>,
        Error,
    >)
        requires
            m.wf(),
        ensures
            match r {
                Ok(v) => v@ == links_to_block(m.links@, block_id@),
                Err(_) => false,
            },
    {
        let mut out: Vec<Link> = Vec::new();
        let mut i: usize = 0;
        while i < m.links.len()
            invariant
                i <= m.links@.len(),
                out@ == links_to_block(m.links@.subrange(0, i as int), block_id@),
            decreases m.links@.len() - i,
        {
            let keep = match &m.links[i].target_block_id {
                Some(b) => *b == *block_id,
                None => false,
            };
            if keep {
                out.push(m.links[i].clone());
            }
            proof {
                let pre = m.links@.subrange(0, i as int);
                let cur = m.links@.subrange(0, i as int + 1);
                assert(cur.drop_last() =~= pre);
                assert(cur.last() == m.links@[i as int]);
            }
            i += 1;
        }
        proof {
            assert(m.links@.subrange(0, m.links@.len() as int) =~= m.links@);
        }
        Ok(out)
    }

    /// Removes one link by id; a missing id changes nothing.
    pub fn delete(m: &mut DatabaseManager, id: &String) -> (r: Result<(), Error>)
        requires
            old(m).wf(),
        ensures
            r is Err ==> (r matches Err(Error::Database(_))),
            final(m).wf(),
            same_except_links(*old(m), *final(m)),
            match r {
                Ok(_) => final(m).links@ == (if has_link(old(m).links@, id@) {
                    old(m).links@.remove(link_at(old(m).links@, id@))
                } else {
                    old(m).links@
                }),
                Err(_) => final(m).links@ == old(m).links@,
            },
    {
        let params: Vec<SqlValue> = vec![SqlValue::Text(id.clone())];
        m.db.exec("DELETE FROM links WHERE id = ?1", &params)?;
        match find_link(&m.links, id) {
            Some(i) => {
                proof {
                    lemma_link_at(old(m).links@, id@, i as int);
                }
                let ghost before = m.links@;
                m.links.remove(i);
                proof {
                    assert forall|p: int, q: int| 0 <= p < q < m.links@.len() implies (
                    #[trigger] m.links@[p]).id@ != (#[trigger] m.links@[q]).id@ by {
                        let p0 = if p < i as int { p } else { p + 1 };
                        let q0 = if q < i as int { q } else { q + 1 };
                        assert(m.links@[p] == before[p0]);
                        assert(m.links@[q] == before[q0]);
                    }
                }
                Ok(())
            },
            None => Ok(()),
        }
    }

    /// Removes every link leaving one note.
    pub fn delete_outgoing_links(m: &mut DatabaseManager, note_id: &String) -> (r: Result<
        (),
        Error,
    >)
        requires
            old(m).wf(),
        ensures
            r is Err ==> (r matches Err(Error::Database(_))),
            final(m).wf(),
            same_except_links(*old(m), *final(m)),
            match r {
                Ok(_) => final(m).links@ == links_without_source(old(m).links@, note_id@),
                Err(_) => final(m).links@ == old(m).links@,
            },
    {
        let params: Vec<SqlValue> = vec![SqlValue::Text(note_id.clone())];
        m.db.exec("DELETE FROM links WHERE source_note_id = ?1", &params)?;
        let mut out: Vec<Link> = Vec::new();
        let mut i: usize = 0;
        while i < m.links.len()
            invariant
                i <= m.links@.len(),
                m.links@ == old(m).links@,
                out@ == links_without_source(m.links@.subrange(0, i as int), note_id@),
            decreases m.links@.len() - i,
        {
            if !(m.links[i].source_note_id == *note_id) {
                out.push(m.links[i].clone());
            }
            proof {
                let pre = m.links@.subrange(0, i as int);
                let cur = m.links@.subrange(0, i as int + 1);
                assert(cur.drop_last() =~= pre);
                assert(cur.last() == m.links@[i as int]);
            }
            i += 1;
        }
        proof {
            assert(m.links@.subrange(0, m.links@.len() as int) =~= m.links@);
        }
        m.links = out;
        proof {
            lemma_links_without_source(old(m).links@, note_id@);
        }
        Ok(())
    }

    /// Removes every link arriving at one note.
    pub fn delete_incoming_links(m: &mut DatabaseManager, note_id: &String) -> (r: Result<
        (),
        Error,
    >)
        requires
            old(m).wf(),
        ensures
            r is Err ==> (r matches Err(Error::Database(_))),
            final(m).wf(),
            same_except_links(*old(m), *final(m)),
            match r {
                Ok(_) => final(m).links@ == links_without_target(old(m).links@, note_id@),
                Err(_) => final(m).links@ == old(m).links@,
            },
    {
        let params: Vec<SqlValue> = vec![SqlValue::Text(note_id.clone())];
        m.db.exec("DELETE FROM links WHERE target_note_id = ?1", &params)?;
        let mut out: Vec<Link> = Vec::new();
        let mut i: usize = 0;
        while i < m.links.len()
            invariant
                i <= m.links@.len(),
                m.links@ == old(m).links@,
                out@ == links_without_target(m.links@.subrange(0, i as int), note_id@),
            decreases m.links@.len() - i,
        {
            let gone = match &m.links[i].target_note_id {
                Some(t) => *t == *note_id,
                None => false,
            };
            if !gone {
                out.push(m.links[i].clone());
            }
            proof {
                let pre = m.links@.subrange(0, i as int);
                let cur = m.links@.subrange(0, i as int + 1);
                assert(cur.drop_last() =~= pre);
                assert(cur.last() == m.links@[i as int]);
            }
            i += 1;
        }
        proof {
            assert(m.links@.subrange(0, m.links@.len() as int) =~= m.links@);
        }
        m.links = out;
        proof {
            lemma_links_without_target(old(m).links@, note_id@);
        }
        Ok(())
    }
}


// ---------------------------------------------------------------------
// Block-reference access.
// ---------------------------------------------------------------------
/// Some reference carries this id.
pub open spec fn has_br(s: Seq<BlockReference>, id: Seq<char>) -> bool {
    exists|i: int| 0 <= i < s.len() && (#[trigger] s[i]).id@ == id
}

pub(crate) fn find_br(v: &Vec<BlockReference>, id: &String) -> (r: Option<usize>)
    ensures
        match r {
            Some(i) => i < v@.len() && v@[i as int].id@ == id@,
            None => !has_br(v@, id@),
        },
{
    let mut i: usize = 0;
    while i < v.len()
        invariant
            i <= v@.len(),
            forall|j: int| 0 <= j < i ==> (#[trigger] v@[j]).id@ != id@,
        decreases v@.len() - i,
    {
        if v[i].id == *id {
            return Some(i);
        }
        i += 1;
    }
    None
}

/// The ids of the blocks referencing one block, in table order.
pub open spec fn br_sources_of(s: Seq<BlockReference>, target: Seq<char>) -> Seq<String>
    decreases s.len(),
{
    if s.len() == 0 {
        Seq::empty()
    } else {
        let rest = br_sources_of(s.drop_last(), target);
        if s.last().target_block_id@ == target {
            rest.push(s.last().source_block_id)
        } else {
            rest
        }
    }
}

/// The ids of the blocks referenced by one block, in table order.
pub open spec fn br_targets_of(s: Seq<BlockReference>, source: Seq<char>) -> Seq<String>
    decreases s.len(),
{
    if s.len() == 0 {
        Seq::empty()
    } else {
        let rest = br_targets_of(s.drop_last(), source);
        if s.last().source_block_id@ == source {
            rest.push(s.last().target_block_id)
        } else {
            rest
        }
    }
}

/// The table with every reference of one (source, target) pair gone.
pub open spec fn br_without_pair(s: Seq<BlockReference>, source: Seq<char>, target: Seq<char>)
    -> Seq<BlockReference>
    decreases s.len(),
{
    if s.len() == 0 {
        Seq::empty()
    } else {
        let rest = br_without_pair(s.drop_last(), source, target);
        if s.last().source_block_id@ == source && s.last().target_block_id@ == target {
            rest
        } else {
            rest.push(s.last())
        }
    }
}

/// The table with every reference leaving one block gone.
pub open spec fn br_without_source(s: Seq<BlockReference>, block: Seq<char>) -> Seq<
    BlockReference,
>
    decreases s.len(),
{
    if s.len() == 0 {
        Seq::empty()
    } else {
        let rest = br_without_source(s.drop_last(), block);
        if s.last().source_block_id@ == block {
            rest
        } else {
            rest.push(s.last())
        }
    }
}

/// The table with every reference arriving at one block gone.
pub open spec fn br_without_target(s: Seq<BlockReference>, block: Seq<char>) -> Seq<
    BlockReference,
>
    decreases s.len(),
{
    if s.len() == 0 {
        Seq::empty()
    } else {
        let rest = br_without_target(s.drop_last(), block);
        if s.last().target_block_id@ == block {
            rest
        } else {
            rest.push(s.last())
        }
    }
}

/// Removing the references of one pair keeps id uniqueness.
pub proof fn lemma_br_without_pair(s: Seq<BlockReference>, source: Seq<char>, target: Seq<char>)
    requires
        block_references_unique(s),
    ensures
        block_references_unique(br_without_pair(s, source, target)),
        forall|k: int|
            0 <= k < br_without_pair(s, source, target).len() ==> s.contains(
                #[trigger] br_without_pair(s, source, target)[k],
            ),
    decreases s.len(),
{
    if s.len() > 0 {
        let pre = s.drop_last();
        assert(block_references_unique(pre)) by {
            assert(forall|i: int| 0 <= i < pre.len() ==> pre[i] == s[i]);
        }
        lemma_br_without_pair(pre, source, target);
        let r = br_without_pair(s, source, target);
        let rp = br_without_pair(pre, source, target);
        assert forall|k: int| 0 <= k < rp.len() implies s.contains(#[trigger] rp[k]) by {
            assert(pre.contains(rp[k]));
            let w = choose|w: int| 0 <= w < pre.len() && pre[w] == rp[k];
            assert(s[w] == rp[k]);
        }
        if !(s.last().source_block_id@ == source && s.last().target_block_id@ == target) {
            assert(r == rp.push(s.last()));
            assert(s[s.len() - 1] == s.last());
            assert forall|p: int, q: int| 0 <= p < q < r.len() implies (#[trigger] r[p]).id@ != (
            #[trigger] r[q]).id@ by {
                if q == r.len() - 1 {
                    assert(pre.contains(rp[p]));
                    let w = choose|w: int| 0 <= w < pre.len() && pre[w] == rp[p];
                    assert(s[w] == rp[p]);
                    assert(s[w].id@ != s[s.len() - 1].id@);
                }
            }
        }
    }
}

/// Removing the references leaving one block keeps id uniqueness.
pub proof fn lemma_br_without_source(s: Seq<BlockReference>, block: Seq<char>)
    requires
        block_references_unique(s),
    ensures
        block_references_unique(br_without_source(s, block)),
        forall|k: int|
            0 <= k < br_without_source(s, block).len() ==> s.contains(
                #[trigger] br_without_source(s, block)[k],
            ),
    decreases s.len(),
{
    if s.len() > 0 {
        let pre = s.drop_last();
        assert(block_references_unique(pre)) by {
            assert(forall|i: int| 0 <= i < pre.len() ==> pre[i] == s[i]);
        }
        lemma_br_without_source(pre, block);
        let r = br_without_source(s, block);
        let rp = br_without_source(pre, block);
        assert forall|k: int| 0 <= k < rp.len() implies s.contains(#[trigger] rp[k]) by {
            assert(pre.contains(rp[k]));
            let w = choose|w: int| 0 <= w < pre.len() && pre[w] == rp[k];
            assert(s[w] == rp[k]);
        }
        if s.last().source_block_id@ != block {
            assert(r == rp.push(s.last()));
            assert(s[s.len() - 1] == s.last());
            assert forall|p: int, q: int| 0 <= p < q < r.len() implies (#[trigger] r[p]).id@ != (
            #[trigger] r[q]).id@ by {
                if q == r.len() - 1 {
                    assert(pre.contains(rp[p]));
                    let w = choose|w: int| 0 <= w < pre.len() && pre[w] == rp[p];
                    assert(s[w] == rp[p]);
                    assert(s[w].id@ != s[s.len() - 1].id@);
                }
            }
        }
    }
}

/// Removing the references arriving at one block keeps id uniqueness.
pub proof fn lemma_br_without_target(s: Seq<BlockReference>, block: Seq<char>)
    requires
        block_references_unique(s),
    ensures
        block_references_unique(br_without_target(s, block)),
        forall|k: int|
            0 <= k < br_without_target(s, block).len() ==> s.contains(
                #[trigger] br_without_target(s, block)[k],
            ),
    decreases s.len(),
{
    if s.len() > 0 {
        let pre = s.drop_last();
        assert(block_references_unique(pre)) by {
            assert(forall|i: int| 0 <= i < pre.len() ==> pre[i] == s[i]);
        }
        lemma_br_without_target(pre, block);
        let r = br_without_target(s, block);
        let rp = br_without_target(pre, block);
        assert forall|k: int| 0 <= k < rp.len() implies s.contains(#[trigger] rp[k]) by {
            assert(pre.contains(rp[k]));
            let w = choose|w: int| 0 <= w < pre.len() && pre[w] == rp[k];
            assert(s[w] == rp[k]);
        }
        if s.last().target_block_id@ != block {
            assert(r == rp.push(s.last()));
            assert(s[s.len() - 1] == s.last());
            assert forall|p: int, q: int| 0 <= p < q < r.len() implies (#[trigger] r[p]).id@ != (
            #[trigger] r[q]).id@ by {
                if q == r.len() - 1 {
                    assert(pre.contains(rp[p]));
                    let w = choose|w: int| 0 <= w < pre.len() && pre[w] == rp[p];
                    assert(s[w] == rp[p]);
                    assert(s[w].id@ != s[s.len() - 1].id@);
                }
            }
        }
    }
}

/// Every table but `block_references` is as it was.
pub open spec fn same_except_block_references(a: DatabaseManager, b: DatabaseManager) -> bool {
    &&& a.notes == b.notes
    &&& a.blocks == b.blocks
    &&& a.folders == b.folders
    &&& a.tags == b.tags
    &&& a.links == b.links
    &&& a.attachments == b.attachments
    &&& a.note_folders == b.note_folders
    &&& a.note_tags == b.note_tags
    &&& a.note_attachments == b.note_attachments
    &&& a.block_attachments == b.block_attachments
}

/// Block-reference access.
pub struct BlockReferenceDao;

impl BlockReferenceDao {
    /// Inserts one block-to-block reference. Fails with `Conflict`,
    /// changing nothing, when the id is already taken.
    pub fn create(
        m: &mut DatabaseManager,
        id: &String,
        source_block_id: &String,
        target_block_id: &String,
    ) -> (r: Result<(), Error>)
        requires
            old(m).wf(),
        ensures
            final(m).wf(),
            same_except_block_references(*old(m), *final(m)),
            has_br(old(m).block_references@, id@) ==> (r matches Err(Error::Conflict(_))),
            (!has_br(old(m).block_references@, id@) && r is Err) ==> (r matches Err(
                Error::Database(_),
            )),
            match r {
                Ok(_) => {
                    &&& !has_br(old(m).block_references@, id@)
                    &&& final(m).block_references@.len() == old(m).block_references@.len() + 1
                    &&& final(m).block_references@ == old(m).block_references@.push(
                        final(m).block_references@.last(),
                    )
                    &&& final(m).block_references@.last().id@ == id@
                    &&& final(m).block_references@.last().source_block_id@ == source_block_id@
                    &&& final(m).block_references@.last().target_block_id@ == target_block_id@
                },
                Err(_) => final(m).block_references@ == old(m).block_references@,
            },
    {
        if find_br(&m.block_references, id).is_some() {
            return Err(
                Error::Conflict(new_strlit_string("a block reference with this id already exists")),
            );
        }
        let created_at = now_timestamp();
        let params: Vec<SqlValue> = vec![
            SqlValue::Text(id.clone()),
            SqlValue::Text(source_block_id.clone()),
            SqlValue::Text(target_block_id.clone()),
            SqlValue::Integer(created_at),
        ];
        m.db.exec(
            "INSERT INTO block_references (id, source_block_id, target_block_id, created_at) VALUES (?1, ?2, ?3, ?4)",
            &params,
        )?;
        m.block_references.push(
            BlockReference {
                id: id.clone(),
                source_block_id: source_block_id.clone(),
                target_block_id: target_block_id.clone(),
                created_at,
            },
        );
        Ok(())
    }

    /// The ids of the blocks that reference this block, in table order.
    pub fn get_referencing_blocks(m: &DatabaseManager, block_id: &String) -> (r: Result<
        Vec<String>,
        Error,
    >)
        requires
            m.wf(),
        ensures
            match r {
                Ok(v) => v@ == br_sources_of(m.block_references@, block_id@),
                Err(_) => false,
            },
    {
        let mut out: Vec<String> = Vec::new();
        let mut i: usize = 0;
        while i < m.block_references.len()
            invariant
                i <= m.block_references@.len(),
                out@ == br_sources_of(m.block_references@.subrange(0, i as int), block_id@),
            decreases m.block_references@.len() - i,
        {
            if m.block_references[i].target_block_id == *block_id {
                out.push(m.block_references[i].source_block_id.clone());
            }
            proof {
                let pre = m.block_references@.subrange(0, i as int);
                let cur = m.block_references@.subrange(0, i as int + 1);
                assert(cur.drop_last() =~= pre);
                assert(cur.last() == m.block_references@[i as int]);
            }
            i += 1;
        }
        proof {
            assert(m.block_references@.subrange(0, m.block_references@.len() as int)
                =~= m.block_references@);
        }
        Ok(out)
    }

    /// The ids of the blocks this block references, in table order.
    pub fn get_referenced_blocks(m: &DatabaseManager, block_id: &String) -> (r: Result<
        Vec<String>,
        Error,
    >)
        requires
            m.wf(),
        ensures
            match r {
                Ok(v) => v@ == br_targets_of(m.block_references@, block_id@),
                Err(_) => false,
            },
    {
        let mut out: Vec<String> = Vec::new();
        let mut i: usize = 0;
        while i < m.block_references.len()
            invariant
                i <= m.block_references@.len(),
                out@ == br_targets_of(m.block_references@.subrange(0, i as int), block_id@),
            decreases m.block_references@.len() - i,
        {
            if m.block_references[i].source_block_id == *block_id {
                out.push(m.block_references[i].target_block_id.clone());
            }
            proof {
                let pre = m.block_references@.subrange(0, i as int);
                let cur = m.block_references@.subrange(0, i as int + 1);
                assert(cur.drop_last() =~= pre);
                assert(cur.last() == m.block_references@[i as int]);
            }
            i += 1;
        }
        proof {
            assert(m.block_references@.subrange(0, m.block_references@.len() as int)
                =~= m.block_references@);
        }
        Ok(out)
    }

    /// Removes every reference of one (source, target) pair.
    pub fn delete(m: &mut DatabaseManager, source_block_id: &String, target_block_id: &String)
        -> (r: Result<(), Error>)
        requires
            old(m).wf(),
        ensures
            r is Err ==> (r matches Err(Error::Database(_))),
            final(m).wf(),
            same_except_block_references(*old(m), *final(m)),
            match r {
                Ok(_) => final(m).block_references@ == br_without_pair(
                    old(m).block_references@,
                    source_block_id@,
                    target_block_id@,
                ),
                Err(_) => final(m).block_references@ == old(m).block_references@,
            },
    {
        let params: Vec<SqlValue> = vec![
            SqlValue::Text(source_block_id.clone()),
            SqlValue::Text(target_block_id.clone()),
        ];
        m.db.exec(
            "DELETE FROM block_references WHERE source_block_id = ?1 AND target_block_id = ?2",
            &params,
        )?;
        let mut out: Vec<BlockReference> = Vec::new();
        let mut i: usize = 0;
        while i < m.block_references.len()
            invariant
                i <= m.block_references@.len(),
                m.block_references@ == old(m).block_references@,
                out@ == br_without_pair(
                    m.block_references@.subrange(0, i as int),
                    source_block_id@,
                    target_block_id@,
                ),
            decreases m.block_references@.len() - i,
        {
            let row = &m.block_references[i];
            if !(row.source_block_id == *source_block_id && row.target_block_id
                == *target_block_id) {
                out.push(row.clone());
            }
            proof {
                let pre = m.block_references@.subrange(0, i as int);
                let cur = m.block_references@.subrange(0, i as int + 1);
                assert(cur.drop_last() =~= pre);
                assert(cur.last() == m.block_references@[i as int]);
            }
            i += 1;
        }
        proof {
            assert(m.block_references@.subrange(0, m.block_references@.len() as int)
                =~= m.block_references@);
        }
        m.block_references = out;
        proof {
            lemma_br_without_pair(old(m).block_references@, source_block_id@, target_block_id@);
        }
        Ok(())
    }

    /// Removes every reference leaving one block.
    pub fn delete_references_from(m: &mut DatabaseManager, block_id: &String) -> (r: Result<
        (),
        Error,
    >)
        requires
            old(m).wf(),
        ensures
            r is Err ==> (r matches Err(Error::Database(_))),
            final(m).wf(),
            same_except_block_references(*old(m), *final(m)),
            match r {
                Ok(_) => final(m).block_references@ == br_without_source(
                    old(m).block_references@,
                    block_id@,
                ),
                Err(_) => final(m).block_references@ == old(m).block_references@,
            },
    {
        let params: Vec<SqlValue> = vec![SqlValue::Text(block_id.clone())];
        m.db.exec("DELETE FROM block_references WHERE source_block_id = ?1", &params)?;
        let mut out: Vec<BlockReference> = Vec::new();
        let mut i: usize = 0;
        while i < m.block_references.len()
            invariant
                i <= m.block_references@.len(),
                m.block_references@ == old(m).block_references@,
                out@ == br_without_source(m.block_references@.subrange(0, i as int), block_id@),
            decreases m.block_references@.len() - i,
        {
            if !(m.block_references[i].source_block_id == *block_id) {
                out.push(m.block_references[i].clone());
            }
            proof {
                let pre = m.block_references@.subrange(0, i as int);
                let cur = m.block_references@.subrange(0, i as int + 1);
                assert(cur.drop_last() =~= pre);
                assert(cur.last() == m.block_references@[i as int]);
            }
            i += 1;
        }
        proof {
            assert(m.block_references@.subrange(0, m.block_references@.len() as int)
                =~= m.block_references@);
        }
        m.block_references = out;
        proof {
            lemma_br_without_source(old(m).block_references@, block_id@);
        }
        Ok(())
    }

    /// Removes every reference arriving at one block.
    pub fn delete_references_to(m: &mut DatabaseManager, block_id: &String) -> (r: Result<
        (),
        Error,
    >)
        requires
            old(m).wf(),
        ensures
            r is Err ==> (r matches Err(Error::Database(_))),
            final(m).wf(),
            same_except_block_references(*old(m), *final(m)),
            match r {
                Ok(_) => final(m).block_references@ == br_without_target(
                    old(m).block_references@,
                    block_id@,
                ),
                Err(_) => final(m).block_references@ == old(m).block_references@,
            },
    {
        let params: Vec<SqlValue> = vec![SqlValue::Text(block_id.clone())];
        m.db.exec("DELETE FROM block_references WHERE target_block_id = ?1", &params)?;
        let mut out: Vec<BlockReference> = Vec::new();
        let mut i: usize = 0;
        while i < m.block_references.len()
            invariant
                i <= m.block_references@.len(),
                m.block_references@ == old(m).block_references@,
                out@ == br_without_target(m.block_references@.subrange(0, i as int), block_id@),
            decreases m.block_references@.len() - i,
        {
            if !(m.block_references[i].target_block_id == *block_id) {
                out.push(m.block_references[i].clone());
            }
            proof {
                let pre = m.block_references@.subrange(0, i as int);
                let cur = m.block_references@.subrange(0, i as int + 1);
                assert(cur.drop_last() =~= pre);
                assert(cur.last() == m.block_references@[i as int]);
            }
            i += 1;
        }
        proof {
            assert(m.block_references@.subrange(0, m.block_references@.len() as int)
                =~= m.block_references@);
        }
        m.block_references = out;
        proof {
            lemma_br_without_target(old(m).block_references@, block_id@);
        }
        Ok(())
    }
}

/// The row holds exactly this record, column for column in table order.
pub open spec fn row_is_note(row: Seq<SqlValue>, x: Note) -> bool {
    &&& row.len() == 8
    &&& row[0] == SqlValue::Text(x.id)
    &&& row[1] == SqlValue::Text(x.title)
    &&& row[2] == SqlValue::Text(x.content_path)
    &&& row[3] == SqlValue::Integer(x.created_at)
    &&& row[4] == SqlValue::Integer(x.updated_at)
    &&& row[5] == SqlValue::Integer(x.word_count)
    &&& (match row[6] {
        SqlValue::Integer(b) => x.is_deleted == (b != 0),
        _ => false,
    })
    &&& row[7] == (match x.deleted_at {
        Some(t) => SqlValue::Integer(t),
        None => SqlValue::Null,
    })
}

/// Appends one parsed record per row, in row order; a malformed or
/// duplicate row fails the load with `Storage`.
pub(crate) fn load_notes(v: &mut Vec<Note>, rows: &Vec<Vec<SqlValue>>) -> (r: Result<(), Error>)
    requires
        notes_unique(old(v)@),
    ensures
        notes_unique(final(v)@),
        r is Err ==> (r matches Err(Error::Storage(_))),
        match r {
            Ok(_) => {
                &&& final(v)@.len() == old(v)@.len() + rows@.len()
                &&& forall|k: int| 0 <= k < old(v)@.len() ==> #[trigger] final(v)@[k] == old(v)@[k]
                &&& forall|k: int|
                    0 <= k < rows@.len() ==> row_is_note(
                        (#[trigger] rows@[k])@,
                        final(v)@[old(v)@.len() + k],
                    )
            },
            Err(_) => true,
        },
{
    let mut i: usize = 0;
    while i < rows.len()
        invariant
            notes_unique(v@),
            i <= rows@.len(),
            v@.len() == old(v)@.len() + i,
            forall|k: int| 0 <= k < old(v)@.len() ==> #[trigger] v@[k] == old(v)@[k],
            forall|k: int|
                0 <= k < i ==> row_is_note((#[trigger] rows@[k])@, v@[old(v)@.len() + k]),
        decreases rows@.len() - i,
    {
        match row_to_note(&rows[i]) {
            Some(x) => {
                if find_note(v, &x.id).is_some() {
                    return Err(Error::Storage(new_strlit_string("duplicate note id in store")));
                }
                v.push(x);
            },
            None => {
                return Err(Error::Storage(new_strlit_string("malformed note row in store")));
            },
        }
        i += 1;
    }
    Ok(())
}

/// The row holds exactly this record, column for column in table order.
pub open spec fn row_is_tag(row: Seq<SqlValue>, x: Tag) -> bool {
    &&& row.len() == 5
    &&& row[0] == SqlValue::Text(x.id)
    &&& row[1] == SqlValue::Text(x.name)
    &&& row[2] == (match x.color {
        Some(t) => SqlValue::Text(t),
        None => SqlValue::Null,
    })
    &&& row[3] == (match x.icon {
        Some(t) => SqlValue::Text(t),
        None => SqlValue::Null,
    })
    &&& row[4] == SqlValue::Integer(x.created_at)
}

/// Appends one parsed record per row, in row order; a malformed or
/// duplicate row fails the load with `Storage`.
pub(crate) fn load_tags(v: &mut Vec<Tag>, rows: &Vec<Vec<SqlValue>>) -> (r: Result<(), Error>)
    requires
        tags_unique(old(v)@),
    ensures
        tags_unique(final(v)@),
        r is Err ==> (r matches Err(Error::Storage(_))),
        match r {
            Ok(_) => {
                &&& final(v)@.len() == old(v)@.len() + rows@.len()
                &&& forall|k: int| 0 <= k < old(v)@.len() ==> #[trigger] final(v)@[k] == old(v)@[k]
                &&& forall|k: int|
                    0 <= k < rows@.len() ==> row_is_tag(
                        (#[trigger] rows@[k])@,
                        final(v)@[old(v)@.len() + k],
                    )
            },
            Err(_) => true,
        },
{
    let mut i: usize = 0;
    while i < rows.len()
        invariant
            tags_unique(v@),
            i <= rows@.len(),
            v@.len() == old(v)@.len() + i,
            forall|k: int| 0 <= k < old(v)@.len() ==> #[trigger] v@[k] == old(v)@[k],
            forall|k: int|
                0 <= k < i ==> row_is_tag((#[trigger] rows@[k])@, v@[old(v)@.len() + k]),
        decreases rows@.len() - i,
    {
        match row_to_tag(&rows[i]) {
            Some(x) => {
                if find_tag(v, &x.id).is_some() || find_tag_by_name(v, &x.name).is_some() {
                    return Err(Error::Storage(new_strlit_string("duplicate tag in store")));
                }
                v.push(x);
            },
            None => {
                return Err(Error::Storage(new_strlit_string("malformed tag row in store")));
            },
        }
        i += 1;
    }
    Ok(())
}

/// The row holds exactly this record, column for column in table order.
pub open spec fn row_is_block(row: Seq<SqlValue>, x: Block) -> bool {
    &&& row.len() == 9
    &&& row[0] == SqlValue::Text(x.id)
    &&& row[1] == SqlValue::Text(x.note_id)
    &&& row[2] == SqlValue::Text(x.block_type)
    &&& row[3] == SqlValue::Text(x.content)
    &&& row[4] == SqlValue::Integer(x.position)
    &&& row[5] == SqlValue::Integer(x.created_at)
    &&& row[6] == SqlValue::Integer(x.updated_at)
    &&& (match row[7] {
        SqlValue::Integer(b) => x.is_deleted == (b != 0),
        _ => false,
    })
    &&& row[8] == (match x.deleted_at {
        Some(t) => SqlValue::Integer(t),
        None => SqlValue::Null,
    })
}

/// Appends one parsed record per row, in row order; a malformed or
/// duplicate row fails the load with `Storage`.
pub(crate) fn load_blocks(v: &mut Vec<Block>, rows: &Vec<Vec<SqlValue>>) -> (r: Result<(), Error>)
    requires
        blocks_unique(old(v)@),
    ensures
        blocks_unique(final(v)@),
        r is Err ==> (r matches Err(Error::Storage(_))),
        match r {
            Ok(_) => {
                &&& final(v)@.len() == old(v)@.len() + rows@.len()
                &&& forall|k: int| 0 <= k < old(v)@.len() ==> #[trigger] final(v)@[k] == old(v)@[k]
                &&& forall|k: int|
                    0 <= k < rows@.len() ==> row_is_block(
                        (#[trigger] rows@[k])@,
                        final(v)@[old(v)@.len() + k],
                    )
            },
            Err(_) => true,
        },
{
    let mut i: usize = 0;
    while i < rows.len()
        invariant
            blocks_unique(v@),
            i <= rows@.len(),
            v@.len() == old(v)@.len() + i,
            forall|k: int| 0 <= k < old(v)@.len() ==> #[trigger] v@[k] == old(v)@[k],
            forall|k: int|
                0 <= k < i ==> row_is_block((#[trigger] rows@[k])@, v@[old(v)@.len() + k]),
        decreases rows@.len() - i,
    {
        match row_to_block(&rows[i]) {
            Some(x) => {
                if find_block(v, &x.id).is_some() {
                    return Err(Error::Storage(new_strlit_string("duplicate block id in store")));
                }
                v.push(x);
            },
            None => {
                return Err(Error::Storage(new_strlit_string("malformed block row in store")));
            },
        }
        i += 1;
    }
    Ok(())
}

/// The row holds exactly this record, column for column in table order.
pub open spec fn row_is_folder(row: Seq<SqlValue>, x: Folder) -> bool {
    &&& row.len() == 7
    &&& row[0] == SqlValue::Text(x.id)
    &&& row[1] == SqlValue::Text(x.name)
    &&& row[2] == (match x.parent_id {
        Some(t) => SqlValue::Text(t),
        None => SqlValue::Null,
    })
    &&& row[3] == SqlValue::Text(x.path)
    &&& row[4] == SqlValue::Integer(x.created_at)
    &&& row[5] == SqlValue::Integer(x.updated_at)
    &&& row[6] == SqlValue::Integer(x.position)
}

/// Appends one parsed record per row, in row order; a malformed or
/// duplicate row fails the load with `Storage`.
pub(crate) fn load_folders(v: &mut Vec<Folder>, rows: &Vec<Vec<SqlValue>>) -> (r: Result<(), Error>)
    requires
        folders_unique(old(v)@),
    ensures
        folders_unique(final(v)@),
        r is Err ==> (r matches Err(Error::Storage(_))),
        match r {
            Ok(_) => {
                &&& final(v)@.len() == old(v)@.len() + rows@.len()
                &&& forall|k: int| 0 <= k < old(v)@.len() ==> #[trigger] final(v)@[k] == old(v)@[k]
                &&& forall|k: int|
                    0 <= k < rows@.len() ==> row_is_folder(
                        (#[trigger] rows@[k])@,
                        final(v)@[old(v)@.len() + k],
                    )
            },
            Err(_) => true,
        },
{
    let mut i: usize = 0;
    while i < rows.len()
        invariant
            folders_unique(v@),
            i <= rows@.len(),
            v@.len() == old(v)@.len() + i,
            forall|k: int| 0 <= k < old(v)@.len() ==> #[trigger] v@[k] == old(v)@[k],
            forall|k: int|
                0 <= k < i ==> row_is_folder((#[trigger] rows@[k])@, v@[old(v)@.len() + k]),
        decreases rows@.len() - i,
    {
        match row_to_folder(&rows[i]) {
            Some(x) => {
                if find_folder(v, &x.id).is_some() {
                    return Err(Error::Storage(new_strlit_string("duplicate folder id in store")));
                }
                v.push(x);
            },
            None => {
                return Err(Error::Storage(new_strlit_string("malformed folder row in store")));
            },
        }
        i += 1;
    }
    Ok(())
}

/// The row holds exactly this record, column for column in table order.
pub open spec fn row_is_link(row: Seq<SqlValue>, x: Link) -> bool {
    &&& row.len() == 8
    &&& row[0] == SqlValue::Text(x.id)
    &&& row[1] == SqlValue::Text(x.source_note_id)
    &&& row[2] == (match x.target_note_id {
        Some(t) => SqlValue::Text(t),
        None => SqlValue::Null,
    })
    &&& row[3] == (match x.source_block_id {
        Some(t) => SqlValue::Text(t),
        None => SqlValue::Null,
    })
    &&& row[4] == (match x.target_block_id {
        Some(t) => SqlValue::Text(t),
        None => SqlValue::Null,
    })
    &&& row[5] == SqlValue::Text(x.link_type)
    &&& row[6] == (match x.link_text {
        Some(t) => SqlValue::Text(t),
        None => SqlValue::Null,
    })
    &&& row[7] == SqlValue::Integer(x.created_at)
}

/// Appends one parsed record per row, in row order; a malformed or
/// duplicate row fails the load with `Storage`.
pub(crate) fn load_links(v: &mut Vec<Link>, rows: &Vec<Vec<SqlValue>>) -> (r: Result<(), Error>)
    requires
        links_unique(old(v)@),
    ensures
        links_unique(final(v)@),
        r is Err ==> (r matches Err(Error::Storage(_))),
        match r {
            Ok(_) => {
                &&& final(v)@.len() == old(v)@.len() + rows@.len()
                &&& forall|k: int| 0 <= k < old(v)@.len() ==> #[trigger] final(v)@[k] == old(v)@[k]
                &&& forall|k: int|
                    0 <= k < rows@.len() ==> row_is_link(
                        (#[trigger] rows@[k])@,
                        final(v)@[old(v)@.len() + k],
                    )
            },
            Err(_) => true,
        },
{
    let mut i: usize = 0;
    while i < rows.len()
        invariant
            links_unique(v@),
            i <= rows@.len(),
            v@.len() == old(v)@.len() + i,
            forall|k: int| 0 <= k < old(v)@.len() ==> #[trigger] v@[k] == old(v)@[k],
            forall|k: int|
                0 <= k < i ==> row_is_link((#[trigger] rows@[k])@, v@[old(v)@.len() + k]),
        decreases rows@.len() - i,
    {
        match row_to_link(&rows[i]) {
            Some(x) => {
                if find_link(v, &x.id).is_some() {
                    return Err(Error::Storage(new_strlit_string("duplicate link id in store")));
                }
                v.push(x);
            },
            None => {
                return Err(Error::Storage(new_strlit_string("malformed link row in store")));
            },
        }
        i += 1;
    }
    Ok(())
}

/// The row holds exactly this record, column for column in table order.
pub open spec fn row_is_attachment(row: Seq<SqlValue>, x: Attachment) -> bool {
    &&& row.len() == 11
    &&& row[0] == SqlValue::Text(x.id)
    &&& row[1] == SqlValue::Text(x.file_name)
    &&& row[2] == SqlValue::Text(x.file_path)
    &&& row[3] == SqlValue::Text(x.file_type)
    &&& row[4] == SqlValue::Text(x.mime_type)
    &&& row[5] == SqlValue::Integer(x.file_size)
    &&& row[6] == (match x.width {
        Some(t) => SqlValue::Integer(t as i64),
        None => SqlValue::Null,
    })
    &&& row[7] == (match x.height {
        Some(t) => SqlValue::Integer(t as i64),
        None => SqlValue::Null,
    })
    &&& row[8] == SqlValue::Text(x.hash)
    &&& row[9] == SqlValue::Integer(x.created_at)
    &&& row[10] == SqlValue::Integer(x.updated_at)
}

/// Appends one parsed record per row, in row order; a malformed or
/// duplicate row fails the load with `Storage`.
pub(crate) fn load_attachments(v: &mut Vec<Attachment>, rows: &Vec<Vec<SqlValue>>) -> (r: Result<(), Error>)
    requires
        attachments_unique(old(v)@),
    ensures
        attachments_unique(final(v)@),
        r is Err ==> (r matches Err(Error::Storage(_))),
        match r {
            Ok(_) => {
                &&& final(v)@.len() == old(v)@.len() + rows@.len()
                &&& forall|k: int| 0 <= k < old(v)@.len() ==> #[trigger] final(v)@[k] == old(v)@[k]
                &&& forall|k: int|
                    0 <= k < rows@.len() ==> row_is_attachment(
                        (#[trigger] rows@[k])@,
                        final(v)@[old(v)@.len() + k],
                    )
            },
            Err(_) => true,
        },
{
    let mut i: usize = 0;
    while i < rows.len()
        invariant
            attachments_unique(v@),
            i <= rows@.len(),
            v@.len() == old(v)@.len() + i,
            forall|k: int| 0 <= k < old(v)@.len() ==> #[trigger] v@[k] == old(v)@[k],
            forall|k: int|
                0 <= k < i ==> row_is_attachment((#[trigger] rows@[k])@, v@[old(v)@.len() + k]),
        decreases rows@.len() - i,
    {
        match row_to_attachment(&rows[i]) {
            Some(x) => {
                if find_attachment(v, &x.id).is_some() || find_attachment_by_hash(v, &x.hash).is_some() {
                    return Err(Error::Storage(new_strlit_string("duplicate attachment in store")));
                }
                v.push(x);
            },
            None => {
                return Err(Error::Storage(new_strlit_string("malformed attachment row in store")));
            },
        }
        i += 1;
    }
    Ok(())
}

/// The row holds exactly this record, column for column in table order.
pub open spec fn row_is_note_folder(row: Seq<SqlValue>, x: NoteFolder) -> bool {
    &&& row.len() == 5
    &&& row[0] == SqlValue::Text(x.note_id)
    &&& row[1] == SqlValue::Text(x.folder_id)
    &&& (match row[2] {
        SqlValue::Integer(b) => x.is_primary == (b != 0),
        _ => false,
    })
    &&& row[3] == SqlValue::Integer(x.position)
    &&& row[4] == SqlValue::Integer(x.created_at)
}

/// Appends one parsed record per row, in row order; a malformed or
/// duplicate row fails the load with `Storage`.
pub(crate) fn load_note_folders(v: &mut Vec<NoteFolder>, rows: &Vec<Vec<SqlValue>>) -> (r: Result<(), Error>)
    requires
        note_folders_unique(old(v)@),
        primary_exclusive(old(v)@),
    ensures
        note_folders_unique(final(v)@),
        primary_exclusive(final(v)@),
        r is Err ==> (r matches Err(Error::Storage(_))),
        match r {
            Ok(_) => {
                &&& final(v)@.len() == old(v)@.len() + rows@.len()
                &&& forall|k: int| 0 <= k < old(v)@.len() ==> #[trigger] final(v)@[k] == old(v)@[k]
                &&& forall|k: int|
                    0 <= k < rows@.len() ==> row_is_note_folder(
                        (#[trigger] rows@[k])@,
                        final(v)@[old(v)@.len() + k],
                    )
            },
            Err(_) => true,
        },
{
    let mut i: usize = 0;
    while i < rows.len()
        invariant
            note_folders_unique(v@),
            primary_exclusive(v@),
            i <= rows@.len(),
            v@.len() == old(v)@.len() + i,
            forall|k: int| 0 <= k < old(v)@.len() ==> #[trigger] v@[k] == old(v)@[k],
            forall|k: int|
                0 <= k < i ==> row_is_note_folder((#[trigger] rows@[k])@, v@[old(v)@.len() + k]),
        decreases rows@.len() - i,
    {
        match row_to_note_folder(&rows[i]) {
            Some(x) => {
                if find_nf(v, &x.note_id, &x.folder_id).is_some() || (x.is_primary && find_primary_nf(v, &x.note_id).is_some()) {
                    return Err(Error::Storage(new_strlit_string("duplicate or doubly primary folder membership in store")));
                }
                v.push(x);
            },
            None => {
                return Err(Error::Storage(new_strlit_string("malformed folder membership in store")));
            },
        }
        i += 1;
    }
    Ok(())
}

/// The row holds exactly this record, column for column in table order.
pub open spec fn row_is_note_tag(row: Seq<SqlValue>, x: NoteTag) -> bool {
    &&& row.len() == 3
    &&& row[0] == SqlValue::Text(x.note_id)
    &&& row[1] == SqlValue::Text(x.tag_id)
    &&& row[2] == SqlValue::Integer(x.created_at)
}

/// Appends one parsed record per row, in row order; a malformed or
/// duplicate row fails the load with `Storage`.
pub(crate) fn load_note_tags(v: &mut Vec<NoteTag>, rows: &Vec<Vec<SqlValue>>) -> (r: Result<(), Error>)
    requires
        note_tags_unique(old(v)@),
    ensures
        note_tags_unique(final(v)@),
        r is Err ==> (r matches Err(Error::Storage(_))),
        match r {
            Ok(_) => {
                &&& final(v)@.len() == old(v)@.len() + rows@.len()
                &&& forall|k: int| 0 <= k < old(v)@.len() ==> #[trigger] final(v)@[k] == old(v)@[k]
                &&& forall|k: int|
                    0 <= k < rows@.len() ==> row_is_note_tag(
                        (#[trigger] rows@[k])@,
                        final(v)@[old(v)@.len() + k],
                    )
            },
            Err(_) => true,
        },
{
    let mut i: usize = 0;
    while i < rows.len()
        invariant
            note_tags_unique(v@),
            i <= rows@.len(),
            v@.len() == old(v)@.len() + i,
            forall|k: int| 0 <= k < old(v)@.len() ==> #[trigger] v@[k] == old(v)@[k],
            forall|k: int|
                0 <= k < i ==> row_is_note_tag((#[trigger] rows@[k])@, v@[old(v)@.len() + k]),
        decreases rows@.len() - i,
    {
        match row_to_note_tag(&rows[i]) {
            Some(x) => {
                if find_nt(v, &x.note_id, &x.tag_id).is_some() {
                    return Err(Error::Storage(new_strlit_string("duplicate tag membership in store")));
                }
                v.push(x);
            },
            None => {
                return Err(Error::Storage(new_strlit_string("malformed tag membership in store")));
            },
        }
        i += 1;
    }
    Ok(())
}

/// The row holds exactly this record, column for column in table order.
pub open spec fn row_is_note_attachment(row: Seq<SqlValue>, x: NoteAttachment) -> bool {
    &&& row.len() == 4
    &&& row[0] == SqlValue::Text(x.note_id)
    &&& row[1] == SqlValue::Text(x.attachment_id)
    &&& row[2] == SqlValue::Integer(x.position)
    &&& row[3] == SqlValue::Integer(x.created_at)
}

/// Appends one parsed record per row, in row order; a malformed or
/// duplicate row fails the load with `Storage`.
pub(crate) fn load_note_attachments(v: &mut Vec<NoteAttachment>, rows: &Vec<Vec<SqlValue>>) -> (r: Result<(), Error>)
    requires
        note_attachments_unique(old(v)@),
    ensures
        note_attachments_unique(final(v)@),
        r is Err ==> (r matches Err(Error::Storage(_))),
        match r {
            Ok(_) => {
                &&& final(v)@.len() == old(v)@.len() + rows@.len()
                &&& forall|k: int| 0 <= k < old(v)@.len() ==> #[trigger] final(v)@[k] == old(v)@[k]
                &&& forall|k: int|
                    0 <= k < rows@.len() ==> row_is_note_attachment(
                        (#[trigger] rows@[k])@,
                        final(v)@[old(v)@.len() + k],
                    )
            },
            Err(_) => true,
        },
{
    let mut i: usize = 0;
    while i < rows.len()
        invariant
            note_attachments_unique(v@),
            i <= rows@.len(),
            v@.len() == old(v)@.len() + i,
            forall|k: int| 0 <= k < old(v)@.len() ==> #[trigger] v@[k] == old(v)@[k],
            forall|k: int|
                0 <= k < i ==> row_is_note_attachment((#[trigger] rows@[k])@, v@[old(v)@.len() + k]),
        decreases rows@.len() - i,
    {
        match row_to_note_attachment(&rows[i]) {
            Some(x) => {
                if find_na(v, &x.note_id, &x.attachment_id).is_some() {
                    return Err(Error::Storage(new_strlit_string("duplicate attachment membership in store")));
                }
                v.push(x);
            },
            None => {
                return Err(Error::Storage(new_strlit_string("malformed attachment membership in store")));
            },
        }
        i += 1;
    }
    Ok(())
}

/// The row holds exactly this record, column for column in table order.
pub open spec fn row_is_block_attachment(row: Seq<SqlValue>, x: BlockAttachment) -> bool {
    &&& row.len() == 3
    &&& row[0] == SqlValue::Text(x.block_id)
    &&& row[1] == SqlValue::Text(x.attachment_id)
    &&& row[2] == SqlValue::Integer(x.created_at)
}

/// Appends one parsed record per row, in row order; a malformed or
/// duplicate row fails the load with `Storage`.
pub(crate) fn load_block_attachments(v: &mut Vec<BlockAttachment>, rows: &Vec<Vec<SqlValue>>) -> (r: Result<(), Error>)
    requires
        block_attachments_unique(old(v)@),
    ensures
        block_attachments_unique(final(v)@),
        r is Err ==> (r matches Err(Error::Storage(_))),
        match r {
            Ok(_) => {
                &&& final(v)@.len() == old(v)@.len() + rows@.len()
                &&& forall|k: int| 0 <= k < old(v)@.len() ==> #[trigger] final(v)@[k] == old(v)@[k]
                &&& forall|k: int|
                    0 <= k < rows@.len() ==> row_is_block_attachment(
                        (#[trigger] rows@[k])@,
                        final(v)@[old(v)@.len() + k],
                    )
            },
            Err(_) => true,
        },
{
    let mut i: usize = 0;
    while i < rows.len()
        invariant
            block_attachments_unique(v@),
            i <= rows@.len(),
            v@.len() == old(v)@.len() + i,
            forall|k: int| 0 <= k < old(v)@.len() ==> #[trigger] v@[k] == old(v)@[k],
            forall|k: int|
                0 <= k < i ==> row_is_block_attachment((#[trigger] rows@[k])@, v@[old(v)@.len() + k]),
        decreases rows@.len() - i,
    {
        match row_to_block_attachment(&rows[i]) {
            Some(x) => {
                if find_ba(v, &x.block_id, &x.attachment_id).is_some() {
                    return Err(Error::Storage(new_strlit_string("duplicate block attachment membership in store")));
                }
                v.push(x);
            },
            None => {
                return Err(Error::Storage(new_strlit_string("malformed block attachment membership in store")));
            },
        }
        i += 1;
    }
    Ok(())
}

/// The row holds exactly this record, column for column in table order.
pub open spec fn row_is_block_reference(row: Seq<SqlValue>, x: BlockReference) -> bool {
    &&& row.len() == 4
    &&& row[0] == SqlValue::Text(x.id)
    &&& row[1] == SqlValue::Text(x.source_block_id)
    &&& row[2] == SqlValue::Text(x.target_block_id)
    &&& row[3] == SqlValue::Integer(x.created_at)
}

/// Appends one parsed record per row, in row order; a malformed or
/// duplicate row fails the load with `Storage`.
pub(crate) fn load_block_references(v: &mut Vec<BlockReference>, rows: &Vec<Vec<SqlValue>>) -> (r: Result<(), Error>)
    requires
        block_references_unique(old(v)@),
    ensures
        block_references_unique(final(v)@),
        r is Err ==> (r matches Err(Error::Storage(_))),
        match r {
            Ok(_) => {
                &&& final(v)@.len() == old(v)@.len() + rows@.len()
                &&& forall|k: int| 0 <= k < old(v)@.len() ==> #[trigger] final(v)@[k] == old(v)@[k]
                &&& forall|k: int|
                    0 <= k < rows@.len() ==> row_is_block_reference(
                        (#[trigger] rows@[k])@,
                        final(v)@[old(v)@.len() + k],
                    )
            },
            Err(_) => true,
        },
{
    let mut i: usize = 0;
    while i < rows.len()
        invariant
            block_references_unique(v@),
            i <= rows@.len(),
            v@.len() == old(v)@.len() + i,
            forall|k: int| 0 <= k < old(v)@.len() ==> #[trigger] v@[k] == old(v)@[k],
            forall|k: int|
                0 <= k < i ==> row_is_block_reference((#[trigger] rows@[k])@, v@[old(v)@.len() + k]),
        decreases rows@.len() - i,
    {
        match row_to_block_reference(&rows[i]) {
            Some(x) => {
                if find_br(v, &x.id).is_some() {
                    return Err(Error::Storage(new_strlit_string("duplicate block reference in store")));
                }
                v.push(x);
            },
            None => {
                return Err(Error::Storage(new_strlit_string("malformed block reference in store")));
            },
        }
        i += 1;
    }
    Ok(())
}

/// Loads the model from what the mirror's base tables already hold, so
/// a reopened store answers reads exactly as it did before it was
/// closed: each table receives exactly one record per queried row, as
/// the per-table loaders state, and a malformed or duplicate row fails
/// the load with `Storage`.
pub fn hydrate(m: &mut DatabaseManager) -> (r: Result<(), Error>)
    requires
        old(m).wf(),
    ensures
        final(m).wf(),
        r is Err ==> (r matches Err(Error::Database(_)) || r matches Err(Error::Storage(_))),
{
    let no_params: Vec<String> = Vec::new();
    let note_rows = m.db.query(
        "SELECT id, title, content_path, created_at, updated_at, word_count, is_deleted, deleted_at FROM notes",
        &no_params,
    )?;
    load_notes(&mut m.notes, &note_rows)?;
    let tag_rows = m.db.query("SELECT id, name, color, icon, created_at FROM tags", &no_params)?;
    load_tags(&mut m.tags, &tag_rows)?;
    let block_rows = m.db.query(
        "SELECT id, note_id, block_type, content, position, created_at, updated_at, is_deleted, deleted_at FROM blocks",
        &no_params,
    )?;
    load_blocks(&mut m.blocks, &block_rows)?;
    let folder_rows = m.db.query(
        "SELECT id, name, parent_id, path, created_at, updated_at, position FROM folders",
        &no_params,
    )?;
    load_folders(&mut m.folders, &folder_rows)?;
    let link_rows = m.db.query(
        "SELECT id, source_note_id, target_note_id, source_block_id, target_block_id, link_type, link_text, created_at FROM links",
        &no_params,
    )?;
    load_links(&mut m.links, &link_rows)?;
    let att_rows = m.db.query(
        "SELECT id, file_name, file_path, file_type, mime_type, file_size, width, height, hash, created_at, updated_at FROM attachments",
        &no_params,
    )?;
    load_attachments(&mut m.attachments, &att_rows)?;
    let nf_rows = m.db.query(
        "SELECT note_id, folder_id, is_primary, position, created_at FROM note_folders",
        &no_params,
    )?;
    load_note_folders(&mut m.note_folders, &nf_rows)?;
    let nt_rows = m.db.query("SELECT note_id, tag_id, created_at FROM note_tags", &no_params)?;
    load_note_tags(&mut m.note_tags, &nt_rows)?;
    let na_rows = m.db.query(
        "SELECT note_id, attachment_id, position, created_at FROM note_attachments",
        &no_params,
    )?;
    load_note_attachments(&mut m.note_attachments, &na_rows)?;
    let ba_rows = m.db.query(
        "SELECT block_id, attachment_id, created_at FROM block_attachments",
        &no_params,
    )?;
    load_block_attachments(&mut m.block_attachments, &ba_rows)?;
    let br_rows = m.db.query(
        "SELECT id, source_block_id, target_block_id, created_at FROM block_references",
        &no_params,
    )?;
    load_block_references(&mut m.block_references, &br_rows)?;
    Ok(())
}

/// The first row marking a primary folder for this note, if any.
pub(crate) fn find_primary_nf(v: &Vec<NoteFolder>, note: &String) -> (r: Option<usize>)
    ensures
        match r {
            Some(i) => i < v@.len() && v@[i as int].note_id@ == note@ && v@[i as int].is_primary,
            None => forall|j: int|
                0 <= j < v@.len() ==> !((#[trigger] v@[j]).note_id@ == note@ && v@[j].is_primary),
        },
{
    let mut i: usize = 0;
    while i < v.len()
        invariant
            i <= v@.len(),
            forall|j: int|
                0 <= j < i ==> !((#[trigger] v@[j]).note_id@ == note@ && v@[j].is_primary),
        decreases v@.len() - i,
    {
        if v[i].note_id == *note && v[i].is_primary {
            return Some(i);
        }
        i += 1;
    }
    None
}

/// Positional row-to-record mapping for blocks.
fn row_to_block(row: &Vec<SqlValue>) -> (r: Option<Block>)
    ensures
        match r {
            Some(x) => row_is_block(row@, x),
            None => forall|x: Block| !row_is_block(row@, x),
        },
{
    if row.len() != 9 {
        return None;
    }
    let id = match sv_text(&row[0]) {
        Some(s) => s,
        None => {
            return None;
        },
    };
    let note_id = match sv_text(&row[1]) {
        Some(s) => s,
        None => {
            return None;
        },
    };
    let block_type = match sv_text(&row[2]) {
        Some(s) => s,
        None => {
            return None;
        },
    };
    let content = match sv_text(&row[3]) {
        Some(s) => s,
        None => {
            return None;
        },
    };
    let position = match sv_int(&row[4]) {
        Some(n) => n,
        None => {
            return None;
        },
    };
    let created_at = match sv_int(&row[5]) {
        Some(n) => n,
        None => {
            return None;
        },
    };
    let updated_at = match sv_int(&row[6]) {
        Some(n) => n,
        None => {
            return None;
        },
    };
    let is_deleted = match sv_bool(&row[7]) {
        Some(b) => b,
        None => {
            return None;
        },
    };
    let deleted_at = match sv_opt_int(&row[8]) {
        Some(o) => o,
        None => {
            return None;
        },
    };
    Some(
        Block {
            id,
            note_id,
            block_type,
            content,
            position,
            created_at,
            updated_at,
            is_deleted,
            deleted_at,
        },
    )
}

/// Positional row-to-record mapping for folders.
fn row_to_folder(row: &Vec<SqlValue>) -> (r: Option<Folder>)
    ensures
        match r {
            Some(x) => row_is_folder(row@, x),
            None => forall|x: Folder| !row_is_folder(row@, x),
        },
{
    if row.len() != 7 {
        return None;
    }
    let id = match sv_text(&row[0]) {
        Some(s) => s,
        None => {
            return None;
        },
    };
    let name = match sv_text(&row[1]) {
        Some(s) => s,
        None => {
            return None;
        },
    };
    let parent_id = match sv_opt_text(&row[2]) {
        Some(o) => o,
        None => {
            return None;
        },
    };
    let path = match sv_text(&row[3]) {
        Some(s) => s,
        None => {
            return None;
        },
    };
    let created_at = match sv_int(&row[4]) {
        Some(n) => n,
        None => {
            return None;
        },
    };
    let updated_at = match sv_int(&row[5]) {
        Some(n) => n,
        None => {
            return None;
        },
    };
    let position = match sv_int(&row[6]) {
        Some(n) => n,
        None => {
            return None;
        },
    };
    Some(Folder { id, name, parent_id, path, created_at, updated_at, position })
}

/// Positional row-to-record mapping for links.
fn row_to_link(row: &Vec<SqlValue>) -> (r: Option<Link>)
    ensures
        match r {
            Some(x) => row_is_link(row@, x),
            None => forall|x: Link| !row_is_link(row@, x),
        },
{
    if row.len() != 8 {
        return None;
    }
    let id = match sv_text(&row[0]) {
        Some(s) => s,
        None => {
            return None;
        },
    };
    let source_note_id = match sv_text(&row[1]) {
        Some(s) => s,
        None => {
            return None;
        },
    };
    let target_note_id = match sv_opt_text(&row[2]) {
        Some(o) => o,
        None => {
            return None;
        },
    };
    let source_block_id = match sv_opt_text(&row[3]) {
        Some(o) => o,
        None => {
            return None;
        },
    };
    let target_block_id = match sv_opt_text(&row[4]) {
        Some(o) => o,
        None => {
            return None;
        },
    };
    let link_type = match sv_text(&row[5]) {
        Some(s) => s,
        None => {
            return None;
        },
    };
    let link_text = match sv_opt_text(&row[6]) {
        Some(o) => o,
        None => {
            return None;
        },
    };
    let created_at = match sv_int(&row[7]) {
        Some(n) => n,
        None => {
            return None;
        },
    };
    Some(
        Link {
            id,
            source_note_id,
            target_note_id,
            source_block_id,
            target_block_id,
            link_type,
            link_text,
            created_at,
        },
    )
}

/// A stored optional integer narrowed to the 32-bit range.
fn sv_opt_i32(v: &SqlValue) -> (r: Option<Option<i32>>)
    ensures
        r == (match *v {
            SqlValue::Integer(n) => if -2147483648 <= n && n <= 2147483647 {
                Some(Some(n as i32))
            } else {
                None::<Option<i32>>
            },
            SqlValue::Null => Some(None::<i32>),
            _ => None::<Option<i32>>,
        }),
{
    match v {
        SqlValue::Integer(n) => {
            if *n >= -2147483648 && *n <= 2147483647 {
                Some(Some(*n as i32))
            } else {
                None
            }
        },
        SqlValue::Null => Some(None),
        _ => None,
    }
}

/// Positional row-to-record mapping for attachments.
fn row_to_attachment(row: &Vec<SqlValue>) -> (r: Option<Attachment>)
    ensures
        match r {
            Some(x) => row_is_attachment(row@, x),
            None => forall|x: Attachment| !row_is_attachment(row@, x),
        },
{
    if row.len() != 11 {
        return None;
    }
    let id = match sv_text(&row[0]) {
        Some(s) => s,
        None => {
            return None;
        },
    };
    let file_name = match sv_text(&row[1]) {
        Some(s) => s,
        None => {
            return None;
        },
    };
    let file_path = match sv_text(&row[2]) {
        Some(s) => s,
        None => {
            return None;
        },
    };
    let file_type = match sv_text(&row[3]) {
        Some(s) => s,
        None => {
            return None;
        },
    };
    let mime_type = match sv_text(&row[4]) {
        Some(s) => s,
        None => {
            return None;
        },
    };
    let file_size = match sv_int(&row[5]) {
        Some(n) => n,
        None => {
            return None;
        },
    };
    let width = match sv_opt_i32(&row[6]) {
        Some(o) => o,
        None => {
            return None;
        },
    };
    let height = match sv_opt_i32(&row[7]) {
        Some(o) => o,
        None => {
            return None;
        },
    };
    let hash = match sv_text(&row[8]) {
        Some(s) => s,
        None => {
            return None;
        },
    };
    let created_at = match sv_int(&row[9]) {
        Some(n) => n,
        None => {
            return None;
        },
    };
    let updated_at = match sv_int(&row[10]) {
        Some(n) => n,
        None => {
            return None;
        },
    };
    Some(
        Attachment {
            id,
            file_name,
            file_path,
            file_type,
            mime_type,
            file_size,
            width,
            height,
            hash,
            created_at,
            updated_at,
        },
    )
}

/// Positional row-to-record mapping for folder memberships.
fn row_to_note_folder(row: &Vec<SqlValue>) -> (r: Option<NoteFolder>)
    ensures
        match r {
            Some(x) => row_is_note_folder(row@, x),
            None => forall|x: NoteFolder| !row_is_note_folder(row@, x),
        },
{
    if row.len() != 5 {
        return None;
    }
    let note_id = match sv_text(&row[0]) {
        Some(s) => s,
        None => {
            return None;
        },
    };
    let folder_id = match sv_text(&row[1]) {
        Some(s) => s,
        None => {
            return None;
        },
    };
    let is_primary = match sv_bool(&row[2]) {
        Some(b) => b,
        None => {
            return None;
        },
    };
    let position = match sv_int(&row[3]) {
        Some(n) => n,
        None => {
            return None;
        },
    };
    let created_at = match sv_int(&row[4]) {
        Some(n) => n,
        None => {
            return None;
        },
    };
    Some(NoteFolder { note_id, folder_id, is_primary, position, created_at })
}

/// Positional row-to-record mapping for tag memberships.
fn row_to_note_tag(row: &Vec<SqlValue>) -> (r: Option<NoteTag>)
    ensures
        match r {
            Some(x) => row_is_note_tag(row@, x),
            None => forall|x: NoteTag| !row_is_note_tag(row@, x),
        },
{
    if row.len() != 3 {
        return None;
    }
    let note_id = match sv_text(&row[0]) {
        Some(s) => s,
        None => {
            return None;
        },
    };
    let tag_id = match sv_text(&row[1]) {
        Some(s) => s,
        None => {
            return None;
        },
    };
    let created_at = match sv_int(&row[2]) {
        Some(n) => n,
        None => {
            return None;
        },
    };
    Some(NoteTag { note_id, tag_id, created_at })
}

/// Positional row-to-record mapping for attachment memberships.
fn row_to_note_attachment(row: &Vec<SqlValue>) -> (r: Option<NoteAttachment>)
    ensures
        match r {
            Some(x) => row_is_note_attachment(row@, x),
            None => forall|x: NoteAttachment| !row_is_note_attachment(row@, x),
        },
{
    if row.len() != 4 {
        return None;
    }
    let note_id = match sv_text(&row[0]) {
        Some(s) => s,
        None => {
            return None;
        },
    };
    let attachment_id = match sv_text(&row[1]) {
        Some(s) => s,
        None => {
            return None;
        },
    };
    let position = match sv_int(&row[2]) {
        Some(n) => n,
        None => {
            return None;
        },
    };
    let created_at = match sv_int(&row[3]) {
        Some(n) => n,
        None => {
            return None;
        },
    };
    Some(NoteAttachment { note_id, attachment_id, position, created_at })
}

/// Positional row-to-record mapping for block attachment memberships.
fn row_to_block_attachment(row: &Vec<SqlValue>) -> (r: Option<BlockAttachment>)
    ensures
        match r {
            Some(x) => row_is_block_attachment(row@, x),
            None => forall|x: BlockAttachment| !row_is_block_attachment(row@, x),
        },
{
    if row.len() != 3 {
        return None;
    }
    let block_id = match sv_text(&row[0]) {
        Some(s) => s,
        None => {
            return None;
        },
    };
    let attachment_id = match sv_text(&row[1]) {
        Some(s) => s,
        None => {
            return None;
        },
    };
    let created_at = match sv_int(&row[2]) {
        Some(n) => n,
        None => {
            return None;
        },
    };
    Some(BlockAttachment { block_id, attachment_id, created_at })
}

/// Positional row-to-record mapping for block references.
fn row_to_block_reference(row: &Vec<SqlValue>) -> (r: Option<BlockReference>)
    ensures
        match r {
            Some(x) => row_is_block_reference(row@, x),
            None => forall|x: BlockReference| !row_is_block_reference(row@, x),
        },
{
    if row.len() != 4 {
        return None;
    }
    let id = match sv_text(&row[0]) {
        Some(s) => s,
        None => {
            return None;
        },
    };
    let source_block_id = match sv_text(&row[1]) {
        Some(s) => s,
        None => {
            return None;
        },
    };
    let target_block_id = match sv_text(&row[2]) {
        Some(s) => s,
        None => {
            return None;
        },
    };
    let created_at = match sv_int(&row[3]) {
        Some(n) => n,
        None => {
            return None;
        },
    };
    Some(BlockReference { id, source_block_id, target_block_id, created_at })
}

/// Positional row-to-record mapping for notes; the column order matches
/// the table definition.
fn row_to_note(row: &Vec<SqlValue>) -> (r: Option<Note>)
    ensures
        match r {
            Some(x) => row_is_note(row@, x),
            None => forall|x: Note| !row_is_note(row@, x),
        },
{
    if row.len() != 8 {
        return None;
    }
    let id = match sv_text(&row[0]) {
        Some(s) => s,
        None => {
            return None;
        },
    };
    let title = match sv_text(&row[1]) {
        Some(s) => s,
        None => {
            return None;
        },
    };
    let content_path = match sv_text(&row[2]) {
        Some(s) => s,
        None => {
            return None;
        },
    };
    let created_at = match sv_int(&row[3]) {
        Some(n) => n,
        None => {
            return None;
        },
    };
    let updated_at = match sv_int(&row[4]) {
        Some(n) => n,
        None => {
            return None;
        },
    };
    let word_count = match sv_int(&row[5]) {
        Some(n) => n,
        None => {
            return None;
        },
    };
    let is_deleted = match sv_bool(&row[6]) {
        Some(b) => b,
        None => {
            return None;
        },
    };
    let deleted_at = match sv_opt_int(&row[7]) {
        Some(o) => o,
        None => {
            return None;
        },
    };
    Some(
        Note {
            id,
            title,
            content_path,
            created_at,
            updated_at,
            word_count,
            is_deleted,
            deleted_at,
        },
    )
}

/// Positional row-to-record mapping for tags.
fn row_to_tag(row: &Vec<SqlValue>) -> (r: Option<Tag>)
    ensures
        match r {
            Some(x) => row_is_tag(row@, x),
            None => forall|x: Tag| !row_is_tag(row@, x),
        },
{
    if row.len() != 5 {
        return None;
    }
    let id = match sv_text(&row[0]) {
        Some(s) => s,
        None => {
            return None;
        },
    };
    let name = match sv_text(&row[1]) {
        Some(s) => s,
        None => {
            return None;
        },
    };
    let color = match sv_opt_text(&row[2]) {
        Some(o) => o,
        None => {
            return None;
        },
    };
    let icon = match sv_opt_text(&row[3]) {
        Some(o) => o,
        None => {
            return None;
        },
    };
    let created_at = match sv_int(&row[4]) {
        Some(n) => n,
        None => {
            return None;
        },
    };
    Some(Tag { id, name, color, icon, created_at })
}

} // verus!
