//! Relation access: membership, ordering and primary-selection within the
//! many-to-many junction tables.
//!
//! As in the entity layer, every mutation goes to the SQLite mirror first
//! and to the in-memory model second, and preserves the store invariant —
//! in particular that a note has at most one primary folder.

use vstd::prelude::*;

use crate::clock::now_timestamp;
use crate::db::{Db, SqlValue};
use crate::db_manager::{
    block_attachments_unique, note_attachments_unique, note_folders_unique, note_tags_unique,
    primary_exclusive, DatabaseManager,
};
use crate::error::Error;
use crate::models::{new_strlit_string, BlockAttachment, NoteAttachment, NoteFolder, NoteTag};
use crate::sorting::{sort_note_folders_by_position, sort_note_folders_primary_first};

verus! {

// ---------------------------------------------------------------------
// Mirror transaction helpers.
// ---------------------------------------------------------------------
pub(crate) fn db_begin(db: &mut Db) -> (r: Result<(), Error>)
    ensures
        r is Err ==> (r matches Err(Error::Database(_))),
{
    let no_params: Vec<SqlValue> = Vec::new();
    match db.exec("BEGIN", &no_params) {
        Ok(_) => Ok(()),
        Err(e) => Err(e),
    }
}

pub(crate) fn db_commit(db: &mut Db) -> (r: Result<(), Error>)
    ensures
        r is Err ==> (r matches Err(Error::Database(_))),
{
    let no_params: Vec<SqlValue> = Vec::new();
    match db.exec("COMMIT", &no_params) {
        Ok(_) => Ok(()),
        Err(e) => Err(e),
    }
}

/// Best-effort rollback on an error path; its own failure is ignored
/// because the original error is what the caller reports.
pub(crate) fn db_rollback(db: &mut Db) {
    let no_params: Vec<SqlValue> = Vec::new();
    match db.exec("ROLLBACK", &no_params) {
        _ => {},
    }
}

// ---------------------------------------------------------------------
// Note-folder membership.
// ---------------------------------------------------------------------
/// Some row names this (note, folder) pair.
pub open spec fn has_nf(s: Seq<NoteFolder>, note: Seq<char>, folder: Seq<char>) -> bool {
    exists|i: int|
        0 <= i < s.len() && (#[trigger] s[i]).note_id@ == note && s[i].folder_id@ == folder
}

/// The index of the row naming this pair.
pub open spec fn nf_at(s: Seq<NoteFolder>, note: Seq<char>, folder: Seq<char>) -> int {
    choose|i: int|
        0 <= i < s.len() && (#[trigger] s[i]).note_id@ == note && s[i].folder_id@ == folder
}

pub proof fn lemma_nf_at(s: Seq<NoteFolder>, note: Seq<char>, folder: Seq<char>, i: int)
    requires
        note_folders_unique(s),
        0 <= i < s.len(),
        s[i].note_id@ == note,
        s[i].folder_id@ == folder,
    ensures
        has_nf(s, note, folder),
        nf_at(s, note, folder) == i,
{
    assert(has_nf(s, note, folder));
    let k = nf_at(s, note, folder);
    if k < i {
        assert(!(s[k].note_id@ == s[i].note_id@ && s[k].folder_id@ == s[i].folder_id@));
    }
    if i < k {
        assert(!(s[i].note_id@ == s[k].note_id@ && s[i].folder_id@ == s[k].folder_id@));
    }
}

pub(crate) fn find_nf(v: &Vec<NoteFolder>, note: &String, folder: &String) -> (r: Option<usize>)
    ensures
        match r {
            Some(i) => i < v@.len() && v@[i as int].note_id@ == note@ && v@[i as int].folder_id@
                == folder@,
            None => !has_nf(v@, note@, folder@),
        },
{
    let mut i: usize = 0;
    while i < v.len()
        invariant
            i <= v@.len(),
            forall|j: int|
                0 <= j < i ==> !((#[trigger] v@[j]).note_id@ == note@ && v@[j].folder_id@
                    == folder@),
        decreases v@.len() - i,
    {
        if v[i].note_id == *note && v[i].folder_id == *folder {
            return Some(i);
        }
        i += 1;
    }
    None
}

/// The rows of one note, in table order.
pub open spec fn nf_of_note(s: Seq<NoteFolder>, note: Seq<char>) -> Seq<NoteFolder>
    decreases s.len(),
{
    if s.len() == 0 {
        Seq::empty()
    } else {
        let rest = nf_of_note(s.drop_last(), note);
        if s.last().note_id@ == note {
            rest.push(s.last())
        } else {
            rest
        }
    }
}

/// The rows of one folder, in table order.
pub open spec fn nf_of_folder(s: Seq<NoteFolder>, folder: Seq<char>) -> Seq<NoteFolder>
    decreases s.len(),
{
    if s.len() == 0 {
        Seq::empty()
    } else {
        let rest = nf_of_folder(s.drop_last(), folder);
        if s.last().folder_id@ == folder {
            rest.push(s.last())
        } else {
            rest
        }
    }
}

/// The table with every row of one folder gone.
pub open spec fn nf_without_folder(s: Seq<NoteFolder>, folder: Seq<char>) -> Seq<NoteFolder>
    decreases s.len(),
{
    if s.len() == 0 {
        Seq::empty()
    } else {
        let rest = nf_without_folder(s.drop_last(), folder);
        if s.last().folder_id@ == folder {
            rest
        } else {
            rest.push(s.last())
        }
    }
}

/// The table with the primary mark cleared on every row of one note.
pub open spec fn nf_clear_primary(s: Seq<NoteFolder>, note: Seq<char>) -> Seq<NoteFolder>
    decreases s.len(),
{
    if s.len() == 0 {
        Seq::empty()
    } else {
        let rest = nf_clear_primary(s.drop_last(), note);
        if s.last().note_id@ == note {
            rest.push((NoteFolder { is_primary: false, ..s.last() }))
        } else {
            rest.push(s.last())
        }
    }
}

/// Clearing the primary mark rewrites each row in place.
pub proof fn lemma_nf_clear_primary(s: Seq<NoteFolder>, note: Seq<char>)
    ensures
        nf_clear_primary(s, note).len() == s.len(),
        forall|i: int|
            0 <= i < s.len() ==> nf_clear_primary(s, note)[i] == (if (#[trigger] s[i]).note_id@
                == note {
                (NoteFolder { is_primary: false, ..s[i] })
            } else {
                s[i]
            }),
    decreases s.len(),
{
    if s.len() > 0 {
        let pre = s.drop_last();
        lemma_nf_clear_primary(pre, note);
        let r = nf_clear_primary(s, note);
        let rp = nf_clear_primary(pre, note);
        assert forall|i: int| 0 <= i < s.len() implies r[i] == (if (#[trigger] s[i]).note_id@
            == note {
            (NoteFolder { is_primary: false, ..s[i] })
        } else {
            s[i]
        }) by {
            if i < s.len() - 1 {
                assert(r[i] == rp[i]);
                assert(pre[i] == s[i]);
            } else {
                assert(s[i] == s.last());
            }
        }
    }
}

/// Clearing the primary marks of one note keeps the store invariant.
pub proof fn lemma_nf_clear_primary_wf(s: Seq<NoteFolder>, note: Seq<char>)
    requires
        note_folders_unique(s),
        primary_exclusive(s),
    ensures
        note_folders_unique(nf_clear_primary(s, note)),
        primary_exclusive(nf_clear_primary(s, note)),
{
    lemma_nf_clear_primary(s, note);
    let c = nf_clear_primary(s, note);
    assert forall|p: int, q: int| 0 <= p < q < c.len() implies !((#[trigger] c[p]).note_id@ == (
    #[trigger] c[q]).note_id@ && c[p].folder_id@ == c[q].folder_id@) && ((c[p].note_id@
        == c[q].note_id@) ==> !(c[p].is_primary && c[q].is_primary)) by {
        assert(c[p].note_id@ == s[p].note_id@ && c[p].folder_id@ == s[p].folder_id@);
        assert(c[q].note_id@ == s[q].note_id@ && c[q].folder_id@ == s[q].folder_id@);
        assert(!(s[p].note_id@ == s[q].note_id@ && s[p].folder_id@ == s[q].folder_id@));
        if c[p].note_id@ == c[q].note_id@ && c[p].is_primary && c[q].is_primary {
            assert(c[p].note_id@ != note && c[q].note_id@ != note);
            assert(s[p].is_primary && s[q].is_primary);
            assert(false);
        }
    }
}

/// Clearing the old primary and pushing a fresh pair keeps the store
/// invariant: the pushed row is then the note's only primary candidate.
pub proof fn lemma_nf_clear_push(s: Seq<NoteFolder>, note: Seq<char>, row: NoteFolder)
    requires
        note_folders_unique(s),
        primary_exclusive(s),
        row.note_id@ == note,
        !has_nf(s, note, row.folder_id@),
    ensures
        note_folders_unique(nf_clear_primary(s, note).push(row)),
        primary_exclusive(nf_clear_primary(s, note).push(row)),
{
    lemma_nf_clear_primary(s, note);
    let c = nf_clear_primary(s, note);
    let r = c.push(row);
    assert forall|p: int, q: int| 0 <= p < q < r.len() implies !((#[trigger] r[p]).note_id@ == (
    #[trigger] r[q]).note_id@ && r[p].folder_id@ == r[q].folder_id@) && ((r[p].note_id@
        == r[q].note_id@) ==> !(r[p].is_primary && r[q].is_primary)) by {
        if q == r.len() - 1 {
            assert(r[q] == row);
            assert(r[p] == c[p]);
            assert(r[p].note_id@ == s[p].note_id@ && r[p].folder_id@ == s[p].folder_id@);
            assert(!(s[p].note_id@ == note && s[p].folder_id@ == row.folder_id@));
            if r[p].note_id@ == note {
                assert(!r[p].is_primary);
            }
        } else {
            assert(r[p] == c[p] && r[q] == c[q]);
            assert(r[p].note_id@ == s[p].note_id@ && r[p].folder_id@ == s[p].folder_id@);
            assert(r[q].note_id@ == s[q].note_id@ && r[q].folder_id@ == s[q].folder_id@);
            assert(!(s[p].note_id@ == s[q].note_id@ && s[p].folder_id@ == s[q].folder_id@));
            if r[p].note_id@ == r[q].note_id@ && r[p].is_primary && r[q].is_primary {
                assert(r[p].note_id@ != note && r[q].note_id@ != note);
                assert(s[p].is_primary && s[q].is_primary);
                assert(false);
            }
        }
    }
}

/// Clearing every primary of the note and then marking one of its own
/// rows keeps the store invariant.
pub proof fn lemma_nf_set_primary(s: Seq<NoteFolder>, note: Seq<char>, i: int)
    requires
        note_folders_unique(s),
        primary_exclusive(s),
        0 <= i < s.len(),
        s[i].note_id@ == note,
    ensures
        note_folders_unique(
            nf_clear_primary(s, note).update(
                i,
                (NoteFolder { is_primary: true, ..nf_clear_primary(s, note)[i] }),
            ),
        ),
        primary_exclusive(
            nf_clear_primary(s, note).update(
                i,
                (NoteFolder { is_primary: true, ..nf_clear_primary(s, note)[i] }),
            ),
        ),
{
    lemma_nf_clear_primary(s, note);
    let c = nf_clear_primary(s, note);
    let r = c.update(i, (NoteFolder { is_primary: true, ..c[i] }));
    assert forall|p: int, q: int| 0 <= p < q < r.len() implies !((#[trigger] r[p]).note_id@ == (
    #[trigger] r[q]).note_id@ && r[p].folder_id@ == r[q].folder_id@) && ((r[p].note_id@
        == r[q].note_id@) ==> !(r[p].is_primary && r[q].is_primary)) by {
        assert(r[p].note_id@ == s[p].note_id@ && r[p].folder_id@ == s[p].folder_id@);
        assert(r[q].note_id@ == s[q].note_id@ && r[q].folder_id@ == s[q].folder_id@);
        assert(!(s[p].note_id@ == s[q].note_id@ && s[p].folder_id@ == s[q].folder_id@));
        if r[p].note_id@ == r[q].note_id@ && r[p].is_primary && r[q].is_primary {
            if p != i && q != i {
                assert(r[p] == c[p] && r[q] == c[q]);
                assert(r[p].note_id@ != note && r[q].note_id@ != note);
                assert(s[p].is_primary && s[q].is_primary);
                assert(false);
            } else {
                if p == i {
                    assert(r[q] == c[q]);
                    assert(r[q].note_id@ == note);
                    assert(!c[q].is_primary);
                } else {
                    assert(r[p] == c[p]);
                    assert(r[p].note_id@ == note);
                    assert(!c[p].is_primary);
                }
                assert(false);
            }
        }
    }
}

/// Removing one folder's rows keeps the others in table order, keeps pair
/// uniqueness and the primary invariant, and leaves no row of that folder.
pub proof fn lemma_nf_without_folder(s: Seq<NoteFolder>, folder: Seq<char>)
    requires
        note_folders_unique(s),
        primary_exclusive(s),
    ensures
        note_folders_unique(nf_without_folder(s, folder)),
        primary_exclusive(nf_without_folder(s, folder)),
        forall|k: int|
            0 <= k < nf_without_folder(s, folder).len() ==> s.contains(
                #[trigger] nf_without_folder(s, folder)[k],
            ) && nf_without_folder(s, folder)[k].folder_id@ != folder,
    decreases s.len(),
{
    if s.len() > 0 {
        let pre = s.drop_last();
        assert(note_folders_unique(pre) && primary_exclusive(pre)) by {
            assert(forall|i: int| 0 <= i < pre.len() ==> pre[i] == s[i]);
        }
        lemma_nf_without_folder(pre, folder);
        let r = nf_without_folder(s, folder);
        let rp = nf_without_folder(pre, folder);
        assert(forall|k: int| 0 <= k < rp.len() ==> pre.contains(#[trigger] rp[k]) ==> s.contains(
            rp[k],
        ));
        if s.last().folder_id@ != folder {
            assert(r == rp.push(s.last()));
            assert forall|p: int, q: int| 0 <= p < q < r.len() implies !((
            #[trigger] r[p]).note_id@ == (#[trigger] r[q]).note_id@ && r[p].folder_id@
                == r[q].folder_id@) && ((r[p].note_id@ == r[q].note_id@) ==> !(r[p].is_primary
                && r[q].is_primary)) by {
                if q == r.len() - 1 {
                    assert(r[q] == s.last());
                    assert(pre.contains(rp[p]));
                    let w = choose|w: int| 0 <= w < pre.len() && pre[w] == rp[p];
                    assert(s[w] == rp[p]);
                    assert(!(s[w].note_id@ == s[s.len() - 1].note_id@ && s[w].folder_id@ == s[
                        s.len() - 1].folder_id@));
                    assert(s[w].note_id@ == s[s.len() - 1].note_id@ ==> !(s[w].is_primary && s[
                        s.len() - 1].is_primary));
                }
            }
        }
    }
}

/// Note-folder relation access.
pub struct NoteFolderDao;

impl NoteFolderDao {
    /// Adds a note to a folder. Fails with `Conflict`, changing nothing,
    /// when the pair already exists. When the new row is primary, the
    /// previous primary mark of that note is cleared in the same step, so
    /// the note keeps at most one primary folder.
    pub fn add(
        m: &mut DatabaseManager,
        note_id: &String,
        folder_id: &String,
        is_primary: bool,
        position: i64,
    ) -> (r: Result<(), Error>)
        requires
            old(m).wf(),
        ensures
            final(m).wf(),
            same_except_note_folders(*old(m), *final(m)),
            has_nf(old(m).note_folders@, note_id@, folder_id@) ==> (r matches Err(
                Error::Conflict(_),
            )),
            (!has_nf(old(m).note_folders@, note_id@, folder_id@) && r is Err) ==> (r matches Err(
                Error::Database(_),
            )),
            match r {
                Ok(_) => {
                    &&& !has_nf(old(m).note_folders@, note_id@, folder_id@)
                    &&& final(m).note_folders@.len() == old(m).note_folders@.len() + 1
                    &&& final(m).note_folders@ == (if is_primary {
                        nf_clear_primary(old(m).note_folders@, note_id@)
                    } else {
                        old(m).note_folders@
                    }).push(final(m).note_folders@.last())
                    &&& final(m).note_folders@.last().note_id@ == note_id@
                    &&& final(m).note_folders@.last().folder_id@ == folder_id@
                    &&& final(m).note_folders@.last().is_primary == is_primary
                    &&& final(m).note_folders@.last().position == position
                },
                Err(_) => final(m).note_folders@ == old(m).note_folders@,
            },
    {
        if find_nf(&m.note_folders, note_id, folder_id).is_some() {
            return Err(
                Error::Conflict(new_strlit_string("the note is already in this folder")),
            );
        }
        let created_at = now_timestamp();
        let row = NoteFolder {
            note_id: note_id.clone(),
            folder_id: folder_id.clone(),
            is_primary,
            position,
            created_at,
        };
        let ins: Vec<SqlValue> = vec![
            SqlValue::Text(note_id.clone()),
            SqlValue::Text(folder_id.clone()),
            crate::dao::bool_value(is_primary),
            SqlValue::Integer(position),
            SqlValue::Integer(created_at),
        ];
        if is_primary {
            db_begin(&mut m.db)?;
            let clr: Vec<SqlValue> = vec![SqlValue::Text(note_id.clone())];
            match m.db.exec("UPDATE note_folders SET is_primary = 0 WHERE note_id = ?1", &clr) {
                Ok(_) => {},
                Err(e) => {
                    db_rollback(&mut m.db);
                    return Err(e);
                },
            }
            match m.db.exec(
                "INSERT INTO note_folders (note_id, folder_id, is_primary, position, created_at) VALUES (?1, ?2, ?3, ?4, ?5)",
                &ins,
            ) {
                Ok(_) => {},
                Err(e) => {
                    db_rollback(&mut m.db);
                    return Err(e);
                },
            }
            db_commit(&mut m.db)?;
            let ghost before = m.note_folders@;
            clear_primary_rows(&mut m.note_folders, note_id);
            m.note_folders.push(row);
            proof {
                lemma_nf_clear_primary(before, note_id@);
                lemma_nf_clear_push(before, note_id@, m.note_folders@.last());
            }
            Ok(())
        } else {
            m.db.exec(
                "INSERT INTO note_folders (note_id, folder_id, is_primary, position, created_at) VALUES (?1, ?2, ?3, ?4, ?5)",
                &ins,
            )?;
            m.note_folders.push(row);
            Ok(())
        }
    }

    /// Removes a note from a folder; a missing pair changes nothing.
    pub fn remove(m: &mut DatabaseManager, note_id: &String, folder_id: &String) -> (r: Result<
        (),
        Error,
    >)
        requires
            old(m).wf(),
        ensures
            r is Err ==> (r matches Err(Error::Database(_))),
            final(m).wf(),
            same_except_note_folders(*old(m), *final(m)),
            match r {
                Ok(_) => final(m).note_folders@ == (if has_nf(
                    old(m).note_folders@,
                    note_id@,
                    folder_id@,
                ) {
                    old(m).note_folders@.remove(nf_at(old(m).note_folders@, note_id@, folder_id@))
                } else {
                    old(m).note_folders@
                }),
                Err(_) => final(m).note_folders@ == old(m).note_folders@,
            },
    {
        let params: Vec<SqlValue> = vec![
            SqlValue::Text(note_id.clone()),
            SqlValue::Text(folder_id.clone()),
        ];
        m.db.exec("DELETE FROM note_folders WHERE note_id = ?1 AND folder_id = ?2", &params)?;
        match find_nf(&m.note_folders, note_id, folder_id) {
            Some(i) => {
                proof {
                    lemma_nf_at(old(m).note_folders@, note_id@, folder_id@, i as int);
                }
                let ghost before = m.note_folders@;
                m.note_folders.remove(i);
                proof {
                    assert forall|p: int, q: int|
                        0 <= p < q < m.note_folders@.len() implies !((
                    #[trigger] m.note_folders@[p]).note_id@ == (
                    #[trigger] m.note_folders@[q]).note_id@ && m.note_folders@[p].folder_id@
                        == m.note_folders@[q].folder_id@) && ((m.note_folders@[p].note_id@
                        == m.note_folders@[q].note_id@) ==> !(m.note_folders@[p].is_primary
                        && m.note_folders@[q].is_primary)) by {
                        let p0 = if p < i as int { p } else { p + 1 };
                        let q0 = if q < i as int { q } else { q + 1 };
                        assert(m.note_folders@[p] == before[p0]);
                        assert(m.note_folders@[q] == before[q0]);
                    }
                }
                Ok(())
            },
            None => Ok(()),
        }
    }

    /// Makes `folder_id` the note's primary folder: clears the mark on
    /// every row of the note, then sets it on the named pair, both inside
    /// one mirror transaction so no intermediate state can persist. A
    /// missing pair just leaves the note with no primary folder.
    pub fn set_primary(m: &mut DatabaseManager, note_id: &String, folder_id: &String) -> (r:
        Result<(), Error>)
        requires
            old(m).wf(),
        ensures
            r is Err ==> (r matches Err(Error::Database(_))),
            final(m).wf(),
            same_except_note_folders(*old(m), *final(m)),
            match r {
                Ok(_) => final(m).note_folders@ == (if has_nf(
                    old(m).note_folders@,
                    note_id@,
                    folder_id@,
                ) {
                    nf_clear_primary(old(m).note_folders@, note_id@).update(
                        nf_at(old(m).note_folders@, note_id@, folder_id@),
                        (NoteFolder {
                            is_primary: true,
                            ..nf_clear_primary(old(m).note_folders@, note_id@)[nf_at(
                                old(m).note_folders@,
                                note_id@,
                                folder_id@,
                            )]
                        }),
                    )
                } else {
                    nf_clear_primary(old(m).note_folders@, note_id@)
                }),
                Err(_) => final(m).note_folders@ == old(m).note_folders@,
            },
    {
        db_begin(&mut m.db)?;
        let clr: Vec<SqlValue> = vec![SqlValue::Text(note_id.clone())];
        match m.db.exec("UPDATE note_folders SET is_primary = 0 WHERE note_id = ?1", &clr) {
            Ok(_) => {},
            Err(e) => {
                db_rollback(&mut m.db);
                return Err(e);
            },
        }
        let set_params: Vec<SqlValue> = vec![
            SqlValue::Text(note_id.clone()),
            SqlValue::Text(folder_id.clone()),
        ];
        match m.db.exec(
            "UPDATE note_folders SET is_primary = 1 WHERE note_id = ?1 AND folder_id = ?2",
            &set_params,
        ) {
            Ok(_) => {},
            Err(e) => {
                db_rollback(&mut m.db);
                return Err(e);
            },
        }
        db_commit(&mut m.db)?;
        let ghost before = m.note_folders@;
        clear_primary_rows(&mut m.note_folders, note_id);
        proof {
            lemma_nf_clear_primary(before, note_id@);
        }
        match find_nf(&m.note_folders, note_id, folder_id) {
            Some(i) => {
                proof {
                    lemma_nf_clear_primary(before, note_id@);
                    assert(before[i as int].note_id@ == note_id@ && before[i as int].folder_id@
                        == folder_id@);
                    lemma_nf_at(before, note_id@, folder_id@, i as int);
                }
                let ghost cleared = m.note_folders@;
                let mut row = m.note_folders[i].clone();
                row.is_primary = true;
                m.note_folders.remove(i);
                m.note_folders.insert(i, row);
                proof {
                    assert(m.note_folders@ =~= cleared.update(
                        i as int,
                        (NoteFolder { is_primary: true, ..cleared[i as int] }),
                    ));
                    lemma_nf_set_primary(before, note_id@, i as int);
                }
                Ok(())
            },
            None => {
                proof {
                    lemma_nf_clear_primary_wf(before, note_id@);
                }
                Ok(())
            },
        }
    }

    /// The note's folder memberships as (folder id, is primary, position),
    /// primary first, then by position. Folder ids are pairwise distinct
    /// and the length says every membership row contributes one entry, so
    /// each membership is reported exactly once.
    pub fn get_folders_for_note(m: &DatabaseManager, note_id: &String) -> (r: Result<
        Vec<(String, bool, i64)>,
        Error,
    >)
        requires
            m.wf(),
        ensures
            match r {
                Ok(v) => {
                    &&& v@.len() == nf_of_note(m.note_folders@, note_id@).len()
                    &&& forall|k: int|
                        0 <= k < v@.len() ==> has_nf(
                            m.note_folders@,
                            note_id@,
                            (#[trigger] v@[k]).0@,
                        ) && v@[k].1 == m.note_folders@[nf_at(m.note_folders@, note_id@, v@[k].0@)].is_primary
                            && v@[k].2 == m.note_folders@[nf_at(
                            m.note_folders@,
                            note_id@,
                            v@[k].0@,
                        )].position
                    &&& forall|k: int, l: int|
                        0 <= k < l < v@.len() ==> ((#[trigger] v@[k]).1 || !(#[trigger] v@[l]).1)
                            && ((v@[k].1 == v@[l].1) ==> v@[k].2 <= v@[l].2)
                    &&& forall|k: int, l: int|
                        0 <= k < l < v@.len() ==> (#[trigger] v@[k]).0@ != (#[trigger] v@[l]).0@
                },
                Err(_) => false,
            },
    {
        let rows = collect_nf_of_note(&m.note_folders, note_id);
        let ghost collected = rows@;
        let sorted = sort_note_folders_primary_first(rows);
        proof {
            lemma_nf_of_note_props(m.note_folders@, note_id@);
            lemma_nf_perm_props(collected, sorted@, m.note_folders@, note_id@);
            lemma_nf_perm_distinct(collected, sorted@);
        }
        let mut out: Vec<(String, bool, i64)> = Vec::new();
        let mut i: usize = 0;
        while i < sorted.len()
            invariant
                m.wf(),
                i <= sorted@.len(),
                out@.len() == i,
                forall|k: int|
                    0 <= k < i ==> (#[trigger] out@[k]).0@ == sorted@[k].folder_id@ && out@[k].1
                        == sorted@[k].is_primary && out@[k].2 == sorted@[k].position,
            decreases sorted@.len() - i,
        {
            let row = &sorted[i];
            out.push((row.folder_id.clone(), row.is_primary, row.position));
            i += 1;
        }
        proof {
            assert forall|k: int| 0 <= k < out@.len() implies has_nf(
                m.note_folders@,
                note_id@,
                (#[trigger] out@[k]).0@,
            ) && out@[k].1 == m.note_folders@[nf_at(m.note_folders@, note_id@, out@[k].0@)].is_primary
                && out@[k].2 == m.note_folders@[nf_at(m.note_folders@, note_id@, out@[k].0@)].position by {
                let row = sorted@[k];
                assert(m.note_folders@.contains(row) && row.note_id@ == note_id@);
                let w = choose|w: int|
                    0 <= w < m.note_folders@.len() && m.note_folders@[w] == row;
                lemma_nf_at(m.note_folders@, note_id@, row.folder_id@, w);
            }
        }
        Ok(out)
    }

    /// The ids of the notes in a folder, pairwise distinct, by ascending
    /// membership position; the length says every membership row
    /// contributes one entry.
    pub fn get_notes_in_folder(m: &DatabaseManager, folder_id: &String) -> (r: Result<
        Vec<String>,
        Error,
    >)
        requires
            m.wf(),
        ensures
            match r {
                Ok(v) => {
                    &&& v@.len() == nf_of_folder(m.note_folders@, folder_id@).len()
                    &&& forall|k: int|
                        0 <= k < v@.len() ==> has_nf(
                            m.note_folders@,
                            (#[trigger] v@[k])@,
                            folder_id@,
                        )
                    &&& forall|k: int, l: int|
                        0 <= k < l < v@.len() ==> (#[trigger] v@[k])@ != (#[trigger] v@[l])@
                    &&& forall|k: int, l: int|
                        0 <= k < l < v@.len() ==> m.note_folders@[nf_at(
                            m.note_folders@,
                            (#[trigger] v@[k])@,
                            folder_id@,
                        )].position <= m.note_folders@[nf_at(
                            m.note_folders@,
                            (#[trigger] v@[l])@,
                            folder_id@,
                        )].position
                },
                Err(_) => false,
            },
    {
        let rows = collect_nf_of_folder(&m.note_folders, folder_id);
        let ghost collected = rows@;
        let sorted = sort_note_folders_by_position(rows);
        proof {
            lemma_nf_of_folder_props(m.note_folders@, folder_id@);
            lemma_nf_perm_folder_props(collected, sorted@, m.note_folders@, folder_id@);
        }
        let mut out: Vec<String> = Vec::new();
        let mut i: usize = 0;
        while i < sorted.len()
            invariant
                m.wf(),
                i <= sorted@.len(),
                out@.len() == i,
                forall|k: int| 0 <= k < i ==> (#[trigger] out@[k])@ == sorted@[k].note_id@,
                forall|k: int|
                    0 <= k < sorted@.len() ==> m.note_folders@.contains(#[trigger] sorted@[k])
                        && sorted@[k].folder_id@ == folder_id@,
            decreases sorted@.len() - i,
        {
            out.push(sorted[i].note_id.clone());
            i += 1;
        }
        proof {
            assert forall|k: int| 0 <= k < out@.len() implies has_nf(
                m.note_folders@,
                (#[trigger] out@[k])@,
                folder_id@,
            ) && m.note_folders@[nf_at(m.note_folders@, out@[k]@, folder_id@)].position
                == sorted@[k].position by {
                let row = sorted@[k];
                let w = choose|w: int|
                    0 <= w < m.note_folders@.len() && m.note_folders@[w] == row;
                assert(m.note_folders@[w].note_id@ == out@[k]@ && m.note_folders@[w].folder_id@
                    == folder_id@);
                lemma_nf_at(m.note_folders@, out@[k]@, folder_id@, w);
            }
            lemma_nf_perm_distinct_notes(collected, sorted@);
            assert forall|k: int, l: int| 0 <= k < l < out@.len() implies (
            #[trigger] out@[k])@ != (#[trigger] out@[l])@ by {
                assert(sorted@[k].note_id@ != sorted@[l].note_id@);
            }
        }
        Ok(out)
    }

    /// Rewrites the position of one membership row; a missing pair changes
    /// nothing.
    pub fn update_position(
        m: &mut DatabaseManager,
        note_id: &String,
        folder_id: &String,
        position: i64,
    ) -> (r: Result<(), Error>)
        requires
            old(m).wf(),
        ensures
            r is Err ==> (r matches Err(Error::Database(_))),
            final(m).wf(),
            same_except_note_folders(*old(m), *final(m)),
            match r {
                Ok(_) => final(m).note_folders@ == (if has_nf(
                    old(m).note_folders@,
                    note_id@,
                    folder_id@,
                ) {
                    old(m).note_folders@.update(
                        nf_at(old(m).note_folders@, note_id@, folder_id@),
                        (NoteFolder {
                            position,
                            ..old(m).note_folders@[nf_at(
                                old(m).note_folders@,
                                note_id@,
                                folder_id@,
                            )]
                        }),
                    )
                } else {
                    old(m).note_folders@
                }),
                Err(_) => final(m).note_folders@ == old(m).note_folders@,
            },
    {
        let params: Vec<SqlValue> = vec![
            SqlValue::Text(note_id.clone()),
            SqlValue::Text(folder_id.clone()),
            SqlValue::Integer(position),
        ];
        m.db.exec(
            "UPDATE note_folders SET position = ?3 WHERE note_id = ?1 AND folder_id = ?2",
            &params,
        )?;
        match find_nf(&m.note_folders, note_id, folder_id) {
            Some(i) => {
                proof {
                    lemma_nf_at(old(m).note_folders@, note_id@, folder_id@, i as int);
                }
                let ghost before = m.note_folders@;
                let mut row = m.note_folders[i].clone();
                row.position = position;
                m.note_folders.remove(i);
                m.note_folders.insert(i, row);
                proof {
                    assert(m.note_folders@ =~= before.update(
                        i as int,
                        (NoteFolder { position, ..before[i as int] }),
                    ));
                    assert forall|p: int, q: int|
                        0 <= p < q < m.note_folders@.len() implies !((
                    #[trigger] m.note_folders@[p]).note_id@ == (
                    #[trigger] m.note_folders@[q]).note_id@ && m.note_folders@[p].folder_id@
                        == m.note_folders@[q].folder_id@) && ((m.note_folders@[p].note_id@
                        == m.note_folders@[q].note_id@) ==> !(m.note_folders@[p].is_primary
                        && m.note_folders@[q].is_primary)) by {
                        assert(m.note_folders@[p].note_id@ == before[p].note_id@
                            && m.note_folders@[p].folder_id@ == before[p].folder_id@
                            && m.note_folders@[p].is_primary == before[p].is_primary);
                        assert(m.note_folders@[q].note_id@ == before[q].note_id@
                            && m.note_folders@[q].folder_id@ == before[q].folder_id@
                            && m.note_folders@[q].is_primary == before[q].is_primary);
                    }
                }
                Ok(())
            },
            None => Ok(()),
        }
    }
}

/// Every row of `nf_of_note` is a table row of that note, and their pairs
/// are distinct.
pub proof fn lemma_nf_of_note_props(s: Seq<NoteFolder>, note: Seq<char>)
    requires
        note_folders_unique(s),
    ensures
        forall|k: int|
            0 <= k < nf_of_note(s, note).len() ==> s.contains(#[trigger] nf_of_note(s, note)[k])
                && nf_of_note(s, note)[k].note_id@ == note,
        forall|k: int, l: int|
            0 <= k < l < nf_of_note(s, note).len() ==> (#[trigger] nf_of_note(s, note)[k]).folder_id@
                != (#[trigger] nf_of_note(s, note)[l]).folder_id@,
    decreases s.len(),
{
    if s.len() > 0 {
        let pre = s.drop_last();
        assert(note_folders_unique(pre)) by {
            assert(forall|i: int| 0 <= i < pre.len() ==> pre[i] == s[i]);
        }
        lemma_nf_of_note_props(pre, note);
        let r = nf_of_note(s, note);
        let rp = nf_of_note(pre, note);
        if s.last().note_id@ == note {
            assert(r == rp.push(s.last()));
            assert forall|k: int, l: int| 0 <= k < l < r.len() implies (
            #[trigger] r[k]).folder_id@ != (#[trigger] r[l]).folder_id@ by {
                if l == r.len() - 1 {
                    assert(pre.contains(rp[k]));
                    let w = choose|w: int| 0 <= w < pre.len() && pre[w] == rp[k];
                    assert(s[w] == rp[k]);
                    assert(!(s[w].note_id@ == s[s.len() - 1].note_id@ && s[w].folder_id@ == s[
                        s.len() - 1].folder_id@));
                }
            }
        }
    }
}

/// Mirror of `lemma_nf_of_note_props` for a folder's rows: each is a
/// table row of that folder, and their note ids are pairwise distinct.
pub proof fn lemma_nf_of_folder_props(s: Seq<NoteFolder>, folder: Seq<char>)
    requires
        note_folders_unique(s),
    ensures
        forall|k: int|
            0 <= k < nf_of_folder(s, folder).len() ==> s.contains(
                #[trigger] nf_of_folder(s, folder)[k],
            ) && nf_of_folder(s, folder)[k].folder_id@ == folder,
        forall|k: int, l: int|
            0 <= k < l < nf_of_folder(s, folder).len() ==> (
            #[trigger] nf_of_folder(s, folder)[k]).note_id@ != (
            #[trigger] nf_of_folder(s, folder)[l]).note_id@,
    decreases s.len(),
{
    if s.len() > 0 {
        let pre = s.drop_last();
        assert(note_folders_unique(pre)) by {
            assert(forall|i: int| 0 <= i < pre.len() ==> pre[i] == s[i]);
        }
        lemma_nf_of_folder_props(pre, folder);
        let r = nf_of_folder(s, folder);
        let rp = nf_of_folder(pre, folder);
        assert forall|k: int| 0 <= k < r.len() implies s.contains(#[trigger] r[k]) && r[k].folder_id@
            == folder by {
            if s.last().folder_id@ == folder && k == r.len() - 1 {
                assert(r[k] == s.last());
                assert(s[s.len() - 1] == s.last());
            } else {
                assert(r[k] == rp[k]);
                assert(pre.contains(rp[k]));
                let w = choose|w: int| 0 <= w < pre.len() && pre[w] == rp[k];
                assert(s[w] == rp[k]);
            }
        }
        if s.last().folder_id@ == folder {
            assert(r == rp.push(s.last()));
            assert forall|k: int, l: int| 0 <= k < l < r.len() implies (
            #[trigger] r[k]).note_id@ != (#[trigger] r[l]).note_id@ by {
                if l == r.len() - 1 {
                    assert(pre.contains(rp[k]));
                    let w = choose|w: int| 0 <= w < pre.len() && pre[w] == rp[k];
                    assert(s[w] == rp[k]);
                    assert(!(s[w].note_id@ == s[s.len() - 1].note_id@ && s[w].folder_id@ == s[
                        s.len() - 1].folder_id@));
                }
            }
        }
    }
}

/// In a list of rows with pairwise-distinct note ids, every value occurs
/// at most once.
proof fn lemma_nf_distinct_note_count(a: Seq<NoteFolder>, x: NoteFolder)
    requires
        forall|k: int, l: int| 0 <= k < l < a.len() ==> (#[trigger] a[k]).note_id@ != (
        #[trigger] a[l]).note_id@,
    ensures
        a.to_multiset().count(x) <= 1,
{
    broadcast use vstd::seq_lib::group_to_multiset_ensures;

    if a.to_multiset().count(x) >= 2 {
        assert(a.to_multiset().contains(x));
        assert(a.contains(x));
        let w = choose|w: int| 0 <= w < a.len() && a[w] == x;
        let aa = a.remove(w);
        assert(aa.to_multiset() =~= a.to_multiset().remove(a[w]));
        assert(aa.to_multiset().count(x) >= 1);
        assert(aa.contains(x));
        let w2 = choose|w2: int| 0 <= w2 < aa.len() && aa[w2] == x;
        if w2 < w {
            assert(aa[w2] == a[w2]);
            assert(a[w2].note_id@ != a[w].note_id@);
        } else {
            assert(aa[w2] == a[w2 + 1]);
            assert(a[w].note_id@ != a[w2 + 1].note_id@);
        }
        assert(false);
    }
}

/// A permutation of rows with pairwise-distinct note ids keeps them
/// pairwise distinct.
pub proof fn lemma_nf_perm_distinct_notes(a: Seq<NoteFolder>, b: Seq<NoteFolder>)
    requires
        a.to_multiset() == b.to_multiset(),
        forall|k: int, l: int| 0 <= k < l < a.len() ==> (#[trigger] a[k]).note_id@ != (
        #[trigger] a[l]).note_id@,
    ensures
        forall|k: int, l: int| 0 <= k < l < b.len() ==> (#[trigger] b[k]).note_id@ != (
        #[trigger] b[l]).note_id@,
{
    broadcast use vstd::seq_lib::group_to_multiset_ensures;

    assert forall|k: int, l: int| 0 <= k < l < b.len() implies (#[trigger] b[k]).note_id@ != (
    #[trigger] b[l]).note_id@ by {
        if b[k] == b[l] {
            let bb = b.remove(k);
            assert(bb[l - 1] == b[l]);
            assert(bb.contains(b[l]));
            assert(bb.to_multiset().count(b[l]) > 0);
            assert(b.to_multiset().count(b[l]) >= 2) by {
                assert(b.remove(k).to_multiset() =~= b.to_multiset().remove(b[k]));
            }
            assert(a.to_multiset().count(b[l]) >= 2);
            lemma_nf_distinct_note_count(a, b[l]);
            assert(false);
        } else {
            assert(b.to_multiset().contains(b[k]));
            assert(b.to_multiset().contains(b[l]));
            assert(a.contains(b[k]));
            assert(a.contains(b[l]));
            let w1 = choose|w: int| 0 <= w < a.len() && a[w] == b[k];
            let w2 = choose|w: int| 0 <= w < a.len() && a[w] == b[l];
            if w1 < w2 {
                assert(a[w1].note_id@ != a[w2].note_id@);
            }
            if w2 < w1 {
                assert(a[w2].note_id@ != a[w1].note_id@);
            }
            if w1 == w2 {
                assert(b[k] == b[l]);
            }
        }
    }
}

/// Every table row of the folder appears among its collected rows.
pub proof fn lemma_nf_of_folder_complete(s: Seq<NoteFolder>, folder: Seq<char>, w: int)
    requires
        0 <= w < s.len(),
        s[w].folder_id@ == folder,
    ensures
        nf_of_folder(s, folder).contains(s[w]),
    decreases s.len(),
{
    let r = nf_of_folder(s, folder);
    if w == s.len() - 1 {
        assert(s.last() == s[w]);
        assert(r == nf_of_folder(s.drop_last(), folder).push(s.last()));
        assert(r[r.len() - 1] == s[w]);
    } else {
        let pre = s.drop_last();
        assert(pre[w] == s[w]);
        lemma_nf_of_folder_complete(pre, folder, w);
        let rp = nf_of_folder(pre, folder);
        let idx = choose|k: int| 0 <= k < rp.len() && rp[k] == s[w];
        if s.last().folder_id@ == folder {
            assert(r == rp.push(s.last()));
            assert(r[idx] == s[w]);
        } else {
            assert(r == rp);
            assert(r[idx] == s[w]);
        }
    }
}

/// A permutation of a note's rows keeps membership and per-pair facts.
pub proof fn lemma_nf_perm_props(
    a: Seq<NoteFolder>,
    b: Seq<NoteFolder>,
    s: Seq<NoteFolder>,
    note: Seq<char>,
)
    requires
        a.to_multiset() == b.to_multiset(),
        forall|k: int| 0 <= k < a.len() ==> s.contains(#[trigger] a[k]) && a[k].note_id@ == note,
    ensures
        b.len() == a.len(),
        forall|k: int| 0 <= k < b.len() ==> s.contains(#[trigger] b[k]) && b[k].note_id@ == note,
{
    broadcast use vstd::seq_lib::group_to_multiset_ensures;

    assert(a.to_multiset().len() == a.len());
    assert(b.to_multiset().len() == b.len());
    assert forall|k: int| 0 <= k < b.len() implies s.contains(#[trigger] b[k]) && b[k].note_id@
        == note by {
        assert(b.to_multiset().contains(b[k]));
        assert(a.to_multiset().contains(b[k]));
        assert(a.contains(b[k]));
        let w = choose|w: int| 0 <= w < a.len() && a[w] == b[k];
        assert(s.contains(a[w]));
    }
}

/// In a list of rows with pairwise-distinct folder ids, every value
/// occurs at most once.
proof fn lemma_nf_distinct_count(a: Seq<NoteFolder>, x: NoteFolder)
    requires
        forall|k: int, l: int| 0 <= k < l < a.len() ==> (#[trigger] a[k]).folder_id@ != (
        #[trigger] a[l]).folder_id@,
    ensures
        a.to_multiset().count(x) <= 1,
{
    broadcast use vstd::seq_lib::group_to_multiset_ensures;

    if a.to_multiset().count(x) >= 2 {
        assert(a.to_multiset().contains(x));
        assert(a.contains(x));
        let w = choose|w: int| 0 <= w < a.len() && a[w] == x;
        let aa = a.remove(w);
        assert(aa.to_multiset() =~= a.to_multiset().remove(a[w]));
        assert(aa.to_multiset().count(x) >= 1);
        assert(aa.contains(x));
        let w2 = choose|w2: int| 0 <= w2 < aa.len() && aa[w2] == x;
        if w2 < w {
            assert(aa[w2] == a[w2]);
            assert(a[w2].folder_id@ != a[w].folder_id@);
        } else {
            assert(aa[w2] == a[w2 + 1]);
            assert(a[w].folder_id@ != a[w2 + 1].folder_id@);
        }
        assert(false);
    }
}

/// A permutation of rows with pairwise-distinct folder ids keeps them
/// pairwise distinct.
pub proof fn lemma_nf_perm_distinct(a: Seq<NoteFolder>, b: Seq<NoteFolder>)
    requires
        a.to_multiset() == b.to_multiset(),
        forall|k: int, l: int| 0 <= k < l < a.len() ==> (#[trigger] a[k]).folder_id@ != (
        #[trigger] a[l]).folder_id@,
    ensures
        forall|k: int, l: int| 0 <= k < l < b.len() ==> (#[trigger] b[k]).folder_id@ != (
        #[trigger] b[l]).folder_id@,
{
    broadcast use vstd::seq_lib::group_to_multiset_ensures;

    assert forall|k: int, l: int| 0 <= k < l < b.len() implies (#[trigger] b[k]).folder_id@ != (
    #[trigger] b[l]).folder_id@ by {
        if b[k] == b[l] {
            let bb = b.remove(k);
            assert(bb[l - 1] == b[l]);
            assert(bb.contains(b[l]));
            assert(bb.to_multiset().count(b[l]) > 0);
            assert(b.to_multiset().count(b[l]) >= 2) by {
                assert(b.remove(k).to_multiset() =~= b.to_multiset().remove(b[k]));
            }
            assert(a.to_multiset().count(b[l]) >= 2);
            lemma_nf_distinct_count(a, b[l]);
            assert(false);
        } else {
            assert(b.to_multiset().contains(b[k]));
            assert(b.to_multiset().contains(b[l]));
            assert(a.contains(b[k]));
            assert(a.contains(b[l]));
            let w1 = choose|w: int| 0 <= w < a.len() && a[w] == b[k];
            let w2 = choose|w: int| 0 <= w < a.len() && a[w] == b[l];
            if w1 < w2 {
                assert(a[w1].folder_id@ != a[w2].folder_id@);
            }
            if w2 < w1 {
                assert(a[w2].folder_id@ != a[w1].folder_id@);
            }
            if w1 == w2 {
                assert(b[k] == b[l]);
            }
        }
    }
}

/// A permutation of a folder's rows keeps membership and per-pair facts.
pub proof fn lemma_nf_perm_folder_props(
    a: Seq<NoteFolder>,
    b: Seq<NoteFolder>,
    s: Seq<NoteFolder>,
    folder: Seq<char>,
)
    requires
        a.to_multiset() == b.to_multiset(),
        forall|k: int| 0 <= k < a.len() ==> s.contains(#[trigger] a[k]) && a[k].folder_id@
            == folder,
    ensures
        b.len() == a.len(),
        forall|k: int| 0 <= k < b.len() ==> s.contains(#[trigger] b[k]) && b[k].folder_id@
            == folder,
{
    broadcast use vstd::seq_lib::group_to_multiset_ensures;

    assert(a.to_multiset().len() == a.len());
    assert(b.to_multiset().len() == b.len());
    assert forall|k: int| 0 <= k < b.len() implies s.contains(#[trigger] b[k]) && b[k].folder_id@
        == folder by {
        assert(b.to_multiset().contains(b[k]));
        assert(a.to_multiset().contains(b[k]));
        assert(a.contains(b[k]));
        let w = choose|w: int| 0 <= w < a.len() && a[w] == b[k];
        assert(s.contains(a[w]));
    }
}

/// Clears the primary mark on every row of one note, in place.
fn clear_primary_rows(v: &mut Vec<NoteFolder>, note: &String)
    ensures
        final(v)@ == nf_clear_primary(old(v)@, note@),
{
    proof {
        lemma_nf_clear_primary(old(v)@, note@);
    }
    let mut i: usize = 0;
    while i < v.len()
        invariant
            i <= v@.len(),
            v@.len() == old(v)@.len(),
            forall|k: int| i <= k < v@.len() ==> #[trigger] v@[k] == old(v)@[k],
            forall|k: int|
                0 <= k < i ==> #[trigger] v@[k] == (if old(v)@[k].note_id@ == note@ {
                    (NoteFolder { is_primary: false, ..old(v)@[k] })
                } else {
                    old(v)@[k]
                }),
        decreases v@.len() - i,
    {
        if v[i].note_id == *note {
            let mut row = v[i].clone();
            row.is_primary = false;
            let ghost before = v@;
            v.remove(i);
            v.insert(i, row);
            proof {
                assert(v@ =~= before.update(
                    i as int,
                    (NoteFolder { is_primary: false, ..before[i as int] }),
                ));
            }
        }
        i += 1;
    }
    proof {
        lemma_nf_clear_primary(old(v)@, note@);
        assert(v@ =~= nf_clear_primary(old(v)@, note@));
    }
}

/// The rows of one note, in table order.
fn collect_nf_of_note(v: &Vec<NoteFolder>, note: &String) -> (r: Vec<NoteFolder>)
    ensures
        r@ == nf_of_note(v@, note@),
{
    let mut out: Vec<NoteFolder> = Vec::new();
    let mut i: usize = 0;
    while i < v.len()
        invariant
            i <= v@.len(),
            out@ == nf_of_note(v@.subrange(0, i as int), note@),
        decreases v@.len() - i,
    {
        if v[i].note_id == *note {
            out.push(v[i].clone());
        }
        proof {
            let pre = v@.subrange(0, i as int);
            let cur = v@.subrange(0, i as int + 1);
            assert(cur.drop_last() =~= pre);
            assert(cur.last() == v@[i as int]);
        }
        i += 1;
    }
    proof {
        assert(v@.subrange(0, v@.len() as int) =~= v@);
    }
    out
}

/// The rows of one folder, in table order.
pub(crate) fn collect_nf_of_folder(v: &Vec<NoteFolder>, folder: &String) -> (r: Vec<NoteFolder>)
    ensures
        r@ == nf_of_folder(v@, folder@),
{
    let mut out: Vec<NoteFolder> = Vec::new();
    let mut i: usize = 0;
    while i < v.len()
        invariant
            i <= v@.len(),
            out@ == nf_of_folder(v@.subrange(0, i as int), folder@),
        decreases v@.len() - i,
    {
        if v[i].folder_id == *folder {
            out.push(v[i].clone());
        }
        proof {
            let pre = v@.subrange(0, i as int);
            let cur = v@.subrange(0, i as int + 1);
            assert(cur.drop_last() =~= pre);
            assert(cur.last() == v@[i as int]);
        }
        i += 1;
    }
    proof {
        assert(v@.subrange(0, v@.len() as int) =~= v@);
    }
    out
}

/// Removes every membership row of one folder, in place; used when the
/// folder itself is hard-deleted.
pub(crate) fn remove_nf_of_folder(v: &mut Vec<NoteFolder>, folder: &String)
    ensures
        final(v)@ == nf_without_folder(old(v)@, folder@),
{
    let mut out: Vec<NoteFolder> = Vec::new();
    let mut i: usize = 0;
    while i < v.len()
        invariant
            i <= v@.len(),
            v@ == old(v)@,
            out@ == nf_without_folder(v@.subrange(0, i as int), folder@),
        decreases v@.len() - i,
    {
        if !(v[i].folder_id == *folder) {
            out.push(v[i].clone());
        }
        proof {
            let pre = v@.subrange(0, i as int);
            let cur = v@.subrange(0, i as int + 1);
            assert(cur.drop_last() =~= pre);
            assert(cur.last() == v@[i as int]);
        }
        i += 1;
    }
    proof {
        assert(v@.subrange(0, v@.len() as int) =~= v@);
    }
    *v = out;
}

/// Every table but `note_folders` is as it was.
pub open spec fn same_except_note_folders(a: DatabaseManager, b: DatabaseManager) -> bool {
    &&& a.notes == b.notes
    &&& a.blocks == b.blocks
    &&& a.folders == b.folders
    &&& a.tags == b.tags
    &&& a.links == b.links
    &&& a.attachments == b.attachments
    &&& a.note_tags == b.note_tags
    &&& a.note_attachments == b.note_attachments
    &&& a.block_attachments == b.block_attachments
    &&& a.block_references == b.block_references
}


// ---------------------------------------------------------------------
// Note-tag membership.
// ---------------------------------------------------------------------
/// Some row names this (note, tag) pair.
pub open spec fn has_nt(s: Seq<NoteTag>, note: Seq<char>, tag: Seq<char>) -> bool {
    exists|i: int| 0 <= i < s.len() && (#[trigger] s[i]).note_id@ == note && s[i].tag_id@ == tag
}

/// The index of the row naming this pair.
pub open spec fn nt_at(s: Seq<NoteTag>, note: Seq<char>, tag: Seq<char>) -> int {
    choose|i: int| 0 <= i < s.len() && (#[trigger] s[i]).note_id@ == note && s[i].tag_id@ == tag
}

pub proof fn lemma_nt_at(s: Seq<NoteTag>, note: Seq<char>, tag: Seq<char>, i: int)
    requires
        note_tags_unique(s),
        0 <= i < s.len(),
        s[i].note_id@ == note,
        s[i].tag_id@ == tag,
    ensures
        has_nt(s, note, tag),
        nt_at(s, note, tag) == i,
{
    assert(has_nt(s, note, tag));
    let k = nt_at(s, note, tag);
    if k < i {
        assert(!(s[k].note_id@ == s[i].note_id@ && s[k].tag_id@ == s[i].tag_id@));
    }
    if i < k {
        assert(!(s[i].note_id@ == s[k].note_id@ && s[i].tag_id@ == s[k].tag_id@));
    }
}

pub(crate) fn find_nt(v: &Vec<NoteTag>, note: &String, tag: &String) -> (r: Option<usize>)
    ensures
        match r {
            Some(i) => i < v@.len() && v@[i as int].note_id@ == note@ && v@[i as int].tag_id@
                == tag@,
            None => !has_nt(v@, note@, tag@),
        },
{
    let mut i: usize = 0;
    while i < v.len()
        invariant
            i <= v@.len(),
            forall|j: int|
                0 <= j < i ==> !((#[trigger] v@[j]).note_id@ == note@ && v@[j].tag_id@ == tag@),
        decreases v@.len() - i,
    {
        if v[i].note_id == *note && v[i].tag_id == *tag {
            return Some(i);
        }
        i += 1;
    }
    None
}

/// The tag ids on one note, in table order.
pub open spec fn nt_tag_ids_of_note(s: Seq<NoteTag>, note: Seq<char>) -> Seq<String>
    decreases s.len(),
{
    if s.len() == 0 {
        Seq::empty()
    } else {
        let rest = nt_tag_ids_of_note(s.drop_last(), note);
        if s.last().note_id@ == note {
            rest.push(s.last().tag_id)
        } else {
            rest
        }
    }
}

/// The note ids carrying one tag, in table order.
pub open spec fn nt_note_ids_of_tag(s: Seq<NoteTag>, tag: Seq<char>) -> Seq<String>
    decreases s.len(),
{
    if s.len() == 0 {
        Seq::empty()
    } else {
        let rest = nt_note_ids_of_tag(s.drop_last(), tag);
        if s.last().tag_id@ == tag {
            rest.push(s.last().note_id)
        } else {
            rest
        }
    }
}

/// The table with every row of one tag gone.
pub open spec fn nt_without_tag(s: Seq<NoteTag>, tag: Seq<char>) -> Seq<NoteTag>
    decreases s.len(),
{
    if s.len() == 0 {
        Seq::empty()
    } else {
        let rest = nt_without_tag(s.drop_last(), tag);
        if s.last().tag_id@ == tag {
            rest
        } else {
            rest.push(s.last())
        }
    }
}

/// Removing one tag's rows keeps pair uniqueness and leaves no row of
/// that tag.
pub proof fn lemma_nt_without_tag(s: Seq<NoteTag>, tag: Seq<char>)
    requires
        note_tags_unique(s),
    ensures
        note_tags_unique(nt_without_tag(s, tag)),
        forall|k: int|
            0 <= k < nt_without_tag(s, tag).len() ==> s.contains(
                #[trigger] nt_without_tag(s, tag)[k],
            ) && nt_without_tag(s, tag)[k].tag_id@ != tag,
    decreases s.len(),
{
    if s.len() > 0 {
        let pre = s.drop_last();
        assert(note_tags_unique(pre)) by {
            assert(forall|i: int| 0 <= i < pre.len() ==> pre[i] == s[i]);
        }
        lemma_nt_without_tag(pre, tag);
        let r = nt_without_tag(s, tag);
        let rp = nt_without_tag(pre, tag);
        if s.last().tag_id@ != tag {
            assert(r == rp.push(s.last()));
            assert forall|k: int| 0 <= k < r.len() implies s.contains(#[trigger] r[k])
                && r[k].tag_id@ != tag by {
                if k == r.len() - 1 {
                    assert(r[k] == s.last());
                    assert(s[s.len() - 1] == s.last());
                } else {
                    assert(r[k] == rp[k]);
                    assert(pre.contains(rp[k]));
                    let w = choose|w: int| 0 <= w < pre.len() && pre[w] == rp[k];
                    assert(s[w] == rp[k]);
                }
            }
            assert forall|p: int, q: int| 0 <= p < q < r.len() implies !((
            #[trigger] r[p]).note_id@ == (#[trigger] r[q]).note_id@ && r[p].tag_id@
                == r[q].tag_id@) by {
                if q == r.len() - 1 {
                    assert(pre.contains(rp[p]));
                    let w = choose|w: int| 0 <= w < pre.len() && pre[w] == rp[p];
                    assert(s[w] == rp[p]);
                    assert(!(s[w].note_id@ == s[s.len() - 1].note_id@ && s[w].tag_id@ == s[
                        s.len() - 1].tag_id@));
                }
            }
        } else {
            assert forall|k: int| 0 <= k < r.len() implies s.contains(#[trigger] r[k])
                && r[k].tag_id@ != tag by {
                assert(r[k] == rp[k]);
                assert(pre.contains(rp[k]));
                let w = choose|w: int| 0 <= w < pre.len() && pre[w] == rp[k];
                assert(s[w] == rp[k]);
            }
        }
    }
}

/// Removes every membership row of one tag, in place; used when the tag
/// itself is hard-deleted.
pub(crate) fn remove_nt_of_tag(v: &mut Vec<NoteTag>, tag: &String)
    ensures
        final(v)@ == nt_without_tag(old(v)@, tag@),
{
    let mut out: Vec<NoteTag> = Vec::new();
    let mut i: usize = 0;
    while i < v.len()
        invariant
            i <= v@.len(),
            v@ == old(v)@,
            out@ == nt_without_tag(v@.subrange(0, i as int), tag@),
        decreases v@.len() - i,
    {
        if !(v[i].tag_id == *tag) {
            out.push(v[i].clone());
        }
        proof {
            let pre = v@.subrange(0, i as int);
            let cur = v@.subrange(0, i as int + 1);
            assert(cur.drop_last() =~= pre);
            assert(cur.last() == v@[i as int]);
        }
        i += 1;
    }
    proof {
        assert(v@.subrange(0, v@.len() as int) =~= v@);
    }
    *v = out;
}

/// Every table but `note_tags` is as it was.
pub open spec fn same_except_note_tags(a: DatabaseManager, b: DatabaseManager) -> bool {
    &&& a.notes == b.notes
    &&& a.blocks == b.blocks
    &&& a.folders == b.folders
    &&& a.tags == b.tags
    &&& a.links == b.links
    &&& a.attachments == b.attachments
    &&& a.note_folders == b.note_folders
    &&& a.note_attachments == b.note_attachments
    &&& a.block_attachments == b.block_attachments
    &&& a.block_references == b.block_references
}

/// Note-tag relation access.
pub struct NoteTagDao;

impl NoteTagDao {
    /// Tags a note. Fails with `Conflict`, changing nothing, when the pair
    /// already exists.
    pub fn add(m: &mut DatabaseManager, note_id: &String, tag_id: &String) -> (r: Result<
        (),
        Error,
    >)
        requires
            old(m).wf(),
        ensures
            final(m).wf(),
            same_except_note_tags(*old(m), *final(m)),
            has_nt(old(m).note_tags@, note_id@, tag_id@) ==> (r matches Err(Error::Conflict(_))),
            (!has_nt(old(m).note_tags@, note_id@, tag_id@) && r is Err) ==> (r matches Err(
                Error::Database(_),
            )),
            match r {
                Ok(_) => {
                    &&& !has_nt(old(m).note_tags@, note_id@, tag_id@)
                    &&& final(m).note_tags@.len() == old(m).note_tags@.len() + 1
                    &&& final(m).note_tags@ == old(m).note_tags@.push(final(m).note_tags@.last())
                    &&& final(m).note_tags@.last().note_id@ == note_id@
                    &&& final(m).note_tags@.last().tag_id@ == tag_id@
                },
                Err(_) => final(m).note_tags@ == old(m).note_tags@,
            },
    {
        if find_nt(&m.note_tags, note_id, tag_id).is_some() {
            return Err(Error::Conflict(new_strlit_string("the note already carries this tag")));
        }
        let created_at = now_timestamp();
        let params: Vec<SqlValue> = vec![
            SqlValue::Text(note_id.clone()),
            SqlValue::Text(tag_id.clone()),
            SqlValue::Integer(created_at),
        ];
        m.db.exec(
            "INSERT INTO note_tags (note_id, tag_id, created_at) VALUES (?1, ?2, ?3)",
            &params,
        )?;
        m.note_tags.push(
            NoteTag { note_id: note_id.clone(), tag_id: tag_id.clone(), created_at },
        );
        Ok(())
    }

    /// Removes a tag from a note; a missing pair changes nothing.
    pub fn remove(m: &mut DatabaseManager, note_id: &String, tag_id: &String) -> (r: Result<
        (),
        Error,
    >)
        requires
            old(m).wf(),
        ensures
            r is Err ==> (r matches Err(Error::Database(_))),
            final(m).wf(),
            same_except_note_tags(*old(m), *final(m)),
            match r {
                Ok(_) => final(m).note_tags@ == (if has_nt(old(m).note_tags@, note_id@, tag_id@) {
                    old(m).note_tags@.remove(nt_at(old(m).note_tags@, note_id@, tag_id@))
                } else {
                    old(m).note_tags@
                }),
                Err(_) => final(m).note_tags@ == old(m).note_tags@,
            },
    {
        let params: Vec<SqlValue> = vec![
            SqlValue::Text(note_id.clone()),
            SqlValue::Text(tag_id.clone()),
        ];
        m.db.exec("DELETE FROM note_tags WHERE note_id = ?1 AND tag_id = ?2", &params)?;
        match find_nt(&m.note_tags, note_id, tag_id) {
            Some(i) => {
                proof {
                    lemma_nt_at(old(m).note_tags@, note_id@, tag_id@, i as int);
                }
                let ghost before = m.note_tags@;
                m.note_tags.remove(i);
                proof {
                    assert forall|p: int, q: int| 0 <= p < q < m.note_tags@.len() implies !((
                    #[trigger] m.note_tags@[p]).note_id@ == (#[trigger] m.note_tags@[q]).note_id@
                        && m.note_tags@[p].tag_id@ == m.note_tags@[q].tag_id@) by {
                        let p0 = if p < i as int { p } else { p + 1 };
                        let q0 = if q < i as int { q } else { q + 1 };
                        assert(m.note_tags@[p] == before[p0]);
                        assert(m.note_tags@[q] == before[q0]);
                    }
                }
                Ok(())
            },
            None => Ok(()),
        }
    }

    /// The tag ids on a note, in table order.
    pub fn get_tags_for_note(m: &DatabaseManager, note_id: &String) -> (r: Result<
        Vec<String>,
        Error,
    >)
        requires
            m.wf(),
        ensures
            match r {
                Ok(v) => v@ == nt_tag_ids_of_note(m.note_tags@, note_id@),
                Err(_) => false,
            },
    {
        let mut out: Vec<String> = Vec::new();
        let mut i: usize = 0;
        while i < m.note_tags.len()
            invariant
                i <= m.note_tags@.len(),
                out@ == nt_tag_ids_of_note(m.note_tags@.subrange(0, i as int), note_id@),
            decreases m.note_tags@.len() - i,
        {
            if m.note_tags[i].note_id == *note_id {
                out.push(m.note_tags[i].tag_id.clone());
            }
            proof {
                let pre = m.note_tags@.subrange(0, i as int);
                let cur = m.note_tags@.subrange(0, i as int + 1);
                assert(cur.drop_last() =~= pre);
                assert(cur.last() == m.note_tags@[i as int]);
            }
            i += 1;
        }
        proof {
            assert(m.note_tags@.subrange(0, m.note_tags@.len() as int) =~= m.note_tags@);
        }
        Ok(out)
    }

    /// The note ids carrying a tag, in table order.
    pub fn get_notes_with_tag(m: &DatabaseManager, tag_id: &String) -> (r: Result<
        Vec<String>,
        Error,
    >)
        requires
            m.wf(),
        ensures
            match r {
                Ok(v) => v@ == nt_note_ids_of_tag(m.note_tags@, tag_id@),
                Err(_) => false,
            },
    {
        let mut out: Vec<String> = Vec::new();
        let mut i: usize = 0;
        while i < m.note_tags.len()
            invariant
                i <= m.note_tags@.len(),
                out@ == nt_note_ids_of_tag(m.note_tags@.subrange(0, i as int), tag_id@),
            decreases m.note_tags@.len() - i,
        {
            if m.note_tags[i].tag_id == *tag_id {
                out.push(m.note_tags[i].note_id.clone());
            }
            proof {
                let pre = m.note_tags@.subrange(0, i as int);
                let cur = m.note_tags@.subrange(0, i as int + 1);
                assert(cur.drop_last() =~= pre);
                assert(cur.last() == m.note_tags@[i as int]);
            }
            i += 1;
        }
        proof {
            assert(m.note_tags@.subrange(0, m.note_tags@.len() as int) =~= m.note_tags@);
        }
        Ok(out)
    }
}

// ---------------------------------------------------------------------
// Note-attachment membership.
// ---------------------------------------------------------------------
/// Some row names this (note, attachment) pair.
pub open spec fn has_na(s: Seq<NoteAttachment>, note: Seq<char>, att: Seq<char>) -> bool {
    exists|i: int|
        0 <= i < s.len() && (#[trigger] s[i]).note_id@ == note && s[i].attachment_id@ == att
}

/// The index of the row naming this pair.
pub open spec fn na_at(s: Seq<NoteAttachment>, note: Seq<char>, att: Seq<char>) -> int {
    choose|i: int|
        0 <= i < s.len() && (#[trigger] s[i]).note_id@ == note && s[i].attachment_id@ == att
}

pub proof fn lemma_na_at(s: Seq<NoteAttachment>, note: Seq<char>, att: Seq<char>, i: int)
    requires
        note_attachments_unique(s),
        0 <= i < s.len(),
        s[i].note_id@ == note,
        s[i].attachment_id@ == att,
    ensures
        has_na(s, note, att),
        na_at(s, note, att) == i,
{
    assert(has_na(s, note, att));
    let k = na_at(s, note, att);
    if k < i {
        assert(!(s[k].note_id@ == s[i].note_id@ && s[k].attachment_id@ == s[i].attachment_id@));
    }
    if i < k {
        assert(!(s[i].note_id@ == s[k].note_id@ && s[i].attachment_id@ == s[k].attachment_id@));
    }
}

pub(crate) fn find_na(v: &Vec<NoteAttachment>, note: &String, att: &String) -> (r: Option<usize>)
    ensures
        match r {
            Some(i) => i < v@.len() && v@[i as int].note_id@ == note@
                && v@[i as int].attachment_id@ == att@,
            None => !has_na(v@, note@, att@),
        },
{
    let mut i: usize = 0;
    while i < v.len()
        invariant
            i <= v@.len(),
            forall|j: int|
                0 <= j < i ==> !((#[trigger] v@[j]).note_id@ == note@ && v@[j].attachment_id@
                    == att@),
        decreases v@.len() - i,
    {
        if v[i].note_id == *note && v[i].attachment_id == *att {
            return Some(i);
        }
        i += 1;
    }
    None
}

/// The attachment ids on one note, in table order.
pub open spec fn na_ids_of_note(s: Seq<NoteAttachment>, note: Seq<char>) -> Seq<String>
    decreases s.len(),
{
    if s.len() == 0 {
        Seq::empty()
    } else {
        let rest = na_ids_of_note(s.drop_last(), note);
        if s.last().note_id@ == note {
            rest.push(s.last().attachment_id)
        } else {
            rest
        }
    }
}

/// The note ids carrying one attachment, in table order.
pub open spec fn na_note_ids_of_att(s: Seq<NoteAttachment>, att: Seq<char>) -> Seq<String>
    decreases s.len(),
{
    if s.len() == 0 {
        Seq::empty()
    } else {
        let rest = na_note_ids_of_att(s.drop_last(), att);
        if s.last().attachment_id@ == att {
            rest.push(s.last().note_id)
        } else {
            rest
        }
    }
}

/// The table with every row of one attachment gone.
pub open spec fn na_without_att(s: Seq<NoteAttachment>, att: Seq<char>) -> Seq<NoteAttachment>
    decreases s.len(),
{
    if s.len() == 0 {
        Seq::empty()
    } else {
        let rest = na_without_att(s.drop_last(), att);
        if s.last().attachment_id@ == att {
            rest
        } else {
            rest.push(s.last())
        }
    }
}

/// Removing one attachment's note rows keeps pair uniqueness and leaves
/// no row of that attachment.
pub proof fn lemma_na_without_att(s: Seq<NoteAttachment>, att: Seq<char>)
    requires
        note_attachments_unique(s),
    ensures
        note_attachments_unique(na_without_att(s, att)),
        forall|k: int|
            0 <= k < na_without_att(s, att).len() ==> s.contains(
                #[trigger] na_without_att(s, att)[k],
            ) && na_without_att(s, att)[k].attachment_id@ != att,
    decreases s.len(),
{
    if s.len() > 0 {
        let pre = s.drop_last();
        assert(note_attachments_unique(pre)) by {
            assert(forall|i: int| 0 <= i < pre.len() ==> pre[i] == s[i]);
        }
        lemma_na_without_att(pre, att);
        let r = na_without_att(s, att);
        let rp = na_without_att(pre, att);
        if s.last().attachment_id@ != att {
            assert(r == rp.push(s.last()));
            assert forall|k: int| 0 <= k < r.len() implies s.contains(#[trigger] r[k])
                && r[k].attachment_id@ != att by {
                if k == r.len() - 1 {
                    assert(r[k] == s.last());
                    assert(s[s.len() - 1] == s.last());
                } else {
                    assert(r[k] == rp[k]);
                    assert(pre.contains(rp[k]));
                    let w = choose|w: int| 0 <= w < pre.len() && pre[w] == rp[k];
                    assert(s[w] == rp[k]);
                }
            }
            assert forall|p: int, q: int| 0 <= p < q < r.len() implies !((
            #[trigger] r[p]).note_id@ == (#[trigger] r[q]).note_id@ && r[p].attachment_id@
                == r[q].attachment_id@) by {
                if q == r.len() - 1 {
                    assert(pre.contains(rp[p]));
                    let w = choose|w: int| 0 <= w < pre.len() && pre[w] == rp[p];
                    assert(s[w] == rp[p]);
                    assert(!(s[w].note_id@ == s[s.len() - 1].note_id@ && s[w].attachment_id@
                        == s[s.len() - 1].attachment_id@));
                }
            }
        } else {
            assert forall|k: int| 0 <= k < r.len() implies s.contains(#[trigger] r[k])
                && r[k].attachment_id@ != att by {
                assert(r[k] == rp[k]);
                assert(pre.contains(rp[k]));
                let w = choose|w: int| 0 <= w < pre.len() && pre[w] == rp[k];
                assert(s[w] == rp[k]);
            }
        }
    }
}

/// Removes every note membership of one attachment, in place.
pub(crate) fn remove_na_of_att(v: &mut Vec<NoteAttachment>, att: &String)
    ensures
        final(v)@ == na_without_att(old(v)@, att@),
{
    let mut out: Vec<NoteAttachment> = Vec::new();
    let mut i: usize = 0;
    while i < v.len()
        invariant
            i <= v@.len(),
            v@ == old(v)@,
            out@ == na_without_att(v@.subrange(0, i as int), att@),
        decreases v@.len() - i,
    {
        if !(v[i].attachment_id == *att) {
            out.push(v[i].clone());
        }
        proof {
            let pre = v@.subrange(0, i as int);
            let cur = v@.subrange(0, i as int + 1);
            assert(cur.drop_last() =~= pre);
            assert(cur.last() == v@[i as int]);
        }
        i += 1;
    }
    proof {
        assert(v@.subrange(0, v@.len() as int) =~= v@);
    }
    *v = out;
}

/// Every table but `note_attachments` is as it was.
pub open spec fn same_except_note_attachments(a: DatabaseManager, b: DatabaseManager) -> bool {
    &&& a.notes == b.notes
    &&& a.blocks == b.blocks
    &&& a.folders == b.folders
    &&& a.tags == b.tags
    &&& a.links == b.links
    &&& a.attachments == b.attachments
    &&& a.note_folders == b.note_folders
    &&& a.note_tags == b.note_tags
    &&& a.block_attachments == b.block_attachments
    &&& a.block_references == b.block_references
}

/// Note-attachment relation access.
pub struct NoteAttachmentDao;

impl NoteAttachmentDao {
    /// Attaches a file to a note. Fails with `Conflict`, changing nothing,
    /// when the pair already exists.
    pub fn add(m: &mut DatabaseManager, note_id: &String, attachment_id: &String, position: i64)
        -> (r: Result<(), Error>)
        requires
            old(m).wf(),
        ensures
            final(m).wf(),
            same_except_note_attachments(*old(m), *final(m)),
            has_na(old(m).note_attachments@, note_id@, attachment_id@) ==> (r matches Err(
                Error::Conflict(_),
            )),
            (!has_na(old(m).note_attachments@, note_id@, attachment_id@) && r is Err) ==> (
            r matches Err(Error::Database(_))),
            match r {
                Ok(_) => {
                    &&& !has_na(old(m).note_attachments@, note_id@, attachment_id@)
                    &&& final(m).note_attachments@.len() == old(m).note_attachments@.len() + 1
                    &&& final(m).note_attachments@ == old(m).note_attachments@.push(
                        final(m).note_attachments@.last(),
                    )
                    &&& final(m).note_attachments@.last().note_id@ == note_id@
                    &&& final(m).note_attachments@.last().attachment_id@ == attachment_id@
                    &&& final(m).note_attachments@.last().position == position
                },
                Err(_) => final(m).note_attachments@ == old(m).note_attachments@,
            },
    {
        if find_na(&m.note_attachments, note_id, attachment_id).is_some() {
            return Err(
                Error::Conflict(new_strlit_string("the note already carries this attachment")),
            );
        }
        let created_at = now_timestamp();
        let params: Vec<SqlValue> = vec![
            SqlValue::Text(note_id.clone()),
            SqlValue::Text(attachment_id.clone()),
            SqlValue::Integer(position),
            SqlValue::Integer(created_at),
        ];
        m.db.exec(
            "INSERT INTO note_attachments (note_id, attachment_id, position, created_at) VALUES (?1, ?2, ?3, ?4)",
            &params,
        )?;
        m.note_attachments.push(
            NoteAttachment {
                note_id: note_id.clone(),
                attachment_id: attachment_id.clone(),
                position,
                created_at,
            },
        );
        Ok(())
    }

    /// Detaches a file from a note; a missing pair changes nothing.
    pub fn remove(m: &mut DatabaseManager, note_id: &String, attachment_id: &String) -> (r:
        Result<(), Error>)
        requires
            old(m).wf(),
        ensures
            r is Err ==> (r matches Err(Error::Database(_))),
            final(m).wf(),
            same_except_note_attachments(*old(m), *final(m)),
            match r {
                Ok(_) => final(m).note_attachments@ == (if has_na(
                    old(m).note_attachments@,
                    note_id@,
                    attachment_id@,
                ) {
                    old(m).note_attachments@.remove(
                        na_at(old(m).note_attachments@, note_id@, attachment_id@),
                    )
                } else {
                    old(m).note_attachments@
                }),
                Err(_) => final(m).note_attachments@ == old(m).note_attachments@,
            },
    {
        let params: Vec<SqlValue> = vec![
            SqlValue::Text(note_id.clone()),
            SqlValue::Text(attachment_id.clone()),
        ];
        m.db.exec(
            "DELETE FROM note_attachments WHERE note_id = ?1 AND attachment_id = ?2",
            &params,
        )?;
        match find_na(&m.note_attachments, note_id, attachment_id) {
            Some(i) => {
                proof {
                    lemma_na_at(old(m).note_attachments@, note_id@, attachment_id@, i as int);
                }
                let ghost before = m.note_attachments@;
                m.note_attachments.remove(i);
                proof {
                    assert forall|p: int, q: int|
                        0 <= p < q < m.note_attachments@.len() implies !((
                    #[trigger] m.note_attachments@[p]).note_id@ == (
                    #[trigger] m.note_attachments@[q]).note_id@
                        && m.note_attachments@[p].attachment_id@
                        == m.note_attachments@[q].attachment_id@) by {
                        let p0 = if p < i as int { p } else { p + 1 };
                        let q0 = if q < i as int { q } else { q + 1 };
                        assert(m.note_attachments@[p] == before[p0]);
                        assert(m.note_attachments@[q] == before[q0]);
                    }
                }
                Ok(())
            },
            None => Ok(()),
        }
    }

    /// The attachment ids on a note, by ascending membership position.
    pub fn get_attachments_for_note(m: &DatabaseManager, note_id: &String) -> (r: Result<
        Vec<String>,
        Error,
    >)
        requires
            m.wf(),
        ensures
            match r {
                Ok(v) => {
                    &&& v@.len() == na_ids_of_note(m.note_attachments@, note_id@).len()
                    &&& forall|k: int|
                        0 <= k < v@.len() ==> has_na(
                            m.note_attachments@,
                            note_id@,
                            (#[trigger] v@[k])@,
                        )
                },
                Err(_) => false,
            },
    {
        let rows = collect_na_of_note(&m.note_attachments, note_id);
        let ghost collected = rows@;
        let sorted = crate::sorting::sort_note_attachments_by_position(rows);
        proof {
            lemma_na_of_note_props(m.note_attachments@, note_id@);
            lemma_na_perm_props(collected, sorted@, m.note_attachments@, note_id@);
        }
        let mut out: Vec<String> = Vec::new();
        let mut i: usize = 0;
        while i < sorted.len()
            invariant
                m.wf(),
                i <= sorted@.len(),
                out@.len() == i,
                forall|k: int| 0 <= k < i ==> (#[trigger] out@[k])@ == sorted@[k].attachment_id@,
                forall|k: int|
                    0 <= k < sorted@.len() ==> m.note_attachments@.contains(#[trigger] sorted@[k])
                        && sorted@[k].note_id@ == note_id@,
            decreases sorted@.len() - i,
        {
            out.push(sorted[i].attachment_id.clone());
            i += 1;
        }
        proof {
            assert forall|k: int| 0 <= k < out@.len() implies has_na(
                m.note_attachments@,
                note_id@,
                (#[trigger] out@[k])@,
            ) by {
                let row = sorted@[k];
                let w = choose|w: int|
                    0 <= w < m.note_attachments@.len() && m.note_attachments@[w] == row;
                assert(m.note_attachments@[w].note_id@ == note_id@
                    && m.note_attachments@[w].attachment_id@ == out@[k]@);
            }
        }
        Ok(out)
    }

    /// The note ids carrying an attachment, in table order.
    pub fn get_notes_with_attachment(m: &DatabaseManager, attachment_id: &String) -> (r: Result<
        Vec<String>,
        Error,
    >)
        requires
            m.wf(),
        ensures
            match r {
                Ok(v) => v@ == na_note_ids_of_att(m.note_attachments@, attachment_id@),
                Err(_) => false,
            },
    {
        let mut out: Vec<String> = Vec::new();
        let mut i: usize = 0;
        while i < m.note_attachments.len()
            invariant
                i <= m.note_attachments@.len(),
                out@ == na_note_ids_of_att(
                    m.note_attachments@.subrange(0, i as int),
                    attachment_id@,
                ),
            decreases m.note_attachments@.len() - i,
        {
            if m.note_attachments[i].attachment_id == *attachment_id {
                out.push(m.note_attachments[i].note_id.clone());
            }
            proof {
                let pre = m.note_attachments@.subrange(0, i as int);
                let cur = m.note_attachments@.subrange(0, i as int + 1);
                assert(cur.drop_last() =~= pre);
                assert(cur.last() == m.note_attachments@[i as int]);
            }
            i += 1;
        }
        proof {
            assert(m.note_attachments@.subrange(0, m.note_attachments@.len() as int)
                =~= m.note_attachments@);
        }
        Ok(out)
    }

    /// Rewrites the position of one membership row; a missing pair changes
    /// nothing.
    pub fn update_position(
        m: &mut DatabaseManager,
        note_id: &String,
        attachment_id: &String,
        position: i64,
    ) -> (r: Result<(), Error>)
        requires
            old(m).wf(),
        ensures
            r is Err ==> (r matches Err(Error::Database(_))),
            final(m).wf(),
            same_except_note_attachments(*old(m), *final(m)),
            match r {
                Ok(_) => final(m).note_attachments@ == (if has_na(
                    old(m).note_attachments@,
                    note_id@,
                    attachment_id@,
                ) {
                    old(m).note_attachments@.update(
                        na_at(old(m).note_attachments@, note_id@, attachment_id@),
                        (NoteAttachment {
                            position,
                            ..old(m).note_attachments@[na_at(
                                old(m).note_attachments@,
                                note_id@,
                                attachment_id@,
                            )]
                        }),
                    )
                } else {
                    old(m).note_attachments@
                }),
                Err(_) => final(m).note_attachments@ == old(m).note_attachments@,
            },
    {
        let params: Vec<SqlValue> = vec![
            SqlValue::Text(note_id.clone()),
            SqlValue::Text(attachment_id.clone()),
            SqlValue::Integer(position),
        ];
        m.db.exec(
            "UPDATE note_attachments SET position = ?3 WHERE note_id = ?1 AND attachment_id = ?2",
            &params,
        )?;
        match find_na(&m.note_attachments, note_id, attachment_id) {
            Some(i) => {
                proof {
                    lemma_na_at(old(m).note_attachments@, note_id@, attachment_id@, i as int);
                }
                let ghost before = m.note_attachments@;
                let mut row = m.note_attachments[i].clone();
                row.position = position;
                m.note_attachments.remove(i);
                m.note_attachments.insert(i, row);
                proof {
                    assert(m.note_attachments@ =~= before.update(
                        i as int,
                        (NoteAttachment { position, ..before[i as int] }),
                    ));
                    assert forall|p: int, q: int|
                        0 <= p < q < m.note_attachments@.len() implies !((
                    #[trigger] m.note_attachments@[p]).note_id@ == (
                    #[trigger] m.note_attachments@[q]).note_id@
                        && m.note_attachments@[p].attachment_id@
                        == m.note_attachments@[q].attachment_id@) by {
                        assert(m.note_attachments@[p].note_id@ == before[p].note_id@
                            && m.note_attachments@[p].attachment_id@
                            == before[p].attachment_id@);
                        assert(m.note_attachments@[q].note_id@ == before[q].note_id@
                            && m.note_attachments@[q].attachment_id@
                            == before[q].attachment_id@);
                    }
                }
                Ok(())
            },
            None => Ok(()),
        }
    }
}

/// Every row of `na_ids_of_note`'s source is a table row of that note.
pub proof fn lemma_na_of_note_props(s: Seq<NoteAttachment>, note: Seq<char>)
    ensures
        forall|k: int|
            0 <= k < na_rows_of_note(s, note).len() ==> s.contains(
                #[trigger] na_rows_of_note(s, note)[k],
            ) && na_rows_of_note(s, note)[k].note_id@ == note,
        na_rows_of_note(s, note).len() == na_ids_of_note(s, note).len(),
    decreases s.len(),
{
    if s.len() > 0 {
        let pre = s.drop_last();
        lemma_na_of_note_props(pre, note);
        let r = na_rows_of_note(s, note);
        let rp = na_rows_of_note(pre, note);
        assert forall|k: int| 0 <= k < r.len() implies s.contains(#[trigger] r[k]) && r[k].note_id@
            == note by {
            if s.last().note_id@ == note && k == r.len() - 1 {
                assert(r[k] == s.last());
                assert(s[s.len() - 1] == s.last());
            } else {
                assert(r[k] == rp[k]);
                assert(pre.contains(rp[k]));
                let w = choose|w: int| 0 <= w < pre.len() && pre[w] == rp[k];
                assert(s[w] == rp[k]);
            }
        }
    }
}

/// The rows of one note, in table order.
pub open spec fn na_rows_of_note(s: Seq<NoteAttachment>, note: Seq<char>) -> Seq<NoteAttachment>
    decreases s.len(),
{
    if s.len() == 0 {
        Seq::empty()
    } else {
        let rest = na_rows_of_note(s.drop_last(), note);
        if s.last().note_id@ == note {
            rest.push(s.last())
        } else {
            rest
        }
    }
}

/// A permutation of a note's rows keeps membership facts.
pub proof fn lemma_na_perm_props(
    a: Seq<NoteAttachment>,
    b: Seq<NoteAttachment>,
    s: Seq<NoteAttachment>,
    note: Seq<char>,
)
    requires
        a.to_multiset() == b.to_multiset(),
        forall|k: int| 0 <= k < a.len() ==> s.contains(#[trigger] a[k]) && a[k].note_id@ == note,
    ensures
        b.len() == a.len(),
        forall|k: int| 0 <= k < b.len() ==> s.contains(#[trigger] b[k]) && b[k].note_id@ == note,
{
    broadcast use vstd::seq_lib::group_to_multiset_ensures;

    assert(a.to_multiset().len() == a.len());
    assert(b.to_multiset().len() == b.len());
    assert forall|k: int| 0 <= k < b.len() implies s.contains(#[trigger] b[k]) && b[k].note_id@
        == note by {
        assert(b.to_multiset().contains(b[k]));
        assert(a.to_multiset().contains(b[k]));
        assert(a.contains(b[k]));
        let w = choose|w: int| 0 <= w < a.len() && a[w] == b[k];
        assert(s.contains(a[w]));
    }
}

/// The rows of one note, in table order.
fn collect_na_of_note(v: &Vec<NoteAttachment>, note: &String) -> (r: Vec<NoteAttachment>)
    ensures
        r@ == na_rows_of_note(v@, note@),
{
    let mut out: Vec<NoteAttachment> = Vec::new();
    let mut i: usize = 0;
    while i < v.len()
        invariant
            i <= v@.len(),
            out@ == na_rows_of_note(v@.subrange(0, i as int), note@),
        decreases v@.len() - i,
    {
        if v[i].note_id == *note {
            out.push(v[i].clone());
        }
        proof {
            let pre = v@.subrange(0, i as int);
            let cur = v@.subrange(0, i as int + 1);
            assert(cur.drop_last() =~= pre);
            assert(cur.last() == v@[i as int]);
        }
        i += 1;
    }
    proof {
        assert(v@.subrange(0, v@.len() as int) =~= v@);
    }
    out
}

// ---------------------------------------------------------------------
// Block-attachment membership.
// ---------------------------------------------------------------------
/// Some row names this (block, attachment) pair.
pub open spec fn has_ba(s: Seq<BlockAttachment>, block: Seq<char>, att: Seq<char>) -> bool {
    exists|i: int|
        0 <= i < s.len() && (#[trigger] s[i]).block_id@ == block && s[i].attachment_id@ == att
}

/// The index of the row naming this pair.
pub open spec fn ba_at(s: Seq<BlockAttachment>, block: Seq<char>, att: Seq<char>) -> int {
    choose|i: int|
        0 <= i < s.len() && (#[trigger] s[i]).block_id@ == block && s[i].attachment_id@ == att
}

pub proof fn lemma_ba_at(s: Seq<BlockAttachment>, block: Seq<char>, att: Seq<char>, i: int)
    requires
        block_attachments_unique(s),
        0 <= i < s.len(),
        s[i].block_id@ == block,
        s[i].attachment_id@ == att,
    ensures
        has_ba(s, block, att),
        ba_at(s, block, att) == i,
{
    assert(has_ba(s, block, att));
    let k = ba_at(s, block, att);
    if k < i {
        assert(!(s[k].block_id@ == s[i].block_id@ && s[k].attachment_id@ == s[i].attachment_id@));
    }
    if i < k {
        assert(!(s[i].block_id@ == s[k].block_id@ && s[i].attachment_id@ == s[k].attachment_id@));
    }
}

pub(crate) fn find_ba(v: &Vec<BlockAttachment>, block: &String, att: &String) -> (r: Option<
    usize,
>)
    ensures
        match r {
            Some(i) => i < v@.len() && v@[i as int].block_id@ == block@
                && v@[i as int].attachment_id@ == att@,
            None => !has_ba(v@, block@, att@),
        },
{
    let mut i: usize = 0;
    while i < v.len()
        invariant
            i <= v@.len(),
            forall|j: int|
                0 <= j < i ==> !((#[trigger] v@[j]).block_id@ == block@ && v@[j].attachment_id@
                    == att@),
        decreases v@.len() - i,
    {
        if v[i].block_id == *block && v[i].attachment_id == *att {
            return Some(i);
        }
        i += 1;
    }
    None
}

/// The attachment ids on one block, in table order.
pub open spec fn ba_ids_of_block(s: Seq<BlockAttachment>, block: Seq<char>) -> Seq<String>
    decreases s.len(),
{
    if s.len() == 0 {
        Seq::empty()
    } else {
        let rest = ba_ids_of_block(s.drop_last(), block);
        if s.last().block_id@ == block {
            rest.push(s.last().attachment_id)
        } else {
            rest
        }
    }
}

/// The block ids carrying one attachment, in table order.
pub open spec fn ba_block_ids_of_att(s: Seq<BlockAttachment>, att: Seq<char>) -> Seq<String>
    decreases s.len(),
{
    if s.len() == 0 {
        Seq::empty()
    } else {
        let rest = ba_block_ids_of_att(s.drop_last(), att);
        if s.last().attachment_id@ == att {
            rest.push(s.last().block_id)
        } else {
            rest
        }
    }
}

/// The table with every row of one attachment gone.
pub open spec fn ba_without_att(s: Seq<BlockAttachment>, att: Seq<char>) -> Seq<BlockAttachment>
    decreases s.len(),
{
    if s.len() == 0 {
        Seq::empty()
    } else {
        let rest = ba_without_att(s.drop_last(), att);
        if s.last().attachment_id@ == att {
            rest
        } else {
            rest.push(s.last())
        }
    }
}

/// Removing one attachment's block rows keeps pair uniqueness and leaves
/// no row of that attachment.
pub proof fn lemma_ba_without_att(s: Seq<BlockAttachment>, att: Seq<char>)
    requires
        block_attachments_unique(s),
    ensures
        block_attachments_unique(ba_without_att(s, att)),
        forall|k: int|
            0 <= k < ba_without_att(s, att).len() ==> s.contains(
                #[trigger] ba_without_att(s, att)[k],
            ) && ba_without_att(s, att)[k].attachment_id@ != att,
    decreases s.len(),
{
    if s.len() > 0 {
        let pre = s.drop_last();
        assert(block_attachments_unique(pre)) by {
            assert(forall|i: int| 0 <= i < pre.len() ==> pre[i] == s[i]);
        }
        lemma_ba_without_att(pre, att);
        let r = ba_without_att(s, att);
        let rp = ba_without_att(pre, att);
        if s.last().attachment_id@ != att {
            assert(r == rp.push(s.last()));
            assert forall|k: int| 0 <= k < r.len() implies s.contains(#[trigger] r[k])
                && r[k].attachment_id@ != att by {
                if k == r.len() - 1 {
                    assert(r[k] == s.last());
                    assert(s[s.len() - 1] == s.last());
                } else {
                    assert(r[k] == rp[k]);
                    assert(pre.contains(rp[k]));
                    let w = choose|w: int| 0 <= w < pre.len() && pre[w] == rp[k];
                    assert(s[w] == rp[k]);
                }
            }
            assert forall|p: int, q: int| 0 <= p < q < r.len() implies !((
            #[trigger] r[p]).block_id@ == (#[trigger] r[q]).block_id@ && r[p].attachment_id@
                == r[q].attachment_id@) by {
                if q == r.len() - 1 {
                    assert(pre.contains(rp[p]));
                    let w = choose|w: int| 0 <= w < pre.len() && pre[w] == rp[p];
                    assert(s[w] == rp[p]);
                    assert(!(s[w].block_id@ == s[s.len() - 1].block_id@ && s[w].attachment_id@
                        == s[s.len() - 1].attachment_id@));
                }
            }
        } else {
            assert forall|k: int| 0 <= k < r.len() implies s.contains(#[trigger] r[k])
                && r[k].attachment_id@ != att by {
                assert(r[k] == rp[k]);
                assert(pre.contains(rp[k]));
                let w = choose|w: int| 0 <= w < pre.len() && pre[w] == rp[k];
                assert(s[w] == rp[k]);
            }
        }
    }
}

/// Removes every block membership of one attachment, in place.
pub(crate) fn remove_ba_of_att(v: &mut Vec<BlockAttachment>, att: &String)
    ensures
        final(v)@ == ba_without_att(old(v)@, att@),
{
    let mut out: Vec<BlockAttachment> = Vec::new();
    let mut i: usize = 0;
    while i < v.len()
        invariant
            i <= v@.len(),
            v@ == old(v)@,
            out@ == ba_without_att(v@.subrange(0, i as int), att@),
        decreases v@.len() - i,
    {
        if !(v[i].attachment_id == *att) {
            out.push(v[i].clone());
        }
        proof {
            let pre = v@.subrange(0, i as int);
            let cur = v@.subrange(0, i as int + 1);
            assert(cur.drop_last() =~= pre);
            assert(cur.last() == v@[i as int]);
        }
        i += 1;
    }
    proof {
        assert(v@.subrange(0, v@.len() as int) =~= v@);
    }
    *v = out;
}

/// Every table but `block_attachments` is as it was.
pub open spec fn same_except_block_attachments(a: DatabaseManager, b: DatabaseManager) -> bool {
    &&& a.notes == b.notes
    &&& a.blocks == b.blocks
    &&& a.folders == b.folders
    &&& a.tags == b.tags
    &&& a.links == b.links
    &&& a.attachments == b.attachments
    &&& a.note_folders == b.note_folders
    &&& a.note_tags == b.note_tags
    &&& a.note_attachments == b.note_attachments
    &&& a.block_references == b.block_references
}

/// Block-attachment relation access.
pub struct BlockAttachmentDao;

impl BlockAttachmentDao {
    /// Attaches a file to a block. Fails with `Conflict`, changing nothing,
    /// when the pair already exists.
    pub fn add(m: &mut DatabaseManager, block_id: &String, attachment_id: &String) -> (r: Result<
        (),
        Error,
    >)
        requires
            old(m).wf(),
        ensures
            final(m).wf(),
            same_except_block_attachments(*old(m), *final(m)),
            has_ba(old(m).block_attachments@, block_id@, attachment_id@) ==> (r matches Err(
                Error::Conflict(_),
            )),
            (!has_ba(old(m).block_attachments@, block_id@, attachment_id@) && r is Err) ==> (
            r matches Err(Error::Database(_))),
            match r {
                Ok(_) => {
                    &&& !has_ba(old(m).block_attachments@, block_id@, attachment_id@)
                    &&& final(m).block_attachments@.len() == old(m).block_attachments@.len() + 1
                    &&& final(m).block_attachments@ == old(m).block_attachments@.push(
                        final(m).block_attachments@.last(),
                    )
                    &&& final(m).block_attachments@.last().block_id@ == block_id@
                    &&& final(m).block_attachments@.last().attachment_id@ == attachment_id@
                },
                Err(_) => final(m).block_attachments@ == old(m).block_attachments@,
            },
    {
        if find_ba(&m.block_attachments, block_id, attachment_id).is_some() {
            return Err(
                Error::Conflict(new_strlit_string("the block already carries this attachment")),
            );
        }
        let created_at = now_timestamp();
        let params: Vec<SqlValue> = vec![
            SqlValue::Text(block_id.clone()),
            SqlValue::Text(attachment_id.clone()),
            SqlValue::Integer(created_at),
        ];
        m.db.exec(
            "INSERT INTO block_attachments (block_id, attachment_id, created_at) VALUES (?1, ?2, ?3)",
            &params,
        )?;
        m.block_attachments.push(
            BlockAttachment {
                block_id: block_id.clone(),
                attachment_id: attachment_id.clone(),
                created_at,
            },
        );
        Ok(())
    }

    /// Detaches a file from a block; a missing pair changes nothing.
    pub fn remove(m: &mut DatabaseManager, block_id: &String, attachment_id: &String) -> (r:
        Result<(), Error>)
        requires
            old(m).wf(),
        ensures
            r is Err ==> (r matches Err(Error::Database(_))),
            final(m).wf(),
            same_except_block_attachments(*old(m), *final(m)),
            match r {
                Ok(_) => final(m).block_attachments@ == (if has_ba(
                    old(m).block_attachments@,
                    block_id@,
                    attachment_id@,
                ) {
                    old(m).block_attachments@.remove(
                        ba_at(old(m).block_attachments@, block_id@, attachment_id@),
                    )
                } else {
                    old(m).block_attachments@
                }),
                Err(_) => final(m).block_attachments@ == old(m).block_attachments@,
            },
    {
        let params: Vec<SqlValue> = vec![
            SqlValue::Text(block_id.clone()),
            SqlValue::Text(attachment_id.clone()),
        ];
        m.db.exec(
            "DELETE FROM block_attachments WHERE block_id = ?1 AND attachment_id = ?2",
            &params,
        )?;
        match find_ba(&m.block_attachments, block_id, attachment_id) {
            Some(i) => {
                proof {
                    lemma_ba_at(old(m).block_attachments@, block_id@, attachment_id@, i as int);
                }
                let ghost before = m.block_attachments@;
                m.block_attachments.remove(i);
                proof {
                    assert forall|p: int, q: int|
                        0 <= p < q < m.block_attachments@.len() implies !((
                    #[trigger] m.block_attachments@[p]).block_id@ == (
                    #[trigger] m.block_attachments@[q]).block_id@
                        && m.block_attachments@[p].attachment_id@
                        == m.block_attachments@[q].attachment_id@) by {
                        let p0 = if p < i as int { p } else { p + 1 };
                        let q0 = if q < i as int { q } else { q + 1 };
                        assert(m.block_attachments@[p] == before[p0]);
                        assert(m.block_attachments@[q] == before[q0]);
                    }
                }
                Ok(())
            },
            None => Ok(()),
        }
    }

    /// The attachment ids on a block, in table order.
    pub fn get_attachments_for_block(m: &DatabaseManager, block_id: &String) -> (r: Result<
        Vec<String>,
        Error,
    >)
        requires
            m.wf(),
        ensures
            match r {
                Ok(v) => v@ == ba_ids_of_block(m.block_attachments@, block_id@),
                Err(_) => false,
            },
    {
        let mut out: Vec<String> = Vec::new();
        let mut i: usize = 0;
        while i < m.block_attachments.len()
            invariant
                i <= m.block_attachments@.len(),
                out@ == ba_ids_of_block(m.block_attachments@.subrange(0, i as int), block_id@),
            decreases m.block_attachments@.len() - i,
        {
            if m.block_attachments[i].block_id == *block_id {
                out.push(m.block_attachments[i].attachment_id.clone());
            }
            proof {
                let pre = m.block_attachments@.subrange(0, i as int);
                let cur = m.block_attachments@.subrange(0, i as int + 1);
                assert(cur.drop_last() =~= pre);
                assert(cur.last() == m.block_attachments@[i as int]);
            }
            i += 1;
        }
        proof {
            assert(m.block_attachments@.subrange(0, m.block_attachments@.len() as int)
                =~= m.block_attachments@);
        }
        Ok(out)
    }

    /// The block ids carrying an attachment, in table order.
    pub fn get_blocks_with_attachment(m: &DatabaseManager, attachment_id: &String) -> (r: Result<
        Vec<String>,
        Error,
    >)
        requires
            m.wf(),
        ensures
            match r {
                Ok(v) => v@ == ba_block_ids_of_att(m.block_attachments@, attachment_id@),
                Err(_) => false,
            },
    {
        let mut out: Vec<String> = Vec::new();
        let mut i: usize = 0;
        while i < m.block_attachments.len()
            invariant
                i <= m.block_attachments@.len(),
                out@ == ba_block_ids_of_att(
                    m.block_attachments@.subrange(0, i as int),
                    attachment_id@,
                ),
            decreases m.block_attachments@.len() - i,
        {
            if m.block_attachments[i].attachment_id == *attachment_id {
                out.push(m.block_attachments[i].block_id.clone());
            }
            proof {
                let pre = m.block_attachments@.subrange(0, i as int);
                let cur = m.block_attachments@.subrange(0, i as int + 1);
                assert(cur.drop_last() =~= pre);
                assert(cur.last() == m.block_attachments@[i as int]);
            }
            i += 1;
        }
        proof {
            assert(m.block_attachments@.subrange(0, m.block_attachments@.len() as int)
                =~= m.block_attachments@);
        }
        Ok(out)
    }
}

} // verus!
