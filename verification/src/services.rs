//! Domain services: the API surface external callers use.
//!
//! Services validate preconditions through the access layer, fail fast
//! with a typed error before any write, and keep the note bodies held by
//! the context in step with the rows. No operation here panics on bad
//! input.

use vstd::prelude::*;

use vstd::string::StringExecFns;
use vstd::utf8::encode_utf8;

use crate::clock::now_timestamp;
use crate::dao::{
    block_at, children_of, folder_at, has_block, has_folder, has_link, has_note, has_tag,
    has_tag_named, note_at, note_visible, same_except_blocks, same_except_folders,
    same_except_links, same_except_notes, same_except_tags, tag_at, tag_named_at, BlockDao,
    FolderDao, LinkDao, NoteDao, TagDao,
};
use crate::db::SqlValue;
use crate::db_manager::DatabaseManager;
use crate::error::Error;
use crate::ids::new_uuid;
use crate::models::{new_strlit_string, Block, Folder, Link, Note, NoteWithContent, Tag};
use crate::relation_dao::{has_nf, has_nt, NoteFolderDao, NoteTagDao};
use crate::sorting::{blocks_sorted_by_position, notes_sorted_by_updated_desc};
use crate::text::{slug_of_title, word_count};

verus! {

/// One note body, addressed by its relative content path.
#[derive(Debug)]
pub struct FileEntry {
    pub path: String,
    pub content: String,
}

/// No two entries share a path.
pub open spec fn paths_unique(s: Seq<FileEntry>) -> bool {
    forall|i: int, j: int|
        0 <= i < j < s.len() ==> (#[trigger] s[i]).path@ != (#[trigger] s[j]).path@
}

/// Some entry carries this path.
pub open spec fn has_content(s: Seq<FileEntry>, path: Seq<char>) -> bool {
    exists|i: int| 0 <= i < s.len() && (#[trigger] s[i]).path@ == path
}

/// The index of the entry with this path.
pub open spec fn content_at(s: Seq<FileEntry>, path: Seq<char>) -> int {
    choose|i: int| 0 <= i < s.len() && (#[trigger] s[i]).path@ == path
}

pub proof fn lemma_content_at(s: Seq<FileEntry>, path: Seq<char>, i: int)
    requires
        paths_unique(s),
        0 <= i < s.len(),
        s[i].path@ == path,
    ensures
        has_content(s, path),
        content_at(s, path) == i,
{
    assert(has_content(s, path));
    let k = content_at(s, path);
    if k < i {
        assert(s[k].path@ != s[i].path@);
    }
    if i < k {
        assert(s[i].path@ != s[k].path@);
    }
}

pub(crate) fn find_content(v: &Vec<FileEntry>, path: &String) -> (r: Option<usize>)
    ensures
        match r {
            Some(i) => i < v@.len() && v@[i as int].path@ == path@,
            None => !has_content(v@, path@),
        },
{
    let mut i: usize = 0;
    while i < v.len()
        invariant
            i <= v@.len(),
            forall|j: int| 0 <= j < i ==> (#[trigger] v@[j]).path@ != path@,
        decreases v@.len() - i,
    {
        if v[i].path == *path {
            return Some(i);
        }
        i += 1;
    }
    None
}

/// Stores one body under its path, replacing what was there.
pub(crate) fn set_content(v: &mut Vec<FileEntry>, path: &String, content: &String)
    requires
        paths_unique(old(v)@),
    ensures
        paths_unique(final(v)@),
        final(v)@ == (if has_content(old(v)@, path@) {
            old(v)@.update(
                content_at(old(v)@, path@),
                (FileEntry { path: old(v)@[content_at(old(v)@, path@)].path, content: *content }),
            )
        } else {
            old(v)@.push((FileEntry { path: *path, content: *content }))
        }),
        has_content(final(v)@, path@),
        final(v)@[content_at(final(v)@, path@)].content == *content,
{
    match find_content(v, path) {
        Some(i) => {
            proof {
                lemma_content_at(old(v)@, path@, i as int);
            }
            let ghost before = v@;
            let entry = FileEntry { path: v[i].path.clone(), content: content.clone() };
            v.remove(i);
            v.insert(i, entry);
            proof {
                assert(v@ =~= before.update(
                    i as int,
                    (FileEntry { path: before[i as int].path, content: *content }),
                ));
                assert forall|p: int, q: int| 0 <= p < q < v@.len() implies (
                #[trigger] v@[p]).path@ != (#[trigger] v@[q]).path@ by {
                    assert(v@[p].path@ == before[p].path@);
                    assert(v@[q].path@ == before[q].path@);
                }
                lemma_content_at(v@, path@, i as int);
            }
        },
        None => {
            let entry = FileEntry { path: path.clone(), content: content.clone() };
            v.push(entry);
            proof {
                lemma_content_at(v@, path@, v@.len() - 1);
            }
        },
    }
}

/// The stored body under this path, or nothing.
pub(crate) fn content_of(v: &Vec<FileEntry>, path: &String) -> (r: Option<String>)
    requires
        paths_unique(v@),
    ensures
        r == (if has_content(v@, path@) {
            Some(v@[content_at(v@, path@)].content)
        } else {
            None::<String>
        }),
{
    match find_content(v, path) {
        Some(i) => {
            proof {
                lemma_content_at(v@, path@, i as int);
            }
            Some(v[i].content.clone())
        },
        None => None,
    }
}

/// The context every service call threads through: the store and the
/// model of the data directory's note bodies. The caller-supplied data
/// directory is only recorded; reading and writing the real files around
/// these calls is the embedding application's work, fed back in through
/// [`ServiceContext::load_content`].
pub struct ServiceContext {
    pub db: DatabaseManager,
    pub data_dir: String,
    pub contents: Vec<FileEntry>,
}

impl ServiceContext {
    /// The context invariant: the store invariant plus unique body paths.
    pub open spec fn wf(self) -> bool {
        &&& self.db.wf()
        &&& paths_unique(self.contents@)
    }

    /// Opens or creates the store at `db_path` and records the data
    /// directory; note bodies start unloaded.
    pub fn new(db_path: &String, data_dir: &String) -> (r: Result<ServiceContext, Error>)
        ensures
            match r {
                Ok(ctx) => ctx.wf() && ctx.data_dir == *data_dir,
                Err(e) => e matches Error::Database(_) || e matches Error::Storage(_),
            },
    {
        let db = DatabaseManager::new(db_path)?;
        Ok(ServiceContext { db, data_dir: data_dir.clone(), contents: Vec::new() })
    }

    /// A transient context for tests and ephemeral sessions.
    pub fn in_memory() -> (r: Result<ServiceContext, Error>)
        ensures
            match r {
                Ok(ctx) => ctx.wf() && ctx.db.is_empty() && ctx.contents@.len() == 0,
                Err(e) => e matches Error::Database(_),
            },
    {
        let db = DatabaseManager::in_memory()?;
        Ok(ServiceContext { db, data_dir: String::new(), contents: Vec::new() })
    }

    /// The data directory the caller supplied.
    pub fn data_dir(&self) -> (r: &String)
        ensures
            r == self.data_dir,
    {
        &self.data_dir
    }

    /// Feeds one note body read from disk into the context, replacing any
    /// loaded copy under the same path.
    pub fn load_content(&mut self, path: &String, content: &String)
        requires
            old(self).wf(),
        ensures
            final(self).wf(),
            final(self).db == old(self).db,
            has_content(final(self).contents@, path@),
            final(self).contents@[content_at(final(self).contents@, path@)].content == *content,
    {
        set_content(&mut self.contents, path, content);
    }
}

/// The note carries this id and is not soft-deleted.
pub open spec fn note_live(s: Seq<Note>, id: Seq<char>) -> bool {
    has_note(s, id) && !s[note_at(s, id)].is_deleted
}

/// The block carries this id and is not soft-deleted.
pub open spec fn block_live(s: Seq<Block>, id: Seq<char>) -> bool {
    has_block(s, id) && !s[block_at(s, id)].is_deleted
}

/// Note service: create, read joined with content, update, soft delete
/// and restore, listing, search, and membership pass-throughs.
pub struct NoteService;

impl NoteService {
    /// Counts the whitespace-delimited tokens of a body.
    pub fn count_words(content: &String) -> (r: i64)
        requires
            content@.len() <= i64::MAX,
        ensures
            r == word_count(content@),
    {
        crate::text::count_words_in(content)
    }

    /// Derives the filesystem-safe slug of a title: lowercased, every
    /// non-alphanumeric character collapsed to single hyphens, trimmed of
    /// hyphens at both ends, capped at fifty characters.
    pub fn slugify(title: &String) -> (r: String)
        ensures
            r@ == slug_of_title(title@),
    {
        crate::text::slug_text(title)
    }

    /// Creates a note: generates its id, derives the slug-based content
    /// path, stores the body under that path, computes the word count,
    /// and inserts the row.
    pub fn create(ctx: &mut ServiceContext, title: String, content: String) -> (r: Result<
        Note,
        Error,
    >)
        requires
            old(ctx).wf(),
            content@.len() <= i64::MAX,
        ensures
            r is Err ==> (r matches Err(Error::Conflict(_)) || r matches Err(
                Error::Database(_),
            )),
            final(ctx).wf(),
            same_except_notes(old(ctx).db, final(ctx).db),
            match r {
                Ok(n) => {
                    &&& n.title == title
                    &&& n.word_count == word_count(content@)
                    &&& !n.is_deleted
                    &&& n.deleted_at is None
                    &&& n.updated_at >= n.created_at
                    &&& n.id@.len() >= 5 && n.id@.subrange(0, 5) == "note-"@
                    &&& n.content_path@ == "notes/"@ + n.id@.subrange(5, n.id@.len() as int)
                        + "-"@ + slug_of_title(title@) + ".md"@
                    &&& !has_note(old(ctx).db.notes@, n.id@)
                    &&& final(ctx).db.notes@ == old(ctx).db.notes@.push(n)
                    &&& has_content(final(ctx).contents@, n.content_path@)
                    &&& final(ctx).contents@[content_at(
                        final(ctx).contents@,
                        n.content_path@,
                    )].content == content
                },
                Err(_) => final(ctx).db.notes@ == old(ctx).db.notes@ && final(ctx).contents == old(ctx).contents,
            },
    {
        let u = new_uuid();
        let note_id = new_strlit_string("note-").concat(u.as_str());
        let slug = Self::slugify(&title);
        let ghost uuid_chars = u@;
        let mut file_name = u;
        file_name.append("-");
        file_name.append(slug.as_str());
        file_name.append(".md");
        let content_path = new_strlit_string("notes/").concat(file_name.as_str());
        proof {
            reveal_strlit("note-");
            assert(note_id@.subrange(0, 5) =~= "note-"@);
            assert(note_id@.subrange(5, note_id@.len() as int) =~= uuid_chars);
        }
        let mut note = Note::new(note_id, title, content_path);
        let wc = Self::count_words(&content);
        note.update_word_count(wc);
        NoteDao::create(&mut ctx.db, &note)?;
        let fts: Vec<SqlValue> = vec![
            SqlValue::Text(content.clone()),
            SqlValue::Text(note.id.clone()),
        ];
        match ctx.db.db.exec("UPDATE notes_fts SET content = ?1 WHERE note_id = ?2", &fts) {
            _ => {},
        }
        set_content(&mut ctx.contents, &note.content_path, &content);
        Ok(note)
    }

    /// The note joined with its stored body; an unloaded body reads as
    /// the empty string, not as an error.
    pub fn get_by_id(ctx: &ServiceContext, id: &String, include_deleted: bool) -> (r: Result<
        Option<NoteWithContent>,
        Error,
    >)
        requires
            ctx.wf(),
        ensures
            match r {
                Ok(Some(nc)) => {
                    &&& has_note(ctx.db.notes@, id@)
                    &&& nc.note == ctx.db.notes@[note_at(ctx.db.notes@, id@)]
                    &&& note_visible(nc.note, include_deleted)
                    &&& nc.content@ == (if has_content(ctx.contents@, nc.note.content_path@) {
                        ctx.contents@[content_at(ctx.contents@, nc.note.content_path@)].content@
                    } else {
                        Seq::<char>::empty()
                    })
                },
                Ok(None) => !has_note(ctx.db.notes@, id@) || !note_visible(
                    ctx.db.notes@[note_at(ctx.db.notes@, id@)],
                    include_deleted,
                ),
                Err(_) => false,
            },
    {
        let row = NoteDao::get_by_id(&ctx.db, id, include_deleted)?;
        match row {
            Some(note) => {
                let content = match content_of(&ctx.contents, &note.content_path) {
                    Some(c) => c,
                    None => String::new(),
                };
                Ok(Some(NoteWithContent { note, content }))
            },
            None => Ok(None),
        }
    }

    /// Updates title and/or body of a live note. A new body is stored
    /// under the note's content path and the word count recomputed; the
    /// row's `updated_at` never decreases. A missing or deleted note
    /// fails with `NotFound` and changes nothing.
    pub fn update(
        ctx: &mut ServiceContext,
        id: &String,
        title: Option<String>,
        content: Option<String>,
    ) -> (r: Result<(), Error>)
        requires
            old(ctx).wf(),
            content matches Some(c) ==> c@.len() <= i64::MAX,
        ensures
            final(ctx).wf(),
            same_except_notes(old(ctx).db, final(ctx).db),
            !note_live(old(ctx).db.notes@, id@) ==> (r matches Err(Error::NotFound(msg))
                && msg@ == "Note not found: "@ + id@) && final(ctx).db.notes@ == old(
                ctx,
            ).db.notes@ && final(ctx).contents == old(ctx).contents,
            (note_live(old(ctx).db.notes@, id@) && r is Err) ==> (r matches Err(
                Error::Database(_),
            )),
            match r {
                Ok(_) => note_live(old(ctx).db.notes@, id@) && {
                    let i = note_at(old(ctx).db.notes@, id@);
                    let prev = old(ctx).db.notes@[i];
                    let now = final(ctx).db.notes@[i];
                    &&& final(ctx).db.notes@ == old(ctx).db.notes@.update(i, now)
                    &&& now.id == prev.id
                    &&& now.content_path == prev.content_path
                    &&& now.created_at == prev.created_at
                    &&& now.is_deleted == prev.is_deleted
                    &&& now.deleted_at == prev.deleted_at
                    &&& now.updated_at >= prev.updated_at
                    &&& now.title == (match title {
                        Some(t) => t,
                        None => prev.title,
                    })
                    &&& now.word_count == (match content {
                        Some(c) => word_count(c@),
                        None => prev.word_count as int,
                    })
                    &&& (content matches Some(c) ==> has_content(
                        final(ctx).contents@,
                        prev.content_path@,
                    ) && final(ctx).contents@[content_at(
                        final(ctx).contents@,
                        prev.content_path@,
                    )].content == c)
                    &&& (content is None ==> final(ctx).contents == old(ctx).contents)
                },
                Err(_) => final(ctx).db.notes@ == old(ctx).db.notes@ && final(ctx).contents == old(ctx).contents,
            },
    {
        let row = NoteDao::get_by_id(&ctx.db, id, false)?;
        let mut note = match row {
            Some(n) => n,
            None => {
                return Err(
                    Error::NotFound(new_strlit_string("Note not found: ").concat(id.as_str())),
                );
            },
        };
        match title {
            Some(t) => {
                note.update_title(t);
            },
            None => {},
        }
        let new_content = match content {
            Some(c) => {
                let wc = Self::count_words(&c);
                note.update_word_count(wc);
                Some(c)
            },
            None => None,
        };
        NoteDao::update(&mut ctx.db, &note)?;
        match new_content {
            Some(c) => {
                let fts: Vec<SqlValue> = vec![
                    SqlValue::Text(c.clone()),
                    SqlValue::Text(note.id.clone()),
                ];
                match ctx.db.db.exec(
                    "UPDATE notes_fts SET content = ?1 WHERE note_id = ?2",
                    &fts,
                ) {
                    _ => {},
                }
                set_content(&mut ctx.contents, &note.content_path, &c);
            },
            None => {},
        }
        Ok(())
    }

    /// Updates the body only.
    pub fn update_content(ctx: &mut ServiceContext, id: &String, content: String) -> (r: Result<
        (),
        Error,
    >)
        requires
            old(ctx).wf(),
            content@.len() <= i64::MAX,
        ensures
            final(ctx).wf(),
            same_except_notes(old(ctx).db, final(ctx).db),
            !note_live(old(ctx).db.notes@, id@) ==> (r matches Err(Error::NotFound(_))),
            r is Err ==> final(ctx).db.notes@ == old(ctx).db.notes@ && final(ctx).contents == old(ctx).contents,
    {
        Self::update(ctx, id, None, Some(content))
    }

    /// Updates the title only.
    pub fn update_title(ctx: &mut ServiceContext, id: &String, title: String) -> (r: Result<
        (),
        Error,
    >)
        requires
            old(ctx).wf(),
        ensures
            final(ctx).wf(),
            same_except_notes(old(ctx).db, final(ctx).db),
            !note_live(old(ctx).db.notes@, id@) ==> (r matches Err(Error::NotFound(_))),
            r is Err ==> final(ctx).db.notes@ == old(ctx).db.notes@ && final(ctx).contents == old(ctx).contents,
    {
        Self::update(ctx, id, Some(title), None)
    }

    /// Soft-deletes the note: the row is flagged, the body left in place.
    pub fn delete(ctx: &mut ServiceContext, id: &String) -> (r: Result<(), Error>)
        requires
            old(ctx).wf(),
        ensures
            r is Err ==> (r matches Err(Error::Database(_))),
            final(ctx).wf(),
            same_except_notes(old(ctx).db, final(ctx).db),
            final(ctx).contents == old(ctx).contents,
            match r {
                Ok(_) => {
                    if has_note(old(ctx).db.notes@, id@) {
                        final(ctx).db.notes@ == old(ctx).db.notes@.update(
                            note_at(old(ctx).db.notes@, id@),
                            final(ctx).db.notes@[note_at(old(ctx).db.notes@, id@)],
                        ) && crate::dao::note_is_soft_deleted_form(
                            final(ctx).db.notes@[note_at(old(ctx).db.notes@, id@)],
                            old(ctx).db.notes@[note_at(old(ctx).db.notes@, id@)],
                        )
                    } else {
                        final(ctx).db.notes@ == old(ctx).db.notes@
                    }
                },
                Err(_) => final(ctx).db.notes@ == old(ctx).db.notes@,
            },
    {
        NoteDao::soft_delete(&mut ctx.db, id)
    }

    /// Restores a soft-deleted note: field for field the record as it
    /// stood before the deletion.
    pub fn restore(ctx: &mut ServiceContext, id: &String) -> (r: Result<(), Error>)
        requires
            old(ctx).wf(),
        ensures
            r is Err ==> (r matches Err(Error::Database(_))),
            final(ctx).wf(),
            same_except_notes(old(ctx).db, final(ctx).db),
            final(ctx).contents == old(ctx).contents,
            match r {
                Ok(_) => final(ctx).db.notes@ == (if has_note(old(ctx).db.notes@, id@) {
                    old(ctx).db.notes@.update(
                        note_at(old(ctx).db.notes@, id@),
                        (Note {
                            is_deleted: false,
                            deleted_at: None,
                            ..old(ctx).db.notes@[note_at(old(ctx).db.notes@, id@)]
                        }),
                    )
                } else {
                    old(ctx).db.notes@
                }),
                Err(_) => final(ctx).db.notes@ == old(ctx).db.notes@,
            },
    {
        NoteDao::restore(&mut ctx.db, id)
    }

    /// Every visible note, most recently updated first.
    pub fn list(ctx: &ServiceContext, include_deleted: bool) -> (r: Result<Vec<Note>, Error>)
        requires
            ctx.wf(),
        ensures
            match r {
                Ok(v) => v@.to_multiset() =~= crate::dao::visible_notes(
                    ctx.db.notes@,
                    include_deleted,
                ).to_multiset() && notes_sorted_by_updated_desc(v@),
                Err(_) => false,
            },
    {
        NoteDao::list(&ctx.db, include_deleted)
    }

    /// The visible notes whose title contains the query, compared without
    /// regard to ASCII case, most recently updated first.
    pub fn search_by_title(ctx: &ServiceContext, query: &String, include_deleted: bool) -> (r:
        Result<Vec<Note>, Error>)
        requires
            ctx.wf(),
        ensures
            match r {
                Ok(v) => v@.to_multiset() =~= crate::dao::title_matching_notes(
                    ctx.db.notes@,
                    crate::text::lower_bytes(encode_utf8(query@)),
                    include_deleted,
                ).to_multiset() && notes_sorted_by_updated_desc(v@),
                Err(_) => false,
            },
    {
        NoteDao::search_by_title(&ctx.db, query, include_deleted)
    }

    /// The visible notes of one folder, each reported once.
    pub fn get_by_folder(ctx: &ServiceContext, folder_id: &String, include_deleted: bool) -> (r:
        Result<Vec<Note>, Error>)
        requires
            ctx.wf(),
        ensures
            match r {
                Ok(v) => {
                    &&& forall|k: int|
                        0 <= k < v@.len() ==> ctx.db.notes@.contains(#[trigger] v@[k])
                            && note_visible(v@[k], include_deleted) && has_nf(
                            ctx.db.note_folders@,
                            v@[k].id@,
                            folder_id@,
                        )
                    &&& forall|k: int, l: int|
                        0 <= k < l < v@.len() ==> (#[trigger] v@[k]).id@ != (#[trigger] v@[l]).id@
                    &&& forall|k: int, l: int|
                        0 <= k < l < v@.len() ==> crate::dao::membership_position(
                            ctx.db.note_folders@,
                            (#[trigger] v@[k]).id@,
                            folder_id@,
                        ) <= crate::dao::membership_position(
                            ctx.db.note_folders@,
                            (#[trigger] v@[l]).id@,
                            folder_id@,
                        )
                    &&& forall|w: int|
                        (0 <= w < ctx.db.note_folders@.len() && (
                        #[trigger] ctx.db.note_folders@[w]).folder_id@ == folder_id@ && has_note(
                            ctx.db.notes@,
                            ctx.db.note_folders@[w].note_id@,
                        ) && note_visible(
                            ctx.db.notes@[note_at(ctx.db.notes@, ctx.db.note_folders@[w].note_id@)],
                            include_deleted,
                        )) ==> exists|k: int|
                            0 <= k < v@.len() && (#[trigger] v@[k]).id@
                                == ctx.db.note_folders@[w].note_id@
                },
                Err(_) => false,
            },
    {
        NoteDao::get_by_folder(&ctx.db, folder_id, include_deleted)
    }

    /// Puts the note into a folder; a primary membership displaces the
    /// note's previous primary mark in the same step.
    pub fn add_to_folder(
        ctx: &mut ServiceContext,
        note_id: &String,
        folder_id: &String,
        is_primary: bool,
        position: i64,
    ) -> (r: Result<(), Error>)
        requires
            old(ctx).wf(),
        ensures
            (!has_nf(old(ctx).db.note_folders@, note_id@, folder_id@) && r is Err) ==> (
            r matches Err(Error::Database(_))),
            final(ctx).wf(),
            crate::relation_dao::same_except_note_folders(old(ctx).db, final(ctx).db),
            final(ctx).contents == old(ctx).contents,
            has_nf(old(ctx).db.note_folders@, note_id@, folder_id@) ==> (r matches Err(
                Error::Conflict(_),
            )),
            match r {
                Ok(_) => {
                    &&& !has_nf(old(ctx).db.note_folders@, note_id@, folder_id@)
                    &&& final(ctx).db.note_folders@.len() == old(ctx).db.note_folders@.len() + 1
                    &&& final(ctx).db.note_folders@ == (if is_primary {
                        crate::relation_dao::nf_clear_primary(
                            old(ctx).db.note_folders@,
                            note_id@,
                        )
                    } else {
                        old(ctx).db.note_folders@
                    }).push(final(ctx).db.note_folders@.last())
                    &&& final(ctx).db.note_folders@.last().note_id@ == note_id@
                    &&& final(ctx).db.note_folders@.last().folder_id@ == folder_id@
                    &&& final(ctx).db.note_folders@.last().is_primary == is_primary
                    &&& final(ctx).db.note_folders@.last().position == position
                },
                Err(_) => final(ctx).db.note_folders@ == old(ctx).db.note_folders@,
            },
    {
        NoteFolderDao::add(&mut ctx.db, note_id, folder_id, is_primary, position)
    }

    /// Takes the note out of a folder.
    pub fn remove_from_folder(ctx: &mut ServiceContext, note_id: &String, folder_id: &String)
        -> (r: Result<(), Error>)
        requires
            old(ctx).wf(),
        ensures
            r is Err ==> (r matches Err(Error::Database(_))),
            final(ctx).wf(),
            crate::relation_dao::same_except_note_folders(old(ctx).db, final(ctx).db),
            final(ctx).contents == old(ctx).contents,
            r is Ok ==> !has_nf(final(ctx).db.note_folders@, note_id@, folder_id@),
            match r {
                Ok(_) => final(ctx).db.note_folders@ == (if has_nf(
                    old(ctx).db.note_folders@,
                    note_id@,
                    folder_id@,
                ) {
                    old(ctx).db.note_folders@.remove(
                        crate::relation_dao::nf_at(
                            old(ctx).db.note_folders@,
                            note_id@,
                            folder_id@,
                        ),
                    )
                } else {
                    old(ctx).db.note_folders@
                }),
                Err(_) => final(ctx).db.note_folders@ == old(ctx).db.note_folders@,
            },
    {
        let r = NoteFolderDao::remove(&mut ctx.db, note_id, folder_id);
        proof {
            if r is Ok && has_nf(old(ctx).db.note_folders@, note_id@, folder_id@) {
                let i = crate::relation_dao::nf_at(
                    old(ctx).db.note_folders@,
                    note_id@,
                    folder_id@,
                );
                let s = old(ctx).db.note_folders@;
                let t = final(ctx).db.note_folders@;
                assert forall|j: int| 0 <= j < t.len() implies !((#[trigger] t[j]).note_id@
                    == note_id@ && t[j].folder_id@ == folder_id@) by {
                    let j0 = if j < i {
                        j
                    } else {
                        j + 1
                    };
                    assert(t[j] == s[j0]);
                    if j0 != i {
                        assert(!(s[j0].note_id@ == s[i].note_id@ && s[j0].folder_id@
                            == s[i].folder_id@));
                    }
                }
            }
        }
        r
    }

    /// Tags the note.
    pub fn add_tag(ctx: &mut ServiceContext, note_id: &String, tag_id: &String) -> (r: Result<
        (),
        Error,
    >)
        requires
            old(ctx).wf(),
        ensures
            (!has_nt(old(ctx).db.note_tags@, note_id@, tag_id@) && r is Err) ==> (r matches Err(
                Error::Database(_),
            )),
            final(ctx).wf(),
            crate::relation_dao::same_except_note_tags(old(ctx).db, final(ctx).db),
            final(ctx).contents == old(ctx).contents,
            has_nt(old(ctx).db.note_tags@, note_id@, tag_id@) ==> (r matches Err(
                Error::Conflict(_),
            )),
            match r {
                Ok(_) => {
                    &&& !has_nt(old(ctx).db.note_tags@, note_id@, tag_id@)
                    &&& final(ctx).db.note_tags@.len() == old(ctx).db.note_tags@.len() + 1
                    &&& final(ctx).db.note_tags@ == old(ctx).db.note_tags@.push(
                        final(ctx).db.note_tags@.last(),
                    )
                    &&& final(ctx).db.note_tags@.last().note_id@ == note_id@
                    &&& final(ctx).db.note_tags@.last().tag_id@ == tag_id@
                },
                Err(_) => final(ctx).db.note_tags@ == old(ctx).db.note_tags@,
            },
    {
        NoteTagDao::add(&mut ctx.db, note_id, tag_id)
    }

    /// Untags the note.
    pub fn remove_tag(ctx: &mut ServiceContext, note_id: &String, tag_id: &String) -> (r: Result<
        (),
        Error,
    >)
        requires
            old(ctx).wf(),
        ensures
            r is Err ==> (r matches Err(Error::Database(_))),
            final(ctx).wf(),
            crate::relation_dao::same_except_note_tags(old(ctx).db, final(ctx).db),
            final(ctx).contents == old(ctx).contents,
            match r {
                Ok(_) => final(ctx).db.note_tags@ == (if has_nt(
                    old(ctx).db.note_tags@,
                    note_id@,
                    tag_id@,
                ) {
                    old(ctx).db.note_tags@.remove(
                        crate::relation_dao::nt_at(old(ctx).db.note_tags@, note_id@, tag_id@),
                    )
                } else {
                    old(ctx).db.note_tags@
                }),
                Err(_) => final(ctx).db.note_tags@ == old(ctx).db.note_tags@,
            },
    {
        NoteTagDao::remove(&mut ctx.db, note_id, tag_id)
    }

    /// The tags on a note, resolved to records; a membership naming a
    /// missing tag is skipped.
    pub fn get_tags(ctx: &ServiceContext, note_id: &String) -> (r: Result<Vec<Tag>, Error>)
        requires
            ctx.wf(),
        ensures
            match r {
                Ok(v) => v@ == collect_tags(
                    crate::relation_dao::nt_tag_ids_of_note(ctx.db.note_tags@, note_id@),
                    ctx.db.tags@,
                ),
                Err(_) => false,
            },
    {
        let ids = NoteTagDao::get_tags_for_note(&ctx.db, note_id)?;
        let mut out: Vec<Tag> = Vec::new();
        let mut i: usize = 0;
        while i < ids.len()
            invariant
                ctx.wf(),
                i <= ids@.len(),
                out@ == collect_tags(ids@.subrange(0, i as int), ctx.db.tags@),
            decreases ids@.len() - i,
        {
            match TagDao::get_by_id(&ctx.db, &ids[i])? {
                Some(t) => {
                    out.push(t);
                },
                None => {},
            }
            proof {
                let pre = ids@.subrange(0, i as int);
                let cur = ids@.subrange(0, i as int + 1);
                assert(cur.drop_last() =~= pre);
                assert(cur.last() == ids@[i as int]);
            }
            i += 1;
        }
        proof {
            assert(ids@.subrange(0, ids@.len() as int) =~= ids@);
        }
        Ok(out)
    }
}

/// The tag records behind a list of tag ids, skipping missing ids, in
/// list order.
pub open spec fn collect_tags(ids: Seq<String>, tags: Seq<Tag>) -> Seq<Tag>
    decreases ids.len(),
{
    if ids.len() == 0 {
        Seq::empty()
    } else {
        let rest = collect_tags(ids.drop_last(), tags);
        if has_tag(tags, ids.last()@) {
            rest.push(tags[tag_at(tags, ids.last()@)])
        } else {
            rest
        }
    }
}

/// The live note records behind a list of note ids, skipping missing or
/// deleted ids, in list order.
pub open spec fn collect_live_notes(ids: Seq<String>, notes: Seq<Note>) -> Seq<Note>
    decreases ids.len(),
{
    if ids.len() == 0 {
        Seq::empty()
    } else {
        let rest = collect_live_notes(ids.drop_last(), notes);
        if note_live(notes, ids.last()@) {
            rest.push(notes[note_at(notes, ids.last()@)])
        } else {
            rest
        }
    }
}

/// The live block records behind a list of block ids, skipping missing
/// or deleted ids, in list order.
pub open spec fn collect_live_blocks(ids: Seq<String>, blocks: Seq<Block>) -> Seq<Block>
    decreases ids.len(),
{
    if ids.len() == 0 {
        Seq::empty()
    } else {
        let rest = collect_live_blocks(ids.drop_last(), blocks);
        if block_live(blocks, ids.last()@) {
            rest.push(blocks[block_at(blocks, ids.last()@)])
        } else {
            rest
        }
    }
}

/// Tag service: tags are created by unique name and hard-deleted.
pub struct TagService;

impl TagService {
    /// Creates a tag, refusing a name that already exists.
    pub fn create(ctx: &mut ServiceContext, name: String) -> (r: Result<Tag, Error>)
        requires
            old(ctx).wf(),
        ensures
            final(ctx).wf(),
            same_except_tags(old(ctx).db, final(ctx).db),
            final(ctx).db.note_tags == old(ctx).db.note_tags,
            final(ctx).contents == old(ctx).contents,
            has_tag_named(old(ctx).db.tags@, name@) ==> (r matches Err(Error::InvalidInput(msg))
                && msg@ == "Tag '"@ + name@ + "' already exists"@),
            (!has_tag_named(old(ctx).db.tags@, name@) && r is Err) ==> (r matches Err(
                Error::Conflict(_),
            ) || r matches Err(Error::Database(_))),
            match r {
                Ok(t) => t.name == name && t.id@.len() >= 4 && t.id@.subrange(0, 4) == "tag-"@
                    && !has_tag_named(old(ctx).db.tags@, name@) && final(ctx).db.tags@ == old(
                    ctx,
                ).db.tags@.push(t),
                Err(_) => final(ctx).db.tags@ == old(ctx).db.tags@,
            },
    {
        match TagDao::get_by_name(&ctx.db, &name)? {
            Some(_) => {
                return Err(
                    Error::InvalidInput(
                        new_strlit_string("Tag '").concat(name.as_str()).concat(
                            "' already exists",
                        ),
                    ),
                );
            },
            None => {},
        }
        let u = new_uuid();
        let tag_id = new_strlit_string("tag-").concat(u.as_str());
        proof {
            reveal_strlit("tag-");
            assert(tag_id@.subrange(0, 4) =~= "tag-"@);
        }
        let tag = Tag::new(tag_id, name);
        TagDao::create(&mut ctx.db, &tag)?;
        Ok(tag)
    }

    /// The tag with this id, or nothing.
    pub fn get_by_id(ctx: &ServiceContext, id: &String) -> (r: Result<Option<Tag>, Error>)
        requires
            ctx.wf(),
        ensures
            match r {
                Ok(Some(t)) => has_tag(ctx.db.tags@, id@) && t == ctx.db.tags@[tag_at(
                    ctx.db.tags@,
                    id@,
                )],
                Ok(None) => !has_tag(ctx.db.tags@, id@),
                Err(_) => false,
            },
    {
        TagDao::get_by_id(&ctx.db, id)
    }

    /// The tag with this exact name, or nothing.
    pub fn get_by_name(ctx: &ServiceContext, name: &String) -> (r: Result<Option<Tag>, Error>)
        requires
            ctx.wf(),
        ensures
            match r {
                Ok(Some(t)) => has_tag_named(ctx.db.tags@, name@) && t == ctx.db.tags@[
                    tag_named_at(ctx.db.tags@, name@)],
                Ok(None) => !has_tag_named(ctx.db.tags@, name@),
                Err(_) => false,
            },
    {
        TagDao::get_by_name(&ctx.db, name)
    }

    /// Every tag, in ascending name order.
    pub fn list(ctx: &ServiceContext) -> (r: Result<Vec<Tag>, Error>)
        requires
            ctx.wf(),
        ensures
            match r {
                Ok(v) => v@.to_multiset() =~= ctx.db.tags@.to_multiset()
                    && crate::sorting::tags_sorted_by_name(v@),
                Err(_) => false,
            },
    {
        TagDao::list(&ctx.db)
    }

    /// Full-row overwrite of a tag.
    pub fn update(ctx: &mut ServiceContext, tag: &Tag) -> (r: Result<(), Error>)
        requires
            old(ctx).wf(),
        ensures
            (has_tag_named(old(ctx).db.tags@, tag.name@) && old(ctx).db.tags@[tag_named_at(
                old(ctx).db.tags@,
                tag.name@,
            )].id@ != tag.id@) <==> (r matches Err(Error::Conflict(_))),
            ((r is Err && !(r matches Err(Error::Conflict(_)))) ==> (r matches Err(
                Error::Database(_),
            ))),
            final(ctx).wf(),
            same_except_tags(old(ctx).db, final(ctx).db),
            final(ctx).db.note_tags == old(ctx).db.note_tags,
            final(ctx).contents == old(ctx).contents,
            match r {
                Ok(_) => final(ctx).db.tags@ == (if has_tag(old(ctx).db.tags@, tag.id@) {
                    old(ctx).db.tags@.update(tag_at(old(ctx).db.tags@, tag.id@), *tag)
                } else {
                    old(ctx).db.tags@
                }),
                Err(_) => final(ctx).db.tags@ == old(ctx).db.tags@,
            },
    {
        TagDao::update(&mut ctx.db, tag)
    }

    /// Hard-deletes the tag together with its note memberships.
    pub fn delete(ctx: &mut ServiceContext, id: &String) -> (r: Result<(), Error>)
        requires
            old(ctx).wf(),
        ensures
            r is Err ==> (r matches Err(Error::Database(_))),
            final(ctx).wf(),
            same_except_tags(old(ctx).db, final(ctx).db),
            final(ctx).contents == old(ctx).contents,
            match r {
                Ok(_) => final(ctx).db.tags@ == (if has_tag(old(ctx).db.tags@, id@) {
                    old(ctx).db.tags@.remove(tag_at(old(ctx).db.tags@, id@))
                } else {
                    old(ctx).db.tags@
                }) && final(ctx).db.note_tags@ == crate::relation_dao::nt_without_tag(
                    old(ctx).db.note_tags@,
                    id@,
                ),
                Err(_) => final(ctx).db.tags@ == old(ctx).db.tags@ && final(ctx).db.note_tags@
                    == old(ctx).db.note_tags@,
            },
    {
        TagDao::delete(&mut ctx.db, id)
    }

    /// The live notes carrying a tag, skipping dangling memberships.
    pub fn get_notes(ctx: &ServiceContext, tag_id: &String) -> (r: Result<Vec<Note>, Error>)
        requires
            ctx.wf(),
        ensures
            match r {
                Ok(v) => v@ == collect_live_notes(
                    crate::relation_dao::nt_note_ids_of_tag(ctx.db.note_tags@, tag_id@),
                    ctx.db.notes@,
                ),
                Err(_) => false,
            },
    {
        let ids = NoteTagDao::get_notes_with_tag(&ctx.db, tag_id)?;
        let mut out: Vec<Note> = Vec::new();
        let mut i: usize = 0;
        while i < ids.len()
            invariant
                ctx.wf(),
                i <= ids@.len(),
                out@ == collect_live_notes(ids@.subrange(0, i as int), ctx.db.notes@),
            decreases ids@.len() - i,
        {
            match NoteDao::get_by_id(&ctx.db, &ids[i], false)? {
                Some(n) => {
                    out.push(n);
                },
                None => {},
            }
            proof {
                let pre = ids@.subrange(0, i as int);
                let cur = ids@.subrange(0, i as int + 1);
                assert(cur.drop_last() =~= pre);
                assert(cur.last() == ids@[i as int]);
            }
            i += 1;
        }
        proof {
            assert(ids@.subrange(0, ids@.len() as int) =~= ids@);
        }
        Ok(out)
    }
}

/// Folder service: tree creation with materialized paths, and a guarded
/// hard delete.
pub struct FolderService;

impl FolderService {
    /// Creates a folder under an existing parent (or as a root). The path
    /// is computed once, from the parent's stored path, and never
    /// re-derived on later renames or moves.
    pub fn create(ctx: &mut ServiceContext, name: String, parent_id: Option<String>) -> (r:
        Result<Folder, Error>)
        requires
            old(ctx).wf(),
        ensures
            final(ctx).wf(),
            same_except_folders(old(ctx).db, final(ctx).db),
            final(ctx).db.note_folders == old(ctx).db.note_folders,
            final(ctx).contents == old(ctx).contents,
            (match parent_id {
                Some(p) => !has_folder(old(ctx).db.folders@, p@) ==> (r matches Err(
                    Error::NotFound(msg),
                ) && msg@ == "Parent folder not found: "@ + p@),
                None => true,
            }),
            ((match parent_id {
                Some(p) => has_folder(old(ctx).db.folders@, p@),
                None => true,
            }) && r is Err) ==> (r matches Err(Error::Conflict(_)) || r matches Err(
                Error::Database(_),
            )),
            match r {
                Ok(f) => {
                    &&& f.name == name
                    &&& f.parent_id == parent_id
                    &&& f.id@.len() >= 7 && f.id@.subrange(0, 7) == "folder-"@
                    &&& final(ctx).db.folders@ == old(ctx).db.folders@.push(f)
                    &&& !has_folder(old(ctx).db.folders@, f.id@)
                    &&& f.path@ == (match parent_id {
                        Some(p) => old(ctx).db.folders@[folder_at(old(ctx).db.folders@, p@)].path@
                            + "/"@ + name@,
                        None => "/"@ + name@,
                    })
                },
                Err(_) => final(ctx).db.folders@ == old(ctx).db.folders@,
            },
    {
        let parent_path: Option<String> = match &parent_id {
            Some(pid) => {
                match FolderDao::get_by_id(&ctx.db, pid)? {
                    Some(parent) => Some(parent.path),
                    None => {
                        return Err(
                            Error::NotFound(
                                new_strlit_string("Parent folder not found: ").concat(
                                    pid.as_str(),
                                ),
                            ),
                        );
                    },
                }
            },
            None => None,
        };
        let path = match &parent_path {
            Some(pp) => pp.clone().concat("/").concat(name.as_str()),
            None => new_strlit_string("/").concat(name.as_str()),
        };
        let u = new_uuid();
        let folder_id = new_strlit_string("folder-").concat(u.as_str());
        proof {
            reveal_strlit("folder-");
            assert(folder_id@.subrange(0, 7) =~= "folder-"@);
        }
        let folder = Folder::new(folder_id, name, parent_id, path);
        FolderDao::create(&mut ctx.db, &folder)?;
        Ok(folder)
    }

    /// The folder with this id, or nothing.
    pub fn get_by_id(ctx: &ServiceContext, id: &String) -> (r: Result<Option<Folder>, Error>)
        requires
            ctx.wf(),
        ensures
            match r {
                Ok(Some(f)) => has_folder(ctx.db.folders@, id@) && f == ctx.db.folders@[folder_at(
                    ctx.db.folders@,
                    id@,
                )],
                Ok(None) => !has_folder(ctx.db.folders@, id@),
                Err(_) => false,
            },
    {
        FolderDao::get_by_id(&ctx.db, id)
    }

    /// Every root folder, by ascending position.
    pub fn get_roots(ctx: &ServiceContext) -> (r: Result<Vec<Folder>, Error>)
        requires
            ctx.wf(),
        ensures
            match r {
                Ok(v) => v@.to_multiset() =~= crate::dao::root_folders(
                    ctx.db.folders@,
                ).to_multiset() && crate::sorting::folders_sorted_by_position(v@),
                Err(_) => false,
            },
    {
        FolderDao::get_roots(&ctx.db)
    }

    /// The children of one folder, by ascending position.
    pub fn get_children(ctx: &ServiceContext, parent_id: &String) -> (r: Result<
        Vec<Folder>,
        Error,
    >)
        requires
            ctx.wf(),
        ensures
            match r {
                Ok(v) => v@.to_multiset() =~= children_of(
                    ctx.db.folders@,
                    parent_id@,
                ).to_multiset() && crate::sorting::folders_sorted_by_position(v@),
                Err(_) => false,
            },
    {
        FolderDao::get_children(&ctx.db, parent_id)
    }

    /// Full-row overwrite of a folder; the stored path is whatever the
    /// caller passes, per the materialized-path contract.
    pub fn update(ctx: &mut ServiceContext, folder: &Folder) -> (r: Result<(), Error>)
        requires
            old(ctx).wf(),
        ensures
            r is Err ==> (r matches Err(Error::Database(_))),
            final(ctx).wf(),
            same_except_folders(old(ctx).db, final(ctx).db),
            final(ctx).db.note_folders == old(ctx).db.note_folders,
            final(ctx).contents == old(ctx).contents,
            match r {
                Ok(_) => final(ctx).db.folders@ == (if has_folder(
                    old(ctx).db.folders@,
                    folder.id@,
                ) {
                    old(ctx).db.folders@.update(
                        folder_at(old(ctx).db.folders@, folder.id@),
                        *folder,
                    )
                } else {
                    old(ctx).db.folders@
                }),
                Err(_) => final(ctx).db.folders@ == old(ctx).db.folders@,
            },
    {
        FolderDao::update(&mut ctx.db, folder)
    }

    /// Hard-deletes a folder. A folder that still has child folders is
    /// refused with `InvalidInput` and nothing changes; children are
    /// never re-parented silently.
    pub fn delete(ctx: &mut ServiceContext, id: &String) -> (r: Result<(), Error>)
        requires
            old(ctx).wf(),
        ensures
            final(ctx).wf(),
            same_except_folders(old(ctx).db, final(ctx).db),
            final(ctx).contents == old(ctx).contents,
            children_of(old(ctx).db.folders@, id@).len() > 0 ==> (r matches Err(
                Error::InvalidInput(msg),
            ) && msg@ == "Cannot delete folder with children: "@ + id@) && final(ctx).db.folders@
                == old(ctx).db.folders@ && final(ctx).db.note_folders@ == old(
                ctx,
            ).db.note_folders@,
            (children_of(old(ctx).db.folders@, id@).len() == 0 && r is Err) ==> (r matches Err(
                Error::Database(_),
            )),
            match r {
                Ok(_) => {
                    &&& children_of(old(ctx).db.folders@, id@).len() == 0
                    &&& final(ctx).db.folders@ == (if has_folder(old(ctx).db.folders@, id@) {
                        old(ctx).db.folders@.remove(folder_at(old(ctx).db.folders@, id@))
                    } else {
                        old(ctx).db.folders@
                    })
                    &&& !has_folder(final(ctx).db.folders@, id@)
                    &&& final(ctx).db.note_folders@ == crate::relation_dao::nf_without_folder(
                        old(ctx).db.note_folders@,
                        id@,
                    )
                },
                Err(_) => final(ctx).db.folders@ == old(ctx).db.folders@ && final(ctx).db.note_folders@ == old(ctx).db.note_folders@,
            },
    {
        let children = FolderDao::get_children(&ctx.db, id)?;
        if children.len() > 0 {
            proof {
                broadcast use vstd::seq_lib::group_to_multiset_ensures;

                assert(children@.to_multiset().len() == children@.len());
                assert(children_of(old(ctx).db.folders@, id@).to_multiset().len() == children_of(
                    old(ctx).db.folders@,
                    id@,
                ).len());
            }
            return Err(
                Error::InvalidInput(
                    new_strlit_string("Cannot delete folder with children: ").concat(id.as_str()),
                ),
            );
        }
        proof {
            broadcast use vstd::seq_lib::group_to_multiset_ensures;

            assert(children@.to_multiset().len() == children@.len());
            assert(children_of(old(ctx).db.folders@, id@).to_multiset().len() == children_of(
                old(ctx).db.folders@,
                id@,
            ).len());
        }
        let r = FolderDao::delete(&mut ctx.db, id);
        proof {
            if r is Ok && has_folder(old(ctx).db.folders@, id@) {
                let i = folder_at(old(ctx).db.folders@, id@);
                let s = old(ctx).db.folders@;
                let t = final(ctx).db.folders@;
                assert forall|j: int| 0 <= j < t.len() implies (#[trigger] t[j]).id@ != id@ by {
                    let j0 = if j < i {
                        j
                    } else {
                        j + 1
                    };
                    assert(t[j] == s[j0]);
                    if j0 != i {
                        assert(s[j0].id@ != s[i].id@);
                    }
                }
            }
        }
        r
    }

    /// The visible notes of one folder.
    pub fn get_notes(ctx: &ServiceContext, folder_id: &String, include_deleted: bool) -> (r:
        Result<Vec<Note>, Error>)
        requires
            ctx.wf(),
        ensures
            match r {
                Ok(v) => {
                    &&& forall|k: int|
                        0 <= k < v@.len() ==> ctx.db.notes@.contains(#[trigger] v@[k])
                            && note_visible(v@[k], include_deleted) && has_nf(
                            ctx.db.note_folders@,
                            v@[k].id@,
                            folder_id@,
                        )
                    &&& forall|k: int, l: int|
                        0 <= k < l < v@.len() ==> (#[trigger] v@[k]).id@ != (#[trigger] v@[l]).id@
                    &&& forall|k: int, l: int|
                        0 <= k < l < v@.len() ==> crate::dao::membership_position(
                            ctx.db.note_folders@,
                            (#[trigger] v@[k]).id@,
                            folder_id@,
                        ) <= crate::dao::membership_position(
                            ctx.db.note_folders@,
                            (#[trigger] v@[l]).id@,
                            folder_id@,
                        )
                    &&& forall|w: int|
                        (0 <= w < ctx.db.note_folders@.len() && (
                        #[trigger] ctx.db.note_folders@[w]).folder_id@ == folder_id@ && has_note(
                            ctx.db.notes@,
                            ctx.db.note_folders@[w].note_id@,
                        ) && note_visible(
                            ctx.db.notes@[note_at(ctx.db.notes@, ctx.db.note_folders@[w].note_id@)],
                            include_deleted,
                        )) ==> exists|k: int|
                            0 <= k < v@.len() && (#[trigger] v@[k]).id@
                                == ctx.db.note_folders@[w].note_id@
                },
                Err(_) => false,
            },
    {
        NoteDao::get_by_folder(&ctx.db, folder_id, include_deleted)
    }
}

/// Link service: both creation operations check that the endpoints exist
/// and are live before inserting anything.
pub struct LinkService;

impl LinkService {
    /// Creates a note-to-note link. A missing or deleted endpoint fails
    /// with `NotFound` naming the side, and no row is inserted.
    pub fn create_note_link(
        ctx: &mut ServiceContext,
        source_note_id: String,
        target_note_id: String,
        link_text: Option<String>,
    ) -> (r: Result<Link, Error>)
        requires
            old(ctx).wf(),
        ensures
            final(ctx).wf(),
            same_except_links(old(ctx).db, final(ctx).db),
            final(ctx).contents == old(ctx).contents,
            !note_live(old(ctx).db.notes@, source_note_id@) ==> (r matches Err(
                Error::NotFound(msg),
            ) && msg@ == "Source note not found: "@ + source_note_id@),
            (note_live(old(ctx).db.notes@, source_note_id@) && !note_live(
                old(ctx).db.notes@,
                target_note_id@,
            )) ==> (r matches Err(Error::NotFound(msg)) && msg@ == "Target note not found: "@
                + target_note_id@),
            (note_live(old(ctx).db.notes@, source_note_id@) && note_live(
                old(ctx).db.notes@,
                target_note_id@,
            ) && r is Err) ==> (r matches Err(Error::Conflict(_)) || r matches Err(
                Error::Database(_),
            )),
            match r {
                Ok(l) => {
                    &&& note_live(old(ctx).db.notes@, source_note_id@)
                    &&& note_live(old(ctx).db.notes@, target_note_id@)
                    &&& l.id@.len() >= 5 && l.id@.subrange(0, 5) == "link-"@
                    &&& l.source_note_id == source_note_id
                    &&& l.target_note_id == Some(target_note_id)
                    &&& l.link_text == link_text
                    &&& l.link_type@ == "note_link"@
                    &&& final(ctx).db.links@ == old(ctx).db.links@.push(l)
                },
                Err(_) => final(ctx).db.links@ == old(ctx).db.links@,
            },
    {
        if NoteDao::get_by_id(&ctx.db, &source_note_id, false)?.is_none() {
            return Err(
                Error::NotFound(
                    new_strlit_string("Source note not found: ").concat(source_note_id.as_str()),
                ),
            );
        }
        if NoteDao::get_by_id(&ctx.db, &target_note_id, false)?.is_none() {
            return Err(
                Error::NotFound(
                    new_strlit_string("Target note not found: ").concat(target_note_id.as_str()),
                ),
            );
        }
        let u = new_uuid();
        let link_id = new_strlit_string("link-").concat(u.as_str());
        proof {
            reveal_strlit("link-");
            assert(link_id@.subrange(0, 5) =~= "link-"@);
        }
        let link = Link::new_note_link(link_id, source_note_id, target_note_id, link_text);
        LinkDao::create(&mut ctx.db, &link)?;
        Ok(link)
    }

    /// Creates a block-to-block reference link under the note that owns
    /// the source block. A missing or deleted block fails with `NotFound`
    /// naming the side, and no row is inserted.
    pub fn create_block_reference(
        ctx: &mut ServiceContext,
        source_block_id: String,
        target_block_id: String,
        source_note_id: String,
    ) -> (r: Result<Link, Error>)
        requires
            old(ctx).wf(),
        ensures
            final(ctx).wf(),
            same_except_links(old(ctx).db, final(ctx).db),
            final(ctx).contents == old(ctx).contents,
            !block_live(old(ctx).db.blocks@, source_block_id@) ==> (r matches Err(
                Error::NotFound(msg),
            ) && msg@ == "Source block not found: "@ + source_block_id@),
            (block_live(old(ctx).db.blocks@, source_block_id@) && !block_live(
                old(ctx).db.blocks@,
                target_block_id@,
            )) ==> (r matches Err(Error::NotFound(msg)) && msg@ == "Target block not found: "@
                + target_block_id@),
            (block_live(old(ctx).db.blocks@, source_block_id@) && block_live(
                old(ctx).db.blocks@,
                target_block_id@,
            ) && r is Err) ==> (r matches Err(Error::Conflict(_)) || r matches Err(
                Error::Database(_),
            )),
            match r {
                Ok(l) => {
                    &&& block_live(old(ctx).db.blocks@, source_block_id@)
                    &&& block_live(old(ctx).db.blocks@, target_block_id@)
                    &&& l.id@.len() >= 5 && l.id@.subrange(0, 5) == "link-"@
                    &&& l.source_block_id == Some(source_block_id)
                    &&& l.target_block_id == Some(target_block_id)
                    &&& l.target_note_id is None
                    &&& l.source_note_id == source_note_id
                    &&& l.link_type@ == "block_reference"@
                    &&& final(ctx).db.links@ == old(ctx).db.links@.push(l)
                },
                Err(_) => final(ctx).db.links@ == old(ctx).db.links@,
            },
    {
        if BlockDao::get_by_id(&ctx.db, &source_block_id, false)?.is_none() {
            return Err(
                Error::NotFound(
                    new_strlit_string("Source block not found: ").concat(source_block_id.as_str()),
                ),
            );
        }
        if BlockDao::get_by_id(&ctx.db, &target_block_id, false)?.is_none() {
            return Err(
                Error::NotFound(
                    new_strlit_string("Target block not found: ").concat(target_block_id.as_str()),
                ),
            );
        }
        let u = new_uuid();
        let link_id = new_strlit_string("link-").concat(u.as_str());
        proof {
            reveal_strlit("link-");
            assert(link_id@.subrange(0, 5) =~= "link-"@);
        }
        let link = Link::new_block_reference(
            link_id,
            source_block_id,
            target_block_id,
            source_note_id,
        );
        LinkDao::create(&mut ctx.db, &link)?;
        Ok(link)
    }

    /// The link with this id, or nothing.
    pub fn get_by_id(ctx: &ServiceContext, id: &String) -> (r: Result<Option<Link>, Error>)
        requires
            ctx.wf(),
        ensures
            match r {
                Ok(Some(l)) => has_link(ctx.db.links@, id@) && l == ctx.db.links@[crate::dao::link_at(
                    ctx.db.links@,
                    id@,
                )],
                Ok(None) => !has_link(ctx.db.links@, id@),
                Err(_) => false,
            },
    {
        LinkDao::get_by_id(&ctx.db, id)
    }

    /// Every link leaving this note.
    pub fn get_outgoing_links(ctx: &ServiceContext, note_id: &String) -> (r: Result<
        Vec<Link>,
        Error,
    >)
        requires
            ctx.wf(),
        ensures
            match r {
                Ok(v) => v@ == crate::dao::links_from_note(ctx.db.links@, note_id@),
                Err(_) => false,
            },
    {
        LinkDao::get_outgoing_links(&ctx.db, note_id)
    }

    /// Every link arriving at this note.
    pub fn get_incoming_links(ctx: &ServiceContext, note_id: &String) -> (r: Result<
        Vec<Link>,
        Error,
    >)
        requires
            ctx.wf(),
        ensures
            match r {
                Ok(v) => v@ == crate::dao::links_to_note(ctx.db.links@, note_id@),
                Err(_) => false,
            },
    {
        LinkDao::get_incoming_links(&ctx.db, note_id)
    }

    /// Every link leaving this block.
    pub fn get_links_from_block(ctx: &ServiceContext, block_id: &String) -> (r: Result<
        Vec<Link>,
        Error,
    >)
        requires
            ctx.wf(),
        ensures
            match r {
                Ok(v) => v@ == crate::dao::links_from_block(ctx.db.links@, block_id@),
                Err(_) => false,
            },
    {
        LinkDao::get_links_from_block(&ctx.db, block_id)
    }

    /// Every link arriving at this block.
    pub fn get_links_to_block(ctx: &ServiceContext, block_id: &String) -> (r: Result<
        Vec<Link>,
        Error,
    >)
        requires
            ctx.wf(),
        ensures
            match r {
                Ok(v) => v@ == crate::dao::links_to_block(ctx.db.links@, block_id@),
                Err(_) => false,
            },
    {
        LinkDao::get_links_to_block(&ctx.db, block_id)
    }

    /// Removes one link by id.
    pub fn delete(ctx: &mut ServiceContext, id: &String) -> (r: Result<(), Error>)
        requires
            old(ctx).wf(),
        ensures
            r is Err ==> (r matches Err(Error::Database(_))),
            final(ctx).wf(),
            same_except_links(old(ctx).db, final(ctx).db),
            final(ctx).contents == old(ctx).contents,
            match r {
                Ok(_) => final(ctx).db.links@ == (if has_link(old(ctx).db.links@, id@) {
                    old(ctx).db.links@.remove(crate::dao::link_at(old(ctx).db.links@, id@))
                } else {
                    old(ctx).db.links@
                }),
                Err(_) => final(ctx).db.links@ == old(ctx).db.links@,
            },
    {
        LinkDao::delete(&mut ctx.db, id)
    }
}



/// The note or block id a search row names: its single text column.
pub open spec fn row_text_id(row: Seq<SqlValue>) -> Option<Seq<char>> {
    if row.len() == 1 {
        match row[0] {
            SqlValue::Text(t) => Some(t@),
            _ => None,
        }
    } else {
        None
    }
}

/// The notes a list of search rows resolves to, fixed for every value of
/// the rows: each row naming a stored id contributes that note when it
/// passes the deletion filter and was not already resolved, in row
/// order.
pub open spec fn resolved_note_matches(
    rows: Seq<Vec<SqlValue>>,
    notes: Seq<Note>,
    include_deleted: bool,
) -> Seq<Note>
    decreases rows.len(),
{
    if rows.len() == 0 {
        Seq::empty()
    } else {
        let rest = resolved_note_matches(rows.drop_last(), notes, include_deleted);
        match row_text_id(rows.last()@) {
            Some(id) => {
                if has_note(notes, id) && note_visible(
                    notes[note_at(notes, id)],
                    include_deleted,
                ) && !has_note(rest, id) {
                    rest.push(notes[note_at(notes, id)])
                } else {
                    rest
                }
            },
            None => rest,
        }
    }
}

/// Resolves search rows against the note table: exactly
/// `resolved_note_matches` of the given rows.
pub fn resolve_note_matches(
    notes: &Vec<Note>,
    rows: &Vec<Vec<SqlValue>>,
    include_deleted: bool,
) -> (r: Vec<Note>)
    requires
        crate::db_manager::notes_unique(notes@),
    ensures
        r@ == resolved_note_matches(rows@, notes@, include_deleted),
{
    let mut out: Vec<Note> = Vec::new();
    let mut i: usize = 0;
    while i < rows.len()
        invariant
            crate::db_manager::notes_unique(notes@),
            i <= rows@.len(),
            out@ == resolved_note_matches(rows@.subrange(0, i as int), notes@, include_deleted),
        decreases rows@.len() - i,
    {
        let row = &rows[i];
        if row.len() == 1 {
            match crate::dao::sv_text(&row[0]) {
                Some(id) => {
                    match crate::dao::find_note(notes, &id) {
                        Some(j) => {
                            proof {
                                crate::dao::lemma_note_at(notes@, id@, j as int);
                            }
                            let visible = include_deleted || !notes[j].is_deleted;
                            if visible && crate::dao::find_note(&out, &id).is_none() {
                                out.push(notes[j].clone());
                            }
                        },
                        None => {},
                    }
                },
                None => {},
            }
        }
        proof {
            let pre = rows@.subrange(0, i as int);
            let cur = rows@.subrange(0, i as int + 1);
            assert(cur.drop_last() =~= pre);
            assert(cur.last() == rows@[i as int]);
        }
        i += 1;
    }
    proof {
        assert(rows@.subrange(0, rows@.len() as int) =~= rows@);
    }
    out
}

/// Every resolved note is a stored row that passes the deletion filter,
/// and ids are pairwise distinct.
pub proof fn lemma_resolved_note_matches_props(
    rows: Seq<Vec<SqlValue>>,
    notes: Seq<Note>,
    include_deleted: bool,
)
    ensures
        forall|k: int|
            0 <= k < resolved_note_matches(rows, notes, include_deleted).len() ==> notes.contains(
                #[trigger] resolved_note_matches(rows, notes, include_deleted)[k],
            ) && note_visible(
                resolved_note_matches(rows, notes, include_deleted)[k],
                include_deleted,
            ),
        forall|k: int, l: int|
            0 <= k < l < resolved_note_matches(rows, notes, include_deleted).len() ==> (
            #[trigger] resolved_note_matches(rows, notes, include_deleted)[k]).id@ != (
            #[trigger] resolved_note_matches(rows, notes, include_deleted)[l]).id@,
    decreases rows.len(),
{
    if rows.len() > 0 {
        lemma_resolved_note_matches_props(rows.drop_last(), notes, include_deleted);
        let rest = resolved_note_matches(rows.drop_last(), notes, include_deleted);
        let r = resolved_note_matches(rows, notes, include_deleted);
        match row_text_id(rows.last()@) {
            Some(id) => {
                if has_note(notes, id) && note_visible(
                    notes[note_at(notes, id)],
                    include_deleted,
                ) && !has_note(rest, id) {
                    let n = notes[note_at(notes, id)];
                    assert(0 <= note_at(notes, id) < notes.len());
                    assert(notes.contains(n));
                    assert(n.id@ == id);
                    assert forall|k: int, l: int| 0 <= k < l < r.len() implies (
                    #[trigger] r[k]).id@ != (#[trigger] r[l]).id@ by {
                        if l == r.len() - 1 {
                            assert(r[k] == rest[k]);
                            assert(rest[k].id@ != id);
                        }
                    }
                }
            },
            None => {},
        }
    }
}

/// The blocks a list of search rows resolves to, fixed for every value
/// of the rows.
pub open spec fn resolved_block_matches(
    rows: Seq<Vec<SqlValue>>,
    blocks: Seq<Block>,
    include_deleted: bool,
) -> Seq<Block>
    decreases rows.len(),
{
    if rows.len() == 0 {
        Seq::empty()
    } else {
        let rest = resolved_block_matches(rows.drop_last(), blocks, include_deleted);
        match row_text_id(rows.last()@) {
            Some(id) => {
                if has_block(blocks, id) && (include_deleted || !blocks[block_at(
                    blocks,
                    id,
                )].is_deleted) && !has_block(rest, id) {
                    rest.push(blocks[block_at(blocks, id)])
                } else {
                    rest
                }
            },
            None => rest,
        }
    }
}

/// Resolves search rows against the block table: exactly
/// `resolved_block_matches` of the given rows.
pub fn resolve_block_matches(
    blocks: &Vec<Block>,
    rows: &Vec<Vec<SqlValue>>,
    include_deleted: bool,
) -> (r: Vec<Block>)
    requires
        crate::db_manager::blocks_unique(blocks@),
    ensures
        r@ == resolved_block_matches(rows@, blocks@, include_deleted),
{
    let mut out: Vec<Block> = Vec::new();
    let mut i: usize = 0;
    while i < rows.len()
        invariant
            crate::db_manager::blocks_unique(blocks@),
            i <= rows@.len(),
            out@ == resolved_block_matches(rows@.subrange(0, i as int), blocks@, include_deleted),
        decreases rows@.len() - i,
    {
        let row = &rows[i];
        if row.len() == 1 {
            match crate::dao::sv_text(&row[0]) {
                Some(id) => {
                    match crate::dao::find_block(blocks, &id) {
                        Some(j) => {
                            proof {
                                crate::dao::lemma_block_at(blocks@, id@, j as int);
                            }
                            let visible = include_deleted || !blocks[j].is_deleted;
                            if visible && crate::dao::find_block(&out, &id).is_none() {
                                out.push(blocks[j].clone());
                            }
                        },
                        None => {},
                    }
                },
                None => {},
            }
        }
        proof {
            let pre = rows@.subrange(0, i as int);
            let cur = rows@.subrange(0, i as int + 1);
            assert(cur.drop_last() =~= pre);
            assert(cur.last() == rows@[i as int]);
        }
        i += 1;
    }
    proof {
        assert(rows@.subrange(0, rows@.len() as int) =~= rows@);
    }
    out
}

/// Mirror of `lemma_resolved_note_matches_props` for blocks.
pub proof fn lemma_resolved_block_matches_props(
    rows: Seq<Vec<SqlValue>>,
    blocks: Seq<Block>,
    include_deleted: bool,
)
    ensures
        forall|k: int|
            0 <= k < resolved_block_matches(rows, blocks, include_deleted).len()
                ==> blocks.contains(
                #[trigger] resolved_block_matches(rows, blocks, include_deleted)[k],
            ) && (include_deleted || !resolved_block_matches(
                rows,
                blocks,
                include_deleted,
            )[k].is_deleted),
        forall|k: int, l: int|
            0 <= k < l < resolved_block_matches(rows, blocks, include_deleted).len() ==> (
            #[trigger] resolved_block_matches(rows, blocks, include_deleted)[k]).id@ != (
            #[trigger] resolved_block_matches(rows, blocks, include_deleted)[l]).id@,
    decreases rows.len(),
{
    if rows.len() > 0 {
        lemma_resolved_block_matches_props(rows.drop_last(), blocks, include_deleted);
        let rest = resolved_block_matches(rows.drop_last(), blocks, include_deleted);
        let r = resolved_block_matches(rows, blocks, include_deleted);
        match row_text_id(rows.last()@) {
            Some(id) => {
                if has_block(blocks, id) && (include_deleted || !blocks[block_at(
                    blocks,
                    id,
                )].is_deleted) && !has_block(rest, id) {
                    let b = blocks[block_at(blocks, id)];
                    assert(0 <= block_at(blocks, id) < blocks.len());
                    assert(blocks.contains(b));
                    assert(b.id@ == id);
                    assert forall|k: int, l: int| 0 <= k < l < r.len() implies (
                    #[trigger] r[k]).id@ != (#[trigger] r[l]).id@ by {
                        if l == r.len() - 1 {
                            assert(r[k] == rest[k]);
                            assert(rest[k].id@ != id);
                        }
                    }
                }
            },
            None => {},
        }
    }
}

/// Full-text search against the mirror's shadow tables. The match engine
/// decides which rows come back; the library re-validates every candidate
/// against the model, so each result is a stored row that satisfies the
/// deletion filter, reported once. Malformed queries surface the store's
/// error verbatim.
pub struct SearchService;

impl SearchService {
    /// Searches note titles and bodies; results most recently updated
    /// first. The match engine decides which rows come back; what those
    /// rows resolve to is fixed exactly by [`resolve_note_matches`].
    pub fn search_notes(ctx: &mut ServiceContext, query: &String, include_deleted: bool) -> (r:
        Result<Vec<Note>, Error>)
        requires
            old(ctx).wf(),
        ensures
            r is Err ==> (r matches Err(Error::Database(_))),
            final(ctx).wf(),
            final(ctx).db.notes == old(ctx).db.notes,
            same_except_notes(old(ctx).db, final(ctx).db),
            final(ctx).contents == old(ctx).contents,
            match r {
                Ok(v) => {
                    &&& forall|k: int|
                        0 <= k < v@.len() ==> old(ctx).db.notes@.contains(#[trigger] v@[k])
                            && note_visible(v@[k], include_deleted)
                    &&& forall|k: int, l: int|
                        0 <= k < l < v@.len() ==> (#[trigger] v@[k]).id@ != (#[trigger] v@[l]).id@
                    &&& notes_sorted_by_updated_desc(v@)
                },
                Err(_) => true,
            },
    {
        let params: Vec<String> = vec![query.clone()];
        let rows = ctx.db.db.query(
            "SELECT note_id FROM notes_fts WHERE notes_fts MATCH ?1",
            &params,
        )?;
        let picked = resolve_note_matches(&ctx.db.notes, &rows, include_deleted);
        proof {
            lemma_resolved_note_matches_props(rows@, ctx.db.notes@, include_deleted);
        }
        let ghost before_sort = picked@;
        let sorted = crate::sorting::sort_notes_by_updated_desc(picked);
        proof {
            lemma_note_perm_keeps(before_sort, sorted@, old(ctx).db.notes@, include_deleted);
        }
        Ok(sorted)
    }

    /// Searches block contents; results by ascending position. The match
    /// engine decides which rows come back; what those rows resolve to is
    /// fixed exactly by [`resolve_block_matches`].
    pub fn search_blocks(ctx: &mut ServiceContext, query: &String, include_deleted: bool) -> (r:
        Result<Vec<Block>, Error>)
        requires
            old(ctx).wf(),
        ensures
            r is Err ==> (r matches Err(Error::Database(_))),
            final(ctx).wf(),
            final(ctx).db.blocks == old(ctx).db.blocks,
            same_except_blocks(old(ctx).db, final(ctx).db),
            final(ctx).contents == old(ctx).contents,
            match r {
                Ok(v) => {
                    &&& forall|k: int|
                        0 <= k < v@.len() ==> old(ctx).db.blocks@.contains(#[trigger] v@[k]) && (
                        include_deleted || !v@[k].is_deleted)
                    &&& forall|k: int, l: int|
                        0 <= k < l < v@.len() ==> (#[trigger] v@[k]).id@ != (#[trigger] v@[l]).id@
                    &&& blocks_sorted_by_position(v@)
                },
                Err(_) => true,
            },
    {
        let params: Vec<String> = vec![query.clone()];
        let rows = ctx.db.db.query(
            "SELECT block_id FROM blocks_fts WHERE blocks_fts MATCH ?1",
            &params,
        )?;
        let picked = resolve_block_matches(&ctx.db.blocks, &rows, include_deleted);
        proof {
            lemma_resolved_block_matches_props(rows@, ctx.db.blocks@, include_deleted);
        }
        let ghost before_sort = picked@;
        let sorted = crate::sorting::sort_blocks_by_position(picked);
        proof {
            lemma_block_perm_keeps(before_sort, sorted@, old(ctx).db.blocks@, include_deleted);
        }
        Ok(sorted)
    }
}

/// A permutation of search candidates keeps membership, visibility and
/// id distinctness.
proof fn lemma_note_perm_keeps(a: Seq<Note>, b: Seq<Note>, s: Seq<Note>, include_deleted: bool)
    requires
        a.to_multiset() == b.to_multiset(),
        forall|k: int|
            0 <= k < a.len() ==> s.contains(#[trigger] a[k]) && note_visible(
                a[k],
                include_deleted,
            ),
        forall|k: int, l: int| 0 <= k < l < a.len() ==> (#[trigger] a[k]).id@ != (
        #[trigger] a[l]).id@,
    ensures
        forall|k: int|
            0 <= k < b.len() ==> s.contains(#[trigger] b[k]) && note_visible(
                b[k],
                include_deleted,
            ),
        forall|k: int, l: int| 0 <= k < l < b.len() ==> (#[trigger] b[k]).id@ != (
        #[trigger] b[l]).id@,
{
    broadcast use vstd::seq_lib::group_to_multiset_ensures;

    assert(a.to_multiset().len() == a.len());
    assert(b.to_multiset().len() == b.len());
    assert forall|k: int| 0 <= k < b.len() implies s.contains(#[trigger] b[k]) && note_visible(
        b[k],
        include_deleted,
    ) by {
        assert(b.to_multiset().contains(b[k]));
        assert(a.contains(b[k]));
        let w = choose|w: int| 0 <= w < a.len() && a[w] == b[k];
        assert(s.contains(a[w]));
    }
    assert forall|k: int, l: int| 0 <= k < l < b.len() implies (#[trigger] b[k]).id@ != (
    #[trigger] b[l]).id@ by {
        if b[k] == b[l] {
            let bb = b.remove(k);
            assert(bb[l - 1] == b[l]);
            assert(bb.contains(b[l]));
            assert(bb.to_multiset().count(b[l]) > 0);
            assert(b.to_multiset().count(b[l]) >= 2) by {
                assert(b.remove(k).to_multiset() =~= b.to_multiset().remove(b[k]));
            }
            assert(a.to_multiset().count(b[l]) >= 2);
            lemma_distinct_note_count(a, b[l]);
            assert(false);
        } else {
            assert(b.to_multiset().contains(b[k]));
            assert(b.to_multiset().contains(b[l]));
            assert(a.contains(b[k]));
            assert(a.contains(b[l]));
            let w1 = choose|w: int| 0 <= w < a.len() && a[w] == b[k];
            let w2 = choose|w: int| 0 <= w < a.len() && a[w] == b[l];
            if w1 < w2 {
                assert(a[w1].id@ != a[w2].id@);
            }
            if w2 < w1 {
                assert(a[w2].id@ != a[w1].id@);
            }
            if w1 == w2 {
                assert(b[k] == b[l]);
            }
        }
    }
}

/// In an id-distinct list every value occurs at most once.
proof fn lemma_distinct_note_count(a: Seq<Note>, x: Note)
    requires
        forall|k: int, l: int| 0 <= k < l < a.len() ==> (#[trigger] a[k]).id@ != (
        #[trigger] a[l]).id@,
    ensures
        a.to_multiset().count(x) <= 1,
{
    broadcast use vstd::seq_lib::group_to_multiset_ensures;

    if a.to_multiset().count(x) >= 2 {
        assert(a.to_multiset().contains(x));
        assert(a.contains(x));
        let w = choose|w: int| 0 <= w < a.len() && a[w] == x;
        let aa = a.remove(w);
        assert(aa.to_multiset() =~= a.to_multiset().remove(a[w]));
        assert(aa.to_multiset().count(x) >= 1);
        assert(aa.contains(x));
        let w2 = choose|w2: int| 0 <= w2 < aa.len() && aa[w2] == x;
        if w2 < w {
            assert(aa[w2] == a[w2]);
            assert(a[w2].id@ != a[w].id@);
        } else {
            assert(aa[w2] == a[w2 + 1]);
            assert(a[w].id@ != a[w2 + 1].id@);
        }
        assert(false);
    }
}

/// Mirror of `lemma_note_perm_keeps` for blocks.
proof fn lemma_block_perm_keeps(
    a: Seq<Block>,
    b: Seq<Block>,
    s: Seq<Block>,
    include_deleted: bool,
)
    requires
        a.to_multiset() == b.to_multiset(),
        forall|k: int|
            0 <= k < a.len() ==> s.contains(#[trigger] a[k]) && (include_deleted
                || !a[k].is_deleted),
        forall|k: int, l: int| 0 <= k < l < a.len() ==> (#[trigger] a[k]).id@ != (
        #[trigger] a[l]).id@,
    ensures
        forall|k: int|
            0 <= k < b.len() ==> s.contains(#[trigger] b[k]) && (include_deleted
                || !b[k].is_deleted),
        forall|k: int, l: int| 0 <= k < l < b.len() ==> (#[trigger] b[k]).id@ != (
        #[trigger] b[l]).id@,
{
    broadcast use vstd::seq_lib::group_to_multiset_ensures;

    assert(a.to_multiset().len() == a.len());
    assert(b.to_multiset().len() == b.len());
    assert forall|k: int| 0 <= k < b.len() implies s.contains(#[trigger] b[k]) && (
    include_deleted || !b[k].is_deleted) by {
        assert(b.to_multiset().contains(b[k]));
        assert(a.contains(b[k]));
        let w = choose|w: int| 0 <= w < a.len() && a[w] == b[k];
        assert(s.contains(a[w]));
    }
    assert forall|k: int, l: int| 0 <= k < l < b.len() implies (#[trigger] b[k]).id@ != (
    #[trigger] b[l]).id@ by {
        if b[k] == b[l] {
            let bb = b.remove(k);
            assert(bb[l - 1] == b[l]);
            assert(bb.contains(b[l]));
            assert(bb.to_multiset().count(b[l]) > 0);
            assert(b.to_multiset().count(b[l]) >= 2) by {
                assert(b.remove(k).to_multiset() =~= b.to_multiset().remove(b[k]));
            }
            assert(a.to_multiset().count(b[l]) >= 2);
            lemma_distinct_block_count(a, b[l]);
            assert(false);
        } else {
            assert(b.to_multiset().contains(b[k]));
            assert(b.to_multiset().contains(b[l]));
            assert(a.contains(b[k]));
            assert(a.contains(b[l]));
            let w1 = choose|w: int| 0 <= w < a.len() && a[w] == b[k];
            let w2 = choose|w: int| 0 <= w < a.len() && a[w] == b[l];
            if w1 < w2 {
                assert(a[w1].id@ != a[w2].id@);
            }
            if w2 < w1 {
                assert(a[w2].id@ != a[w1].id@);
            }
            if w1 == w2 {
                assert(b[k] == b[l]);
            }
        }
    }
}

/// Mirror of `lemma_distinct_note_count` for blocks.
proof fn lemma_distinct_block_count(a: Seq<Block>, x: Block)
    requires
        forall|k: int, l: int| 0 <= k < l < a.len() ==> (#[trigger] a[k]).id@ != (
        #[trigger] a[l]).id@,
    ensures
        a.to_multiset().count(x) <= 1,
{
    broadcast use vstd::seq_lib::group_to_multiset_ensures;

    if a.to_multiset().count(x) >= 2 {
        assert(a.to_multiset().contains(x));
        assert(a.contains(x));
        let w = choose|w: int| 0 <= w < a.len() && a[w] == x;
        let aa = a.remove(w);
        assert(aa.to_multiset() =~= a.to_multiset().remove(a[w]));
        assert(aa.to_multiset().count(x) >= 1);
        assert(aa.contains(x));
        let w2 = choose|w2: int| 0 <= w2 < aa.len() && aa[w2] == x;
        if w2 < w {
            assert(aa[w2] == a[w2]);
            assert(a[w2].id@ != a[w].id@);
        } else {
            assert(aa[w2] == a[w2 + 1]);
            assert(a[w].id@ != a[w2 + 1].id@);
        }
        assert(false);
    }
}

/// Block service: block CRUD under an owning note, plus reference
/// management.
pub struct BlockService;

impl BlockService {
    /// Creates a block under a live note; a missing or deleted note fails
    /// with `NotFound` and nothing is inserted.
    pub fn create(
        ctx: &mut ServiceContext,
        note_id: String,
        block_type: String,
        content: String,
        position: i64,
    ) -> (r: Result<Block, Error>)
        requires
            old(ctx).wf(),
        ensures
            final(ctx).wf(),
            same_except_blocks(old(ctx).db, final(ctx).db),
            final(ctx).contents == old(ctx).contents,
            !note_live(old(ctx).db.notes@, note_id@) ==> (r matches Err(Error::NotFound(msg))
                && msg@ == "Note not found: "@ + note_id@),
            (note_live(old(ctx).db.notes@, note_id@) && r is Err) ==> (r matches Err(
                Error::Conflict(_),
            ) || r matches Err(Error::Database(_))),
            match r {
                Ok(b) => {
                    &&& note_live(old(ctx).db.notes@, note_id@)
                    &&& b.id@.len() >= 6 && b.id@.subrange(0, 6) == "block-"@
                    &&& b.note_id == note_id
                    &&& b.block_type == block_type
                    &&& b.content == content
                    &&& b.position == position
                    &&& !b.is_deleted
                    &&& final(ctx).db.blocks@ == old(ctx).db.blocks@.push(b)
                },
                Err(_) => final(ctx).db.blocks@ == old(ctx).db.blocks@,
            },
    {
        if NoteDao::get_by_id(&ctx.db, &note_id, false)?.is_none() {
            return Err(
                Error::NotFound(
                    new_strlit_string("Note not found: ").concat(note_id.as_str()),
                ),
            );
        }
        let u = new_uuid();
        let block_id = new_strlit_string("block-").concat(u.as_str());
        proof {
            reveal_strlit("block-");
            assert(block_id@.subrange(0, 6) =~= "block-"@);
        }
        let block = Block::new(block_id, note_id, block_type, content, position);
        BlockDao::create(&mut ctx.db, &block)?;
        Ok(block)
    }

    /// The block with this id, or nothing.
    pub fn get_by_id(ctx: &ServiceContext, id: &String, include_deleted: bool) -> (r: Result<
        Option<Block>,
        Error,
    >)
        requires
            ctx.wf(),
        ensures
            match r {
                Ok(Some(b)) => has_block(ctx.db.blocks@, id@) && b == ctx.db.blocks@[block_at(
                    ctx.db.blocks@,
                    id@,
                )] && (include_deleted || !b.is_deleted),
                Ok(None) => !has_block(ctx.db.blocks@, id@) || (!include_deleted
                    && ctx.db.blocks@[block_at(ctx.db.blocks@, id@)].is_deleted),
                Err(_) => false,
            },
    {
        BlockDao::get_by_id(&ctx.db, id, include_deleted)
    }

    /// The visible blocks of one note, by ascending position.
    pub fn get_by_note(ctx: &ServiceContext, note_id: &String, include_deleted: bool) -> (r:
        Result<Vec<Block>, Error>)
        requires
            ctx.wf(),
        ensures
            match r {
                Ok(v) => v@.to_multiset() =~= crate::dao::note_blocks(
                    ctx.db.blocks@,
                    note_id@,
                    include_deleted,
                ).to_multiset() && blocks_sorted_by_position(v@),
                Err(_) => false,
            },
    {
        BlockDao::get_by_note(&ctx.db, note_id, include_deleted)
    }

    /// Full-row overwrite of a block.
    pub fn update(ctx: &mut ServiceContext, block: &Block) -> (r: Result<(), Error>)
        requires
            old(ctx).wf(),
        ensures
            r is Err ==> (r matches Err(Error::Database(_))),
            final(ctx).wf(),
            same_except_blocks(old(ctx).db, final(ctx).db),
            final(ctx).contents == old(ctx).contents,
            match r {
                Ok(_) => final(ctx).db.blocks@ == (if has_block(old(ctx).db.blocks@, block.id@) {
                    old(ctx).db.blocks@.update(block_at(old(ctx).db.blocks@, block.id@), *block)
                } else {
                    old(ctx).db.blocks@
                }),
                Err(_) => final(ctx).db.blocks@ == old(ctx).db.blocks@,
            },
    {
        BlockDao::update(&mut ctx.db, block)
    }

    /// Replaces the content of a live block, refreshing `updated_at`; a
    /// missing or deleted block fails with `NotFound` and changes
    /// nothing.
    pub fn update_content(ctx: &mut ServiceContext, id: &String, content: String) -> (r: Result<
        (),
        Error,
    >)
        requires
            old(ctx).wf(),
        ensures
            final(ctx).wf(),
            same_except_blocks(old(ctx).db, final(ctx).db),
            final(ctx).contents == old(ctx).contents,
            !block_live(old(ctx).db.blocks@, id@) ==> (r matches Err(Error::NotFound(msg))
                && msg@ == "Block not found: "@ + id@),
            (block_live(old(ctx).db.blocks@, id@) && r is Err) ==> (r matches Err(
                Error::Database(_),
            )),
            match r {
                Ok(_) => block_live(old(ctx).db.blocks@, id@) && {
                    let i = block_at(old(ctx).db.blocks@, id@);
                    let prev = old(ctx).db.blocks@[i];
                    let now = final(ctx).db.blocks@[i];
                    &&& final(ctx).db.blocks@ == old(ctx).db.blocks@.update(i, now)
                    &&& now.content == content
                    &&& now.id == prev.id
                    &&& now.note_id == prev.note_id
                    &&& now.block_type == prev.block_type
                    &&& now.position == prev.position
                    &&& now.created_at == prev.created_at
                    &&& now.updated_at >= prev.updated_at
                    &&& now.is_deleted == prev.is_deleted
                    &&& now.deleted_at == prev.deleted_at
                },
                Err(_) => final(ctx).db.blocks@ == old(ctx).db.blocks@,
            },
    {
        let row = BlockDao::get_by_id(&ctx.db, id, false)?;
        let mut block = match row {
            Some(b) => b,
            None => {
                return Err(
                    Error::NotFound(new_strlit_string("Block not found: ").concat(id.as_str())),
                );
            },
        };
        block.update_content(content);
        BlockDao::update(&mut ctx.db, &block)?;
        Ok(())
    }

    /// Moves a live block to a new position, refreshing `updated_at`; a
    /// missing or deleted block fails with `NotFound` and changes
    /// nothing.
    pub fn update_position(ctx: &mut ServiceContext, id: &String, position: i64) -> (r: Result<
        (),
        Error,
    >)
        requires
            old(ctx).wf(),
        ensures
            final(ctx).wf(),
            same_except_blocks(old(ctx).db, final(ctx).db),
            final(ctx).contents == old(ctx).contents,
            !block_live(old(ctx).db.blocks@, id@) ==> (r matches Err(Error::NotFound(msg))
                && msg@ == "Block not found: "@ + id@),
            (block_live(old(ctx).db.blocks@, id@) && r is Err) ==> (r matches Err(
                Error::Database(_),
            )),
            match r {
                Ok(_) => block_live(old(ctx).db.blocks@, id@) && {
                    let i = block_at(old(ctx).db.blocks@, id@);
                    let prev = old(ctx).db.blocks@[i];
                    let now = final(ctx).db.blocks@[i];
                    &&& final(ctx).db.blocks@ == old(ctx).db.blocks@.update(i, now)
                    &&& now.position == position
                    &&& now.id == prev.id
                    &&& now.note_id == prev.note_id
                    &&& now.block_type == prev.block_type
                    &&& now.content == prev.content
                    &&& now.created_at == prev.created_at
                    &&& now.updated_at >= prev.updated_at
                    &&& now.is_deleted == prev.is_deleted
                    &&& now.deleted_at == prev.deleted_at
                },
                Err(_) => final(ctx).db.blocks@ == old(ctx).db.blocks@,
            },
    {
        let row = BlockDao::get_by_id(&ctx.db, id, false)?;
        let mut block = match row {
            Some(b) => b,
            None => {
                return Err(
                    Error::NotFound(new_strlit_string("Block not found: ").concat(id.as_str())),
                );
            },
        };
        block.position = position;
        let now = now_timestamp();
        if now > block.updated_at {
            block.updated_at = now;
        }
        BlockDao::update(&mut ctx.db, &block)?;
        Ok(())
    }

    /// Soft-deletes the block.
    pub fn delete(ctx: &mut ServiceContext, id: &String) -> (r: Result<(), Error>)
        requires
            old(ctx).wf(),
        ensures
            r is Err ==> (r matches Err(Error::Database(_))),
            final(ctx).wf(),
            same_except_blocks(old(ctx).db, final(ctx).db),
            final(ctx).contents == old(ctx).contents,
            match r {
                Ok(_) => {
                    if has_block(old(ctx).db.blocks@, id@) {
                        final(ctx).db.blocks@ == old(ctx).db.blocks@.update(
                            block_at(old(ctx).db.blocks@, id@),
                            final(ctx).db.blocks@[block_at(old(ctx).db.blocks@, id@)],
                        ) && crate::dao::block_is_soft_deleted_form(
                            final(ctx).db.blocks@[block_at(old(ctx).db.blocks@, id@)],
                            old(ctx).db.blocks@[block_at(old(ctx).db.blocks@, id@)],
                        )
                    } else {
                        final(ctx).db.blocks@ == old(ctx).db.blocks@
                    }
                },
                Err(_) => final(ctx).db.blocks@ == old(ctx).db.blocks@,
            },
    {
        BlockDao::soft_delete(&mut ctx.db, id)
    }

    /// Restores a soft-deleted block.
    pub fn restore(ctx: &mut ServiceContext, id: &String) -> (r: Result<(), Error>)
        requires
            old(ctx).wf(),
        ensures
            r is Err ==> (r matches Err(Error::Database(_))),
            final(ctx).wf(),
            same_except_blocks(old(ctx).db, final(ctx).db),
            final(ctx).contents == old(ctx).contents,
            match r {
                Ok(_) => final(ctx).db.blocks@ == (if has_block(old(ctx).db.blocks@, id@) {
                    old(ctx).db.blocks@.update(
                        block_at(old(ctx).db.blocks@, id@),
                        (Block {
                            is_deleted: false,
                            deleted_at: None,
                            ..old(ctx).db.blocks@[block_at(old(ctx).db.blocks@, id@)]
                        }),
                    )
                } else {
                    old(ctx).db.blocks@
                }),
                Err(_) => final(ctx).db.blocks@ == old(ctx).db.blocks@,
            },
    {
        BlockDao::restore(&mut ctx.db, id)
    }

    /// The live blocks that reference this block, skipping dangling rows.
    pub fn get_referencing_blocks(ctx: &ServiceContext, block_id: &String) -> (r: Result<
        Vec<Block>,
        Error,
    >)
        requires
            ctx.wf(),
        ensures
            match r {
                Ok(v) => v@ == collect_live_blocks(
                    crate::dao::br_sources_of(ctx.db.block_references@, block_id@),
                    ctx.db.blocks@,
                ),
                Err(_) => false,
            },
    {
        let ids = crate::dao::BlockReferenceDao::get_referencing_blocks(&ctx.db, block_id)?;
        let mut out: Vec<Block> = Vec::new();
        let mut i: usize = 0;
        while i < ids.len()
            invariant
                ctx.wf(),
                i <= ids@.len(),
                out@ == collect_live_blocks(ids@.subrange(0, i as int), ctx.db.blocks@),
            decreases ids@.len() - i,
        {
            match BlockDao::get_by_id(&ctx.db, &ids[i], false)? {
                Some(b) => {
                    out.push(b);
                },
                None => {},
            }
            proof {
                let pre = ids@.subrange(0, i as int);
                let cur = ids@.subrange(0, i as int + 1);
                assert(cur.drop_last() =~= pre);
                assert(cur.last() == ids@[i as int]);
            }
            i += 1;
        }
        proof {
            assert(ids@.subrange(0, ids@.len() as int) =~= ids@);
        }
        Ok(out)
    }

    /// The live blocks this block references, skipping dangling rows.
    pub fn get_referenced_blocks(ctx: &ServiceContext, block_id: &String) -> (r: Result<
        Vec<Block>,
        Error,
    >)
        requires
            ctx.wf(),
        ensures
            match r {
                Ok(v) => v@ == collect_live_blocks(
                    crate::dao::br_targets_of(ctx.db.block_references@, block_id@),
                    ctx.db.blocks@,
                ),
                Err(_) => false,
            },
    {
        let ids = crate::dao::BlockReferenceDao::get_referenced_blocks(&ctx.db, block_id)?;
        let mut out: Vec<Block> = Vec::new();
        let mut i: usize = 0;
        while i < ids.len()
            invariant
                ctx.wf(),
                i <= ids@.len(),
                out@ == collect_live_blocks(ids@.subrange(0, i as int), ctx.db.blocks@),
            decreases ids@.len() - i,
        {
            match BlockDao::get_by_id(&ctx.db, &ids[i], false)? {
                Some(b) => {
                    out.push(b);
                },
                None => {},
            }
            proof {
                let pre = ids@.subrange(0, i as int);
                let cur = ids@.subrange(0, i as int + 1);
                assert(cur.drop_last() =~= pre);
                assert(cur.last() == ids@[i as int]);
            }
            i += 1;
        }
        proof {
            assert(ids@.subrange(0, ids@.len() as int) =~= ids@);
        }
        Ok(out)
    }

    /// Creates a block-to-block reference after checking that both blocks
    /// are live; a missing side fails with `NotFound` and nothing is
    /// inserted.
    pub fn create_reference(
        ctx: &mut ServiceContext,
        source_block_id: String,
        target_block_id: String,
    ) -> (r: Result<(), Error>)
        requires
            old(ctx).wf(),
        ensures
            final(ctx).wf(),
            crate::dao::same_except_block_references(old(ctx).db, final(ctx).db),
            final(ctx).contents == old(ctx).contents,
            !block_live(old(ctx).db.blocks@, source_block_id@) ==> (r matches Err(
                Error::NotFound(msg),
            ) && msg@ == "Source block not found: "@ + source_block_id@),
            (block_live(old(ctx).db.blocks@, source_block_id@) && !block_live(
                old(ctx).db.blocks@,
                target_block_id@,
            )) ==> (r matches Err(Error::NotFound(msg)) && msg@ == "Target block not found: "@
                + target_block_id@),
            (block_live(old(ctx).db.blocks@, source_block_id@) && block_live(
                old(ctx).db.blocks@,
                target_block_id@,
            ) && r is Err) ==> (r matches Err(Error::Conflict(_)) || r matches Err(
                Error::Database(_),
            )),
            match r {
                Ok(_) => {
                    &&& block_live(old(ctx).db.blocks@, source_block_id@)
                    &&& block_live(old(ctx).db.blocks@, target_block_id@)
                    &&& final(ctx).db.block_references@.len() == old(
                        ctx,
                    ).db.block_references@.len() + 1
                    &&& final(ctx).db.block_references@ == old(ctx).db.block_references@.push(
                        final(ctx).db.block_references@.last(),
                    )
                    &&& final(ctx).db.block_references@.last().source_block_id@
                        == source_block_id@
                    &&& final(ctx).db.block_references@.last().target_block_id@
                        == target_block_id@
                },
                Err(_) => final(ctx).db.block_references@ == old(ctx).db.block_references@,
            },
    {
        if BlockDao::get_by_id(&ctx.db, &source_block_id, false)?.is_none() {
            return Err(
                Error::NotFound(
                    new_strlit_string("Source block not found: ").concat(source_block_id.as_str()),
                ),
            );
        }
        if BlockDao::get_by_id(&ctx.db, &target_block_id, false)?.is_none() {
            return Err(
                Error::NotFound(
                    new_strlit_string("Target block not found: ").concat(target_block_id.as_str()),
                ),
            );
        }
        let u = new_uuid();
        let ref_id = new_strlit_string("ref-").concat(u.as_str());
        crate::dao::BlockReferenceDao::create(
            &mut ctx.db,
            &ref_id,
            &source_block_id,
            &target_block_id,
        )?;
        Ok(())
    }

    /// Removes every reference of one (source, target) pair.
    pub fn delete_reference(
        ctx: &mut ServiceContext,
        source_block_id: String,
        target_block_id: String,
    ) -> (r: Result<(), Error>)
        requires
            old(ctx).wf(),
        ensures
            r is Err ==> (r matches Err(Error::Database(_))),
            final(ctx).wf(),
            crate::dao::same_except_block_references(old(ctx).db, final(ctx).db),
            final(ctx).contents == old(ctx).contents,
            match r {
                Ok(_) => final(ctx).db.block_references@ == crate::dao::br_without_pair(
                    old(ctx).db.block_references@,
                    source_block_id@,
                    target_block_id@,
                ),
                Err(_) => final(ctx).db.block_references@ == old(ctx).db.block_references@,
            },
    {
        crate::dao::BlockReferenceDao::delete(&mut ctx.db, &source_block_id, &target_block_id)
    }
}

} // verus!
