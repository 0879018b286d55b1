//! Ordered read views: the sorts behind every `ORDER BY` of the query set.
//!
//! Each sort returns a permutation of its input (stated as multiset
//! equality) in the documented order. Ties keep no promised order, matching
//! what the store's own ordering would leave open.

use vstd::prelude::*;

use crate::models::{Block, Folder, Note, NoteAttachment, NoteFolder, Tag};
use crate::text::{bytes_le, lemma_bytes_le_total, lemma_bytes_le_trans, str_bytes_le};
use vstd::utf8::encode_utf8;

verus! {

broadcast use {vstd::seq_lib::group_to_multiset_ensures, vstd::multiset::group_multiset_axioms};

/// Inserting anywhere adds exactly one occurrence to the multiset.
pub proof fn lemma_to_multiset_insert<A>(s: Seq<A>, i: int, x: A)
    requires
        0 <= i <= s.len(),
    ensures
        s.insert(i, x).to_multiset() =~= s.to_multiset().insert(x),
{
    broadcast use vstd::seq_lib::group_to_multiset_ensures;

    let t = s.insert(i, x);
    assert(t.remove(i) =~= s);
    assert(t[i] == x);
    assert(t.remove(i).to_multiset() =~= t.to_multiset().remove(t[i]));
    assert(t.to_multiset().contains(x)) by {
        assert(t.contains(x));
    }
    assert(t.to_multiset() =~= s.to_multiset().insert(x)) by {
        assert(s.to_multiset() =~= t.to_multiset().remove(x));
    }
}

/// Dropping the last element removes one occurrence from the multiset.
pub proof fn lemma_to_multiset_drop_last<A>(s: Seq<A>)
    requires
        s.len() > 0,
    ensures
        s.to_multiset() =~= s.drop_last().to_multiset().insert(s.last()),
{
    broadcast use vstd::seq_lib::group_to_multiset_ensures;

    assert(s =~= s.drop_last().push(s.last()));
    assert(s.drop_last().push(s.last()).to_multiset() =~= s.drop_last().to_multiset().insert(
        s.last(),
    ));
}

/// Notes in most-recently-updated-first order.
pub open spec fn notes_sorted_by_updated_desc(s: Seq<Note>) -> bool {
    forall|i: int, j: int|
        0 <= i <= j < s.len() ==> (#[trigger] s[i]).updated_at >= (#[trigger] s[j]).updated_at
}

/// Blocks in ascending position order.
pub open spec fn blocks_sorted_by_position(s: Seq<Block>) -> bool {
    forall|i: int, j: int|
        0 <= i <= j < s.len() ==> (#[trigger] s[i]).position <= (#[trigger] s[j]).position
}

/// Folders in ascending position order.
pub open spec fn folders_sorted_by_position(s: Seq<Folder>) -> bool {
    forall|i: int, j: int|
        0 <= i <= j < s.len() ==> (#[trigger] s[i]).position <= (#[trigger] s[j]).position
}

/// Note-folder rows with the primary row first, then ascending position.
pub open spec fn note_folders_sorted_primary_first(s: Seq<NoteFolder>) -> bool {
    forall|i: int, j: int|
        0 <= i <= j < s.len() ==> ((#[trigger] s[i]).is_primary || !(#[trigger] s[j]).is_primary)
            && ((s[i].is_primary == s[j].is_primary) ==> s[i].position <= s[j].position)
}

/// Note-folder rows in ascending position order.
pub open spec fn note_folders_sorted_by_position(s: Seq<NoteFolder>) -> bool {
    forall|i: int, j: int|
        0 <= i <= j < s.len() ==> (#[trigger] s[i]).position <= (#[trigger] s[j]).position
}

/// Sorts notes most-recently-updated first.
pub fn sort_notes_by_updated_desc(v: Vec<Note>) -> (r: Vec<Note>)
    ensures
        r@.to_multiset() =~= v@.to_multiset(),
        notes_sorted_by_updated_desc(r@),
{
    let mut src = v;
    let mut out: Vec<Note> = Vec::new();
    while src.len() > 0
        invariant
            out@.to_multiset().add(src@.to_multiset()) =~= v@.to_multiset(),
            notes_sorted_by_updated_desc(out@),
        decreases src.len(),
    {
        let ghost old_src = src@;
        let ghost old_out = out@;
        let x = src.pop().unwrap();
        proof {
            lemma_to_multiset_drop_last(old_src);
        }
        let mut k: usize = 0;
        while k < out.len() && out[k].updated_at >= x.updated_at
            invariant
                k <= out.len(),
                out@ == old_out,
                forall|t: int| 0 <= t < k ==> (#[trigger] out@[t]).updated_at >= x.updated_at,
            decreases out.len() - k,
        {
            k += 1;
        }
        out.insert(k, x);
        proof {
            lemma_to_multiset_insert(old_out, k as int, x);
            assert forall|i: int, j: int| 0 <= i <= j < out@.len() implies (
            #[trigger] out@[i]).updated_at >= (#[trigger] out@[j]).updated_at by {
                old_out.insert_ensures(k as int, x);
            }
            assert(out@.to_multiset().add(src@.to_multiset()) =~= v@.to_multiset()) by {
                assert(old_src.to_multiset() =~= src@.to_multiset().insert(x));
                assert(out@.to_multiset() =~= old_out.to_multiset().insert(x));
            }
        }
    }
    out
}

/// Sorts blocks by ascending position.
pub fn sort_blocks_by_position(v: Vec<Block>) -> (r: Vec<Block>)
    ensures
        r@.to_multiset() =~= v@.to_multiset(),
        blocks_sorted_by_position(r@),
{
    let mut src = v;
    let mut out: Vec<Block> = Vec::new();
    while src.len() > 0
        invariant
            out@.to_multiset().add(src@.to_multiset()) =~= v@.to_multiset(),
            blocks_sorted_by_position(out@),
        decreases src.len(),
    {
        let ghost old_src = src@;
        let ghost old_out = out@;
        let x = src.pop().unwrap();
        proof {
            lemma_to_multiset_drop_last(old_src);
        }
        let mut k: usize = 0;
        while k < out.len() && out[k].position <= x.position
            invariant
                k <= out.len(),
                out@ == old_out,
                forall|t: int| 0 <= t < k ==> (#[trigger] out@[t]).position <= x.position,
            decreases out.len() - k,
        {
            k += 1;
        }
        out.insert(k, x);
        proof {
            lemma_to_multiset_insert(old_out, k as int, x);
            assert forall|i: int, j: int| 0 <= i <= j < out@.len() implies (
            #[trigger] out@[i]).position <= (#[trigger] out@[j]).position by {
                old_out.insert_ensures(k as int, x);
            }
            assert(out@.to_multiset().add(src@.to_multiset()) =~= v@.to_multiset()) by {
                assert(old_src.to_multiset() =~= src@.to_multiset().insert(x));
                assert(out@.to_multiset() =~= old_out.to_multiset().insert(x));
            }
        }
    }
    out
}

/// Sorts folders by ascending position.
pub fn sort_folders_by_position(v: Vec<Folder>) -> (r: Vec<Folder>)
    ensures
        r@.to_multiset() =~= v@.to_multiset(),
        folders_sorted_by_position(r@),
{
    let mut src = v;
    let mut out: Vec<Folder> = Vec::new();
    while src.len() > 0
        invariant
            out@.to_multiset().add(src@.to_multiset()) =~= v@.to_multiset(),
            folders_sorted_by_position(out@),
        decreases src.len(),
    {
        let ghost old_src = src@;
        let ghost old_out = out@;
        let x = src.pop().unwrap();
        proof {
            lemma_to_multiset_drop_last(old_src);
        }
        let mut k: usize = 0;
        while k < out.len() && out[k].position <= x.position
            invariant
                k <= out.len(),
                out@ == old_out,
                forall|t: int| 0 <= t < k ==> (#[trigger] out@[t]).position <= x.position,
            decreases out.len() - k,
        {
            k += 1;
        }
        out.insert(k, x);
        proof {
            lemma_to_multiset_insert(old_out, k as int, x);
            assert forall|i: int, j: int| 0 <= i <= j < out@.len() implies (
            #[trigger] out@[i]).position <= (#[trigger] out@[j]).position by {
                old_out.insert_ensures(k as int, x);
            }
            assert(out@.to_multiset().add(src@.to_multiset()) =~= v@.to_multiset()) by {
                assert(old_src.to_multiset() =~= src@.to_multiset().insert(x));
                assert(out@.to_multiset() =~= old_out.to_multiset().insert(x));
            }
        }
    }
    out
}

/// Note-attachment rows in ascending position order.
pub open spec fn note_attachments_sorted_by_position(s: Seq<NoteAttachment>) -> bool {
    forall|i: int, j: int|
        0 <= i <= j < s.len() ==> (#[trigger] s[i]).position <= (#[trigger] s[j]).position
}

/// Sorts note-attachment rows by ascending position.
pub fn sort_note_attachments_by_position(v: Vec<NoteAttachment>) -> (r: Vec<NoteAttachment>)
    ensures
        r@.to_multiset() =~= v@.to_multiset(),
        note_attachments_sorted_by_position(r@),
{
    let mut src = v;
    let mut out: Vec<NoteAttachment> = Vec::new();
    while src.len() > 0
        invariant
            out@.to_multiset().add(src@.to_multiset()) =~= v@.to_multiset(),
            note_attachments_sorted_by_position(out@),
        decreases src.len(),
    {
        let ghost old_src = src@;
        let ghost old_out = out@;
        let x = src.pop().unwrap();
        proof {
            lemma_to_multiset_drop_last(old_src);
        }
        let mut k: usize = 0;
        while k < out.len() && out[k].position <= x.position
            invariant
                k <= out.len(),
                out@ == old_out,
                forall|t: int| 0 <= t < k ==> (#[trigger] out@[t]).position <= x.position,
            decreases out.len() - k,
        {
            k += 1;
        }
        out.insert(k, x);
        proof {
            lemma_to_multiset_insert(old_out, k as int, x);
            assert forall|i: int, j: int| 0 <= i <= j < out@.len() implies (
            #[trigger] out@[i]).position <= (#[trigger] out@[j]).position by {
                old_out.insert_ensures(k as int, x);
            }
            assert(out@.to_multiset().add(src@.to_multiset()) =~= v@.to_multiset()) by {
                assert(old_src.to_multiset() =~= src@.to_multiset().insert(x));
                assert(out@.to_multiset() =~= old_out.to_multiset().insert(x));
            }
        }
    }
    out
}

/// True when `a` comes no later than `b` in primary-first-then-position
/// order.
pub open spec fn nf_leq_primary(a: NoteFolder, b: NoteFolder) -> bool {
    if a.is_primary != b.is_primary {
        a.is_primary
    } else {
        a.position <= b.position
    }
}

/// Sorts note-folder rows primary first, then by ascending position.
pub fn sort_note_folders_primary_first(v: Vec<NoteFolder>) -> (r: Vec<NoteFolder>)
    ensures
        r@.to_multiset() =~= v@.to_multiset(),
        note_folders_sorted_primary_first(r@),
{
    let mut src = v;
    let mut out: Vec<NoteFolder> = Vec::new();
    while src.len() > 0
        invariant
            out@.to_multiset().add(src@.to_multiset()) =~= v@.to_multiset(),
            note_folders_sorted_primary_first(out@),
        decreases src.len(),
    {
        let ghost old_src = src@;
        let ghost old_out = out@;
        let x = src.pop().unwrap();
        proof {
            lemma_to_multiset_drop_last(old_src);
        }
        let mut k: usize = 0;
        while k < out.len() && (out[k].is_primary != x.is_primary && out[k].is_primary || (
        out[k].is_primary == x.is_primary && out[k].position <= x.position))
            invariant
                k <= out.len(),
                out@ == old_out,
                forall|t: int| 0 <= t < k ==> nf_leq_primary(#[trigger] out@[t], x),
            decreases out.len() - k,
        {
            k += 1;
        }
        out.insert(k, x);
        proof {
            lemma_to_multiset_insert(old_out, k as int, x);
            assert forall|i: int, j: int| 0 <= i <= j < out@.len() implies ((
            #[trigger] out@[i]).is_primary || !(#[trigger] out@[j]).is_primary) && ((out@[i].is_primary
                == out@[j].is_primary) ==> out@[i].position <= out@[j].position) by {
                old_out.insert_ensures(k as int, x);
            }
            assert(out@.to_multiset().add(src@.to_multiset()) =~= v@.to_multiset()) by {
                assert(old_src.to_multiset() =~= src@.to_multiset().insert(x));
                assert(out@.to_multiset() =~= old_out.to_multiset().insert(x));
            }
        }
    }
    out
}

/// Sorts note-folder rows by ascending position.
pub fn sort_note_folders_by_position(v: Vec<NoteFolder>) -> (r: Vec<NoteFolder>)
    ensures
        r@.to_multiset() =~= v@.to_multiset(),
        note_folders_sorted_by_position(r@),
{
    let mut src = v;
    let mut out: Vec<NoteFolder> = Vec::new();
    while src.len() > 0
        invariant
            out@.to_multiset().add(src@.to_multiset()) =~= v@.to_multiset(),
            note_folders_sorted_by_position(out@),
        decreases src.len(),
    {
        let ghost old_src = src@;
        let ghost old_out = out@;
        let x = src.pop().unwrap();
        proof {
            lemma_to_multiset_drop_last(old_src);
        }
        let mut k: usize = 0;
        while k < out.len() && out[k].position <= x.position
            invariant
                k <= out.len(),
                out@ == old_out,
                forall|t: int| 0 <= t < k ==> (#[trigger] out@[t]).position <= x.position,
            decreases out.len() - k,
        {
            k += 1;
        }
        out.insert(k, x);
        proof {
            lemma_to_multiset_insert(old_out, k as int, x);
            assert forall|i: int, j: int| 0 <= i <= j < out@.len() implies (
            #[trigger] out@[i]).position <= (#[trigger] out@[j]).position by {
                old_out.insert_ensures(k as int, x);
            }
            assert(out@.to_multiset().add(src@.to_multiset()) =~= v@.to_multiset()) by {
                assert(old_src.to_multiset() =~= src@.to_multiset().insert(x));
                assert(out@.to_multiset() =~= old_out.to_multiset().insert(x));
            }
        }
    }
    out
}


/// Tags in ascending name order, compared as the store's binary
/// collation does.
pub open spec fn tags_sorted_by_name(s: Seq<Tag>) -> bool {
    forall|i: int, j: int|
        0 <= i <= j < s.len() ==> bytes_le(
            encode_utf8((#[trigger] s[i]).name@),
            encode_utf8((#[trigger] s[j]).name@),
        )
}

/// Sorts tags by ascending name.
pub fn sort_tags_by_name(v: Vec<Tag>) -> (r: Vec<Tag>)
    ensures
        r@.to_multiset() =~= v@.to_multiset(),
        tags_sorted_by_name(r@),
{
    let mut src = v;
    let mut out: Vec<Tag> = Vec::new();
    while src.len() > 0
        invariant
            out@.to_multiset().add(src@.to_multiset()) =~= v@.to_multiset(),
            tags_sorted_by_name(out@),
        decreases src.len(),
    {
        let ghost old_src = src@;
        let ghost old_out = out@;
        let x = src.pop().unwrap();
        proof {
            lemma_to_multiset_drop_last(old_src);
        }
        let mut k: usize = 0;
        while k < out.len() && str_bytes_le(&out[k].name, &x.name)
            invariant
                k <= out.len(),
                out@ == old_out,
                forall|t: int|
                    0 <= t < k ==> bytes_le(
                        encode_utf8((#[trigger] out@[t]).name@),
                        encode_utf8(x.name@),
                    ),
            decreases out.len() - k,
        {
            k += 1;
        }
        proof {
            if (k as int) < out@.len() {
                lemma_bytes_le_total(encode_utf8(out@[k as int].name@), encode_utf8(x.name@));
            }
        }
        out.insert(k, x);
        proof {
            lemma_to_multiset_insert(old_out, k as int, x);
            assert forall|i: int, j: int| 0 <= i <= j < out@.len() implies bytes_le(
                encode_utf8((#[trigger] out@[i]).name@),
                encode_utf8((#[trigger] out@[j]).name@),
            ) by {
                old_out.insert_ensures(k as int, x);
                if i == k && j > k {
                    lemma_bytes_le_trans(
                        encode_utf8(x.name@),
                        encode_utf8(old_out[k as int].name@),
                        encode_utf8(old_out[j - 1].name@),
                    );
                }
                if i < k && j == k {
                }
                if i == j && i == k {
                    lemma_bytes_le_total(encode_utf8(x.name@), encode_utf8(x.name@));
                }
            }
            assert(out@.to_multiset().add(src@.to_multiset()) =~= v@.to_multiset()) by {
                assert(old_src.to_multiset() =~= src@.to_multiset().insert(x));
                assert(out@.to_multiset() =~= old_out.to_multiset().insert(x));
            }
        }
    }
    out
}

} // verus!
