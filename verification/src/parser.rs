//! Markdown-to-block parsing: splits a note body into typed, ordered
//! content blocks by its line structure.
//!
//! Recognized at the start of a line: one to six hashes for headings,
//! backtick fences for code blocks (kept verbatim, fences included),
//! dash or star bullets and single-digit ordered markers for list items,
//! a leading angle bracket for quotes, and a dash, star or underscore
//! rule. Everything else accumulates into paragraphs; blank lines close
//! the open paragraph.

use vstd::prelude::*;

use vstd::string::StrSliceExecFns;
use vstd::string::StringExecFns;

use crate::error::Error;
use crate::ids::new_uuid;
use crate::models::{new_strlit_string, Block};

verus! {

/// The block-type tokens the parser emits.
pub open spec fn is_block_type_token(s: Seq<char>) -> bool {
    ||| s == "paragraph"@
    ||| s == "heading_h1"@
    ||| s == "heading_h2"@
    ||| s == "heading_h3"@
    ||| s == "heading_h4"@
    ||| s == "heading_h5"@
    ||| s == "heading_h6"@
    ||| s == "code_block"@
    ||| s == "list_item"@
    ||| s == "quote"@
    ||| s == "horizontal_rule"@
}

/// Every block of a parse belongs to the named note, is active, sits at
/// its own index, and carries one of the parser's type tokens.
pub open spec fn parsed_blocks_ok(v: Seq<Block>, note_id: Seq<char>) -> bool {
    forall|k: int|
        0 <= k < v.len() ==> {
            &&& (#[trigger] v[k]).note_id@ == note_id
            &&& v[k].position == k
            &&& !v[k].is_deleted
            &&& v[k].deleted_at is None
            &&& is_block_type_token(v[k].block_type@)
        }
}

/// The lines of the text, split on line feeds.
fn split_lines(text: &str) -> (r: Vec<String>)
    ensures
        r@.len() <= text@.len() + 1,
{
    let n = text.unicode_len();
    let mut out: Vec<String> = Vec::new();
    let mut start: usize = 0;
    let mut i: usize = 0;
    while i < n
        invariant
            n == text@.len(),
            start <= i <= n,
            out@.len() <= i,
        decreases n - i,
    {
        if text.get_char(i) == '\n' {
            let line = text.substring_char(start, i);
            out.push(line.to_owned());
            start = i + 1;
        }
        i += 1;
    }
    if start < n {
        let line = text.substring_char(start, n);
        out.push(line.to_owned());
    }
    out
}

/// How many leading hashes a heading line carries, capped at seven.
fn leading_hashes(line: &String) -> (r: usize)
    ensures
        r <= 7,
{
    let s = line.as_str();
    let n = s.unicode_len();
    let mut k: usize = 0;
    while k < n && k < 7
        invariant
            n == s@.len(),
            k <= 7,
            k <= n,
        decreases 7 - k,
    {
        if s.get_char(k) == '#' {
            k += 1;
        } else {
            return k;
        }
    }
    k
}

/// Whether every character of the line is a space or tab.
fn is_blank(line: &String) -> bool {
    let s = line.as_str();
    let n = s.unicode_len();
    let mut i: usize = 0;
    while i < n
        invariant
            n == s@.len(),
            i <= n,
        decreases n - i,
    {
        let c = s.get_char(i);
        if !(c == ' ' || c == '\t') {
            return false;
        }
        i += 1;
    }
    true
}

/// Whether the line opens or closes a backtick fence.
fn is_fence(line: &String) -> bool {
    let s = line.as_str();
    let n = s.unicode_len();
    n >= 3 && s.get_char(0) == '`' && s.get_char(1) == '`' && s.get_char(2) == '`'
}

/// Whether the line is a thematic break of exactly three dashes, stars
/// or underscores.
fn is_rule(line: &String) -> bool {
    let s = line.as_str();
    let n = s.unicode_len();
    if n != 3 {
        return false;
    }
    let c = s.get_char(0);
    (c == '-' || c == '*' || c == '_') && s.get_char(1) == c && s.get_char(2) == c
}

/// Whether the line starts an unordered list item.
fn is_bullet(line: &String) -> bool {
    let s = line.as_str();
    let n = s.unicode_len();
    n >= 2 && (s.get_char(0) == '-' || s.get_char(0) == '*') && s.get_char(1) == ' '
}

/// Whether the line starts a single-digit ordered list item.
fn is_ordered_item(line: &String) -> bool {
    let s = line.as_str();
    let n = s.unicode_len();
    n >= 3 && '0' <= s.get_char(0) && s.get_char(0) <= '9' && s.get_char(1) == '.' && s.get_char(
        2,
    ) == ' '
}

/// The line's text from the given character on.
fn tail_from(line: &String, from: usize) -> String {
    let s = line.as_str();
    let n = s.unicode_len();
    if from >= n {
        String::new()
    } else {
        s.substring_char(from, n).to_owned()
    }
}

/// The heading token for a hash count.
fn heading_token(level: usize) -> (r: String)
    requires
        1 <= level <= 6,
    ensures
        is_block_type_token(r@),
{
    proof {
        reveal_strlit("heading_h1");
        reveal_strlit("heading_h2");
        reveal_strlit("heading_h3");
        reveal_strlit("heading_h4");
        reveal_strlit("heading_h5");
        reveal_strlit("heading_h6");
    }
    if level == 1 {
        new_strlit_string("heading_h1")
    } else if level == 2 {
        new_strlit_string("heading_h2")
    } else if level == 3 {
        new_strlit_string("heading_h3")
    } else if level == 4 {
        new_strlit_string("heading_h4")
    } else if level == 5 {
        new_strlit_string("heading_h5")
    } else {
        new_strlit_string("heading_h6")
    }
}

/// Appends one block of the given type and content at the next position.
fn push_block(
    out: &mut Vec<Block>,
    note_id: &String,
    block_type: String,
    content: String,
)
    requires
        parsed_blocks_ok(old(out)@, note_id@),
        is_block_type_token(block_type@),
        old(out)@.len() < i64::MAX,
    ensures
        parsed_blocks_ok(final(out)@, note_id@),
        final(out)@.len() == old(out)@.len() + 1,
{
    let u = new_uuid();
    let block_id = new_strlit_string("block-").concat(u.as_str());
    let position: i64 = out.len() as i64;
    let block = crate::models::Block::new(
        block_id,
        note_id.clone(),
        block_type,
        content,
        position,
    );
    out.push(block);
}

/// Parses a Markdown body into blocks for the named note: each block
/// active, positioned densely from zero, and typed with one of the
/// parser's tokens.
pub fn parse_markdown_to_blocks(content: &String, note_id: &String) -> (r: Result<
    Vec<Block>,
    Error,
>)
    requires
        4 * content@.len() <= i64::MAX,
    ensures
        match r {
            Ok(v) => parsed_blocks_ok(v@, note_id@),
            Err(_) => false,
        },
{
    proof {
        reveal_strlit("paragraph");
        reveal_strlit("code_block");
        reveal_strlit("list_item");
        reveal_strlit("quote");
        reveal_strlit("horizontal_rule");
    }
    let lines = split_lines(content.as_str());
    let mut out: Vec<Block> = Vec::new();
    let mut para: String = String::new();
    let mut has_para: bool = false;
    let mut in_fence: bool = false;
    let mut fence: String = String::new();
    let mut i: usize = 0;
    while i < lines.len()
        invariant
            lines@.len() <= content@.len() + 1,
            4 * content@.len() <= i64::MAX,
            i <= lines@.len(),
            parsed_blocks_ok(out@, note_id@),
            out@.len() <= 2 * i,
        decreases lines@.len() - i,
    {
        let line = &lines[i];
        if in_fence {
            fence.append("\n");
            fence.append(line.as_str());
            if is_fence(line) {
                push_block(&mut out, note_id, new_strlit_string("code_block"), fence);
                fence = String::new();
                in_fence = false;
            }
        } else if is_fence(line) {
            if has_para {
                push_block(&mut out, note_id, new_strlit_string("paragraph"), para);
                para = String::new();
                has_para = false;
            }
            fence = line.clone();
            in_fence = true;
        } else if is_blank(line) {
            if has_para {
                push_block(&mut out, note_id, new_strlit_string("paragraph"), para);
                para = String::new();
                has_para = false;
            }
        } else if is_rule(line) {
            if has_para {
                push_block(&mut out, note_id, new_strlit_string("paragraph"), para);
                para = String::new();
                has_para = false;
            }
            push_block(
                &mut out,
                note_id,
                new_strlit_string("horizontal_rule"),
                new_strlit_string("---"),
            );
        } else {
            let hashes = leading_hashes(line);
            if 1 <= hashes && hashes <= 6 {
                if has_para {
                    push_block(&mut out, note_id, new_strlit_string("paragraph"), para);
                    para = String::new();
                    has_para = false;
                }
                let token = heading_token(hashes);
                push_block(&mut out, note_id, token, tail_from(line, hashes + 1));
            } else if is_bullet(line) {
                if has_para {
                    push_block(&mut out, note_id, new_strlit_string("paragraph"), para);
                    para = String::new();
                    has_para = false;
                }
                push_block(&mut out, note_id, new_strlit_string("list_item"), tail_from(line, 2));
            } else if is_ordered_item(line) {
                if has_para {
                    push_block(&mut out, note_id, new_strlit_string("paragraph"), para);
                    para = String::new();
                    has_para = false;
                }
                push_block(&mut out, note_id, new_strlit_string("list_item"), tail_from(line, 3));
            } else if line.as_str().unicode_len() >= 1 && line.as_str().get_char(0) == '>' {
                if has_para {
                    push_block(&mut out, note_id, new_strlit_string("paragraph"), para);
                    para = String::new();
                    has_para = false;
                }
                let skip: usize = if line.as_str().unicode_len() >= 2 && line.as_str().get_char(1)
                    == ' ' {
                    2
                } else {
                    1
                };
                push_block(&mut out, note_id, new_strlit_string("quote"), tail_from(line, skip));
            } else {
                if has_para {
                    para.append("\n");
                    para.append(line.as_str());
                } else {
                    para = line.clone();
                    has_para = true;
                }
            }
        }
        i += 1;
    }
    if in_fence {
        push_block(&mut out, note_id, new_strlit_string("code_block"), fence);
    } else if has_para {
        push_block(&mut out, note_id, new_strlit_string("paragraph"), para);
    }
    Ok(out)
}

} // verus!
