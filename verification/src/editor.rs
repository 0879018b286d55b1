//! The plain-text edit buffer: cursor and selection clamped to the
//! character count, character-indexed insert and delete, and a linear
//! undo/redo history of whole-buffer snapshots.

use vstd::prelude::*;

use vstd::string::StrSliceExecFns;
use vstd::string::StringExecFns;

use crate::error::Error;

verus! {

/// How many line feeds sit at or after `from`.
pub open spec fn count_nl_from(s: Seq<char>, from: int) -> int
    decreases s.len() - from,
{
    if from < 0 || from >= s.len() {
        0
    } else {
        count_nl_from(s, from + 1) + (if s[from] == '\n' {
            1int
        } else {
            0int
        })
    }
}

/// How many line feeds the buffer holds.
pub open spec fn count_nl(s: Seq<char>) -> int {
    count_nl_from(s, 0)
}

/// The first line feed at or after `from`, or the length when none is
/// left.
pub open spec fn spec_next_nl(s: Seq<char>, from: int) -> int
    decreases s.len() - from,
{
    if from < 0 || from >= s.len() {
        s.len() as int
    } else if s[from] == '\n' {
        from
    } else {
        spec_next_nl(s, from + 1)
    }
}

/// The character index where line `k` starts: zero, or one past the
/// previous line's line feed.
pub open spec fn spec_line_start(s: Seq<char>, k: int) -> int
    decreases k,
{
    if k <= 0 {
        0
    } else {
        spec_next_nl(s, spec_line_start(s, k - 1)) + 1
    }
}

/// The next line feed lies between `from` and the end.
pub proof fn lemma_next_nl_bounds(s: Seq<char>, from: int)
    requires
        0 <= from <= s.len(),
    ensures
        from <= spec_next_nl(s, from) <= s.len(),
        spec_next_nl(s, from) < s.len() ==> s[spec_next_nl(s, from)] == '\n',
    decreases s.len() - from,
{
    if from < s.len() && s[from] != '\n' {
        lemma_next_nl_bounds(s, from + 1);
    }
}

/// The count of line feeds is never negative.
pub proof fn lemma_count_nonneg(s: Seq<char>, from: int)
    ensures
        count_nl_from(s, from) >= 0,
    decreases s.len() - from,
{
    if 0 <= from && from < s.len() {
        lemma_count_nonneg(s, from + 1);
    }
}

/// Stepping past one line feed consumes exactly one of the count.
pub proof fn lemma_count_next(s: Seq<char>, from: int)
    requires
        0 <= from <= s.len(),
    ensures
        count_nl_from(s, from) == (if spec_next_nl(s, from) == s.len() {
            0int
        } else {
            1 + count_nl_from(s, spec_next_nl(s, from) + 1)
        }),
        count_nl_from(s, from) >= 0,
    decreases s.len() - from,
{
    if from < s.len() {
        lemma_count_next(s, from + 1);
    }
}

/// The edit buffer with its cursor, optional selection, and history.
#[derive(Debug)]
pub struct EditorCore {
    pub buffer: String,
    pub cursor: usize,
    pub selection: Option<(usize, usize)>,
    pub undo_stack: Vec<String>,
    pub redo_stack: Vec<String>,
}

impl EditorCore {
    /// The editor invariant: the cursor sits inside the buffer and the
    /// undo history always keeps at least the current state.
    pub open spec fn wf(self) -> bool {
        &&& self.cursor <= self.buffer@.len()
        &&& self.undo_stack@.len() >= 1
        &&& self.undo_stack@.last()@ == self.buffer@
    }

    /// The buffer's characters.
    pub open spec fn view_buffer(self) -> Seq<char> {
        self.buffer@
    }

    /// The cursor's character index.
    pub open spec fn view_cursor(self) -> int {
        self.cursor as int
    }

    /// The selection, if one is set.
    pub open spec fn view_selection(self) -> Option<(usize, usize)> {
        self.selection
    }

    /// An editor over the given text, cursor at the end, no selection,
    /// and the initial state as the one history entry: nothing to undo or
    /// redo until an edit is applied.
    pub fn new(initial_content: String) -> (r: EditorCore)
        ensures
            r.wf(),
            r.view_buffer() == initial_content@,
            r.view_cursor() == initial_content@.len(),
            r.view_selection() is None,
            r.undo_stack@.len() == 1,
            r.undo_stack@[0]@ == initial_content@,
            r.redo_stack@.len() == 0,
    {
        let len = initial_content.as_str().unicode_len();
        let snapshot = initial_content.clone();
        let mut undo_stack: Vec<String> = Vec::new();
        undo_stack.push(snapshot);
        EditorCore {
            buffer: initial_content,
            cursor: len,
            selection: None,
            undo_stack,
            redo_stack: Vec::new(),
        }
    }

    /// A copy of the buffer.
    pub fn buffer_content(&self) -> (r: String)
        ensures
            r@ == self.view_buffer(),
    {
        self.buffer.clone()
    }

    /// How many lines the buffer shows: one more than the line feeds
    /// before a trailing remainder, never less than one.
    pub fn line_count(&self) -> (r: usize)
        requires
            self.wf(),
        ensures
            r == (if self.view_buffer().len() == 0 {
                1int
            } else {
                count_nl(self.view_buffer()) + (if self.view_buffer().last() == '\n' {
                    0int
                } else {
                    1int
                })
            }),
            r >= 1,
    {
        let text = self.buffer.as_str();
        let n = text.unicode_len();
        if n == 0 {
            return 1;
        }
        let mut nl: usize = 0;
        let mut i: usize = n;
        while i > 0
            invariant
                text@ == self.buffer@,
                n == self.buffer@.len(),
                i <= n,
                nl == count_nl_from(self.buffer@, i as int),
                nl <= n - i,
                (n > 0 && self.buffer@[n as int - 1] != '\n') ==> nl + (if i < n {
                    1int
                } else {
                    0int
                }) <= n - i,
                (i < n && self.buffer@[n as int - 1] == '\n') ==> nl >= 1,
            decreases i,
        {
            i -= 1;
            if text.get_char(i) == '\n' {
                nl += 1;
            }
        }
        let last = text.get_char(n - 1);
        proof {
            lemma_count_next(self.buffer@, 0);
        }
        if last == '\n' {
            nl
        } else {
            nl + 1
        }
    }

    /// The cursor's character index.
    pub fn cursor_position(&self) -> (r: usize)
        ensures
            r == self.view_cursor(),
    {
        self.cursor
    }

    /// Moves the cursor, clamping it to the character count.
    pub fn set_cursor(&mut self, index: usize) -> (r: Result<(), Error>)
        requires
            old(self).wf(),
        ensures
            final(self).wf(),
            r is Ok,
            final(self).view_buffer() == old(self).view_buffer(),
            final(self).view_cursor() == (if index <= old(self).view_buffer().len() {
                index as int
            } else {
                old(self).view_buffer().len() as int
            }),
            final(self).view_selection() == old(self).view_selection(),
            final(self).undo_stack == old(self).undo_stack,
            final(self).redo_stack == old(self).redo_stack,
    {
        let len = self.buffer.as_str().unicode_len();
        self.cursor = if index < len {
            index
        } else {
            len
        };
        Ok(())
    }

    /// The selection, if one is set.
    pub fn selection(&self) -> (r: Option<(usize, usize)>)
        ensures
            r == self.view_selection(),
    {
        self.selection
    }

    /// Sets the selection, clamping both ends to the character count.
    pub fn set_selection(&mut self, anchor: usize, head: usize) -> (r: Result<(), Error>)
        requires
            old(self).wf(),
        ensures
            final(self).wf(),
            r is Ok,
            final(self).view_buffer() == old(self).view_buffer(),
            final(self).view_cursor() == old(self).view_cursor(),
            final(self).view_selection() matches Some((a, h)) && a == (if anchor <= old(self).view_buffer().len() {
                anchor as int
            } else {
                old(self).view_buffer().len() as int
            }) && h == (if head <= old(self).view_buffer().len() {
                head as int
            } else {
                old(self).view_buffer().len() as int
            }),
            final(self).undo_stack == old(self).undo_stack,
            final(self).redo_stack == old(self).redo_stack,
    {
        let len = self.buffer.as_str().unicode_len();
        let a = if anchor < len {
            anchor
        } else {
            len
        };
        let h = if head < len {
            head
        } else {
            len
        };
        self.selection = Some((a, h));
        Ok(())
    }

    /// Inserts text at the cursor, advances the cursor past it, records
    /// the new state in the undo history, and clears the redo history.
    pub fn insert_at_cursor(&mut self, text: &str) -> (r: Result<(), Error>)
        requires
            old(self).wf(),
            old(self).view_buffer().len() + text@.len() <= usize::MAX,
        ensures
            final(self).wf(),
            r is Ok,
            final(self).view_buffer() == old(self).view_buffer().subrange(
                0,
                old(self).view_cursor(),
            ) + text@ + old(self).view_buffer().subrange(
                old(self).view_cursor(),
                old(self).view_buffer().len() as int,
            ),
            final(self).view_cursor() == old(self).view_cursor() + text@.len(),
            final(self).view_selection() == old(self).view_selection(),
            final(self).undo_stack@ == old(self).undo_stack@.push(final(self).buffer),
            final(self).redo_stack@.len() == 0,
    {
        let s = self.buffer.as_str();
        let n = s.unicode_len();
        let pre = s.substring_char(0, self.cursor);
        let post = s.substring_char(self.cursor, n);
        let mut nb = pre.to_owned();
        nb.append(text);
        nb.append(post);
        let tlen = text.unicode_len();
        self.buffer = nb;
        self.cursor = self.cursor + tlen;
        self.undo_stack.push(self.buffer.clone());
        self.redo_stack = Vec::new();
        Ok(())
    }

    /// Deletes up to `n` characters before the cursor, returning how many
    /// went; a change is recorded in the undo history and clears the redo
    /// history.
    pub fn delete_backward(&mut self, n: usize) -> (r: Result<usize, Error>)
        requires
            old(self).wf(),
        ensures
            final(self).wf(),
            match r {
                Ok(k) => {
                    let removed = (if n <= old(self).view_cursor() {
                        n as int
                    } else {
                        old(self).view_cursor()
                    });
                    &&& k == removed
                    &&& final(self).view_buffer() == old(self).view_buffer().subrange(
                        0,
                        old(self).view_cursor() - removed,
                    ) + old(self).view_buffer().subrange(
                        old(self).view_cursor(),
                        old(self).view_buffer().len() as int,
                    )
                    &&& final(self).view_cursor() == old(self).view_cursor() - removed
                    &&& (removed > 0 ==> final(self).undo_stack@ == old(self).undo_stack@.push(
                        final(self).buffer,
                    ) && final(self).redo_stack@.len() == 0)
                    &&& (removed == 0 ==> final(self).undo_stack == old(self).undo_stack
                        && final(self).redo_stack == old(self).redo_stack)
                },
                Err(_) => false,
            },
    {
        let k = if n < self.cursor {
            n
        } else {
            self.cursor
        };
        if k == 0 {
            proof {
                assert(self.buffer@.subrange(0, self.cursor as int) + self.buffer@.subrange(
                    self.cursor as int,
                    self.buffer@.len() as int,
                ) =~= self.buffer@);
            }
            return Ok(0);
        }
        let s = self.buffer.as_str();
        let len = s.unicode_len();
        let pre = s.substring_char(0, self.cursor - k);
        let post = s.substring_char(self.cursor, len);
        let mut nb = pre.to_owned();
        nb.append(post);
        self.buffer = nb;
        self.cursor = self.cursor - k;
        self.undo_stack.push(self.buffer.clone());
        self.redo_stack = Vec::new();
        Ok(k)
    }

    /// Deletes up to `n` characters after the cursor, returning how many
    /// went; a change is recorded in the undo history and clears the redo
    /// history.
    pub fn delete_forward(&mut self, n: usize) -> (r: Result<usize, Error>)
        requires
            old(self).wf(),
        ensures
            final(self).wf(),
            match r {
                Ok(k) => {
                    let avail = old(self).view_buffer().len() - old(self).view_cursor();
                    let removed = (if n <= avail {
                        n as int
                    } else {
                        avail
                    });
                    &&& k == removed
                    &&& final(self).view_buffer() == old(self).view_buffer().subrange(
                        0,
                        old(self).view_cursor(),
                    ) + old(self).view_buffer().subrange(
                        old(self).view_cursor() + removed,
                        old(self).view_buffer().len() as int,
                    )
                    &&& final(self).view_cursor() == old(self).view_cursor()
                    &&& (removed > 0 ==> final(self).undo_stack@ == old(self).undo_stack@.push(
                        final(self).buffer,
                    ) && final(self).redo_stack@.len() == 0)
                    &&& (removed == 0 ==> final(self).undo_stack == old(self).undo_stack
                        && final(self).redo_stack == old(self).redo_stack)
                },
                Err(_) => false,
            },
    {
        let s = self.buffer.as_str();
        let len = s.unicode_len();
        let avail = len - self.cursor;
        let k = if n < avail {
            n
        } else {
            avail
        };
        if k == 0 {
            proof {
                assert(self.buffer@.subrange(0, self.cursor as int) + self.buffer@.subrange(
                    self.cursor as int,
                    self.buffer@.len() as int,
                ) =~= self.buffer@);
            }
            return Ok(0);
        }
        let pre = s.substring_char(0, self.cursor);
        let post = s.substring_char(self.cursor + k, len);
        let mut nb = pre.to_owned();
        nb.append(post);
        self.buffer = nb;
        self.undo_stack.push(self.buffer.clone());
        self.redo_stack = Vec::new();
        Ok(k)
    }

    /// Steps back one history entry, moving the undone state onto the
    /// redo stack; at the initial state it reports `false` and changes
    /// nothing.
    pub fn undo(&mut self) -> (r: Result<bool, Error>)
        requires
            old(self).wf(),
        ensures
            final(self).wf(),
            match r {
                Ok(stepped) => {
                    if old(self).undo_stack@.len() <= 1 {
                        !stepped && *final(self) == *old(self)
                    } else {
                        &&& stepped
                        &&& final(self).undo_stack@ == old(self).undo_stack@.drop_last()
                        &&& final(self).redo_stack@ == old(self).redo_stack@.push(
                            old(self).undo_stack@.last(),
                        )
                        &&& final(self).view_buffer() == old(self).undo_stack@[old(self).undo_stack@.len() - 2]@
                        &&& final(self).view_cursor() == (if old(self).view_cursor() <= final(self).view_buffer().len() {
                            old(self).view_cursor()
                        } else {
                            final(self).view_buffer().len() as int
                        })
                    }
                },
                Err(_) => false,
            },
    {
        if self.undo_stack.len() <= 1 {
            return Ok(false);
        }
        let popped = match self.undo_stack.pop() {
            Some(s) => s,
            None => {
                proof {
                    assert(false);
                }
                return Ok(false);
            },
        };
        self.redo_stack.push(popped);
        let prev = self.undo_stack[self.undo_stack.len() - 1].clone();
        self.buffer = prev;
        let len = self.buffer.as_str().unicode_len();
        if self.cursor > len {
            self.cursor = len;
        }
        Ok(true)
    }

    /// Steps forward one previously undone entry; with nothing to redo it
    /// reports `false` and changes nothing.
    pub fn redo(&mut self) -> (r: Result<bool, Error>)
        requires
            old(self).wf(),
        ensures
            final(self).wf(),
            match r {
                Ok(stepped) => {
                    if old(self).redo_stack@.len() == 0 {
                        &&& !stepped
                        &&& final(self).buffer == old(self).buffer
                        &&& final(self).cursor == old(self).cursor
                        &&& final(self).selection == old(self).selection
                        &&& final(self).undo_stack == old(self).undo_stack
                        &&& final(self).redo_stack@ == old(self).redo_stack@
                    } else {
                        &&& stepped
                        &&& final(self).redo_stack@ == old(self).redo_stack@.drop_last()
                        &&& final(self).undo_stack@ == old(self).undo_stack@.push(
                            old(self).redo_stack@.last(),
                        )
                        &&& final(self).view_buffer() == old(self).redo_stack@.last()@
                        &&& final(self).view_cursor() == (if old(self).view_cursor() <= final(self).view_buffer().len() {
                            old(self).view_cursor()
                        } else {
                            final(self).view_buffer().len() as int
                        })
                    }
                },
                Err(_) => false,
            },
    {
        let popped = match self.redo_stack.pop() {
            Some(s) => s,
            None => {
                return Ok(false);
            },
        };
        self.undo_stack.push(popped.clone());
        self.buffer = popped;
        let len = self.buffer.as_str().unicode_len();
        if self.cursor > len {
            self.cursor = len;
        }
        Ok(true)
    }

    /// Whether a state before this one is recorded.
    pub fn can_undo(&self) -> (r: bool)
        ensures
            r == (self.undo_stack@.len() > 1),
    {
        self.undo_stack.len() > 1
    }

    /// Whether an undone state can be replayed.
    pub fn can_redo(&self) -> (r: bool)
        ensures
            r == (self.redo_stack@.len() > 0),
    {
        self.redo_stack.len() > 0
    }

    /// The index of the line the cursor sits on: the line feeds before
    /// the cursor.
    pub fn cursor_line_index(&self) -> (r: usize)
        requires
            self.wf(),
        ensures
            r == count_nl(self.view_buffer()) - count_nl_from(
                self.view_buffer(),
                self.view_cursor(),
            ),
    {
        let text = self.buffer.as_str();
        let mut nl: usize = 0;
        let mut i: usize = self.cursor;
        while i > 0
            invariant
                text@ == self.buffer@,
                i <= self.cursor <= self.buffer@.len(),
                nl == count_nl_from(self.buffer@, i as int) - count_nl_from(
                    self.buffer@,
                    self.cursor as int,
                ),
                nl <= self.cursor - i,
            decreases i,
        {
            i -= 1;
            if text.get_char(i) == '\n' {
                nl += 1;
            }
        }
        proof {
            lemma_count_next(self.buffer@, self.cursor as int);
        }
        nl
    }

    /// The character range of line `line_index`, line feed excluded, or
    /// nothing when the buffer has fewer lines.
    pub fn line_range(&self, line_index: usize) -> (r: Option<core::ops::Range<usize>>)
        requires
            self.wf(),
        ensures
            match r {
                Some(rng) => {
                    &&& line_index <= count_nl(self.view_buffer())
                    &&& rng.start == spec_line_start(self.view_buffer(), line_index as int)
                    &&& rng.end == spec_next_nl(self.view_buffer(), rng.start as int)
                    &&& rng.start <= rng.end <= self.view_buffer().len()
                },
                None => line_index > count_nl(self.view_buffer()),
            },
    {
        let text = self.buffer.as_str();
        let n = text.unicode_len();
        let mut start: usize = 0;
        let mut k: usize = 0;
        proof {
            lemma_count_next(self.buffer@, 0);
        }
        while k < line_index
            invariant
                self.wf(),
                text@ == self.buffer@,
                n == self.buffer@.len(),
                k <= line_index,
                start <= n,
                start as int == spec_line_start(self.buffer@, k as int),
                count_nl_from(self.buffer@, start as int) == count_nl(self.buffer@) - k,
                count_nl(self.buffer@) >= k,
            decreases line_index - k,
        {
            let nl = next_nl(text, start);
            proof {
                lemma_next_nl_bounds(self.buffer@, start as int);
                lemma_count_next(self.buffer@, start as int);
                if nl < n {
                    lemma_count_nonneg(self.buffer@, nl as int + 1);
                }
            }
            if nl == n {
                return None;
            }
            start = nl + 1;
            k += 1;
        }
        let end = next_nl(text, start);
        proof {
            lemma_next_nl_bounds(self.buffer@, start as int);
        }
        Some(start..end)
    }

    /// The text of line `line_index`, line feed excluded, or nothing when
    /// the buffer has fewer lines.
    pub fn line_content(&self, line_index: usize) -> (r: Option<String>)
        requires
            self.wf(),
        ensures
            match r {
                Some(text) => {
                    let start = spec_line_start(self.view_buffer(), line_index as int);
                    &&& line_index <= count_nl(self.view_buffer())
                    &&& text@ == self.view_buffer().subrange(
                        start,
                        spec_next_nl(self.view_buffer(), start),
                    )
                },
                None => line_index > count_nl(self.view_buffer()),
            },
    {
        match self.line_range(line_index) {
            Some(rng) => {
                let piece = self.buffer.as_str().substring_char(rng.start, rng.end);
                Some(piece.to_owned())
            },
            None => None,
        }
    }

    /// The byte offset of the given character offset, clamped to the
    /// buffer: the summed UTF-8 widths of the characters before it.
    pub fn char_offset_to_byte(&self, char_offset: usize) -> (r: usize)
        requires
            self.wf(),
            4 * self.view_buffer().len() <= usize::MAX,
        ensures
            r == utf8_width_sum(
                self.view_buffer(),
                (if char_offset <= self.view_buffer().len() {
                    char_offset as int
                } else {
                    self.view_buffer().len() as int
                }),
            ),
    {
        let text = self.buffer.as_str();
        let n = text.unicode_len();
        let upto = if char_offset < n {
            char_offset
        } else {
            n
        };
        let mut total: usize = 0;
        let mut i: usize = 0;
        while i < upto
            invariant
                self.wf(),
                text@ == self.buffer@,
                n == self.buffer@.len(),
                upto <= n,
                i <= upto,
                total == utf8_width_sum(self.buffer@, i as int),
                total <= 4 * (i as int),
                4 * self.buffer@.len() <= usize::MAX,
        decreases upto - i,
        {
            proof {
                lemma_width_sum_le(self.buffer@, i as int);
            }
            let c = text.get_char(i);
            let w = char_utf8_width(c);
            proof {
                assert(total + w <= 4 * (i as int) + 4);
                assert(4 * (i as int) + 4 <= 4 * (n as int));
                assert(4 * (n as int) == 4 * self.view_buffer().len());
                assert(total + w <= usize::MAX);
            }
            total = total + w;
            i += 1;
        }
        total
    }
}

/// The UTF-8 width of one character, by code point range.
pub open spec fn spec_char_width(c: char) -> int {
    if c <= '\u{7F}' {
        1
    } else if c <= '\u{7FF}' {
        2
    } else if c <= '\u{FFFF}' {
        3
    } else {
        4
    }
}

/// The summed UTF-8 widths of the first `k` characters.
pub open spec fn utf8_width_sum(s: Seq<char>, k: int) -> int
    decreases k,
{
    if k <= 0 {
        0
    } else {
        utf8_width_sum(s, k - 1) + spec_char_width(s[k - 1])
    }
}

/// Each character is at most four bytes wide.
pub proof fn lemma_width_sum_le(s: Seq<char>, k: int)
    requires
        k >= 0,
    ensures
        0 <= utf8_width_sum(s, k) <= 4 * k,
    decreases k,
{
    if k > 0 {
        lemma_width_sum_le(s, k - 1);
    }
}

/// The UTF-8 width of one character.
fn char_utf8_width(c: char) -> (r: usize)
    ensures
        r == spec_char_width(c),
        1 <= r <= 4,
{
    if c <= '\u{7F}' {
        1
    } else if c <= '\u{7FF}' {
        2
    } else if c <= '\u{FFFF}' {
        3
    } else {
        4
    }
}

/// The index of the first line feed at or after `from`, or the length.
fn next_nl(text: &str, from: usize) -> (r: usize)
    requires
        from <= text@.len(),
    ensures
        r == spec_next_nl(text@, from as int),
{
    let n = text.unicode_len();
    let mut i: usize = from;
    while i < n
        invariant
            from <= i <= n,
            n == text@.len(),
            spec_next_nl(text@, from as int) == spec_next_nl(text@, i as int),
        decreases n - i,
    {
        if text.get_char(i) == '\n' {
            return i;
        }
        i += 1;
    }
    n
}

} // verus!
