//! The gap store: the document's characters in one contiguous backing region
//! with a relocatable empty gap at the edit point, so that repeated edits at
//! the same place cost O(1) after the gap has been moved there.

use crate::chars::{chars_of_str, push_char, string_of_chars};
use crate::line_index::{
    char_views, clamp_col, doc_len, join_lines, line_start, lines_of, offset_of, position_from,
    position_of, split_into_lines,
};
use vstd::prelude::*;

verus! {

/// Largest document (in characters) the store accepts; keeps the growth
/// arithmetic inside `usize` on every target.
pub const MAX_DOC: usize = 0x1000_0000;

/// Largest backing region the store ever allocates.
pub const MAX_CAP: usize = 0x2000_0000;

/// The gap allocated for content of length `n`: a quarter of it, but at
/// least a fixed floor.
pub open spec fn gap_for(n: int) -> int {
    if n / 4 > 64 {
        n / 4
    } else {
        64
    }
}

/// A gap buffer: `buffer[0 .. gap_start)` is the text before the edit point,
/// `buffer[gap_start .. gap_end)` is the unused gap, and
/// `buffer[gap_end .. buffer.len())` is the text after the edit point.
pub struct GapBuffer {
    buffer: Vec<char>,
    gap_start: usize,
    gap_end: usize,
}

impl GapBuffer {
    /// The structural invariant of the store.
    pub closed spec fn wf(&self) -> bool {
        &&& self.gap_start <= self.gap_end
        &&& self.gap_end <= self.buffer@.len()
        &&& self.buffer@.len() <= MAX_CAP
    }

    /// The document content: the text before the gap followed by the text
    /// after it.
    pub closed spec fn content(&self) -> Seq<char> {
        self.buffer@.take(self.gap_start as int) + self.buffer@.skip(self.gap_end as int)
    }

    /// The edit point: every single-point edit happens here.
    pub closed spec fn point(&self) -> int {
        self.gap_start as int
    }

    /// The size of the backing region, content and gap together.
    pub closed spec fn capacity(&self) -> int {
        self.buffer@.len() as int
    }

    /// The size of the unused gap.
    pub closed spec fn gap_len(&self) -> int {
        self.gap_end - self.gap_start
    }

    pub proof fn lemma_point_in_content(&self)
        requires
            self.wf(),
        ensures
            0 <= self.point() <= self.content().len(),
            self.content().len() <= MAX_CAP,
    {
    }

    /// Create a new empty gap buffer.
    pub fn new() -> (r: Self)
        ensures
            r.wf(),
            r.content() == Seq::<char>::empty(),
            r.point() == 0,
            r.capacity() == 64,
            r.gap_len() == 64,
    {
        let initial_capacity: usize = 64;
        let buffer: Vec<char> = vec!['\0'; initial_capacity];
        let r = Self { buffer, gap_start: 0, gap_end: initial_capacity };
        proof {
            assert(r.content() =~= Seq::<char>::empty());
        }
        r
    }

    /// Build a store holding exactly `chars`, with the gap placed after all
    /// content and sized to at least a fixed floor.
    fn from_chars(chars: Vec<char>) -> (r: Self)
        requires
            chars@.len() <= MAX_DOC,
        ensures
            r.wf(),
            r.content() == chars@,
            r.point() == chars@.len(),
            r.gap_len() == gap_for(chars@.len() as int),
            r.capacity() == chars@.len() + gap_for(chars@.len() as int),
    {
        let text_len = chars.len();
        let quarter = text_len / 4;
        let gap_size: usize = if 64 > quarter {
            64
        } else {
            quarter
        };
        let total_size = text_len + gap_size;
        let ghost orig = chars@;
        let mut buffer = chars;
        let mut i: usize = 0;
        while i < gap_size
            invariant
                i <= gap_size,
                text_len as int == orig.len(),
                buffer@.len() == text_len + i,
                buffer@.take(text_len as int) == orig,
                text_len + gap_size <= MAX_CAP,
            decreases gap_size - i,
        {
            buffer.push('\0');
            i = i + 1;
            proof {
                assert(buffer@.take(text_len as int) =~= orig);
            }
        }
        let r = Self { buffer, gap_start: text_len, gap_end: total_size };
        proof {
            assert(r.content() =~= r.buffer@.take(text_len as int));
        }
        r
    }

    /// Create a gap buffer from text.
    pub fn from_text(text: &str) -> (r: Self)
        requires
            text@.len() <= MAX_DOC,
        ensures
            r.wf(),
            r.content() == text@,
            r.point() == text@.len(),
            r.gap_len() == gap_for(text@.len() as int),
            r.capacity() == text@.len() + gap_for(text@.len() as int),
    {
        Self::from_chars(chars_of_str(text))
    }

    /// Create a gap buffer from lines, joined with single newlines.
    pub fn from_lines(lines: Vec<String>) -> (r: Self)
        requires
            join_lines(Seq::new(lines@.len(), |i: int| lines@[i]@)).len() <= MAX_DOC,
        ensures
            r.wf(),
            r.content() == join_lines(Seq::new(lines@.len(), |i: int| lines@[i]@)),
            r.point() == r.content().len(),
            r.gap_len() == gap_for(r.content().len() as int),
            r.capacity() == r.content().len() + gap_for(r.content().len() as int),
    {
        let ghost views = Seq::new(lines@.len(), |i: int| lines@[i]@);
        let mut chars: Vec<char> = Vec::new();
        let mut i: usize = 0;
        while i < lines.len()
            invariant
                i <= lines@.len(),
                views == Seq::new(lines@.len(), |k: int| lines@[k]@),
                chars@ == join_lines(views.take(i as int)),
                join_lines(views).len() <= MAX_DOC,
            decreases lines@.len() - i,
        {
            if i > 0 {
                chars.push('\n');
            }
            proof {
                crate::line_index::lemma_join_lines_push(views.take(i as int), views[i as int]);
                assert(views.take(i + 1) =~= views.take(i as int).push(views[i as int]));
                crate::line_index::lemma_join_lines_take_len(views, i + 1);
            }
            let n = lines[i].as_str().unicode_len();
            let mut j: usize = 0;
            let ghost base = chars@;
            while j < n
                invariant
                    j <= n,
                    n == views[i as int].len(),
                    i < lines@.len(),
                    views == Seq::new(lines@.len(), |k: int| lines@[k]@),
                    chars@ == base + views[i as int].take(j as int),
                    base.len() + n <= MAX_DOC,
                decreases n - j,
            {
                chars.push(lines[i].as_str().get_char(j));
                j = j + 1;
                proof {
                    assert(base + views[i as int].take(j as int) =~= (base + views[
                        i as int
                    ].take(j - 1)).push(views[i as int][j - 1]));
                }
            }
            i = i + 1;
            proof {
                assert(views[i - 1].take(n as int) =~= views[i - 1]);
                if i > 1 {
                    assert(chars@ =~= join_lines(views.take(i - 1)) + seq!['\n'] + views[i - 1]);
                }
            }
        }
        proof {
            assert(views.take(views.len() as int) =~= views);
        }
        Self::from_chars(chars)
    }

    /// The total length of the text (excluding the gap).
    pub fn len(&self) -> (n: usize)
        requires
            self.wf(),
        ensures
            n == self.content().len(),
    {
        self.buffer.len() - (self.gap_end - self.gap_start)
    }

    /// Move the gap so the edit point lands on `text_pos` (clamped to the
    /// content length). Only the characters between the old and the new
    /// position are slid across the gap; the content itself never changes.
    pub fn move_gap_to(&mut self, text_pos: usize)
        requires
            old(self).wf(),
        ensures
            final(self).wf(),
            final(self).content() == old(self).content(),
            final(self).point() == clamp_col(old(self).content(), text_pos as int),
            final(self).capacity() == old(self).capacity(),
    {
        let len = self.len();
        let text_pos = if text_pos < len {
            text_pos
        } else {
            len
        };
        if text_pos == self.gap_start {
            proof {
                assert(final(self).content() =~= old(self).content());
            }
            return ;
        }
        let ghost old_buf = self.buffer@;
        let ghost gs = self.gap_start as int;
        let ghost ge = self.gap_end as int;
        let ghost tp = text_pos as int;
        if text_pos < self.gap_start {
            let move_count = self.gap_start - text_pos;
            let ghost mc = move_count as int;
            let mut i = move_count;
            while i > 0
                invariant
                    i <= mc,
                    self.gap_start as int == gs,
                    self.gap_end as int == ge,
                    move_count as int == mc,
                    text_pos as int == tp,
                    self.buffer@.len() == old_buf.len(),
                    0 <= tp,
                    tp + mc == gs,
                    gs <= ge <= old_buf.len(),
                    old_buf.len() <= MAX_CAP,
                    forall|k: int| 0 <= k < tp + i ==> self.buffer@[k] == old_buf[k],
                    forall|k: int|
                        ge - mc + i <= k < ge ==> self.buffer@[k] == old_buf[tp + (k - (ge - mc))],
                    forall|k: int| ge <= k < old_buf.len() ==> self.buffer@[k] == old_buf[k],
                decreases i,
            {
                i = i - 1;
                let src = text_pos + i;
                let dst = self.gap_end - move_count + i;
                let ch = self.buffer[src];
                self.buffer[dst] = ch;
            }
            self.gap_end = self.gap_end - move_count;
            self.gap_start = self.gap_start - move_count;
            proof {
                assert(self.buffer@.take(tp) =~= old_buf.take(tp));
                assert(self.buffer@.skip(ge - mc) =~= old_buf.subrange(tp, gs) + old_buf.skip(ge));
                assert(old_buf.take(gs) =~= old_buf.take(tp) + old_buf.subrange(tp, gs));
                assert(final(self).content() =~= old(self).content());
            }
        } else {
            let move_count = text_pos - self.gap_start;
            let ghost mc = move_count as int;
            let mut i: usize = 0;
            while i < move_count
                invariant
                    i <= mc,
                    self.gap_start as int == gs,
                    self.gap_end as int == ge,
                    move_count as int == mc,
                    text_pos as int == tp,
                    self.buffer@.len() == old_buf.len(),
                    0 <= gs,
                    gs + mc == tp,
                    gs <= ge <= old_buf.len(),
                    old_buf.len() <= MAX_CAP,
                    tp <= old_buf.len() - (ge - gs),
                    forall|k: int| 0 <= k < gs ==> self.buffer@[k] == old_buf[k],
                    forall|k: int| gs <= k < gs + i ==> self.buffer@[k] == old_buf[ge + (k - gs)],
                    forall|k: int| ge + i <= k < old_buf.len() ==> self.buffer@[k] == old_buf[k],
                decreases mc - i,
            {
                let src = self.gap_end + i;
                let dst = self.gap_start + i;
                let ch = self.buffer[src];
                self.buffer[dst] = ch;
                i = i + 1;
            }
            self.gap_start = self.gap_start + move_count;
            self.gap_end = self.gap_end + move_count;
            proof {
                assert(self.buffer@.take(gs + mc) =~= old_buf.take(gs) + old_buf.subrange(
                    ge,
                    ge + mc,
                ));
                assert(self.buffer@.skip(ge + mc) =~= old_buf.skip(ge + mc));
                assert(old_buf.skip(ge) =~= old_buf.subrange(ge, ge + mc) + old_buf.skip(ge + mc));
                assert(final(self).content() =~= old(self).content());
            }
        }
    }

    /// Reallocate with a fresh gap once the old one is used up: the new
    /// region is the old size plus at least a fixed floor, at most a quarter
    /// more.
    fn grow_gap(&mut self)
        requires
            old(self).wf(),
            old(self).gap_start == old(self).gap_end,
            old(self).buffer@.len() <= MAX_DOC,
        ensures
            final(self).wf(),
            final(self).content() == old(self).content(),
            final(self).point() == old(self).point(),
            final(self).gap_len() == gap_for(old(self).capacity()),
            final(self).capacity() == old(self).capacity() + gap_for(old(self).capacity()),
    {
        let old_size = self.buffer.len();
        let quarter = old_size / 4;
        let new_gap_size: usize = if 64 > quarter {
            64
        } else {
            quarter
        };
        let ghost old_buf = self.buffer@;
        let ghost gs = self.gap_start as int;
        let ghost ge = self.gap_end as int;
        let mut new_buffer: Vec<char> = Vec::new();
        let mut i: usize = 0;
        while i < self.gap_start
            invariant
                i <= gs,
                self.gap_start as int == gs,
                self.buffer@ == old_buf,
                gs <= old_buf.len() <= MAX_DOC,
                new_buffer@ == old_buf.take(i as int),
            decreases gs - i,
        {
            new_buffer.push(self.buffer[i]);
            i = i + 1;
            proof {
                assert(old_buf.take(i as int) =~= old_buf.take(i - 1).push(old_buf[i - 1]));
            }
        }
        let mut k: usize = 0;
        while k < new_gap_size
            invariant
                k <= new_gap_size,
                new_gap_size <= MAX_DOC / 4 + 64,
                0 <= gs <= old_buf.len() <= MAX_DOC,
                new_buffer@.len() == gs + k,
                forall|t: int| 0 <= t < gs ==> new_buffer@[t] == old_buf[t],
            decreases new_gap_size - k,
        {
            new_buffer.push('\0');
            k = k + 1;
        }
        let mut j = self.gap_end;
        while j < self.buffer.len()
            invariant
                ge <= j <= old_buf.len() <= MAX_DOC,
                0 <= gs <= ge,
                self.gap_end as int == ge,
                self.buffer@ == old_buf,
                new_gap_size <= MAX_DOC / 4 + 64,
                new_buffer@.len() == gs + new_gap_size + (j - ge),
                forall|t: int| 0 <= t < gs ==> new_buffer@[t] == old_buf[t],
                forall|t: int|
                    gs + new_gap_size <= t < new_buffer@.len() ==> new_buffer@[t] == old_buf[ge + (t
                        - gs - new_gap_size)],
            decreases old_buf.len() - j,
        {
            new_buffer.push(self.buffer[j]);
            j = j + 1;
        }
        self.buffer = new_buffer;
        self.gap_end = self.gap_start + new_gap_size;
        proof {
            assert(final(self).content() =~= old(self).content());
        }
    }

    /// Insert a character at the edit point, growing the store if the gap is
    /// exhausted.
    pub fn insert_char(&mut self, ch: char)
        requires
            old(self).wf(),
            old(self).content().len() < MAX_DOC,
        ensures
            final(self).wf(),
            final(self).content() == old(self).content().insert(old(self).point(), ch),
            final(self).point() == old(self).point() + 1,
            final(self).capacity() == (if old(self).gap_len() == 0 {
                old(self).capacity() + gap_for(old(self).capacity())
            } else {
                old(self).capacity()
            }),
    {
        proof {
            self.lemma_point_in_content();
        }
        if self.gap_end - self.gap_start == 0 {
            self.grow_gap();
        }
        let ghost buf = self.buffer@;
        let ghost gs = self.gap_start as int;
        let ghost ge = self.gap_end as int;
        let gap_start = self.gap_start;
        self.buffer[gap_start] = ch;
        self.gap_start = gap_start + 1;
        proof {
            assert(self.buffer@.take(gs + 1) =~= buf.take(gs).push(ch));
            assert(self.buffer@.skip(ge) =~= buf.skip(ge));
            assert(final(self).content() =~= old(self).content().insert(old(self).point(), ch));
        }
    }

    /// Insert text at a specific position (clamped to the content length);
    /// the edit point ends just past the inserted text.
    pub fn insert(&mut self, pos: usize, text: &str)
        requires
            old(self).wf(),
            old(self).content().len() + text@.len() <= MAX_DOC,
        ensures
            final(self).wf(),
            final(self).content() == old(self).content().take(
                clamp_col(old(self).content(), pos as int),
            ) + text@ + old(self).content().skip(clamp_col(old(self).content(), pos as int)),
            final(self).point() == clamp_col(old(self).content(), pos as int) + text@.len(),
    {
        self.move_gap_to(pos);
        let ghost base = old(self).content();
        let ghost p = clamp_col(base, pos as int);
        let chars = chars_of_str(text);
        let mut j: usize = 0;
        while j < chars.len()
            invariant
                j <= chars@.len(),
                chars@ == text@,
                base.len() + text@.len() <= MAX_DOC,
                0 <= p <= base.len(),
                self.wf(),
                self.content() == base.take(p) + chars@.take(j as int) + base.skip(p),
                self.point() == p + j,
            decreases chars@.len() - j,
        {
            let ch = chars[j];
            proof {
                self.lemma_point_in_content();
            }
            self.insert_char(ch);
            j = j + 1;
            proof {
                assert(self.content() =~= base.take(p) + chars@.take(j as int) + base.skip(p));
            }
        }
        proof {
            assert(chars@.take(chars@.len() as int) =~= text@);
        }
    }

    /// Delete the character before the edit point; a no-op at offset 0.
    pub fn delete_backward(&mut self)
        requires
            old(self).wf(),
        ensures
            final(self).wf(),
            final(self).capacity() == old(self).capacity(),
            old(self).point() > 0 ==> {
                &&& final(self).content() == old(self).content().remove(old(self).point() - 1)
                &&& final(self).point() == old(self).point() - 1
            },
            old(self).point() == 0 ==> {
                &&& final(self).content() == old(self).content()
                &&& final(self).point() == old(self).point()
            },
    {
        if self.gap_start > 0 {
            let ghost buf = self.buffer@;
            let ghost gs = self.gap_start as int;
            let ghost ge = self.gap_end as int;
            self.gap_start = self.gap_start - 1;
            proof {
                assert(self.buffer@.take(gs - 1) =~= buf.take(gs).remove(gs - 1));
                assert(final(self).content() =~= old(self).content().remove(old(self).point() - 1));
            }
        }
    }

    /// Delete the character at the edit point; a no-op at the end of the
    /// content.
    pub fn delete_forward(&mut self)
        requires
            old(self).wf(),
        ensures
            final(self).wf(),
            final(self).capacity() == old(self).capacity(),
            old(self).point() < old(self).content().len() ==> {
                &&& final(self).content() == old(self).content().remove(old(self).point())
                &&& final(self).point() == old(self).point()
            },
            old(self).point() == old(self).content().len() ==> {
                &&& final(self).content() == old(self).content()
                &&& final(self).point() == old(self).point()
            },
    {
        proof {
            self.lemma_point_in_content();
        }
        if self.gap_end < self.buffer.len() {
            let ghost buf = self.buffer@;
            let ghost gs = self.gap_start as int;
            let ghost ge = self.gap_end as int;
            self.gap_end = self.gap_end + 1;
            proof {
                assert(self.buffer@.skip(ge + 1) =~= buf.skip(ge).remove(0));
                assert(final(self).content() =~= old(self).content().remove(old(self).point()));
            }
        }
    }

    /// Delete the characters in `[start, end)`, both bounds clamped to the
    /// content length; a no-op when the clamped range is empty. The edit
    /// point ends at the start of the deleted range.
    pub fn delete_range(&mut self, start: usize, end: usize)
        requires
            old(self).wf(),
        ensures
            final(self).wf(),
            final(self).capacity() == old(self).capacity(),
            ({
                let s = clamp_col(old(self).content(), start as int);
                let e = clamp_col(old(self).content(), end as int);
                if s < e {
                    final(self).content() == old(self).content().take(s) + old(
                        self,
                    ).content().skip(e) && final(self).point() == s
                } else {
                    final(self).content() == old(self).content() && final(self).point() == old(
                        self,
                    ).point()
                }
            }),
    {
        let len = self.len();
        let start = if start < len {
            start
        } else {
            len
        };
        let end = if end < len {
            end
        } else {
            len
        };
        if start >= end {
            return ;
        }
        self.move_gap_to(start);
        let ghost mid = self.buffer@;
        let ghost gs = self.gap_start as int;
        let ghost ge = self.gap_end as int;
        let delete_count = end - start;
        let new_gap_end = if self.gap_end + delete_count < self.buffer.len() {
            self.gap_end + delete_count
        } else {
            self.buffer.len()
        };
        self.gap_end = new_gap_end;
        proof {
            assert(ge + delete_count <= mid.len());
            assert(self.buffer@.skip(ge + delete_count) =~= mid.skip(ge).skip(
                delete_count as int,
            ));
            assert(final(self).content() =~= old(self).content().take(start as int) + old(
                self,
            ).content().skip(end as int));
        }
    }

    /// Replace the characters in `[start, end)` (both bounds clamped, an
    /// inverted range deletes nothing) with `text`; the edit point ends just
    /// past the inserted text.
    pub fn replace_range(&mut self, start: usize, end: usize, text: &str)
        requires
            old(self).wf(),
            old(self).content().len() + text@.len() <= MAX_DOC,
        ensures
            final(self).wf(),
            ({
                let s = clamp_col(old(self).content(), start as int);
                let e0 = clamp_col(old(self).content(), end as int);
                let e = if s < e0 {
                    e0
                } else {
                    s
                };
                final(self).content() == old(self).content().take(s) + text@ + old(
                    self,
                ).content().skip(e) && final(self).point() == s + text@.len()
            }),
    {
        let ghost base = old(self).content();
        let ghost s = clamp_col(base, start as int);
        let ghost e0 = clamp_col(base, end as int);
        if start < end {
            self.delete_range(start, end);
        }
        proof {
            if s < e0 {
                assert(self.content() =~= base.take(s) + base.skip(e0));
            }
        }
        self.insert(start, text);
        proof {
            if s < e0 {
                assert((base.take(s) + base.skip(e0)).take(s) =~= base.take(s));
                assert((base.take(s) + base.skip(e0)).skip(s) =~= base.skip(e0));
            }
            assert(final(self).content() =~= base.take(s) + text@ + base.skip(
                if s < e0 {
                    e0
                } else {
                    s
                },
            ));
        }
    }

    /// The text between two linear offsets (both clamped to the content
    /// length); empty when the clamped range is inverted.
    pub fn text_in_range(&self, start: usize, end: usize) -> (r: String)
        requires
            self.wf(),
        ensures
            ({
                let a = clamp_col(self.content(), start as int);
                let b = clamp_col(self.content(), end as int);
                r@ == if a < b {
                    self.content().subrange(a, b)
                } else {
                    Seq::<char>::empty()
                }
            }),
    {
        let chars = self.to_chars();
        let len = chars.len();
        let a = if start < len {
            start
        } else {
            len
        };
        let b = if end < len {
            end
        } else {
            len
        };
        let mut out: Vec<char> = Vec::new();
        if a < b {
            crate::chars::extend_chars(&mut out, &chars, a, b);
        }
        string_of_chars(&out)
    }

    /// The whole content as an owned character vector.
    pub fn to_chars(&self) -> (out: Vec<char>)
        requires
            self.wf(),
        ensures
            out@ == self.content(),
    {
        let mut out: Vec<char> = Vec::new();
        let mut i: usize = 0;
        while i < self.gap_start
            invariant
                i <= self.gap_start,
                self.wf(),
                out@ == self.buffer@.take(i as int),
            decreases self.gap_start - i,
        {
            out.push(self.buffer[i]);
            i = i + 1;
            proof {
                assert(self.buffer@.take(i as int) =~= self.buffer@.take(i - 1).push(
                    self.buffer@[i - 1],
                ));
            }
        }
        let mut j = self.gap_end;
        while j < self.buffer.len()
            invariant
                self.gap_end <= j <= self.buffer@.len(),
                self.wf(),
                out@ == self.buffer@.take(self.gap_start as int) + self.buffer@.subrange(
                    self.gap_end as int,
                    j as int,
                ),
            decreases self.buffer@.len() - j,
        {
            out.push(self.buffer[j]);
            j = j + 1;
            proof {
                assert(out@ =~= self.buffer@.take(self.gap_start as int) + self.buffer@.subrange(
                    self.gap_end as int,
                    j as int,
                ));
            }
        }
        proof {
            assert(out@ =~= self.content());
        }
        out
    }

    /// The content split into lines, as owned character vectors.
    fn content_lines(&self) -> (out: Vec<Vec<char>>)
        requires
            self.wf(),
        ensures
            char_views(out@) == lines_of(self.content()),
            out@.len() >= 1,
    {
        let chars = self.to_chars();
        split_into_lines(&chars)
    }

    /// All lines as a vector of strings: splitting reproduces an exact empty
    /// trailing line when the content ends with a newline, and an empty
    /// content yields one empty line.
    pub fn to_lines(&self) -> (r: Vec<String>)
        requires
            self.wf(),
        ensures
            r@.len() == lines_of(self.content()).len(),
            forall|i: int| 0 <= i < r@.len() ==> r@[i]@ == lines_of(self.content())[i],
    {
        let lines = self.content_lines();
        let mut r: Vec<String> = Vec::new();
        let mut i: usize = 0;
        while i < lines.len()
            invariant
                i <= lines@.len(),
                char_views(lines@) == lines_of(self.content()),
                r@.len() == i,
                forall|k: int| 0 <= k < i ==> r@[k]@ == lines_of(self.content())[k],
            decreases lines@.len() - i,
        {
            r.push(string_of_chars(&lines[i]));
            i = i + 1;
        }
        r
    }

    /// Convert a cursor position (row, col) to a linear text offset; the row
    /// clamps to the last row, the column to the row's length.
    pub fn cursor_to_position(&self, row: usize, col: usize) -> (pos: usize)
        requires
            self.wf(),
        ensures
            pos as int == offset_of(lines_of(self.content()), row as int, col as int),
    {
        let ghost ls = lines_of(self.content());
        let lines = self.content_lines();
        proof {
            self.lemma_point_in_content();
            crate::line_index::lemma_join_lines_of(self.content());
            crate::line_index::lemma_join_lines_len(ls);
        }
        let last = lines.len() - 1;
        let r = if row < last {
            row
        } else {
            last
        };
        proof {
            assert(r as int == crate::line_index::clamp_row(ls, row as int));
        }
        let mut pos: usize = 0;
        let mut i: usize = 0;
        while i < r
            invariant
                i <= r,
                r < lines@.len(),
                char_views(lines@) == ls,
                doc_len(ls) == self.content().len() <= MAX_CAP,
                pos as int == line_start(ls, i as int),
            decreases r - i,
        {
            proof {
                crate::line_index::lemma_line_start_bound(ls, i + 1);
                assert(line_start(ls, i + 1) == line_start(ls, i as int) + ls[i as int].len() + 1);
            }
            pos = pos + lines[i].len() + 1;
            i = i + 1;
        }
        let ll = lines[r].len();
        let c = if col < ll {
            col
        } else {
            ll
        };
        proof {
            crate::line_index::lemma_line_start_bound(ls, r as int);
        }
        pos + c
    }

    /// Convert a linear text offset to a cursor position (row, col); offsets
    /// beyond the content clamp to the end of the last row, and an offset at
    /// the very end of a row stays on that row.
    pub fn position_to_cursor(&self, pos: usize) -> (rc: (usize, usize))
        requires
            self.wf(),
        ensures
            rc.0 as int == position_of(lines_of(self.content()), pos as int).0,
            rc.1 as int == position_of(lines_of(self.content()), pos as int).1,
    {
        let ghost ls = lines_of(self.content());
        let lines = self.content_lines();
        let mut row: usize = 0;
        let mut p: usize = pos;
        while row < lines.len() - 1 && p > lines[row].len()
            invariant
                row < lines@.len(),
                char_views(lines@) == ls,
                position_from(ls, pos as int, 0) == position_from(ls, p as int, row as int),
            decreases lines@.len() - row,
        {
            p = p - (lines[row].len() + 1);
            row = row + 1;
        }
        let ll = lines[row].len();
        let c = if p < ll {
            p
        } else {
            ll
        };
        proof {
            assert(crate::line_index::clamp_row(ls, row as int) == row as int);
        }
        (row, c)
    }

    /// The whole content as a string.
    pub fn to_string(&self) -> (s: String)
        requires
            self.wf(),
        ensures
            s@ == self.content(),
    {
        let mut s = String::new();
        let mut i: usize = 0;
        while i < self.gap_start
            invariant
                i <= self.gap_start,
                self.wf(),
                s@ == self.buffer@.take(i as int),
            decreases self.gap_start - i,
        {
            push_char(&mut s, self.buffer[i]);
            i = i + 1;
            proof {
                assert(self.buffer@.take(i as int) =~= self.buffer@.take(i - 1).push(
                    self.buffer@[i - 1],
                ));
            }
        }
        let mut j = self.gap_end;
        while j < self.buffer.len()
            invariant
                self.gap_end <= j <= self.buffer@.len(),
                self.wf(),
                s@ == self.buffer@.take(self.gap_start as int) + self.buffer@.subrange(
                    self.gap_end as int,
                    j as int,
                ),
            decreases self.buffer@.len() - j,
        {
            push_char(&mut s, self.buffer[j]);
            j = j + 1;
            proof {
                assert(s@ =~= self.buffer@.take(self.gap_start as int) + self.buffer@.subrange(
                    self.gap_end as int,
                    j as int,
                ));
            }
        }
        proof {
            assert(s@ =~= self.content());
        }
        s
    }

    /// Idempotent clamping: an inverted range stays inverted after clamping,
    /// so `delete_range` takes its no-op branch on it; and an offset beyond
    /// the content clamps exactly where the content length itself does, so
    /// `move_gap_to` lands the edit point in the same place for both.
    pub proof fn lemma_clamp_laws(content: Seq<char>, a: int, b: int, pos: int)
        ensures
            a >= b ==> clamp_col(content, a) >= clamp_col(content, b),
            pos >= content.len() ==> clamp_col(content, pos) == clamp_col(
                content,
                content.len() as int,
            ),
    {
    }

    /// Every (row, col) coordinate maps to an offset inside the content.
    proof fn lemma_offset_in_content(&self, row: int, col: int)
        requires
            self.wf(),
            0 <= row,
            0 <= col,
        ensures
            0 <= offset_of(lines_of(self.content()), row, col) <= self.content().len(),
    {
        let ls = lines_of(self.content());
        crate::line_index::lemma_lines_of_nonempty(self.content());
        crate::line_index::lemma_join_lines_of(self.content());
        crate::line_index::lemma_join_lines_len(ls);
        let r = crate::line_index::clamp_row(ls, row);
        crate::line_index::lemma_line_start_bound(ls, r);
    }
}

impl crate::text_buffer::TextBuffer for GapBuffer {
    open spec fn buf_wf(&self) -> bool {
        self.wf()
    }

    open spec fn lines_view(&self) -> Seq<Seq<char>> {
        lines_of(self.content())
    }

    open spec fn edit_ok(&self, extra: Seq<char>) -> bool {
        self.content().len() + extra.len() <= MAX_DOC
    }

    open spec fn spec_insert_at(&self, row: int, col: int, text: Seq<char>) -> Seq<Seq<char>> {
        let p = offset_of(lines_of(self.content()), row, col);
        lines_of(self.content().take(p) + text + self.content().skip(p))
    }

    open spec fn spec_delete_at(&self, row: int, col: int) -> Seq<Seq<char>> {
        let p = offset_of(lines_of(self.content()), row, col);
        if p < self.content().len() {
            lines_of(self.content().remove(p))
        } else {
            lines_of(self.content())
        }
    }

    open spec fn spec_backspace_at(&self, row: int, col: int) -> Seq<Seq<char>> {
        let p = offset_of(lines_of(self.content()), row, col);
        if p > 0 {
            lines_of(self.content().remove(p - 1))
        } else {
            lines_of(self.content())
        }
    }

    fn line_count(&self) -> (n: usize) {
        let lines = self.content_lines();
        lines.len()
    }

    fn get_line(&self, line_idx: usize) -> (r: Option<String>) {
        let lines = self.content_lines();
        if line_idx < lines.len() {
            Some(string_of_chars(&lines[line_idx]))
        } else {
            None
        }
    }

    fn line_len(&self, line_idx: usize) -> (n: usize) {
        let lines = self.content_lines();
        if line_idx < lines.len() {
            lines[line_idx].len()
        } else {
            0
        }
    }

    fn all_lines(&self) -> (r: Vec<String>) {
        self.to_lines()
    }

    fn insert_at(&mut self, row: usize, col: usize, text: &str) {
        proof {
            self.lemma_offset_in_content(row as int, col as int);
        }
        let pos = self.cursor_to_position(row, col);
        self.insert(pos, text);
    }

    fn delete_at(&mut self, row: usize, col: usize) {
        proof {
            self.lemma_offset_in_content(row as int, col as int);
        }
        let pos = self.cursor_to_position(row, col);
        self.move_gap_to(pos);
        self.delete_forward();
    }

    fn backspace_at(&mut self, row: usize, col: usize) {
        proof {
            self.lemma_offset_in_content(row as int, col as int);
        }
        let pos = self.cursor_to_position(row, col);
        self.move_gap_to(pos);
        self.delete_backward();
    }
}

} // verus!
