//! The buffer capability: line-oriented reads and single-point edits over a
//! document, implemented both by the simple line-vector buffer and by the
//! gap store. Each implementation declares its own transition functions
//! (`spec_insert_at` and friends), and its executable methods are exact with
//! respect to them.

use crate::chars::{chars_of_str, clone_chars, extend_chars, string_of_chars};
use crate::line_index::{char_views, clamp_col, lines_of, split_into_lines};
use vstd::prelude::*;

verus! {

/// The lines after inserting `text` at (row, col) of `ls`: a row beyond the
/// last is ignored, the column clamps to the row's length, and each newline
/// in the text opens a new line.
pub open spec fn spec_insert_lines(ls: Seq<Seq<char>>, row: int, col: int, text: Seq<char>) -> Seq<
    Seq<char>,
> {
    if row < 0 || row >= ls.len() {
        ls
    } else {
        let c = clamp_col(ls[row], col);
        let tl = lines_of(text);
        if tl.len() == 1 {
            ls.update(row, ls[row].take(c) + text + ls[row].skip(c))
        } else {
            ls.take(row) + seq![ls[row].take(c) + tl[0]] + tl.subrange(1, tl.len() - 1)
                + seq![tl.last() + ls[row].skip(c)] + ls.skip(row + 1)
        }
    }
}

/// The lines after deleting the character at (row, col) of `ls`, joining
/// with the next line when the column is at or past the end of the row.
pub open spec fn spec_delete_lines(ls: Seq<Seq<char>>, row: int, col: int) -> Seq<Seq<char>> {
    if row < 0 || row >= ls.len() {
        ls
    } else if col < ls[row].len() {
        ls.update(row, ls[row].remove(col))
    } else if row < ls.len() - 1 {
        ls.take(row) + seq![ls[row] + ls[row + 1]] + ls.skip(row + 2)
    } else {
        ls
    }
}

/// The lines after deleting the character before the (clamped) column of
/// (row, col), joining with the previous line at column 0.
pub open spec fn spec_backspace_lines(ls: Seq<Seq<char>>, row: int, col: int) -> Seq<Seq<char>> {
    if row < 0 || row >= ls.len() {
        ls
    } else {
        let c = clamp_col(ls[row], col);
        if c > 0 {
            ls.update(row, ls[row].remove(c - 1))
        } else if row > 0 {
            ls.take(row - 1) + seq![ls[row - 1] + ls[row]] + ls.skip(row + 1)
        } else {
            ls
        }
    }
}

/// The lines after removing the span from (srow, scol) to (erow, ecol),
/// columns clamped: the remainders of the two boundary rows merge into one.
pub open spec fn spec_remove_span(
    ls: Seq<Seq<char>>,
    srow: int,
    scol: int,
    erow: int,
    ecol: int,
) -> Seq<Seq<char>> {
    ls.take(srow) + seq![
        ls[srow].take(clamp_col(ls[srow], scol)) + ls[erow].skip(clamp_col(ls[erow], ecol)),
    ] + ls.skip(erow + 1)
}

/// The concatenation of full rows `lo .. hi` of `ls`, each followed by one
/// newline.
pub open spec fn rows_text(ls: Seq<Seq<char>>, lo: int, hi: int) -> Seq<char>
    decreases hi - lo,
{
    if hi <= lo {
        Seq::empty()
    } else {
        rows_text(ls, lo, hi - 1) + ls[hi - 1] + seq!['\n']
    }
}

/// The text of the span from (srow, scol) to (erow, ecol), columns clamped:
/// for one row the slice between the columns, across rows the tail of the
/// start row, the full interior rows and the head of the end row, joined
/// with newlines.
pub open spec fn spec_span_text(
    ls: Seq<Seq<char>>,
    srow: int,
    scol: int,
    erow: int,
    ecol: int,
) -> Seq<char> {
    if srow == erow {
        ls[srow].subrange(clamp_col(ls[srow], scol), clamp_col(ls[srow], ecol))
    } else {
        ls[srow].skip(clamp_col(ls[srow], scol)) + seq!['\n'] + rows_text(ls, srow + 1, erow)
            + ls[erow].take(clamp_col(ls[erow], ecol))
    }
}

pub trait TextBuffer: Sized {
    /// Structural invariant: a buffer always holds at least one line.
    spec fn buf_wf(&self) -> bool;

    /// The lines held by the buffer.
    spec fn lines_view(&self) -> Seq<Seq<char>>;

    /// Whether the buffer has room for `extra` more characters.
    spec fn edit_ok(&self, extra: Seq<char>) -> bool;

    /// The lines after inserting `text` at (row, col).
    spec fn spec_insert_at(&self, row: int, col: int, text: Seq<char>) -> Seq<Seq<char>>;

    /// The lines after deleting the character at (row, col).
    spec fn spec_delete_at(&self, row: int, col: int) -> Seq<Seq<char>>;

    /// The lines after deleting the character before (row, col).
    spec fn spec_backspace_at(&self, row: int, col: int) -> Seq<Seq<char>>;

    /// The total number of lines in the buffer; never zero.
    fn line_count(&self) -> (n: usize)
        requires
            self.buf_wf(),
        ensures
            n as int == self.lines_view().len(),
            n >= 1,
    ;

    /// A specific line by index (0-based), as an owned string.
    fn get_line(&self, line_idx: usize) -> (r: Option<String>)
        requires
            self.buf_wf(),
        ensures
            match r {
                Some(s) => line_idx < self.lines_view().len() && s@ == self.lines_view()[line_idx as int],
                None => line_idx >= self.lines_view().len(),
            },
    ;

    /// The length of a specific line in characters; a row beyond the last
    /// yields 0 rather than failing.
    fn line_len(&self, line_idx: usize) -> (n: usize)
        requires
            self.buf_wf(),
        ensures
            n as int == if line_idx < self.lines_view().len() {
                self.lines_view()[line_idx as int].len() as int
            } else {
                0
            },
    ;

    /// All lines.
    fn all_lines(&self) -> (r: Vec<String>)
        requires
            self.buf_wf(),
        ensures
            r@.len() == self.lines_view().len(),
            forall|i: int| 0 <= i < r@.len() ==> r@[i]@ == self.lines_view()[i],
    ;

    /// Insert text at (row, col).
    fn insert_at(&mut self, row: usize, col: usize, text: &str)
        requires
            old(self).buf_wf(),
            old(self).edit_ok(text@),
        ensures
            final(self).buf_wf(),
            final(self).lines_view() == old(self).spec_insert_at(row as int, col as int, text@),
    ;

    /// Delete the character at (row, col).
    fn delete_at(&mut self, row: usize, col: usize)
        requires
            old(self).buf_wf(),
        ensures
            final(self).buf_wf(),
            final(self).lines_view() == old(self).spec_delete_at(row as int, col as int),
    ;

    /// Delete the character before (row, col).
    fn backspace_at(&mut self, row: usize, col: usize)
        requires
            old(self).buf_wf(),
        ensures
            final(self).buf_wf(),
            final(self).lines_view() == old(self).spec_backspace_at(row as int, col as int),
    ;
}

/// The straightforward buffer: one owned character vector per line.
pub struct SimpleBuffer {
    lines: Vec<Vec<char>>,
}

impl SimpleBuffer {
    /// Wrap a line list; an empty list becomes one empty line, so the
    /// document never has zero lines.
    pub fn new(lines: Vec<String>) -> (r: Self)
        ensures
            r.buf_wf(),
            r.lines_view() == if lines@.len() == 0 {
                seq![Seq::<char>::empty()]
            } else {
                Seq::new(lines@.len(), |i: int| lines@[i]@)
            },
    {
        let mut ls: Vec<Vec<char>> = Vec::new();
        let mut i: usize = 0;
        while i < lines.len()
            invariant
                i <= lines@.len(),
                ls@.len() == i,
                forall|k: int| 0 <= k < i ==> ls@[k]@ == lines@[k]@,
            decreases lines@.len() - i,
        {
            ls.push(chars_of_str(lines[i].as_str()));
            i = i + 1;
        }
        if ls.len() == 0 {
            ls.push(Vec::new());
            proof {
                assert(char_views(ls@) =~= seq![Seq::<char>::empty()]);
            }
        } else {
            proof {
                assert(char_views(ls@) =~= Seq::new(lines@.len(), |k: int| lines@[k]@));
            }
        }
        SimpleBuffer { lines: ls }
    }

    /// Build from text split on the newline character: a trailing newline
    /// yields an exact trailing empty line, and empty text yields one empty
    /// line, so splitting matches the document partition exactly.
    pub fn from_text(text: &str) -> (r: Self)
        ensures
            r.buf_wf(),
            r.lines_view() == lines_of(text@),
    {
        let chars = chars_of_str(text);
        let parts = split_into_lines(&chars);
        SimpleBuffer { lines: parts }
    }

    /// Remove the span from (srow, scol) to (erow, ecol): the tail of the
    /// end row moves up to the cut in the start row, and the rows between
    /// them disappear.
    pub fn delete_span(&mut self, srow: usize, scol: usize, erow: usize, ecol: usize)
        requires
            old(self).buf_wf(),
            srow <= erow < old(self).lines_view().len(),
        ensures
            final(self).buf_wf(),
            final(self).lines_view() == spec_remove_span(
                old(self).lines_view(),
                srow as int,
                scol as int,
                erow as int,
                ecol as int,
            ),
    {
        let ghost ls = self.lines_view();
        let s_len = self.lines[srow].len();
        let sc = if scol < s_len {
            scol
        } else {
            s_len
        };
        let e_len = self.lines[erow].len();
        let ec = if ecol < e_len {
            ecol
        } else {
            e_len
        };
        let mut merged: Vec<char> = Vec::new();
        extend_chars(&mut merged, &self.lines[srow], 0, sc);
        extend_chars(&mut merged, &self.lines[erow], ec, e_len);
        let mut out: Vec<Vec<char>> = Vec::new();
        let mut i: usize = 0;
        while i < srow
            invariant
                i <= srow < self.lines@.len(),
                self.lines_view() == ls,
                out@.len() == i,
                forall|k: int| 0 <= k < i ==> out@[k]@ == ls[k],
            decreases srow - i,
        {
            out.push(clone_chars(&self.lines[i]));
            i = i + 1;
        }
        let ghost merged_view = merged@;
        out.push(merged);
        let count = self.lines.len();
        let mut j = erow + 1;
        while j < self.lines.len()
            invariant
                srow <= erow,
                erow + 1 <= j <= self.lines@.len(),
                self.lines_view() == ls,
                out@.len() == srow + 1 + (j - erow - 1),
                forall|k: int| 0 <= k < srow ==> out@[k]@ == ls[k],
                out@[srow as int]@ == merged_view,
                forall|k: int| srow < k < out@.len() ==> out@[k]@ == ls[k + erow - srow],
            decreases self.lines@.len() - j,
        {
            out.push(clone_chars(&self.lines[j]));
            j = j + 1;
        }
        self.lines = out;
        proof {
            assert(merged_view =~= ls[srow as int].subrange(0, sc as int) + ls[
                erow as int
            ].subrange(ec as int, e_len as int));
            assert(ls[srow as int].subrange(0, sc as int) =~= ls[srow as int].take(sc as int));
            assert(ls[erow as int].subrange(ec as int, e_len as int) =~= ls[erow as int].skip(
                ec as int,
            ));
            assert(final(self).lines_view() =~= spec_remove_span(
                ls,
                srow as int,
                scol as int,
                erow as int,
                ecol as int,
            ));
        }
    }

    /// The text of the span from (srow, scol) to (erow, ecol): rows joined
    /// with newlines, the boundary rows cut at the given columns.
    pub fn span_text(&self, srow: usize, scol: usize, erow: usize, ecol: usize) -> (s: String)
        requires
            self.buf_wf(),
            srow <= erow < self.lines_view().len(),
            srow == erow ==> scol <= ecol,
        ensures
            s@ == spec_span_text(
                self.lines_view(),
                srow as int,
                scol as int,
                erow as int,
                ecol as int,
            ),
    {
        let ghost ls = self.lines_view();
        let mut out: Vec<char> = Vec::new();
        if srow == erow {
            let l_len = self.lines[srow].len();
            let sc = if scol < l_len {
                scol
            } else {
                l_len
            };
            let ec = if ecol < l_len {
                ecol
            } else {
                l_len
            };
            extend_chars(&mut out, &self.lines[srow], sc, ec);
        } else {
            let s_len = self.lines[srow].len();
            let sc = if scol < s_len {
                scol
            } else {
                s_len
            };
            extend_chars(&mut out, &self.lines[srow], sc, s_len);
            out.push('\n');
            let ghost head = ls[srow as int].skip(sc as int) + seq!['\n'];
            proof {
                assert(out@ =~= head);
            }
            let mut i = srow + 1;
            while i < erow
                invariant
                    srow < i <= erow < self.lines@.len(),
                    self.lines_view() == ls,
                    out@ == head + rows_text(ls, srow + 1, i as int),
                decreases erow - i,
            {
                let l_len = self.lines[i].len();
                extend_chars(&mut out, &self.lines[i], 0, l_len);
                out.push('\n');
                i = i + 1;
                proof {
                    assert(ls[i - 1].subrange(0, l_len as int) =~= ls[i - 1]);
                    assert(out@ =~= head + rows_text(ls, srow + 1, i as int));
                }
            }
            let e_len = self.lines[erow].len();
            let ec = if ecol < e_len {
                ecol
            } else {
                e_len
            };
            extend_chars(&mut out, &self.lines[erow], 0, ec);
            proof {
                assert(ls[erow as int].subrange(0, ec as int) =~= ls[erow as int].take(ec as int));
                assert(out@ =~= spec_span_text(
                    ls,
                    srow as int,
                    scol as int,
                    erow as int,
                    ecol as int,
                ));
            }
        }
        proof {
            if srow == erow {
                assert(out@ =~= spec_span_text(
                    ls,
                    srow as int,
                    scol as int,
                    erow as int,
                    ecol as int,
                ));
            }
        }
        string_of_chars(&out)
    }

    /// Replace one row wholesale with this text.
    pub fn set_line(&mut self, row: usize, text: &str)
        requires
            old(self).buf_wf(),
            row < old(self).lines_view().len(),
        ensures
            final(self).buf_wf(),
            final(self).lines_view() == old(self).lines_view().update(row as int, text@),
    {
        self.lines[row] = chars_of_str(text);
        proof {
            assert(final(self).lines_view() =~= old(self).lines_view().update(row as int, text@));
        }
    }
}

impl TextBuffer for SimpleBuffer {
    closed spec fn buf_wf(&self) -> bool {
        self.lines@.len() >= 1
    }

    closed spec fn lines_view(&self) -> Seq<Seq<char>> {
        char_views(self.lines@)
    }

    open spec fn edit_ok(&self, extra: Seq<char>) -> bool {
        true
    }

    open spec fn spec_insert_at(&self, row: int, col: int, text: Seq<char>) -> Seq<Seq<char>> {
        spec_insert_lines(self.lines_view(), row, col, text)
    }

    open spec fn spec_delete_at(&self, row: int, col: int) -> Seq<Seq<char>> {
        spec_delete_lines(self.lines_view(), row, col)
    }

    open spec fn spec_backspace_at(&self, row: int, col: int) -> Seq<Seq<char>> {
        spec_backspace_lines(self.lines_view(), row, col)
    }

    fn line_count(&self) -> (n: usize) {
        self.lines.len()
    }

    fn get_line(&self, line_idx: usize) -> (r: Option<String>) {
        if line_idx < self.lines.len() {
            Some(string_of_chars(&self.lines[line_idx]))
        } else {
            None
        }
    }

    fn line_len(&self, line_idx: usize) -> (n: usize) {
        if line_idx < self.lines.len() {
            self.lines[line_idx].len()
        } else {
            0
        }
    }

    fn all_lines(&self) -> (r: Vec<String>) {
        let mut r: Vec<String> = Vec::new();
        let mut i: usize = 0;
        while i < self.lines.len()
            invariant
                i <= self.lines@.len(),
                r@.len() == i,
                forall|k: int| 0 <= k < i ==> r@[k]@ == self.lines@[k]@,
            decreases self.lines@.len() - i,
        {
            r.push(string_of_chars(&self.lines[i]));
            i = i + 1;
        }
        r
    }

    fn insert_at(&mut self, row: usize, col: usize, text: &str) {
        if row >= self.lines.len() {
            return ;
        }
        let ghost ls = self.lines_view();
        let tchars = chars_of_str(text);
        let tlines = split_into_lines(&tchars);
        let line_len = self.lines[row].len();
        let col = if col < line_len {
            col
        } else {
            line_len
        };
        if tlines.len() == 1 {
            proof {
                crate::line_index::lemma_first_newline_bounds(text@);
                if crate::line_index::first_newline(text@) < text@.len() {
                    crate::line_index::lemma_lines_of_nonempty(
                        text@.skip(crate::line_index::first_newline(text@) + 1),
                    );
                }
            }
            let mut nl: Vec<char> = Vec::new();
            extend_chars(&mut nl, &self.lines[row], 0, col);
            extend_chars(&mut nl, &tchars, 0, tchars.len());
            extend_chars(&mut nl, &self.lines[row], col, line_len);
            self.lines[row] = nl;
            proof {
                assert(ls[row as int].subrange(0, col as int) =~= ls[row as int].take(col as int));
                assert(tchars@.subrange(0, tchars@.len() as int) =~= text@);
                assert(ls[row as int].subrange(col as int, line_len as int) =~= ls[
                    row as int
                ].skip(col as int));
                assert(final(self).lines_view() =~= old(self).spec_insert_at(
                    row as int,
                    col as int,
                    text@,
                ));
            }
        } else {
            let ghost tl = lines_of(text@);
            let mut out: Vec<Vec<char>> = Vec::new();
            let mut i: usize = 0;
            while i < row
                invariant
                    i <= row < self.lines@.len(),
                    self.lines_view() == ls,
                    out@.len() == i,
                    forall|k: int| 0 <= k < i ==> out@[k]@ == ls[k],
                decreases row - i,
            {
                out.push(clone_chars(&self.lines[i]));
                i = i + 1;
            }
            let mut first: Vec<char> = Vec::new();
            extend_chars(&mut first, &self.lines[row], 0, col);
            extend_chars(&mut first, &tlines[0], 0, tlines[0].len());
            out.push(first);
            let mut k: usize = 1;
            while k < tlines.len() - 1
                invariant
                    1 <= k <= tlines@.len() - 1,
                    row < self.lines@.len(),
                    col <= ls[row as int].len(),
                    self.lines_view() == ls,
                    char_views(tlines@) == tl,
                    out@.len() == row + k,
                    forall|t: int| 0 <= t < row ==> out@[t]@ == ls[t],
                    out@[row as int]@ == ls[row as int].take(col as int) + tl[0],
                    forall|t: int| row < t < out@.len() ==> out@[t]@ == tl[t - row],
                decreases tlines@.len() - k,
            {
                out.push(clone_chars(&tlines[k]));
                k = k + 1;
            }
            let last_idx = tlines.len() - 1;
            let mut last: Vec<char> = Vec::new();
            extend_chars(&mut last, &tlines[last_idx], 0, tlines[last_idx].len());
            extend_chars(&mut last, &self.lines[row], col, line_len);
            out.push(last);
            let mut j = row + 1;
            while j < self.lines.len()
                invariant
                    row + 1 <= j <= self.lines@.len(),
                    col <= ls[row as int].len(),
                    self.lines_view() == ls,
                    char_views(tlines@) == tl,
                    tl.len() >= 2,
                    out@.len() == row + tl.len() + (j - row - 1),
                    forall|t: int| 0 <= t < row ==> out@[t]@ == ls[t],
                    out@[row as int]@ == ls[row as int].take(col as int) + tl[0],
                    forall|t: int| row < t < row + tl.len() - 1 ==> out@[t]@ == tl[t - row],
                    out@[row + tl.len() - 1]@ == tl.last() + ls[row as int].skip(col as int),
                    forall|t: int|
                        row + tl.len() <= t < out@.len() ==> out@[t]@ == ls[t - tl.len() + 1],
                decreases self.lines@.len() - j,
            {
                out.push(clone_chars(&self.lines[j]));
                j = j + 1;
            }
            self.lines = out;
            proof {
                assert(tchars@.subrange(0, tchars@.len() as int) =~= text@);
                assert(ls[row as int].subrange(0, col as int) =~= ls[row as int].take(col as int));
                assert(ls[row as int].subrange(col as int, line_len as int) =~= ls[
                    row as int
                ].skip(col as int));
                assert(final(self).lines_view() =~= old(self).spec_insert_at(
                    row as int,
                    col as int,
                    text@,
                ));
            }
        }
    }

    fn delete_at(&mut self, row: usize, col: usize) {
        if row >= self.lines.len() {
            return ;
        }
        let ghost ls = self.lines_view();
        let line_len = self.lines[row].len();
        if col < line_len {
            let mut nl: Vec<char> = Vec::new();
            extend_chars(&mut nl, &self.lines[row], 0, col);
            extend_chars(&mut nl, &self.lines[row], col + 1, line_len);
            self.lines[row] = nl;
            proof {
                assert(nl@ =~= ls[row as int].remove(col as int));
                assert(final(self).lines_view() =~= ls.update(
                    row as int,
                    ls[row as int].remove(col as int),
                ));
            }
        } else if row < self.lines.len() - 1 {
            let mut nl: Vec<char> = Vec::new();
            extend_chars(&mut nl, &self.lines[row], 0, line_len);
            let next_len = self.lines[row + 1].len();
            extend_chars(&mut nl, &self.lines[row + 1], 0, next_len);
            self.lines[row] = nl;
            self.lines.remove(row + 1);
            proof {
                assert(ls[row as int].subrange(0, line_len as int) =~= ls[row as int]);
                assert(ls[row + 1].subrange(0, next_len as int) =~= ls[row + 1]);
                assert(final(self).lines_view() =~= ls.take(row as int) + seq![
                    ls[row as int] + ls[row + 1],
                ] + ls.skip(row + 2));
            }
        }
    }

    fn backspace_at(&mut self, row: usize, col: usize) {
        if row >= self.lines.len() {
            return ;
        }
        let ghost ls = self.lines_view();
        let line_len = self.lines[row].len();
        let col = if col < line_len {
            col
        } else {
            line_len
        };
        if col > 0 {
            let mut nl: Vec<char> = Vec::new();
            extend_chars(&mut nl, &self.lines[row], 0, col - 1);
            extend_chars(&mut nl, &self.lines[row], col, line_len);
            self.lines[row] = nl;
            proof {
                assert(nl@ =~= ls[row as int].remove(col - 1));
                assert(final(self).lines_view() =~= ls.update(
                    row as int,
                    ls[row as int].remove(col - 1),
                ));
            }
        } else if row > 0 {
            let prev_len = self.lines[row - 1].len();
            let mut nl: Vec<char> = Vec::new();
            extend_chars(&mut nl, &self.lines[row - 1], 0, prev_len);
            extend_chars(&mut nl, &self.lines[row], 0, line_len);
            self.lines[row - 1] = nl;
            self.lines.remove(row);
            proof {
                assert(ls[row - 1].subrange(0, prev_len as int) =~= ls[row - 1]);
                assert(ls[row as int].subrange(0, line_len as int) =~= ls[row as int]);
                assert(final(self).lines_view() =~= ls.take(row - 1) + seq![
                    ls[row - 1] + ls[row as int],
                ] + ls.skip(row + 1));
            }
        }
    }
}

} // verus!
