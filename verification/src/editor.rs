//! The cursor and selection model: a state machine over the caret position,
//! an optional selection anchor, and a remembered goal column for vertical
//! movement, mutating the line buffer through row/column requests and
//! invalidating the highlight cache from each edited row onward.

use crate::chars::push_char;
use crate::syntax_highlighter::{
    default_run, invalidated_from, known_theme, language_for_extension, language_for_first_line,
    miss_spec, known_language, sum_run_lens, StyledRun, SyntaxHighlighter,
};
use crate::text_buffer::{
    spec_backspace_lines, spec_delete_lines, spec_insert_lines, spec_remove_span, spec_span_text,
    SimpleBuffer, TextBuffer,
};
use crate::line_index::join_lines;
use vstd::prelude::*;
use vstd::string::StringExecFns;

verus! {

/// A caret position: zero-based row, and a character column within the row.
#[derive(Clone, Copy, Debug, PartialEq, Eq, Structural)]
pub struct CursorPosition {
    pub row: usize,
    pub col: usize,
}

impl CursorPosition {
    pub fn new(row: usize, col: usize) -> (r: Self)
        ensures
            r == (CursorPosition { row, col }),
    {
        Self { row, col }
    }
}

/// Whether a position lies inside the document: its row exists and its
/// column is at most that row's length.
pub open spec fn valid_pos(ls: Seq<Seq<char>>, p: CursorPosition) -> bool {
    &&& (p.row as int) < ls.len()
    &&& p.col as int <= ls[p.row as int].len()
}

/// Document order on positions: row-major, then column.
pub open spec fn pos_before(a: CursorPosition, b: CursorPosition) -> bool {
    a.row < b.row || (a.row == b.row && a.col < b.col)
}

/// How a movement treats the anchor: with the modifier held an anchor is
/// started at the old cursor if none exists; without it any anchor is
/// dropped.
pub open spec fn next_anchor(
    anchor: Option<CursorPosition>,
    cursor: CursorPosition,
    shift: bool,
) -> Option<CursorPosition> {
    if shift {
        if anchor is Some {
            anchor
        } else {
            Some(cursor)
        }
    } else {
        None
    }
}

pub struct Editor {
    buffer: SimpleBuffer,
    cursor_position: CursorPosition,
    goal_column: Option<usize>,
    selection_anchor: Option<CursorPosition>,
    syntax_highlighter: SyntaxHighlighter,
    language: String,
    current_theme: String,
}

impl Editor {
    /// The document's lines.
    pub closed spec fn lines(&self) -> Seq<Seq<char>> {
        self.buffer.lines_view()
    }

    /// The caret position.
    pub closed spec fn cursor(&self) -> CursorPosition {
        self.cursor_position
    }

    /// The selection anchor, if a selection is active.
    pub closed spec fn anchor(&self) -> Option<CursorPosition> {
        self.selection_anchor
    }

    /// The column remembered across vertical moves.
    pub closed spec fn goal(&self) -> Option<usize> {
        self.goal_column
    }

    /// The declared language.
    pub closed spec fn lang(&self) -> Seq<char> {
        self.language@
    }

    /// The selected theme name.
    pub closed spec fn theme(&self) -> Seq<char> {
        self.current_theme@
    }

    /// The highlighter and its cache.
    pub closed spec fn hl(&self) -> SyntaxHighlighter {
        self.syntax_highlighter
    }

    /// The structural invariant: the buffer holds at least one line and the
    /// cursor and any anchor lie inside the document.
    pub closed spec fn wf(&self) -> bool {
        &&& self.buffer.buf_wf()
        &&& valid_pos(self.lines(), self.cursor_position)
        &&& match self.selection_anchor {
            Some(a) => valid_pos(self.lines(), a),
            None => true,
        }
    }

    pub proof fn lemma_wf(&self)
        requires
            self.wf(),
        ensures
            self.lines().len() >= 1,
            valid_pos(self.lines(), self.cursor()),
            self.anchor() is Some ==> valid_pos(self.lines(), self.anchor()->0),
    {
    }

    /// Create an editor over these lines; the language is auto-detected from
    /// the joined content with a Rust file-extension hint, falling back to
    /// Rust.
    pub fn new(lines: Vec<String>) -> (r: Self)
        ensures
            r.wf(),
            r.lines() == (if lines@.len() == 0 {
                seq![Seq::<char>::empty()]
            } else {
                Seq::new(lines@.len(), |i: int| lines@[i]@)
            }),
            r.cursor() == (CursorPosition { row: 0, col: 0 }),
            r.anchor() is None,
            r.goal() is None,
            r.theme() == Seq::<char>::empty(),
            r.hl().theme() == "Monokai"@,
            r.hl().lex_states().len() == 0,
            r.hl().color_states().len() == 0,
            ({
                let full = join_lines(Seq::new(lines@.len(), |i: int| lines@[i]@));
                match language_for_extension("rs"@) {
                    Some(n) => r.lang() == n,
                    None => match language_for_first_line(full) {
                        Some(n) => r.lang() == n,
                        None => r.lang() == "Rust"@,
                    },
                }
            }),
    {
        let ghost views = Seq::new(lines@.len(), |i: int| lines@[i]@);
        let mut full: String = String::new();
        let mut i: usize = 0;
        while i < lines.len()
            invariant
                i <= lines@.len(),
                views == Seq::new(lines@.len(), |k: int| lines@[k]@),
                full@ == join_lines(views.take(i as int)),
            decreases lines@.len() - i,
        {
            if i > 0 {
                push_char(&mut full, '\n');
            }
            let ghost before = full@;
            full.append(lines[i].as_str());
            i = i + 1;
            proof {
                crate::line_index::lemma_join_lines_push(views.take(i - 1), views[i - 1]);
                assert(views.take(i as int) =~= views.take(i - 1).push(views[i - 1]));
                if i > 1 {
                    assert(full@ =~= join_lines(views.take(i - 1)) + seq!['\n'] + views[i - 1]);
                }
            }
        }
        proof {
            assert(views.take(views.len() as int) =~= views);
        }
        let syntax_highlighter = SyntaxHighlighter::new();
        let language = match syntax_highlighter.detect_language(full.as_str(), Some("rs")) {
            Some(l) => l,
            None => String::from_str("Rust"),
        };
        Editor {
            buffer: SimpleBuffer::new(lines),
            cursor_position: CursorPosition { row: 0, col: 0 },
            goal_column: None,
            selection_anchor: None,
            syntax_highlighter,
            language,
            current_theme: String::new(),
        }
    }

    /// The current cursor position.
    pub fn cursor_position(&self) -> (r: CursorPosition)
        ensures
            r == self.cursor(),
    {
        self.cursor_position
    }

    /// The current cursor position.
    pub fn get_cursor_position(&self) -> (r: CursorPosition)
        ensures
            r == self.cursor(),
    {
        self.cursor_position
    }

    /// Place the cursor; the goal column is forgotten.
    pub fn set_cursor_position(&mut self, position: CursorPosition)
        requires
            old(self).wf(),
            valid_pos(old(self).lines(), position),
        ensures
            final(self).wf(),
            final(self).cursor() == position,
            final(self).goal() is None,
            final(self).anchor() == old(self).anchor(),
            final(self).lines() == old(self).lines(),
            final(self).lang() == old(self).lang(),
            final(self).theme() == old(self).theme(),
            final(self).hl() == old(self).hl(),
    {
        self.cursor_position = position;
        self.goal_column = None;
    }

    /// Drop the selection anchor and the goal column; the cursor stays.
    pub fn clear_selection(&mut self)
        requires
            old(self).wf(),
        ensures
            final(self).wf(),
            final(self).anchor() is None,
            final(self).goal() is None,
            final(self).cursor() == old(self).cursor(),
            final(self).lines() == old(self).lines(),
            final(self).lang() == old(self).lang(),
            final(self).theme() == old(self).theme(),
            final(self).hl() == old(self).hl(),
    {
        self.selection_anchor = None;
        self.goal_column = None;
    }

    /// The underlying line buffer.
    pub fn get_buffer(&self) -> (r: &SimpleBuffer)
        requires
            self.wf(),
        ensures
            r.buf_wf(),
            r.lines_view() == self.lines(),
    {
        &self.buffer
    }

    /// The underlying line buffer, for direct mutation. What the caller
    /// does through it becomes the document; the cursor and anchor are not
    /// re-validated, so the caller must keep them inside the new content.
    pub fn get_buffer_mut(&mut self) -> (r: &mut SimpleBuffer)
        requires
            old(self).wf(),
        ensures
            r.buf_wf(),
            r.lines_view() == old(self).lines(),
            final(self).lines() == final(r).lines_view(),
            final(self).cursor() == old(self).cursor(),
            final(self).anchor() == old(self).anchor(),
            final(self).goal() == old(self).goal(),
            final(self).lang() == old(self).lang(),
            final(self).theme() == old(self).theme(),
            final(self).hl() == old(self).hl(),
    {
        &mut self.buffer
    }

    /// The declared language.
    pub fn language(&self) -> (r: &str)
        ensures
            r@ == self.lang(),
    {
        self.language.as_str()
    }

    /// Declare the language; every cached highlight state is discarded.
    pub fn set_language(&mut self, language: String)
        requires
            old(self).wf(),
        ensures
            final(self).wf(),
            final(self).lang() == language@,
            final(self).hl().lex_states().len() == 0,
            final(self).hl().color_states().len() == 0,
            final(self).hl().theme() == old(self).hl().theme(),
            final(self).lines() == old(self).lines(),
            final(self).cursor() == old(self).cursor(),
            final(self).anchor() == old(self).anchor(),
            final(self).goal() == old(self).goal(),
            final(self).theme() == old(self).theme(),
    {
        self.language = language;
        self.syntax_highlighter.invalidate_language();
    }

    /// The selected theme name.
    pub fn current_theme(&self) -> (r: &str)
        ensures
            r@ == self.theme(),
    {
        self.current_theme.as_str()
    }

    /// Select a theme by name; the highlighter takes it only if it is a
    /// known one, discarding its colorizer states.
    pub fn set_theme(&mut self, theme: &str)
        requires
            old(self).wf(),
        ensures
            final(self).wf(),
            final(self).theme() == theme@,
            known_theme(theme@) ==> final(self).hl().theme() == theme@
                && final(self).hl().color_states().len() == 0
                && final(self).hl().lex_states() == old(self).hl().lex_states(),
            !known_theme(theme@) ==> final(self).hl() == old(self).hl(),
            final(self).lines() == old(self).lines(),
            final(self).cursor() == old(self).cursor(),
            final(self).anchor() == old(self).anchor(),
            final(self).goal() == old(self).goal(),
            final(self).lang() == old(self).lang(),
    {
        self.current_theme = String::from_str(theme);
        self.syntax_highlighter.set_theme(theme);
    }

    /// Whether a selection is active.
    pub fn has_selection(&self) -> (r: bool)
        ensures
            r == (self.anchor() is Some),
    {
        self.selection_anchor.is_some()
    }

    /// The selection as an ordered pair, or nothing without an anchor.
    pub open spec fn spec_selection_range(&self) -> Option<(CursorPosition, CursorPosition)> {
        match self.anchor() {
            None => None,
            Some(a) => if pos_before(a, self.cursor()) {
                Some((a, self.cursor()))
            } else {
                Some((self.cursor(), a))
            },
        }
    }

    /// The selection range in document order, whichever side the anchor is
    /// on.
    pub fn get_selection_range(&self) -> (r: Option<(CursorPosition, CursorPosition)>)
        ensures
            r == self.spec_selection_range(),
    {
        match self.selection_anchor {
            None => None,
            Some(anchor) => {
                if anchor.row < self.cursor_position.row || (anchor.row == self.cursor_position.row
                    && anchor.col < self.cursor_position.col) {
                    Some((anchor, self.cursor_position))
                } else {
                    Some((self.cursor_position, anchor))
                }
            },
        }
    }

    /// Selection normalization: whichever of the anchor and the live cursor
    /// comes later in the document, the reported range is ordered, and its
    /// endpoints are exactly those two positions.
    pub proof fn lemma_selection_normalized(&self)
        requires
            self.anchor() is Some,
        ensures
            self.spec_selection_range() is Some,
            ({
                let (s, e) = self.spec_selection_range()->0;
                &&& (s.row < e.row || (s.row == e.row && s.col <= e.col))
                &&& ((s == self.anchor()->0 && e == self.cursor()) || (s == self.cursor() && e
                    == self.anchor()->0))
            }),
    {
    }

    /// Move left one column; at column 0 of a later row, to the end of the
    /// previous row; at the start of the document, stay. Clears the goal
    /// column; the modifier extends or drops the selection.
    pub fn move_left(&mut self, shift_held: bool)
        requires
            old(self).wf(),
        ensures
            final(self).wf(),
            final(self).anchor() == next_anchor(old(self).anchor(), old(self).cursor(), shift_held),
            final(self).goal() is None,
            final(self).cursor() == spec_left(old(self).lines(), old(self).cursor()),
            final(self).lines() == old(self).lines(),
            final(self).lang() == old(self).lang(),
            final(self).theme() == old(self).theme(),
            final(self).hl() == old(self).hl(),
    {
        self.update_anchor(shift_held);
        self.goal_column = None;
        if self.cursor_position.col > 0 {
            self.cursor_position.col = self.cursor_position.col - 1;
        } else if self.cursor_position.row > 0 {
            self.cursor_position.row = self.cursor_position.row - 1;
            self.cursor_position.col = self.buffer.line_len(self.cursor_position.row);
        }
    }

    /// Move right one column; at the end of an earlier row, to column 0 of
    /// the next row; at the end of the document, stay. Clears the goal
    /// column; the modifier extends or drops the selection.
    pub fn move_right(&mut self, shift_held: bool)
        requires
            old(self).wf(),
        ensures
            final(self).wf(),
            final(self).anchor() == next_anchor(old(self).anchor(), old(self).cursor(), shift_held),
            final(self).goal() is None,
            final(self).cursor() == spec_right(old(self).lines(), old(self).cursor()),
            final(self).lines() == old(self).lines(),
            final(self).lang() == old(self).lang(),
            final(self).theme() == old(self).theme(),
            final(self).hl() == old(self).hl(),
    {
        self.update_anchor(shift_held);
        self.goal_column = None;
        let current_line_len = self.buffer.line_len(self.cursor_position.row);
        if self.cursor_position.col < current_line_len {
            self.cursor_position.col = self.cursor_position.col + 1;
        } else if self.cursor_position.row < self.buffer.line_count() - 1 {
            self.cursor_position.row = self.cursor_position.row + 1;
            self.cursor_position.col = 0;
        }
    }

    /// Move up one row, to the goal column (captured from the current column
    /// on the first vertical move) clamped to the new row's length; at the
    /// first row, stay. The modifier extends or drops the selection.
    pub fn move_up(&mut self, shift_held: bool)
        requires
            old(self).wf(),
        ensures
            final(self).wf(),
            final(self).anchor() == next_anchor(old(self).anchor(), old(self).cursor(), shift_held),
            final(self).lines() == old(self).lines(),
            final(self).lang() == old(self).lang(),
            final(self).theme() == old(self).theme(),
            final(self).hl() == old(self).hl(),
            old(self).cursor().row > 0 ==> {
                &&& final(self).goal() == Some(
                    spec_goal_col(old(self).goal(), old(self).cursor()),
                )
                &&& final(self).cursor() == spec_vertical(
                    old(self).lines(),
                    old(self).cursor(),
                    old(self).cursor().row - 1,
                    spec_goal_col(old(self).goal(), old(self).cursor()),
                )
            },
            old(self).cursor().row == 0 ==> final(self).cursor() == old(self).cursor()
                && final(self).goal() == old(self).goal(),
    {
        self.update_anchor(shift_held);
        if self.cursor_position.row > 0 {
            let goal = match self.goal_column {
                Some(g) => g,
                None => self.cursor_position.col,
            };
            self.goal_column = Some(goal);
            self.cursor_position.row = self.cursor_position.row - 1;
            let line_len = self.buffer.line_len(self.cursor_position.row);
            self.cursor_position.col = if goal < line_len {
                goal
            } else {
                line_len
            };
        }
    }

    /// Move down one row, to the goal column clamped to the new row's
    /// length; at the last row, stay. The modifier extends or drops the
    /// selection.
    pub fn move_down(&mut self, shift_held: bool)
        requires
            old(self).wf(),
        ensures
            final(self).wf(),
            final(self).anchor() == next_anchor(old(self).anchor(), old(self).cursor(), shift_held),
            final(self).lines() == old(self).lines(),
            final(self).lang() == old(self).lang(),
            final(self).theme() == old(self).theme(),
            final(self).hl() == old(self).hl(),
            old(self).cursor().row < old(self).lines().len() - 1 ==> {
                &&& final(self).goal() == Some(
                    spec_goal_col(old(self).goal(), old(self).cursor()),
                )
                &&& final(self).cursor() == spec_vertical(
                    old(self).lines(),
                    old(self).cursor(),
                    old(self).cursor().row + 1,
                    spec_goal_col(old(self).goal(), old(self).cursor()),
                )
            },
            old(self).cursor().row == old(self).lines().len() - 1 ==> final(self).cursor()
                == old(self).cursor() && final(self).goal() == old(self).goal(),
    {
        self.update_anchor(shift_held);
        if self.cursor_position.row < self.buffer.line_count() - 1 {
            let goal = match self.goal_column {
                Some(g) => g,
                None => self.cursor_position.col,
            };
            self.goal_column = Some(goal);
            self.cursor_position.row = self.cursor_position.row + 1;
            let line_len = self.buffer.line_len(self.cursor_position.row);
            self.cursor_position.col = if goal < line_len {
                goal
            } else {
                line_len
            };
        }
    }

    /// Anchor at the document start and put the cursor at the very end;
    /// the goal column is forgotten.
    pub fn select_all(&mut self)
        requires
            old(self).wf(),
        ensures
            final(self).wf(),
            final(self).goal() is None,
            final(self).anchor() == Some(CursorPosition { row: 0, col: 0 }),
            final(self).cursor().row == old(self).lines().len() - 1,
            final(self).cursor().col == old(self).lines().last().len(),
            final(self).lines() == old(self).lines(),
            final(self).lang() == old(self).lang(),
            final(self).theme() == old(self).theme(),
            final(self).hl() == old(self).hl(),
    {
        self.goal_column = None;
        self.selection_anchor = Some(CursorPosition { row: 0, col: 0 });
        let last_row = self.buffer.line_count() - 1;
        let last_col = self.buffer.line_len(last_row);
        self.cursor_position = CursorPosition { row: last_row, col: last_col };
    }

    /// Remove the selected span, if any: the cursor collapses to the span's
    /// start, the anchor and goal column are dropped, and the highlight
    /// cache is invalidated from that row onward. Reports whether anything
    /// was deleted.
    pub fn delete_selection(&mut self) -> (deleted: bool)
        requires
            old(self).wf(),
        ensures
            final(self).wf(),
            deleted == (old(self).anchor() is Some),
            old(self).anchor() is None ==> *final(self) == *old(self),
            old(self).anchor() is Some ==> ({
                let (s, e) = old(self).spec_selection_range()->0;
                &&& final(self).lines() == spec_remove_span(
                    old(self).lines(),
                    s.row as int,
                    s.col as int,
                    e.row as int,
                    e.col as int,
                )
                &&& final(self).cursor() == s
                &&& final(self).anchor() is None
                &&& final(self).goal() is None
                &&& invalidated_from(old(self).hl(), final(self).hl(), s.row as int)
                &&& final(self).lang() == old(self).lang()
                &&& final(self).theme() == old(self).theme()
            }),
    {
        proof {
            if self.anchor() is Some {
                self.lemma_selection_normalized();
            }
        }
        match self.get_selection_range() {
            None => false,
            Some((start, end)) => {
                self.buffer.delete_span(start.row, start.col, end.row, end.col);
                self.cursor_position = start;
                self.selection_anchor = None;
                self.goal_column = None;
                self.syntax_highlighter.invalidate_from(start.row);
                true
            },
        }
    }

    /// The selected text: for one row the slice between the columns, across
    /// rows the tail of the start row, the full interior rows and the head
    /// of the end row, joined with newlines; empty without a selection.
    pub fn get_selected_text(&self) -> (s: String)
        requires
            self.wf(),
        ensures
            self.anchor() is None ==> s@ == Seq::<char>::empty(),
            self.anchor() is Some ==> ({
                let (st, en) = self.spec_selection_range()->0;
                s@ == spec_span_text(
                    self.lines(),
                    st.row as int,
                    st.col as int,
                    en.row as int,
                    en.col as int,
                )
            }),
    {
        proof {
            if self.anchor() is Some {
                self.lemma_selection_normalized();
            }
        }
        match self.get_selection_range() {
            None => String::new(),
            Some((start, end)) => self.buffer.span_text(start.row, start.col, end.row, end.col),
        }
    }

    /// Insert one character at the cursor, deleting any selection first; the
    /// cursor advances past it, and a newline character opens a new row.
    pub fn insert_char(&mut self, ch: char)
        requires
            old(self).wf(),
        ensures
            final(self).wf(),
            final(self).goal() is None,
            final(self).anchor() is None,
            final(self).lang() == old(self).lang(),
            final(self).theme() == old(self).theme(),
            ({
                let (ls0, c0) = spec_collapsed(*old(self));
                &&& final(self).lines() == spec_insert_lines(
                    ls0,
                    c0.row as int,
                    c0.col as int,
                    seq![ch],
                )
                &&& final(self).cursor() == (if ch == '\n' {
                    CursorPosition { row: (c0.row + 1) as usize, col: 0 }
                } else {
                    CursorPosition { row: c0.row, col: (c0.col + 1) as usize }
                })
                &&& invalidated_from(old(self).hl(), final(self).hl(), c0.row as int)
            }),
    {
        if ch == '\n' {
            self.insert_newline();
            proof {
                reveal_strlit("\n");
                assert("\n"@ =~= seq!['\n']);
            }
            return ;
        }
        self.delete_selection();
        let row = self.cursor_position.row;
        let col = self.cursor_position.col;
        let mut s = String::new();
        push_char(&mut s, ch);
        proof {
            assert(s@ =~= seq![ch]);
            assert(seq![ch].drop_first() =~= Seq::<char>::empty());
            assert(crate::line_index::first_newline(Seq::<char>::empty()) == 0);
            assert(crate::line_index::first_newline(seq![ch]) == 1);
            assert(crate::line_index::lines_of(seq![ch]) =~= seq![seq![ch]]);
        }
        self.buffer.insert_at(row, col, s.as_str());
        let new_len = self.buffer.line_len(row);
        proof {
            assert(col < new_len);
        }
        self.cursor_position.col = col + 1;
        self.goal_column = None;
        self.syntax_highlighter.invalidate_from(row);
        proof {
            let r = row as int;
            if r <= old(self).hl().lex_states().len() {
                assert(self.syntax_highlighter.lex_states() =~= old(self).hl().lex_states().take(
                    r,
                ));
            }
            if r <= old(self).hl().color_states().len() {
                assert(self.syntax_highlighter.color_states() =~= old(
                    self,
                ).hl().color_states().take(r));
            }
        }
    }

    /// Split the current row at the cursor, deleting any selection first;
    /// the cursor lands at the start of the new row.
    pub fn insert_newline(&mut self)
        requires
            old(self).wf(),
        ensures
            final(self).wf(),
            final(self).goal() is None,
            final(self).anchor() is None,
            final(self).lang() == old(self).lang(),
            final(self).theme() == old(self).theme(),
            ({
                let (ls0, c0) = spec_collapsed(*old(self));
                &&& final(self).lines() == spec_insert_lines(
                    ls0,
                    c0.row as int,
                    c0.col as int,
                    seq!['\n'],
                )
                &&& final(self).cursor() == (CursorPosition { row: (c0.row + 1) as usize, col: 0 })
                &&& invalidated_from(old(self).hl(), final(self).hl(), c0.row as int)
            }),
    {
        self.delete_selection();
        let row = self.cursor_position.row;
        let col = self.cursor_position.col;
        proof {
            reveal_strlit("\n");
            assert("\n"@ =~= seq!['\n']);
            assert(seq!['\n'].drop_first() =~= Seq::<char>::empty());
            assert(crate::line_index::first_newline(seq!['\n']) == 0);
            assert(seq!['\n'].skip(1) =~= Seq::<char>::empty());
            assert(crate::line_index::first_newline(Seq::<char>::empty()) == 0);
            assert(crate::line_index::lines_of(Seq::<char>::empty()) =~= seq![
                Seq::<char>::empty(),
            ]);
            assert(seq!['\n'].take(0) =~= Seq::<char>::empty());
            assert(crate::line_index::lines_of(seq!['\n']) =~= seq![
                Seq::<char>::empty(),
                Seq::<char>::empty(),
            ]);
        }
        self.buffer.insert_at(row, col, "\n");
        let count = self.buffer.line_count();
        proof {
            assert(row + 1 < count);
        }
        self.cursor_position = CursorPosition { row: row + 1, col: 0 };
        self.goal_column = None;
        self.syntax_highlighter.invalidate_from(row);
        proof {
            let r = row as int;
            if r <= old(self).hl().lex_states().len() {
                assert(self.syntax_highlighter.lex_states() =~= old(self).hl().lex_states().take(
                    r,
                ));
            }
            if r <= old(self).hl().color_states().len() {
                assert(self.syntax_highlighter.color_states() =~= old(
                    self,
                ).hl().color_states().take(r));
            }
        }
    }

    /// Delete backward: a selection if one exists (and nothing more), else
    /// the character before the cursor, joining with the previous row at
    /// column 0 of a later row; a no-op at the very start.
    pub fn backspace(&mut self)
        requires
            old(self).wf(),
        ensures
            final(self).wf(),
            final(self).goal() is None,
            final(self).anchor() is None,
            final(self).lang() == old(self).lang(),
            final(self).theme() == old(self).theme(),
            old(self).anchor() is Some ==> ({
                let (s, e) = old(self).spec_selection_range()->0;
                &&& final(self).lines() == spec_remove_span(
                    old(self).lines(),
                    s.row as int,
                    s.col as int,
                    e.row as int,
                    e.col as int,
                )
                &&& final(self).cursor() == s
                &&& invalidated_from(old(self).hl(), final(self).hl(), s.row as int)
            }),
            old(self).anchor() is None ==> ({
                let ls = old(self).lines();
                let c = old(self).cursor();
                if c.col > 0 {
                    &&& final(self).lines() == spec_backspace_lines(ls, c.row as int, c.col as int)
                    &&& final(self).cursor() == (CursorPosition {
                        row: c.row,
                        col: (c.col - 1) as usize,
                    })
                    &&& invalidated_from(old(self).hl(), final(self).hl(), c.row as int)
                } else if c.row > 0 {
                    &&& final(self).lines() == spec_backspace_lines(ls, c.row as int, 0)
                    &&& final(self).cursor() == (CursorPosition {
                        row: (c.row - 1) as usize,
                        col: ls[c.row - 1].len() as usize,
                    })
                    &&& invalidated_from(old(self).hl(), final(self).hl(), c.row - 1)
                } else {
                    &&& final(self).lines() == ls
                    &&& final(self).cursor() == c
                    &&& final(self).hl() == old(self).hl()
                }
            }),
    {
        if self.delete_selection() {
            return ;
        }
        if self.cursor_position.col > 0 {
            let row = self.cursor_position.row;
            let col = self.cursor_position.col;
            self.buffer.backspace_at(row, col);
            self.cursor_position.col = col - 1;
            self.syntax_highlighter.invalidate_from(row);
        } else if self.cursor_position.row > 0 {
            let row = self.cursor_position.row;
            let prev_len = self.buffer.line_len(row - 1);
            self.buffer.backspace_at(row, 0);
            self.cursor_position = CursorPosition { row: row - 1, col: prev_len };
            self.syntax_highlighter.invalidate_from(row - 1);
        }
        self.goal_column = None;
    }

    /// Delete forward: a selection if one exists (and nothing more), else
    /// the character at the cursor, joining with the next row at the end of
    /// an earlier row; a no-op at the very end.
    pub fn delete(&mut self)
        requires
            old(self).wf(),
        ensures
            final(self).wf(),
            final(self).goal() is None,
            final(self).anchor() is None,
            final(self).lang() == old(self).lang(),
            final(self).theme() == old(self).theme(),
            old(self).anchor() is Some ==> ({
                let (s, e) = old(self).spec_selection_range()->0;
                &&& final(self).lines() == spec_remove_span(
                    old(self).lines(),
                    s.row as int,
                    s.col as int,
                    e.row as int,
                    e.col as int,
                )
                &&& final(self).cursor() == s
                &&& invalidated_from(old(self).hl(), final(self).hl(), s.row as int)
            }),
            old(self).anchor() is None ==> ({
                let ls = old(self).lines();
                let c = old(self).cursor();
                if (c.col as int) < ls[c.row as int].len() || (c.row as int) < ls.len() - 1 {
                    &&& final(self).lines() == spec_delete_lines(ls, c.row as int, c.col as int)
                    &&& final(self).cursor() == c
                    &&& invalidated_from(old(self).hl(), final(self).hl(), c.row as int)
                } else {
                    &&& final(self).lines() == ls
                    &&& final(self).cursor() == c
                    &&& final(self).hl() == old(self).hl()
                }
            }),
    {
        if self.delete_selection() {
            return ;
        }
        let row = self.cursor_position.row;
        let col = self.cursor_position.col;
        let current_line_len = self.buffer.line_len(row);
        let count = self.buffer.line_count();
        if col < current_line_len || row < count - 1 {
            self.buffer.delete_at(row, col);
            self.syntax_highlighter.invalidate_from(row);
        }
        self.goal_column = None;
    }

    /// Replace the whole content: the cursor and any selection anchor clamp
    /// into the new document, the goal column resets, and every cached
    /// highlight state is discarded.
    pub fn update_buffer(&mut self, lines: Vec<String>)
        requires
            old(self).wf(),
        ensures
            final(self).wf(),
            final(self).lines() == (if lines@.len() == 0 {
                seq![Seq::<char>::empty()]
            } else {
                Seq::new(lines@.len(), |i: int| lines@[i]@)
            }),
            final(self).goal() is None,
            ({
                let nl = final(self).lines();
                let r = crate::line_index::clamp_row(nl, old(self).cursor().row as int);
                &&& final(self).cursor().row as int == r
                &&& final(self).cursor().col as int == crate::line_index::clamp_col(
                    nl[r],
                    old(self).cursor().col as int,
                )
            }),
            final(self).anchor() == (match old(self).anchor() {
                None => None::<CursorPosition>,
                Some(a) => ({
                    let nl = final(self).lines();
                    let ar = crate::line_index::clamp_row(nl, a.row as int);
                    Some(
                        CursorPosition {
                            row: ar as usize,
                            col: crate::line_index::clamp_col(nl[ar], a.col as int) as usize,
                        },
                    )
                }),
            }),
            final(self).hl().lex_states().len() == 0,
            final(self).hl().color_states().len() == 0,
            final(self).hl().theme() == old(self).hl().theme(),
            final(self).lang() == old(self).lang(),
            final(self).theme() == old(self).theme(),
    {
        self.buffer = SimpleBuffer::new(lines);
        let count = self.buffer.line_count();
        let row = if self.cursor_position.row < count - 1 {
            self.cursor_position.row
        } else {
            count - 1
        };
        let ll = self.buffer.line_len(row);
        let col = if self.cursor_position.col < ll {
            self.cursor_position.col
        } else {
            ll
        };
        self.cursor_position = CursorPosition { row, col };
        match self.selection_anchor {
            Some(a) => {
                let ar = if a.row < count - 1 {
                    a.row
                } else {
                    count - 1
                };
                let al = self.buffer.line_len(ar);
                let ac = if a.col < al {
                    a.col
                } else {
                    al
                };
                self.selection_anchor = Some(CursorPosition { row: ar, col: ac });
            },
            None => {},
        }
        self.goal_column = None;
        self.syntax_highlighter.invalidate_language();
    }

    /// Replace one line's content; cached highlight states from that line
    /// onward are discarded, and the cursor and anchor columns clamp to the
    /// rows they sit on. A row beyond the last is ignored.
    pub fn update_line(&mut self, line_index: usize, new_content: String)
        requires
            old(self).wf(),
        ensures
            final(self).wf(),
            final(self).lang() == old(self).lang(),
            final(self).theme() == old(self).theme(),
            final(self).goal() == old(self).goal(),
            (line_index as int) >= old(self).lines().len() ==> *final(self) == *old(self),
            (line_index as int) < old(self).lines().len() ==> ({
                let nl = old(self).lines().update(line_index as int, new_content@);
                &&& final(self).lines() == nl
                &&& invalidated_from(old(self).hl(), final(self).hl(), line_index as int)
                &&& final(self).cursor().row == old(self).cursor().row
                &&& final(self).cursor().col as int == crate::line_index::clamp_col(
                    nl[old(self).cursor().row as int],
                    old(self).cursor().col as int,
                )
                &&& final(self).anchor() == (match old(self).anchor() {
                    None => None,
                    Some(a) => Some(
                        CursorPosition {
                            row: a.row,
                            col: (if a.col as int <= nl[a.row as int].len() {
                                a.col as int
                            } else {
                                nl[a.row as int].len() as int
                            }) as usize,
                        },
                    ),
                })
            }),
    {
        let count = self.buffer.line_count();
        if line_index < count {
            self.buffer.set_line(line_index, new_content.as_str());
            let ll = self.buffer.line_len(self.cursor_position.row);
            if self.cursor_position.col > ll {
                self.cursor_position.col = ll;
            }
            match self.selection_anchor {
                Some(a) => {
                    let al = self.buffer.line_len(a.row);
                    if a.col > al {
                        self.selection_anchor = Some(CursorPosition { row: a.row, col: al });
                    }
                },
                None => {},
            }
            self.syntax_highlighter.invalidate_from(line_index);
        }
    }

    /// Styled runs for one line of text, resuming from the highlighter's
    /// cache; the run lengths always sum to the line's character length.
    pub fn highlight_line(&mut self, line: &str, line_index: usize) -> (runs: Vec<StyledRun>)
        requires
            old(self).wf(),
            line_index + 1 < usize::MAX,
        ensures
            final(self).wf(),
            runs@.len() >= 1,
            sum_run_lens(runs@) == line@.len(),
            final(self).lines() == old(self).lines(),
            final(self).cursor() == old(self).cursor(),
            final(self).anchor() == old(self).anchor(),
            final(self).goal() == old(self).goal(),
            final(self).lang() == old(self).lang(),
            final(self).theme() == old(self).theme(),
            final(self).hl().theme() == old(self).hl().theme(),
            known_language(old(self).lang()) ==> (runs@ == seq![
                default_run(line@.len() as usize),
            ] || (line_index + 1 < final(self).hl().lex_states().len()
                && final(self).hl().lex_states()[line_index + 1] is Some
                && line_index + 1 < final(self).hl().color_states().len()
                && final(self).hl().color_states()[line_index + 1] is Some)),
    {
        self.syntax_highlighter.highlight_line(line, self.language.as_str(), line_index)
    }

    /// Styled runs for one line, also reporting whether a cache miss forced
    /// recomputation from fresh states.
    pub fn highlight_line_info(&mut self, line: &str, line_index: usize) -> (res: (
        Vec<StyledRun>,
        bool,
    ))
        requires
            old(self).wf(),
            line_index + 1 < usize::MAX,
        ensures
            final(self).wf(),
            res.0@.len() >= 1,
            sum_run_lens(res.0@) == line@.len(),
            final(self).lines() == old(self).lines(),
            final(self).cursor() == old(self).cursor(),
            final(self).anchor() == old(self).anchor(),
            final(self).goal() == old(self).goal(),
            final(self).lang() == old(self).lang(),
            final(self).theme() == old(self).theme(),
            final(self).hl().theme() == old(self).hl().theme(),
            known_language(old(self).lang()) ==> res.1 == miss_spec(
                old(self).hl(),
                old(self).lang(),
                line_index as int,
            ),
            !known_language(old(self).lang()) ==> res.1 == false,
            known_language(old(self).lang()) ==> (res.0@ == seq![
                default_run(line@.len() as usize),
            ] || (line_index + 1 < final(self).hl().lex_states().len()
                && final(self).hl().lex_states()[line_index + 1] is Some
                && line_index + 1 < final(self).hl().color_states().len()
                && final(self).hl().color_states()[line_index + 1] is Some)),
            known_language(old(self).lang()) && old(self).hl().cache_language() == old(
                self,
            ).lang() ==> {
                &&& ({
                    let k0 = if line_index + 1 <= old(self).hl().lex_states().len() {
                        line_index + 1
                    } else {
                        old(self).hl().lex_states().len() as int
                    };
                    final(self).hl().lex_states().take(k0) == old(self).hl().lex_states().take(k0)
                })
                &&& ({
                    let k0 = if line_index + 1 <= old(self).hl().color_states().len() {
                        line_index + 1
                    } else {
                        old(self).hl().color_states().len() as int
                    };
                    final(self).hl().color_states().take(k0) == old(
                        self,
                    ).hl().color_states().take(k0)
                })
            },
    {
        self.syntax_highlighter.highlight_line_info(line, self.language.as_str(), line_index)
    }

    /// Apply the anchor rule shared by every movement.
    fn update_anchor(&mut self, shift_held: bool)
        requires
            old(self).wf(),
        ensures
            final(self).wf(),
            final(self).anchor() == next_anchor(old(self).anchor(), old(self).cursor(), shift_held),
            final(self).cursor() == old(self).cursor(),
            final(self).goal() == old(self).goal(),
            final(self).lines() == old(self).lines(),
            final(self).lang() == old(self).lang(),
            final(self).theme() == old(self).theme(),
            final(self).hl() == old(self).hl(),
            final(self).buffer == old(self).buffer,
    {
        if shift_held {
            if self.selection_anchor.is_none() {
                self.selection_anchor = Some(self.cursor_position);
            }
        } else {
            self.selection_anchor = None;
        }
    }
}

/// The document and cursor after any active selection has been deleted: an
/// editor without a selection is unchanged.
pub open spec fn spec_collapsed(e: Editor) -> (Seq<Seq<char>>, CursorPosition) {
    match e.spec_selection_range() {
        None => (e.lines(), e.cursor()),
        Some((s, en)) => (
            spec_remove_span(e.lines(), s.row as int, s.col as int, en.row as int, en.col as int),
            s,
        ),
    }
}

/// Where a left move lands.
pub open spec fn spec_left(ls: Seq<Seq<char>>, c: CursorPosition) -> CursorPosition {
    if c.col > 0 {
        CursorPosition { row: c.row, col: (c.col - 1) as usize }
    } else if c.row > 0 {
        CursorPosition { row: (c.row - 1) as usize, col: ls[c.row - 1].len() as usize }
    } else {
        c
    }
}

/// Where a right move lands.
pub open spec fn spec_right(ls: Seq<Seq<char>>, c: CursorPosition) -> CursorPosition {
    if (c.col as int) < ls[c.row as int].len() {
        CursorPosition { row: c.row, col: (c.col + 1) as usize }
    } else if (c.row as int) < ls.len() - 1 {
        CursorPosition { row: (c.row + 1) as usize, col: 0 }
    } else {
        c
    }
}

/// The column a vertical move aims for: the remembered goal, or the current
/// column when none is remembered yet.
pub open spec fn spec_goal_col(goal: Option<usize>, c: CursorPosition) -> usize {
    match goal {
        Some(g) => g,
        None => c.col,
    }
}

/// Where a vertical move to `new_row` lands: the goal column clamped to the
/// new row's length.
pub open spec fn spec_vertical(
    ls: Seq<Seq<char>>,
    c: CursorPosition,
    new_row: int,
    goal: usize,
) -> CursorPosition {
    CursorPosition {
        row: new_row as usize,
        col: if (goal as int) < ls[new_row].len() {
            goal
        } else {
            ls[new_row].len() as usize
        },
    }
}

} // verus!