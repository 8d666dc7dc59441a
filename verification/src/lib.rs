//! Core of a text editor: a gap-indexed character store with row/column
//! addressing, a cursor-and-selection model, and an incremental
//! syntax-highlighting engine backed by syntect.

pub mod chars;
pub mod editor;
pub mod gap_buffer;
pub mod line_index;
pub mod syntax_highlighter;
pub mod text_buffer;

pub use chars::{chars_of_str, string_of_chars};
pub use editor::{CursorPosition, Editor};
pub use gap_buffer::GapBuffer;
pub use syntax_highlighter::{Rgba, StyledRun, SyntaxHighlighter};
pub use text_buffer::{SimpleBuffer, TextBuffer};

pub use line_index::{
    clamp_col, clamp_row, doc_len, first_newline, join_lines, lemma_join_lines_len,
    lemma_join_lines_of, lemma_lines_of_nonempty, lemma_lines_of_push, lemma_round_trip,
    line_start, lines_of, offset_of, position_from, position_of,
};
