//! The incremental highlighter: run-length bookkeeping, language and theme
//! handling, the per-line state cache with its invalidation, and the
//! theme-derived palette with its fallbacks.

use editor_core::{CursorPosition, Editor, StyledRun, SyntaxHighlighter};

fn total_len(runs: &[StyledRun]) -> usize {
    runs.iter().map(|r| r.len).sum()
}

#[test]
fn run_lengths_sum_to_line_length() {
    let mut hl = SyntaxHighlighter::new();
    hl.set_theme("base16-ocean.dark");
    let lines = ["fn main() { println!(\"hi\"); }", "", "    let x = 42;"];
    for (n, line) in lines.iter().enumerate() {
        let runs = hl.highlight_line(line, "Rust", n);
        assert!(!runs.is_empty());
        assert_eq!(total_len(&runs), line.chars().count());
    }
}

#[test]
fn run_lengths_count_characters_not_bytes() {
    let mut hl = SyntaxHighlighter::new();
    let line = "h\u{e9}llo w\u{f6}rld";
    let runs = hl.highlight_line(line, "NoSuchLanguage", 0);
    assert_eq!(runs.len(), 1);
    assert_eq!(total_len(&runs), 11);
    // Through a real syntax and theme too: segment lengths are character
    // counts, so the total matches the character length, not the byte length.
    hl.set_theme("base16-ocean.dark");
    let line = "let s = \"h\u{e9}llo\";";
    let runs = hl.highlight_line(line, "Rust", 0);
    assert!(runs.len() > 1);
    assert_eq!(total_len(&runs), line.chars().count());
}

#[test]
fn unknown_language_gives_one_default_run() {
    let mut hl = SyntaxHighlighter::new();
    let runs = hl.highlight_line("anything at all", "NoSuchLanguage", 0);
    assert_eq!(runs.len(), 1);
    assert_eq!(runs[0].len, 15);
    assert_eq!(runs[0].color.r, 0xcc);
    assert_eq!(runs[0].background, None);
    assert!(!runs[0].bold && !runs[0].italic && !runs[0].underline);
}

#[test]
fn known_language_actually_colors() {
    let mut hl = SyntaxHighlighter::new();
    hl.set_theme("base16-ocean.dark");
    let runs = hl.highlight_line("fn main() {}", "Rust", 0);
    // A real syntax splits the line into several differently styled runs.
    assert!(runs.len() > 1);
    assert!(runs.iter().any(|r| r.color.r != 0xcc || r.color.g != 0xcc || r.color.b != 0xcc));
}

#[test]
fn same_line_twice_gives_identical_runs() {
    let mut hl = SyntaxHighlighter::new();
    hl.set_theme("base16-ocean.dark");
    let a = hl.highlight_line("let x = 1;", "Rust", 0);
    let b = hl.highlight_line("let x = 1;", "Rust", 0);
    assert_eq!(a, b);
    let c = hl.highlight_line("x.frob();", "Rust", 1);
    let d = hl.highlight_line("x.frob();", "Rust", 1);
    assert_eq!(c, d);
}

#[test]
fn invalidation_misses_only_from_edited_row() {
    let mut e = Editor::new(vec![
        "fn main() {".to_string(),
        "    let x = 1;".to_string(),
        "}".to_string(),
    ]);
    assert_eq!(e.language(), "Rust");
    e.set_theme("base16-ocean.dark");
    let (line0_runs, miss0) = e.highlight_line_info("fn main() {", 0);
    assert!(!miss0);
    let (_, miss1) = e.highlight_line_info("    let x = 1;", 1);
    assert!(!miss1);
    let (_, miss2) = e.highlight_line_info("}", 2);
    assert!(!miss2);
    // Edit row 1: every cached state from it onward is discarded.
    e.update_line(1, "    let y = 2;".to_string());
    let (_, miss2b) = e.highlight_line_info("}", 2);
    assert!(miss2b);
    let (_, miss1b) = e.highlight_line_info("    let y = 2;", 1);
    assert!(miss1b);
    // Row 0 still starts from its (fresh) state and styles identically.
    let (line0_again, miss0b) = e.highlight_line_info("fn main() {", 0);
    assert!(!miss0b);
    assert_eq!(line0_runs, line0_again);
}

#[test]
fn language_detection_prefers_extension() {
    let hl = SyntaxHighlighter::new();
    assert_eq!(hl.detect_language("whatever", Some("py")).as_deref(), Some("Python"));
    assert_eq!(
        hl.detect_language("#!/usr/bin/env python", None).as_deref(),
        Some("Python")
    );
    assert_eq!(hl.detect_language("plain words", Some("nosuchext")), None);
}

#[test]
fn available_themes_include_the_bundled_ones() {
    let hl = SyntaxHighlighter::new();
    let themes = hl.available_themes();
    assert!(themes.iter().any(|t| t == "base16-ocean.dark"));
    assert!(themes.iter().any(|t| t == "InspiredGitHub"));
}

#[test]
fn palette_comes_from_the_theme() {
    let mut hl = SyntaxHighlighter::new();
    hl.set_theme("base16-ocean.dark");
    let bg = hl.get_theme_background();
    // base16-ocean.dark declares #2b303b as its background.
    assert_eq!((bg.r, bg.g, bg.b), (0x2b, 0x30, 0x3b));
    let fg = hl.get_theme_foreground();
    assert_eq!((fg.r, fg.g, fg.b), (0xc0, 0xc5, 0xce));
    // No gutter color is declared, so the background is darkened by 5%.
    let gutter = hl.get_theme_gutter_background();
    assert_eq!((gutter.r, gutter.g, gutter.b), (40, 45, 56));
    // Translucency of the overlay colors is clamped.
    assert!(hl.get_theme_line_highlight().a <= 76);
    assert!(hl.get_theme_selection().a <= 127);
}

#[test]
fn missing_theme_palette_falls_back_to_defaults() {
    // The initial theme name is not in the bundle, so every palette query
    // answers its documented fallback.
    let hl = SyntaxHighlighter::new();
    let bg = hl.get_theme_background();
    assert_eq!((bg.r, bg.g, bg.b), (0x1e, 0x1e, 0x1e));
    let fg = hl.get_theme_foreground();
    assert_eq!((fg.r, fg.g, fg.b), (0xcc, 0xcc, 0xcc));
    let gutter = hl.get_theme_gutter_background();
    assert_eq!((gutter.r, gutter.g, gutter.b), (0x25, 0x25, 0x25));
}

#[test]
fn unknown_theme_is_refused() {
    let mut hl = SyntaxHighlighter::new();
    let before = hl.get_theme_background();
    hl.set_theme("NoSuchTheme");
    let after = hl.get_theme_background();
    assert_eq!(before, after);
}

#[test]
fn switching_theme_changes_palette() {
    let mut hl = SyntaxHighlighter::new();
    let dark = hl.get_theme_background();
    hl.set_theme("InspiredGitHub");
    let light = hl.get_theme_background();
    assert_ne!(dark, light);
}

#[test]
fn editor_set_theme_is_remembered() {
    let mut e = Editor::new(vec!["fn main() {}".to_string()]);
    assert_eq!(e.current_theme(), "");
    e.set_theme("InspiredGitHub");
    assert_eq!(e.current_theme(), "InspiredGitHub");
}

#[test]
fn editor_highlight_line_keeps_lengths() {
    let mut e = Editor::new(vec!["let a = [1, 2, 3];".to_string()]);
    let runs = e.highlight_line("let a = [1, 2, 3];", 0);
    assert_eq!(total_len(&runs), 18);
    assert_eq!(e.cursor_position(), CursorPosition::new(0, 0));
}
