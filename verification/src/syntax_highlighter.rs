//! The incremental highlighter: per-line styled runs computed by syntect,
//! with resumable lexer and colorizer states cached per line so that an edit
//! only forces re-computation from the edited line forward.
//!
//! syntect's own types are opaque to the verifier; the calls into it stand
//! behind trusted wrappers, and everything that decides — cache lookup,
//! invalidation, fallback styling, and the run-length bookkeeping — is
//! verified code over plain values.

use vstd::prelude::*;
use vstd::string::StringExecFns;

verus! {

// ---- syntect's types, declared so they can stand in fields and signatures ----

#[verifier::external_type_specification]
#[verifier::external_body]
pub struct ExSyntaxSet(syntect::parsing::SyntaxSet);

#[verifier::external_type_specification]
#[verifier::external_body]
pub struct ExParseState(syntect::parsing::ParseState);

#[verifier::external_type_specification]
#[verifier::external_body]
pub struct ExThemeSet(syntect::highlighting::ThemeSet);

#[verifier::external_type_specification]
#[verifier::external_body]
pub struct ExHighlightState(syntect::highlighting::HighlightState);

/// Relies on the derived `Clone` of syntect's `ParseState`: the copy equals
/// the original.
pub assume_specification[ <syntect::parsing::ParseState as Clone>::clone ](
    s: &syntect::parsing::ParseState,
) -> (r: syntect::parsing::ParseState)
    ensures
        r == *s,
;

/// Relies on the derived `Clone` of syntect's `HighlightState`: the copy
/// equals the original.
pub assume_specification[ <syntect::highlighting::HighlightState as Clone>::clone ](
    s: &syntect::highlighting::HighlightState,
) -> (r: syntect::highlighting::HighlightState)
    ensures
        r == *s,
;

// ---- the bundled definitions, held behind constructors of this module ----

/// The bundled syntax definitions. Every value holds the same set, decoded
/// from syntect's embedded dump, so lookups in it depend on the query alone.
pub struct DefaultSyntaxes {
    set: syntect::parsing::SyntaxSet,
}

/// The bundled themes. Every value holds the same collection, so lookups in
/// it depend on the query alone.
pub struct DefaultThemes {
    set: syntect::highlighting::ThemeSet,
}

/// Whether the bundled syntax definitions know a language of this name.
pub uninterp spec fn known_language(name: Seq<char>) -> bool;

/// The name of the bundled syntax registered for this file extension.
pub uninterp spec fn language_for_extension(ext: Seq<char>) -> Option<Seq<char>>;

/// The name of the bundled syntax whose first-line pattern matches this text.
pub uninterp spec fn language_for_first_line(text: Seq<char>) -> Option<Seq<char>>;

/// Whether the bundled theme collection holds a theme of this name.
pub uninterp spec fn known_theme(name: Seq<char>) -> bool;

/// The background color a bundled theme declares, if any, as RGBA channels.
pub uninterp spec fn theme_background_of(name: Seq<char>) -> Option<(u8, u8, u8, u8)>;

/// The foreground color a bundled theme declares, if any.
pub uninterp spec fn theme_foreground_of(name: Seq<char>) -> Option<(u8, u8, u8, u8)>;

/// The gutter color a bundled theme declares, if any.
pub uninterp spec fn theme_gutter_of(name: Seq<char>) -> Option<(u8, u8, u8, u8)>;

/// The line-highlight color a bundled theme declares, if any.
pub uninterp spec fn theme_line_highlight_of(name: Seq<char>) -> Option<(u8, u8, u8, u8)>;

/// The selection color a bundled theme declares, if any.
pub uninterp spec fn theme_selection_of(name: Seq<char>) -> Option<(u8, u8, u8, u8)>;

/// Relies on SyntaxSet::load_defaults_newlines: decodes the embedded dump of
/// bundled syntax definitions, the same set every time.
#[verifier::external_body]
fn load_default_syntaxes() -> DefaultSyntaxes {
    DefaultSyntaxes { set: syntect::parsing::SyntaxSet::load_defaults_newlines() }
}

/// Relies on ThemeSet::load_defaults: decodes the embedded dump of bundled
/// themes, the same collection every time.
#[verifier::external_body]
fn load_default_themes() -> DefaultThemes {
    DefaultThemes { set: syntect::highlighting::ThemeSet::load_defaults() }
}

/// Relies on SyntaxSet::find_syntax_by_name on the bundled set; the result
/// depends on the name alone because every `DefaultSyntaxes` holds the same
/// set.
#[verifier::external_body]
fn syntax_known(ds: &DefaultSyntaxes, name: &str) -> (r: bool)
    ensures
        r == known_language(name@),
{
    ds.set.find_syntax_by_name(name).is_some()
}

/// Relies on SyntaxSet::find_syntax_by_extension on the bundled set.
#[verifier::external_body]
fn syntax_name_for_extension(ds: &DefaultSyntaxes, ext: &str) -> (r: Option<String>)
    ensures
        match r {
            Some(s) => language_for_extension(ext@) == Some(s@),
            None => language_for_extension(ext@) is None,
        },
{
    ds.set.find_syntax_by_extension(ext).map(|s| s.name.clone())
}

/// Relies on SyntaxSet::find_syntax_by_first_line on the bundled set.
#[verifier::external_body]
fn syntax_name_for_first_line(ds: &DefaultSyntaxes, text: &str) -> (r: Option<String>)
    ensures
        match r {
            Some(s) => language_for_first_line(text@) == Some(s@),
            None => language_for_first_line(text@) is None,
        },
{
    ds.set.find_syntax_by_first_line(text).map(|s| s.name.clone())
}

/// Relies on ParseState::new and SyntaxSet::find_syntax_by_name on the
/// bundled set: a fresh lexer state for the language, if it is known.
#[verifier::external_body]
fn fresh_parse_state(ds: &DefaultSyntaxes, language: &str) -> (r: Option<
    syntect::parsing::ParseState,
>)
    ensures
        r is Some <==> known_language(language@),
{
    ds.set.find_syntax_by_name(language).map(syntect::parsing::ParseState::new)
}

/// Relies on HighlightState::new with an empty scope stack, and on
/// Highlighter::new and the bundled themes: a fresh colorizer state for the
/// theme, if it is known.
#[verifier::external_body]
fn fresh_highlight_state(dt: &DefaultThemes, theme_name: &str) -> (r: Option<
    syntect::highlighting::HighlightState,
>)
    ensures
        r is Some <==> known_theme(theme_name@),
{
    let theme = dt.set.themes.get(theme_name)?;
    let highlighter = syntect::highlighting::Highlighter::new(theme);
    Some(
        syntect::highlighting::HighlightState::new(
            &highlighter,
            syntect::parsing::ScopeStack::new(),
        ),
    )
}

/// Relies on ThemeSet::themes (an ordered map keyed by name).
#[verifier::external_body]
fn theme_exists(dt: &DefaultThemes, name: &str) -> (r: bool)
    ensures
        r == known_theme(name@),
{
    dt.set.themes.contains_key(name)
}

/// Relies on ThemeSet::themes: the available theme names, in the map's
/// order — exactly the names the bundled collection knows.
#[verifier::external_body]
fn theme_names_of(dt: &DefaultThemes) -> (r: Vec<String>)
    ensures
        forall|i: int| 0 <= i < r@.len() ==> known_theme(r@[i]@),
        forall|n: Seq<char>| known_theme(n) ==> exists|i: int| 0 <= i < r@.len() && r@[i]@ == n,
{
    dt.set.themes.keys().cloned().collect()
}

/// Relies on ThemeSettings::background of the bundled theme of this name.
#[verifier::external_body]
fn read_theme_background(dt: &DefaultThemes, name: &str) -> (r: Option<(u8, u8, u8, u8)>)
    ensures
        r == theme_background_of(name@),
{
    let t = dt.set.themes.get(name)?;
    t.settings.background.map(|c| (c.r, c.g, c.b, c.a))
}

/// Relies on ThemeSettings::foreground of the bundled theme of this name.
#[verifier::external_body]
fn read_theme_foreground(dt: &DefaultThemes, name: &str) -> (r: Option<(u8, u8, u8, u8)>)
    ensures
        r == theme_foreground_of(name@),
{
    let t = dt.set.themes.get(name)?;
    t.settings.foreground.map(|c| (c.r, c.g, c.b, c.a))
}

/// Relies on ThemeSettings::gutter of the bundled theme of this name.
#[verifier::external_body]
fn read_theme_gutter(dt: &DefaultThemes, name: &str) -> (r: Option<(u8, u8, u8, u8)>)
    ensures
        r == theme_gutter_of(name@),
{
    let t = dt.set.themes.get(name)?;
    t.settings.gutter.map(|c| (c.r, c.g, c.b, c.a))
}

/// Relies on ThemeSettings::line_highlight of the bundled theme of this name.
#[verifier::external_body]
fn read_theme_line_highlight(dt: &DefaultThemes, name: &str) -> (r: Option<(u8, u8, u8, u8)>)
    ensures
        r == theme_line_highlight_of(name@),
{
    let t = dt.set.themes.get(name)?;
    t.settings.line_highlight.map(|c| (c.r, c.g, c.b, c.a))
}

/// Relies on ThemeSettings::selection of the bundled theme of this name.
#[verifier::external_body]
fn read_theme_selection(dt: &DefaultThemes, name: &str) -> (r: Option<(u8, u8, u8, u8)>)
    ensures
        r == theme_selection_of(name@),
{
    let t = dt.set.themes.get(name)?;
    t.settings.selection.map(|c| (c.r, c.g, c.b, c.a))
}

/// One raw styled segment as syntect reports it: a segment byte length and
/// the style's raw fields (foreground and background channels, font flag
/// bits).
pub struct RawRun {
    pub len: usize,
    pub fg: (u8, u8, u8, u8),
    pub bg: (u8, u8, u8, u8),
    pub font_bits: u8,
}

/// Relies on ParseState::parse_line, Highlighter::new and HighlightIterator:
/// parses one line, advances both resumable states across it, and hands back
/// each styled segment's character count and raw style fields. None when the
/// theme is unknown or the parser reports an error. The states handed in
/// must have been created from the bundled syntax set (all states in this
/// module are).
#[verifier::external_body]
fn advance_states(
    ds: &DefaultSyntaxes,
    dt: &DefaultThemes,
    theme_name: &str,
    parse_state: &mut syntect::parsing::ParseState,
    highlight_state: &mut syntect::highlighting::HighlightState,
    line: &str,
) -> (r: Option<Vec<RawRun>>)
    ensures
        !known_theme(theme_name@) ==> r is None,
{
    let theme = dt.set.themes.get(theme_name)?;
    let highlighter = syntect::highlighting::Highlighter::new(theme);
    let ops = parse_state.parse_line(line, &ds.set).ok()?;
    let iter = syntect::highlighting::HighlightIterator::new(highlight_state, &ops, line, &highlighter);
    let to_raw = |(s, t): (syntect::highlighting::Style, &str)| RawRun {
        len: t.chars().count(),
        fg: (s.foreground.r, s.foreground.g, s.foreground.b, s.foreground.a),
        bg: (s.background.r, s.background.g, s.background.b, s.background.a),
        font_bits: s.font_style.bits(),
    };
    Some(iter.map(to_raw).collect())
}

// ---- the verified styling model ----

/// A color as four 8-bit channels.
#[derive(Clone, Copy, Debug, PartialEq, Eq, Structural)]
pub struct Rgba {
    pub r: u8,
    pub g: u8,
    pub b: u8,
    pub a: u8,
}

pub open spec fn rgba_of(t: (u8, u8, u8, u8)) -> Rgba {
    Rgba { r: t.0, g: t.1, b: t.2, a: t.3 }
}

/// One contiguous span of a line sharing one visual style.
#[derive(Clone, Copy, Debug, PartialEq, Eq)]
pub struct StyledRun {
    pub len: usize,
    pub color: Rgba,
    pub background: Option<Rgba>,
    pub bold: bool,
    pub italic: bool,
    pub underline: bool,
}

pub open spec fn sum_run_lens(rs: Seq<StyledRun>) -> int
    decreases rs.len(),
{
    if rs.len() == 0 {
        0
    } else {
        sum_run_lens(rs.drop_last()) + rs.last().len
    }
}

/// The style used when no theme or language information is available.
pub open spec fn default_color() -> Rgba {
    Rgba { r: 0xcc, g: 0xcc, b: 0xcc, a: 0xff }
}

pub open spec fn default_run(len: usize) -> StyledRun {
    StyledRun {
        len,
        color: default_color(),
        background: None,
        bold: false,
        italic: false,
        underline: false,
    }
}

proof fn lemma_sum_singleton(rs: Seq<StyledRun>)
    requires
        rs.len() == 1,
    ensures
        sum_run_lens(rs) == rs[0].len,
{
    assert(rs.drop_last() =~= Seq::<StyledRun>::empty());
    assert(sum_run_lens(Seq::<StyledRun>::empty()) == 0);
}

fn make_default_run(len: usize) -> (r: StyledRun)
    ensures
        r == default_run(len),
{
    StyledRun {
        len,
        color: Rgba { r: 0xcc, g: 0xcc, b: 0xcc, a: 0xff },
        background: None,
        bold: false,
        italic: false,
        underline: false,
    }
}

/// One raw segment decoded into a styled run of the given length: the
/// foreground channels become the color, the background is kept only when
/// distinct from the foreground, and the font-flag bits decode to bold (1),
/// underline (2) and italic (4).
pub open spec fn decoded_run(r: RawRun, l: usize) -> StyledRun {
    StyledRun {
        len: l,
        color: rgba_of(r.fg),
        background: if r.bg == r.fg {
            None
        } else {
            Some(rgba_of(r.bg))
        },
        bold: r.font_bits & 1 != 0,
        italic: r.font_bits & 4 != 0,
        underline: r.font_bits & 2 != 0,
    }
}

/// The runs produced from the raw segments while `remaining` characters of
/// the line are still uncovered: each segment is clamped to what remains,
/// and segments of length zero are dropped.
pub open spec fn clipped_runs(raw: Seq<RawRun>, remaining: int) -> Seq<StyledRun>
    decreases raw.len(),
{
    if raw.len() == 0 {
        Seq::empty()
    } else {
        let l = if (raw[0].len as int) < remaining {
            raw[0].len as int
        } else {
            remaining
        };
        if l > 0 {
            seq![decoded_run(raw[0], l as usize)] + clipped_runs(raw.drop_first(), remaining - l)
        } else {
            clipped_runs(raw.drop_first(), remaining - l)
        }
    }
}

/// What remains of the line after the raw segments are clamped in.
pub open spec fn clipped_rest(raw: Seq<RawRun>, remaining: int) -> int
    decreases raw.len(),
{
    if raw.len() == 0 {
        remaining
    } else {
        let l = if (raw[0].len as int) < remaining {
            raw[0].len as int
        } else {
            remaining
        };
        clipped_rest(raw.drop_first(), remaining - l)
    }
}

/// What fitting the raw segments to a line of `total` characters yields:
/// the clamped, decoded segments, with a default-styled tail run covering
/// any shortfall, and a single default run for a line no segment covered.
pub open spec fn spec_fit_runs(raw: Seq<RawRun>, total: int) -> Seq<StyledRun> {
    let rs = clipped_runs(raw, total);
    let rest = clipped_rest(raw, total);
    if rest > 0 || rs.len() == 0 {
        rs.push(default_run(rest as usize))
    } else {
        rs
    }
}

/// Appending one raw segment appends its decoded run (when anything of the
/// line remains for it) and consumes that much of the remainder.
proof fn lemma_clipped_push(raw: Seq<RawRun>, r: RawRun, remaining: int)
    ensures
        ({
            let rest = clipped_rest(raw, remaining);
            let l = if (r.len as int) < rest {
                r.len as int
            } else {
                rest
            };
            &&& clipped_runs(raw.push(r), remaining) == (if l > 0 {
                clipped_runs(raw, remaining).push(decoded_run(r, l as usize))
            } else {
                clipped_runs(raw, remaining)
            })
            &&& clipped_rest(raw.push(r), remaining) == rest - l
        }),
    decreases raw.len(),
{
    let t = raw.push(r);
    if raw.len() == 0 {
        assert(t[0] == r);
        assert(t.drop_first() =~= Seq::<RawRun>::empty());
        let rest = clipped_rest(raw, remaining);
        let l = if (r.len as int) < rest {
            r.len as int
        } else {
            rest
        };
        assert(rest == remaining);
        assert(clipped_runs(raw, remaining) == Seq::<StyledRun>::empty());
        assert(clipped_runs(Seq::<RawRun>::empty(), remaining - l) == Seq::<StyledRun>::empty());
        assert(clipped_rest(Seq::<RawRun>::empty(), remaining - l) == remaining - l);
        if l > 0 {
            assert(clipped_runs(t, remaining) =~= clipped_runs(raw, remaining).push(
                decoded_run(r, l as usize),
            ));
        }
        assert(clipped_rest(t, remaining) == rest - l);
    } else {
        assert(t[0] == raw[0]);
        assert(t.drop_first() =~= raw.drop_first().push(r));
        let l0 = if (raw[0].len as int) < remaining {
            raw[0].len as int
        } else {
            remaining
        };
        lemma_clipped_push(raw.drop_first(), r, remaining - l0);
        let rest = clipped_rest(raw, remaining);
        assert(rest == clipped_rest(raw.drop_first(), remaining - l0));
        let l = if (r.len as int) < rest {
            r.len as int
        } else {
            rest
        };
        assert(clipped_rest(t, remaining) == clipped_rest(
            raw.drop_first().push(r),
            remaining - l0,
        ));
        if l > 0 {
            assert(clipped_runs(raw.drop_first().push(r), remaining - l0) == clipped_runs(
                raw.drop_first(),
                remaining - l0,
            ).push(decoded_run(r, l as usize)));
            if l0 > 0 {
                assert(clipped_runs(t, remaining) =~= clipped_runs(raw, remaining).push(
                    decoded_run(r, l as usize),
                ));
            } else {
                assert(clipped_runs(t, remaining) == clipped_runs(
                    raw.drop_first().push(r),
                    remaining - l0,
                ));
                assert(clipped_runs(raw, remaining) == clipped_runs(
                    raw.drop_first(),
                    remaining - l0,
                ));
            }
        } else {
            assert(clipped_runs(raw.drop_first().push(r), remaining - l0) == clipped_runs(
                raw.drop_first(),
                remaining - l0,
            ));
        }
    }
}

/// Fit syntect's raw segments to the line length, exactly as
/// `spec_fit_runs` spells it: runs keep their order and styles, zero-length
/// segments are dropped, the total never exceeds the line, and any
/// shortfall is covered by a default-styled tail run — so the run lengths
/// always sum exactly to the line length, whatever came back.
pub fn fit_runs(raw: &Vec<RawRun>, total: usize) -> (runs: Vec<StyledRun>)
    ensures
        runs@ == spec_fit_runs(raw@, total as int),
        runs@.len() >= 1,
        sum_run_lens(runs@) == total,
{
    let mut runs: Vec<StyledRun> = Vec::new();
    let mut remaining = total;
    let mut i: usize = 0;
    proof {
        assert(raw@.take(0) =~= Seq::<RawRun>::empty());
    }
    while i < raw.len()
        invariant
            i <= raw@.len(),
            remaining <= total,
            sum_run_lens(runs@) == total - remaining,
            runs@ == clipped_runs(raw@.take(i as int), total as int),
            remaining as int == clipped_rest(raw@.take(i as int), total as int),
        decreases raw@.len() - i,
    {
        let r = &raw[i];
        let l = if r.len < remaining {
            r.len
        } else {
            remaining
        };
        proof {
            lemma_clipped_push(raw@.take(i as int), raw@[i as int], total as int);
            assert(raw@.take(i + 1) =~= raw@.take(i as int).push(raw@[i as int]));
        }
        if l > 0 {
            let same_bg = r.bg.0 == r.fg.0 && r.bg.1 == r.fg.1 && r.bg.2 == r.fg.2 && r.bg.3
                == r.fg.3;
            let run = StyledRun {
                len: l,
                color: Rgba { r: r.fg.0, g: r.fg.1, b: r.fg.2, a: r.fg.3 },
                background: if same_bg {
                    None
                } else {
                    Some(Rgba { r: r.bg.0, g: r.bg.1, b: r.bg.2, a: r.bg.3 })
                },
                bold: r.font_bits & 1 != 0,
                italic: r.font_bits & 4 != 0,
                underline: r.font_bits & 2 != 0,
            };
            proof {
                assert(same_bg == (raw@[i as int].bg == raw@[i as int].fg));
                assert(run == decoded_run(raw@[i as int], l));
            }
            let ghost prev = runs@;
            runs.push(run);
            remaining = remaining - l;
            proof {
                assert(runs@.drop_last() =~= prev);
            }
        }
        i = i + 1;
    }
    proof {
        assert(raw@.take(raw@.len() as int) =~= raw@);
    }
    if remaining > 0 || runs.len() == 0 {
        let ghost prev = runs@;
        runs.push(make_default_run(remaining));
        proof {
            assert(runs@.drop_last() =~= prev);
        }
    }
    runs
}

// ---- the highlighter itself ----

/// The per-line state cache: entry n holds the states as they existed at the
/// start of line n, for the cached language (lexer) and the current theme
/// (colorizer).
struct HighlightCache {
    language: String,
    lex: Vec<Option<syntect::parsing::ParseState>>,
    color: Vec<Option<syntect::highlighting::HighlightState>>,
}

pub struct SyntaxHighlighter {
    syntaxes: DefaultSyntaxes,
    themes: DefaultThemes,
    current_theme: String,
    cache: HighlightCache,
}

/// Whether highlighting line `n` must fall back to fresh states: some line
/// above `n` was edited (or the language switched) and the states cached at
/// the start of `n` are gone.
pub open spec fn miss_spec(h: SyntaxHighlighter, language: Seq<char>, n: int) -> bool {
    n > 0 && !(h.cache_language() == language && n < h.lex_states().len() && h.lex_states()[n]
        is Some && n < h.color_states().len() && h.color_states()[n] is Some)
}

/// Pointwise preservation of the entries at or before index `n` gives
/// equality of the clamped prefixes.
proof fn lemma_take_prefix<T>(before: Seq<T>, after: Seq<T>, n: int)
    requires
        n >= 0,
        ({
            let k0 = if n + 1 <= before.len() {
                n + 1
            } else {
                before.len() as int
            };
            k0 <= after.len()
        }),
        forall|k: int| #![trigger before[k]]
            0 <= k <= n && k < before.len() ==> after[k] == before[k],
    ensures
        ({
            let k0 = if n + 1 <= before.len() {
                n + 1
            } else {
                before.len() as int
            };
            after.take(k0) == before.take(k0)
        }),
{
    let k0 = if n + 1 <= before.len() {
        n + 1
    } else {
        before.len() as int
    };
    assert forall|t: int| 0 <= t < k0 implies after[t] == before[t] by {
        assert(0 <= t <= n && t < before.len());
        assert(before[t] == before[t]);
    }
    assert(after.take(k0) =~= before.take(k0));
}

impl SyntaxHighlighter {
    /// The name of the active theme.
    pub closed spec fn theme(&self) -> Seq<char> {
        self.current_theme@
    }

    /// The language whose states the cache holds.
    pub closed spec fn cache_language(&self) -> Seq<char> {
        self.cache.language@
    }

    /// The cached lexer states; entry n belongs to the start of line n.
    pub closed spec fn lex_states(&self) -> Seq<Option<syntect::parsing::ParseState>> {
        self.cache.lex@
    }

    /// The cached colorizer states; entry n belongs to the start of line n.
    pub closed spec fn color_states(&self) -> Seq<Option<syntect::highlighting::HighlightState>> {
        self.cache.color@
    }

    pub fn new() -> (r: Self)
        ensures
            r.theme() == "Monokai"@,
            r.cache_language() == Seq::<char>::empty(),
            r.lex_states() == Seq::<Option<syntect::parsing::ParseState>>::empty(),
            r.color_states() == Seq::<Option<syntect::highlighting::HighlightState>>::empty(),
    {
        SyntaxHighlighter {
            syntaxes: load_default_syntaxes(),
            themes: load_default_themes(),
            current_theme: String::from_str("Monokai"),
            cache: HighlightCache { language: String::new(), lex: Vec::new(), color: Vec::new() },
        }
    }

    /// Switch the theme, if it is a known one. Cached colorizer states
    /// belong to the old theme and are discarded; lexer states are
    /// theme-independent and stay.
    pub fn set_theme(&mut self, theme_name: &str)
        ensures
            known_theme(theme_name@) ==> {
                &&& final(self).theme() == theme_name@
                &&& final(self).color_states() == Seq::<
                    Option<syntect::highlighting::HighlightState>,
                >::empty()
                &&& final(self).lex_states() == old(self).lex_states()
                &&& final(self).cache_language() == old(self).cache_language()
            },
            !known_theme(theme_name@) ==> *final(self) == *old(self),
    {
        if theme_exists(&self.themes, theme_name) {
            self.current_theme = String::from_str(theme_name);
            self.cache.color.clear();
        }
    }

    /// The names of the bundled themes: every returned name is a known
    /// theme, and every known theme is in the list.
    pub fn available_themes(&self) -> (r: Vec<String>)
        ensures
            forall|i: int| 0 <= i < r@.len() ==> known_theme(r@[i]@),
            forall|n: Seq<char>|
                known_theme(n) ==> exists|i: int| 0 <= i < r@.len() && r@[i]@ == n,
    {
        theme_names_of(&self.themes)
    }

    /// The language detected for this text: the file-extension hint wins;
    /// otherwise the first line decides.
    pub fn detect_language(&self, text: &str, file_extension: Option<&str>) -> (r: Option<String>)
        ensures
            ({
                let ext_hit = match file_extension {
                    Some(e) => language_for_extension(e@),
                    None => None,
                };
                match r {
                    Some(s) => ext_hit == Some(s@) || (ext_hit is None && language_for_first_line(
                        text@,
                    ) == Some(s@)),
                    None => ext_hit is None && language_for_first_line(text@) is None,
                }
            }),
    {
        if let Some(ext) = file_extension {
            if let Some(name) = syntax_name_for_extension(&self.syntaxes, ext) {
                return Some(name);
            }
        }
        syntax_name_for_first_line(&self.syntaxes, text)
    }

    /// Discard every cached state at or after this row; what stands before
    /// it is untouched.
    pub fn invalidate_from(&mut self, row: usize)
        ensures
            final(self).lex_states() == (if row as int <= old(self).lex_states().len() {
                old(self).lex_states().take(row as int)
            } else {
                old(self).lex_states()
            }),
            final(self).color_states() == (if row as int <= old(self).color_states().len() {
                old(self).color_states().take(row as int)
            } else {
                old(self).color_states()
            }),
            final(self).theme() == old(self).theme(),
            final(self).cache_language() == old(self).cache_language(),
    {
        self.cache.lex.truncate(row);
        self.cache.color.truncate(row);
        proof {
            if row as int <= old(self).lex_states().len() {
                assert(final(self).lex_states() =~= old(self).lex_states().take(row as int));
            }
            if row as int <= old(self).color_states().len() {
                assert(final(self).color_states() =~= old(self).color_states().take(row as int));
            }
        }
    }

    /// Discard the cached colorizer states (after a theme change); lexer
    /// states are theme-independent and stay.
    pub fn invalidate_theme(&mut self)
        ensures
            final(self).color_states() == Seq::<
                Option<syntect::highlighting::HighlightState>,
            >::empty(),
            final(self).lex_states() == old(self).lex_states(),
            final(self).theme() == old(self).theme(),
            final(self).cache_language() == old(self).cache_language(),
    {
        self.cache.color.clear();
    }

    /// Discard every cached state (after a language change or a bulk content
    /// replacement).
    pub fn invalidate_language(&mut self)
        ensures
            final(self).lex_states() == Seq::<Option<syntect::parsing::ParseState>>::empty(),
            final(self).color_states() == Seq::<
                Option<syntect::highlighting::HighlightState>,
            >::empty(),
            final(self).cache_language() == Seq::<char>::empty(),
            final(self).theme() == old(self).theme(),
    {
        self.cache.lex.clear();
        self.cache.color.clear();
        self.cache.language = String::new();
    }

    /// Store a lexer state as the state at the start of line `idx`.
    fn store_lex(&mut self, idx: usize, st: syntect::parsing::ParseState)
        requires
            idx < usize::MAX,
        ensures
            final(self).lex_states().len() == (if idx + 1 > old(self).lex_states().len() {
                idx + 1
            } else {
                old(self).lex_states().len() as int
            }),
            forall|k: int|
                0 <= k < final(self).lex_states().len() ==> final(self).lex_states()[k] == (if k
                    == idx {
                    Some(st)
                } else if k < old(self).lex_states().len() {
                    old(self).lex_states()[k]
                } else {
                    None::<syntect::parsing::ParseState>
                }),
            final(self).color_states() == old(self).color_states(),
            final(self).theme() == old(self).theme(),
            final(self).cache_language() == old(self).cache_language(),
    {
        let ghost orig = self.cache.lex@;
        while self.cache.lex.len() < idx + 1
            invariant
                idx < usize::MAX,
                self.cache.lex@.len() >= orig.len() || self.cache.lex@.len() <= idx + 1,
                orig.len() <= self.cache.lex@.len() || self.cache.lex@ == orig,
                self.cache.lex@.take(orig.len() as int) == orig || self.cache.lex@ == orig,
                forall|k: int|
                    orig.len() <= k < self.cache.lex@.len() ==> self.cache.lex@[k] == None::<
                        syntect::parsing::ParseState,
                    >,
                self.cache.lex@.len() <= idx + 1 || self.cache.lex@ == orig,
                self.cache.color@ == old(self).cache.color@,
                self.cache.language == old(self).cache.language,
                self.current_theme == old(self).current_theme,
                self.syntaxes == old(self).syntaxes,
                self.themes == old(self).themes,
            decreases idx + 1 - self.cache.lex@.len(),
        {
            self.cache.lex.push(None);
        }
        self.cache.lex[idx] = Some(st);
    }

    /// Store a colorizer state as the state at the start of line `idx`.
    fn store_color(&mut self, idx: usize, st: syntect::highlighting::HighlightState)
        requires
            idx < usize::MAX,
        ensures
            final(self).color_states().len() == (if idx + 1 > old(self).color_states().len() {
                idx + 1
            } else {
                old(self).color_states().len() as int
            }),
            forall|k: int|
                0 <= k < final(self).color_states().len() ==> final(self).color_states()[k] == (
                if k == idx {
                    Some(st)
                } else if k < old(self).color_states().len() {
                    old(self).color_states()[k]
                } else {
                    None::<syntect::highlighting::HighlightState>
                }),
            final(self).lex_states() == old(self).lex_states(),
            final(self).theme() == old(self).theme(),
            final(self).cache_language() == old(self).cache_language(),
    {
        let ghost orig = self.cache.color@;
        while self.cache.color.len() < idx + 1
            invariant
                idx < usize::MAX,
                orig.len() <= self.cache.color@.len() || self.cache.color@ == orig,
                self.cache.color@.take(orig.len() as int) == orig || self.cache.color@ == orig,
                forall|k: int|
                    orig.len() <= k < self.cache.color@.len() ==> self.cache.color@[k] == None::<
                        syntect::highlighting::HighlightState,
                    >,
                self.cache.color@.len() <= idx + 1 || self.cache.color@ == orig,
                self.cache.lex@ == old(self).cache.lex@,
                self.cache.language == old(self).cache.language,
                self.current_theme == old(self).current_theme,
                self.syntaxes == old(self).syntaxes,
                self.themes == old(self).themes,
            decreases idx + 1 - self.cache.color@.len(),
        {
            self.cache.color.push(None);
        }
        self.cache.color[idx] = Some(st);
    }

    /// Produce the styled runs for one line, resuming from the cached states
    /// when they are there, and report whether a cache miss forced fresh
    /// states. Whatever syntect reports, the returned run lengths sum to the
    /// line's character length, and nothing cached at or before this line is
    /// touched.
    pub fn highlight_line_info(&mut self, line: &str, language: &str, line_number: usize) -> (res:
        (Vec<StyledRun>, bool))
        requires
            line_number + 1 < usize::MAX,
        ensures
            res.0@.len() >= 1,
            sum_run_lens(res.0@) == line@.len(),
            final(self).theme() == old(self).theme(),
            !known_language(language@) ==> *final(self) == *old(self) && res.0@ == seq![
                default_run(line@.len() as usize),
            ] && res.1 == false,
            known_language(language@) ==> {
                &&& final(self).cache_language() == language@
                &&& res.1 == miss_spec(*old(self), language@, line_number as int)
                &&& (res.0@ == seq![default_run(line@.len() as usize)]
                    || (line_number + 1 < final(self).lex_states().len()
                    && final(self).lex_states()[line_number + 1] is Some
                    && line_number + 1 < final(self).color_states().len()
                    && final(self).color_states()[line_number + 1] is Some))
                &&& (old(self).cache_language() == language@ ==> {
                    &&& forall|k: int|
                        0 <= k <= line_number && k < old(self).lex_states().len()
                            ==> k < final(self).lex_states().len()
                            && final(self).lex_states()[k] == old(self).lex_states()[k]
                    &&& forall|k: int|
                        0 <= k <= line_number && k < old(self).color_states().len()
                            ==> k < final(self).color_states().len()
                            && final(self).color_states()[k] == old(self).color_states()[k]
                    &&& ({
                        let k0 = if line_number + 1 <= old(self).lex_states().len() {
                            line_number + 1
                        } else {
                            old(self).lex_states().len() as int
                        };
                        final(self).lex_states().take(k0) == old(self).lex_states().take(k0)
                    })
                    &&& ({
                        let k0 = if line_number + 1 <= old(self).color_states().len() {
                            line_number + 1
                        } else {
                            old(self).color_states().len() as int
                        };
                        final(self).color_states().take(k0) == old(self).color_states().take(k0)
                    })
                })
            },
    {
        let total = line.unicode_len();
        if !syntax_known(&self.syntaxes, language) {
            let mut runs: Vec<StyledRun> = Vec::new();
            runs.push(make_default_run(total));
            proof {
                lemma_sum_singleton(runs@);
                assert(runs@ =~= seq![default_run(line@.len() as usize)]);
            }
            return (runs, false);
        }
        let n = line_number;
        // Decide hit or miss against the cache as it stands now.
        let lang_matches = self.cache.language == String::from_str(language);
        let mut have_both = false;
        if lang_matches && n > 0 && n < self.cache.lex.len() && n < self.cache.color.len() {
            have_both = self.cache.lex[n].is_some() && self.cache.color[n].is_some();
        }
        let miss = n > 0 && !have_both;
        proof {
            assert(miss == miss_spec(*old(self), language@, line_number as int));
        }
        // A switched language invalidates every cached state.
        if !lang_matches {
            self.cache.lex.clear();
            self.cache.color.clear();
            self.cache.language = String::from_str(language);
        }
        // The states at the start of this line: line 0 always starts fresh;
        // later lines resume from the cache when both states are there.
        let mut ps: syntect::parsing::ParseState;
        let mut hs: syntect::highlighting::HighlightState;
        if n > 0 && have_both {
            ps = match &self.cache.lex[n] {
                Some(p) => p.clone(),
                None => vstd::pervasive::unreached(),
            };
            hs = match &self.cache.color[n] {
                Some(h) => h.clone(),
                None => vstd::pervasive::unreached(),
            };
        } else {
            ps = match fresh_parse_state(&self.syntaxes, language) {
                Some(p) => p,
                None => vstd::pervasive::unreached(),
            };
            hs = match fresh_highlight_state(&self.themes, self.current_theme.as_str()) {
                Some(h) => h,
                None => {
                    // The active theme is not in the bundle: colorizing is
                    // impossible, fall back to one default run.
                    let mut runs: Vec<StyledRun> = Vec::new();
                    runs.push(make_default_run(total));
                    proof {
                        lemma_sum_singleton(runs@);
                        assert(runs@ =~= seq![default_run(line@.len() as usize)]);
                        if old(self).cache_language() == language@ {
                        lemma_take_prefix(
                            old(self).lex_states(),
                            self.lex_states(),
                            line_number as int,
                        );
                        lemma_take_prefix(
                            old(self).color_states(),
                            self.color_states(),
                            line_number as int,
                        );
                    }
                    }
                    return (runs, miss);
                },
            };
        }
        match advance_states(
            &self.syntaxes,
            &self.themes,
            &self.current_theme.as_str(),
            &mut ps,
            &mut hs,
            line,
        ) {
            Some(raw) => {
                let runs = fit_runs(&raw, total);
                // The states now describe the start of the next line.
                self.store_lex(n + 1, ps);
                self.store_color(n + 1, hs);
                proof {
                    if old(self).cache_language() == language@ {
                        lemma_take_prefix(
                            old(self).lex_states(),
                            self.lex_states(),
                            line_number as int,
                        );
                        lemma_take_prefix(
                            old(self).color_states(),
                            self.color_states(),
                            line_number as int,
                        );
                    }
                }
                (runs, miss)
            },
            None => {
                let mut runs: Vec<StyledRun> = Vec::new();
                runs.push(make_default_run(total));
                proof {
                    lemma_sum_singleton(runs@);
                    assert(runs@ =~= seq![default_run(line@.len() as usize)]);
                    if old(self).cache_language() == language@ {
                        lemma_take_prefix(
                            old(self).lex_states(),
                            self.lex_states(),
                            line_number as int,
                        );
                        lemma_take_prefix(
                            old(self).color_states(),
                            self.color_states(),
                            line_number as int,
                        );
                    }
                }
                (runs, miss)
            },
        }
    }

    /// Produce the styled runs for one line of text; see
    /// `highlight_line_info` for the cache behaviour.
    pub fn highlight_line(&mut self, line: &str, language: &str, line_number: usize) -> (runs: Vec<
        StyledRun,
    >)
        requires
            line_number + 1 < usize::MAX,
        ensures
            runs@.len() >= 1,
            sum_run_lens(runs@) == line@.len(),
            final(self).theme() == old(self).theme(),
            !known_language(language@) ==> *final(self) == *old(self) && runs@ == seq![
                default_run(line@.len() as usize),
            ],
            known_language(language@) ==> final(self).cache_language() == language@,
            known_language(language@) ==> (runs@ == seq![default_run(line@.len() as usize)]
                || (line_number + 1 < final(self).lex_states().len()
                && final(self).lex_states()[line_number + 1] is Some
                && line_number + 1 < final(self).color_states().len()
                && final(self).color_states()[line_number + 1] is Some)),
    {
        let (runs, _) = self.highlight_line_info(line, language, line_number);
        runs
    }

    /// The theme's background color, or the editor's default dark shade when
    /// the theme does not declare one.
    pub fn get_theme_background(&self) -> (c: Rgba)
        ensures
            c == resolved_background(self.theme()),
    {
        match read_theme_background(&self.themes, self.current_theme.as_str()) {
            Some(t) => Rgba { r: t.0, g: t.1, b: t.2, a: t.3 },
            None => Rgba { r: 0x1e, g: 0x1e, b: 0x1e, a: 0xff },
        }
    }

    /// The theme's foreground color, or the default light shade.
    pub fn get_theme_foreground(&self) -> (c: Rgba)
        ensures
            c == resolved_foreground(self.theme()),
    {
        match read_theme_foreground(&self.themes, self.current_theme.as_str()) {
            Some(t) => Rgba { r: t.0, g: t.1, b: t.2, a: t.3 },
            None => Rgba { r: 0xcc, g: 0xcc, b: 0xcc, a: 0xff },
        }
    }

    /// The theme's gutter color; a theme without one gets its background
    /// darkened by five percent, and a theme without either gets the default
    /// gutter shade.
    pub fn get_theme_gutter_background(&self) -> (c: Rgba)
        ensures
            c == resolved_gutter(self.theme()),
    {
        match read_theme_gutter(&self.themes, self.current_theme.as_str()) {
            Some(t) => Rgba { r: t.0, g: t.1, b: t.2, a: t.3 },
            None => {
                match read_theme_background(&self.themes, self.current_theme.as_str()) {
                    Some(t) => darken(Rgba { r: t.0, g: t.1, b: t.2, a: t.3 }),
                    None => Rgba { r: 0x25, g: 0x25, b: 0x25, a: 0xff },
                }
            },
        }
    }

    /// The theme's line-highlight color with its translucency clamped, or
    /// the default.
    pub fn get_theme_line_highlight(&self) -> (c: Rgba)
        ensures
            c == resolved_line_highlight(self.theme()),
    {
        match read_theme_line_highlight(&self.themes, self.current_theme.as_str()) {
            Some(t) => clamp_alpha(Rgba { r: t.0, g: t.1, b: t.2, a: t.3 }, 76),
            None => Rgba { r: 0x2a, g: 0x2a, b: 0x2a, a: 0xff },
        }
    }

    /// The theme's selection color with its translucency clamped, or the
    /// default.
    pub fn get_theme_selection(&self) -> (c: Rgba)
        ensures
            c == resolved_selection(self.theme()),
    {
        match read_theme_selection(&self.themes, self.current_theme.as_str()) {
            Some(t) => clamp_alpha(Rgba { r: t.0, g: t.1, b: t.2, a: t.3 }, 127),
            None => Rgba { r: 0x3e, g: 0x44, b: 0x51, a: 0xaa },
        }
    }
}

/// A color darkened by five percent on each channel.
pub open spec fn spec_darken(c: Rgba) -> Rgba {
    Rgba {
        r: ((c.r as int) * 95 / 100) as u8,
        g: ((c.g as int) * 95 / 100) as u8,
        b: ((c.b as int) * 95 / 100) as u8,
        a: c.a,
    }
}

fn darken(c: Rgba) -> (r: Rgba)
    ensures
        r == spec_darken(c),
{
    Rgba {
        r: ((c.r as u32) * 95 / 100) as u8,
        g: ((c.g as u32) * 95 / 100) as u8,
        b: ((c.b as u32) * 95 / 100) as u8,
        a: c.a,
    }
}

/// A color whose alpha is clamped to at most `max`.
pub open spec fn spec_clamp_alpha(c: Rgba, max: u8) -> Rgba {
    Rgba {
        r: c.r,
        g: c.g,
        b: c.b,
        a: if c.a > max {
            max
        } else {
            c.a
        },
    }
}

fn clamp_alpha(c: Rgba, max: u8) -> (r: Rgba)
    ensures
        r == spec_clamp_alpha(c, max),
{
    Rgba {
        r: c.r,
        g: c.g,
        b: c.b,
        a: if c.a > max {
            max
        } else {
            c.a
        },
    }
}

/// What the background palette query answers for a theme of this name.
pub open spec fn resolved_background(theme: Seq<char>) -> Rgba {
    match theme_background_of(theme) {
        Some(t) => rgba_of(t),
        None => Rgba { r: 0x1e, g: 0x1e, b: 0x1e, a: 0xff },
    }
}

/// What the foreground palette query answers.
pub open spec fn resolved_foreground(theme: Seq<char>) -> Rgba {
    match theme_foreground_of(theme) {
        Some(t) => rgba_of(t),
        None => default_color(),
    }
}

/// What the gutter palette query answers: the declared gutter color, else
/// the background darkened, else the default gutter shade.
pub open spec fn resolved_gutter(theme: Seq<char>) -> Rgba {
    match theme_gutter_of(theme) {
        Some(t) => rgba_of(t),
        None => match theme_background_of(theme) {
            Some(t) => spec_darken(rgba_of(t)),
            None => Rgba { r: 0x25, g: 0x25, b: 0x25, a: 0xff },
        },
    }
}

/// What the line-highlight palette query answers: translucency clamped.
pub open spec fn resolved_line_highlight(theme: Seq<char>) -> Rgba {
    match theme_line_highlight_of(theme) {
        Some(t) => spec_clamp_alpha(rgba_of(t), 76),
        None => Rgba { r: 0x2a, g: 0x2a, b: 0x2a, a: 0xff },
    }
}

/// The relation between a highlighter before and after discarding every
/// cached state at or after `row`.
pub open spec fn invalidated_from(before: SyntaxHighlighter, after: SyntaxHighlighter, row: int) -> bool {
    &&& after.lex_states() == (if row <= before.lex_states().len() {
        before.lex_states().take(row)
    } else {
        before.lex_states()
    })
    &&& after.color_states() == (if row <= before.color_states().len() {
        before.color_states().take(row)
    } else {
        before.color_states()
    })
    &&& after.theme() == before.theme()
    &&& after.cache_language() == before.cache_language()
}

/// What the selection palette query answers: translucency clamped.
pub open spec fn resolved_selection(theme: Seq<char>) -> Rgba {
    match theme_selection_of(theme) {
        Some(t) => spec_clamp_alpha(rgba_of(t), 127),
        None => Rgba { r: 0x3e, g: 0x44, b: 0x51, a: 0xaa },
    }
}

} // verus!
