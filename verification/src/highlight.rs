//! Incremental syntax-highlight cache.
//!
//! The engine tokenizes a text buffer into styled spans using a grammar
//! selected by file extension.  Results are cached against the exact buffer
//! they were computed from, and the invariant that matters to every consumer
//! holds on every path: concatenating the `text` of the cached spans
//! reproduces the cached buffer exactly.
//!
//! Large buffers are not re-tokenized on every edit.  An edit to a buffer
//! over [`LINE_THRESHOLD`] lines installs a single unstyled span covering the
//! whole new buffer and marks the cache dirty; a later read, once the buffer
//! has been stable for [`DEBOUNCE_MS`] milliseconds, re-tokenizes.  The
//! caller passes the current monotonic time in milliseconds to each read.

use crate::strutil::{
    concat_seqs, count_char_in, last_pos, lemma_split_lines_concat, line_count, split_lines,
    split_lines_exec, views_of,
};
use syntect::easy::HighlightLines;
use syntect::highlighting::Theme;
use syntect::highlighting::ThemeSet;
use syntect::parsing::SyntaxReference;
use syntect::parsing::SyntaxSet;
use vstd::prelude::*;

verus! {

/// A buffer whose line count exceeds this is tokenized only after a pause.
pub const LINE_THRESHOLD: usize = 500;

/// How long, in milliseconds, a large buffer must be stable before it is
/// re-tokenized.
pub const DEBOUNCE_MS: u64 = 500;

/// syntect's grammar collection, opaque to verification.
#[verifier::external_type_specification]
#[verifier::external_body]
pub struct ExSyntaxSet(SyntaxSet);

/// One syntect grammar, opaque to verification.
#[verifier::external_type_specification]
#[verifier::external_body]
pub struct ExSyntaxReference(SyntaxReference);

/// A syntect color theme, opaque to verification.
#[verifier::external_type_specification]
#[verifier::external_body]
pub struct ExTheme(Theme);

/// syntect's stateful line tokenizer, opaque to verification.
#[verifier::external_type_specification]
#[verifier::external_body]
pub struct ExHighlightLines<'a>(HighlightLines<'a>);

/// A foreground color as independent red, green and blue channels.
#[derive(Clone, Copy, PartialEq, Eq, Structural, Debug)]
pub struct Rgb {
    pub r: u8,
    pub g: u8,
    pub b: u8,
}

/// One run of text sharing a single visual style; `color` is `None` for
/// default (unstyled) text.
#[derive(Debug, Clone)]
pub struct HighlightSpan {
    pub color: Option<Rgb>,
    pub text: String,
}

/// Concatenation of the `text` fields of a sequence of spans.
pub open spec fn spans_text(spans: Seq<HighlightSpan>) -> Seq<char>
    decreases spans.len(),
{
    if spans.len() == 0 {
        Seq::empty()
    } else {
        spans_text(spans.drop_last()) + spans.last().text@
    }
}

/// Appending a span extends the concatenated text by that span's text.
pub proof fn lemma_spans_text_push(xs: Seq<HighlightSpan>, y: HighlightSpan)
    ensures
        spans_text(xs.push(y)) =~= spans_text(xs) + y.text@,
{
    assert(xs.push(y).drop_last() =~= xs);
}

/// True when `spans` is exactly one unstyled span holding `t`.
pub open spec fn is_single_plain_span(spans: Seq<HighlightSpan>, t: Seq<char>) -> bool {
    spans.len() == 1 && spans[0].color is None && spans[0].text@ == t
}

/// Relies on syntect::parsing::SyntaxSet::load_defaults_newlines: loads the
/// grammar set bundled with syntect, whose tokenizers expect lines with
/// trailing newlines.
#[verifier::external_body]
fn load_default_syntaxes() -> SyntaxSet {
    SyntaxSet::load_defaults_newlines()
}

/// Relies on syntect::highlighting::ThemeSet::load_defaults: looks the named
/// theme up among the bundled ones, falling back to an empty theme when the
/// name is unknown.
#[verifier::external_body]
fn load_theme_by_name(name: &str) -> Theme {
    let ts = ThemeSet::load_defaults();
    match ts.themes.get(name) {
        Some(t) => t.clone(),
        None => Theme::default(),
    }
}

/// Relies on syntect::parsing::SyntaxSet::find_syntax_by_extension: a pure
/// case-insensitive lookup of a grammar by file extension, `None` when no
/// grammar lists the extension.
#[verifier::external_body]
fn lookup_syntax(ps: &SyntaxSet, extension: &str) -> Option<SyntaxReference> {
    ps.find_syntax_by_extension(extension).cloned()
}

/// Relies on syntect::easy::HighlightLines::new: a fresh line tokenizer for
/// one grammar and theme.
#[verifier::external_body]
fn new_highlight_lines<'a>(syntax: &SyntaxReference, theme: &'a Theme) -> HighlightLines<'a> {
    HighlightLines::new(syntax, theme)
}

/// Relies on syntect::easy::HighlightLines::highlight_line: tokenizes one
/// line, advancing the tokenizer's internal parse state; `None` when the
/// tokenizer rejects the line.  Nothing is assumed about the returned pieces;
/// callers check them.
#[verifier::external_body]
fn highlight_one_line(
    h: &mut HighlightLines<'_>,
    line: &str,
    ps: &SyntaxSet,
) -> Option<Vec<HighlightSpan>> {
    match h.highlight_line(line, ps) {
        Ok(v) => Some(v.into_iter().map(|(st, s)| HighlightSpan {
            color: Some(Rgb { r: st.foreground.r, g: st.foreground.g, b: st.foreground.b }),
            text: s.to_string(),
        }).collect()),
        Err(_) => None,
    }
}

/// The extension-like query used to pick a grammar for `s`: the part of the
/// file name (after any directory prefix) that follows its last `'.'`, or the
/// whole file name when it has no `'.'` past its first character.
pub open spec fn spec_extension_query(s: Seq<char>) -> Seq<char> {
    let base = last_pos(s, '/') + 1;
    let dot = last_pos(s, '.');
    if dot > base {
        s.subrange(dot + 1, s.len() as int)
    } else {
        s.subrange(base, s.len() as int)
    }
}

/// Extracts the extension-like grammar query from a file name.
pub fn extension_query(filename: &str) -> (r: String)
    ensures
        r@ =~= spec_extension_query(filename@),
{
    let n: usize = filename.unicode_len();
    // `bs` is one past the last '/': the start of the base name.
    // `dp` is one past the last '.', or 0 when none was seen.
    let mut bs: usize = 0;
    let mut dp: usize = 0;
    let mut i: usize = 0;
    proof {
        crate::strutil::lemma_last_pos_bounds(filename@, '/');
        crate::strutil::lemma_last_pos_bounds(filename@, '.');
    }
    while i < n
        invariant
            0 <= i <= n,
            n == filename@.len(),
            bs == last_pos(filename@.take(i as int), '/') + 1,
            dp == last_pos(filename@.take(i as int), '.') + 1,
            bs <= i,
            dp <= i,
        decreases n - i,
    {
        let c = filename.get_char(i);
        proof {
            assert(filename@.take(i as int + 1).drop_last() =~= filename@.take(i as int));
        }
        if c == '/' {
            bs = i + 1;
        }
        if c == '.' {
            dp = i + 1;
        }
        i += 1;
    }
    proof {
        assert(filename@.take(n as int) =~= filename@);
    }
    if dp >= 1 && dp - 1 > bs {
        filename.substring_char(dp, n).to_owned()
    } else {
        filename.substring_char(bs, n).to_owned()
    }
}

/// Copies one span.
fn clone_span(s: &HighlightSpan) -> (r: HighlightSpan)
    ensures
        r.color == s.color,
        r.text@ == s.text@,
{
    HighlightSpan { color: s.color, text: s.text.clone() }
}

/// A single unstyled span covering `t`.
fn plain_span_of(t: &str) -> (r: Vec<HighlightSpan>)
    ensures
        is_single_plain_span(r@, t@),
        spans_text(r@) =~= t@,
{
    let mut r: Vec<HighlightSpan> = Vec::new();
    let ghost before = r@;
    r.push(HighlightSpan { color: None, text: t.to_owned() });
    proof {
        lemma_spans_text_push(before, r@.last());
    }
    r
}

/// True when the `text` fields of `pieces` concatenate exactly to `line`.
fn pieces_cover_line(pieces: &Vec<HighlightSpan>, line: &str) -> (r: bool)
    ensures
        r == (spans_text(pieces@) == line@),
{
    let mut joined = String::new();
    let mut k: usize = 0;
    while k < pieces.len()
        invariant
            0 <= k <= pieces@.len(),
            joined@ =~= spans_text(pieces@.take(k as int)),
        decreases pieces@.len() - k,
    {
        proof {
            assert(pieces@.take(k as int + 1).drop_last() =~= pieces@.take(k as int));
        }
        joined.append(pieces[k].text.as_str());
        k += 1;
    }
    proof {
        assert(pieces@.take(pieces@.len() as int) =~= pieces@);
    }
    let line_owned = line.to_owned();
    let eq = joined == line_owned;
    proof {
        if joined@ == line@ {
            assert(spans_text(pieces@) == line@);
        }
    }
    eq
}

/// Tokenizes `text` line by line with the given grammar, producing spans
/// whose concatenated `text` reproduces `text` exactly.  A line the
/// tokenizer rejects, or covers incorrectly, becomes a single unstyled span.
/// With no grammar the whole buffer is one unstyled span.
fn tokenize_text(
    ps: &SyntaxSet,
    syntax: &Option<SyntaxReference>,
    theme: &Theme,
    text: &str,
) -> (r: Vec<HighlightSpan>)
    ensures
        spans_text(r@) =~= text@,
        syntax is None ==> is_single_plain_span(r@, text@),
{
    match syntax {
        None => plain_span_of(text),
        Some(syn) => {
            let lines = split_lines_exec(text);
            let mut h = new_highlight_lines(syn, theme);
            let mut spans: Vec<HighlightSpan> = Vec::new();
            let mut j: usize = 0;
            proof {
                lemma_split_lines_concat(text@);
            }
            while j < lines.len()
                invariant
                    0 <= j <= lines@.len(),
                    views_of(lines@) =~= split_lines(text@),
                    spans_text(spans@) =~= concat_seqs(views_of(lines@).take(j as int)),
                decreases lines@.len() - j,
            {
                let line = &lines[j];
                proof {
                    assert(views_of(lines@).take(j as int + 1).drop_last() =~= views_of(
                        lines@,
                    ).take(j as int));
                    assert(views_of(lines@)[j as int] == line@);
                }
                let ghost spans_before = spans@;
                let produced = highlight_one_line(&mut h, line.as_str(), ps);
                match produced {
                    Some(pieces) => {
                        if pieces_cover_line(&pieces, line.as_str()) {
                            let mut k: usize = 0;
                            while k < pieces.len()
                                invariant
                                    0 <= k <= pieces@.len(),
                                    spans_text(pieces@) == line@,
                                    spans_text(spans@) =~= spans_text(spans_before) + spans_text(
                                        pieces@.take(k as int),
                                    ),
                                decreases pieces@.len() - k,
                            {
                                proof {
                                    assert(pieces@.take(k as int + 1).drop_last() =~= pieces@.take(
                                        k as int,
                                    ));
                                }
                                let sp = clone_span(&pieces[k]);
                                let ghost sb = spans@;
                                spans.push(sp);
                                proof {
                                    lemma_spans_text_push(sb, spans@.last());
                                }
                                k += 1;
                            }
                            proof {
                                assert(pieces@.take(pieces@.len() as int) =~= pieces@);
                            }
                        } else {
                            let mut fallback = plain_span_of(line.as_str());
                            let one = fallback.remove(0);
                            let ghost sb = spans@;
                            spans.push(one);
                            proof {
                                lemma_spans_text_push(sb, spans@.last());
                            }
                        }
                    },
                    None => {
                        let mut fallback = plain_span_of(line.as_str());
                        let one = fallback.remove(0);
                        let ghost sb = spans@;
                        spans.push(one);
                        proof {
                            lemma_spans_text_push(sb, spans@.last());
                        }
                    },
                }
                j += 1;
            }
            proof {
                assert(views_of(lines@).take(lines@.len() as int) =~= views_of(lines@));
            }
            spans
        },
    }
}

/// The syntax-highlight cache.
pub struct EditorState {
    ps: SyntaxSet,
    syntax: Option<SyntaxReference>,
    theme: Theme,
    cached_highlights: Vec<HighlightSpan>,
    last_text: String,
    last_update_ms: u64,
    is_typing: bool,
}

impl EditorState {
    /// The cached spans.
    pub closed spec fn spans_view(self) -> Seq<HighlightSpan> {
        self.cached_highlights@
    }

    /// The buffer the cached spans were computed for.
    pub closed spec fn source_view(self) -> Seq<char> {
        self.last_text@
    }

    /// True while a large-buffer re-tokenization is pending.
    pub closed spec fn dirty(self) -> bool {
        self.is_typing
    }

    /// The time, in caller-supplied milliseconds, of the edit that made the
    /// cache dirty.
    pub closed spec fn dirty_since(self) -> u64 {
        self.last_update_ms
    }

    /// True when a grammar is selected.
    pub closed spec fn grammar_set(self) -> bool {
        self.syntax is Some
    }

    /// The cache invariant: the cached spans concatenate to the cached
    /// buffer.
    pub open spec fn wf(self) -> bool {
        spans_text(self.spans_view()) == self.source_view()
    }

    /// A fresh engine: empty cache, no grammar selected.
    pub fn new() -> (s: Self)
        ensures
            s.wf(),
            s.spans_view() =~= Seq::<HighlightSpan>::empty(),
            s.source_view() =~= Seq::<char>::empty(),
            !s.dirty(),
            !s.grammar_set(),
    {
        EditorState {
            ps: load_default_syntaxes(),
            syntax: None,
            theme: load_theme_by_name("base16-ocean.dark"),
            cached_highlights: Vec::new(),
            last_text: String::new(),
            last_update_ms: 0,
            is_typing: false,
        }
    }

    /// Whether a grammar is currently selected.
    pub fn has_grammar(&self) -> (r: bool)
        ensures
            r == self.grammar_set(),
    {
        self.syntax.is_some()
    }

    /// Whether a large-buffer re-tokenization is pending.
    pub fn is_dirty(&self) -> (r: bool)
        ensures
            r == self.dirty(),
    {
        self.is_typing
    }

    /// Selects the grammar for `filename` by its extension; an unknown
    /// extension selects no grammar, which is not an error.  The cache itself
    /// is untouched.
    pub fn set_syntax_for_extension(&mut self, filename: &str)
        ensures
            final(self).wf() == old(self).wf(),
            final(self).spans_view() == old(self).spans_view(),
            final(self).source_view() == old(self).source_view(),
            final(self).dirty() == old(self).dirty(),
            final(self).dirty_since() == old(self).dirty_since(),
    {
        let q = extension_query(filename);
        self.syntax = lookup_syntax(&self.ps, q.as_str());
    }

    /// Returns the spans for `text`, recomputing the cache as needed.
    ///
    /// - When `text` is the buffer the cache was computed for, this is a pure
    ///   read, except that a pending large-buffer re-tokenization runs once
    ///   `text` has been stable for [`DEBOUNCE_MS`] milliseconds.
    /// - An edit to a buffer of more than [`LINE_THRESHOLD`] lines installs a
    ///   single unstyled span over the whole buffer and marks the cache
    ///   dirty, deferring tokenization.
    /// - An edit to a smaller buffer re-tokenizes synchronously.
    ///
    /// On every path the returned spans concatenate exactly to `text`, and a
    /// buffer with no selected grammar yields a single unstyled span.
    pub fn get_or_update_highlights(&mut self, text: &str, now_ms: u64) -> (r: &Vec<
        HighlightSpan,
    >)
        requires
            old(self).wf(),
        ensures
            final(self).wf(),
            r@ == final(self).spans_view(),
            final(self).source_view() == text@,
            spans_text(final(self).spans_view()) == text@,
            final(self).grammar_set() == old(self).grammar_set(),
            // an edit to a large buffer defers tokenization
            (text@ != old(self).source_view() && line_count(text@) > LINE_THRESHOLD) ==> {
                &&& is_single_plain_span(final(self).spans_view(), text@)
                &&& final(self).dirty()
                &&& final(self).dirty_since() == now_ms
            },
            // an edit to a small buffer tokenizes synchronously
            (text@ != old(self).source_view() && line_count(text@) <= LINE_THRESHOLD) ==> {
                &&& !final(self).dirty()
                &&& (!old(self).grammar_set() ==> is_single_plain_span(
                    final(self).spans_view(),
                    text@,
                ))
            },
            // an unchanged buffer before the debounce deadline is a pure read
            (text@ == old(self).source_view() && !(old(self).dirty() && now_ms >= old(
                self,
            ).dirty_since() + DEBOUNCE_MS)) ==> *final(self) == *old(self),
            // an unchanged buffer past the deadline is re-tokenized
            (text@ == old(self).source_view() && old(self).dirty() && now_ms >= old(
                self,
            ).dirty_since() + DEBOUNCE_MS) ==> {
                &&& !final(self).dirty()
                &&& (!old(self).grammar_set() ==> is_single_plain_span(
                    final(self).spans_view(),
                    text@,
                ))
            },
    {
        let changed = !(self.last_text == text.to_owned());
        if changed {
            self.last_text = text.to_owned();
            self.is_typing = true;
            self.last_update_ms = now_ms;
            let nl: usize = count_char_in(text, '\n');
            if nl >= LINE_THRESHOLD {
                self.cached_highlights = plain_span_of(text);
            } else {
                self.cached_highlights = tokenize_text(&self.ps, &self.syntax, &self.theme, text);
                self.is_typing = false;
            }
        } else if self.is_typing && now_ms >= self.last_update_ms && now_ms
            - self.last_update_ms >= DEBOUNCE_MS {
            let pending = self.last_text.clone();
            self.cached_highlights = tokenize_text(
                &self.ps,
                &self.syntax,
                &self.theme,
                pending.as_str(),
            );
            self.is_typing = false;
        }
        &self.cached_highlights
    }

    /// Re-tokenizes the cached buffer immediately, bypassing any pending
    /// debounce; used right after a known-good write of the buffer.
    pub fn force_highlight_update(&mut self)
        ensures
            final(self).wf(),
            final(self).source_view() == old(self).source_view(),
            !final(self).dirty(),
            final(self).grammar_set() == old(self).grammar_set(),
            !old(self).grammar_set() ==> is_single_plain_span(
                final(self).spans_view(),
                old(self).source_view(),
            ),
    {
        self.is_typing = false;
        let pending = self.last_text.clone();
        self.cached_highlights = tokenize_text(
            &self.ps,
            &self.syntax,
            &self.theme,
            pending.as_str(),
        );
    }

    /// Forgets the cached buffer, so that the next read recomputes; used when
    /// external display configuration changes.
    pub fn invalidate_cache(&mut self)
        ensures
            final(self).wf(),
            final(self).source_view() =~= Seq::<char>::empty(),
            final(self).spans_view() =~= Seq::<HighlightSpan>::empty(),
            final(self).grammar_set() == old(self).grammar_set(),
            !final(self).dirty(),
    {
        self.cached_highlights = Vec::new();
        self.last_text = String::new();
        self.is_typing = false;
    }
}

} // verus!
