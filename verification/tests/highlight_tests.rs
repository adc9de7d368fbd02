use kokona::highlight::{extension_query, EditorState, DEBOUNCE_MS};

fn concat(spans: &[kokona::highlight::HighlightSpan]) -> String {
    let mut s = String::new();
    for sp in spans {
        s.push_str(&sp.text);
    }
    s
}

fn big_buffer(tag: &str) -> String {
    // Well over the 500-line threshold.
    let mut t = String::new();
    for i in 0..600 {
        t.push_str(&format!("let x{} = {}; // {}\n", i, i, tag));
    }
    t
}

#[test]
fn spans_concatenate_to_the_buffer() {
    let mut e = EditorState::new();
    e.set_syntax_for_extension("main.rs");
    let text = "pub struct Wow { hi: u64 }\nfn blah() -> u64 { 42 }\n";
    let spans = e.get_or_update_highlights(text, 0).clone();
    assert_eq!(concat(&spans), text);
}

#[test]
fn recognized_grammar_yields_colored_spans() {
    let mut e = EditorState::new();
    e.set_syntax_for_extension("main.rs");
    assert!(e.has_grammar());
    let text = "pub fn main() { let x = 1; }\n";
    let spans = e.get_or_update_highlights(text, 0).clone();
    assert!(spans.len() > 1);
    assert!(spans.iter().any(|s| s.color.is_some()));
    assert_eq!(concat(&spans), text);
}

#[test]
fn unrecognized_extension_yields_one_default_span() {
    let mut e = EditorState::new();
    e.set_syntax_for_extension("notes.zzzqqq");
    assert!(!e.has_grammar());
    let text = "pub fn main() { let x = 1; }\nmore\n";
    let spans = e.get_or_update_highlights(text, 0).clone();
    assert_eq!(spans.len(), 1);
    assert!(spans[0].color.is_none());
    assert_eq!(spans[0].text, text);
}

#[test]
fn empty_buffer_with_grammar_yields_no_spans() {
    let mut e = EditorState::new();
    e.set_syntax_for_extension("main.rs");
    let spans = e.get_or_update_highlights("", 0).clone();
    assert_eq!(concat(&spans), "");
}

#[test]
fn large_buffer_defers_tokenization_until_stable() {
    let mut e = EditorState::new();
    e.set_syntax_for_extension("main.rs");
    let t1 = big_buffer("a");
    let spans = e.get_or_update_highlights(&t1, 1_000).clone();
    assert_eq!(spans.len(), 1);
    assert!(spans[0].color.is_none());
    assert_eq!(spans[0].text, t1);
    assert!(e.is_dirty());

    // An edit within the debounce interval keeps the single unstyled span.
    let t2 = big_buffer("b");
    let spans = e.get_or_update_highlights(&t2, 1_100).clone();
    assert_eq!(spans.len(), 1);
    assert!(spans[0].color.is_none());
    assert_eq!(spans[0].text, t2);
    assert!(e.is_dirty());

    // A read before the interval has elapsed still returns the plain span.
    let spans = e.get_or_update_highlights(&t2, 1_100 + DEBOUNCE_MS - 1).clone();
    assert_eq!(spans.len(), 1);
    assert!(e.is_dirty());

    // Once the buffer has been stable for the full interval, one
    // recomputation occurs and colored spans appear.
    let spans = e.get_or_update_highlights(&t2, 1_100 + DEBOUNCE_MS).clone();
    assert!(!e.is_dirty());
    assert!(spans.len() > 1);
    assert!(spans.iter().any(|s| s.color.is_some()));
    assert_eq!(concat(&spans), t2);
}

#[test]
fn unchanged_buffer_is_a_pure_read() {
    let mut e = EditorState::new();
    e.set_syntax_for_extension("main.rs");
    let text = "fn f() {}\n";
    let first = e.get_or_update_highlights(text, 0).clone();
    let second = e.get_or_update_highlights(text, 10_000).clone();
    assert_eq!(first.len(), second.len());
    assert_eq!(concat(&first), concat(&second));
}

#[test]
fn forced_update_bypasses_debounce() {
    let mut e = EditorState::new();
    e.set_syntax_for_extension("main.rs");
    let t = big_buffer("c");
    let spans = e.get_or_update_highlights(&t, 0).clone();
    assert_eq!(spans.len(), 1);
    assert!(e.is_dirty());
    e.force_highlight_update();
    assert!(!e.is_dirty());
}

#[test]
fn invalidate_cache_forgets_the_buffer() {
    let mut e = EditorState::new();
    e.set_syntax_for_extension("main.rs");
    let text = "fn f() {}\n";
    let _ = e.get_or_update_highlights(text, 0);
    e.invalidate_cache();
    let spans = e.get_or_update_highlights(text, 0).clone();
    assert_eq!(concat(&spans), text);
}

#[test]
fn threshold_boundary_decides_deferral() {
    // Exactly 500 lines: tokenized synchronously.
    let mut e = EditorState::new();
    e.set_syntax_for_extension("x.rs");
    let mut small = "fn f() {}\n".repeat(499);
    small.push_str("fn g() {}");
    let spans = e.get_or_update_highlights(&small, 0).clone();
    assert!(!e.is_dirty());
    assert!(spans.len() > 1);

    // One newline more: deferred.
    let big = "fn f() {}\n".repeat(500);
    let spans = e.get_or_update_highlights(&big, 0).clone();
    assert!(e.is_dirty());
    assert_eq!(spans.len(), 1);
    assert!(spans[0].color.is_none());
}

#[test]
fn extension_query_takes_last_dot_of_base_name() {
    assert_eq!(extension_query("dir/a.rs"), "rs");
    assert_eq!(extension_query("a.tar.gz"), "gz");
    assert_eq!(extension_query("noext"), "noext");
    assert_eq!(extension_query(".bashrc"), ".bashrc");
    assert_eq!(extension_query("dir.d/noext"), "noext");
    assert_eq!(extension_query(""), "");
}

#[test]
fn grammar_lookup_survives_malformed_input() {
    let mut e = EditorState::new();
    e.set_syntax_for_extension("x.rs");
    let text = "\u{0}\u{1}binary\u{ff}junk\nmore\u{7f}\n";
    let spans = e.get_or_update_highlights(text, 0).clone();
    assert_eq!(concat(&spans), text);
}
