use kokona::highlight::{HighlightSpan, Rgb};
use kokona::overlay::{merge_search_overlay, Background, OverlaySpan};

fn span(color: Option<Rgb>, text: &str) -> HighlightSpan {
    HighlightSpan { color, text: text.to_string() }
}

fn red() -> Option<Rgb> {
    Some(Rgb { r: 200, g: 0, b: 0 })
}

fn concat(pieces: &[OverlaySpan]) -> String {
    let mut s = String::new();
    for p in pieces {
        s.push_str(&p.text);
    }
    s
}

#[test]
fn unmatched_span_passes_through() {
    let spans = vec![span(red(), "hello")];
    let out = merge_search_overlay(&spans, &vec![], 0);
    assert_eq!(out.len(), 1);
    assert_eq!(out[0].text, "hello");
    assert_eq!(out[0].background, Background::NoHighlight);
    assert_eq!(out[0].color, red());
}

#[test]
fn match_at_end_splits_in_two() {
    let spans = vec![span(red(), "hello world")];
    let out = merge_search_overlay(&spans, &vec![(6, 11)], 0);
    assert_eq!(out.len(), 2);
    assert_eq!(out[0].text, "hello ");
    assert_eq!(out[0].background, Background::NoHighlight);
    assert_eq!(out[1].text, "world");
    assert_eq!(out[1].background, Background::CurrentMatch);
    assert_eq!(out[1].color, red());
    assert_eq!(concat(&out), "hello world");
}

#[test]
fn match_in_middle_splits_in_three() {
    let spans = vec![span(None, "abcdef")];
    let out = merge_search_overlay(&spans, &vec![(2, 4)], 0);
    let texts: Vec<&str> = out.iter().map(|p| p.text.as_str()).collect();
    assert_eq!(texts, vec!["ab", "cd", "ef"]);
    assert_eq!(out[0].background, Background::NoHighlight);
    assert_eq!(out[1].background, Background::CurrentMatch);
    assert_eq!(out[2].background, Background::NoHighlight);
}

#[test]
fn current_match_is_brighter_than_others() {
    let spans = vec![span(None, "abc"), span(None, "def")];
    let out = merge_search_overlay(&spans, &vec![(0, 1), (3, 4)], 1);
    assert_eq!(out[0].background, Background::OtherMatch);
    assert_eq!(out[0].text, "a");
    let cur: Vec<&OverlaySpan> =
        out.iter().filter(|p| p.background == Background::CurrentMatch).collect();
    assert_eq!(cur.len(), 1);
    assert_eq!(cur[0].text, "d");
}

#[test]
fn only_the_first_overlapping_match_splits_a_span() {
    // A span is split around the first match overlapping it, into at most
    // three pieces; a further match inside the same span is not drawn.
    let spans = vec![span(None, "abcdef")];
    let out = merge_search_overlay(&spans, &vec![(0, 1), (3, 4)], 1);
    let got: Vec<(&str, Background)> =
        out.iter().map(|p| (p.text.as_str(), p.background)).collect();
    assert_eq!(
        got,
        vec![("a", Background::OtherMatch), ("bcdef", Background::NoHighlight)]
    );
}

#[test]
fn match_spanning_two_spans_is_clipped_to_each() {
    let spans = vec![span(red(), "abc"), span(None, "def")];
    let out = merge_search_overlay(&spans, &vec![(2, 4)], 0);
    let got: Vec<(&str, Background)> =
        out.iter().map(|p| (p.text.as_str(), p.background)).collect();
    assert_eq!(
        got,
        vec![
            ("ab", Background::NoHighlight),
            ("c", Background::CurrentMatch),
            ("d", Background::CurrentMatch),
            ("ef", Background::NoHighlight),
        ]
    );
    assert_eq!(out[0].color, red());
    assert_eq!(out[1].color, red());
    assert_eq!(out[2].color, None);
    assert_eq!(concat(&out), "abcdef");
}

#[test]
fn merge_preserves_the_whole_text() {
    let spans = vec![span(red(), "fn main"), span(None, "() {\n"), span(red(), "}\n")];
    let out = merge_search_overlay(&spans, &vec![(3, 7), (9, 11)], 0);
    assert_eq!(concat(&out), "fn main() {\n}\n");
}

#[test]
fn empty_spans_produce_no_text() {
    let spans: Vec<HighlightSpan> = vec![];
    let out = merge_search_overlay(&spans, &vec![(0, 2)], 0);
    assert!(out.is_empty());
}
