//! Merging search matches into highlight spans.
//!
//! Rendering overlays the found search matches on top of the syntax
//! highlight spans: for each span, the first match overlapping its range
//! re-colors the overlapped sub-range with a background highlight — bright
//! for the current match, dimmer for the others — splitting the span into up
//! to three pieces that keep the span's foreground color.  The merged pieces
//! concatenate to exactly the text of the input spans.

use crate::highlight::{spans_text, HighlightSpan, Rgb};
use vstd::prelude::*;

verus! {

/// The background of a merged piece.
#[derive(Clone, Copy, PartialEq, Eq, Structural, Debug)]
pub enum Background {
    NoHighlight,
    CurrentMatch,
    OtherMatch,
}

/// One merged piece: a run of text with one foreground color and one
/// background.
#[derive(Debug)]
pub struct OverlaySpan {
    pub color: Option<Rgb>,
    pub background: Background,
    pub text: String,
}

/// The mathematical content of one merged piece.
pub open spec fn omodel(s: OverlaySpan) -> (Option<Rgb>, Background, Seq<char>) {
    (s.color, s.background, s.text@)
}

/// The mathematical content of a sequence of merged pieces.
pub open spec fn omodels(ss: Seq<OverlaySpan>) -> Seq<(Option<Rgb>, Background, Seq<char>)> {
    ss.map_values(|s: OverlaySpan| omodel(s))
}

/// The mathematical content of one highlight span.
pub open spec fn smodel(s: HighlightSpan) -> (Option<Rgb>, Seq<char>) {
    (s.color, s.text@)
}

/// The mathematical content of a sequence of highlight spans.
pub open spec fn smodels(ss: Seq<HighlightSpan>) -> Seq<(Option<Rgb>, Seq<char>)> {
    ss.map_values(|s: HighlightSpan| smodel(s))
}

/// Concatenation of the `text` fields of merged pieces.
pub open spec fn overlay_text(ss: Seq<OverlaySpan>) -> Seq<char>
    decreases ss.len(),
{
    if ss.len() == 0 {
        Seq::empty()
    } else {
        overlay_text(ss.drop_last()) + ss.last().text@
    }
}

pub proof fn lemma_overlay_text_push(xs: Seq<OverlaySpan>, y: OverlaySpan)
    ensures
        overlay_text(xs.push(y)) =~= overlay_text(xs) + y.text@,
{
    assert(xs.push(y).drop_last() =~= xs);
}

/// True when match `m` overlaps the character range `[ts, te)`.
pub open spec fn overlaps(m: (usize, usize), ts: int, te: int) -> bool {
    (m.0 as int) < te && ts < (m.1 as int) && (m.0 as int) < (m.1 as int)
}

/// The index of the first match overlapping `[ts, te)`, or `ms.len()` when
/// none does.
pub open spec fn first_overlap(ms: Seq<(usize, usize)>, ts: int, te: int) -> int
    decreases ms.len(),
{
    if ms.len() == 0 {
        0
    } else if overlaps(ms[0], ts, te) {
        0
    } else {
        1 + first_overlap(ms.drop_first(), ts, te)
    }
}

proof fn lemma_first_overlap_at(ms: Seq<(usize, usize)>, ts: int, te: int, k: int)
    requires
        0 <= k <= ms.len(),
        forall|j: int| 0 <= j < k ==> !overlaps(ms[j], ts, te),
        k < ms.len() ==> overlaps(ms[k], ts, te),
    ensures
        first_overlap(ms, ts, te) == k,
    decreases k,
{
    if k == 0 {
    } else {
        assert(!overlaps(ms[0], ts, te));
        assert(forall|j: int| 0 <= j < k - 1 ==> ms.drop_first()[j] == ms[j + 1]);
        lemma_first_overlap_at(ms.drop_first(), ts, te, k - 1);
    }
}

/// The merged pieces for one span of the given color and text starting at
/// buffer offset `ts`: unsplit when no match overlaps it, else up to three
/// pieces around the first overlapping match, clipped to the span.
pub open spec fn spec_overlay_pieces(
    color: Option<Rgb>,
    text: Seq<char>,
    ts: int,
    ms: Seq<(usize, usize)>,
    cur: int,
) -> Seq<(Option<Rgb>, Background, Seq<char>)> {
    let te = ts + text.len();
    let k = first_overlap(ms, ts, te);
    if k == ms.len() {
        seq![(color, Background::NoHighlight, text)]
    } else {
        let cs = if (ms[k].0 as int) > ts {
            ms[k].0 as int
        } else {
            ts
        };
        let ce = if (ms[k].1 as int) < te {
            ms[k].1 as int
        } else {
            te
        };
        let bg = if k == cur {
            Background::CurrentMatch
        } else {
            Background::OtherMatch
        };
        (if cs > ts {
            seq![(color, Background::NoHighlight, text.subrange(0, cs - ts))]
        } else {
            Seq::empty()
        }) + seq![(color, bg, text.subrange(cs - ts, ce - ts))] + (if ce < te {
            seq![(color, Background::NoHighlight, text.subrange(ce - ts, text.len() as int))]
        } else {
            Seq::empty()
        })
    }
}

/// The merged pieces for a sequence of spans starting at buffer offset `ts`.
pub open spec fn spec_overlay(
    spans: Seq<(Option<Rgb>, Seq<char>)>,
    ts: int,
    ms: Seq<(usize, usize)>,
    cur: int,
) -> Seq<(Option<Rgb>, Background, Seq<char>)>
    decreases spans.len(),
{
    if spans.len() == 0 {
        Seq::empty()
    } else {
        spec_overlay_pieces(spans[0].0, spans[0].1, ts, ms, cur) + spec_overlay(
            spans.drop_first(),
            ts + spans[0].1.len(),
            ms,
            cur,
        )
    }
}

proof fn lemma_spans_text_take_le(spans: Seq<HighlightSpan>, k: int)
    requires
        0 <= k <= spans.len(),
    ensures
        spans_text(spans.take(k)).len() <= spans_text(spans).len(),
        k < spans.len() ==> spans_text(spans.take(k)).len() + spans[k].text@.len() <= spans_text(
            spans,
        ).len(),
    decreases spans.len() - k,
{
    if k < spans.len() {
        assert(spans.take(k + 1).drop_last() =~= spans.take(k));
        assert(spans_text(spans.take(k + 1)) == spans_text(spans.take(k))
            + spans.take(k + 1).last().text@);
        lemma_spans_text_take_le(spans, k + 1);
    } else {
        assert(spans.take(k) =~= spans);
    }
}

/// The index of the first match in `ms` overlapping `[ts, te)`, or
/// `ms.len()` when none does.
fn first_overlap_exec(ms: &Vec<(usize, usize)>, ts: usize, te: usize) -> (k: usize)
    ensures
        k == first_overlap(ms@, ts as int, te as int),
        k <= ms@.len(),
        k < ms@.len() ==> overlaps(ms@[k as int], ts as int, te as int),
{
    let n = ms.len();
    let mut k: usize = 0;
    while k < n
        invariant
            0 <= k <= n,
            n == ms@.len(),
            forall|j: int| 0 <= j < k ==> !overlaps(ms@[j], ts as int, te as int),
        decreases n - k,
    {
        let m = ms[k];
        if m.0 < te && ts < m.1 && m.0 < m.1 {
            proof {
                lemma_first_overlap_at(ms@, ts as int, te as int, k as int);
            }
            return k;
        }
        k += 1;
    }
    proof {
        lemma_first_overlap_at(ms@, ts as int, te as int, n as int);
    }
    n
}

/// Merges the search matches into the highlight spans.  Offsets in `matches`
/// are character positions into the concatenated text of `spans`; `current`
/// selects the match drawn with the bright background.  The result is
/// exactly the per-span split described by [`spec_overlay`], and its pieces
/// concatenate to the same text as the input spans.
#[verifier::rlimit(80)]
pub fn merge_search_overlay(
    spans: &Vec<HighlightSpan>,
    matches: &Vec<(usize, usize)>,
    current: usize,
) -> (r: Vec<OverlaySpan>)
    requires
        spans_text(spans@).len() <= usize::MAX,
    ensures
        omodels(r@) =~= spec_overlay(smodels(spans@), 0, matches@, current as int),
        overlay_text(r@) =~= spans_text(spans@),
{
    let mut out: Vec<OverlaySpan> = Vec::new();
    let mut ts: usize = 0;
    let mut j: usize = 0;
    let n = spans.len();
    proof {
        assert(smodels(spans@).skip(0) =~= smodels(spans@));
        assert(omodels(out@) =~= Seq::<(Option<Rgb>, Background, Seq<char>)>::empty());
    }
    while j < n
        invariant
            0 <= j <= n,
            n == spans@.len(),
            spans_text(spans@).len() <= usize::MAX,
            ts == spans_text(spans@.take(j as int)).len(),
            overlay_text(out@) =~= spans_text(spans@.take(j as int)),
            spec_overlay(smodels(spans@), 0, matches@, current as int) =~= omodels(out@)
                + spec_overlay(smodels(spans@).skip(j as int), ts as int, matches@, current as int),
        decreases n - j,
    {
        let span = &spans[j];
        let tlen: usize = span.text.as_str().unicode_len();
        proof {
            lemma_spans_text_take_le(spans@, j as int);
            assert(spans@.take(j as int + 1).drop_last() =~= spans@.take(j as int));
            assert(smodels(spans@).skip(j as int).drop_first() =~= smodels(spans@).skip(
                j as int + 1,
            ));
            assert(smodels(spans@).skip(j as int)[0] == smodel(spans@[j as int]));
        }
        let te: usize = ts + tlen;
        let k = first_overlap_exec(matches, ts, te);
        let ghost before = out@;
        let ghost piece_spec = spec_overlay_pieces(
            span.color,
            span.text@,
            ts as int,
            matches@,
            current as int,
        );
        if k == matches.len() {
            out.push(OverlaySpan {
                color: span.color,
                background: Background::NoHighlight,
                text: span.text.clone(),
            });
            proof {
                lemma_overlay_text_push(before, out@.last());
                assert(omodels(out@) =~= omodels(before) + piece_spec);
            }
        } else {
            let (m_s, m_e) = matches[k];
            let cs: usize = if m_s > ts {
                m_s
            } else {
                ts
            };
            let ce: usize = if m_e < te {
                m_e
            } else {
                te
            };
            let bg = if k == current {
                Background::CurrentMatch
            } else {
                Background::OtherMatch
            };
            proof {
                assert(overlaps(matches@[k as int], ts as int, te as int));
                assert(ts <= cs);
                assert(cs <= ce);
                assert(ce <= te);
                assert(span.text@.len() == tlen);
            }
            if cs > ts {
                let ghost b0 = out@;
                out.push(OverlaySpan {
                    color: span.color,
                    background: Background::NoHighlight,
                    text: span.text.as_str().substring_char(0, cs - ts).to_owned(),
                });
                proof {
                    lemma_overlay_text_push(b0, out@.last());
                }
            }
            let ghost b1 = out@;
            out.push(OverlaySpan {
                color: span.color,
                background: bg,
                text: span.text.as_str().substring_char(cs - ts, ce - ts).to_owned(),
            });
            proof {
                lemma_overlay_text_push(b1, out@.last());
            }
            if ce < te {
                let ghost b2 = out@;
                out.push(OverlaySpan {
                    color: span.color,
                    background: Background::NoHighlight,
                    text: span.text.as_str().substring_char(ce - ts, tlen).to_owned(),
                });
                proof {
                    lemma_overlay_text_push(b2, out@.last());
                }
            }
            proof {
                assert(span.text@.subrange(0, (cs - ts) as int) + span.text@.subrange(
                    (cs - ts) as int,
                    (ce - ts) as int,
                ) + span.text@.subrange((ce - ts) as int, span.text@.len() as int) =~= span.text@);
                assert(omodels(out@) =~= omodels(before) + piece_spec);
                assert(overlay_text(out@) =~= overlay_text(before) + span.text@);
            }
        }
        proof {
            assert(spec_overlay(
                smodels(spans@).skip(j as int),
                ts as int,
                matches@,
                current as int,
            ) =~= piece_spec + spec_overlay(
                smodels(spans@).skip(j as int + 1),
                te as int,
                matches@,
                current as int,
            ));
            assert(spans_text(spans@.take(j as int + 1)) =~= spans_text(spans@.take(j as int))
                + spans@[j as int].text@);
        }
        ts = te;
        j += 1;
    }
    proof {
        assert(spans@.take(n as int) =~= spans@);
        assert(smodels(spans@).skip(n as int) =~= Seq::<(Option<Rgb>, Seq<char>)>::empty());
    }
    out
}

} // verus!
