//! Line-number labels for a wrapped viewport, and the cursor position.
//!
//! Each logical line of the buffer gets a primary number label followed by
//! one `-` continuation marker per extra soft-wrapped segment, all joined by
//! newlines into one display string.  The computed string is cached keyed by
//! the buffer's newline count alone: a width or content change that keeps the
//! line count shows the stale labels until the next line-count-changing edit,
//! a deliberate approximation.

use crate::strutil::{count_char, count_char_in, last_pos, lemma_count_char_bounds,
    lemma_split_sep_len, line_count, split_sep};
use vstd::prelude::*;

verus! {

/// Relies on String::push: appends one character.
pub assume_specification[ String::push ](s: &mut String, ch: char)
    ensures
        final(s)@ == old(s)@.push(ch),
;

/// The one-based line and column of a cursor sitting at the end of `text`:
/// the line is the newline count plus one, the column counts the characters
/// after the last newline, plus one.
pub fn calculate_cursor_position(text: &str) -> (r: (usize, usize))
    requires
        text@.len() < usize::MAX,
    ensures
        r.0 == line_count(text@),
        r.1 == text@.len() - (last_pos(text@, '\n') + 1) + 1,
{
    let n: usize = text.unicode_len();
    let mut line: usize = 1;
    let mut col: usize = 1;
    let mut i: usize = 0;
    while i < n
        invariant
            0 <= i <= n,
            n == text@.len() < usize::MAX,
            line == count_char(text@.take(i as int), '\n') + 1,
            col == i - (last_pos(text@.take(i as int), '\n') + 1) + 1,
            line <= i + 1,
            col <= i + 1,
        decreases n - i,
    {
        let c = text.get_char(i);
        proof {
            assert(text@.take(i as int + 1).drop_last() =~= text@.take(i as int));
            lemma_count_char_bounds(text@.take(i as int), '\n');
            crate::strutil::lemma_last_pos_bounds(text@.take(i as int), '\n');
        }
        if c == '\n' {
            line += 1;
            col = 1;
        } else {
            col += 1;
        }
        i += 1;
    }
    proof {
        assert(text@.take(n as int) =~= text@);
    }
    (line, col)
}

/// The lengths of the buffer's lines, where lines are the segments between
/// newline characters (an empty buffer has one empty line).
pub open spec fn seg_lens(s: Seq<char>) -> Seq<int> {
    split_sep(s, '\n').map_values(|p: Seq<char>| p.len() as int)
}

/// The number of viewport rows a line of `len` characters occupies at a
/// viewport `w` characters wide: zero for an empty line, else one plus one
/// per full extra width.
pub open spec fn wraps(len: int, w: int) -> int {
    if len <= 0 {
        0
    } else {
        (len - 1) / w + 1
    }
}

/// The decimal digits of `n`.
pub open spec fn dec_str(n: nat) -> Seq<char>
    decreases n,
{
    if n < 10 {
        seq![((48 + n) as u8) as char]
    } else {
        dec_str(n / 10).push(((48 + n % 10) as u8) as char)
    }
}

/// `k` continuation rows, each a newline followed by a dash.
pub open spec fn dash_seq(k: int) -> Seq<char>
    decreases k,
{
    if k <= 0 {
        Seq::empty()
    } else {
        dash_seq(k - 1) + seq!['\n', '-']
    }
}

/// The label text for lines of the given lengths: line `i` (one-based)
/// contributes its number and `wraps - 1` continuation rows, with rows
/// separated by newlines.
pub open spec fn labels_text(lens: Seq<int>, w: int) -> Seq<char>
    decreases lens.len(),
{
    if lens.len() == 0 {
        Seq::empty()
    } else {
        let chunk = dec_str(lens.len() as nat) + dash_seq(wraps(lens.last(), w) - 1);
        if lens.len() == 1 {
            chunk
        } else {
            labels_text(lens.drop_last(), w) + seq!['\n'] + chunk
        }
    }
}

/// The display string of line labels for `s` at viewport width `w0` (a width
/// under one is treated as one).
pub open spec fn spec_line_labels(s: Seq<char>, w0: int) -> Seq<char> {
    labels_text(seg_lens(s), if w0 < 1 {
        1int
    } else {
        w0
    })
}

/// The lengths of the segments of `s` between newlines.
fn line_lengths(s: &str) -> (r: Vec<usize>)
    ensures
        r@.len() == seg_lens(s@).len(),
        forall|k: int| 0 <= k < r@.len() ==> r@[k] == seg_lens(s@)[k],
{
    let n: usize = s.unicode_len();
    let mut r: Vec<usize> = Vec::new();
    let mut cur: usize = 0;
    let mut i: usize = 0;
    while i < n
        invariant
            0 <= i <= n,
            n == s@.len(),
            cur <= i,
            split_sep(s@.take(i as int), '\n').len() == r@.len() + 1,
            forall|k: int|
                0 <= k < r@.len() ==> r@[k] == #[trigger] split_sep(s@.take(i as int), '\n')[k].len(),
            cur == split_sep(s@.take(i as int), '\n').last().len(),
        decreases n - i,
    {
        let c = s.get_char(i);
        proof {
            assert(s@.take(i as int + 1).drop_last() =~= s@.take(i as int));
            lemma_count_char_bounds(s@.take(i as int), '\n');
            lemma_split_sep_len(s@.take(i as int), '\n');
            lemma_split_sep_len(s@.take(i as int + 1), '\n');
        }
        if c == '\n' {
            r.push(cur);
            cur = 0;
        } else {
            cur += 1;
        }
        i += 1;
    }
    proof {
        assert(s@.take(n as int) =~= s@);
        lemma_split_sep_len(s@, '\n');
    }
    r.push(cur);
    r
}

/// Appends the decimal digits of `n` to `out`.
fn push_dec(out: &mut String, n: usize)
    ensures
        final(out)@ =~= old(out)@ + dec_str(n as nat),
    decreases n,
{
    if n < 10 {
        out.push((48 + n as u8) as char);
    } else {
        push_dec(out, n / 10);
        out.push((48 + (n % 10) as u8) as char);
    }
}

/// Builds the line-label display string for `text` at the given viewport
/// width in characters.
pub fn get_line_labels(text: &str, width: usize) -> (r: String)
    ensures
        r@ =~= spec_line_labels(text@, width as int),
{
    let w: usize = if width == 0 {
        1
    } else {
        width
    };
    let lens = line_lengths(text);
    let ghost ls = seg_lens(text@);
    let mut out = String::new();
    let mut i: usize = 0;
    while i < lens.len()
        invariant
            0 <= i <= lens@.len(),
            w >= 1,
            w == if (width as int) < 1 {
                1int
            } else {
                width as int
            },
            lens@.len() == ls.len(),
            forall|k: int| 0 <= k < lens@.len() ==> lens@[k] == ls[k],
            out@ =~= labels_text(ls.take(i as int), w as int),
        decreases lens@.len() - i,
    {
        proof {
            assert(ls.take(i as int + 1).drop_last() =~= ls.take(i as int));
            assert(ls.take(i as int + 1).last() == ls[i as int]);
        }
        if i > 0 {
            out.push('\n');
        }
        push_dec(&mut out, i + 1);
        let li: usize = lens[i];
        let wrap: usize = if li == 0 {
            0
        } else {
            (li - 1) / w + 1
        };
        let ghost base = out@;
        let mut k: usize = 1;
        while k < wrap
            invariant
                1 <= k,
                wrap >= 1 ==> k <= wrap,
                wrap == 0 ==> k == 1,
                wrap as int == wraps(li as int, w as int),
                out@ =~= base + dash_seq(k as int - 1),
            decreases wrap - k,
        {
            out.push('\n');
            out.push('-');
            k += 1;
        }
        proof {
            assert(out@ =~= base + dash_seq(wraps(li as int, w as int) - 1));
        }
        i += 1;
    }
    proof {
        assert(ls.take(ls.len() as int) =~= ls);
    }
    out
}

/// A cached line-label string, keyed by the buffer's newline count only.
pub struct LineIndexCache {
    cached: Option<(String, usize)>,
}

impl LineIndexCache {
    /// The cached label text and its newline-count key.
    pub closed spec fn cache_view(self) -> Option<(Seq<char>, int)> {
        match self.cached {
            Some((s, n)) => Some((s@, n as int)),
            None => None,
        }
    }

    /// Whatever is cached was the label string of some buffer with the keyed
    /// newline count.
    pub open spec fn wf(self) -> bool {
        match self.cache_view() {
            Some(c) => exists|t0: Seq<char>, w0: int|
                c.0 == spec_line_labels(t0, w0) && count_char(t0, '\n') == c.1,
            None => true,
        }
    }

    /// An empty cache.
    pub fn new() -> (s: Self)
        ensures
            s.wf(),
            s.cache_view() is None,
    {
        LineIndexCache { cached: None }
    }

    /// Returns the label string for `text`, reusing the cached string
    /// whenever the newline count matches, even if content or width changed.
    pub fn get_labels(&mut self, text: &str, width: usize) -> (r: String)
        requires
            old(self).wf(),
        ensures
            final(self).wf(),
            exists|t0: Seq<char>, w0: int|
                r@ == spec_line_labels(t0, w0) && count_char(t0, '\n') == count_char(text@, '\n'),
            (match old(self).cache_view() {
                Some(c) => c.1 != count_char(text@, '\n'),
                None => true,
            }) ==> r@ =~= spec_line_labels(text@, width as int),
            (match old(self).cache_view() {
                Some(c) => c.1 == count_char(text@, '\n'),
                None => false,
            }) ==> (*final(self) == *old(self) && (old(self).cache_view() matches Some(c) ==> r@
                == c.0)),
    {
        let nl: usize = count_char_in(text, '\n');
        if let Some((s, n)) = &self.cached {
            if *n == nl {
                return s.clone();
            }
        }
        let lbl = get_line_labels(text, width);
        self.cached = Some((lbl.clone(), nl));
        proof {
            assert(lbl@ == spec_line_labels(text@, width as int) && count_char(text@, '\n')
                == nl as int);
        }
        lbl
    }
}

} // verus!
