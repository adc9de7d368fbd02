//! Text search with match navigation.
//!
//! `find_matches` performs a non-overlapping forward scan for a query inside
//! a buffer, optionally case-insensitive (both sides are lower-cased first),
//! and records `(start, end)` offsets into the compared text.  The offsets it
//! returns are strictly increasing and non-overlapping, every recorded
//! position is an occurrence, and no occurrence is skipped between or before
//! matches.  A cursor over the match list wraps in both directions.

use vstd::prelude::*;

verus! {

/// What `str::to_lowercase` returns for the characters of `s`.
pub uninterp spec fn lower_of(s: Seq<char>) -> Seq<char>;

/// Relies on str::to_lowercase: the result is a function of the input
/// characters alone, and is empty exactly when the input is empty (every
/// character lowercases to at least one character).
#[verifier::external_body]
fn to_lower(s: &str) -> (r: String)
    ensures
        r@ == lower_of(s@),
        (r@.len() == 0) == (s@.len() == 0),
{
    s.to_lowercase()
}

/// The characters of `s` as a vector.
fn chars_of(s: &str) -> (r: Vec<char>)
    ensures
        r@ =~= s@,
{
    let n: usize = s.unicode_len();
    let mut r: Vec<char> = Vec::new();
    let mut i: usize = 0;
    while i < n
        invariant
            0 <= i <= n,
            n == s@.len(),
            r@ =~= s@.take(i as int),
        decreases n - i,
    {
        r.push(s.get_char(i));
        proof {
            assert(s@.take(i as int + 1).drop_last() =~= s@.take(i as int));
            assert(r@ =~= s@.take(i as int + 1));
        }
        i += 1;
    }
    proof {
        assert(s@.take(n as int) =~= s@);
    }
    r
}

/// True when `q` occurs in `t` starting at position `i`.
pub open spec fn occurs_at(t: Seq<char>, q: Seq<char>, i: int) -> bool {
    0 <= i && i + q.len() <= t.len() && t.subrange(i, i + q.len()) == q
}

/// True when `q` occurs nowhere in `t` at a position in `[a, b)`.
pub open spec fn no_occurrence_in(t: Seq<char>, q: Seq<char>, a: int, b: int) -> bool {
    forall|j: int| a <= j < b ==> !occurs_at(t, q, j)
}

/// Where the match before index `k` ended, or `0` for the first match.
pub open spec fn prev_end(ms: Seq<(usize, usize)>, k: int) -> int {
    if k == 0 {
        0
    } else {
        ms[k - 1].1 as int
    }
}

/// Where the last match ended, or `0` when there is none.
pub open spec fn scan_end(ms: Seq<(usize, usize)>) -> int {
    if ms.len() == 0 {
        0
    } else {
        ms.last().1 as int
    }
}

/// True when `ms` is exactly the result of the greedy left-to-right
/// non-overlapping scan for `q` in `t`: every entry is an occurrence spanning
/// `q`'s length, entries are in order and disjoint, and no occurrence exists
/// before the first entry, between entries, or after the last.
pub open spec fn is_match_scan(t: Seq<char>, q: Seq<char>, ms: Seq<(usize, usize)>) -> bool {
    &&& forall|k: int|
        0 <= k < ms.len() ==> occurs_at(t, q, (#[trigger] ms[k]).0 as int) && ms[k].1 == ms[k].0
            + q.len()
    &&& forall|k: int| 0 < k < ms.len() ==> (#[trigger] ms[k]).0 >= ms[k - 1].1
    &&& forall|k: int|
        0 <= k < ms.len() ==> no_occurrence_in(t, q, prev_end(ms, k), (#[trigger] ms[k]).0 as int)
    &&& no_occurrence_in(t, q, scan_end(ms), t.len() as int + 1)
}

/// True when `q` occurs in `t` at `pos`.
fn matches_at(t: &Vec<char>, q: &Vec<char>, pos: usize) -> (r: bool)
    requires
        pos + q@.len() <= t@.len(),
    ensures
        r == occurs_at(t@, q@, pos as int),
{
    let qn: usize = q.len();
    let tn: usize = t.len();
    let mut j: usize = 0;
    while j < qn
        invariant
            0 <= j <= qn,
            qn == q@.len(),
            tn == t@.len(),
            pos + q@.len() <= t@.len(),
            forall|jj: int| 0 <= jj < j ==> t@[pos + jj] == q@[jj],
        decreases qn - j,
    {
        if t[pos + j] != q[j] {
            proof {
                assert(t@.subrange(pos as int, pos + q@.len())[j as int] != q@[j as int]);
            }
            return false;
        }
        j += 1;
    }
    proof {
        assert(t@.subrange(pos as int, pos + q@.len()) =~= q@);
    }
    true
}

/// Greedy left-to-right non-overlapping scan for `q` in `t`.
fn scan_matches(t: &Vec<char>, q: &Vec<char>) -> (ms: Vec<(usize, usize)>)
    requires
        q@.len() > 0,
    ensures
        is_match_scan(t@, q@, ms@),
{
    let tlen = t.len();
    let qlen = q.len();
    let mut ms: Vec<(usize, usize)> = Vec::new();
    if qlen > tlen {
        proof {
            assert(forall|j: int| !occurs_at(t@, q@, j));
        }
        return ms;
    }
    let mut pos: usize = 0;
    while pos <= tlen - qlen
        invariant
            q@.len() == qlen > 0,
            t@.len() == tlen,
            qlen <= tlen,
            0 <= pos <= tlen,
            forall|k: int|
                0 <= k < ms@.len() ==> occurs_at(t@, q@, (#[trigger] ms@[k]).0 as int)
                    && ms@[k].1 == ms@[k].0 + q@.len(),
            forall|k: int| 0 < k < ms@.len() ==> (#[trigger] ms@[k]).0 >= ms@[k - 1].1,
            forall|k: int|
                0 <= k < ms@.len() ==> no_occurrence_in(
                    t@,
                    q@,
                    prev_end(ms@, k),
                    (#[trigger] ms@[k]).0 as int,
                ),
            no_occurrence_in(t@, q@, scan_end(ms@), pos as int),
            scan_end(ms@) <= pos,
        decreases tlen - pos,
    {
        let found = matches_at(t, q, pos);
        if found {
            let ghost before = ms@;
            ms.push((pos, pos + qlen));
            proof {
                assert(ms@.drop_last() =~= before);
                assert(forall|k: int| 0 <= k < before.len() ==> ms@[k] == before[k]);
                assert(scan_end(ms@) == pos + qlen);
            }
            pos += qlen;
        } else {
            proof {
                assert(no_occurrence_in(t@, q@, scan_end(ms@), pos as int + 1));
            }
            pos += 1;
        }
    }
    proof {
        assert(forall|j: int| pos <= j ==> !occurs_at(t@, q@, j));
        assert(no_occurrence_in(t@, q@, scan_end(ms@), t@.len() as int + 1));
    }
    ms
}

/// For every non-empty query, the recorded matches are strictly increasing
/// in start offset and pairwise non-overlapping: any earlier match ends at
/// or before the point where any later match starts.
#[verifier::rlimit(80)]
pub proof fn lemma_match_scan_ordered(
    t: Seq<char>,
    q: Seq<char>,
    ms: Seq<(usize, usize)>,
    k1: int,
    k2: int,
)
    requires
        is_match_scan(t, q, ms),
        q.len() > 0,
        0 <= k1 < k2 < ms.len(),
    ensures
        ms[k1].1 <= ms[k2].0,
        ms[k1].0 < ms[k2].0,
    decreases k2 - k1,
{
    assert(ms[k1].1 == ms[k1].0 + q.len());
    if k2 == k1 + 1 {
        assert(ms[k2].0 >= ms[k2 - 1].1);
    } else {
        lemma_match_scan_ordered(t, q, ms, k1 + 1, k2);
        assert(ms[k1 + 1].0 >= ms[k1].1);
        assert(ms[k1 + 1].1 == ms[k1 + 1].0 + q.len());
    }
}

/// The text that `find_matches` actually compares: the buffer itself when
/// case-sensitive, its lower-cased form otherwise.
pub open spec fn folded(s: Seq<char>, case_sensitive: bool) -> Seq<char> {
    if case_sensitive {
        s
    } else {
        lower_of(s)
    }
}

/// The search panel's state: query, mode, found matches and the cursor over
/// them.
pub struct SearchState {
    open: bool,
    query: String,
    case_sensitive: bool,
    current_match: usize,
    matches: Vec<(usize, usize)>,
}

impl SearchState {
    /// Whether the search panel is open.
    pub closed spec fn open_view(self) -> bool {
        self.open
    }

    /// The current query.
    pub closed spec fn query_view(self) -> Seq<char> {
        self.query@
    }

    /// Whether matching is case-sensitive.
    pub closed spec fn case_view(self) -> bool {
        self.case_sensitive
    }

    /// The found matches.
    pub closed spec fn matches_view(self) -> Seq<(usize, usize)> {
        self.matches@
    }

    /// The cursor into the match list.
    pub closed spec fn cursor_view(self) -> usize {
        self.current_match
    }

    /// The cursor is clamped into the match list (and `0` when the list is
    /// empty).
    pub open spec fn wf(self) -> bool {
        if self.matches_view().len() == 0 {
            self.cursor_view() == 0
        } else {
            (self.cursor_view() as int) < self.matches_view().len()
        }
    }

    /// A closed search panel with an empty query and no matches.
    pub fn new() -> (s: Self)
        ensures
            s.wf(),
            !s.open_view(),
            s.query_view() =~= Seq::<char>::empty(),
            !s.case_view(),
            s.matches_view() =~= Seq::<(usize, usize)>::empty(),
            s.cursor_view() == 0,
    {
        SearchState {
            open: false,
            query: String::new(),
            case_sensitive: false,
            current_match: 0,
            matches: Vec::new(),
        }
    }

    /// Whether the search panel is open.
    pub fn is_open(&self) -> (r: bool)
        ensures
            r == self.open_view(),
    {
        self.open
    }

    /// Opens or closes the search panel; the matches are untouched.
    pub fn set_open(&mut self, open: bool)
        ensures
            final(self).open_view() == open,
            final(self).query_view() == old(self).query_view(),
            final(self).case_view() == old(self).case_view(),
            final(self).matches_view() == old(self).matches_view(),
            final(self).cursor_view() == old(self).cursor_view(),
            final(self).wf() == old(self).wf(),
    {
        self.open = open;
    }

    /// The found matches, in scan order.
    pub fn match_list(&self) -> (r: &Vec<(usize, usize)>)
        ensures
            r@ == self.matches_view(),
    {
        &self.matches
    }

    /// The cursor into the match list.
    pub fn current_match_index(&self) -> (r: usize)
        ensures
            r == self.cursor_view(),
    {
        self.current_match
    }

    /// Recomputes the matches of the current query against `text`.
    ///
    /// An empty query yields no matches (not an error).  Otherwise both the
    /// buffer and the query are folded per the case mode and a greedy
    /// non-overlapping left-to-right scan records each occurrence; offsets
    /// are character positions in the folded text.  The cursor is reset.
    pub fn find_matches(&mut self, text: &str)
        ensures
            final(self).wf(),
            final(self).open_view() == old(self).open_view(),
            final(self).query_view() == old(self).query_view(),
            final(self).case_view() == old(self).case_view(),
            final(self).cursor_view() == 0,
            old(self).query_view().len() == 0 ==> final(self).matches_view() =~= Seq::<
                (usize, usize),
            >::empty(),
            old(self).query_view().len() > 0 ==> is_match_scan(
                folded(text@, old(self).case_view()),
                folded(old(self).query_view(), old(self).case_view()),
                final(self).matches_view(),
            ),
    {
        self.matches = Vec::new();
        self.current_match = 0;
        if self.query.as_str().is_empty() {
            return;
        }
        let folded_text = if self.case_sensitive {
            text.to_owned()
        } else {
            to_lower(text)
        };
        let folded_query = if self.case_sensitive {
            self.query.clone()
        } else {
            to_lower(self.query.as_str())
        };
        let t = chars_of(folded_text.as_str());
        let q = chars_of(folded_query.as_str());
        self.matches = scan_matches(&t, &q);
    }

    /// Sets the query and case mode, then recomputes the matches.
    pub fn set_query(&mut self, query: String, case_sensitive: bool, text: &str)
        ensures
            final(self).wf(),
            final(self).open_view() == old(self).open_view(),
            final(self).query_view() == query@,
            final(self).case_view() == case_sensitive,
            final(self).cursor_view() == 0,
            query@.len() == 0 ==> final(self).matches_view() =~= Seq::<(usize, usize)>::empty(),
            query@.len() > 0 ==> is_match_scan(
                folded(text@, case_sensitive),
                folded(query@, case_sensitive),
                final(self).matches_view(),
            ),
    {
        self.query = query;
        self.case_sensitive = case_sensitive;
        self.find_matches(text);
    }

    /// Advances the cursor to the next match, wrapping past the end; a no-op
    /// when there are no matches.
    pub fn next_match(&mut self)
        requires
            old(self).wf(),
        ensures
            final(self).wf(),
            final(self).open_view() == old(self).open_view(),
            final(self).query_view() == old(self).query_view(),
            final(self).case_view() == old(self).case_view(),
            final(self).matches_view() == old(self).matches_view(),
            old(self).matches_view().len() == 0
                ==> final(self).cursor_view() == old(self).cursor_view(),
            old(self).matches_view().len() > 0
                ==> final(self).cursor_view()
                    == (old(self).cursor_view() + 1) % (old(self).matches_view().len() as int),
    {
        if self.matches.len() > 0 {
            self.current_match = (self.current_match + 1) % self.matches.len();
        }
    }

    /// Moves the cursor to the previous match, wrapping before the start
    /// (from `0` to the last index); a no-op when there are no matches.
    pub fn prev_match(&mut self)
        requires
            old(self).wf(),
        ensures
            final(self).wf(),
            final(self).open_view() == old(self).open_view(),
            final(self).query_view() == old(self).query_view(),
            final(self).case_view() == old(self).case_view(),
            final(self).matches_view() == old(self).matches_view(),
            old(self).matches_view().len() == 0
                ==> final(self).cursor_view() == old(self).cursor_view(),
            old(self).matches_view().len() > 0 && old(self).cursor_view() == 0
                ==> final(self).cursor_view() == old(self).matches_view().len() - 1,
            old(self).matches_view().len() > 0 && old(self).cursor_view() > 0
                ==> final(self).cursor_view() == old(self).cursor_view() - 1,
    {
        if self.matches.len() > 0 {
            if self.current_match == 0 {
                self.current_match = self.matches.len() - 1;
            } else {
                self.current_match = self.current_match - 1;
            }
        }
    }
}

} // verus!
