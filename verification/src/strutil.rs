//! Small verified text helpers shared by the editor core: counting
//! characters, locating the last occurrence of a character, and splitting a
//! buffer into lines that keep their terminators.

use vstd::prelude::*;

verus! {

/// How many times `c` occurs in `s`.
pub open spec fn count_char(s: Seq<char>, c: char) -> int
    decreases s.len(),
{
    if s.len() == 0 {
        0
    } else {
        count_char(s.drop_last(), c) + if s.last() == c {
            1int
        } else {
            0int
        }
    }
}

/// The number of logical lines of a buffer: one more than its newline count.
pub open spec fn line_count(s: Seq<char>) -> int {
    count_char(s, '\n') + 1
}

/// Index of the last occurrence of `c` in `s`, or `-1` when absent.
pub open spec fn last_pos(s: Seq<char>, c: char) -> int
    decreases s.len(),
{
    if s.len() == 0 {
        -1
    } else if s.last() == c {
        s.len() - 1
    } else {
        last_pos(s.drop_last(), c)
    }
}

pub proof fn lemma_count_char_bounds(s: Seq<char>, c: char)
    ensures
        0 <= count_char(s, c) <= s.len(),
    decreases s.len(),
{
    if s.len() > 0 {
        lemma_count_char_bounds(s.drop_last(), c);
    }
}

pub proof fn lemma_last_pos_bounds(s: Seq<char>, c: char)
    ensures
        -1 <= last_pos(s, c) < s.len(),
    decreases s.len(),
{
    if s.len() > 0 && s.last() != c {
        lemma_last_pos_bounds(s.drop_last(), c);
    }
}

/// Counts the occurrences of `c` in `s`.
pub fn count_char_in(s: &str, c: char) -> (r: usize)
    ensures
        r == count_char(s@, c),
{
    let n: usize = s.unicode_len();
    let mut count: usize = 0;
    let mut i: usize = 0;
    proof {
        lemma_count_char_bounds(s@, c);
    }
    while i < n
        invariant
            0 <= i <= n,
            n == s@.len(),
            count == count_char(s@.take(i as int), c),
            count <= i,
        decreases n - i,
    {
        proof {
            assert(s@.take(i as int + 1).drop_last() =~= s@.take(i as int));
        }
        if s.get_char(i) == c {
            count += 1;
        }
        i += 1;
    }
    proof {
        assert(s@.take(n as int) =~= s@);
    }
    count
}

/// `s` split on the separator `sep`; splitting the empty sequence yields one
/// empty part, and a trailing separator yields a trailing empty part.
pub open spec fn split_sep(s: Seq<char>, sep: char) -> Seq<Seq<char>>
    decreases s.len(),
{
    if s.len() == 0 {
        seq![Seq::<char>::empty()]
    } else if s.last() == sep {
        split_sep(s.drop_last(), sep).push(Seq::<char>::empty())
    } else {
        let r = split_sep(s.drop_last(), sep);
        r.update(r.len() - 1, r.last().push(s.last()))
    }
}

pub proof fn lemma_split_sep_len(s: Seq<char>, sep: char)
    ensures
        split_sep(s, sep).len() == count_char(s, sep) + 1,
    decreases s.len(),
{
    if s.len() > 0 {
        lemma_split_sep_len(s.drop_last(), sep);
        if s.last() != sep {
            lemma_count_char_bounds(s.drop_last(), sep);
            let r = split_sep(s.drop_last(), sep);
            assert(r.len() >= 1);
            assert(split_sep(s, sep) == r.update(r.len() - 1, r.last().push(s.last())));
            assert(split_sep(s, sep).len() == r.len());
        }
    }
}

/// True when `l` is a line closed by a newline terminator.
pub open spec fn ends_nl(l: Seq<char>) -> bool {
    l.len() > 0 && l.last() == '\n'
}

/// `s` split into lines, each keeping its `'\n'` terminator; the final line
/// may be unterminated, and an empty buffer has no lines.
pub open spec fn split_lines(s: Seq<char>) -> Seq<Seq<char>>
    decreases s.len(),
{
    if s.len() == 0 {
        Seq::empty()
    } else {
        let r = split_lines(s.drop_last());
        let c = s.last();
        if r.len() > 0 && !ends_nl(r.last()) {
            r.update(r.len() - 1, r.last().push(c))
        } else {
            r.push(seq![c])
        }
    }
}

/// Concatenation of a sequence of character sequences.
pub open spec fn concat_seqs(ss: Seq<Seq<char>>) -> Seq<char>
    decreases ss.len(),
{
    if ss.len() == 0 {
        Seq::empty()
    } else {
        concat_seqs(ss.drop_last()) + ss.last()
    }
}

/// Splitting a buffer into lines loses nothing: the lines concatenate back to
/// the buffer.
pub proof fn lemma_split_lines_concat(s: Seq<char>)
    ensures
        concat_seqs(split_lines(s)) =~= s,
    decreases s.len(),
{
    if s.len() > 0 {
        lemma_split_lines_concat(s.drop_last());
        let r = split_lines(s.drop_last());
        let c = s.last();
        if r.len() > 0 && !ends_nl(r.last()) {
            let u = r.update(r.len() - 1, r.last().push(c));
            assert(u.drop_last() =~= r.drop_last());
            assert(concat_seqs(u) =~= concat_seqs(r.drop_last()) + r.last().push(c));
            assert(concat_seqs(r.drop_last()) + r.last().push(c) =~= (concat_seqs(r.drop_last())
                + r.last()).push(c));
        } else {
            assert(split_lines(s).drop_last() =~= r);
        }
    }
}

/// The views of a sequence of owned strings.
pub open spec fn views_of(ss: Seq<String>) -> Seq<Seq<char>> {
    ss.map_values(|l: String| l@)
}

/// Splits `s` into its lines, each keeping its `'\n'` terminator.
pub fn split_lines_exec(s: &str) -> (r: Vec<String>)
    ensures
        views_of(r@) =~= split_lines(s@),
{
    let n: usize = s.unicode_len();
    let mut lines: Vec<String> = Vec::new();
    let mut start: usize = 0;
    let mut i: usize = 0;
    while i < n
        invariant
            0 <= start <= i <= n,
            n == s@.len(),
            forall|k: int| start <= k < i ==> #[trigger] s@[k] != '\n',
            start < i ==> split_lines(s@.take(i as int)) =~= views_of(lines@).push(
                s@.subrange(start as int, i as int),
            ),
            start == i ==> split_lines(s@.take(i as int)) =~= views_of(lines@),
            forall|k: int| 0 <= k < lines@.len() ==> ends_nl(#[trigger] lines@[k]@),
        decreases n - i,
    {
        let c = s.get_char(i);
        proof {
            assert(s@.take(i as int + 1).drop_last() =~= s@.take(i as int));
            assert(seq![s@[i as int]] =~= s@.subrange(i as int, i as int + 1));
            if start < i {
                assert(s@.subrange(start as int, i as int).push(s@[i as int]) =~= s@.subrange(
                    start as int,
                    i as int + 1,
                ));
                assert(!ends_nl(s@.subrange(start as int, i as int)));
            }
            if lines@.len() > 0 {
                assert(ends_nl(views_of(lines@).last()));
            }
        }
        if c == '\n' {
            let line = s.substring_char(start, i + 1);
            let ghost prev = lines@;
            lines.push(line.to_owned());
            proof {
                assert(views_of(lines@) =~= views_of(prev).push(
                    s@.subrange(start as int, i as int + 1),
                ));
            }
            start = i + 1;
        }
        i += 1;
    }
    proof {
        assert(s@.take(n as int) =~= s@);
    }
    if start < n {
        let line = s.substring_char(start, n);
        let ghost prev = lines@;
        lines.push(line.to_owned());
        proof {
            assert(views_of(lines@) =~= views_of(prev).push(s@.subrange(start as int, n as int)));
        }
    }
    lines
}

} // verus!
