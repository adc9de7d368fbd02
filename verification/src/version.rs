//! Version string of this crate and comparison of dotted version strings.
//!
//! A version string such as `"0.3.2"` is split on `'.'` and its first three
//! components are compared numerically, most significant first.  A component
//! that is not a plain decimal number counts as `0`; the third component is
//! read from its first character only, so that a suffixed build tag (as in
//! `"0.3.2-dev"`) still orders by its leading digit.

use vstd::prelude::*;

verus! {

/// The crate's version, as shown in the user interface.
pub const VERSION: &'static str = "0.4.0";

/// Returns the crate's version string.
pub fn get_version() -> (r: &'static str)
    ensures
        r@ == VERSION@,
{
    VERSION
}

/// Numeric value of a sequence of decimal digit characters, most significant
/// first.
pub open spec fn dec_val(p: Seq<char>) -> int
    decreases p.len(),
{
    if p.len() == 0 {
        0
    } else {
        dec_val(p.drop_last()) * 10 + (p.last() as int - '0' as int)
    }
}

/// True when every character of `p` is a decimal digit.
pub open spec fn all_digits(p: Seq<char>) -> bool {
    forall|i: int| 0 <= i < p.len() ==> '0' <= #[trigger] p[i] <= '9'
}

/// The numeric reading of one version component: its decimal value when it is
/// a non-empty digit string whose value fits in `u32`, and `0` otherwise.
pub open spec fn component_val(p: Seq<char>) -> u32 {
    if p.len() > 0 && all_digits(p) && dec_val(p) <= u32::MAX {
        dec_val(p) as u32
    } else {
        0
    }
}

/// The numeric reading of the third version component: only the first
/// character is considered.
pub open spec fn third_component_val(p: Seq<char>) -> u32 {
    if p.len() == 0 {
        0
    } else {
        component_val(p.take(1))
    }
}

/// `s` split on `'.'`; splitting the empty sequence yields one empty part.
pub open spec fn split_dots(s: Seq<char>) -> Seq<Seq<char>> {
    crate::strutil::split_sep(s, '.')
}

/// The three numeric components read from a version string.
pub open spec fn spec_parse_version(s: Seq<char>) -> Seq<u32> {
    let parts = split_dots(s);
    Seq::new(
        3,
        |i: int|
            if i < parts.len() {
                if i == 2 {
                    third_component_val(parts[i])
                } else {
                    component_val(parts[i])
                }
            } else {
                0u32
            },
    )
}

/// True when the `latest` version is strictly newer than `current`, comparing
/// the three numeric components in order.
pub open spec fn spec_version_newer(current: Seq<char>, latest: Seq<char>) -> bool {
    let c = spec_parse_version(current);
    let l = spec_parse_version(latest);
    exists|i: int|
        0 <= i < 3 && l[i] > c[i] && (forall|j: int| 0 <= j < i ==> l[j] == c[j])
}

proof fn lemma_dec_val_nonneg(p: Seq<char>)
    requires
        all_digits(p),
    ensures
        dec_val(p) >= 0,
    decreases p.len(),
{
    if p.len() > 0 {
        assert(all_digits(p.drop_last())) by {
            assert(forall|i: int|
                0 <= i < p.len() - 1 ==> '0' <= #[trigger] p.drop_last()[i] <= '9');
        }
        lemma_dec_val_nonneg(p.drop_last());
    }
}

proof fn lemma_dec_val_prefix(p: Seq<char>, j: int)
    requires
        all_digits(p),
        0 <= j <= p.len(),
    ensures
        dec_val(p) >= dec_val(p.take(j)),
    decreases p.len() - j,
{
    if j < p.len() {
        let q = p.take(j + 1);
        assert(q.drop_last() =~= p.take(j));
        assert(all_digits(p.take(j)));
        lemma_dec_val_nonneg(p.take(j));
        assert(dec_val(q) == dec_val(p.take(j)) * 10 + (q.last() as int - '0' as int));
        assert(dec_val(q) >= dec_val(p.take(j)));
        lemma_dec_val_prefix(p, j + 1);
    } else {
        assert(p.take(j) =~= p);
    }
}

/// Reads the decimal digits of `p` as a `u32`, returning `0` for an empty,
/// non-numeric or overflowing component.
fn parse_component(p: &Vec<char>) -> (r: u32)
    ensures
        r == component_val(p@),
{
    if p.len() == 0 {
        return 0;
    }
    let mut acc: u64 = 0;
    let mut i: usize = 0;
    while i < p.len()
        invariant
            0 <= i <= p@.len(),
            all_digits(p@.take(i as int)),
            acc == dec_val(p@.take(i as int)),
            acc <= u32::MAX,
        decreases p@.len() - i,
    {
        let c = p[i];
        if c < '0' || c > '9' {
            assert(!all_digits(p@));
            return 0;
        }
        let d: u64 = (c as u64) - ('0' as u64);
        let next: u64 = acc * 10 + d;
        proof {
            assert(p@.take(i as int + 1).drop_last() =~= p@.take(i as int));
            assert(dec_val(p@.take(i as int + 1)) == next);
        }
        if next > u32::MAX as u64 {
            proof {
                if all_digits(p@) {
                    lemma_dec_val_prefix(p@, i as int + 1);
                }
            }
            return 0;
        }
        acc = next;
        i += 1;
        assert(all_digits(p@.take(i as int)));
    }
    proof {
        assert(p@.take(p@.len() as int) =~= p@);
    }
    acc as u32
}

/// Splits `s` on `'.'` into its components.
fn split_on_dots(s: &str) -> (r: Vec<Vec<char>>)
    ensures
        r@.map_values(|p: Vec<char>| p@) =~= split_dots(s@),
{
    let n: usize = s.unicode_len();
    let mut parts: Vec<Vec<char>> = Vec::new();
    let mut cur: Vec<char> = Vec::new();
    let mut i: usize = 0;
    while i < n
        invariant
            0 <= i <= s@.len(),
            n == s@.len(),
            split_dots(s@.take(i as int)) =~= r_model(parts@, cur@),
        decreases s@.len() - i,
    {
        let c = s.get_char(i);
        proof {
            assert(s@.take(i as int + 1).drop_last() =~= s@.take(i as int));
        }
        if c == '.' {
            parts.push(cur);
            cur = Vec::new();
        } else {
            cur.push(c);
        }
        i += 1;
    }
    proof {
        assert(s@.take(n as int) =~= s@);
    }
    let ghost parts_v = parts@;
    let ghost cur_v = cur@;
    parts.push(cur);
    proof {
        assert(parts@.map_values(|p: Vec<char>| p@) =~= r_model(parts_v, cur_v));
    }
    parts
}

/// The parts accumulated so far, with the part still being built at the end.
spec fn r_model(parts: Seq<Vec<char>>, cur: Seq<char>) -> Seq<Seq<char>> {
    parts.map_values(|p: Vec<char>| p@).push(cur)
}

/// Reads the three numeric components of a version string.
fn parse_version(s: &str) -> (r: Vec<u32>)
    ensures
        r@ =~= spec_parse_version(s@),
{
    let parts = split_on_dots(s);
    let mut r: Vec<u32> = Vec::new();
    let mut i: usize = 0;
    while i < 3
        invariant
            0 <= i <= 3,
            r@.len() == i,
            parts@.map_values(|p: Vec<char>| p@) =~= split_dots(s@),
            forall|j: int| 0 <= j < i ==> r@[j] == spec_parse_version(s@)[j],
        decreases 3 - i,
    {
        if i < parts.len() {
            let p = &parts[i];
            if i == 2 {
                if p.len() == 0 {
                    r.push(0);
                } else {
                    let mut first: Vec<char> = Vec::new();
                    first.push(p[0]);
                    proof {
                        assert(first@ =~= p@.take(1));
                    }
                    let v: u32 = parse_component(&first);
                    r.push(v);
                }
            } else {
                let v: u32 = parse_component(p);
                r.push(v);
            }
        } else {
            r.push(0);
        }
        i += 1;
    }
    r
}

/// Compares two dotted version strings; true exactly when `latest` is newer
/// than `current` under [`spec_version_newer`].
pub fn compare_versions(current: &str, latest: &str) -> (r: bool)
    ensures
        r == spec_version_newer(current@, latest@),
{
    let c = parse_version(current);
    let l = parse_version(latest);
    let mut i: usize = 0;
    while i < 3
        invariant
            0 <= i <= 3,
            c@ =~= spec_parse_version(current@),
            l@ =~= spec_parse_version(latest@),
            forall|j: int| 0 <= j < i ==> l@[j] == c@[j],
        decreases 3 - i,
    {
        if l[i] > c[i] {
            return true;
        } else if l[i] < c[i] {
            return false;
        }
        i += 1;
    }
    false
}

} // verus!
