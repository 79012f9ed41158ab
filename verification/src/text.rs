//! Character-sequence primitives for the playlist parser.
//!
//! The specification side works on `Seq<char>`: splitting a document into
//! lines the way `str::lines` does (a line ends at `'\n'`, a `'\r'` right
//! before the `'\n'` is dropped, and a final line needs no terminator),
//! prefix tests, and locating the first occurrence of a character. The
//! executable side mirrors each of these on `&str`, proved against the
//! specification functions.

use vstd::prelude::*;
use vstd::string::StrSliceExecFns;

verus! {

/// `p` is an initial run of `l`.
pub open spec fn has_prefix(l: Seq<char>, p: Seq<char>) -> bool {
    p.len() <= l.len() && l.subrange(0, p.len() as int) == p
}

/// Index of the first occurrence of `c` in `s`, or `s.len()` if there is none.
pub open spec fn first_index(s: Seq<char>, c: char) -> int
    decreases s.len(),
{
    if s.len() <= 0 {
        0
    } else if s[0] == c {
        0
    } else {
        1 + first_index(s.subrange(1, s.len() as int), c)
    }
}

/// `first_index` points at the first occurrence of `c`, or past the end.
pub proof fn lemma_first_index_bounds(s: Seq<char>, c: char)
    ensures
        0 <= first_index(s, c) <= s.len(),
        forall|i: int| 0 <= i < first_index(s, c) ==> s[i] != c,
        first_index(s, c) < s.len() ==> s[first_index(s, c)] == c,
    decreases s.len(),
{
    if s.len() == 0 {
    } else if s[0] == c {
    } else {
        let sub = s.subrange(1, s.len() as int);
        lemma_first_index_bounds(sub, c);
        assert forall|i: int| 0 <= i < first_index(s, c) implies s[i] != c by {
            if i >= 1 {
                assert(s[i] == sub[i - 1]);
            }
        }
    }
}

/// Any position `k` with no `c` before it and `c` at it (or `k` past the end
/// with no `c` anywhere before) is exactly `first_index`.
pub proof fn lemma_first_index_is(s: Seq<char>, c: char, k: int)
    requires
        0 <= k <= s.len(),
        forall|i: int| 0 <= i < k ==> s[i] != c,
        k < s.len() ==> s[k] == c,
    ensures
        first_index(s, c) == k,
    decreases s.len(),
{
    if s.len() == 0 {
    } else if s[0] == c {
        assert(k == 0);
    } else {
        assert(k >= 1) by {
            assert(s[0] != c);
        }
        let sub = s.subrange(1, s.len() as int);
        assert forall|i: int| 0 <= i < k - 1 implies sub[i] != c by {
            assert(sub[i] == s[i + 1]);
        }
        assert(k - 1 < sub.len() ==> sub[k - 1] == c);
        lemma_first_index_is(sub, c, k - 1);
    }
}

/// Everything before the first comma, or all of `s` if it has none.
pub open spec fn before_comma(s: Seq<char>) -> Seq<char> {
    s.take(first_index(s, ','))
}

/// Drops a final carriage return, as `str::lines` does on a line that a
/// newline terminated.
pub open spec fn strip_cr(l: Seq<char>) -> Seq<char> {
    if l.len() > 0 && l[l.len() - 1] == '\r' {
        l.drop_last()
    } else {
        l
    }
}

/// The line split of `s`, with `str::lines` semantics: lines end at `'\n'`
/// (a `'\r'` just before it is dropped), the final line needs no
/// terminator, and an empty document has no lines.
pub open spec fn spec_lines(s: Seq<char>) -> Seq<Seq<char>>
    decreases s.len(),
    via spec_lines_decreases
{
    if s.len() == 0 {
        Seq::empty()
    } else {
        let n = first_index(s, '\n');
        if n == s.len() {
            seq![s]
        } else {
            seq![strip_cr(s.subrange(0, n))] + spec_lines(s.subrange(n + 1, s.len() as int))
        }
    }
}

#[via_fn]
proof fn spec_lines_decreases(s: Seq<char>) {
    lemma_first_index_bounds(s, '\n');
}

/// How many of `lines` begin with `p`.
pub open spec fn count_prefixed(lines: Seq<Seq<char>>, p: Seq<char>) -> int
    decreases lines.len(),
{
    if lines.len() == 0 {
        0
    } else {
        count_prefixed(lines.drop_last(), p) + (if has_prefix(lines.last(), p) {
            1int
        } else {
            0int
        })
    }
}

/// Index of the first line beginning with `p`, or `lines.len()` if none does.
pub open spec fn first_prefixed(lines: Seq<Seq<char>>, p: Seq<char>) -> int
    decreases lines.len(),
{
    if lines.len() == 0 {
        0
    } else if has_prefix(lines[0], p) {
        0
    } else {
        1 + first_prefixed(lines.subrange(1, lines.len() as int), p)
    }
}

/// `first_prefixed` points at the first matching line, or past the end.
pub proof fn lemma_first_prefixed_bounds(lines: Seq<Seq<char>>, p: Seq<char>)
    ensures
        0 <= first_prefixed(lines, p) <= lines.len(),
        forall|i: int| 0 <= i < first_prefixed(lines, p) ==> !has_prefix(lines[i], p),
        first_prefixed(lines, p) < lines.len() ==> has_prefix(lines[first_prefixed(lines, p)], p),
    decreases lines.len(),
{
    if lines.len() == 0 {
    } else if has_prefix(lines[0], p) {
    } else {
        let sub = lines.subrange(1, lines.len() as int);
        lemma_first_prefixed_bounds(sub, p);
        assert forall|i: int| 0 <= i < first_prefixed(lines, p) implies !has_prefix(
            lines[i],
            p,
        ) by {
            if i >= 1 {
                assert(lines[i] == sub[i - 1]);
            }
        }
    }
}

/// Any position `k` with no matching line before it and a match at it (or
/// `k` past the end with no match at all) is exactly `first_prefixed`.
pub proof fn lemma_first_prefixed_is(lines: Seq<Seq<char>>, p: Seq<char>, k: int)
    requires
        0 <= k <= lines.len(),
        forall|i: int| 0 <= i < k ==> !has_prefix(lines[i], p),
        k < lines.len() ==> has_prefix(lines[k], p),
    ensures
        first_prefixed(lines, p) == k,
    decreases lines.len(),
{
    if lines.len() == 0 {
    } else if has_prefix(lines[0], p) {
        assert(k == 0);
    } else {
        assert(k >= 1) by {
            assert(!has_prefix(lines[0], p));
        }
        let sub = lines.subrange(1, lines.len() as int);
        assert forall|i: int| 0 <= i < k - 1 implies !has_prefix(sub[i], p) by {
            assert(sub[i] == lines[i + 1]);
        }
        assert(k - 1 < sub.len() ==> has_prefix(sub[k - 1], p));
        lemma_first_prefixed_is(sub, p, k - 1);
    }
}

pub proof fn lemma_count_prefixed_nonneg(lines: Seq<Seq<char>>, p: Seq<char>)
    ensures
        count_prefixed(lines, p) >= 0,
    decreases lines.len(),
{
    if lines.len() > 0 {
        lemma_count_prefixed_nonneg(lines.drop_last(), p);
    }
}

/// When no line begins with `p`, none is counted.
pub proof fn lemma_count_prefixed_zero(lines: Seq<Seq<char>>, p: Seq<char>)
    requires
        forall|i: int| 0 <= i < lines.len() ==> !has_prefix(lines[i], p),
    ensures
        count_prefixed(lines, p) == 0,
    decreases lines.len(),
{
    if lines.len() > 0 {
        assert forall|i: int| 0 <= i < lines.drop_last().len() implies !has_prefix(
            lines.drop_last()[i],
            p,
        ) by {
            assert(lines.drop_last()[i] == lines[i]);
        }
        lemma_count_prefixed_zero(lines.drop_last(), p);
        assert(!has_prefix(lines.last(), p));
    }
}

/// A line beginning with `p` is counted.
pub proof fn lemma_count_prefixed_one(lines: Seq<Seq<char>>, p: Seq<char>, i: int)
    requires
        0 <= i < lines.len(),
        has_prefix(lines[i], p),
    ensures
        count_prefixed(lines, p) >= 1,
    decreases lines.len(),
{
    if i == lines.len() - 1 {
        lemma_count_prefixed_nonneg(lines.drop_last(), p);
        assert(lines.last() == lines[i]);
    } else {
        assert(lines.drop_last()[i] == lines[i]);
        lemma_count_prefixed_one(lines.drop_last(), p, i);
    }
}

/// Two distinct lines beginning with `p` are both counted.
pub proof fn lemma_count_prefixed_two(lines: Seq<Seq<char>>, p: Seq<char>, i: int, j: int)
    requires
        0 <= i < j < lines.len(),
        has_prefix(lines[i], p),
        has_prefix(lines[j], p),
    ensures
        count_prefixed(lines, p) >= 2,
    decreases lines.len(),
{
    if j == lines.len() - 1 {
        assert(lines.drop_last()[i] == lines[i]);
        lemma_count_prefixed_one(lines.drop_last(), p, i);
        assert(lines.last() == lines[j]);
    } else {
        assert(lines.drop_last()[i] == lines[i]);
        assert(lines.drop_last()[j] == lines[j]);
        lemma_count_prefixed_two(lines.drop_last(), p, i, j);
    }
}

/// A prefix of a prefix of `l` is itself a prefix of `l`.
pub proof fn lemma_prefix_trans(l: Seq<char>, p: Seq<char>, q: Seq<char>)
    requires
        has_prefix(l, p),
        has_prefix(p, q),
    ensures
        has_prefix(l, q),
{
    assert forall|i: int| 0 <= i < q.len() implies l.subrange(0, q.len() as int)[i] == q[i] by {
        assert(l.subrange(0, p.len() as int)[i] == l[i]);
        assert(p.subrange(0, q.len() as int)[i] == p[i]);
    }
    assert(l.subrange(0, q.len() as int) =~= q);
}

/// Whether `l` begins with `p`, proved against [`has_prefix`].
pub fn str_starts_with(l: &str, p: &str) -> (r: bool)
    ensures
        r == has_prefix(l@, p@),
{
    let ll = l.unicode_len();
    let pl = p.unicode_len();
    if pl > ll {
        return false;
    }
    let mut i: usize = 0;
    while i < pl
        invariant
            0 <= i <= pl,
            pl == p@.len(),
            ll == l@.len(),
            pl <= ll,
            forall|j: int| 0 <= j < i ==> l@[j] == p@[j],
        decreases pl - i,
    {
        if l.get_char(i) != p.get_char(i) {
            proof {
                assert(l@.subrange(0, pl as int)[i as int] == l@[i as int]);
            }
            return false;
        }
        i += 1;
    }
    proof {
        assert(l@.subrange(0, pl as int) =~= p@);
    }
    true
}

/// Whether `a` and `b` hold the same characters.
pub fn str_eq(a: &str, b: &str) -> (r: bool)
    ensures
        r == (a@ == b@),
{
    let al = a.unicode_len();
    let bl = b.unicode_len();
    if al != bl {
        return false;
    }
    let mut i: usize = 0;
    while i < al
        invariant
            0 <= i <= al,
            al == a@.len(),
            bl == b@.len(),
            al == bl,
            forall|j: int| 0 <= j < i ==> a@[j] == b@[j],
        decreases al - i,
    {
        if a.get_char(i) != b.get_char(i) {
            return false;
        }
        i += 1;
    }
    proof {
        assert(a@ =~= b@);
    }
    true
}

/// Index of the first occurrence of `c` in `s`, or `s`'s length if there is
/// none, proved against [`first_index`].
pub fn find_char(s: &str, c: char) -> (r: usize)
    ensures
        r == first_index(s@, c),
        r <= s@.len(),
{
    let len = s.unicode_len();
    let mut i: usize = 0;
    while i < len && s.get_char(i) != c
        invariant
            0 <= i <= len,
            len == s@.len(),
            forall|j: int| 0 <= j < i ==> s@[j] != c,
        decreases len - i,
    {
        i += 1;
    }
    proof {
        lemma_first_index_is(s@, c, i as int);
    }
    i
}

/// Splits a document into lines as `str::lines` does, proved against
/// [`spec_lines`].
pub fn split_lines<'a>(s: &'a str) -> (lines: Vec<&'a str>)
    ensures
        lines@.map_values(|l: &str| l@) == spec_lines(s@),
{
    let mut lines: Vec<&'a str> = Vec::new();
    let mut pos: usize = 0;
    let len = s.unicode_len();
    proof {
        assert(s@.subrange(0, len as int) =~= s@);
        assert(lines@.map_values(|l: &str| l@) =~= Seq::<Seq<char>>::empty());
        assert(Seq::<Seq<char>>::empty() + spec_lines(s@) =~= spec_lines(s@));
    }
    while pos < len
        invariant
            0 <= pos <= len,
            len == s@.len(),
            spec_lines(s@) == lines@.map_values(|l: &str| l@) + spec_lines(
                s@.subrange(pos as int, len as int),
            ),
        decreases len - pos,
    {
        let ghost prev_lines = lines@;
        let ghost rest = s@.subrange(pos as int, len as int);
        let piece = s.substring_char(pos, len);
        let k = find_char(piece, '\n');
        proof {
            lemma_first_index_bounds(rest, '\n');
        }
        if pos + k < len {
            let end = if k > 0 && piece.get_char(k - 1) == '\r' {
                pos + k - 1
            } else {
                pos + k
            };
            let line = s.substring_char(pos, end);
            lines.push(line);
            proof {
                let n = k as int;
                assert(rest.subrange(0, n) =~= s@.subrange(pos as int, pos + n));
                if n > 0 && rest[n - 1] == '\r' {
                    assert(rest.subrange(0, n).drop_last() =~= s@.subrange(
                        pos as int,
                        pos + n - 1,
                    ));
                }
                assert(line@ == strip_cr(rest.subrange(0, n)));
                assert(rest.subrange(n + 1, rest.len() as int) =~= s@.subrange(
                    pos + n + 1,
                    len as int,
                ));
                assert(spec_lines(rest) == seq![line@] + spec_lines(
                    s@.subrange(pos + n + 1, len as int),
                ));
                assert(lines@.map_values(|l: &str| l@) =~= prev_lines.map_values(|l: &str| l@)
                    + seq![line@]);
                assert(prev_lines.map_values(|l: &str| l@) + (seq![line@] + spec_lines(
                    s@.subrange(pos + n + 1, len as int),
                )) =~= (prev_lines.map_values(|l: &str| l@) + seq![line@]) + spec_lines(
                    s@.subrange(pos + n + 1, len as int),
                ));
            }
            pos = pos + k + 1;
        } else {
            lines.push(piece);
            proof {
                assert(k == rest.len());
                assert(spec_lines(rest) == seq![rest]);
                assert(lines@.map_values(|l: &str| l@) =~= prev_lines.map_values(|l: &str| l@)
                    + seq![rest]);
                assert(s@.subrange(len as int, len as int) =~= Seq::<char>::empty());
                assert(spec_lines(s@.subrange(len as int, len as int)) == Seq::<
                    Seq<char>,
                >::empty());
                assert(lines@.map_values(|l: &str| l@) + Seq::<Seq<char>>::empty()
                    =~= lines@.map_values(|l: &str| l@));
            }
            pos = len;
        }
    }
    proof {
        assert(s@.subrange(len as int, len as int) =~= Seq::<char>::empty());
        assert(lines@.map_values(|l: &str| l@) + Seq::<Seq<char>>::empty() =~= lines@.map_values(
            |l: &str| l@,
        ));
    }
    lines
}

} // verus!
