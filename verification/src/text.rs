//! Character-level text scanning: line splitting, whitespace tokenization,
//! basenames and substring tests, each with an exact specification.
//!
//! The separators recognised here are the ASCII whitespace characters; a
//! process-map snapshot contains no other separators.

use vstd::prelude::*;
use vstd::std_specs::iter::IteratorSpec;

verus! {

broadcast use vstd::string::group_string_axioms;

/// ASCII whitespace: the field separators of a process-map line.
pub open spec fn is_field_space(c: char) -> bool {
    c == ' ' || c == '\t' || c == '\n' || c == '\r' || c == '\u{b}' || c == '\u{c}'
}

/// A line with one trailing carriage return dropped, as `str::lines` yields it.
pub open spec fn chop_cr(line: Seq<char>) -> Seq<char> {
    if line.len() > 0 && line.last() == '\r' {
        line.drop_last()
    } else {
        line
    }
}

/// The lines of `cur + s`, read one character at a time; `cur` is the partial
/// line read so far.
pub open spec fn lines_acc(s: Seq<char>, cur: Seq<char>) -> Seq<Seq<char>>
    decreases s.len(),
{
    if s.len() == 0 {
        if cur.len() == 0 {
            Seq::empty()
        } else {
            seq![cur]
        }
    } else if s[0] == '\n' {
        seq![chop_cr(cur)] + lines_acc(s.drop_first(), Seq::empty())
    } else {
        lines_acc(s.drop_first(), cur.push(s[0]))
    }
}

/// The lines of a text: split at newlines, a carriage return before each
/// newline dropped, and no empty final line after a trailing newline.
pub open spec fn split_lines(s: Seq<char>) -> Seq<Seq<char>> {
    lines_acc(s, Seq::empty())
}

/// The whitespace-separated fields of `cur + s`, read one character at a
/// time; `cur` is the partial field read so far.
pub open spec fn fields_acc(s: Seq<char>, cur: Seq<char>) -> Seq<Seq<char>>
    decreases s.len(),
{
    if s.len() == 0 {
        if cur.len() == 0 {
            Seq::empty()
        } else {
            seq![cur]
        }
    } else if is_field_space(s[0]) {
        if cur.len() == 0 {
            fields_acc(s.drop_first(), Seq::empty())
        } else {
            seq![cur] + fields_acc(s.drop_first(), Seq::empty())
        }
    } else {
        fields_acc(s.drop_first(), cur.push(s[0]))
    }
}

/// The whitespace-separated fields of a line: maximal runs of non-space
/// characters, in order.
pub open spec fn split_fields(s: Seq<char>) -> Seq<Seq<char>> {
    fields_acc(s, Seq::empty())
}

/// The basename of `cur + p`, read one character at a time; `cur` holds the
/// characters read since the last slash.
pub open spec fn base_acc(p: Seq<char>, cur: Seq<char>) -> Seq<char>
    decreases p.len(),
{
    if p.len() == 0 {
        cur
    } else if p[0] == '/' {
        base_acc(p.drop_first(), Seq::empty())
    } else {
        base_acc(p.drop_first(), cur.push(p[0]))
    }
}

/// The final path component: everything after the last slash. A path ending
/// in a slash has an empty basename.
pub open spec fn basename(p: Seq<char>) -> Seq<char> {
    base_acc(p, Seq::empty())
}

/// The shared-library heuristic: the name contains the substring `.so`
/// anywhere, so that versioned names such as `libfoo.so.1.2` qualify.
pub open spec fn contains_so(name: Seq<char>) -> bool {
    exists|i: int|
        0 <= i && i + 3 <= name.len() && #[trigger] name[i] == '.' && name[i + 1] == 's' && name[i
            + 2] == 'o'
}

/// Two characters match ignoring ASCII case: equal, or the same letter in
/// the two cases.
pub open spec fn chars_match_ci(a: char, b: char) -> bool {
    a == b || ('A' <= a && a <= 'Z' && a as u32 + 32 == b as u32) || ('A' <= b && b <= 'Z' && b
        as u32 + 32 == a as u32)
}

/// Two character sequences match ignoring ASCII case.
pub open spec fn seq_matches_ci(s: Seq<char>, t: Seq<char>) -> bool {
    s.len() == t.len() && forall|i: int| 0 <= i < s.len() ==> chars_match_ci(#[trigger] s[i], t[i])
}

/// A sequence with leading ASCII whitespace removed.
pub open spec fn trim_front(s: Seq<char>) -> Seq<char>
    decreases s.len(),
{
    if s.len() > 0 && is_field_space(s[0]) {
        trim_front(s.drop_first())
    } else {
        s
    }
}

/// A sequence with trailing ASCII whitespace removed.
pub open spec fn trim_back(s: Seq<char>) -> Seq<char>
    decreases s.len(),
{
    if s.len() > 0 && is_field_space(s.last()) {
        trim_back(s.drop_last())
    } else {
        s
    }
}

/// A sequence with leading and trailing ASCII whitespace removed.
pub open spec fn trim_spaces(s: Seq<char>) -> Seq<char> {
    trim_back(trim_front(s))
}

/// Whether a sequence starts with a prefix.
pub open spec fn starts_with_chars(s: Seq<char>, p: Seq<char>) -> bool {
    s.len() >= p.len() && s.take(p.len() as int) == p
}

/// Whether every character is a decimal digit.
pub open spec fn all_digits(s: Seq<char>) -> bool {
    forall|i: int| 0 <= i < s.len() ==> '0' <= #[trigger] s[i] && s[i] <= '9'
}

/// The decimal value of a digit string.
pub open spec fn dec_val(s: Seq<char>) -> int
    decreases s.len(),
{
    if s.len() == 0 {
        0
    } else {
        dec_val(s.drop_last()) * 10 + (s.last() as u32 - '0' as u32)
    }
}

/// The value of a digit string is never negative.
pub proof fn lemma_dec_val_nonneg(s: Seq<char>)
    requires
        all_digits(s),
    ensures
        dec_val(s) >= 0,
    decreases s.len(),
{
    if s.len() > 0 {
        assert(all_digits(s.drop_last()));
        lemma_dec_val_nonneg(s.drop_last());
        assert('0' <= s[s.len() - 1] && s[s.len() - 1] <= '9');
    }
}

/// A digit string is worth at least any of its prefixes.
pub proof fn lemma_dec_val_prefix(s: Seq<char>, i: int)
    requires
        all_digits(s),
        0 <= i <= s.len(),
    ensures
        dec_val(s.take(i)) <= dec_val(s),
    decreases s.len() - i,
{
    if i == s.len() {
        assert(s.take(i) =~= s);
    } else {
        assert(s.take(i + 1).drop_last() =~= s.take(i));
        assert(s.take(i + 1).last() == s[i]);
        assert(all_digits(s.take(i)));
        assert(all_digits(s.take(i + 1)));
        lemma_dec_val_nonneg(s.take(i));
        assert('0' <= s[i] && s[i] <= '9');
        assert(dec_val(s.take(i)) <= dec_val(s.take(i + 1)));
        lemma_dec_val_prefix(s, i + 1);
    }
}

/// The characters of a string, collected into a vector.
pub fn chars_vec(s: &str) -> (r: Vec<char>)
    ensures
        r@ == s@,
{
    let mut it = s.chars();
    let mut r: Vec<char> = Vec::new();
    loop
        invariant
            r@ + it.remaining() == s@,
        ensures
            r@ == s@,
        decreases s@.len() - r@.len(),
    {
        match it.next() {
            Some(c) => {
                r.push(c);
            },
            None => {
                proof {
                    assert(r@ =~= s@);
                }
                break ;
            },
        }
    }
    r
}

/// The lines of `v` as index ranges into `v`, matching `split_lines(v@)`.
pub fn line_ranges(v: &Vec<char>) -> (r: Vec<(usize, usize)>)
    ensures
        r@.len() == split_lines(v@).len(),
        forall|k: int|
            0 <= k < r@.len() ==> (#[trigger] r@[k]).0 <= r@[k].1 && r@[k].1 <= v@.len()
                && v@.subrange(r@[k].0 as int, r@[k].1 as int) == split_lines(v@)[k],
{
    let mut r: Vec<(usize, usize)> = Vec::new();
    let ghost mut done: Seq<Seq<char>> = Seq::empty();
    let mut pos: usize = 0;
    let mut start: usize = 0;
    proof {
        assert(v@.skip(0) =~= v@);
        assert(v@.subrange(0, 0) =~= Seq::<char>::empty());
    }
    while pos < v.len()
        invariant
            start <= pos <= v@.len(),
            split_lines(v@) == done + lines_acc(
                v@.skip(pos as int),
                v@.subrange(start as int, pos as int),
            ),
            r@.len() == done.len(),
            forall|k: int|
                0 <= k < r@.len() ==> (#[trigger] r@[k]).0 <= r@[k].1 && r@[k].1 <= v@.len()
                    && v@.subrange(r@[k].0 as int, r@[k].1 as int) == done[k],
        decreases v@.len() - pos,
    {
        proof {
            assert(v@.skip(pos as int)[0] == v@[pos as int]);
            assert(v@.skip(pos as int).drop_first() =~= v@.skip(pos as int + 1));
        }
        if v[pos] == '\n' {
            let end = if pos > start && v[pos - 1] == '\r' {
                pos - 1
            } else {
                pos
            };
            proof {
                let cur = v@.subrange(start as int, pos as int);
                if pos > start && v@[pos as int - 1] == '\r' {
                    assert(cur.last() == '\r');
                    assert(chop_cr(cur) =~= v@.subrange(start as int, end as int));
                } else {
                    assert(chop_cr(cur) =~= v@.subrange(start as int, end as int));
                }
                done = done.push(v@.subrange(start as int, end as int));
                assert(split_lines(v@) =~= done + lines_acc(
                    v@.skip(pos as int + 1),
                    Seq::<char>::empty(),
                ));
            }
            r.push((start, end));
            pos = pos + 1;
            start = pos;
            proof {
                assert(v@.subrange(start as int, pos as int) =~= Seq::<char>::empty());
            }
        } else {
            proof {
                assert(v@.subrange(start as int, pos as int).push(v@[pos as int]) =~= v@.subrange(
                    start as int,
                    pos as int + 1,
                ));
            }
            pos = pos + 1;
        }
    }
    proof {
        assert(v@.skip(pos as int) =~= Seq::<char>::empty());
    }
    if start < pos {
        proof {
            done = done.push(v@.subrange(start as int, pos as int));
            assert(split_lines(v@) =~= done);
        }
        r.push((start, pos));
    } else {
        proof {
            assert(split_lines(v@) =~= done);
        }
    }
    r
}

/// The whitespace-separated fields of `v[lo..hi]` as absolute index ranges
/// into `v`, matching `split_fields` of that line.
pub fn field_ranges(v: &Vec<char>, lo: usize, hi: usize) -> (r: Vec<(usize, usize)>)
    requires
        lo <= hi <= v@.len(),
    ensures
        r@.len() == split_fields(v@.subrange(lo as int, hi as int)).len(),
        forall|k: int|
            0 <= k < r@.len() ==> lo <= (#[trigger] r@[k]).0 && r@[k].0 <= r@[k].1 && r@[k].1 <= hi
                && v@.subrange(r@[k].0 as int, r@[k].1 as int) == split_fields(
                v@.subrange(lo as int, hi as int),
            )[k],
{
    let ghost line = v@.subrange(lo as int, hi as int);
    let mut r: Vec<(usize, usize)> = Vec::new();
    let ghost mut done: Seq<Seq<char>> = Seq::empty();
    let mut pos: usize = lo;
    let mut start: usize = lo;
    proof {
        assert(line.skip(0) =~= line);
        assert(v@.subrange(lo as int, lo as int) =~= Seq::<char>::empty());
    }
    while pos < hi
        invariant
            lo <= start <= pos <= hi <= v@.len(),
            line == v@.subrange(lo as int, hi as int),
            split_fields(line) == done + fields_acc(
                line.skip(pos - lo),
                v@.subrange(start as int, pos as int),
            ),
            r@.len() == done.len(),
            forall|k: int|
                0 <= k < r@.len() ==> lo <= (#[trigger] r@[k]).0 && r@[k].0 <= r@[k].1 && r@[k].1
                    <= hi && v@.subrange(r@[k].0 as int, r@[k].1 as int) == done[k],
        decreases hi - pos,
    {
        proof {
            assert(line.skip(pos - lo)[0] == v@[pos as int]);
            assert(line.skip(pos - lo).drop_first() =~= line.skip(pos + 1 - lo));
        }
        let c = v[pos];
        if c == ' ' || c == '\t' || c == '\n' || c == '\r' || c == '\u{b}' || c == '\u{c}' {
            if start < pos {
                proof {
                    done = done.push(v@.subrange(start as int, pos as int));
                    assert(split_fields(line) =~= done + fields_acc(
                        line.skip(pos + 1 - lo),
                        Seq::<char>::empty(),
                    ));
                }
                r.push((start, pos));
            }
            pos = pos + 1;
            start = pos;
            proof {
                assert(v@.subrange(start as int, pos as int) =~= Seq::<char>::empty());
            }
        } else {
            proof {
                assert(v@.subrange(start as int, pos as int).push(v@[pos as int]) =~= v@.subrange(
                    start as int,
                    pos as int + 1,
                ));
            }
            pos = pos + 1;
        }
    }
    proof {
        assert(line.skip(pos - lo) =~= Seq::<char>::empty());
    }
    if start < pos {
        proof {
            done = done.push(v@.subrange(start as int, pos as int));
            assert(split_fields(line) =~= done);
        }
        r.push((start, pos));
    } else {
        proof {
            assert(split_fields(line) =~= done);
        }
    }
    r
}

/// Whether `v[lo..hi]` contains the character `c`.
pub fn range_contains_char(v: &Vec<char>, lo: usize, hi: usize, c: char) -> (r: bool)
    requires
        lo <= hi <= v@.len(),
    ensures
        r == v@.subrange(lo as int, hi as int).contains(c),
{
    let ghost range = v@.subrange(lo as int, hi as int);
    let mut i: usize = lo;
    while i < hi
        invariant
            lo <= i <= hi <= v@.len(),
            range == v@.subrange(lo as int, hi as int),
            forall|k: int| 0 <= k < i - lo ==> range[k] != c,
        decreases hi - i,
    {
        if v[i] == c {
            proof {
                assert(range[i - lo] == c);
            }
            return true;
        }
        i = i + 1;
    }
    proof {
        assert(!range.contains(c)) by {
            assert(forall|k: int| 0 <= k < range.len() ==> range[k] != c);
        }
    }
    false
}

/// Whether the name in `v[lo..hi]` contains the substring `.so`.
pub fn range_contains_so(v: &Vec<char>, lo: usize, hi: usize) -> (r: bool)
    requires
        lo <= hi <= v@.len(),
    ensures
        r == contains_so(v@.subrange(lo as int, hi as int)),
{
    let ghost name = v@.subrange(lo as int, hi as int);
    if hi - lo < 3 {
        return false;
    }
    let mut i: usize = lo;
    while i <= hi - 3
        invariant
            lo <= i,
            i <= hi <= v@.len(),
            lo + 3 <= hi,
            name == v@.subrange(lo as int, hi as int),
            forall|k: int|
                0 <= k < i - lo ==> !(#[trigger] name[k] == '.' && name[k + 1] == 's' && name[k + 2]
                    == 'o'),
        decreases hi - i,
    {
        if v[i] == '.' && v[i + 1] == 's' && v[i + 2] == 'o' {
            proof {
                assert(name[i - lo] == '.' && name[i - lo + 1] == 's' && name[i - lo + 2] == 'o');
            }
            return true;
        }
        i = i + 1;
    }
    false
}

/// The start of the basename inside the path `v[lo..hi]`: the index just
/// after the last slash, or `lo` when the path has no slash.
pub fn basename_start(v: &Vec<char>, lo: usize, hi: usize) -> (s: usize)
    requires
        lo <= hi <= v@.len(),
    ensures
        lo <= s <= hi,
        basename(v@.subrange(lo as int, hi as int)) == v@.subrange(s as int, hi as int),
{
    let ghost path = v@.subrange(lo as int, hi as int);
    let mut i: usize = lo;
    let mut start: usize = lo;
    proof {
        assert(path.skip(0) =~= path);
        assert(v@.subrange(lo as int, lo as int) =~= Seq::<char>::empty());
    }
    while i < hi
        invariant
            lo <= start <= i <= hi <= v@.len(),
            path == v@.subrange(lo as int, hi as int),
            basename(path) == base_acc(path.skip(i - lo), v@.subrange(start as int, i as int)),
        decreases hi - i,
    {
        proof {
            assert(path.skip(i - lo)[0] == v@[i as int]);
            assert(path.skip(i - lo).drop_first() =~= path.skip(i + 1 - lo));
        }
        if v[i] == '/' {
            i = i + 1;
            start = i;
            proof {
                assert(v@.subrange(start as int, i as int) =~= Seq::<char>::empty());
            }
        } else {
            proof {
                assert(v@.subrange(start as int, i as int).push(v@[i as int]) =~= v@.subrange(
                    start as int,
                    i as int + 1,
                ));
            }
            i = i + 1;
        }
    }
    proof {
        assert(path.skip(i - lo) =~= Seq::<char>::empty());
    }
    start
}

/// Whether two characters match ignoring ASCII case.
pub fn char_matches_ci(a: char, b: char) -> (r: bool)
    ensures
        r == chars_match_ci(a, b),
{
    a == b || ('A' <= a && a <= 'Z' && a as u32 + 32 == b as u32) || ('A' <= b && b <= 'Z' && b
        as u32 + 32 == a as u32)
}

/// Whether `v[lo..hi]` equals the characters of `lit`.
pub fn range_eq_str(v: &Vec<char>, lo: usize, hi: usize, lit: &str) -> (r: bool)
    requires
        lo <= hi <= v@.len(),
    ensures
        r == (v@.subrange(lo as int, hi as int) == lit@),
{
    let ghost range = v@.subrange(lo as int, hi as int);
    let n = lit.unicode_len();
    if n != hi - lo {
        proof {
            assert(range.len() != lit@.len());
        }
        return false;
    }
    let mut i: usize = 0;
    while i < n
        invariant
            0 <= i <= n,
            lo <= hi <= v@.len(),
            n == lit@.len() && n == hi - lo,
            range == v@.subrange(lo as int, hi as int),
            forall|k: int| 0 <= k < i ==> range[k] == lit@[k],
        decreases n - i,
    {
        if v[lo + i] != lit.get_char(i) {
            proof {
                assert(range[i as int] != lit@[i as int]);
            }
            return false;
        }
        i = i + 1;
    }
    proof {
        assert(range =~= lit@);
    }
    true
}

/// Whether `v[lo..hi]` matches the characters of `lit` ignoring ASCII case.
pub fn range_matches_ci(v: &Vec<char>, lo: usize, hi: usize, lit: &str) -> (r: bool)
    requires
        lo <= hi <= v@.len(),
    ensures
        r == seq_matches_ci(v@.subrange(lo as int, hi as int), lit@),
{
    let ghost range = v@.subrange(lo as int, hi as int);
    let n = lit.unicode_len();
    if n != hi - lo {
        return false;
    }
    let mut i: usize = 0;
    while i < n
        invariant
            0 <= i <= n,
            lo <= hi <= v@.len(),
            n == lit@.len() && n == hi - lo,
            range == v@.subrange(lo as int, hi as int),
            forall|k: int| 0 <= k < i ==> chars_match_ci(#[trigger] range[k], lit@[k]),
        decreases n - i,
    {
        if !char_matches_ci(v[lo + i], lit.get_char(i)) {
            proof {
                assert(!chars_match_ci(range[i as int], lit@[i as int]));
            }
            return false;
        }
        i = i + 1;
    }
    true
}

/// Whether `v` starts with the characters of `lit`.
pub fn has_prefix(v: &Vec<char>, lit: &str) -> (r: bool)
    ensures
        r == (v@.len() >= lit@.len() && v@.take(lit@.len() as int) == lit@),
{
    let n = lit.unicode_len();
    if v.len() < n {
        return false;
    }
    let mut i: usize = 0;
    while i < n
        invariant
            0 <= i <= n,
            n == lit@.len() && n <= v@.len(),
            forall|k: int| 0 <= k < i ==> v@[k] == lit@[k],
        decreases n - i,
    {
        if v[i] != lit.get_char(i) {
            return false;
        }
        i = i + 1;
    }
    proof {
        assert(v@.take(lit@.len() as int) =~= lit@);
    }
    true
}

/// The bounds of `v[lo..hi]` with ASCII whitespace trimmed at both ends.
pub fn trim_range(v: &Vec<char>, lo: usize, hi: usize) -> (r: (usize, usize))
    requires
        lo <= hi <= v@.len(),
    ensures
        lo <= r.0 <= r.1 <= hi,
        trim_spaces(v@.subrange(lo as int, hi as int)) == v@.subrange(r.0 as int, r.1 as int),
{
    let mut a: usize = lo;
    let mut b: usize = hi;
    while a < b && is_space_char(v[a])
        invariant
            lo <= a <= b,
            b == hi <= v@.len(),
            trim_front(v@.subrange(lo as int, hi as int)) == trim_front(
                v@.subrange(a as int, hi as int),
            ),
        decreases b - a,
    {
        proof {
            let cur = v@.subrange(a as int, hi as int);
            assert(cur[0] == v@[a as int]);
            assert(cur.drop_first() =~= v@.subrange(a as int + 1, hi as int));
        }
        a = a + 1;
    }
    proof {
        let cur = v@.subrange(a as int, hi as int);
        if cur.len() > 0 {
            assert(cur[0] == v@[a as int]);
        }
        assert(trim_front(cur) == cur);
    }
    while b > a && is_space_char(v[b - 1])
        invariant
            lo <= a <= b <= hi <= v@.len(),
            trim_spaces(v@.subrange(lo as int, hi as int)) == trim_back(
                v@.subrange(a as int, b as int),
            ),
        decreases b,
    {
        proof {
            let cur = v@.subrange(a as int, b as int);
            assert(cur.last() == v@[b - 1]);
            assert(cur.drop_last() =~= v@.subrange(a as int, b as int - 1));
        }
        b = b - 1;
    }
    proof {
        let cur = v@.subrange(a as int, b as int);
        if cur.len() > 0 {
            assert(cur.last() == v@[b - 1]);
        }
        assert(trim_back(cur) == cur);
    }
    (a, b)
}

/// Whether `c` is ASCII whitespace.
pub fn is_space_char(c: char) -> (r: bool)
    ensures
        r == is_field_space(c),
{
    c == ' ' || c == '\t' || c == '\n' || c == '\r' || c == '\u{b}' || c == '\u{c}'
}

} // verus!
