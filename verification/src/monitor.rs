//! The user-space control plane of the kernel interception layer: the
//! capability check that gates attachment, and the operations that drain the
//! detection table.

use vstd::prelude::*;
use crate::ebpf::{
    nul_len, spec_records_detection, utf8_lossy, DetectionTable, DETECTION_CAPACITY,
};
use crate::text::{
    all_digits, chars_vec, dec_val, field_ranges, lemma_dec_val_prefix, split_fields,
};

verus! {

/// A number read leniently: the decimal value when the text is nonempty, all
/// digits and fits the type; zero otherwise. A leading sign is not accepted.
pub open spec fn parse_u32_or_zero(s: Seq<char>) -> u32 {
    if s.len() > 0 && all_digits(s) && dec_val(s) <= u32::MAX as int {
        dec_val(s) as u32
    } else {
        0
    }
}

/// Read a digit range leniently, as `parse_u32_or_zero` describes.
pub fn parse_u32_range(v: &Vec<char>, lo: usize, hi: usize) -> (r: u32)
    requires
        lo <= hi <= v@.len(),
    ensures
        r == parse_u32_or_zero(v@.subrange(lo as int, hi as int)),
{
    let ghost s = v@.subrange(lo as int, hi as int);
    if lo == hi {
        return 0;
    }
    let mut val: u64 = 0;
    let mut i: usize = lo;
    proof {
        assert(s.take(0) =~= Seq::<char>::empty());
    }
    while i < hi
        invariant
            lo <= i <= hi <= v@.len(),
            s == v@.subrange(lo as int, hi as int),
            all_digits(s.take(i - lo)),
            val == dec_val(s.take(i - lo)),
            val <= u32::MAX,
        decreases hi - i,
    {
        let c = v[i];
        proof {
            assert(s[i - lo] == c);
        }
        if c < '0' || c > '9' {
            proof {
                assert(!all_digits(s));
            }
            return 0;
        }
        let d = (c as u32 - 48) as u64;
        val = val * 10 + d;
        proof {
            assert(s.take(i + 1 - lo).drop_last() =~= s.take(i - lo));
            assert(s.take(i + 1 - lo).last() == s[i - lo]);
            assert(all_digits(s.take(i + 1 - lo)));
            assert(val == dec_val(s.take(i + 1 - lo)));
        }
        if val > 0xFFFF_FFFFu64 {
            proof {
                if all_digits(s) {
                    lemma_dec_val_prefix(s, i + 1 - lo);
                }
            }
            return 0;
        }
        i = i + 1;
    }
    proof {
        assert(s.take(hi - lo) =~= s);
        assert(s.len() > 0);
    }
    val as u32
}

/// The dot-separated parts of `cur + s`, read one character at a time;
/// empty parts are kept.
pub open spec fn dots_acc(s: Seq<char>, cur: Seq<char>) -> Seq<Seq<char>>
    decreases s.len(),
{
    if s.len() == 0 {
        seq![cur]
    } else if s[0] == '.' {
        seq![cur] + dots_acc(s.drop_first(), Seq::empty())
    } else {
        dots_acc(s.drop_first(), cur.push(s[0]))
    }
}

/// The dot-separated parts of a version token.
pub open spec fn split_dots(s: Seq<char>) -> Seq<Seq<char>> {
    dots_acc(s, Seq::empty())
}

/// The dot-separated parts of `v[lo..hi]` as absolute index ranges.
fn dot_ranges(v: &Vec<char>, lo: usize, hi: usize) -> (r: Vec<(usize, usize)>)
    requires
        lo <= hi <= v@.len(),
    ensures
        r@.len() == split_dots(v@.subrange(lo as int, hi as int)).len(),
        forall|k: int|
            0 <= k < r@.len() ==> lo <= (#[trigger] r@[k]).0 && r@[k].0 <= r@[k].1 && r@[k].1 <= hi
                && v@.subrange(r@[k].0 as int, r@[k].1 as int) == split_dots(
                v@.subrange(lo as int, hi as int),
            )[k],
{
    let ghost tok = v@.subrange(lo as int, hi as int);
    let mut r: Vec<(usize, usize)> = Vec::new();
    let ghost mut done: Seq<Seq<char>> = Seq::empty();
    let mut pos: usize = lo;
    let mut start: usize = lo;
    proof {
        assert(tok.skip(0) =~= tok);
        assert(v@.subrange(lo as int, lo as int) =~= Seq::<char>::empty());
    }
    while pos < hi
        invariant
            lo <= start <= pos <= hi <= v@.len(),
            tok == v@.subrange(lo as int, hi as int),
            split_dots(tok) == done + dots_acc(
                tok.skip(pos - lo),
                v@.subrange(start as int, pos as int),
            ),
            r@.len() == done.len(),
            forall|k: int|
                0 <= k < r@.len() ==> lo <= (#[trigger] r@[k]).0 && r@[k].0 <= r@[k].1 && r@[k].1
                    <= hi && v@.subrange(r@[k].0 as int, r@[k].1 as int) == done[k],
        decreases hi - pos,
    {
        proof {
            assert(tok.skip(pos - lo)[0] == v@[pos as int]);
            assert(tok.skip(pos - lo).drop_first() =~= tok.skip(pos + 1 - lo));
        }
        if v[pos] == '.' {
            proof {
                done = done.push(v@.subrange(start as int, pos as int));
                assert(split_dots(tok) =~= done + dots_acc(
                    tok.skip(pos + 1 - lo),
                    Seq::<char>::empty(),
                ));
            }
            r.push((start, pos));
            pos = pos + 1;
            start = pos;
            proof {
                assert(v@.subrange(start as int, pos as int) =~= Seq::<char>::empty());
            }
        } else {
            proof {
                assert(v@.subrange(start as int, pos as int).push(v@[pos as int]) =~= v@.subrange(
                    start as int,
                    pos as int + 1,
                ));
            }
            pos = pos + 1;
        }
    }
    proof {
        assert(tok.skip(pos - lo) =~= Seq::<char>::empty());
        done = done.push(v@.subrange(start as int, pos as int));
        assert(split_dots(tok) =~= done);
    }
    r.push((start, pos));
    r
}

/// Whether a kernel-version string names a kernel new enough for the needed
/// hook class: its third whitespace field, read as a dotted major and minor
/// pair, is at least 5.7. A string without such a field, or a field without
/// a dot, is not rejected here (the capability probe that follows decides);
/// an unreadable number reads as zero and rejects.
pub open spec fn spec_version_supported(s: Seq<char>) -> bool {
    let fs = split_fields(s);
    if fs.len() < 3 {
        true
    } else {
        let parts = split_dots(fs[2]);
        if parts.len() < 2 {
            true
        } else {
            let major = parse_u32_or_zero(parts[0]) as int;
            let minor = parse_u32_or_zero(parts[1]) as int;
            major > 5 || (major == 5 && minor >= 7)
        }
    }
}

/// Check a kernel-version string against the minimum supported kernel.
pub fn version_supported(version: &str) -> (r: bool)
    ensures
        r == spec_version_supported(version@),
{
    let v = chars_vec(version);
    let hi = v.len();
    proof {
        assert(v@.subrange(0, hi as int) =~= version@);
    }
    let fields = field_ranges(&v, 0, hi);
    if fields.len() < 3 {
        return true;
    }
    let tok = fields[2];
    let parts = dot_ranges(&v, tok.0, tok.1);
    if parts.len() < 2 {
        return true;
    }
    let major = parse_u32_range(&v, parts[0].0, parts[0].1);
    let minor = parse_u32_range(&v, parts[1].0, parts[1].1);
    major > 5 || (major == 5 && minor >= 7)
}

/// One drained detection, as the monitor reports it.
pub struct UnauthorizedAttempt {
    /// The offending process.
    pub pid: u64,
    /// The captured library path.
    pub library_path: String,
    /// The kernel clock reading at the detection, in nanoseconds.
    pub timestamp: u64,
}

/// Enumerate every detection record as one row holding the process id, the
/// captured path and the timestamp, in table order; a table without records
/// gives back no rows.
pub fn get_unauthorized_attempts(table: &DetectionTable) -> (r: Vec<UnauthorizedAttempt>)
    ensures
        r@.len() == table.entries@.len(),
        forall|i: int|
            0 <= i < r@.len() ==> (#[trigger] r@[i]).pid == table.entries@[i].0 && r@[i].timestamp
                == table.entries@[i].1.timestamp && r@[i].library_path@ == utf8_lossy(
                table.entries@[i].1.path@.take(nul_len(table.entries@[i].1.path@) as int),
            ),
{
    let mut r: Vec<UnauthorizedAttempt> = Vec::new();
    let n = table.entries.len();
    let mut i: usize = 0;
    while i < n
        invariant
            0 <= i <= n,
            n == table.entries@.len(),
            r@.len() == i,
            forall|k: int|
                0 <= k < i ==> (#[trigger] r@[k]).pid == table.entries@[k].0 && r@[k].timestamp
                    == table.entries@[k].1.timestamp && r@[k].library_path@ == utf8_lossy(
                    table.entries@[k].1.path@.take(nul_len(table.entries@[k].1.path@) as int),
                ),
        decreases n - i,
    {
        let entry = &table.entries[i];
        let attempt = UnauthorizedAttempt {
            pid: entry.0,
            library_path: entry.1.path_str(),
            timestamp: entry.1.timestamp,
        };
        r.push(attempt);
        i = i + 1;
    }
    r
}

/// Delete every detection record.
pub fn clear_attempts(table: &mut DetectionTable)
    ensures
        final(table).wf(),
        final(table).entries@.len() == 0,
        forall|q: u64| !final(table).spec_contains_pid(q),
{
    table.entries.clear();
}

/// Listing right after a clear gives back nothing: a cleared table has no
/// entries, and a listing holds exactly one row per entry.
pub proof fn lemma_clear_then_list_empty(t: DetectionTable, listed: Seq<UnauthorizedAttempt>)
    requires
        t.entries@.len() == 0,
        listed.len() == t.entries@.len(),
    ensures
        listed == Seq::<UnauthorizedAttempt>::empty(),
{
    assert(listed =~= Seq::<UnauthorizedAttempt>::empty());
}

/// Across two successive denied attempts, with the kernel clock reading
/// non-decreasing, the recorded timestamps are non-decreasing: each denied
/// attempt's record carries that attempt's clock reading, and a later denial
/// never rewrites another process's record.
pub proof fn lemma_detection_timestamps_monotonic(
    t0: DetectionTable,
    t1: DetectionTable,
    t2: DetectionTable,
    pid1: u64,
    pid2: u64,
    name1: Seq<u8>,
    name2: Seq<u8>,
    ts1: u64,
    ts2: u64,
)
    requires
        ts1 <= ts2,
        t0.spec_contains_pid(pid1) || t0.entries@.len() < DETECTION_CAPACITY as int,
        t1.spec_contains_pid(pid2) || t1.entries@.len() < DETECTION_CAPACITY as int,
        spec_records_detection(t0, t1, pid1, name1, ts1),
        spec_records_detection(t1, t2, pid2, name2, ts2),
    ensures
        t2.spec_contains_pid(pid2) && t2.spec_record_of(pid2).timestamp == ts2,
        pid1 != pid2 ==> t2.spec_contains_pid(pid1) && t2.spec_record_of(pid1).timestamp == ts1
            && t2.spec_record_of(pid1).timestamp <= t2.spec_record_of(pid2).timestamp,
{
}

} // verus!
