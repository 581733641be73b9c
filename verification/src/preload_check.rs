//! The process-map auditor: parses a textual process-map snapshot, classifies
//! every executable mapped region against the effective allow-list, and
//! yields the aggregate verdict.
//!
//! A snapshot line carries an address range, a permission field, an
//! offset, a device, an inode and possibly a pathname, separated by
//! whitespace. A line is a candidate only when it has at least six
//! fields, its permission field contains `x`, and some field from the sixth
//! onward starts with `/`; the candidate's filename must contain `.so`.
//! Everything else is ignored, never an error.

use vstd::prelude::*;
use crate::config::Settings;
use crate::text::{
    basename, basename_start, chars_vec, contains_so, field_ranges, line_ranges,
    range_contains_char, range_contains_so, range_eq_str, split_fields, split_lines,
};

verus! {

/// The basename under which the protection artifact itself is mapped; it is
/// always allowed, so that the mechanism never flags itself.
pub open spec fn self_artifact_name() -> Seq<char> {
    "libhyper_processor.so"@
}

/// The fixed, conservative set of core runtime library basenames shipped
/// with the implementation; operators extend it through the policy.
pub open spec fn in_default_allowlist(name: Seq<char>) -> bool {
    ||| name == "libc.so.6"@
    ||| name == "ld-linux-x86-64.so.2"@
    ||| name == "libdl.so.2"@
    ||| name == "libm.so.6"@
    ||| name == "libpthread.so.0"@
    ||| name == "libgcc_s.so.1"@
    ||| name == "librt.so.1"@
    ||| name == "libresolv.so.2"@
    ||| name == "libselinux.so.1"@
    ||| name == "libcap.so.2.73"@
    ||| name == "libpcre2-8.so.0.14.0"@
    ||| name == "libgcc_s-15-20250521.so.1"@
}

/// The operator whitelist of a policy, as character sequences.
pub open spec fn wl_of(settings: Settings) -> Seq<Seq<char>> {
    settings.whitelisted_filenames.deep_view()
}

/// Membership in the effective allow-list: the default system set, the
/// operator whitelist, and the protection artifact's own name.
pub open spec fn allowed(wl: Seq<Seq<char>>, name: Seq<char>) -> bool {
    in_default_allowlist(name) || name == self_artifact_name() || wl.contains(name)
}

/// The first field that starts with a slash, scanning left to right.
pub open spec fn first_abs(fs: Seq<Seq<char>>) -> Option<Seq<char>>
    decreases fs.len(),
{
    if fs.len() == 0 {
        None
    } else if fs[0].len() > 0 && fs[0][0] == '/' {
        Some(fs[0])
    } else {
        first_abs(fs.drop_first())
    }
}

/// The candidate of one snapshot line: the filename and path of an
/// mapped region that is executable, backed by an absolute path, and named
/// like a shared library, if the line has one.
pub open spec fn line_candidate(line: Seq<char>) -> Option<(Seq<char>, Seq<char>)> {
    let fs = split_fields(line);
    if fs.len() < 6 {
        None
    } else if !fs[1].contains('x') {
        None
    } else {
        match first_abs(fs.skip(5)) {
            Some(p) => {
                let name = basename(p);
                if contains_so(name) {
                    Some((name, p))
                } else {
                    None
                }
            },
            None => None,
        }
    }
}

/// Whether one line contributes an unauthorized load.
pub open spec fn line_unauthorized(wl: Seq<Seq<char>>, line: Seq<char>) -> bool {
    match line_candidate(line) {
        Some(np) => !allowed(wl, np.0),
        None => false,
    }
}

/// Whether any line of a sequence contributes an unauthorized load.
pub open spec fn found_in_lines(wl: Seq<Seq<char>>, lines: Seq<Seq<char>>) -> bool {
    exists|k: int| 0 <= k < lines.len() && #[trigger] line_unauthorized(wl, lines[k])
}

/// The auditor's verdict on a whole snapshot: some line maps an executable
/// region whose shared-library filename falls outside the effective
/// allow-list.
pub open spec fn spec_found_unauthorized(wl: Seq<Seq<char>>, s: Seq<char>) -> bool {
    found_in_lines(wl, split_lines(s))
}

/// One evaluated `.so`-like mapped region.
pub struct ScanEvent {
    /// The library basename.
    pub filename: String,
    /// The full mapped path.
    pub path: String,
    /// Whether the basename is in the effective allow-list.
    pub allowed: bool,
}

/// The events a single line contributes: one per candidate, none otherwise.
pub open spec fn line_events(wl: Seq<Seq<char>>, line: Seq<char>) -> Seq<
    (Seq<char>, Seq<char>, bool),
> {
    match line_candidate(line) {
        Some(np) => seq![(np.0, np.1, allowed(wl, np.0))],
        None => Seq::empty(),
    }
}

/// The events of a sequence of lines, in order.
pub open spec fn scan_events(wl: Seq<Seq<char>>, lines: Seq<Seq<char>>) -> Seq<
    (Seq<char>, Seq<char>, bool),
>
    decreases lines.len(),
{
    if lines.len() == 0 {
        Seq::empty()
    } else {
        line_events(wl, lines[0]) + scan_events(wl, lines.drop_first())
    }
}

/// The mathematical content of a vector of scan events.
pub open spec fn events_view(es: Seq<ScanEvent>) -> Seq<(Seq<char>, Seq<char>, bool)> {
    es.map_values(|e: ScanEvent| (e.filename@, e.path@, e.allowed))
}

/// Appending one line appends that line's events.
pub proof fn lemma_scan_events_push(wl: Seq<Seq<char>>, lines: Seq<Seq<char>>, x: Seq<char>)
    ensures
        scan_events(wl, lines.push(x)) == scan_events(wl, lines) + line_events(wl, x),
    decreases lines.len(),
{
    if lines.len() == 0 {
        assert(lines.push(x)[0] == x);
        assert(lines.push(x).drop_first() =~= Seq::<Seq<char>>::empty());
        assert(scan_events(wl, lines.push(x)) == line_events(wl, x) + scan_events(
            wl,
            Seq::<Seq<char>>::empty(),
        ));
        assert(line_events(wl, x) + Seq::empty() =~= line_events(wl, x));
        assert(Seq::empty() + line_events(wl, x) =~= line_events(wl, x));
    } else {
        assert(lines.push(x)[0] == lines[0]);
        assert(lines.push(x).drop_first() =~= lines.drop_first().push(x));
        lemma_scan_events_push(wl, lines.drop_first(), x);
        let a = line_events(wl, lines[0]);
        let b = scan_events(wl, lines.drop_first());
        let c = line_events(wl, x);
        assert(scan_events(wl, lines.push(x)) == a + (b + c));
        assert(a + (b + c) =~= (a + b) + c);
    }
}

/// Whether a basename is in the default system allow-list.
fn in_default_list(v: &Vec<char>, lo: usize, hi: usize) -> (r: bool)
    requires
        lo <= hi <= v@.len(),
    ensures
        r == in_default_allowlist(v@.subrange(lo as int, hi as int)),
{
    range_eq_str(v, lo, hi, "libc.so.6") || range_eq_str(v, lo, hi, "ld-linux-x86-64.so.2")
        || range_eq_str(v, lo, hi, "libdl.so.2") || range_eq_str(v, lo, hi, "libm.so.6")
        || range_eq_str(v, lo, hi, "libpthread.so.0") || range_eq_str(v, lo, hi, "libgcc_s.so.1")
        || range_eq_str(v, lo, hi, "librt.so.1") || range_eq_str(v, lo, hi, "libresolv.so.2")
        || range_eq_str(v, lo, hi, "libselinux.so.1") || range_eq_str(v, lo, hi, "libcap.so.2.73")
        || range_eq_str(v, lo, hi, "libpcre2-8.so.0.14.0") || range_eq_str(
        v,
        lo,
        hi,
        "libgcc_s-15-20250521.so.1",
    )
}

/// Whether a basename is in the operator whitelist.
fn in_user_whitelist(settings: &Settings, name: &String) -> (r: bool)
    ensures
        r == wl_of(*settings).contains(name@),
{
    let ghost wl = wl_of(*settings);
    let n = settings.whitelisted_filenames.len();
    let mut i: usize = 0;
    while i < n
        invariant
            0 <= i <= n,
            n == settings.whitelisted_filenames@.len(),
            wl == wl_of(*settings),
            forall|k: int| 0 <= k < i ==> #[trigger] wl[k] != name@,
        decreases n - i,
    {
        proof {
            assert(wl[i as int] == settings.whitelisted_filenames@[i as int]@);
        }
        if settings.whitelisted_filenames[i].eq(name) {
            proof {
                assert(wl[i as int] == name@);
            }
            return true;
        }
        i = i + 1;
    }
    proof {
        assert(forall|k: int| 0 <= k < wl.len() ==> #[trigger] wl[k] != name@);
    }
    false
}

/// Classify one snapshot line, yielding its scan event when the line holds
/// an executable region backed by an absolute path and named like a shared
/// library.
fn classify_line(settings: &Settings, s: &str, v: &Vec<char>, lo: usize, hi: usize) -> (r: Option<
    ScanEvent,
>)
    requires
        v@ == s@,
        lo <= hi <= v@.len(),
    ensures
        ({
            let line = v@.subrange(lo as int, hi as int);
            match line_candidate(line) {
                Some(np) => r is Some && r->0.filename@ == np.0 && r->0.path@ == np.1
                    && r->0.allowed == allowed(wl_of(*settings), np.0),
                None => r is None,
            }
        }),
{
    let ghost line = v@.subrange(lo as int, hi as int);
    let ghost fs = split_fields(line);
    let fields = field_ranges(v, lo, hi);
    if fields.len() < 6 {
        return None;
    }
    let perms = fields[1];
    if !range_contains_char(v, perms.0, perms.1, 'x') {
        proof {
            assert(v@.subrange(perms.0 as int, perms.1 as int) == fs[1]);
        }
        return None;
    }
    proof {
        assert(v@.subrange(perms.0 as int, perms.1 as int) == fs[1]);
    }
    let mut idx: usize = 5;
    let mut path_lo: usize = 0;
    let mut path_hi: usize = 0;
    let mut have_path = false;
    while idx < fields.len() && !have_path
        invariant
            5 <= idx <= fields@.len(),
            fields@.len() == fs.len(),
            lo <= hi <= v@.len(),
            line == v@.subrange(lo as int, hi as int),
            fs == split_fields(line),
            forall|k: int|
                0 <= k < fields@.len() ==> lo <= (#[trigger] fields@[k]).0 && fields@[k].0
                    <= fields@[k].1 && fields@[k].1 <= hi && v@.subrange(
                    fields@[k].0 as int,
                    fields@[k].1 as int,
                ) == fs[k],
            !have_path ==> first_abs(fs.skip(5)) == first_abs(fs.skip(idx as int)),
            have_path ==> lo <= path_lo <= path_hi <= hi && first_abs(fs.skip(5)) == Some(
                v@.subrange(path_lo as int, path_hi as int),
            ),
        decreases fields@.len() - idx,
    {
        proof {
            assert(fs.skip(idx as int)[0] == fs[idx as int]);
            assert(fs.skip(idx as int).drop_first() =~= fs.skip(idx as int + 1));
            assert(v@.subrange(fields@[idx as int].0 as int, fields@[idx as int].1 as int) == fs[
                idx as int
            ]);
        }
        let f = fields[idx];
        if f.1 > f.0 && v[f.0] == '/' {
            proof {
                assert(fs[idx as int][0] == v@[f.0 as int]);
                assert(first_abs(fs.skip(idx as int)) == Some(fs[idx as int]));
            }
            path_lo = f.0;
            path_hi = f.1;
            have_path = true;
        } else {
            proof {
                if fs[idx as int].len() > 0 {
                    assert(fs[idx as int][0] == v@[f.0 as int]);
                }
            }
        }
        idx = idx + 1;
    }
    if !have_path {
        proof {
            assert(fs.skip(fs.len() as int) =~= Seq::<Seq<char>>::empty());
        }
        return None;
    }
    let ghost p = v@.subrange(path_lo as int, path_hi as int);
    proof {
        assert(first_abs(fs.skip(5)) == Some(p));
    }
    let name_lo = basename_start(v, path_lo, path_hi);
    if !range_contains_so(v, name_lo, path_hi) {
        return None;
    }
    let ghost name = v@.subrange(name_lo as int, path_hi as int);
    let is_allowed = in_default_list(v, name_lo, path_hi) || range_eq_str(
        v,
        name_lo,
        path_hi,
        "libhyper_processor.so",
    ) || {
        let name_string = s.substring_char(name_lo, path_hi).to_owned();
        in_user_whitelist(settings, &name_string)
    };
    let filename = s.substring_char(name_lo, path_hi).to_owned();
    let path = s.substring_char(path_lo, path_hi).to_owned();
    Some(ScanEvent { filename, path, allowed: is_allowed })
}

/// Taking one more line adds exactly that line's contribution to the
/// verdict.
proof fn lemma_found_take_step(wl: Seq<Seq<char>>, ls: Seq<Seq<char>>, i: int)
    requires
        0 <= i < ls.len(),
    ensures
        found_in_lines(wl, ls.take(i + 1)) == (found_in_lines(wl, ls.take(i))
            || line_unauthorized(wl, ls[i])),
{
    let a = ls.take(i);
    let b = ls.take(i + 1);
    if found_in_lines(wl, b) {
        let k = choose|k: int| 0 <= k < b.len() && #[trigger] line_unauthorized(wl, b[k]);
        if k < i {
            assert(a[k] == b[k]);
            assert(line_unauthorized(wl, a[k]));
        } else {
            assert(b[k] == ls[i]);
        }
    }
    if found_in_lines(wl, a) {
        let k = choose|k: int| 0 <= k < a.len() && #[trigger] line_unauthorized(wl, a[k]);
        assert(b[k] == a[k]);
        assert(line_unauthorized(wl, b[k]));
    }
    if line_unauthorized(wl, ls[i]) {
        assert(b[i] == ls[i]);
        assert(line_unauthorized(wl, b[i]));
    }
}

/// Scan a whole snapshot: every evaluated `.so`-like region in order, and
/// whether any of them is outside the effective allow-list.
pub fn scan_process_maps(settings: &Settings, maps_content: &str) -> (r: (Vec<ScanEvent>, bool))
    ensures
        events_view(r.0@) == scan_events(wl_of(*settings), split_lines(maps_content@)),
        r.1 == spec_found_unauthorized(wl_of(*settings), maps_content@),
{
    let ghost wl = wl_of(*settings);
    let v = chars_vec(maps_content);
    let ghost ls = split_lines(maps_content@);
    let lines = line_ranges(&v);
    let mut events: Vec<ScanEvent> = Vec::new();
    let mut found = false;
    let mut i: usize = 0;
    proof {
        assert(ls.take(0) =~= Seq::<Seq<char>>::empty());
        assert(events_view(events@) =~= scan_events(wl, ls.take(0)));
    }
    while i < lines.len()
        invariant
            0 <= i <= lines@.len(),
            lines@.len() == ls.len(),
            v@ == maps_content@,
            ls == split_lines(maps_content@),
            wl == wl_of(*settings),
            forall|k: int|
                0 <= k < lines@.len() ==> (#[trigger] lines@[k]).0 <= lines@[k].1 && lines@[k].1
                    <= v@.len() && v@.subrange(lines@[k].0 as int, lines@[k].1 as int) == ls[k],
            events_view(events@) == scan_events(wl, ls.take(i as int)),
            found == found_in_lines(wl, ls.take(i as int)),
        decreases lines@.len() - i,
    {
        let rng = lines[i];
        let ev = classify_line(settings, maps_content, &v, rng.0, rng.1);
        proof {
            assert(v@.subrange(rng.0 as int, rng.1 as int) == ls[i as int]);
            assert(ls.take(i as int + 1) =~= ls.take(i as int).push(ls[i as int]));
            lemma_scan_events_push(wl, ls.take(i as int), ls[i as int]);
            lemma_found_take_step(wl, ls, i as int);
        }
        match ev {
            Some(e) => {
                if !e.allowed {
                    found = true;
                }
                events.push(e);
                proof {
                    assert(events_view(events@) =~= scan_events(wl, ls.take(i as int))
                        + line_events(wl, ls[i as int]));
                }
            },
            None => {
                proof {
                    assert(events_view(events@) =~= scan_events(wl, ls.take(i as int))
                        + line_events(wl, ls[i as int]));
                }
            },
        }
        i = i + 1;
    }
    proof {
        assert(ls.take(ls.len() as int) =~= ls);
    }
    (events, found)
}

/// One audit pass over a snapshot: whether an unauthorized library was found,
/// and the policy's audit mode, in that order.
pub fn perform_check(settings: &Settings, maps_content: &str) -> (r: (bool, bool))
    ensures
        r.0 == spec_found_unauthorized(wl_of(*settings), maps_content@),
        r.1 == settings.audit_mode,
{
    let scan = scan_process_maps(settings, maps_content);
    (scan.1, settings.audit_mode)
}

/// When every candidate filename in the snapshot is in the effective
/// allow-list, the verdict is clean.
pub proof fn lemma_all_allowed_clean(wl: Seq<Seq<char>>, s: Seq<char>)
    requires
        forall|k: int|
            0 <= k < split_lines(s).len() ==> (#[trigger] line_candidate(split_lines(s)[k]) matches
                Some(np) ==> allowed(wl, np.0)),
    ensures
        !spec_found_unauthorized(wl, s),
{
    let ls = split_lines(s);
    if spec_found_unauthorized(wl, s) {
        let k = choose|k: int| 0 <= k < ls.len() && #[trigger] line_unauthorized(wl, ls[k]);
        assert(line_candidate(ls[k]) matches Some(np) ==> allowed(wl, np.0));
        assert(false);
    }
}

/// A single candidate filename outside the effective allow-list settles the
/// verdict as unauthorized, whatever the audit mode says.
pub proof fn lemma_one_unauthorized_found(wl: Seq<Seq<char>>, s: Seq<char>, k: int)
    requires
        0 <= k < split_lines(s).len(),
        line_candidate(split_lines(s)[k]) matches Some(np) && !allowed(wl, np.0),
    ensures
        spec_found_unauthorized(wl, s),
{
    assert(line_unauthorized(wl, split_lines(s)[k]));
}

/// A line whose fields are too few, whose permission field lacks `x`, or
/// without a field starting with `/` from the sixth onward, has no
/// candidate.
pub proof fn lemma_line_without_candidate(line: Seq<char>)
    requires
        split_fields(line).len() < 6 || !split_fields(line)[1].contains('x') || first_abs(
            split_fields(line).skip(5),
        ) is None,
    ensures
        line_candidate(line) is None,
{
}

/// A line without a candidate, whether malformed, non-executable, or
/// without an absolute path, carries no weight: the remaining lines decide
/// alone.
pub proof fn lemma_inert_line(wl: Seq<Seq<char>>, lines: Seq<Seq<char>>, i: int)
    requires
        0 <= i < lines.len(),
        line_candidate(lines[i]) is None,
    ensures
        found_in_lines(wl, lines) == found_in_lines(wl, lines.remove(i)),
{
    let rem = lines.remove(i);
    if found_in_lines(wl, lines) {
        let k = choose|k: int| 0 <= k < lines.len() && #[trigger] line_unauthorized(wl, lines[k]);
        assert(k != i);
        if k < i {
            assert(rem[k] == lines[k]);
            assert(line_unauthorized(wl, rem[k]));
        } else {
            assert(rem[k - 1] == lines[k]);
            assert(line_unauthorized(wl, rem[k - 1]));
        }
    }
    if found_in_lines(wl, rem) {
        let k = choose|k: int| 0 <= k < rem.len() && #[trigger] line_unauthorized(wl, rem[k]);
        if k < i {
            assert(lines[k] == rem[k]);
            assert(line_unauthorized(wl, lines[k]));
        } else {
            assert(lines[k + 1] == rem[k]);
            assert(line_unauthorized(wl, lines[k + 1]));
        }
    }
}

/// One line's contribution to the verdict splits off: the first line decides
/// alone or the rest do.
proof fn lemma_found_unfold(wl: Seq<Seq<char>>, lines: Seq<Seq<char>>)
    requires
        lines.len() > 0,
    ensures
        found_in_lines(wl, lines) == (line_unauthorized(wl, lines[0]) || found_in_lines(
            wl,
            lines.drop_first(),
        )),
{
    let tail = lines.drop_first();
    if found_in_lines(wl, lines) {
        let k = choose|k: int| 0 <= k < lines.len() && #[trigger] line_unauthorized(wl, lines[k]);
        if k > 0 {
            assert(tail[k - 1] == lines[k]);
            assert(line_unauthorized(wl, tail[k - 1]));
        }
    }
    if found_in_lines(wl, tail) {
        let k = choose|k: int| 0 <= k < tail.len() && #[trigger] line_unauthorized(wl, tail[k]);
        assert(lines[k + 1] == tail[k]);
        assert(line_unauthorized(wl, lines[k + 1]));
    }
    if line_unauthorized(wl, lines[0]) {
        assert(found_in_lines(wl, lines));
    }
}

/// The verdict and the scan cohere: an unauthorized line exists exactly when
/// some scanned event lies outside the effective allow-list.
pub proof fn lemma_found_iff_disallowed_event(wl: Seq<Seq<char>>, lines: Seq<Seq<char>>)
    ensures
        found_in_lines(wl, lines) == exists|j: int|
            0 <= j < scan_events(wl, lines).len() && !(#[trigger] scan_events(wl, lines)[j]).2,
    decreases lines.len(),
{
    let es = scan_events(wl, lines);
    if lines.len() == 0 {
        assert(!found_in_lines(wl, lines));
        assert(es.len() == 0);
    } else {
        let tail = lines.drop_first();
        let head = line_events(wl, lines[0]);
        let tail_es = scan_events(wl, tail);
        lemma_found_unfold(wl, lines);
        lemma_found_iff_disallowed_event(wl, tail);
        assert(es == head + tail_es);
        match line_candidate(lines[0]) {
            Some(np) => {
                assert(head.len() == 1);
                assert(es[0] == head[0]);
                assert(head[0].2 == allowed(wl, np.0));
                assert forall|j: int| 0 <= j < tail_es.len() implies es[j + 1] == tail_es[j] by {}
                if line_unauthorized(wl, lines[0]) {
                    assert(!es[0].2);
                } else if found_in_lines(wl, tail) {
                    let j = choose|j: int| 0 <= j < tail_es.len() && !(#[trigger] tail_es[j]).2;
                    assert(!es[j + 1].2);
                } else {
                    assert forall|j: int| 0 <= j < es.len() implies (#[trigger] es[j]).2 by {
                        if j > 0 {
                            assert(es[j] == tail_es[j - 1]);
                        }
                    }
                }
            },
            None => {
                assert(head.len() == 0);
                assert(es =~= tail_es);
                assert(!line_unauthorized(wl, lines[0]));
            },
        }
    }
}

/// The auditor is deterministic: any two verdicts that meet its contract for
/// the same policy and the same snapshot are equal, so running it twice on
/// identical input yields identical verdicts.
pub proof fn lemma_verdict_deterministic(
    wl: Seq<Seq<char>>,
    s: Seq<char>,
    audit: bool,
    a: (bool, bool),
    b: (bool, bool),
)
    requires
        a.0 == spec_found_unauthorized(wl, s),
        a.1 == audit,
        b.0 == spec_found_unauthorized(wl, s),
        b.1 == audit,
    ensures
        a == b,
{
}

} // verus!
