//! The resolved protection policy, and the pure parts of resolving it: the
//! comma-separated whitelist list, the audit-mode override value, and the
//! learning-mode normalisation rule.

use vstd::prelude::*;
use crate::text::{chars_vec, range_matches_ci, seq_matches_ci, trim_range, trim_spaces};

verus! {

/// The policy both enforcement layers run under; once resolved it never
/// changes while the protected process lives.
pub struct Settings {
    /// Operator-supplied library basenames allowed to load.
    pub whitelisted_filenames: Vec<String>,
    /// True: findings are only reported. False: findings terminate or deny.
    pub audit_mode: bool,
    /// True: record every observed library basename passively.
    pub learning_mode: bool,
    /// Where learning records go; required when learning is on.
    pub learning_output: Option<String>,
}

impl Settings {
    /// A policy is well formed when learning mode forces audit mode.
    pub open spec fn wf(&self) -> bool {
        self.learning_mode ==> self.audit_mode
    }

    /// Force audit mode on when learning mode is on, leaving everything else
    /// unchanged; the result is well formed.
    pub fn normalize(&mut self)
        ensures
            final(self).whitelisted_filenames == old(self).whitelisted_filenames,
            final(self).learning_mode == old(self).learning_mode,
            final(self).learning_output == old(self).learning_output,
            final(self).audit_mode == (old(self).audit_mode || old(self).learning_mode),
            final(self).wf(),
    {
        if self.learning_mode {
            self.audit_mode = true;
        }
    }
}

impl Default for Settings {
    /// The default policy: empty whitelist, blocking mode, no learning.
    fn default() -> (s: Settings)
        ensures
            s.whitelisted_filenames@.len() == 0,
            !s.audit_mode,
            !s.learning_mode,
            s.learning_output is None,
            s.wf(),
    {
        Settings {
            whitelisted_filenames: Vec::new(),
            audit_mode: false,
            learning_mode: false,
            learning_output: None,
        }
    }
}

/// The item a partial list entry contributes: its trimmed text, or nothing
/// when only whitespace is left.
pub open spec fn wl_item(cur: Seq<char>) -> Seq<Seq<char>> {
    if trim_spaces(cur).len() == 0 {
        Seq::empty()
    } else {
        seq![trim_spaces(cur)]
    }
}

/// The whitelist entries of `cur + s`, read one character at a time: split
/// at commas, each entry trimmed, empty entries dropped.
pub open spec fn wl_acc(s: Seq<char>, cur: Seq<char>) -> Seq<Seq<char>>
    decreases s.len(),
{
    if s.len() == 0 {
        wl_item(cur)
    } else if s[0] == ',' {
        wl_item(cur) + wl_acc(s.drop_first(), Seq::empty())
    } else {
        wl_acc(s.drop_first(), cur.push(s[0]))
    }
}

/// The whitelist entries of a comma-separated list.
pub open spec fn spec_whitelist_items(s: Seq<char>) -> Seq<Seq<char>> {
    wl_acc(s, Seq::empty())
}

/// Parse a comma-separated whitelist list: entries are trimmed of ASCII
/// whitespace and empty entries are dropped.
pub fn parse_whitelist_items(s: &str) -> (r: Vec<String>)
    ensures
        r.deep_view() == spec_whitelist_items(s@),
{
    let v = chars_vec(s);
    let mut r: Vec<String> = Vec::new();
    let ghost mut done: Seq<Seq<char>> = Seq::empty();
    let mut pos: usize = 0;
    let mut start: usize = 0;
    proof {
        assert(v@.skip(0) =~= v@);
        assert(v@.subrange(0, 0) =~= Seq::<char>::empty());
        assert(r.deep_view() =~= done);
    }
    while pos < v.len()
        invariant
            start <= pos <= v@.len(),
            v@ == s@,
            spec_whitelist_items(s@) == done + wl_acc(
                v@.skip(pos as int),
                v@.subrange(start as int, pos as int),
            ),
            r.deep_view() == done,
        decreases v@.len() - pos,
    {
        proof {
            assert(v@.skip(pos as int)[0] == v@[pos as int]);
            assert(v@.skip(pos as int).drop_first() =~= v@.skip(pos as int + 1));
        }
        if v[pos] == ',' {
            let bounds = trim_range(&v, start, pos);
            if bounds.0 < bounds.1 {
                let item = s.substring_char(bounds.0, bounds.1).to_owned();
                proof {
                    done = done + wl_item(v@.subrange(start as int, pos as int));
                }
                r.push(item);
                proof {
                    assert(r.deep_view() =~= done);
                }
            } else {
                proof {
                    assert(v@.subrange(bounds.0 as int, bounds.1 as int).len() == 0);
                    assert(done + wl_item(v@.subrange(start as int, pos as int)) =~= done);
                }
            }
            pos = pos + 1;
            start = pos;
            proof {
                assert(v@.subrange(start as int, pos as int) =~= Seq::<char>::empty());
                assert(spec_whitelist_items(s@) =~= done + wl_acc(
                    v@.skip(pos as int),
                    Seq::<char>::empty(),
                ));
            }
        } else {
            proof {
                assert(v@.subrange(start as int, pos as int).push(v@[pos as int]) =~= v@.subrange(
                    start as int,
                    pos as int + 1,
                ));
            }
            pos = pos + 1;
        }
    }
    proof {
        assert(v@.skip(pos as int) =~= Seq::<char>::empty());
    }
    let bounds = trim_range(&v, start, pos);
    if bounds.0 < bounds.1 {
        let item = s.substring_char(bounds.0, bounds.1).to_owned();
        proof {
            done = done + wl_item(v@.subrange(start as int, pos as int));
        }
        r.push(item);
        proof {
            assert(r.deep_view() =~= done);
            assert(spec_whitelist_items(s@) =~= done);
        }
    } else {
        proof {
            assert(v@.subrange(bounds.0 as int, bounds.1 as int).len() == 0);
            assert(spec_whitelist_items(s@) =~= done);
        }
    }
    r
}

/// How an audit-mode override value reads: affirmative words turn audit mode
/// on, negative words turn it off, anything else is ignored. Words are
/// matched ignoring ASCII case.
pub open spec fn spec_audit_override(s: Seq<char>) -> Option<bool> {
    if seq_matches_ci(s, "true"@) || seq_matches_ci(s, "1"@) || seq_matches_ci(s, "yes"@) {
        Some(true)
    } else if seq_matches_ci(s, "false"@) || seq_matches_ci(s, "0"@) || seq_matches_ci(s, "no"@) {
        Some(false)
    } else {
        None
    }
}

/// Parse an audit-mode override value from the environment.
pub fn parse_audit_override(s: &str) -> (r: Option<bool>)
    ensures
        r == spec_audit_override(s@),
{
    let v = chars_vec(s);
    let hi = v.len();
    proof {
        assert(v@.subrange(0, hi as int) =~= s@);
    }
    if range_matches_ci(&v, 0, hi, "true") || range_matches_ci(&v, 0, hi, "1") || range_matches_ci(
        &v,
        0,
        hi,
        "yes",
    ) {
        Some(true)
    } else if range_matches_ci(&v, 0, hi, "false") || range_matches_ci(&v, 0, hi, "0")
        || range_matches_ci(&v, 0, hi, "no") {
        Some(false)
    } else {
        None
    }
}

/// Whether a configuration file's permission bits let the group or others
/// write to it, so that the whitelist could be tampered with.
pub fn insecure_config_mode(mode: u32) -> (r: bool)
    ensures
        r == (mode & 0o022 != 0),
{
    mode & 0o022 != 0
}

} // verus!
