//! Helpers of the command-line orchestration whose behaviour is pure:
//! duration strings, the system-library test, and whitelist collection from
//! observed names.

use vstd::prelude::*;
use crate::text::{
    all_digits, chars_vec, dec_val, has_prefix, lemma_dec_val_prefix, starts_with_chars,
};

verus! {

/// The seconds a duration string denotes: decimal digits followed by `s`,
/// `m` or `h`. Anything else (another unit, signs, an empty number, or a
/// total that cannot be held) denotes nothing.
pub open spec fn spec_parse_duration(s: Seq<char>) -> Option<u64> {
    if s.len() == 0 {
        None
    } else {
        let unit = s.last();
        let num = s.drop_last();
        let mult: int = if unit == 's' {
            1
        } else if unit == 'm' {
            60
        } else if unit == 'h' {
            3600
        } else {
            0
        };
        if mult == 0 {
            None
        } else if num.len() > 0 && all_digits(num) && dec_val(num) * mult <= u64::MAX as int {
            Some((dec_val(num) * mult) as u64)
        } else {
            None
        }
    }
}

/// Parse a duration string such as `30s`, `5m` or `1h` into seconds.
pub fn parse_duration(s: &str) -> (r: Option<u64>)
    ensures
        r == spec_parse_duration(s@),
{
    let v = chars_vec(s);
    let n = v.len();
    if n == 0 {
        return None;
    }
    let unit = v[n - 1];
    let ghost num = s@.drop_last();
    proof {
        assert(num =~= v@.subrange(0, n - 1));
    }
    if unit != 's' && unit != 'm' && unit != 'h' {
        return None;
    }
    if n == 1 {
        return None;
    }
    let hi = n - 1;
    let mut val: u128 = 0;
    let mut i: usize = 0;
    proof {
        assert(num.take(0) =~= Seq::<char>::empty());
    }
    while i < hi
        invariant
            0 <= i <= hi,
            v@ == s@,
            n == v@.len(),
            2 <= n,
            hi == n - 1,
            hi == num.len(),
            num == s@.drop_last(),
            num == v@.subrange(0, hi as int),
            unit == s@.last(),
            unit == 's' || unit == 'm' || unit == 'h',
            all_digits(num.take(i as int)),
            val == dec_val(num.take(i as int)),
            val <= u64::MAX,
        decreases hi - i,
    {
        let c = v[i];
        proof {
            assert(num[i as int] == c);
        }
        if c < '0' || c > '9' {
            proof {
                assert(!all_digits(num));
            }
            return None;
        }
        let d = (c as u32 - 48) as u128;
        val = val * 10 + d;
        proof {
            assert(num.take(i as int + 1).drop_last() =~= num.take(i as int));
            assert(num.take(i as int + 1).last() == num[i as int]);
            assert(all_digits(num.take(i as int + 1)));
            assert(val == dec_val(num.take(i as int + 1)));
        }
        if val > u64::MAX as u128 {
            proof {
                if all_digits(num) {
                    lemma_dec_val_prefix(num, i as int + 1);
                    assert(dec_val(num) > u64::MAX as int);
                    if unit == 's' {
                        assert(dec_val(num) * 1 > u64::MAX as int);
                    } else if unit == 'm' {
                        assert(dec_val(num) * 60 > u64::MAX as int);
                    } else {
                        assert(dec_val(num) * 3600 > u64::MAX as int);
                    }
                }
            }
            return None;
        }
        i = i + 1;
    }
    proof {
        assert(num.take(hi as int) =~= num);
    }
    let secs = val as u64;
    if unit == 's' {
        Some(secs)
    } else if unit == 'm' {
        if secs <= u64::MAX / 60 {
            Some(secs * 60)
        } else {
            None
        }
    } else {
        if secs <= u64::MAX / 3600 {
            Some(secs * 3600)
        } else {
            None
        }
    }
}

/// Whether a library basename belongs to the core system set that generated
/// whitelists leave out by default.
pub open spec fn spec_is_system_library(name: Seq<char>) -> bool {
    ||| starts_with_chars(name, "libc."@)
    ||| starts_with_chars(name, "libm."@)
    ||| starts_with_chars(name, "libdl."@)
    ||| starts_with_chars(name, "libpthread."@)
    ||| starts_with_chars(name, "librt."@)
    ||| starts_with_chars(name, "ld-linux"@)
    ||| starts_with_chars(name, "libgcc_s."@)
    ||| starts_with_chars(name, "libresolv."@)
}

/// Whether a library basename belongs to the core system set.
pub fn is_system_library(name: &str) -> (r: bool)
    ensures
        r == spec_is_system_library(name@),
{
    let v = chars_vec(name);
    has_prefix(&v, "libc.") || has_prefix(&v, "libm.") || has_prefix(&v, "libdl.") || has_prefix(
        &v,
        "libpthread.",
    ) || has_prefix(&v, "librt.") || has_prefix(&v, "ld-linux") || has_prefix(&v, "libgcc_s.")
        || has_prefix(&v, "libresolv.")
}

/// The names a generated whitelist keeps, scanning left to right: first
/// occurrences only, system libraries dropped unless asked for; `kept` holds
/// what is already kept.
pub open spec fn collect_acc(
    names: Seq<Seq<char>>,
    kept: Seq<Seq<char>>,
    include_system: bool,
) -> Seq<Seq<char>>
    decreases names.len(),
{
    if names.len() == 0 {
        Seq::empty()
    } else {
        let keep = (include_system || !spec_is_system_library(names[0])) && !kept.contains(
            names[0],
        );
        if keep {
            seq![names[0]] + collect_acc(names.drop_first(), kept.push(names[0]), include_system)
        } else {
            collect_acc(names.drop_first(), kept, include_system)
        }
    }
}

/// The names a generated whitelist keeps.
pub open spec fn spec_collect_whitelist(names: Seq<Seq<char>>, include_system: bool) -> Seq<
    Seq<char>,
> {
    collect_acc(names, Seq::empty(), include_system)
}

/// Whether a name is already among the kept ones.
fn already_kept(kept: &Vec<String>, name: &String) -> (r: bool)
    ensures
        r == kept.deep_view().contains(name@),
{
    let mut i: usize = 0;
    while i < kept.len()
        invariant
            0 <= i <= kept@.len(),
            forall|k: int| 0 <= k < i ==> kept.deep_view()[k] != name@,
        decreases kept@.len() - i,
    {
        proof {
            assert(kept.deep_view()[i as int] == kept@[i as int]@);
        }
        if kept[i].eq(name) {
            proof {
                assert(kept.deep_view()[i as int] == name@);
            }
            return true;
        }
        i = i + 1;
    }
    proof {
        assert(forall|k: int|
            0 <= k < kept.deep_view().len() ==> #[trigger] kept.deep_view()[k] != name@);
    }
    false
}

/// Collect the library names a generated whitelist keeps: duplicates
/// dropped, system libraries dropped unless asked for, first occurrences in
/// order.
pub fn collect_whitelist(names: &Vec<String>, include_system: bool) -> (r: Vec<String>)
    ensures
        r.deep_view() == spec_collect_whitelist(names.deep_view(), include_system),
{
    let ghost all = names.deep_view();
    let mut r: Vec<String> = Vec::new();
    let mut i: usize = 0;
    proof {
        assert(all.skip(0) =~= all);
        assert(r.deep_view() =~= Seq::<Seq<char>>::empty());
        assert(spec_collect_whitelist(all, include_system) =~= r.deep_view() + collect_acc(
            all.skip(0),
            r.deep_view(),
            include_system,
        ));
    }
    while i < names.len()
        invariant
            0 <= i <= names@.len(),
            all == names.deep_view(),
            spec_collect_whitelist(all, include_system) == r.deep_view() + collect_acc(
                all.skip(i as int),
                r.deep_view(),
                include_system,
            ),
        decreases names@.len() - i,
    {
        proof {
            assert(all.skip(i as int)[0] == all[i as int]);
            assert(all[i as int] == names@[i as int]@);
            assert(all.skip(i as int).drop_first() =~= all.skip(i as int + 1));
        }
        let name = &names[i];
        let keep = (include_system || !is_system_library(name.as_str())) && !already_kept(
            &r,
            name,
        );
        if keep {
            let ghost old_kept = r.deep_view();
            r.push(name.clone());
            proof {
                assert(r.deep_view() =~= old_kept.push(all[i as int]));
                assert(old_kept + (seq![all[i as int]] + collect_acc(
                    all.skip(i as int + 1),
                    old_kept.push(all[i as int]),
                    include_system,
                )) =~= r.deep_view() + collect_acc(
                    all.skip(i as int + 1),
                    r.deep_view(),
                    include_system,
                ));
            }
        }
        i = i + 1;
    }
    proof {
        assert(all.skip(names@.len() as int) =~= Seq::<Seq<char>>::empty());
        assert(r.deep_view() + Seq::<Seq<char>>::empty() =~= r.deep_view());
    }
    r
}

} // verus!
