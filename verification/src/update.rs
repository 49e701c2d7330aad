//! Decisions of the self-update support: whether to look for a newer release in
//! the background, and which release to report once the command is done.
//!
//! There is only one mode: check and notify (never a silent background
//! install). `OMP_DECK_NO_AUTOUPDATE=1` disables the check entirely.

use crate::text::{
    chars, is_blank, is_space, only_blank_texts_trim_to_nothing, same, trim, trimmed,
    trimming_takes_the_white_space_around,
};
use vstd::prelude::*;
use vstd::string::*;

verus! {

/// How many seconds a background check is waited for once the command is done.
pub const JOIN_TIMEOUT_SECS: u64 = 1;

/// `c` in lower case, where it is an ASCII letter.
pub open spec fn ascii_lower(c: char) -> char {
    if 'A' <= c <= 'Z' {
        (c as u32 + 32) as char
    } else {
        c
    }
}

/// `s` with its ASCII letters in lower case.
pub open spec fn ascii_lowered(s: Seq<char>) -> Seq<char> {
    s.map_values(|c: char| ascii_lower(c))
}

/// Whether this value of `OMP_DECK_NO_AUTOUPDATE` disables the check.
pub open spec fn disables(value: Seq<char>) -> bool {
    let v = trimmed(value);
    !(v.len() == 0 || v == "0"@ || ascii_lowered(v) == "false"@)
}

/// Whether `c` is this lower case letter, in either case.
fn is_letter(c: char, letter: char) -> (r: bool)
    requires
        'a' <= letter <= 'z',
    ensures
        r == (ascii_lower(c) == letter),
{
    c == letter || ('A' <= c && c <= 'Z' && c as u32 + 32 == letter as u32)
}

/// Whether `s` is `false`, in whatever case.
fn says_false(s: &str) -> (r: bool)
    ensures
        r == (ascii_lowered(s@) == "false"@),
{
    let v = chars(s);
    proof {
        reveal_strlit("false");
        assert(ascii_lowered(s@).len() == s@.len());
    }
    if v.len() != 5 {
        return false;
    }
    let r = is_letter(v[0], 'f') && is_letter(v[1], 'a') && is_letter(v[2], 'l') && is_letter(
        v[3],
        's',
    ) && is_letter(v[4], 'e');
    proof {
        let low = ascii_lowered(s@);
        assert(low[0] == ascii_lower(v@[0]));
        assert(low[1] == ascii_lower(v@[1]));
        assert(low[2] == ascii_lower(v@[2]));
        assert(low[3] == ascii_lower(v@[3]));
        assert(low[4] == ascii_lower(v@[4]));
        if r {
            assert(low =~= "false"@);
        }
    }
    r
}

/// Whether `OMP_DECK_NO_AUTOUPDATE` disables the background check, by its value
/// where it is set. `0`, `false` (case-insensitive), and unset/blank all count
/// as "not disabled".
pub fn auto_update_disabled_by_env(var: Option<&str>) -> (r: bool)
    ensures
        r == (var matches Some(v) && disables(v@)),
{
    match var {
        Some(v) => {
            let v = trim(v);
            !(v.unicode_len() == 0 || same(v, "0") || says_false(v))
        },
        None => false,
    }
}

/// What a command does about a newer release.
#[derive(Debug, Clone, Copy, PartialEq, Eq, Structural)]
pub enum Plan {
    /// Nothing.
    Skip,
    /// Report what the last check found: it was made less than 24 hours ago.
    ReportCached,
    /// Fetch in the background, and report once the command is done.
    Fetch,
}

/// What is done about a newer release.
pub open spec fn plan_of(disabled: bool, due: bool, has_cached: bool) -> Plan {
    if disabled {
        Plan::Skip
    } else if due {
        Plan::Fetch
    } else if has_cached {
        Plan::ReportCached
    } else {
        Plan::Skip
    }
}

/// What to do about a newer release, by whether the check is disabled, whether
/// one is due, and whether the last one found a newer release.
pub fn auto_update_plan(disabled: bool, due: bool, has_cached: bool) -> (r: Plan)
    ensures
        r == plan_of(disabled, due, has_cached),
        r == if disabled {
            Plan::Skip
        } else if due {
            Plan::Fetch
        } else if has_cached {
            Plan::ReportCached
        } else {
            Plan::Skip
        },
{
    if disabled {
        Plan::Skip
    } else if due {
        Plan::Fetch
    } else if has_cached {
        Plan::ReportCached
    } else {
        Plan::Skip
    }
}

/// What came of a background check.
#[derive(Debug, PartialEq, Eq)]
pub enum Fetched<R> {
    /// There is a newer release.
    Newer(R),
    /// There is none.
    UpToDate,
    /// Timed out, the fetch failed, or its task panicked.
    Failed,
}

/// The release that is reported, if any.
pub open spec fn reported<R>(fetched: Fetched<R>, cached: Option<R>) -> Option<R> {
    match fetched {
        Fetched::Newer(latest) => Some(latest),
        Fetched::UpToDate => None,
        Fetched::Failed => cached,
    }
}

/// The release to report: the one that the check found, or, where it failed, the
/// last known one rather than none.
pub fn release_to_report<R>(fetched: Fetched<R>, cached: Option<R>) -> (r: Option<R>)
    ensures
        r == reported(fetched, cached),
        r == match fetched {
            Fetched::Newer(latest) => Some(latest),
            Fetched::UpToDate => None,
            Fetched::Failed => cached,
        },
{
    match fetched {
        Fetched::Newer(latest) => Some(latest),
        Fetched::UpToDate => None,
        Fetched::Failed => cached,
    }
}

/// A letter of ASCII that is `letter`, given in lower case, in whatever case.
pub open spec fn is_either_case(c: char, letter: char) -> bool {
    c == letter || c as int + 32 == letter as int
}

/// The check is disabled by every value but these, with white space around them or
/// not: nothing, `0`, and `false` in whatever case.
pub proof fn every_other_value_disables_the_check(a: Seq<char>, s: Seq<char>, b: Seq<char>)
    requires
        is_blank(a),
        is_blank(b),
    ensures
        !disables(a),
        s.len() > 0 && !is_space(s[0]) && !is_space(s.last()) ==> (disables(a + s + b) <==> !(s
            == seq!['0'] || (s.len() == 5 && is_either_case(s[0], 'f') && is_either_case(s[1], 'a')
            && is_either_case(s[2], 'l') && is_either_case(s[3], 's') && is_either_case(
            s[4],
            'e',
        )))),
{
    only_blank_texts_trim_to_nothing(a);
    reveal_strlit("0");
    reveal_strlit("false");
    if s.len() > 0 && !is_space(s[0]) && !is_space(s.last()) {
        trimming_takes_the_white_space_around(a, s, b);
        assert("0"@ =~= seq!['0']);
        let low = ascii_lowered(s);
        let want = "false"@;
        if s.len() == 5 {
            assert(low[0] == ascii_lower(s[0]));
            assert(low[1] == ascii_lower(s[1]));
            assert(low[2] == ascii_lower(s[2]));
            assert(low[3] == ascii_lower(s[3]));
            assert(low[4] == ascii_lower(s[4]));
            if is_either_case(s[0], 'f') && is_either_case(s[1], 'a') && is_either_case(s[2], 'l')
                && is_either_case(s[3], 's') && is_either_case(s[4], 'e') {
                assert(low =~= want);
            }
        } else {
            assert(low.len() == s.len());
        }
    }
}

/// A check that is disabled does nothing; else one that is due is made, and within
/// the time in which none is due, what the last one found is reported.
pub proof fn a_disabled_check_does_nothing(disabled: bool, due: bool, has_cached: bool)
    ensures
        disabled ==> plan_of(disabled, due, has_cached) == Plan::Skip,
        plan_of(disabled, due, has_cached) == Plan::Fetch <==> !disabled && due,
        plan_of(disabled, due, has_cached) == Plan::ReportCached <==> !disabled && !due
            && has_cached,
{
}

/// A check that came to an end decides, whatever was known before; one that did not
/// leaves what was known.
pub proof fn a_finished_check_decides<R>(latest: R, cached: Option<R>)
    ensures
        reported(Fetched::Newer(latest), cached) == Some(latest),
        reported(Fetched::UpToDate, cached) is None,
        reported(Fetched::Failed, cached) == cached,
{
}

} // verus!
