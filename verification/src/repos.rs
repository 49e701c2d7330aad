//! Local repository discovery for the "new session" picker: the checkouts of a
//! ghq layout (`<root>/<host>/<owner>/<repo>` holding a `.git`).
//!
//! Walking the disk is left to the caller; checkouts reachable through several
//! roots (symlinks, nested roots) are listed once, by canonical path.

use crate::text::{chars, starts_with};
use std::path::PathBuf;
use vstd::prelude::*;
use vstd::seq_lib::to_multiset_build;
use vstd::string::*;

verus! {

/// How many nanoseconds a list of the checkouts is served from the cache.
pub const SCAN_TTL_NANOS: u128 = 30_000_000_000;

/// A checkout in the picker.
#[derive(Debug, PartialEq, Eq)]
pub struct Repo {
    /// `<owner>/<repo>`.
    pub name: String,
    /// Canonical path of the checkout, as a string: the exact text shown in
    /// the picker and matched against on submit, so both sides use this one
    /// representation (Windows verbatim prefix stripped).
    pub path: String,
}

impl Clone for Repo {
    fn clone(&self) -> (r: Self)
        ensures
            r == *self,
    {
        Repo { name: self.name.clone(), path: self.path.clone() }
    }
}

/// A directory at the depth of a checkout, as a walk of the roots met it.
#[derive(Debug, PartialEq, Eq)]
pub struct Found {
    /// The name of the directory above it.
    pub owner: String,
    /// Its own name.
    pub dir: String,
    /// Whether it holds a `.git`.
    pub has_git: bool,
    /// The bytes of its canonical path: what it is told apart by.
    pub path: Vec<u8>,
    /// Its canonical path as text.
    pub shown: String,
}

/// What a [`Repo`] says.
pub struct RepoText {
    pub name: Seq<char>,
    pub path: Seq<char>,
}

impl View for Repo {
    type V = RepoText;

    open spec fn view(&self) -> RepoText {
        RepoText { name: self.name@, path: self.path@ }
    }
}

/// The texts of the repos.
pub open spec fn repo_texts(repos: Seq<Repo>) -> Seq<RepoText> {
    repos.map_values(|r: Repo| r@)
}

/// The prefix that Windows puts before a canonical path.
pub open spec fn verbatim_prefix() -> Seq<char> {
    "\\\\?\\"@
}

/// A path on a drive: a character of one byte, which names it, and a colon.
pub open spec fn is_drive_path(s: Seq<char>) -> bool {
    s.len() >= 2 && s[0] <= '\u{7f}' && s[1] == ':'
}

/// A canonical path without the verbatim prefix, where a drive path follows it.
pub open spec fn plain_path(s: Seq<char>) -> Seq<char> {
    let prefix = verbatim_prefix();
    if prefix.is_prefix_of(s) && is_drive_path(s.skip(prefix.len() as int)) {
        s.skip(prefix.len() as int)
    } else {
        s
    }
}

/// Canonical path as text, without the `\\?\` verbatim prefix Windows adds
/// (omp shows and compares plain `C:\...` paths).
pub fn display_path(s: &str) -> (r: String)
    ensures
        r@ == plain_path(s@),
{
    proof {
        reveal_strlit("\\\\?\\");
    }
    if starts_with(s, "\\\\?\\") {
        assert(verbatim_prefix().is_prefix_of(s@)) by {
            assert(s@.take(4) == verbatim_prefix());
        }
        let n = s.unicode_len();
        let rest = s.substring_char(4, n);
        assert(rest@ == s@.skip(4));
        let v = chars(rest);
        if v.len() >= 2 && v[0] <= '\u{7f}' && v[1] == ':' {
            return rest.to_owned();
        }
    } else {
        assert(!verbatim_prefix().is_prefix_of(s@)) by {
            if verbatim_prefix().is_prefix_of(s@) {
                assert(s@.take(4) =~= verbatim_prefix());
            }
        }
    }
    s.to_owned()
}

/// `a` stands before `b`, or is the same: the order of the characters' code
/// points, from the left.
pub open spec fn text_leq(a: Seq<char>, b: Seq<char>) -> bool
    decreases a.len(),
{
    if a.len() == 0 {
        true
    } else if b.len() == 0 {
        false
    } else if a[0] == b[0] {
        text_leq(a.drop_first(), b.drop_first())
    } else {
        a[0] < b[0]
    }
}

/// The order of the picker: by name, then by path.
pub open spec fn repo_leq(a: RepoText, b: RepoText) -> bool {
    if a.name == b.name {
        text_leq(a.path, b.path)
    } else {
        text_leq(a.name, b.name)
    }
}

/// The entry of the picker for a directory.
pub open spec fn entry(f: Found) -> RepoText {
    RepoText { name: f.owner@ + "/"@ + f.dir@, path: plain_path(f.shown@) }
}

/// A checkout with this path is among the directories.
pub open spec fn is_listed(found: Seq<Found>, path: Seq<u8>) -> bool {
    exists|i: int| 0 <= i < found.len() && (#[trigger] found[i]).has_git && found[i].path@ == path
}

/// `sorted` with `x` put in behind all that it does not stand before.
pub open spec fn placed(sorted: Seq<RepoText>, x: RepoText) -> Seq<RepoText>
    decreases sorted.len(),
{
    if sorted.len() == 0 || repo_leq(sorted.last(), x) {
        sorted.push(x)
    } else {
        placed(sorted.drop_last(), x).push(sorted.last())
    }
}

/// The picker's list: of the directories that hold a `.git`, the first with
/// each path, each put in its place.
pub open spec fn listing(found: Seq<Found>) -> Seq<RepoText>
    decreases found.len(),
{
    if found.len() == 0 {
        Seq::empty()
    } else {
        let before = listing(found.drop_last());
        let last = found.last();
        if last.has_git && !is_listed(found.drop_last(), last.path@) {
            placed(before, entry(last))
        } else {
            before
        }
    }
}

fn same_bytes(a: &Vec<u8>, b: &Vec<u8>) -> (r: bool)
    ensures
        r == (a@ == b@),
{
    if a.len() != b.len() {
        return false;
    }
    for i in 0..a.len()
        invariant
            a@.len() == b@.len(),
            forall|k: int| 0 <= k < i ==> a@[k] == b@[k],
    {
        if a[i] != b[i] {
            return false;
        }
    }
    assert(a@ =~= b@);
    true
}

/// Whether `a` stands before `b`, or is the same.
pub fn text_in_order(a: &str, b: &str) -> (r: bool)
    ensures
        r == text_leq(a@, b@),
{
    let x = chars(a);
    let y = chars(b);
    let mut i: usize = 0;
    assert(a@.skip(0) =~= a@ && b@.skip(0) =~= b@);
    while i < x.len() && i < y.len() && x[i] == y[i]
        invariant
            x@ == a@,
            y@ == b@,
            i <= a@.len(),
            i <= b@.len(),
            text_leq(a@, b@) == text_leq(a@.skip(i as int), b@.skip(i as int)),
        decreases a@.len() - i,
    {
        assert(a@.skip(i as int).drop_first() =~= a@.skip(i + 1));
        assert(b@.skip(i as int).drop_first() =~= b@.skip(i + 1));
        i = i + 1;
    }
    if i >= x.len() {
        true
    } else if i >= y.len() {
        false
    } else {
        x[i] < y[i]
    }
}

fn repos_in_order(a: &Repo, b: &Repo) -> (r: bool)
    ensures
        r == repo_leq(a@, b@),
{
    if a.name == b.name {
        text_in_order(a.path.as_str(), b.path.as_str())
    } else {
        text_in_order(a.name.as_str(), b.name.as_str())
    }
}

/// Puts the repo in its place.
fn place(repos: &mut Vec<Repo>, repo: Repo)
    ensures
        repo_texts(final(repos)@) == placed(repo_texts(old(repos)@), repo@),
{
    let ghost texts = repo_texts(repos@);
    let n = repos.len();
    let mut i: usize = n;
    assert(texts.take(n as int) =~= texts);
    assert(texts.skip(n as int) =~= Seq::<RepoText>::empty());
    assert(placed(texts, repo@) + Seq::<RepoText>::empty() =~= placed(texts, repo@));
    while i > 0 && !repos_in_order(&repos[i - 1], &repo)
        invariant
            i <= n,
            n == repos@.len(),
            repos@ == old(repos)@,
            texts == repo_texts(repos@),
            placed(texts, repo@) == placed(texts.take(i as int), repo@) + texts.skip(i as int),
        decreases i,
    {
        assert(texts.take(i as int).drop_last() =~= texts.take(i - 1));
        assert(texts.take(i as int).last() == repos@[i - 1]@);
        assert(placed(texts.take(i - 1), repo@).push(texts[i - 1]) + texts.skip(i as int) =~= placed(
            texts.take(i - 1),
            repo@,
        ) + texts.skip(i - 1));
        i = i - 1;
    }
    proof {
        if i > 0 {
            assert(texts.take(i as int).last() == repos@[i - 1]@);
        }
        assert(placed(texts.take(i as int), repo@) == texts.take(i as int).push(repo@));
    }
    let ghost x = repo@;
    repos.insert(i, repo);
    assert(repo_texts(repos@) =~= texts.take(i as int).push(x) + texts.skip(i as int));
}

/// The picker's list of what a walk of the roots met.
pub fn scan(found: &Vec<Found>) -> (r: Vec<Repo>)
    ensures
        repo_texts(r@) == listing(found@),
{
    let mut out: Vec<Repo> = Vec::new();
    assert(repo_texts(out@) =~= Seq::<RepoText>::empty());
    for i in 0..found.len()
        invariant
            repo_texts(out@) == listing(found@.take(i as int)),
    {
        let f = &found[i];
        let ghost before = found@.take(i as int);
        assert(found@.take(i + 1).drop_last() =~= before);
        assert(found@.take(i + 1).last() == *f);
        if f.has_git {
            let mut seen: bool = false;
            for k in 0..i
                invariant
                    i < found@.len(),
                    *f == found@[i as int],
                    before == found@.take(i as int),
                    seen == is_listed(before.take(k as int), f.path@),
            {
                assert(before.take(k + 1).drop_last() =~= before.take(k as int));
                assert(before.take(k + 1)[k as int] == found@[k as int]);
                let again = found[k].has_git && same_bytes(&found[k].path, &f.path);
                proof {
                    listed_grows(before.take(k + 1), f.path@);
                }
                if again {
                    seen = true;
                }
            }
            assert(before.take(i as int) =~= before);
            if !seen {
                let mut name: String = f.owner.clone();
                name.append("/");
                name.append(f.dir.as_str());
                place(&mut out, Repo { name, path: display_path(f.shown.as_str()) });
            }
        }
    }
    assert(found@.take(found@.len() as int) =~= found@);
    out
}

/// A path is listed if the last directory holds it or one before does.
proof fn listed_grows(found: Seq<Found>, path: Seq<u8>)
    requires
        found.len() > 0,
    ensures
        is_listed(found, path) == (is_listed(found.drop_last(), path) || (found.last().has_git
            && found.last().path@ == path)),
{
    if is_listed(found, path) {
        let i = choose|i: int|
            0 <= i < found.len() && (#[trigger] found[i]).has_git && found[i].path@ == path;
        if i < found.len() - 1 {
            assert(found.drop_last()[i] == found[i]);
        }
    }
    if is_listed(found.drop_last(), path) {
        let i = choose|i: int|
            0 <= i < found.drop_last().len() && (#[trigger] found.drop_last()[i]).has_git
                && found.drop_last()[i].path@ == path;
        assert(found[i] == found.drop_last()[i]);
    }
    if found.last().has_git && found.last().path@ == path {
        assert(found[found.len() - 1].has_git);
    }
}

/// Each entry stands before the next ones, or is the same.
pub open spec fn is_sorted(repos: Seq<RepoText>) -> bool {
    forall|i: int, j: int| 0 <= i <= j < repos.len() ==> repo_leq(#[trigger] repos[i], #[trigger] repos[j])
}

/// The entries of the checkouts, the first with each path, in the order they
/// were met.
pub open spec fn first_entries(found: Seq<Found>) -> Seq<RepoText>
    decreases found.len(),
{
    if found.len() == 0 {
        Seq::empty()
    } else {
        let before = first_entries(found.drop_last());
        if found.last().has_git && !is_listed(found.drop_last(), found.last().path@) {
            before.push(entry(found.last()))
        } else {
            before
        }
    }
}

/// The picker's list is sorted by name and path, and holds exactly the entries
/// of the checkouts, one for each path.
pub proof fn listing_is_sorted_and_complete(found: Seq<Found>)
    ensures
        is_sorted(listing(found)),
        listing(found).to_multiset() == first_entries(found).to_multiset(),
    decreases found.len(),
{
    if found.len() > 0 {
        listing_is_sorted_and_complete(found.drop_last());
        if found.last().has_git && !is_listed(found.drop_last(), found.last().path@) {
            let x = entry(found.last());
            placed_is_sorted(listing(found.drop_last()), x);
            placed_multiset(listing(found.drop_last()), x);
            to_multiset_build(first_entries(found.drop_last()), x);
        }
    }
}

/// Directories that hold no `.git`, and checkouts that were met before, add
/// nothing: walking the same roots again lists each checkout once.
pub proof fn met_again_lists_once(found: Seq<Found>, again: Seq<Found>)
    requires
        forall|i: int|
            0 <= i < again.len() && (#[trigger] again[i]).has_git ==> is_listed(
                found,
                again[i].path@,
            ),
    ensures
        listing(found + again) == listing(found),
    decreases again.len(),
{
    if again.len() == 0 {
        assert(found + again =~= found);
    } else {
        let all = found + again;
        let before = again.drop_last();
        assert(all.drop_last() =~= found + before);
        assert forall|i: int| 0 <= i < before.len() && (#[trigger] before[i]).has_git implies
            is_listed(found, before[i].path@) by {
            assert(again[i] == before[i]);
        }
        met_again_lists_once(found, before);
        let last = again[again.len() - 1];
        if last.has_git {
            let i = choose|i: int|
                0 <= i < found.len() && (#[trigger] found[i]).has_git && found[i].path@
                    == last.path@;
            assert(all.drop_last()[i] == found[i]);
            assert(is_listed(all.drop_last(), last.path@));
        }
    }
}

/// The picker's list for a doubled walk is the list for the walk.
pub proof fn duplicate_roots_list_once(found: Seq<Found>)
    ensures
        listing(found + found) == listing(found),
{
    assert forall|i: int| 0 <= i < found.len() && (#[trigger] found[i]).has_git implies is_listed(
        found,
        found[i].path@,
    ) by {}
    met_again_lists_once(found, found);
}

proof fn placed_multiset(sorted: Seq<RepoText>, x: RepoText)
    ensures
        placed(sorted, x).to_multiset() == sorted.to_multiset().insert(x),
    decreases sorted.len(),
{
    if sorted.len() == 0 || repo_leq(sorted.last(), x) {
        to_multiset_build(sorted, x);
    } else {
        let before = sorted.drop_last();
        placed_multiset(before, x);
        to_multiset_build(placed(before, x), sorted.last());
        to_multiset_build(before, sorted.last());
        assert(before.push(sorted.last()) =~= sorted);
        assert(before.to_multiset().insert(x).insert(sorted.last())
            =~= before.to_multiset().insert(sorted.last()).insert(x));
    }
}

proof fn placed_is_sorted(sorted: Seq<RepoText>, x: RepoText)
    requires
        is_sorted(sorted),
    ensures
        is_sorted(placed(sorted, x)),
        forall|i: int|
            0 <= i < placed(sorted, x).len() ==> sorted.contains(#[trigger] placed(sorted, x)[i])
                || placed(sorted, x)[i] == x,
    decreases sorted.len(),
{
    let r = placed(sorted, x);
    repo_leq_reflexive(x);
    if sorted.len() == 0 || repo_leq(sorted.last(), x) {
        assert forall|i: int, j: int| 0 <= i <= j < r.len() implies repo_leq(
            #[trigger] r[i],
            #[trigger] r[j],
        ) by {
            if j == sorted.len() && i < j {
                assert(repo_leq(sorted[i], sorted[sorted.len() - 1]));
                repo_leq_transitive(sorted[i], sorted.last(), x);
            } else if j < sorted.len() {
                assert(repo_leq(sorted[i], sorted[j]));
            }
        }
        assert forall|i: int| 0 <= i < r.len() implies sorted.contains(#[trigger] r[i]) || r[i]
            == x by {
            if i < sorted.len() {
                assert(sorted[i] == r[i]);
            }
        }
    } else {
        let before = sorted.drop_last();
        let p = placed(before, x);
        assert forall|i: int, j: int| 0 <= i <= j < before.len() implies repo_leq(
            #[trigger] before[i],
            #[trigger] before[j],
        ) by {
            assert(repo_leq(sorted[i], sorted[j]));
        }
        placed_is_sorted(before, x);
        repo_leq_total(sorted.last(), x);
        repo_leq_reflexive(sorted.last());
        assert forall|i: int| 0 <= i < p.len() implies repo_leq(#[trigger] p[i], sorted.last())
            && (sorted.contains(p[i]) || p[i] == x) by {
            if p[i] != x {
                assert(before.contains(p[i]));
                let k = choose|k: int| 0 <= k < before.len() && before[k] == p[i];
                assert(sorted[k] == p[i]);
                assert(repo_leq(sorted[k], sorted[sorted.len() - 1]));
            }
        }
        assert forall|i: int, j: int| 0 <= i <= j < r.len() implies repo_leq(
            #[trigger] r[i],
            #[trigger] r[j],
        ) by {
            if j < p.len() {
                assert(r[i] == p[i] && r[j] == p[j]);
            } else if i < p.len() {
                assert(r[i] == p[i]);
            }
        }
        assert forall|i: int| 0 <= i < r.len() implies sorted.contains(#[trigger] r[i]) || r[i]
            == x by {
            if i < p.len() {
                assert(r[i] == p[i]);
            } else {
                assert(sorted[sorted.len() - 1] == r[i]);
            }
        }
    }
}

proof fn text_leq_total(a: Seq<char>, b: Seq<char>)
    ensures
        text_leq(a, b) || text_leq(b, a),
        text_leq(a, b) && text_leq(b, a) ==> a == b,
    decreases a.len(),
{
    if a.len() == 0 {
        if b.len() == 0 {
            assert(a =~= b);
        }
    } else if b.len() > 0 && a[0] == b[0] {
        text_leq_total(a.drop_first(), b.drop_first());
        assert(a =~= seq![a[0]] + a.drop_first());
        assert(b =~= seq![b[0]] + b.drop_first());
    }
}

proof fn text_leq_transitive(a: Seq<char>, b: Seq<char>, c: Seq<char>)
    requires
        text_leq(a, b),
        text_leq(b, c),
    ensures
        text_leq(a, c),
    decreases a.len(),
{
    if a.len() > 0 && b.len() > 0 && c.len() > 0 && a[0] == b[0] && b[0] == c[0] {
        text_leq_transitive(a.drop_first(), b.drop_first(), c.drop_first());
    }
}

proof fn repo_leq_reflexive(a: RepoText)
    ensures
        repo_leq(a, a),
{
    text_leq_total(a.path, a.path);
}

proof fn repo_leq_total(a: RepoText, b: RepoText)
    ensures
        repo_leq(a, b) || repo_leq(b, a),
{
    text_leq_total(a.name, b.name);
    text_leq_total(a.path, b.path);
}

proof fn repo_leq_transitive(a: RepoText, b: RepoText, c: RepoText)
    requires
        repo_leq(a, b),
        repo_leq(b, c),
    ensures
        repo_leq(a, c),
{
    text_leq_total(a.name, b.name);
    text_leq_total(b.name, c.name);
    if a.name == b.name && b.name == c.name {
        text_leq_transitive(a.path, b.path, c.path);
    } else {
        text_leq_total(a.name, a.name);
        text_leq_total(b.name, b.name);
        text_leq_transitive(a.name, b.name, c.name);
        if a.name == c.name {
            text_leq_total(a.name, b.name);
        }
    }
}

/// Short-TTL cache of [`scan`], so polling the picker does not walk the disk
/// each time. A checkout deleted within the TTL stays listed; starting omp
/// there simply fails. Times are in nanoseconds of a clock that does not go back.
#[derive(Debug)]
pub struct Cache {
    pub roots: Vec<PathBuf>,
    pub ttl: u128,
    pub slot: Option<(u128, Vec<Repo>)>,
}

impl Cache {
    pub fn new(roots: Vec<PathBuf>, ttl: u128) -> (r: Self)
        ensures
            r.roots == roots,
            r.ttl == ttl,
            r.slot is None,
    {
        Cache { roots, ttl, slot: None }
    }

    pub fn has_roots(&self) -> (r: bool)
        ensures
            r == (self.roots@.len() > 0),
    {
        self.roots.len() > 0
    }

    /// What the cache serves at `now`: the last list, while it is younger than
    /// the TTL.
    pub open spec fn served(self, now: u128) -> Option<Vec<Repo>> {
        match self.slot {
            Some((at, repos)) => {
                let age = if now >= at {
                    now - at
                } else {
                    0
                };
                if age < self.ttl {
                    Some(repos)
                } else {
                    None
                }
            },
            None => None,
        }
    }

    /// The last list, while it is younger than the TTL; else the roots are to be
    /// walked again.
    pub fn get(&self, now: u128) -> (r: Option<&Vec<Repo>>)
        ensures
            match self.served(now) {
                Some(repos) => r == Some(&repos),
                None => r is None,
            },
    {
        match &self.slot {
            Some((at, repos)) => if now.saturating_sub(*at) < self.ttl {
                Some(repos)
            } else {
                None
            },
            None => None,
        }
    }

    /// Keeps the list of a walk that ended at `now`.
    pub fn store(&mut self, now: u128, repos: Vec<Repo>)
        ensures
            final(self).slot == Some((now, repos)),
            final(self).roots == old(self).roots,
            final(self).ttl == old(self).ttl,
    {
        self.slot = Some((now, repos));
    }
}

/// A stored list is served until the TTL is over, and no longer.
pub proof fn stored_list_is_served_within_ttl(
    cache: Cache,
    at: u128,
    repos: Vec<Repo>,
    now: u128,
)
    requires
        cache.slot == Some((at, repos)),
        at <= now,
    ensures
        cache.served(now) == (if now - at < cache.ttl {
            Some(repos)
        } else {
            None
        }),
{
}

/// The name of an entry is the whole name of the owner, a slash, and the whole
/// name of the directory, whatever characters they hold.
pub proof fn an_entry_is_named_by_owner_and_directory(f: Found)
    ensures
        entry(f).name.len() == f.owner@.len() + 1 + f.dir@.len(),
        forall|i: int| 0 <= i < f.owner@.len() ==> #[trigger] entry(f).name[i] == f.owner@[i],
        entry(f).name[f.owner@.len() as int] == '/',
        forall|i: int|
            0 <= i < f.dir@.len() ==> entry(f).name[f.owner@.len() + 1 + i] == #[trigger] f.dir@[i],
{
    reveal_strlit("/");
}

/// The path of an entry is the path of the directory, but for `\\?\` before a path
/// on a drive, which is left out. Every other path stays as it is.
pub proof fn only_the_prefix_of_a_drive_path_is_left_out(rest: Seq<char>, s: Seq<char>)
    ensures
        rest.len() >= 2 && rest[0] as int <= 127 && rest[1] == ':' ==> plain_path(
            seq!['\\', '\\', '?', '\\'] + rest,
        ) == rest,
        !(rest.len() >= 2 && rest[0] as int <= 127 && rest[1] == ':') ==> plain_path(
            seq!['\\', '\\', '?', '\\'] + rest,
        ) == seq!['\\', '\\', '?', '\\'] + rest,
        !(s.len() >= 4 && s[0] == '\\' && s[1] == '\\' && s[2] == '?' && s[3] == '\\')
            ==> plain_path(s) == s,
{
    reveal_strlit("\\\\?\\");
    let prefix = verbatim_prefix();
    let whole = seq!['\\', '\\', '?', '\\'] + rest;
    assert(prefix =~= seq!['\\', '\\', '?', '\\']);
    assert(whole.subrange(0, 4) =~= prefix);
    assert(prefix.is_prefix_of(whole));
    assert(whole.skip(4) =~= rest);
    if prefix.is_prefix_of(s) {
        assert(s.subrange(0, 4) == prefix);
        assert(s[0] == prefix[0] && s[1] == prefix[1] && s[2] == prefix[2] && s[3] == prefix[3]);
    }
}

/// Of two texts that differ, the one with the smaller character at the first place
/// where they do stands first; and a text stands before those it begins.
pub proof fn the_first_difference_orders(
    common: Seq<char>,
    x: char,
    y: char,
    a: Seq<char>,
    b: Seq<char>,
)
    requires
        x < y,
    ensures
        text_leq(common + seq![x] + a, common + seq![y] + b),
        !text_leq(common + seq![y] + b, common + seq![x] + a),
        text_leq(common, common + a),
        a.len() > 0 ==> !text_leq(common + a, common),
    decreases common.len(),
{
    let (s, t) = (common + seq![x] + a, common + seq![y] + b);
    if common.len() == 0 {
        assert(s[0] == x && t[0] == y);
    } else {
        let rest = common.drop_first();
        the_first_difference_orders(rest, x, y, a, b);
        assert(s.drop_first() =~= rest + seq![x] + a);
        assert(t.drop_first() =~= rest + seq![y] + b);
        assert((common + a).drop_first() =~= rest + a);
    }
}

/// Entries with different names stand in the order of the names, whatever their
/// paths; entries with the same name stand in the order of the paths.
pub proof fn names_come_before_paths(a: RepoText, b: RepoText)
    ensures
        a.name != b.name ==> (repo_leq(a, b) <==> text_leq(a.name, b.name)),
        a.name == b.name ==> (repo_leq(a, b) <==> text_leq(a.path, b.path)),
{
}

/// The `i`th directory is a checkout, and no directory met before is a checkout
/// with the same path.
pub open spec fn is_first(found: Seq<Found>, i: int) -> bool {
    &&& found[i].has_git
    &&& forall|j: int|
        0 <= j < i && (#[trigger] found[j]).has_git ==> found[j].path@ != found[i].path@
}

/// The `k`th entry of the list is that of the directory `at[k]`, and there is one
/// for each checkout that was met first with its path.
pub open spec fn is_list_of(list: Seq<RepoText>, found: Seq<Found>, at: Seq<int>) -> bool {
    &&& at.len() == list.len()
    &&& at.no_duplicates()
    &&& forall|k: int|
        0 <= k < at.len() ==> {
            let i = #[trigger] at[k];
            &&& 0 <= i < found.len()
            &&& is_first(found, i)
            &&& list[k].name == found[i].owner@ + "/"@ + found[i].dir@
            &&& list[k].path == plain_path(found[i].shown@)
        }
    &&& forall|i: int| 0 <= i < found.len() && #[trigger] is_first(found, i) ==> at.contains(i)
}

/// Every checkout that was met is listed, once for each path, under its own names
/// and path; and nothing else is listed.
pub proof fn each_checkout_is_listed_once(found: Seq<Found>)
    ensures
        exists|at: Seq<int>| is_list_of(listing(found), found, at),
{
    let at = places_of(found);
    assert(is_list_of(listing(found), found, at));
}

proof fn places_of(found: Seq<Found>) -> (at: Seq<int>)
    ensures
        is_list_of(listing(found), found, at),
    decreases found.len(),
{
    if found.len() == 0 {
        Seq::empty()
    } else {
        let before = found.drop_last();
        let old_at = places_of(before);
        let n = before.len() as int;
        assert forall|i: int| 0 <= i < n implies is_first(before, i) == is_first(found, i) by {
            assert(before[i] == found[i]);
            if is_first(before, i) {
                assert forall|j: int| 0 <= j < i && (#[trigger] found[j]).has_git implies
                    found[j].path@ != found[i].path@ by {
                    assert(before[j] == found[j]);
                }
            }
            if is_first(found, i) {
                assert forall|j: int| 0 <= j < i && (#[trigger] before[j]).has_git implies
                    before[j].path@ != before[i].path@ by {
                    assert(before[j] == found[j]);
                }
            }
        }
        assert(is_first(found, n) == (found[n].has_git && !is_listed(before, found[n].path@))) by {
            if is_listed(before, found[n].path@) {
                let j = choose|j: int|
                    0 <= j < before.len() && (#[trigger] before[j]).has_git && before[j].path@
                        == found[n].path@;
                assert(found[j] == before[j]);
            } else {
                assert forall|j: int| 0 <= j < n && (#[trigger] found[j]).has_git implies
                    found[j].path@ != found[n].path@ by {
                    assert(before[j] == found[j]);
                }
            }
        }
        let list = listing(before);
        if is_first(found, n) {
            let x = entry(found[n]);
            let p = place_of(list, x);
            let at = old_at.insert(p, n);
            assert(listing(found) == list.insert(p, x));
            assert forall|k: int| 0 <= k < at.len() implies {
                let i = #[trigger] at[k];
                &&& 0 <= i < found.len()
                &&& is_first(found, i)
                &&& listing(found)[k].name == found[i].owner@ + "/"@ + found[i].dir@
                &&& listing(found)[k].path == plain_path(found[i].shown@)
            } by {
                if k < p {
                    assert(at[k] == old_at[k]);
                    assert(before[old_at[k]] == found[old_at[k]]);
                } else if k > p {
                    assert(at[k] == old_at[k - 1]);
                    assert(before[old_at[k - 1]] == found[old_at[k - 1]]);
                }
            }
            assert forall|k: int, l: int| 0 <= k < at.len() && 0 <= l < at.len() && k != l implies
                at[k] != at[l] by {
                let k0 = if k < p {
                    k
                } else {
                    k - 1
                };
                let l0 = if l < p {
                    l
                } else {
                    l - 1
                };
                if k != p {
                    assert(at[k] == old_at[k0]);
                }
                if l != p {
                    assert(at[l] == old_at[l0]);
                }
            }
            assert forall|i: int| 0 <= i < found.len() && #[trigger] is_first(
                found,
                i,
            ) implies at.contains(i) by {
                if i == n {
                    assert(at[p] == n);
                } else {
                    assert(is_first(before, i));
                    let k = choose|k: int| 0 <= k < old_at.len() && old_at[k] == i;
                    if k < p {
                        assert(at[k] == i);
                    } else {
                        assert(at[k + 1] == i);
                    }
                }
            }
            at
        } else {
            assert forall|k: int| 0 <= k < old_at.len() implies {
                let i = #[trigger] old_at[k];
                &&& 0 <= i < found.len()
                &&& is_first(found, i)
                &&& listing(found)[k].name == found[i].owner@ + "/"@ + found[i].dir@
                &&& listing(found)[k].path == plain_path(found[i].shown@)
            } by {
                assert(before[old_at[k]] == found[old_at[k]]);
            }
            assert forall|i: int| 0 <= i < found.len() && #[trigger] is_first(
                found,
                i,
            ) implies old_at.contains(i) by {
                assert(is_first(before, i));
            }
            old_at
        }
    }
}

/// Where an entry is put in.
proof fn place_of(sorted: Seq<RepoText>, x: RepoText) -> (p: int)
    ensures
        0 <= p <= sorted.len(),
        placed(sorted, x) == sorted.insert(p, x),
    decreases sorted.len(),
{
    if sorted.len() == 0 || repo_leq(sorted.last(), x) {
        assert(placed(sorted, x) =~= sorted.insert(sorted.len() as int, x));
        sorted.len() as int
    } else {
        let p = place_of(sorted.drop_last(), x);
        assert(placed(sorted, x) =~= sorted.insert(p, x));
        p
    }
}

/// What the contracts say of the checkouts is said of their own names and paths, one
/// by one.
pub proof fn checkouts_show_what_they_hold(repos: Seq<Repo>, i: int)
    requires
        0 <= i < repos.len(),
    ensures
        repo_texts(repos).len() == repos.len(),
        repo_texts(repos)[i].name == repos[i].name@,
        repo_texts(repos)[i].path == repos[i].path@,
{
}

/// A list is never served before one was stored, nor without a time to live.
pub proof fn nothing_is_served_before_it_is_stored(cache: Cache, now: u128)
    ensures
        cache.slot is None ==> cache.served(now) is None,
        cache.ttl == 0 ==> cache.served(now) is None,
{
}

} // verus!
