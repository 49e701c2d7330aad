//! The walk for checkouts: which directories are read, by the ghq layout
//! `<root>/<host>/<owner>/<repo>`. Reading them is left to the caller.

use crate::repos::{listing, repo_texts, scan, Found, Repo};
use std::path::PathBuf;
use vstd::prelude::*;

verus! {

/// A directory within another one.
pub struct Entry {
    pub path: PathBuf,
    pub name: String,
}

/// What is found in a directory at the depth of a checkout.
pub struct Inspection {
    /// Whether it holds a `.git`.
    pub has_git: bool,
    /// The bytes of its canonical path.
    pub path: Vec<u8>,
    /// Its canonical path as text.
    pub shown: String,
}

/// What is to be read next.
#[derive(Debug)]
pub enum Visit<'a> {
    /// The directories within this one. One that is missing or cannot be read
    /// has none.
    List(&'a PathBuf),
    /// What is in this one.
    Inspect(&'a PathBuf),
    /// Nothing more.
    Done,
}

/// What was read.
pub enum Answer {
    Listed(Vec<Entry>),
    Inspected(Inspection),
}

/// What a walk has ahead of it, in order, and what it met.
pub ghost struct Ahead {
    pub roots: Seq<PathBuf>,
    /// Of the current root.
    pub hosts: Seq<Entry>,
    /// Of the current host.
    pub owners: Seq<Entry>,
    /// The name of the current owner.
    pub owner: String,
    /// Of the current owner.
    pub dirs: Seq<Entry>,
    pub found: Seq<Found>,
}

/// What a directory at the depth of a checkout is met as.
pub open spec fn met(owner: String, dir: String, inspection: Inspection) -> Found {
    Found {
        owner,
        dir,
        has_git: inspection.has_git,
        path: inspection.path,
        shown: inspection.shown,
    }
}

/// What an answer changes. One that was not asked for changes nothing.
pub open spec fn after(a: Ahead, answer: Answer) -> Ahead {
    match answer {
        Answer::Inspected(inspection) => if a.dirs.len() > 0 {
            Ahead {
                dirs: a.dirs.drop_first(),
                found: a.found.push(met(a.owner, a.dirs.first().name, inspection)),
                ..a
            }
        } else {
            a
        },
        Answer::Listed(entries) => if a.dirs.len() > 0 {
            a
        } else if a.owners.len() > 0 {
            Ahead {
                owners: a.owners.drop_first(),
                owner: a.owners.first().name,
                dirs: entries@,
                ..a
            }
        } else if a.hosts.len() > 0 {
            Ahead { hosts: a.hosts.drop_first(), owners: entries@, ..a }
        } else if a.roots.len() > 0 {
            Ahead { roots: a.roots.drop_first(), hosts: entries@, ..a }
        } else {
            a
        },
    }
}

/// The directory to list next, where one is.
pub open spec fn to_list(a: Ahead) -> Option<PathBuf> {
    if a.dirs.len() > 0 {
        None
    } else if a.owners.len() > 0 {
        Some(a.owners.first().path)
    } else if a.hosts.len() > 0 {
        Some(a.hosts.first().path)
    } else if a.roots.len() > 0 {
        Some(a.roots.first())
    } else {
        None
    }
}

/// The directory to look into next, where one is.
pub open spec fn to_inspect(a: Ahead) -> Option<PathBuf> {
    if a.dirs.len() > 0 {
        Some(a.dirs.first().path)
    } else {
        None
    }
}

/// Where a walk starts.
pub open spec fn is_start(a: Ahead, roots: Seq<PathBuf>) -> bool {
    &&& a.roots == roots
    &&& a.hosts.len() == 0
    &&& a.owners.len() == 0
    &&& a.dirs.len() == 0
    &&& a.found.len() == 0
}

/// A walk in progress. Of each list the next item comes last.
pub struct Walk {
    roots: Vec<PathBuf>,
    hosts: Vec<Entry>,
    owners: Vec<Entry>,
    owner: String,
    dirs: Vec<Entry>,
    found: Vec<Found>,
}

impl View for Walk {
    type V = Ahead;

    closed spec fn view(&self) -> Ahead {
        Ahead {
            roots: self.roots@.reverse(),
            hosts: self.hosts@.reverse(),
            owners: self.owners@.reverse(),
            owner: self.owner,
            dirs: self.dirs@.reverse(),
            found: self.found@,
        }
    }
}

fn reversed<T>(v: Vec<T>) -> (r: Vec<T>)
    ensures
        r@ == v@.reverse(),
{
    let mut v = v;
    let mut r: Vec<T> = Vec::new();
    let ghost all = v@;
    while v.len() > 0
        invariant
            v@.len() + r@.len() == all.len(),
            v@ == all.take(v@.len() as int),
            r@ == all.reverse().take(r@.len() as int),
        decreases v@.len(),
    {
        if let Some(x) = v.pop() {
            r.push(x);
        }
        assert(v@ =~= all.take(v@.len() as int));
        assert(r@ =~= all.reverse().take(r@.len() as int));
    }
    assert(r@ =~= all.reverse());
    r
}

impl Walk {
    /// A walk of these roots.
    pub fn new(roots: Vec<PathBuf>) -> (r: Self)
        ensures
            is_start(r@, roots@),
    {
        let r = Walk {
            roots: reversed(roots),
            hosts: Vec::new(),
            owners: Vec::new(),
            owner: String::new(),
            dirs: Vec::new(),
            found: Vec::new(),
        };
        assert(r@.roots =~= roots@);
        r
    }

    /// What is to be read now.
    pub fn next(&self) -> (r: Visit<'_>)
        ensures
            match (to_inspect(self@), to_list(self@)) {
                (Some(dir), _) => r == Visit::Inspect(&dir),
                (None, Some(dir)) => r == Visit::List(&dir),
                (None, None) => r is Done,
            },
    {
        if self.dirs.len() > 0 {
            Visit::Inspect(&self.dirs[self.dirs.len() - 1].path)
        } else if self.owners.len() > 0 {
            Visit::List(&self.owners[self.owners.len() - 1].path)
        } else if self.hosts.len() > 0 {
            Visit::List(&self.hosts[self.hosts.len() - 1].path)
        } else if self.roots.len() > 0 {
            Visit::List(&self.roots[self.roots.len() - 1])
        } else {
            Visit::Done
        }
    }

    /// Takes note of what was read.
    pub fn step(self, answer: Answer) -> (r: Self)
        ensures
            r@ == after(self@, answer),
    {
        let ghost a = self@;
        let mut w = self;
        match answer {
            Answer::Inspected(inspection) => {
                if let Some(dir) = w.dirs.pop() {
                    let Inspection { has_git, path, shown } = inspection;
                    let owner = w.owner.clone();
                    w.found.push(Found { owner, dir: dir.name, has_git, path, shown });
                    assert(w@.dirs =~= a.dirs.drop_first());
                }
            },
            Answer::Listed(entries) => {
                if w.dirs.len() > 0 {
                    return w;
                }
                if let Some(owner) = w.owners.pop() {
                    w.owner = owner.name;
                    w.dirs = reversed(entries);
                    assert(w@.owners =~= a.owners.drop_first());
                    assert(w@.dirs =~= entries@);
                } else if let Some(_) = w.hosts.pop() {
                    w.owners = reversed(entries);
                    assert(w@.hosts =~= a.hosts.drop_first());
                    assert(w@.owners =~= entries@);
                } else if let Some(_) = w.roots.pop() {
                    w.hosts = reversed(entries);
                    assert(w@.roots =~= a.roots.drop_first());
                    assert(w@.hosts =~= entries@);
                }
            },
        }
        w
    }

    /// The picker's list of what was met.
    pub fn repos(&self) -> (r: Vec<Repo>)
        ensures
            repo_texts(r@) == listing(self@.found),
    {
        scan(&self.found)
    }
}

/// What the disk holds while a walk goes on.
pub ghost struct Disk {
    pub list: spec_fn(PathBuf) -> Seq<Entry>,
    pub inspect: spec_fn(PathBuf) -> Inspection,
}

/// What these directories of an owner are met as.
pub open spec fn met_dirs(disk: Disk, owner: String, dirs: Seq<Entry>) -> Seq<Found> {
    dirs.map_values(|d: Entry| met(owner, d.name, (disk.inspect)(d.path)))
}

/// What the directories of these owners are met as.
pub open spec fn met_owners(disk: Disk, owners: Seq<Entry>) -> Seq<Found>
    decreases owners.len(),
{
    if owners.len() == 0 {
        Seq::empty()
    } else {
        let first = owners.first();
        met_dirs(disk, first.name, (disk.list)(first.path)) + met_owners(disk, owners.drop_first())
    }
}

/// What the directories below these hosts are met as.
pub open spec fn met_hosts(disk: Disk, hosts: Seq<Entry>) -> Seq<Found>
    decreases hosts.len(),
{
    if hosts.len() == 0 {
        Seq::empty()
    } else {
        met_owners(disk, (disk.list)(hosts.first().path)) + met_hosts(disk, hosts.drop_first())
    }
}

/// What the directories at the depth of a checkout below these roots are met as,
/// root by root, host by host, owner by owner.
pub open spec fn met_roots(disk: Disk, roots: Seq<PathBuf>) -> Seq<Found>
    decreases roots.len(),
{
    if roots.len() == 0 {
        Seq::empty()
    } else {
        met_hosts(disk, (disk.list)(roots.first())) + met_roots(disk, roots.drop_first())
    }
}

/// All that a walk will have met in the end.
pub open spec fn met_in_all(disk: Disk, a: Ahead) -> Seq<Found> {
    a.found + met_dirs(disk, a.owner, a.dirs) + met_owners(disk, a.owners) + met_hosts(
        disk,
        a.hosts,
    ) + met_roots(disk, a.roots)
}

/// The answer of the disk to what is asked next.
pub open spec fn is_answer(disk: Disk, a: Ahead, answer: Answer) -> bool {
    match answer {
        Answer::Inspected(inspection) => to_inspect(a) matches Some(dir) && inspection == (
        disk.inspect)(dir),
        Answer::Listed(entries) => to_list(a) matches Some(dir) && entries@ == (disk.list)(dir),
    }
}

/// Where these answers lead.
pub open spec fn walked(a: Ahead, answers: Seq<Answer>) -> Ahead
    decreases answers.len(),
{
    if answers.len() == 0 {
        a
    } else {
        after(walked(a, answers.drop_last()), answers.last())
    }
}

/// Each of these answers is that of the disk to what was asked.
pub open spec fn answered(disk: Disk, a: Ahead, answers: Seq<Answer>) -> bool
    decreases answers.len(),
{
    answers.len() > 0 ==> answered(disk, a, answers.drop_last()) && is_answer(
        disk,
        walked(a, answers.drop_last()),
        answers.last(),
    )
}

/// A finished walk of the roots met exactly the directories three levels below
/// them, in order.
pub proof fn a_walk_meets_the_layout(
    disk: Disk,
    roots: Seq<PathBuf>,
    start: Ahead,
    answers: Seq<Answer>,
)
    requires
        is_start(start, roots),
        answered(disk, start, answers),
        to_inspect(walked(start, answers)) is None,
        to_list(walked(start, answers)) is None,
    ensures
        walked(start, answers).found == met_roots(disk, roots),
{
    let end = walked(start, answers);
    answers_keep_what_is_met(disk, start, answers);
    assert(met_dirs(disk, start.owner, start.dirs) =~= Seq::<Found>::empty());
    assert(met_in_all(disk, start) =~= met_roots(disk, roots));
    assert(met_dirs(disk, end.owner, end.dirs) =~= Seq::<Found>::empty());
    assert(met_in_all(disk, end) =~= end.found);
}

proof fn answers_keep_what_is_met(disk: Disk, a: Ahead, answers: Seq<Answer>)
    requires
        answered(disk, a, answers),
    ensures
        met_in_all(disk, walked(a, answers)) == met_in_all(disk, a),
    decreases answers.len(),
{
    if answers.len() > 0 {
        answers_keep_what_is_met(disk, a, answers.drop_last());
        an_answer_keeps_what_is_met(disk, walked(a, answers.drop_last()), answers.last());
    }
}

proof fn an_answer_keeps_what_is_met(disk: Disk, a: Ahead, answer: Answer)
    requires
        is_answer(disk, a, answer),
    ensures
        met_in_all(disk, after(a, answer)) == met_in_all(disk, a),
{
    let b = after(a, answer);
    match answer {
        Answer::Inspected(inspection) => {
            assert(met_dirs(disk, a.owner, a.dirs) =~= seq![
                met(a.owner, a.dirs.first().name, inspection),
            ] + met_dirs(disk, a.owner, a.dirs.drop_first()));
        },
        Answer::Listed(entries) => {
            assert(met_dirs(disk, a.owner, a.dirs) =~= Seq::<Found>::empty());
            assert(b.dirs.len() == 0 ==> met_dirs(disk, b.owner, b.dirs) =~= Seq::<Found>::empty());
        },
    }
    assert(met_in_all(disk, b) =~= met_in_all(disk, a));
}

/// A directory is met under its own name and that of its owner, with what is in it,
/// behind what was met before.
pub proof fn a_directory_is_met_as_it_is(a: Ahead, inspection: Inspection)
    requires
        a.dirs.len() > 0,
    ensures
        ({
            let b = after(a, Answer::Inspected(inspection));
            &&& b.found.len() == a.found.len() + 1
            &&& forall|i: int| 0 <= i < a.found.len() ==> b.found[i] == a.found[i]
            &&& b.found.last().owner == a.owner
            &&& b.found.last().dir == a.dirs.first().name
            &&& b.found.last().has_git == inspection.has_git
            &&& b.found.last().path == inspection.path
            &&& b.found.last().shown == inspection.shown
            &&& b.dirs == a.dirs.drop_first()
        }),
{
}

} // verus!
