use omp_deck::repos::Repo;
use omp_deck::walk::{Answer, Entry, Inspection, Visit, Walk};
use std::path::{Path, PathBuf};

/// A disk that holds these checkouts' `.git` directories and these other ones.
struct Disk {
    git: Vec<&'static str>,
    other: Vec<&'static str>,
}

impl Disk {
    fn list(&self, dir: &Path) -> Vec<Entry> {
        let mut names: Vec<String> = Vec::new();
        for path in self.git.iter().chain(&self.other) {
            if let Ok(rest) = Path::new(path).strip_prefix(dir) {
                if let Some(first) = rest.components().next() {
                    let name = first.as_os_str().to_string_lossy().into_owned();
                    if !names.contains(&name) {
                        names.push(name);
                    }
                }
            }
        }
        names
            .into_iter()
            .map(|name| Entry {
                path: dir.join(&name),
                name,
            })
            .collect()
    }

    fn inspect(&self, dir: &Path) -> Inspection {
        let shown = dir.display().to_string();
        Inspection {
            has_git: self.git.iter().any(|g| Path::new(g) == dir),
            path: shown.as_bytes().to_vec(),
            shown,
        }
    }
}

fn repo(name: &str, path: &str) -> Repo {
    Repo {
        name: name.to_string(),
        path: path.to_string(),
    }
}

/// The list of a whole walk, and the directories it looked into.
fn walk(disk: &Disk, roots: &[&str]) -> (Vec<Repo>, Vec<PathBuf>) {
    let mut looked = Vec::new();
    let mut walk = Walk::new(roots.iter().map(PathBuf::from).collect());
    loop {
        let answer = match walk.next() {
            Visit::List(dir) => Answer::Listed(disk.list(dir)),
            Visit::Inspect(dir) => {
                looked.push(dir.clone());
                Answer::Inspected(disk.inspect(dir))
            }
            Visit::Done => return (walk.repos(), looked),
        };
        walk = walk.step(answer);
    }
}

#[test]
fn walks_three_levels_down() {
    let disk = Disk {
        git: vec![
            "/r/github.com/zed/b",
            "/r/github.com/acme/a",
            "/r/github.com/too-shallow",
        ],
        other: vec!["/r/github.com/acme/not-a-repo", "/r/x/y/z/too-deep"],
    };
    let (repos, looked) = walk(&disk, &["/r"]);
    assert_eq!(
        repos,
        [
            repo("acme/a", "/r/github.com/acme/a"),
            repo("zed/b", "/r/github.com/zed/b"),
        ]
    );
    assert_eq!(
        looked,
        [
            "/r/github.com/zed/b",
            "/r/github.com/acme/a",
            "/r/github.com/acme/not-a-repo",
            "/r/x/y/z",
        ]
        .map(PathBuf::from)
    );
}

#[test]
fn a_stale_root_adds_nothing() {
    let disk = Disk {
        git: vec!["/t/h/o/r"],
        other: vec![],
    };
    assert_eq!(walk(&disk, &["/gone", "/t"]).0, [repo("o/r", "/t/h/o/r")]);
    assert!(walk(&disk, &[]).0.is_empty());
}

#[test]
fn a_root_given_twice_lists_once() {
    let disk = Disk {
        git: vec!["/t/h/o/r"],
        other: vec![],
    };
    let (repos, looked) = walk(&disk, &["/t", "/t", "/t"]);
    assert_eq!(repos, [repo("o/r", "/t/h/o/r")]);
    assert_eq!(looked.len(), 3);
}

#[test]
fn an_answer_that_was_not_asked_for_changes_nothing() {
    let disk = Disk {
        git: vec!["/t/h/o/r"],
        other: vec![],
    };
    let walk = Walk::new(vec![PathBuf::from("/t")]);
    let walk = walk.step(Answer::Inspected(disk.inspect(Path::new("/t"))));
    match walk.next() {
        Visit::List(dir) => assert_eq!(dir, &PathBuf::from("/t")),
        other => panic!("{other:?}"),
    }
    assert!(walk.repos().is_empty());
    let done = Walk::new(vec![]).step(Answer::Listed(disk.list(Path::new("/t"))));
    assert!(matches!(done.next(), Visit::Done));
}
