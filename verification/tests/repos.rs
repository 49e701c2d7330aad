use omp_deck::repos::{display_path, scan, Cache, Found, Repo};
use std::path::PathBuf;

const MS: u128 = 1_000_000;

fn found(owner: &str, dir: &str, path: &str) -> Found {
    Found {
        owner: owner.to_string(),
        dir: dir.to_string(),
        has_git: true,
        path: path.as_bytes().to_vec(),
        shown: path.to_string(),
    }
}

fn repo(name: &str, path: &str) -> Repo {
    Repo {
        name: name.to_string(),
        path: path.to_string(),
    }
}

#[test]
fn finds_ghq_layout_checkouts_sorted() {
    let mut bare = found("acme", "not-a-repo", "/r/github.com/acme/not-a-repo");
    bare.has_git = false;
    let repos = scan(&vec![
        found("zed", "b", "/r/github.com/zed/b"),
        found("acme", "a", "/r/github.com/acme/a"),
        bare,
    ]);
    let names: Vec<_> = repos.iter().map(|r| r.name.as_str()).collect();
    assert_eq!(names, ["acme/a", "zed/b"]);
    // The listed string is exactly what a lookup compares against.
    assert_eq!(repos[0].path, display_path("/r/github.com/acme/a"));
}

#[test]
fn verbatim_prefix_is_stripped_only_for_drive_paths() {
    assert_eq!(display_path(r"\\?\C:\src\r"), r"C:\src\r");
    assert_eq!(display_path("/src/r"), "/src/r");
    assert_eq!(
        display_path(r"\\?\UNC\srv\share\r"),
        r"\\?\UNC\srv\share\r"
    );
}

#[test]
fn stale_roots_are_skipped_not_fatal() {
    let repos = scan(&vec![found("o", "r", "/t/h/o/r")]);
    assert_eq!(repos.len(), 1);
    assert!(scan(&vec![]).is_empty());
}

#[test]
fn duplicate_roots_list_once() {
    let repos = scan(&vec![
        found("o", "r", "/t/h/o/r"),
        found("o", "r", "/t/h/o/r"),
        found("o", "r", "/t/h/o/r"),
    ]);
    assert_eq!(repos.len(), 1);
}

#[test]
fn symlinked_root_dedups() {
    let repos = scan(&vec![
        found("o", "r", "/t/real/h/o/r"),
        found("o", "alias", "/t/real/h/o/r"),
    ]);
    assert_eq!(repos, [repo("o/r", "/t/real/h/o/r")]);
}

#[test]
fn same_names_sort_by_path() {
    let repos = scan(&vec![
        found("o", "r", "/b/o/r"),
        found("o", "r", "/a/o/r"),
        found("O", "r", "/c/O/r"),
        found("o", "r\u{e9}", "/a/o/re"),
    ]);
    assert_eq!(
        repos,
        [
            repo("O/r", "/c/O/r"),
            repo("o/r", "/a/o/r"),
            repo("o/r", "/b/o/r"),
            repo("o/r\u{e9}", "/a/o/re"),
        ]
    );
}

#[test]
fn drive_paths_are_listed_plain() {
    let repos = scan(&vec![found("o", "r", r"\\?\D:\ghq\h\o\r")]);
    assert_eq!(repos[0].path, r"D:\ghq\h\o\r");
    assert_eq!(display_path(r"\\?\"), r"\\?\");
    assert_eq!(display_path(r"\\?\:"), r"\\?\:");
    assert_eq!(display_path("\\\\?\\\u{e9}:x"), "\\\\?\\\u{e9}:x");
}

#[test]
fn cache_serves_within_ttl_then_rescans() {
    let mut cache = Cache::new(vec![PathBuf::from("/t")], 300 * MS);
    assert!(cache.has_roots());
    assert!(cache.get(0).is_none());
    cache.store(0, scan(&vec![found("o", "one", "/t/h/o/one")]));
    assert_eq!(cache.get(0).unwrap().len(), 1);
    assert_eq!(cache.get(299 * MS).unwrap().len(), 1);
    assert!(cache.get(300 * MS).is_none());
    cache.store(
        350 * MS,
        scan(&vec![
            found("o", "one", "/t/h/o/one"),
            found("o", "two", "/t/h/o/two"),
        ]),
    );
    assert_eq!(cache.get(350 * MS).unwrap().len(), 2);
    assert!(!Cache::new(vec![], 300 * MS).has_roots());
}
