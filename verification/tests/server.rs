use omp_deck::model::{Access, Host, Model};
use omp_deck::omp::{self, OmpError};
use omp_deck::repos::{Cache, Repo};
use omp_deck::server::{
    api_hosts, api_models, api_repos, api_start, api_started, api_stop, api_stopped, go,
    go_linked, go_listed, harden, index, plain, Body, Go, Header, Launcher, Response, Start, Stop,
};
use std::path::PathBuf;

const SECRET: &str = "https://my.omp.sh/#secret-room-key";
const NOW: i64 = 1_700_000_000_000 + 5 * 60_000;

fn fixture() -> Vec<Host> {
    vec![
        Host {
            instance_id: "inst-aaa".to_string(),
            generation: 1,
            pid: Some(4242),
            session_id: "sess-1".to_string(),
            session_name: None,
            cwd: "C:\\Users\\me\\src\\omp-deck".to_string(),
            model: Some(Model {
                provider: "anthropic".to_string(),
                id: "model-x".to_string(),
            }),
            started_at: Some(1_700_000_000_000),
            participants: 1,
            relay_connected: true,
            input_required: true,
            busy: false,
            access: Access::Control,
        },
        Host {
            instance_id: "inst-bbb".to_string(),
            generation: 2,
            pid: Some(4343),
            session_id: "sess-2".to_string(),
            session_name: Some("<script>alert(1)</script>".to_string()),
            cwd: "C:\\work\\<b>evil".to_string(),
            model: None,
            started_at: None,
            participants: 0,
            relay_connected: true,
            input_required: false,
            busy: true,
            access: Access::View,
        },
    ]
}

fn kaboom(stderr: &str) -> OmpError {
    OmpError::Exit {
        code: Some(1),
        stderr: stderr.to_string(),
    }
}

fn launcher(roots: Vec<PathBuf>, models: &[&str]) -> Launcher {
    Launcher {
        repos: Cache::new(roots, 30_000_000_000),
        models: models.iter().map(|m| m.to_string()).collect(),
    }
}

/// One scanned checkout, and the path the scan reports.
fn one_checkout() -> (Launcher, Vec<Repo>, String) {
    let path = "/t/h/o/r".to_string();
    let repos = vec![Repo {
        name: "o/r".to_string(),
        path: path.clone(),
    }];
    let l = launcher(vec![PathBuf::from("/t")], &["opus", "gpt-5.2"]);
    (l, repos, path)
}

fn header<'a>(r: &'a Response, name: &str) -> Option<&'a str> {
    let mut all = r.headers.iter().filter(|h| h.name == name);
    let first = all.next().map(|h| h.value.as_str());
    assert!(all.next().is_none());
    first
}

fn text(r: &Response) -> &str {
    match &r.body {
        Body::Text(s) | Body::Html(s) | Body::Error(s) => s,
        other => panic!("{other:?}"),
    }
}

/// All steps of `GET /go/<id>/<kind>`, and the link that was asked for.
fn go_to(
    id: &str,
    kind: &str,
    listed: Result<Vec<Host>, OmpError>,
) -> (Response, Option<(String, omp::Access)>) {
    let access = match go(kind) {
        Go::List(access) => access,
        Go::Answer(r) => return (harden(r), None),
        other => panic!("{other:?}"),
    };
    match go_listed(id, access, listed) {
        Go::Link {
            instance_id,
            access,
        } => (
            harden(go_linked(Ok(SECRET.to_string()))),
            Some((instance_id, access)),
        ),
        Go::Answer(r) => (harden(r), None),
        other => panic!("{other:?}"),
    }
}

#[test]
fn index_and_api_never_contain_link_urls() {
    let page = index(Ok(fixture()), NOW);
    assert_eq!(page.status, 200);
    assert!(!text(&page).contains(SECRET));
    assert!(!text(&page).contains("my.omp.sh"));
    let hosts = api_hosts(Ok(fixture()));
    assert_eq!(hosts.status, 200);
    assert!(!format!("{hosts:?}").contains("my.omp.sh"));
}

#[test]
fn api_lists_hosts_as_json() {
    match api_hosts(Ok(fixture())).body {
        Body::Hosts(hosts) => {
            assert_eq!(hosts.len(), 2);
            assert_eq!(hosts[0].instance_id, "inst-aaa");
        }
        other => panic!("{other:?}"),
    }
}

#[test]
fn responses_are_not_cacheable_and_send_no_referrer() {
    let responses = [
        harden(index(Ok(fixture()), NOW)),
        harden(api_hosts(Ok(fixture()))),
        go_to("inst-aaa", "view", Ok(fixture())).0,
        go_to("nope", "view", Ok(fixture())).0,
    ];
    for r in &responses {
        assert_eq!(header(r, "cache-control"), Some("no-store"));
        assert_eq!(header(r, "referrer-policy"), Some("no-referrer"));
    }
}

#[test]
fn hardening_replaces_and_keeps() {
    let mut r = plain(404, "x");
    for (name, value) in [("cache-control", "public"), ("x", "1"), ("cache-control", "a")] {
        r.headers.push(Header {
            name: name.to_string(),
            value: value.to_string(),
        });
    }
    let r = harden(r);
    assert_eq!(r.status, 404);
    assert_eq!(r.body, Body::Text("x".to_string()));
    assert_eq!(header(&r, "cache-control"), Some("no-store"));
    assert_eq!(header(&r, "x"), Some("1"));
    assert_eq!(r.headers.len(), 3);
}

#[test]
fn index_escapes_hostile_strings() {
    let r = index(Ok(fixture()), NOW);
    assert!(!text(&r).contains("<script>alert(1)"));
    assert!(text(&r).contains("&lt;script&gt;alert(1)&lt;/script&gt;"));
}

#[test]
fn go_redirects_only_for_listed_instances() {
    let (r, asked) = go_to("inst-bbb", "view", Ok(fixture()));
    assert_eq!(r.status, 302);
    assert_eq!(header(&r, "location"), Some(SECRET));
    assert_eq!(r.body, Body::Nothing);
    assert_eq!(asked, Some(("inst-bbb".to_string(), omp::Access::View)));
    let (r, asked) = go_to("inst-aaa", "control", Ok(fixture()));
    assert_eq!(r.status, 302);
    assert_eq!(asked, Some(("inst-aaa".to_string(), omp::Access::Control)));
}

#[test]
fn go_rejects_unknown_ids_and_kinds_without_calling_link() {
    for (id, kind) in [("unknown", "view"), ("--help", "control"), ("inst-aaa", "admin")] {
        let (r, asked) = go_to(id, kind, Ok(fixture()));
        assert_eq!(r.status, 404, "{id} {kind}");
        assert_eq!(asked, None);
    }
    assert_eq!(text(&go_to("inst-aaa", "VIEW", Ok(fixture())).0), "unknown link kind");
    assert_eq!(
        text(&go_to("unknown", "view", Ok(fixture())).0),
        "no such live omp session"
    );
}

#[test]
fn links_that_are_no_web_address_are_refused() {
    for bad in ["javascript:x", "HTTPS://x", "", "//my.omp.sh", " https://x"] {
        let r = go_linked(Ok(bad.to_string()));
        assert_eq!(r.status, 502);
        assert_eq!(text(&r), "omp returned an unexpected link");
        assert!(r.headers.is_empty());
    }
    for bad in ["https://x\r\ny", "http://x\u{7f}", "https://x\0"] {
        let r = go_linked(Ok(bad.to_string()));
        assert_eq!(r.status, 502);
        assert_eq!(text(&r), "omp returned an unusable link");
        assert!(r.headers.is_empty());
    }
    for good in ["http://x", "https://x\ty", "https://x/\u{e9}"] {
        let r = go_linked(Ok(good.to_string()));
        assert_eq!(r.status, 302);
        assert_eq!(header(&r, "location"), Some(good));
    }
}

#[test]
fn link_failures_say_what_happened() {
    let r = go_linked(Err(kaboom("gone")));
    assert_eq!(r.status, 502);
    assert_eq!(text(&r), "could not get link: omp exited with 1: gone");
    let r = go_linked(Err(OmpError::Parse("unexpected link output".into())));
    assert_eq!(
        text(&r),
        "could not get link: could not parse omp output: unexpected link output"
    );
    assert_eq!(text(&go_linked(Err(OmpError::Timeout))), "omp timed out after 5s");
    assert_eq!(
        text(&go_linked(Err(OmpError::NotFound("x".into())))),
        "omp not found: x"
    );
    assert_eq!(
        text(&go_linked(Err(OmpError::Spawn("x".into())))),
        "failed to run omp: x"
    );
}

#[test]
fn stop_kills_the_pid_of_a_listed_instance() {
    assert_eq!(api_stop("inst-aaa", Ok(fixture())), Stop::Kill(4242));
    let r = api_stopped(Ok(()));
    assert_eq!(r.status, 202);
    assert_eq!(r.body, Body::Stopped);
}

#[test]
fn stop_rejects_unknown_instances_without_calling_stop() {
    match api_stop("unknown", Ok(fixture())) {
        Stop::Answer(r) => assert_eq!(r.status, 404),
        other => panic!("{other:?}"),
    }
}

#[test]
fn stop_502s_when_the_host_has_no_pid() {
    let mut hosts = fixture();
    hosts[0].pid = None;
    match api_stop("inst-aaa", Ok(hosts)) {
        Stop::Answer(r) => {
            assert_eq!(r.status, 502);
            assert!(text(&r).contains("pid"));
        }
        other => panic!("{other:?}"),
    }
}

#[test]
fn stop_failure_is_502_with_the_error() {
    let r = api_stopped(Err(OmpError::Exit {
        code: Some(4),
        stderr: "access denied".into(),
    }));
    assert_eq!(r.status, 502);
    assert!(text(&r).contains("access denied"));
}

#[test]
fn omp_failure_is_502_with_error_and_never_an_empty_list() {
    let r = index(Err(kaboom("kaboom <x>")), NOW);
    assert_eq!(r.status, 502);
    assert!(text(&r).contains("kaboom &lt;x&gt;"));
    assert!(!text(&r).contains("no live omp sessions"));
    let r = api_hosts(Err(kaboom("kaboom <x>")));
    assert_eq!(r.status, 502);
    assert!(text(&r).contains("kaboom"));
    let (r, _) = go_to("inst-aaa", "view", Err(kaboom("kaboom <x>")));
    assert_eq!(r.status, 502);
    match api_stop("inst-aaa", Err(kaboom("kaboom <x>"))) {
        Stop::Answer(r) => assert_eq!(r.status, 502),
        other => panic!("{other:?}"),
    }
}

#[test]
fn empty_list_is_ok_with_hint() {
    let r = index(Ok(Vec::new()), NOW);
    assert_eq!(r.status, 200);
    assert!(text(&r).contains("no live omp sessions"));
    let r = api_hosts(Ok(Vec::new()));
    assert_eq!(r.status, 200);
    assert_eq!(r.body, Body::Hosts(Vec::new()));
}

#[test]
fn start_runs_omp_in_a_scanned_checkout_with_a_candidate_model() {
    let (l, repos, path) = one_checkout();
    assert_eq!(
        api_start(&l, &repos, &path, Some("opus")),
        Start::Run {
            cwd: path,
            model: Some("opus".to_string())
        }
    );
    let r = api_started(Ok(()));
    assert_eq!(r.status, 202);
    assert_eq!(r.body, Body::Started);
}

#[test]
fn start_without_or_with_empty_model_passes_no_model() {
    let (l, repos, path) = one_checkout();
    for model in [None, Some("")] {
        assert_eq!(
            api_start(&l, &repos, &path, model),
            Start::Run {
                cwd: path.clone(),
                model: None
            }
        );
    }
}

#[test]
fn start_rejects_paths_the_scan_did_not_list() {
    let (l, repos, path) = one_checkout();
    for bad in [
        "/elsewhere".to_string(),
        "/t".to_string(),
        format!("{path}/.."),
        format!("{path} "),
        "--help".to_string(),
        String::new(),
    ] {
        match api_start(&l, &repos, &bad, None) {
            Start::Answer(r) => {
                assert_eq!(r.status, 404, "{bad:?}");
                assert_eq!(text(&r), "not a known checkout");
            }
            other => panic!("{other:?}"),
        }
    }
}

#[test]
fn start_rejects_models_that_are_not_candidates() {
    let (l, repos, path) = one_checkout();
    for bad in ["OPUS", "opus ", "--yolo", "opus;calc", "gpt"] {
        match api_start(&l, &repos, &path, Some(bad)) {
            Start::Answer(r) => {
                assert_eq!(r.status, 400, "{bad:?}");
                assert_eq!(text(&r), "not a configured model");
            }
            other => panic!("{other:?}"),
        }
    }
    // No candidates configured: any non-empty model is refused too.
    let bare = launcher(vec![PathBuf::from("/t")], &[]);
    match api_start(&bare, &repos, &path, Some("opus")) {
        Start::Answer(r) => assert_eq!(r.status, 400),
        other => panic!("{other:?}"),
    }
}

#[test]
fn start_failure_is_502_with_the_error() {
    let r = api_started(Err(OmpError::Exit {
        code: Some(3),
        stderr: "no console".into(),
    }));
    assert_eq!(r.status, 502);
    assert!(text(&r).contains("no console"));
}

#[test]
fn repos_and_models_endpoints() {
    let (l, repos, path) = one_checkout();
    match api_repos(&l, &repos).body {
        Body::Repos { repos, hint } => {
            assert_eq!(repos[0].name, "o/r");
            assert_eq!(repos[0].path, path);
            assert!(hint.is_none());
        }
        other => panic!("{other:?}"),
    }
    assert_eq!(
        api_models(&l).body,
        Body::Models(vec!["opus".to_string(), "gpt-5.2".to_string()])
    );
    // Unconfigured: empty picker with a hint, no models.
    let bare = launcher(Vec::new(), &[]);
    match api_repos(&bare, &Vec::new()).body {
        Body::Repos { repos, hint } => {
            assert!(repos.is_empty());
            assert!(hint.unwrap().contains("roots"));
        }
        other => panic!("{other:?}"),
    }
    assert_eq!(api_models(&bare).body, Body::Models(Vec::new()));
}
