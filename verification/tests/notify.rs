use omp_deck::model::{Access, Host, Model};
use omp_deck::notify::{
    baseline, is_taken, newly_titled, payload, Action, Event, Notified, Notifier,
    DISCORD_CONTENT_LIMIT, POLL_INTERVAL_SECS,
};
use omp_deck::omp::{self, OmpError};

fn fixture() -> Vec<Host> {
    vec![
        Host {
            instance_id: "inst-aaa".to_string(),
            generation: 1,
            pid: Some(4242),
            session_id: "sess-1".to_string(),
            session_name: None,
            cwd: "C:\\Users\\me\\src\\omp-deck".to_string(),
            model: Some(Model {
                provider: "anthropic".to_string(),
                id: "model-x".to_string(),
            }),
            started_at: Some(1_700_000_000_000),
            participants: 1,
            relay_connected: true,
            input_required: true,
            busy: false,
            access: Access::Control,
        },
        Host {
            instance_id: "inst-bbb".to_string(),
            generation: 2,
            pid: Some(4343),
            session_id: "sess-2".to_string(),
            session_name: Some("<script>alert(1)</script>".to_string()),
            cwd: "C:\\work\\<b>evil".to_string(),
            model: None,
            started_at: None,
            participants: 0,
            relay_connected: true,
            input_required: false,
            busy: true,
            access: Access::View,
        },
    ]
}

fn link_of(id: &str) -> Action {
    Action::Link {
        instance_id: id.to_string(),
        access: omp::Access::Control,
    }
}

fn refused() -> OmpError {
    OmpError::Exit {
        code: Some(1),
        stderr: "boom".to_string(),
    }
}

/// A poller that is about to list for its first pass, with nothing recorded.
fn first_pass() -> Notifier {
    let n = Notifier::new();
    let (n, _) = n.step(Event::Listed(Ok(Vec::new())));
    let (n, _) = n.step(Event::Woke);
    assert_eq!(n.action(), Action::List);
    n
}

#[test]
fn only_titled_untold_hosts_are_returned() {
    let hosts = fixture();
    let notified = Notified::new();
    let due = newly_titled(&hosts, &notified);
    assert_eq!(due.len(), 1);
    assert_eq!(due[0].instance_id, "inst-bbb");
}

#[test]
fn already_notified_hosts_are_skipped() {
    let hosts = fixture();
    let mut notified = Notified::new();
    notified.insert("inst-bbb".to_string());
    assert!(newly_titled(&hosts, &notified).is_empty());
}

#[test]
fn blank_title_does_not_count_as_titled() {
    let mut hosts = fixture();
    hosts[1].session_name = Some("   ".to_string());
    assert!(newly_titled(&hosts, &Notified::new()).is_empty());
}

#[test]
fn payload_carries_the_display_name_and_url() {
    let hosts = fixture();
    let p = payload(&hosts[1], "https://my.omp.sh/#secret");
    let content = p.content.as_str();
    assert!(content.contains("https://my.omp.sh/#secret"));
    assert!(content.contains(hosts[1].display_name()));
}

#[test]
fn payload_suppresses_all_mentions() {
    let hosts = fixture();
    let p = payload(&hosts[1], "https://my.omp.sh/#secret");
    assert_eq!(p.allowed_mentions.parse, Vec::<String>::new());
}

#[test]
fn payload_content_never_exceeds_the_discord_limit() {
    let mut hosts = fixture();
    hosts[1].session_name = Some("x".repeat(DISCORD_CONTENT_LIMIT * 2));
    let p = payload(&hosts[1], "https://my.omp.sh/#secret");
    let content = p.content.as_str();
    assert!(content.len() <= DISCORD_CONTENT_LIMIT);
}

#[test]
fn payload_text() {
    let mut hosts = fixture();
    hosts[1].session_name = Some(" fix @everyone ".to_string());
    let p = payload(&hosts[1], "https://my.omp.sh/#k");
    assert_eq!(
        p.content,
        "omp collab session started: **fix @everyone**\nhttps://my.omp.sh/#k"
    );
}

#[test]
fn payload_is_cut_by_characters() {
    let head = "omp collab session started: **";
    let url = "https://my.omp.sh/#k";
    let mut hosts = fixture();
    // 753 characters, though more than 2000 bytes: nothing is cut.
    hosts[1].session_name = Some("\u{3042}".repeat(700));
    let p = payload(&hosts[1], url);
    assert_eq!(
        p.content,
        format!("{head}{}**\n{url}", "\u{3042}".repeat(700))
    );
    assert_eq!(p.content.chars().count(), 753);
    // As long as it may be, and one character more.
    let most = DISCORD_CONTENT_LIMIT - head.len() - "**\n".len() - url.len();
    hosts[1].session_name = Some("\u{3042}".repeat(most));
    let p = payload(&hosts[1], url);
    assert_eq!(p.content.chars().count(), DISCORD_CONTENT_LIMIT);
    assert!(p.content.ends_with(url));
    hosts[1].session_name = Some("\u{3042}".repeat(most + 1));
    let p = payload(&hosts[1], url);
    assert_eq!(p.content.chars().count(), DISCORD_CONTENT_LIMIT);
    assert!(p.content.ends_with("https://my.omp.sh/#"));
    hosts[1].session_name = Some("\u{3042}".repeat(3000));
    let p = payload(&hosts[1], url);
    assert_eq!(
        p.content,
        format!("{head}{}", "\u{3042}".repeat(DISCORD_CONTENT_LIMIT - head.len()))
    );
}

#[test]
fn only_a_2xx_answer_is_taken() {
    for taken in [200, 204, 299] {
        assert!(is_taken(taken), "{taken}");
    }
    for failed in [0, 199, 300, 304, 404, 429, 500, 503] {
        assert!(!is_taken(failed), "{failed}");
    }
}

#[test]
fn a_session_listed_twice_is_announced_once() {
    let mut hosts = fixture();
    hosts[0].session_name = Some("other".to_string());
    let twice = vec![
        hosts[1].clone(),
        hosts[1].clone(),
        hosts[0].clone(),
        hosts[1].clone(),
    ];
    let n = first_pass();
    let (n, _) = n.step(Event::Listed(Ok(twice)));
    assert_eq!(n.action(), link_of("inst-bbb"));
    let (n, _) = n.step(Event::Linked(Ok("https://x".to_string())));
    let (n, _) = n.step(Event::Posted(Ok(())));
    assert_eq!(n.action(), link_of("inst-aaa"));
    let (n, _) = n.step(Event::Linked(Ok("https://y".to_string())));
    let (n, _) = n.step(Event::Posted(Ok(())));
    assert_eq!(n.action(), Action::Sleep(POLL_INTERVAL_SECS));
}

#[test]
fn baseline_marks_titled_hosts_without_posting() {
    let mut notified = Notified::new();
    baseline(&mut notified, &fixture());
    assert!(notified.contains("inst-bbb"));
    assert!(!notified.contains("inst-aaa"));

    let n = Notifier::new();
    assert_eq!(n.action(), Action::List);
    let (n, line) = n.step(Event::Listed(Ok(fixture())));
    assert_eq!(line, None);
    assert!(n.has_notified("inst-bbb"));
    assert!(!n.has_notified("inst-aaa"));
    assert_eq!(n.action(), Action::Sleep(POLL_INTERVAL_SECS));
}

#[test]
fn baseline_is_retried_until_it_succeeds() {
    let n = Notifier::new();
    let (n, line) = n.step(Event::Listed(Err(refused())));
    assert_eq!(
        line.as_deref(),
        Some("omp-deck: discord notify: could not list sessions: omp exited with 1: boom")
    );
    assert_eq!(n.action(), Action::Sleep(15));
    let (n, _) = n.step(Event::Woke);
    assert_eq!(n.action(), Action::List);
    let (n, _) = n.step(Event::Listed(Ok(fixture())));
    assert!(n.has_notified("inst-bbb"));
}

#[test]
fn failed_post_is_not_marked_notified_and_is_retried() {
    let n = first_pass();
    let (n, _) = n.step(Event::Listed(Ok(fixture())));
    assert_eq!(n.action(), link_of("inst-bbb"));
    let (n, _) = n.step(Event::Linked(Ok("https://my.omp.sh/#secret".to_string())));
    let (n, line) = n.step(Event::Posted(Err("429 Too Many Requests".to_string())));
    assert_eq!(
        line.as_deref(),
        Some("omp-deck: discord notify failed for inst-bbb: 429 Too Many Requests")
    );
    assert!(!n.has_notified("inst-bbb"));
    assert_eq!(n.action(), Action::Sleep(POLL_INTERVAL_SECS));
    let (n, _) = n.step(Event::Woke);
    let (n, _) = n.step(Event::Listed(Ok(fixture())));
    assert_eq!(n.action(), link_of("inst-bbb"));
}

#[test]
fn failed_link_goes_on_with_the_next_session() {
    let mut hosts = fixture();
    hosts[0].session_name = Some("first".to_string());
    let n = first_pass();
    let (n, _) = n.step(Event::Listed(Ok(hosts)));
    assert_eq!(n.action(), link_of("inst-aaa"));
    let (n, line) = n.step(Event::Linked(Err(OmpError::Timeout)));
    assert_eq!(
        line.as_deref(),
        Some("omp-deck: discord notify: could not get link for inst-aaa: omp timed out after 5s")
    );
    assert_eq!(n.action(), link_of("inst-bbb"));
    let (n, _) = n.step(Event::Linked(Ok("https://x".to_string())));
    let (n, _) = n.step(Event::Posted(Ok(())));
    assert!(!n.has_notified("inst-aaa"));
    assert!(n.has_notified("inst-bbb"));
    assert_eq!(n.action(), Action::Sleep(15));
}

#[test]
fn failed_list_ends_the_pass() {
    let n = first_pass();
    let (n, line) = n.step(Event::Listed(Err(OmpError::Timeout)));
    assert_eq!(
        line.as_deref(),
        Some("omp-deck: discord notify: could not list sessions: omp timed out after 5s")
    );
    assert_eq!(n.action(), Action::Sleep(15));
    let (n, _) = n.step(Event::Woke);
    assert_eq!(n.action(), Action::List);
}

/// The control link is in the body, exactly once per newly titled session.
#[test]
fn poll_once_posts_to_a_real_server_exactly_once_per_session() {
    let n = first_pass();
    let (n, _) = n.step(Event::Listed(Ok(fixture())));
    assert_eq!(n.action(), link_of("inst-bbb"));
    let (n, _) = n.step(Event::Linked(Ok("https://my.omp.sh/#secret".to_string())));
    match n.action() {
        Action::Post(p) => assert!(p.content.contains("https://my.omp.sh/#secret")),
        other => panic!("{other:?}"),
    }
    let (n, line) = n.step(Event::Posted(Ok(())));
    assert_eq!(line, None);
    assert!(n.has_notified("inst-bbb"));
    assert!(!n.has_notified("inst-aaa"));

    // Second pass over the same hosts must not re-notify.
    let (n, _) = n.step(Event::Woke);
    let (n, _) = n.step(Event::Listed(Ok(fixture())));
    assert_eq!(n.action(), Action::Sleep(POLL_INTERVAL_SECS));
}

#[test]
fn an_unexpected_event_changes_nothing() {
    let n = Notifier::new();
    let (n, line) = n.step(Event::Posted(Err("late".to_string())));
    assert_eq!(line, None);
    assert_eq!(n.action(), Action::List);
    let (n, _) = n.step(Event::Woke);
    assert_eq!(n.action(), Action::List);
}

#[test]
fn a_session_is_announced_when_it_gets_its_title() {
    let mut hosts = fixture();
    let n = Notifier::new();
    let (n, _) = n.step(Event::Listed(Ok(fixture())));
    let (n, _) = n.step(Event::Woke);
    let (n, _) = n.step(Event::Listed(Ok(fixture())));
    assert_eq!(n.action(), Action::Sleep(15));
    hosts[0].session_name = Some("named at last".to_string());
    let (n, _) = n.step(Event::Woke);
    let (n, _) = n.step(Event::Listed(Ok(hosts)));
    assert_eq!(n.action(), link_of("inst-aaa"));
}
