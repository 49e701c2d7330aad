use omp_deck::model::{Access, Host, Model};
use omp_deck::view::{
    encode_segment, escape_html, relative_time, render_card, render_error, render_page,
    render_table, started_label, wrap, Status,
};

const NOW: i64 = 1_700_000_000_000 + 5 * 60_000;

fn fixture() -> Vec<Host> {
    vec![
        Host {
            instance_id: "inst-aaa".to_string(),
            generation: 1,
            pid: Some(4242),
            session_id: "sess-1".to_string(),
            session_name: None,
            cwd: "C:\\Users\\me\\src\\omp-deck".to_string(),
            model: Some(Model {
                provider: "anthropic".to_string(),
                id: "model-x".to_string(),
            }),
            started_at: Some(1_700_000_000_000),
            participants: 1,
            relay_connected: true,
            input_required: true,
            busy: false,
            access: Access::Control,
        },
        Host {
            instance_id: "inst-bbb".to_string(),
            generation: 2,
            pid: Some(4343),
            session_id: "sess-2".to_string(),
            session_name: Some("<script>alert(1)</script>".to_string()),
            cwd: "C:\\work\\<b>evil".to_string(),
            model: None,
            started_at: None,
            participants: 0,
            relay_connected: true,
            input_required: false,
            busy: true,
            access: Access::View,
        },
    ]
}

#[test]
fn relative_time_buckets() {
    assert_eq!(relative_time(1000, 1000), "just now");
    assert_eq!(relative_time(2000, 1000), "just now");
    assert_eq!(relative_time(0, 30_000), "30s ago");
    assert_eq!(relative_time(0, 5 * 60_000), "5m ago");
    assert_eq!(relative_time(0, 3 * 3_600_000), "3h ago");
    assert_eq!(relative_time(0, 2 * 86_400_000), "2d ago");
}

#[test]
fn escapes_special_characters() {
    assert_eq!(
        escape_html(r#"<a href="x">&'"#),
        "&lt;a href=&quot;x&quot;&gt;&amp;&#39;"
    );
}

#[test]
fn encodes_path_segments() {
    assert_eq!(encode_segment("a-b_c.d"), "a-b_c.d");
    assert_eq!(encode_segment("a/b c"), "a%2Fb%20c");
}

#[test]
fn page_escapes_attacker_influenceable_strings() {
    let html = render_page(&fixture(), NOW);
    assert!(!html.contains("<script>alert(1)"));
    assert!(!html.contains("<b>evil"));
    assert!(html.contains("&lt;script&gt;alert(1)&lt;/script&gt;"));
    assert!(html.contains("C:\\work\\&lt;b&gt;evil"));
}

#[test]
fn page_has_a_card_per_host_with_safe_links() {
    let html = render_page(&fixture(), NOW);
    assert_eq!(html.matches("<article").count(), 2);
    assert!(html.contains("href=\"/go/inst-aaa/view\""));
    assert!(html.contains("href=\"/go/inst-aaa/control\""));
    assert_eq!(html.matches("rel=\"noopener noreferrer\"").count(), 4);
    assert!(html.contains("input required"));
    assert!(html.contains("started 5m ago"));
    assert!(html.contains("anthropic/model-x"));
    assert!(!html.contains("my.omp.sh"));
}

#[test]
fn empty_state_is_not_an_error() {
    let html = render_page(&[], NOW);
    assert!(html.contains("no live omp sessions"));
    assert!(html.contains("omp config set collab.autoStart control"));
    assert!(!html.contains("class=\"error\""));
}

#[test]
fn error_page_escapes_message() {
    let html = render_error("spawn <omp> failed");
    assert!(html.contains("class=\"error\""));
    assert!(html.contains("spawn &lt;omp&gt; failed"));
    assert!(!html.contains("no live omp sessions"));
}

#[test]
fn status_priority() {
    let hosts = fixture();
    assert_eq!(Status::of(&hosts[0]), Status::InputRequired);
    assert_eq!(Status::of(&hosts[1]), Status::Busy);
    let mut h = hosts[1].clone();
    h.busy = false;
    assert_eq!(Status::of(&h), Status::Idle);
}

#[test]
fn table_lists_hosts() {
    let table = render_table(&fixture(), NOW);
    assert_eq!(table.lines().count(), 3);
    assert!(table.lines().next().unwrap().starts_with("NAME"));
    assert!(table.contains("omp-deck"));
    assert_eq!(render_table(&[], NOW), "no live omp sessions\n");
}

#[test]
fn relative_time_edges() {
    assert_eq!(relative_time(0, 999), "just now");
    assert_eq!(relative_time(0, 59_999), "59s ago");
    assert_eq!(relative_time(0, 60_000), "1m ago");
    assert_eq!(relative_time(0, 3_599_999), "59m ago");
    assert_eq!(relative_time(0, 86_399_999), "23h ago");
    assert_eq!(relative_time(0, 86_400_000), "1d ago");
    // An age that does not fit counts as the largest that does.
    assert_eq!(
        relative_time(i64::MIN, i64::MAX),
        relative_time(0, i64::MAX)
    );
    assert_eq!(relative_time(i64::MAX, i64::MIN), "just now");
}

#[test]
fn segments_encode_each_byte() {
    assert_eq!(encode_segment("%"), "%25");
    assert_eq!(encode_segment("\u{e9}~"), "%C3%A9~");
    assert_eq!(encode_segment("--help"), "--help");
    assert_eq!(encode_segment(""), "");
}

#[test]
fn escaping_keeps_texts_apart() {
    assert_ne!(escape_html("<"), escape_html("&lt;"));
    assert_eq!(escape_html("&lt;"), "&amp;lt;");
    assert_eq!(escape_html("plain \u{65e5}"), "plain \u{65e5}");
}

#[test]
fn started_label_without_a_time() {
    let hosts = fixture();
    assert_eq!(started_label(&hosts[0], NOW), "5m ago");
    assert_eq!(started_label(&hosts[1], NOW), "unknown");
}

#[test]
fn status_labels_and_classes() {
    assert_eq!(Status::InputRequired.label(), "input required");
    assert_eq!(Status::Busy.label(), "busy");
    assert_eq!(Status::Idle.label(), "idle");
    assert_ne!(Status::Busy.class(), Status::Idle.class());
}

#[test]
fn table_columns_line_up() {
    let table = render_table(&fixture(), NOW);
    let lines: Vec<Vec<char>> = table.lines().map(|l| l.chars().collect()).collect();
    let header: String = lines[0].iter().collect();
    let at = header.find("STATUS").unwrap();
    for line in &lines {
        assert_eq!(line[at - 1], ' ');
        assert_ne!(line[at], ' ');
    }
}

#[test]
fn session_text_adds_no_markup() {
    let mut hosts = fixture();
    let before = render_page(&hosts, NOW);
    hosts[1].session_name = Some("plain".into());
    hosts[1].cwd = "/plain".into();
    let after = render_page(&hosts, NOW);
    for c in ['<', '>', '"', '\''] {
        assert_eq!(before.matches(c).count(), after.matches(c).count());
    }
    assert_eq!(
        render_error("<").matches('<').count(),
        render_error("x").matches('<').count()
    );
}

#[test]
fn the_page_holds_each_card_in_order() {
    let hosts = fixture();
    let html = render_page(&hosts, NOW);
    let first = render_card(&hosts[0], NOW);
    let second = render_card(&hosts[1], NOW);
    assert!(html.contains(&format!("<main class=\"grid\">\n{first}{second}</main>\n")));
    assert!(html.starts_with("<!doctype html>"));
    assert!(html.ends_with("</html>\n"));
    // A body that looks like a marker is text like any other.
    assert_eq!(
        wrap("<!--BODY-->").len(),
        wrap("").len() + "<!--BODY-->".len()
    );
}
