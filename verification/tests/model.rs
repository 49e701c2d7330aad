use omp_deck::model::{last_component, Access, Host, Model};

fn fixture() -> Vec<Host> {
    vec![
        Host {
            instance_id: "inst-aaa".to_string(),
            generation: 1,
            pid: Some(4242),
            session_id: "sess-1".to_string(),
            session_name: None,
            cwd: "C:\\Users\\me\\src\\omp-deck".to_string(),
            model: Some(Model {
                provider: "anthropic".to_string(),
                id: "model-x".to_string(),
            }),
            started_at: Some(1_700_000_000_000),
            participants: 1,
            relay_connected: true,
            input_required: true,
            busy: false,
            access: Access::Control,
        },
        Host {
            instance_id: "inst-bbb".to_string(),
            generation: 2,
            pid: Some(4343),
            session_id: "sess-2".to_string(),
            session_name: Some("<script>alert(1)</script>".to_string()),
            cwd: "C:\\work\\<b>evil".to_string(),
            model: None,
            started_at: None,
            participants: 0,
            relay_connected: true,
            input_required: false,
            busy: true,
            access: Access::View,
        },
    ]
}

#[test]
fn null_session_name_falls_back_to_windows_cwd_leaf() {
    let hosts = fixture();
    assert_eq!(hosts[0].display_name(), "omp-deck");
}

#[test]
fn display_name_prefers_session_name_and_handles_edges() {
    let mut h = fixture().remove(1);
    assert_eq!(h.display_name(), "<script>alert(1)</script>");
    h.session_name = Some("  ".into());
    assert_eq!(h.display_name(), "<b>evil");
    h.cwd = "/home/me/proj/".into();
    assert_eq!(h.display_name(), "proj");
    h.cwd = String::new();
    assert_eq!(h.display_name(), "inst-bbb");
}

#[test]
fn model_label_joins_provider_and_id() {
    let hosts = fixture();
    assert_eq!(
        hosts[0].model_label().as_deref(),
        Some("anthropic/model-x")
    );
}

#[test]
fn display_name_trims_the_title() {
    let mut h = fixture().remove(0);
    h.session_name = Some("\u{3000} fix the build\t\n".into());
    assert_eq!(h.display_name(), "fix the build");
    assert!(h.is_titled());
    h.session_name = Some("\u{a0}\u{2003}".into());
    assert_eq!(h.display_name(), "omp-deck");
    assert!(!h.is_titled());
}

#[test]
fn model_label_skips_what_is_empty() {
    let mut h = fixture().remove(0);
    h.model = Some(Model {
        provider: String::new(),
        id: "model-x".into(),
    });
    assert_eq!(h.model_label().as_deref(), Some("model-x"));
    h.model = Some(Model {
        provider: "anthropic".into(),
        id: String::new(),
    });
    assert_eq!(h.model_label().as_deref(), Some("anthropic"));
    h.model = Some(Model::default());
    assert_eq!(h.model_label(), None);
    h.model = None;
    assert_eq!(h.model_label(), None);
}

#[test]
fn last_component_ignores_trailing_separators() {
    assert_eq!(last_component("/a/b"), "b");
    assert_eq!(last_component("/a/b//"), "b");
    assert_eq!(last_component("C:\\a\\b\\/"), "b");
    assert_eq!(last_component("plain"), "plain");
    assert_eq!(last_component("///"), "");
    assert_eq!(last_component(""), "");
}

#[test]
fn access_defaults_to_control_and_hosts_clone() {
    assert_eq!(Access::default(), Access::Control);
    let hosts = fixture();
    assert_eq!(hosts[0].clone(), hosts[0]);
    assert_eq!(hosts[1].clone(), hosts[1]);
}
