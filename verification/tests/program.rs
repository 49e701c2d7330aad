use omp_deck::cli::{cannot_bind, dashboard_url, message_line, needs_tailscale, Command};
use omp_deck::config::{Config, Source};
use omp_deck::update::{
    auto_update_disabled_by_env, auto_update_plan, release_to_report, Fetched, Plan,
};
use omp_deck::{now_ms, unix_ms};
use std::path::PathBuf;

#[test]
fn missing_explicit_file_is_an_error() {
    // The explicit file is loaded whether or not it is there.
    let nope = PathBuf::from("nope.toml");
    let default = PathBuf::from("config.toml");
    assert_eq!(
        Config::load_or_default(Some(&nope), Some(&default), true),
        Source::File(&nope)
    );
    assert_eq!(
        Config::load_or_default(Some(&nope), None, false),
        Source::File(&nope)
    );
}

#[test]
fn missing_default_file_means_defaults() {
    let default = PathBuf::from("config.toml");
    assert_eq!(
        Config::load_or_default(None, Some(&default), true),
        Source::File(&default)
    );
    assert_eq!(
        Config::load_or_default(None, Some(&default), false),
        Source::Defaults(Config::default())
    );
    assert_eq!(
        Config::load_or_default(None, None, true),
        Source::Defaults(Config::default())
    );
    assert!(Config::default().repos.roots.is_empty());
    assert!(Config::default().models.list.is_empty());
}

#[test]
fn update_check_is_disabled_by_a_real_value() {
    for on in [None, Some(""), Some("  "), Some("0"), Some(" 0\n"), Some("false"), Some("FaLSe")] {
        assert!(!auto_update_disabled_by_env(on), "{on:?}");
    }
    for off in ["1", "true", "00", "no", "falsee", "f\u{e4}lse"] {
        assert!(auto_update_disabled_by_env(Some(off)), "{off:?}");
    }
}

#[test]
fn update_plans() {
    assert_eq!(auto_update_plan(true, true, true), Plan::Skip);
    assert_eq!(auto_update_plan(false, true, false), Plan::Fetch);
    assert_eq!(auto_update_plan(false, true, true), Plan::Fetch);
    assert_eq!(auto_update_plan(false, false, true), Plan::ReportCached);
    assert_eq!(auto_update_plan(false, false, false), Plan::Skip);
}

#[test]
fn reported_release() {
    assert_eq!(release_to_report(Fetched::Newer("2.0"), Some("1.0")), Some("2.0"));
    assert_eq!(release_to_report(Fetched::UpToDate, Some("1.0")), None);
    assert_eq!(release_to_report(Fetched::Failed, Some("1.0")), Some("1.0"));
    assert_eq!(release_to_report::<&str>(Fetched::Failed, None), None);
}

#[test]
fn command_line_decisions() {
    assert!(Command::Serve.checks_for_updates());
    assert!(Command::List.checks_for_updates());
    assert!(!Command::SelfUpdate.checks_for_updates());
    assert!(needs_tailscale(None));
    assert!(!needs_tailscale(Some("127.0.0.1")));
}

#[test]
fn command_line_texts() {
    assert_eq!(message_line("boom"), "omp-deck: boom");
    assert_eq!(
        cannot_bind("127.0.0.1:80", "denied"),
        "cannot bind 127.0.0.1:80: denied"
    );
    assert_eq!(dashboard_url("127.0.0.1:80"), "http://127.0.0.1:80/");
}

#[test]
fn unix_time_is_clamped() {
    assert_eq!(unix_ms(None), 0);
    assert_eq!(unix_ms(Some(0)), 0);
    assert_eq!(unix_ms(Some(1_700_000_000_000)), 1_700_000_000_000);
    assert_eq!(unix_ms(Some(i64::MAX as u128)), i64::MAX);
    assert_eq!(unix_ms(Some(i64::MAX as u128 + 1)), i64::MAX);
}

#[test]
fn the_clock_is_read() {
    let a = now_ms();
    let b = now_ms();
    assert!(a > 1_600_000_000_000);
    assert!(b >= a - 60_000);
}
