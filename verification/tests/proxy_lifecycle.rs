use rtok::cli::{
    exit_code, health_reply_ok, register_edit, unregister_edit, unregister_report, BaseUrl,
    EnvObject, Unregister, NO_CHANGES,
};

#[test]
fn proxy_env_dry_run_then_apply_is_idempotent() {
    let url = "http://127.0.0.1:8790";
    let first = register_edit(&BaseUrl::Absent, url);
    assert!(first.report.contains("ANTHROPIC_BASE_URL"), "{}", first.report);
    assert!(first.report.contains("revert:"), "{}", first.report);
    assert!(first.report.contains("8790"), "{}", first.report);
    let again = register_edit(&first.base_url, url);
    assert_eq!(again.report, "no changes");
    assert_eq!(again.report, NO_CHANGES);
    match again.base_url {
        BaseUrl::Text(s) => assert!(s.contains("127.0.0.1:8790")),
        _ => panic!("the key holds the proxy's URL"),
    }
}

#[test]
fn registering_over_a_hand_set_url_says_how_to_restore_it() {
    let edit = register_edit(&BaseUrl::Text("https://mine.example".to_string()), "http://127.0.0.1:8790");
    assert_eq!(
        edit.report,
        "env.ANTHROPIC_BASE_URL: http://127.0.0.1:8790\nrevert: set env.ANTHROPIC_BASE_URL to https://mine.example"
    );
    let edit = register_edit(&BaseUrl::Other, "http://127.0.0.1:8790");
    assert_eq!(
        edit.report,
        "env.ANTHROPIC_BASE_URL: http://127.0.0.1:8790\nrevert: remove env.ANTHROPIC_BASE_URL"
    );
}

#[test]
fn only_the_proxy_url_is_taken_back() {
    let url = "http://127.0.0.1:8790";
    let ours = Some(EnvObject { base_url: BaseUrl::Text(url.to_string()), others: 0 });
    assert!(matches!(unregister_edit(&ours, url), Unregister::Remove { drop_env: true }));
    let shared = Some(EnvObject { base_url: BaseUrl::Text(url.to_string()), others: 2 });
    assert!(matches!(unregister_edit(&shared, url), Unregister::Remove { drop_env: false }));
    let theirs = Some(EnvObject { base_url: BaseUrl::Text("https://mine.example".to_string()), others: 0 });
    assert!(matches!(unregister_edit(&theirs, url), Unregister::NoChange));
    assert!(matches!(unregister_edit(&None, url), Unregister::NoChange));
    assert_eq!(unregister_report(), "- env.ANTHROPIC_BASE_URL");
}

#[test]
fn a_signal_death_exits_with_128_plus_its_number() {
    assert_eq!(exit_code(Some(3), None), 3);
    assert_eq!(exit_code(None, Some(9)), 137);
    assert_eq!(exit_code(None, None), 128);
}

#[test]
fn only_an_rtok_health_reply_counts() {
    assert!(health_reply_ok("HTTP/1.1 200 OK\r\n\r\n{\"ok\":true,\"recording\":true}"));
    assert!(!health_reply_ok("HTTP/1.1 200 OK\r\n\r\n{\"ok\":true}"));
    assert!(!health_reply_ok("HTTP/1.1 404 Not Found\r\n\r\n\"recording\""));
}
