use rtok::proxy::{join_upstream, JoinError};

#[test]
fn join_upstream_keeps_percent_encoded_path_verbatim() {
    assert_eq!(
        join_upstream("http://127.0.0.1/prefix", "/v1/models/a%20b%2Fc:generate", None).ok().expect("join"),
        "http://127.0.0.1/prefix/v1/models/a%20b%2Fc:generate"
    );
}

#[test]
fn join_upstream_avoids_doubled_slashes_and_queries() {
    assert_eq!(
        join_upstream("http://127.0.0.1", "/v1/messages", None).ok().expect("join"),
        "http://127.0.0.1/v1/messages"
    );
    assert_eq!(
        join_upstream("http://127.0.0.1/prefix", "/v1/messages", None).ok().expect("join"),
        "http://127.0.0.1/prefix/v1/messages"
    );
    assert_eq!(
        join_upstream("http://127.0.0.1/prefix?keep=1", "/v1/messages", Some("q=1")).ok().expect("join"),
        "http://127.0.0.1/prefix/v1/messages?q=1"
    );
}

#[test]
fn join_upstream_collapses_empty_segments() {
    assert_eq!(
        join_upstream("http://h/base//", "//v1///m/", None).ok().unwrap(),
        "http://h/base/v1/m"
    );
}

#[test]
fn join_upstream_refuses_what_is_no_base() {
    let e = join_upstream("", "/v1", None).err().unwrap();
    assert!(matches!(e, JoinError::Empty));
    assert_eq!(e.message(), "proxy.upstream is empty");
    let e = join_upstream("not a url", "/v1", None).err().unwrap();
    assert!(matches!(e, JoinError::Parse(_)));
    assert!(e.message().starts_with("proxy upstream URL: "));
    let e = join_upstream("mailto:a@b.c", "/v1", None).err().unwrap();
    assert!(matches!(e, JoinError::CannotBeABase));
    assert_eq!(e.message(), "proxy upstream URL cannot be a base");
}
