use rtok::proxy::{hop_by_hop, session_for, upstream_url};

#[test]
fn the_session_comes_from_the_first_nonempty_source() {
    assert_eq!(session_for(Some("wire"), Some("meta"), Some("h1"), Some("h2"), b"x"), "wire");
    assert_eq!(session_for(Some(""), Some("meta"), Some("h1"), None, b"x"), "meta");
    assert_eq!(session_for(None, Some(""), Some("h1"), Some("h2"), b"x"), "h1");
    assert_eq!(session_for(None, None, None, Some("h2"), b"x"), "h2");
    // Nothing names one: the body's SHA-256.
    assert_eq!(
        session_for(None, None, Some(""), None, b"abc"),
        "ba7816bf8f01cfea414140de5dae2223b00361a396177a9cb410ff61f20015ad"
    );
}

#[test]
fn the_upstream_url_joins_base_path_and_query() {
    assert_eq!(upstream_url("https://api.example.com", "/v1/messages", None).ok().unwrap(), "https://api.example.com/v1/messages");
    assert_eq!(upstream_url("http://h", "/p", Some("a=1&b=2")).ok().unwrap(), "http://h/p?a=1&b=2");
    let err = upstream_url("", "/p", None).err().unwrap();
    assert_eq!(err.message(), "proxy.upstream is empty");
}

#[test]
fn hop_by_hop_headers_stay_behind_in_any_case() {
    for h in ["Connection", "keep-alive", "TE", "Transfer-Encoding", "content-length", "Host", "Proxy-Authorization"] {
        assert!(hop_by_hop(h), "{h}");
    }
    for h in ["content-type", "authorization", "x-api-key", "hosts"] {
        assert!(!hop_by_hop(h), "{h}");
    }
}

#[test]
fn openai_wires_go_to_the_openai_upstream() {
    let (a, o) = ("https://api.anthropic.com", "https://api.openai.com");
    assert_eq!(rtok::proxy::upstream_for(Some("openai"), a, o), o);
    assert_eq!(rtok::proxy::upstream_for(Some("anthropic"), a, o), a);
    assert_eq!(rtok::proxy::upstream_for(Some("gemini"), a, o), a);
    assert_eq!(rtok::proxy::upstream_for(None, a, o), a);
    assert_eq!(rtok::proxy::upstream_base("http://127.0.0.1:8788//"), "http://127.0.0.1:8788");
    assert_eq!(rtok::proxy::upstream_base("https://api.anthropic.com"), "https://api.anthropic.com");
}

#[test]
fn unowned_openai_paths_are_booked_under_openai() {
    assert_eq!(rtok::proxy::call_provider(Some("gemini"), "/x").as_deref(), Some("gemini"));
    assert_eq!(rtok::proxy::call_provider(None, "/v1/responses").as_deref(), Some("openai"));
    assert_eq!(rtok::proxy::call_provider(None, "/v1/chat/completions").as_deref(), Some("openai"));
    assert_eq!(rtok::proxy::call_provider(None, "/v1/models"), None);
}
