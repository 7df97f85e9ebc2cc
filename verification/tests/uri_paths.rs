use rtok::uri::{kind_name, path_from_file_uri, percent_decode_path, percent_encode_path};

#[test]
fn path_from_file_uri_keeps_unix_root() {
    let p = path_from_file_uri("file:///tmp/a", false);
    assert_eq!(p, "/tmp/a");
}

/// On Windows the drive path `C:\Users\x` is the same path as `C:/Users/x`.
#[test]
fn path_from_file_uri_strips_slash_before_drive() {
    let p = path_from_file_uri("file:///C:/Users/x", true);
    assert_eq!(p, "C:/Users/x");
}

#[test]
fn file_uri_encodes_spaces() {
    let encoded = percent_encode_path("C:/Users/Ivan Tuhai/proj/a.rs");
    assert!(encoded.contains("%20"), "{encoded}");
    assert!(!encoded.contains(' '), "{encoded}");
    assert!(encoded.starts_with("C:"), "{encoded}");
    let uri = format!("file:///{encoded}");
    let round = path_from_file_uri(&uri, false);
    assert!(round.contains("Ivan Tuhai"), "{round:?}");
}

#[test]
fn path_from_file_uri_decodes_percent20() {
    let p = path_from_file_uri("file:///tmp/My%20Docs/a.rs", false);
    assert_eq!(p, "/tmp/My Docs/a.rs");
}

#[test]
fn unix_paths_keep_their_root_slash_even_with_a_drive_like_segment() {
    assert_eq!(path_from_file_uri("file:///C:/Users/x", false), "/C:/Users/x");
}

#[test]
fn encode_then_decode_gives_the_path_back() {
    for p in ["/tmp/a b/c%d.rs", "plain", "/ünï/cödé", ""] {
        assert_eq!(percent_decode_path(&percent_encode_path(p)), p);
    }
}

#[test]
fn encode_keeps_unreserved_and_separators() {
    assert_eq!(percent_encode_path("a-b_c.d~e/f"), "a-b_c.d~e/f");
    assert_eq!(percent_encode_path("C:/f:g"), "C:/f%3Ag");
    assert_eq!(percent_encode_path("a b"), "a%20b");
    assert_eq!(percent_encode_path("%"), "%25");
}

#[test]
fn invalid_utf8_after_decoding_reads_lossily() {
    assert_eq!(percent_decode_path("a%FFb"), "a\u{FFFD}b");
}

#[test]
fn symbol_kinds_have_names() {
    assert_eq!(kind_name(5), "class");
    assert_eq!(kind_name(12), "function");
}

#[test]
fn decoding_an_encoded_path_gives_it_back() {
    for s in ["C:/Users/Ivan Tuhai/proj/a.rs", "/home/é ü/x%y.rs", "ü:/a", "", "a//b/"] {
        let e = percent_encode_path(s);
        assert!(e.is_ascii(), "{e}");
        assert_eq!(percent_decode_path(&e), s);
    }
    assert_eq!(percent_encode_path("C:/Users/Ivan Tuhai/proj/a.rs"), "C:/Users/Ivan%20Tuhai/proj/a.rs");
}
