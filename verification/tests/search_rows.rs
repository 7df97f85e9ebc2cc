use rtok::search::{compile, display_rel, hit_row, search_file, strip_prefix};

#[test]
fn a_file_hit_names_its_path_and_line() {
    let pattern = compile("fn main").unwrap();
    let mut hits = Vec::new();
    search_file(&mut hits, "src/main.rs", "use x;\n\nfn main() {\n}\n", &pattern, 100);
    assert_eq!(hits, vec!["src/main.rs:3: fn main() {"]);
}

#[test]
fn hits_stop_at_the_cap() {
    let pattern = compile("the").unwrap();
    let mut hits = Vec::new();
    let text = "the a\nthe b\nno\nthe c\nthe d\n";
    search_file(&mut hits, "a.txt", text, &pattern, 3);
    assert_eq!(hits.len(), 3);
    search_file(&mut hits, "b.txt", text, &pattern, 3);
    assert_eq!(hits, vec!["a.txt:1: the a", "a.txt:2: the b", "a.txt:4: the c"]);
}

#[test]
fn a_bad_pattern_is_refused_with_its_message() {
    let err = compile("foo(bar").err().unwrap();
    assert!(err.contains("unclosed"), "{err}");
}

#[test]
fn snippets_are_trimmed_and_cut_at_120_characters() {
    let long = format!("   {}   ", "é".repeat(130));
    let row = hit_row("x.rs", 7, &long);
    assert_eq!(row, format!("x.rs:7: {}", "é".repeat(120)));
    assert_eq!(hit_row("y.rs", 1, "\t let a = 1;  "), "y.rs:1: let a = 1;");
}

#[test]
fn hit_paths_are_shown_relative() {
    assert_eq!(display_rel("/tmp/w/nest/hit.rs", "/private/tmp/w", "/tmp/w", "/tmp/w/nest"), "nest/hit.rs");
    assert_eq!(display_rel("/elsewhere/nest/hit.rs", "/private/tmp/w", "/tmp/w", "/elsewhere/nest"), "hit.rs");
    assert_eq!(display_rel("/x/y.rs", "/a", "/b", "/c"), "/x/y.rs");
}

#[test]
fn strip_prefix_goes_by_components() {
    assert_eq!(strip_prefix("/repo/src/main.rs", "/repo").as_deref(), Some("src/main.rs"));
    assert_eq!(strip_prefix("/repo/src/main.rs", "/repo/").as_deref(), Some("src/main.rs"));
    assert_eq!(strip_prefix("/repository/a", "/repo"), None);
    assert_eq!(strip_prefix("/repo", "/repo").as_deref(), Some(""));
    assert_eq!(strip_prefix("src/a.rs", "/repo"), None);
}
