use rtok::walk::{is_excluded, override_globs};

fn strings(v: &[&str]) -> Vec<String> {
    v.iter().map(|s| s.to_string()).collect()
}

#[test]
fn whitelist_patterns_switch_on_whitelist_mode() {
    assert_eq!(override_globs(&[], &strings(&["target", "gen/"])), vec!["!target", "!gen/"]);
    assert_eq!(
        override_globs(&strings(&["src/", "lib.rs"]), &strings(&["src/gen"])),
        vec!["**", "!src/gen", "src/**", "lib.rs"]
    );
}

#[test]
fn an_exclude_names_the_path_or_a_directory_above_it() {
    let ex = strings(&["target/", "gen"]);
    assert!(is_excluded("/repo/target/debug/a.rs", "/repo", &ex));
    assert!(is_excluded("/repo/gen", "/repo", &ex));
    assert!(!is_excluded("/repo/generated/a.rs", "/repo", &ex), "a prefix of a name is not a directory");
    assert!(!is_excluded("/repo/src/a.rs", "/repo", &ex));
    assert!(is_excluded("gen/x.rs", "/elsewhere", &ex), "a path outside the root is matched whole");
    assert!(is_excluded("/repo/gen\\x.rs", "/repo", &ex), "backslashes count as separators");
}
