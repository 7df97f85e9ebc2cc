use rtok::skill::{digests, host_keys, skill_outline, skill_reason, truncate};

fn body(sections: usize) -> String {
    let mut s = "---\nname: big\ndescription: many sections\n---\n".to_string();
    for i in 0..sections {
        s += &format!("## Section {i}\nFirst line of {i}.\n```sh\n# not a heading\n```\n");
    }
    s
}

#[test]
fn small_bodies_and_host_keys_pass() {
    assert!(!digests("# T\n\nthree\nlines\n", 8192));
    let keyed = format!("---\nallowed-tools: Bash\n---\n{}", body(300));
    assert!(keyed.len() > 8192);
    assert!(!digests(&keyed, 8192));
    assert!(!host_keys(&body(1)));
    assert!(host_keys("---\nmodel:  haiku\n---\n# x"));
}

#[test]
fn oversized_body_is_denied_with_map_and_pointer_under_budget() {
    let big = body(600) + &"x".repeat(200_000);
    assert!(digests(&big, 8192));
    let id = "0123456789abcdef0123456789abcdef0123456789abcdef0123456789abcdef";
    let reason = skill_reason("big", &big, 8192, id);
    assert!(reason.starts_with("rtok kept the map of skill big ("), "{reason}");
    assert!(reason.contains("## Section 0\n  First line of 0.\n"), "{reason}");
    assert!(!reason.contains("not a heading"), "{reason}");
    assert!(reason.len() <= 8192, "{}", reason.len());
    let got = reason.split("expand: rtok expand ").nth(1).and_then(|r| r.split(']').next()).unwrap();
    assert_eq!(got, id);
    assert!(reason.contains(&format!("[rtok {id} · {} lines ·", big.lines().count())), "{reason}");
}

#[test]
fn the_outline_keeps_headings_and_their_first_line_outside_fences() {
    let md = "# Title\n\nIntro line.\nSecond.\n```\n## fenced\n```\n## Next\n   \n  indented first  \n";
    assert_eq!(skill_outline(md), "# Title\n  Intro line.\n## Next\n  indented first\n");
}

#[test]
fn truncation_cuts_at_a_character_boundary() {
    assert_eq!(truncate("short", 10), "short");
    assert_eq!(truncate("abcdef", 3), "abc…\n");
    // `é` is two bytes: a cap inside it backs off to the boundary before it.
    assert_eq!(truncate("aébc", 2), "a…\n");
    assert_eq!(truncate("aébc", 3), "aé…\n");
}

#[test]
fn a_small_cap_bounds_the_whole_reason() {
    let big = "x".repeat(200);
    let reason = skill_reason("s", &big, 100, "abc");
    assert!(reason.len() <= 100, "{}", reason.len());
    assert!(reason.starts_with("rtok kept the map of skill s ("));
    let tiny = skill_reason("é", &big, 29, "abc");
    assert!(tiny.len() <= 29);
    assert_eq!(skill_reason("s", &big, 0, "abc"), "");
}
