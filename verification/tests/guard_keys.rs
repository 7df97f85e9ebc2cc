use rtok::guard::{
    cache_key, duplicate_denial, is_read_only, native_redirect, norm_cmd_exec, post_tool_action,
    Guard, PostAction,
};
use rtok::plugin::Surface;

fn read_only(c: &str) -> bool {
    is_read_only(c)
}

#[test]
fn read_only_flag_aware_stems() {
    assert!(read_only("sed -n '1,40p' file"));
    assert!(!read_only("sed -i 's/a/b/' file"));
    assert!(!read_only("find . -name x -delete"));
    assert!(!read_only("cat a > b"));
    assert!(!read_only("tail -f log"));
    assert!(read_only("cat a | grep b"));
    assert!(!read_only("ls | xargs rm"));
}

#[test]
fn bash_key_keeps_the_cd_target() {
    let k = |c: &str| cache_key("Bash", None, Some(c));
    assert_eq!(k("ls"), Some("bash\tls".to_string()));
    assert_eq!(k("cd a && ls"), Some("bash\tcd a && ls".to_string()));
    assert_eq!(k("cd b && ls"), Some("bash\tcd b && ls".to_string()));
    assert_eq!(k("cd a && cd b && ls"), Some("bash\tcd b && ls".to_string()));
    assert_eq!(k("cd a && cd a && ls"), Some("bash\tcd a && ls".to_string()));
    assert_eq!(k("cd 'a && b' && ls"), Some("bash\tcd 'a && b' && ls".to_string()));
    assert_eq!(k("cd   a   &&   ls"), k("cd a && ls"));
}

#[test]
fn wrapped_command_keys_like_the_plain_one() {
    assert_eq!(
        cache_key("Bash", None, Some("rtok run -- 'git status'")),
        cache_key("Bash", None, Some("git status"))
    );
    assert_eq!(norm_cmd_exec("rtok run -- 'echo '\"'\"'x'\"'\"''"), "echo 'x'");
    assert_eq!(norm_cmd_exec("rtok run -- 'echo ''x'''"), "echo 'x'");
}

#[test]
fn reads_key_by_trimmed_path_and_other_tools_have_none() {
    assert_eq!(cache_key("Read", Some("  src/a.rs "), None), Some("read\tsrc/a.rs".to_string()));
    assert_eq!(cache_key("Read", Some("   "), None), None);
    assert_eq!(cache_key("Read", None, None), None);
    assert_eq!(cache_key("Edit", Some("src/a.rs"), None), None);
    assert_eq!(cache_key("Bash", None, Some("cargo test")), None);
    assert_eq!(cache_key("Bash", None, None), None);
}

#[test]
fn git_and_cargo_subcommands_that_only_read() {
    assert!(read_only("git status"));
    assert!(read_only("git log --oneline"));
    assert!(!read_only("git commit -m x"));
    assert!(read_only("cargo metadata"));
    assert!(!read_only("cargo build"));
    assert!(read_only("/usr/bin/ls -la"));
    assert!(read_only("cd src && ls"));
    assert!(!read_only("ls | tee out"));
}

#[test]
fn duplicates_inside_the_window_are_denied_with_the_archive_id() {
    let d = duplicate_denial("abc123", 2, 5, Some(4000)).expect("deny");
    assert_eq!(d.reason, "duplicate; rtok expand abc123");
    assert_eq!(d.avoided, 4000);
    assert_eq!(d.est, 1000);
    assert_eq!(duplicate_denial("abc123", 0, 5, Some(3)).expect("deny").est, 1);
    assert!(duplicate_denial("abc123", 6, 5, Some(4000)).is_none());
    assert!(duplicate_denial("abc123", 1, 5, None).is_none());
    assert!(duplicate_denial("abc123", 1, 5, Some(0)).is_none());
}

#[test]
fn mutations_clear_the_keys_they_make_stale() {
    let clears = |tool: &str, path: Option<&str>, cmd: Option<&str>| match post_tool_action(tool, path, cmd) {
        PostAction::Clear(v) => Some(v),
        _ => None,
    };
    assert_eq!(clears("Bash", None, Some("rm x")), Some(vec!["bash".to_string(), "read".to_string()]));
    assert_eq!(
        clears("Edit", Some(" src/a.rs "), None),
        Some(vec!["bash".to_string(), "read\tsrc/a.rs".to_string()])
    );
    assert_eq!(clears("Write", None, None), Some(vec!["bash".to_string(), "read".to_string()]));
    assert!(matches!(post_tool_action("Grep", None, None), PostAction::Nothing));
    match post_tool_action("Bash", None, Some("ls")) {
        PostAction::Remember(k) => assert_eq!(k, "bash\tls"),
        _ => panic!("a read-only Bash is remembered"),
    }
}

#[test]
fn native_grep_glob_deny_is_opt_in_and_points_at_mcp() {
    assert_eq!(
        native_redirect("Grep", true, true),
        Some("native Grep is disabled here; use rtok search (MCP) instead".to_string())
    );
    assert_eq!(
        native_redirect("Glob", true, true),
        Some("native Glob is disabled here; use rtok tree (MCP) instead".to_string())
    );
    assert_eq!(native_redirect("Grep", false, true), None);
    assert_eq!(native_redirect("Grep", true, false), None);
    assert_eq!(native_redirect("Read", true, true), None);
}

#[test]
fn guard_is_a_default_on_hook_and_cli_plugin() {
    let m = Guard.manifest();
    assert_eq!(m.id, "guard");
    assert_eq!(m.surfaces, vec![Surface::Hook, Surface::Cli]);
    assert!(m.default_on);
    assert_eq!(Guard.dashboard_page().title, "Guard");
}
