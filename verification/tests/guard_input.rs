use rtok::guard::{cache_key, tool_input};

#[test]
fn camel_case_file_path_counts_as_file_path() {
    let i = tool_input(r#"{"filePath": "/r/a.rs"}"#);
    assert_eq!(i.file_path.as_deref(), Some("/r/a.rs"));
    assert_eq!(cache_key("Read", i.file_path.as_deref(), i.command.as_deref()), Some("read\t/r/a.rs".to_string()));
}

#[test]
fn file_path_wins_over_file_path_in_camel_case_and_path() {
    let i = tool_input(r#"{"file_path": "a", "filePath": "b", "path": "c"}"#);
    assert_eq!(i.file_path.as_deref(), Some("a"));
    let i = tool_input(r#"{"path": "c"}"#);
    assert_eq!(i.file_path.as_deref(), Some("c"));
    let i = tool_input(r#"{"file_path": 3, "path": "c"}"#);
    assert_eq!(i.file_path, None);
}

#[test]
fn command_and_skill_are_read_when_strings() {
    let i = tool_input(r#"{"command": "ls -la", "skill": "pdf"}"#);
    assert_eq!(i.command.as_deref(), Some("ls -la"));
    assert_eq!(i.skill.as_deref(), Some("pdf"));
    let i = tool_input(r#"{"command": ["ls"]}"#);
    assert_eq!(i.command, None);
}

#[test]
fn input_that_is_no_object_names_nothing() {
    for raw in ["", "not json", "[1,2]", "\"x\"", "null"] {
        let i = tool_input(raw);
        assert!(i.file_path.is_none() && i.command.is_none() && i.skill.is_none(), "{raw}");
    }
}

#[test]
fn the_archived_payload_prefers_text() {
    assert_eq!(rtok::guard::payload(r#""plain""#), "plain");
    assert_eq!(rtok::guard::payload(r#"{"content":"c","stdout":"out"}"#), "out");
    assert_eq!(rtok::guard::payload(r#"{"content":"c","stdout":7}"#), "c");
    assert_eq!(rtok::guard::payload(r#"{"x":1}"#), r#"{"x":1}"#);
    assert_eq!(rtok::guard::payload("[1,2]"), "[1,2]");
}
