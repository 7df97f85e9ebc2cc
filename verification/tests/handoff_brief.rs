use rtok::handoff::{
    brief_digest, brief_trailer, handoff_text, ledger, symbol_ranges, LedgerCall, Pointer, Touch, DISABLED,
    INSTRUCTIONS, NOTHING_YET,
};

fn call(tool: &str, path: &str, offset: Option<i64>, limit: Option<i64>, new_string: Option<&str>) -> LedgerCall {
    LedgerCall {
        tool: tool.into(),
        path: Some(path.into()),
        cwd: Some("/repo".into()),
        offset,
        limit,
        new_string: new_string.map(str::to_string),
    }
}

#[test]
fn the_ledger_keeps_each_path_once_with_where_each_call_landed() {
    let calls = vec![
        call("Read", "src/a.rs", Some(10), Some(5), None),
        call("Bash", "src/x.rs", None, None, None),
        call("Edit", "src/b.rs", None, None, Some("fn b() {}")),
        call("Read", "src/a.rs", None, None, None),
        call("Read", "src/a.rs", Some(-4), None, None),
        LedgerCall { tool: "Write".into(), path: None, cwd: None, offset: None, limit: None, new_string: None },
        call("Edit", "src/b.rs", None, None, Some("")),
    ];
    let t = ledger(&calls);
    assert_eq!(t.len(), 2);
    assert_eq!((t[0].path.as_str(), t[0].cwd.as_str()), ("src/a.rs", "/repo"));
    assert!(matches!(t[0].touches[..], [Touch::Lines(10, 14), Touch::Lines(1, 2000)]));
    assert_eq!(t[1].path, "src/b.rs");
    assert!(matches!(&t[1].touches[..], [Touch::Text(s)] if s == "fn b() {}"));
}

#[test]
fn touches_widen_to_the_innermost_definition_newest_three_once_each() {
    let defs = vec![
        ("outer".to_string(), 1, 50),
        ("inner".to_string(), 10, 20),
        ("other".to_string(), 30, 40),
        ("tail".to_string(), 45, 48),
    ];
    let text = "l1\nl2\nl3\nl4\nl5\nl6\nl7\nl8\nl9\nfn inner() {\n  x\n}\n";
    let touches = vec![
        Touch::Lines(12, 15),
        Touch::Lines(11, 11),
        Touch::Text("fn inner() {\n  x\n".into()),
        Touch::Lines(31, 32),
        Touch::Lines(2, 60),
        Touch::Text("missing".into()),
        Touch::Lines(5, 5),
        Touch::Lines(46, 46),
    ];
    let r = symbol_ranges(&defs, &touches, Some(text));
    assert_eq!(
        r,
        vec![(10, 20, "inner".to_string()), (30, 40, "other".to_string()), (1, 50, "outer".to_string())]
    );
}

#[test]
fn the_digest_puts_hinted_paths_first_and_ends_with_the_instructions() {
    let ps = vec![
        Pointer { path: "src/a.rs".into(), archive_id: None, ranges: vec![(3, 9, "f".into())] },
        Pointer { path: "src/b.rs".into(), archive_id: Some("id1".into()), ranges: vec![] },
    ];
    let d = brief_digest(&ps, "please fix src/b.rs", true);
    assert_eq!(d, format!("src/b.rs — rtok expand id1\nsrc/a.rs:3-9 f\n{INSTRUCTIONS}"));
    let plain = brief_digest(&ps, "", false);
    assert_eq!(plain, format!("src/a.rs\nsrc/b.rs — rtok expand id1\n{INSTRUCTIONS}"));
    assert_eq!(brief_trailer("z"), "\n[rtok z · expand: rtok expand z]");
    assert_eq!(handoff_text(false, Some("x".into())), DISABLED);
    assert_eq!(handoff_text(true, None), NOTHING_YET);
    assert_eq!(handoff_text(true, Some("x".into())), "x");
}
