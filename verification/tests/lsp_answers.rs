use rtok::lsp::{frame_header, header_line, parse_usize, HeaderLine};
use rtok::graph::Filter;
use rtok::lsp::{
    callers_text, enclosing, flatten, group_references, pick_server, DocSymbol, RefSite, SymRange,
};

fn sym(name: &str, kind: u64, (sl, sc, el, ec): (u64, u64, u64, u64), children: Vec<DocSymbol>) -> DocSymbol {
    DocSymbol {
        name: Some(name.to_string()),
        kind,
        range: SymRange { start_line: sl, start_char: sc, end_line: el, end_char: ec },
        children,
    }
}

fn file() -> Vec<DocSymbol> {
    vec![
        sym("Thing", 23, (0, 0, 2, 1), vec![]),
        sym("impl Thing", 19, (4, 0, 12, 1), vec![
            sym("new", 6, (5, 4, 7, 5), vec![]),
            sym("run", 6, (8, 4, 11, 5), vec![]),
        ]),
        sym("main", 12, (14, 0, 16, 1), vec![]),
    ]
}

#[test]
fn the_innermost_symbol_names_the_scope() {
    assert_eq!(enclosing(&file(), 9, 8), "run");
    assert_eq!(enclosing(&file(), 4, 3), "impl Thing");
    assert_eq!(enclosing(&file(), 13, 0), "");
    assert_eq!(enclosing(&file(), 16, 1), "main", "the end position is inside");
    assert_eq!(enclosing(&file(), 16, 2), "");
}

#[test]
fn the_outline_lists_parents_before_children() {
    let mut out = String::new();
    flatten(&file(), &mut out);
    assert_eq!(out, "struct Thing 1\nsymbol impl Thing 5\nfn new 6\nfn run 9\nfn main 15\n");
}

#[test]
fn dart_pubspec_root_picks_dart_language_server() {
    let (bin, args) = pick_server(false, false, false, true).unwrap();
    assert_eq!((bin.as_str(), args), ("dart", vec!["language-server".to_string()]));
    let (bin, args) = pick_server(true, false, true, true).unwrap();
    assert_eq!((bin.as_str(), args.len()), ("rust-analyzer", 0));
    let (bin, args) = pick_server(false, false, true, false).unwrap();
    assert_eq!((bin.as_str(), args), ("typescript-language-server", vec!["--stdio".to_string()]));
    assert!(pick_server(false, false, false, false).is_none());
}

#[test]
fn callers_group_by_file_and_symbol_in_order() {
    let site = |path: &str, scope: &str, line: i32| RefSite { path: path.to_string(), scope: scope.to_string(), line };
    let refs = vec![
        site("src/b.rs", "run", 30),
        site("src/a.rs", "", 4),
        site("src/b.rs", "run", 12),
        site("src/b.rs", "main", 50),
        site("src/a.rs", "", 2),
    ];
    let groups = group_references(&refs);
    let all = Filter { path: String::new(), kind: String::new() };
    assert_eq!(
        callers_text(&groups, "go", &all),
        "src/a.rs ×2 (L2)\nsrc/b.rs  main ×1 (L50)\nsrc/b.rs  run ×2 (L12)\n"
    );
    let only_a = Filter { path: "a.rs".to_string(), kind: String::new() };
    assert_eq!(callers_text(&groups, "go", &only_a), "src/a.rs ×2 (L2)\n");
    let none = Filter { path: "zzz".to_string(), kind: String::new() };
    assert_eq!(callers_text(&groups, "go", &none), "no references to go in zzz");
    assert_eq!(callers_text(&group_references(&[]), "go", &all), "no references to go");
}

#[test]
fn headers_frame_a_message() {
    assert_eq!(frame_header(42), "Content-Length: 42\r\n\r\n");
    assert!(matches!(header_line("Content-Length: 17\r\n"), HeaderLine::Length(Some(17))));
    assert!(matches!(header_line("content-LENGTH:17\n"), HeaderLine::Length(Some(17))));
    assert!(matches!(header_line("Content-Length: x\r\n"), HeaderLine::Length(None)));
    assert!(matches!(header_line("Content-Type: application/vscode-jsonrpc\r\n"), HeaderLine::Other));
    assert!(matches!(header_line("\r\n"), HeaderLine::End));
    assert!(matches!(header_line("\n"), HeaderLine::End));
    assert!(matches!(header_line("garbage\r\n"), HeaderLine::Other));
    assert_eq!(parse_usize("+7"), Some(7));
    assert_eq!(parse_usize("007"), Some(7));
    assert_eq!(parse_usize(""), None);
    assert_eq!(parse_usize("+"), None);
    assert_eq!(parse_usize("-1"), None);
    assert_eq!(parse_usize("18446744073709551615"), Some(usize::MAX));
    assert_eq!(parse_usize("18446744073709551616"), None);
}

#[test]
fn the_impact_walk_names_each_caller_once() {
    let mut seen = vec!["target".to_string()];
    let mut out = String::new();
    let calls = vec![
        ("a".to_string(), "src/a.rs".to_string()),
        ("target".to_string(), "src/t.rs".to_string()),
        ("a".to_string(), "src/a.rs".to_string()),
        ("".to_string(), "src/main.rs".to_string()),
        ("b".to_string(), "tests/b.rs".to_string()),
    ];
    let only_src = Filter { path: "src/".to_string(), kind: String::new() };
    let next = rtok::lsp::impact_visit(&mut seen, &mut out, &calls, 1, &only_src);
    assert_eq!(out, "1  src/a.rs  a\n1  src/main.rs  (file)\n");
    assert_eq!(next, vec![0, 3]);
    assert_eq!(seen, vec!["target", "a", "", "b"], "a filtered caller still counts as seen");
    assert_eq!((rtok::lsp::impact_depth(0), rtok::lsp::impact_depth(3), rtok::lsp::impact_depth(9)), (1, 3, 4));
}
