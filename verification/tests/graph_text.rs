use rtok::graph::{
    ambiguous_banner, assemble_explore, body_lines, calls_line, canon, explore_answer,
    explore_tokens, format_table, impact_lines_text, is_test_path, mark_ambiguous_lines,
    reverse_call_chain, test_command, ExploreParts, Filter, Graph, GraphStatus,
};

struct FakeParts;

impl ExploreParts for FakeParts {
    fn resolve(&mut self, token: &str) -> Result<Vec<String>, String> {
        Ok(match token {
            "aa" => vec!["aa".to_string()],
            "bb" => vec!["bb".to_string()],
            _ => Vec::new(),
        })
    }
    fn defs(&mut self, name: &str) -> Result<String, String> {
        Ok(format!("src/{name}.rs:1 function\nfn {name}() {{}}\n"))
    }
    fn paths(&mut self, a: &str, b: &str) -> Result<Vec<String>, String> {
        if a == "aa" && b == "bb" {
            return Ok(vec!["aa → cc → bb".to_string()]);
        }
        Ok(Vec::new())
    }
    fn impact1(&mut self, name: &str) -> Result<(String, usize), String> {
        Ok((format!("nothing reaches {name}"), 0))
    }
    fn def_count(&mut self, _name: &str) -> Result<usize, String> {
        Ok(1)
    }
}

#[test]
fn assemble_explore_formats_sections_and_counts_replaced_bytes() {
    let mut parts = FakeParts;
    let (out, before) = assemble_explore("aa bb zz", &Filter::none(), &mut parts).unwrap();
    assert_eq!(
        out,
        "= aa\nsrc/aa.rs:1 function\nfn aa() {}\n\
         = bb\nsrc/bb.rs:1 function\nfn bb() {}\n\
         paths:\naa → cc → bb\n\
         impact:\naa ← 0\nbb ← 0\n"
    );
    let replaced: u64 = [
        "src/aa.rs:1 function\nfn aa() {}\n",
        "src/bb.rs:1 function\nfn bb() {}\n",
        "nothing reaches aa",
        "nothing reaches bb",
    ]
    .iter()
    .map(|s| s.len() as u64)
    .sum();
    assert_eq!(before, replaced);
}

#[test]
fn assemble_explore_prints_none_when_no_path_connects() {
    let (out, _) = assemble_explore("zz", &Filter::none(), &mut FakeParts).unwrap();
    assert_eq!(out, "no symbols resolved for \"zz\"");
    let (out, _) = assemble_explore("aa", &Filter::none(), &mut FakeParts).unwrap();
    assert!(out.contains("paths:\nnone\n"), "{out}");
    assert!(out.contains("impact:\naa ← 0\n"), "{out}");
}

#[test]
fn explore_tokens_split_query_and_dedupe() {
    assert_eq!(
        explore_tokens("how do Foo_bar and foo-bar relate?"),
        vec![
            "how".to_string(),
            "do".to_string(),
            "Foo_bar".to_string(),
            "and".to_string(),
            "foo".to_string(),
            "bar".to_string(),
            "relate".to_string()
        ]
    );
}

#[test]
fn explore_tokens_keep_unicode_letters_and_stop_at_eight() {
    assert_eq!(explore_tokens("héllo wörld"), vec!["héllo".to_string(), "wörld".to_string()]);
    let t = explore_tokens("a b c d e f g h i j a");
    assert_eq!(t.len(), 8);
    assert_eq!(t[7], "h");
}

#[test]
fn an_empty_answer_names_the_filter_scope() {
    let f = Filter { path: "src/x".to_string(), kind: "struct".to_string() };
    let (out, before) = assemble_explore("zz", &f, &mut FakeParts).unwrap();
    assert_eq!(out, "no symbols resolved for \"zz\" in src/x of kind struct");
    assert_eq!(before, 0);
}

#[test]
fn ambiguous_names_get_a_banner_and_a_mark() {
    let names = vec!["new".to_string()];
    let (out, _) = explore_answer(
        "new",
        "",
        &names,
        &vec![2],
        &vec!["a.rs:1 function\n".to_string()],
        &vec![("nothing reaches new".to_string(), 0)],
        &vec![vec![Vec::new()]],
    );
    assert_eq!(
        out,
        "1 names ambiguous (?): narrow with path or kind, or backend = \"lsp\"\n\
         = new\na.rs:1 function\npaths:\nnone\nimpact:\nnew ← 0 ?\n"
    );
}

#[test]
fn filters_pass_when_empty_and_narrow_when_set() {
    let none = Filter::none();
    assert!(none.path_ok("anything"));
    assert!(none.kind_ok("function"));
    assert_eq!(none.scope_note(), "");
    let f = Filter { path: "b.rs".to_string(), kind: "struct".to_string() };
    assert!(f.path_ok("src/b.rs"));
    assert!(!f.path_ok("src/a.rs"));
    assert!(f.kind_ok("struct"));
    assert!(!f.kind_ok("function"));
    assert_eq!(f.scope_note(), " in b.rs of kind struct");
}

#[test]
fn calls_line_lists_at_most_cap_names() {
    let names: Vec<String> = ["a", "b", "c"].iter().map(|s| s.to_string()).collect();
    assert_eq!(calls_line(&names, 2), "calls: a, b (+1)\n");
    assert_eq!(calls_line(&names, 5), "calls: a, b, c\n");
    assert_eq!(calls_line(&Vec::new(), 5), "");
}

#[test]
fn banners_and_marks() {
    assert_eq!(
        ambiguous_banner(3),
        "3 names ambiguous (?): narrow with path or kind, or backend = \"lsp\"\n"
    );
    assert_eq!(mark_ambiguous_lines("a\nb\n"), "a ?\nb ?\n");
    assert_eq!(mark_ambiguous_lines(""), "");
}

#[test]
fn body_lines_caps_at_the_budget() {
    let src = "l1\nl2\nl3\nl4\nl5\n";
    assert_eq!(body_lines(src, 2, 3, 10), "l2\nl3\n");
    assert_eq!(body_lines(src, 1, 5, 2), "l1\nl2\n  … 3 more lines\n");
    assert_eq!(body_lines(src, 0, 0, 10), "");
    assert_eq!(body_lines(src, 4, 2, 10), "l4\n");
}

#[test]
fn reverse_call_chain_flips_the_arrows() {
    assert_eq!(reverse_call_chain("a → b → c"), "c → b → a");
    assert_eq!(reverse_call_chain("solo"), "solo");
}

#[test]
fn impact_lines_mark_file_level_rows() {
    let rows = vec![(1u32, "a.rs".to_string(), "f".to_string()), (2, "b.rs".to_string(), String::new())];
    assert_eq!(impact_lines_text(&rows), "1  a.rs  f\n2  b.rs  (file)\n");
}

#[test]
fn test_paths_and_commands() {
    assert!(is_test_path("tests"));
    assert!(is_test_path("tests/a.rs"));
    assert!(is_test_path("crate/tests/a.rs"));
    assert!(is_test_path("src/test_util.py"));
    assert!(is_test_path("src/x_test.go"));
    assert!(!is_test_path("src/main.rs"));
    assert_eq!(test_command("src/a.rs", "it_works"), Some("cargo test it_works".to_string()));
    assert_eq!(test_command("t/a.py", "t1"), Some("pytest t/a.py::t1".to_string()));
    assert_eq!(test_command("a_test.go", "TestA"), Some("go test -run TestA".to_string()));
    assert_eq!(test_command("a.test.tsx", "x"), Some("vitest a.test.tsx".to_string()));
    assert_eq!(test_command("README", "x"), None);
}

#[test]
fn canon_uses_forward_slashes() {
    assert_eq!(canon(r"C:\repo\src"), "C:/repo/src");
    assert_eq!(canon("/repo/src"), "/repo/src");
}

#[test]
fn status_table_lists_pending_paths() {
    let s = GraphStatus {
        root: "/r".to_string(),
        rows: 10,
        files: 2,
        pending: vec!["a.rs".to_string()],
        watch: "off".to_string(),
        indexed_at: None,
    };
    assert_eq!(format_table(&s), "root /r\nrows 10\nfiles 2\npending 1\n  a.rs\nwatch off\nindexed_at -\n");
}

#[test]
fn graph_is_a_default_on_mcp_plugin() {
    assert_eq!(Graph.manifest().id, "graph");
    assert!(Graph.manifest().default_on);
}

#[test]
fn a_text_over_the_cap_keeps_whole_head_lines_and_names_the_archive() {
    let text = vec!["x".repeat(50); 10].join("\n");
    assert_eq!(rtok::graph::cap_text(&text, 200, 200, "id9"), text);
    let capped = rtok::graph::cap_text(&text, 100, 200, "id9");
    assert_eq!(capped, format!("{0}\n{0}\n8 more, expand id9", "x".repeat(50)));
    // However small the budget, the first line stays.
    assert_eq!(rtok::graph::cap_text("a\nbb\nccc\n", 1, 10, "id"), "a\n2 more, expand id");
}

#[test]
fn the_stale_banner_lists_five_pending_files_then_an_ellipsis() {
    let pending: Vec<String> = ["a", "b", "c", "d", "e", "f", "g"].iter().map(|s| s.to_string()).collect();
    assert_eq!(rtok::graph::stale_banner(&pending, false, false), "stale: 7 files pending (a, b, c, d, e, …)\n");
    assert_eq!(rtok::graph::stale_banner(&pending, true, false), "");
    assert_eq!(rtok::graph::stale_banner(&pending[..2].to_vec(), true, true), "stale: 2 files pending (a, b)\n");
    assert_eq!(rtok::graph::stale_banner(&Vec::new(), false, true), "");
}

#[test]
fn affected_tests_come_with_the_command_that_runs_them() {
    let hits = vec![
        ("tests/test_api.py".to_string(), "test_get".to_string()),
        ("web/app.test.ts".to_string(), "renders".to_string()),
        ("tests/data.txt".to_string(), "x".to_string()),
    ];
    assert_eq!(
        rtok::graph::format_affected(&hits),
        "tests/test_api.py ← via test_get\npytest tests/test_api.py::test_get\nweb/app.test.ts ← via renders\nvitest web/app.test.ts\ntests/data.txt ← via x\n"
    );
    assert_eq!(rtok::graph::format_affected(&Vec::new()), rtok::graph::EMPTY_AFFECTED);
}

struct ManyNames;

impl ExploreParts for ManyNames {
    fn resolve(&mut self, token: &str) -> Result<Vec<String>, String> {
        Ok((0..3).map(|i| format!("{token}_{i}")).collect())
    }
    fn defs(&mut self, name: &str) -> Result<String, String> {
        Ok(format!("src/{name}.rs:1 function\n"))
    }
    fn paths(&mut self, _a: &str, _b: &str) -> Result<Vec<String>, String> {
        Ok(Vec::new())
    }
    fn impact1(&mut self, _name: &str) -> Result<(String, usize), String> {
        Ok((String::new(), 0))
    }
    fn def_count(&mut self, _name: &str) -> Result<usize, String> {
        Ok(1)
    }
}

#[test]
fn explore_takes_at_most_ten_names() {
    let (out, _) = assemble_explore("t1 t2 t3 t4", &Filter::none(), &mut ManyNames).unwrap();
    assert_eq!(out.matches("= t").count(), 10);
    assert!(out.contains("= t4_0\n"));
    assert!(!out.contains("= t4_1\n"));
}
