use rtok::dead::{dead_text, rust_impls};

const SRC: &str = "struct S;\nimpl Tr for S {\n    fn m(&self) {}\n}\nfn helper() {}\npub fn api() {}\n#[test]\nfn t() {}\ntrait Tr {\n    fn m(&self);\n}\n";

fn cand(path: &str, name: &str, kind: &str, line: i64) -> (String, String, String, i64) {
    (path.to_string(), name.to_string(), kind.to_string(), line)
}

#[test]
fn impl_blocks_and_targets_are_found() {
    let (ranges, types) = rust_impls(SRC);
    assert_eq!(ranges, vec![(2, 4), (9, 11)]);
    assert_eq!(types, vec!["S".to_string()]);
    let (_, generic) = rust_impls("impl<T> Foo<T> {}\nimpl Bar {}\n");
    assert_eq!(generic, vec!["Foo".to_string(), "Bar".to_string()]);
}

#[test]
fn dead_lists_only_unused_private_definitions() {
    let files = vec![("src/a.rs".to_string(), SRC.lines().map(str::to_string).collect::<Vec<_>>())];
    let cands = vec![
        cand("src/a.rs", "S", "struct", 1),
        cand("src/a.rs", "m", "method", 3),
        cand("src/a.rs", "helper", "function", 5),
        cand("src/a.rs", "api", "function", 6),
        cand("src/a.rs", "t", "function", 8),
        cand("src/a.rs", "main", "function", 1),
        cand("tests/x.rs", "f", "function", 1),
        cand("src/a.rs", "mac", "macro", 1),
        cand("src/b.py", "g", "function", 1),
    ];
    assert_eq!(dead_text(&cands, &files, "/r"), "src/a.rs:5 function helper\nsrc/b.py:1 function g\n");
}

#[test]
fn no_candidates_means_no_dead_code() {
    assert_eq!(dead_text(&Vec::new(), &Vec::new(), "/r"), "no dead code in /r");
    let files = vec![("a.rs".to_string(), vec!["pub fn x() {}".to_string()])];
    assert_eq!(dead_text(&vec![cand("a.rs", "x", "function", 1)], &files, "/r"), "no dead code in /r");
}
