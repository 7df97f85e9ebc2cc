use rtok::index::scoped;
use rtok::outline::TagHit;

fn hit(kind: &str, name: &str, line: usize, end_line: usize, is_def: bool) -> TagHit {
    TagHit {
        kind: kind.to_string(),
        name: name.to_string(),
        line,
        end_line,
        is_def,
        line_text: String::new(),
    }
}

#[test]
fn references_carry_their_enclosing_definition() {
    // fn a() {\n    b();\n}\nfn b() {\n    c();\n}\nstatic S: u8 = top();\n
    let hits = vec![
        hit("function", "a", 1, 3, true),
        hit("call", "b", 2, 2, false),
        hit("function", "b", 4, 6, true),
        hit("call", "c", 5, 5, false),
        hit("call", "top", 7, 7, false),
    ];
    let rows = scoped(&hits);
    let scopes: Vec<&str> = rows.iter().map(|r| r.scope.as_str()).collect();
    assert_eq!(scopes, vec!["", "a", "", "b", ""]);
    assert_eq!((rows[3].name.as_str(), rows[3].line, rows[3].end_line), ("c", 5, 5));
}

#[test]
fn the_nested_definition_wins_over_the_one_around_it() {
    let hits = vec![
        hit("implementation", "Thing", 1, 20, true),
        hit("method", "run", 5, 9, true),
        hit("call", "go", 6, 6, false),
        hit("call", "top", 12, 12, false),
    ];
    let rows = scoped(&hits);
    assert_eq!(rows[2].scope, "run");
    assert_eq!(rows[3].scope, "Thing");
}

#[test]
fn a_tie_goes_to_the_first_definition() {
    let hits = vec![
        hit("function", "first", 1, 3, true),
        hit("function", "second", 1, 3, true),
        hit("call", "x", 2, 2, false),
        hit("function", "oneline", 8, 0, true),
        hit("call", "y", 8, 8, false),
    ];
    let rows = scoped(&hits);
    assert_eq!(rows[2].scope, "first");
    assert_eq!(rows[4].scope, "oneline", "an end before the start counts as the start line");
}
