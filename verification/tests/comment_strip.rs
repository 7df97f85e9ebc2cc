use rtok::comments::{drop_comments, mark_comments, SyntaxNode};

fn node(kind: &str, start: usize, end: usize, children: Vec<SyntaxNode>) -> SyntaxNode {
    SyntaxNode { kind: kind.to_string(), field: None, start, end, start_row: 0, end_row: 0, children }
}

#[test]
fn a_doc_comment_goes_and_its_line_stays() {
    let src = "/// gone\nfn keep() {}\n";
    let root = node(
        "source_file",
        0,
        src.len(),
        vec![node("line_comment", 0, 9, vec![node("doc_comment", 3, 8, vec![])]), node("function_item", 9, 21, vec![])],
    );
    let out = drop_comments(src, &root);
    assert_eq!(out, "\nfn keep() {}\n");
    assert_eq!(out.lines().count(), src.lines().count());
}

#[test]
fn a_block_comment_keeps_the_newlines_inside_it() {
    let src = "/* gone\n still gone */\nint keep(void) { return 1; }\n";
    let root = node("translation_unit", 0, src.len(), vec![node("comment", 0, 22, vec![])]);
    let out = drop_comments(src, &root);
    assert_eq!(out, "\n\nint keep(void) { return 1; }\n");
    assert!(!out.contains("gone"));
    assert_eq!(out.matches('\n').count(), src.matches('\n').count());
}

#[test]
fn spans_past_the_end_are_clipped() {
    let src = "x = 1  # gone";
    let root = node("module", 0, 99, vec![node("comment", 7, 99, vec![])]);
    assert_eq!(drop_comments(src, &root), "x = 1  ");
}

#[test]
fn a_file_without_comments_comes_back_whole() {
    let src = "def keep():\n    return 1\n";
    let root = node("module", 0, src.len(), vec![node("function_definition", 0, src.len(), vec![])]);
    assert_eq!(drop_comments(src, &root), src);
}

#[test]
fn marks_cover_comment_spans_only() {
    let root = node(
        "program",
        0,
        10,
        vec![node("comment", 1, 3, vec![]), node("call", 3, 10, vec![node("block_comment", 5, 7, vec![])])],
    );
    let mut drop = vec![false; 10];
    mark_comments(&root, &mut drop);
    let marked: Vec<usize> = (0..10).filter(|&i| drop[i]).collect();
    assert_eq!(marked, vec![1, 2, 5, 6]);
}

#[test]
fn a_cut_through_a_character_falls_back_to_the_source() {
    let src = "é// x";
    let root = node("program", 0, src.len(), vec![node("comment", 1, src.len(), vec![])]);
    assert_eq!(drop_comments(src, &root), src);
}
