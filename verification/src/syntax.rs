//! Parsing a source file into the plain syntax tree the library reads, and the source
//! with its comments taken out.

use vstd::prelude::*;
use vstd::utf8::encode_utf8;

use crate::comments::{drop_comments, is_comment, spans_ok, spans_ok_all, strip_spec, SyntaxNode};
use crate::text::{str_eq, Chars};

verus! {

/// The grammars this build parses with.
#[derive(Clone, Copy, Debug, PartialEq, Eq, Structural)]
pub enum Grammar {
    Rust,
    TypeScript,
    Tsx,
    JavaScript,
    Python,
    Dart,
    C,
    Go,
}

#[verifier::external_type_specification]
#[verifier::external_body]
pub struct ExLanguage(tree_sitter::Language);

#[verifier::external_type_specification]
#[verifier::external_body]
pub struct ExNode<'a>(tree_sitter::Node<'a>);

/// The grammar that parses a file with this extension, for comment stripping.
pub open spec fn grammar_of_ext(ext: Chars) -> Option<Grammar> {
    if ext == "rs"@ {
        Some(Grammar::Rust)
    } else if ext == "ts"@ {
        Some(Grammar::TypeScript)
    } else if ext == "tsx"@ {
        Some(Grammar::Tsx)
    } else if ext == "js"@ || ext == "mjs"@ || ext == "cjs"@ {
        Some(Grammar::JavaScript)
    } else if ext == "py"@ {
        Some(Grammar::Python)
    } else if ext == "dart"@ {
        Some(Grammar::Dart)
    } else if ext == "c"@ || ext == "h"@ {
        Some(Grammar::C)
    } else if ext == "go"@ {
        Some(Grammar::Go)
    } else {
        None
    }
}

/// [`grammar_of_ext`].
pub fn grammar_for_extension(ext: &str) -> (r: Option<Grammar>)
    ensures
        r == grammar_of_ext(ext@),
{
    if str_eq(ext, "rs") {
        Some(Grammar::Rust)
    } else if str_eq(ext, "ts") {
        Some(Grammar::TypeScript)
    } else if str_eq(ext, "tsx") {
        Some(Grammar::Tsx)
    } else if str_eq(ext, "js") || str_eq(ext, "mjs") || str_eq(ext, "cjs") {
        Some(Grammar::JavaScript)
    } else if str_eq(ext, "py") {
        Some(Grammar::Python)
    } else if str_eq(ext, "dart") {
        Some(Grammar::Dart)
    } else if str_eq(ext, "c") || str_eq(ext, "h") {
        Some(Grammar::C)
    } else if str_eq(ext, "go") {
        Some(Grammar::Go)
    } else {
        None
    }
}

/// The language object of `tree_sitter_rust::LANGUAGE`, converted with `into`.
#[verifier::external_body]
fn rust_language() -> tree_sitter::Language {
    tree_sitter_rust::LANGUAGE.into()
}

/// The language object of `tree_sitter_typescript::LANGUAGE_TYPESCRIPT`, converted with `into`.
#[verifier::external_body]
fn typescript_language() -> tree_sitter::Language {
    tree_sitter_typescript::LANGUAGE_TYPESCRIPT.into()
}

/// The language object of `tree_sitter_typescript::LANGUAGE_TSX`, converted with `into`.
#[verifier::external_body]
fn tsx_language() -> tree_sitter::Language {
    tree_sitter_typescript::LANGUAGE_TSX.into()
}

/// The language object of `tree_sitter_javascript::LANGUAGE`, converted with `into`.
#[verifier::external_body]
fn javascript_language() -> tree_sitter::Language {
    tree_sitter_javascript::LANGUAGE.into()
}

/// The language object of `tree_sitter_python::LANGUAGE`, converted with `into`.
#[verifier::external_body]
fn python_language() -> tree_sitter::Language {
    tree_sitter_python::LANGUAGE.into()
}

/// The language object of `tree_sitter_dart::LANGUAGE`, converted with `into`.
#[verifier::external_body]
fn dart_language() -> tree_sitter::Language {
    tree_sitter_dart::LANGUAGE.into()
}

/// The language object of `tree_sitter_c::LANGUAGE`, converted with `into`.
#[verifier::external_body]
fn c_language() -> tree_sitter::Language {
    tree_sitter_c::LANGUAGE.into()
}

/// The language object of `tree_sitter_go::LANGUAGE`, converted with `into`.
#[verifier::external_body]
fn go_language() -> tree_sitter::Language {
    tree_sitter_go::LANGUAGE.into()
}

/// The tree-sitter language object of a grammar.
pub(crate) fn language(g: Grammar) -> tree_sitter::Language {
    match g {
        Grammar::Rust => rust_language(),
        Grammar::TypeScript => typescript_language(),
        Grammar::Tsx => tsx_language(),
        Grammar::JavaScript => javascript_language(),
        Grammar::Python => python_language(),
        Grammar::Dart => dart_language(),
        Grammar::C => c_language(),
        Grammar::Go => go_language(),
    }
}

/// The syntax tree tree-sitter parses `src` into with grammar `g`, if it parses (a
/// fresh parse, no earlier tree, no time limit).
pub uninterp spec fn syntax_tree(g: Grammar, src: Chars) -> Option<SyntaxNode>;

/// A tree-sitter node as a plain value: its kind, the field name it holds in its parent,
/// its byte span, its start and end rows, and its children in order.
#[verifier::external_body]
fn node_value(node: tree_sitter::Node<'_>, field: Option<&str>) -> SyntaxNode {
    let (mut children, mut c) = (Vec::new(), node.walk());
    let mut more = c.goto_first_child();
    while more {
        children.push(node_value(c.node(), c.field_name()));
        more = c.goto_next_sibling();
    }
    let (start, end) = (node.start_position(), node.end_position());
    SyntaxNode { kind: node.kind().to_string(), field: field.map(str::to_string),
        start: node.start_byte(), end: node.end_byte(), start_row: start.row, end_row: end.row,
        children }
}

/// `tree_sitter::Parser::parse` of `src` with grammar `g`, the root node taken as a plain
/// value; `None` where the language cannot be set or the parse gives no tree. The
/// result is named [`syntax_tree`]: a fresh parse depends on the grammar and the text
/// alone.
#[verifier::external_body]
pub(crate) fn parse_tree(g: Grammar, src: &str) -> (r: Option<SyntaxNode>)
    ensures
        r == syntax_tree(g, src@),
{
    let mut parser = tree_sitter::Parser::new();
    parser.set_language(&language(g)).ok()?;
    let tree = parser.parse(src, None)?;
    Some(node_value(tree.root_node(), None))
}

/// Whether every comment under `n` spans forwards once clipped to `len` bytes
/// ([`spans_ok`]).
pub fn spans_forward(n: &SyntaxNode, len: usize) -> (r: bool)
    ensures
        r == spans_ok(*n, len as int),
    decreases n, 0int,
{
    if crate::text::contains_lit(crate::text::chars_of(n.kind.as_str()).as_slice(), "comment") {
        let s = if n.start < len {
            n.start
        } else {
            len
        };
        let e = if n.end < len {
            n.end
        } else {
            len
        };
        s <= e
    } else {
        let mut k: usize = 0;
        while k < n.children.len()
            invariant
                k <= n.children@.len(),
                !is_comment(*n),
                spans_ok_all(n.children@.take(k as int), len as int),
            decreases n.children@.len() - k,
        {
            assert(n.children@.take(k + 1).drop_last() == n.children@.take(k as int));
            assert(n.children@.take(k + 1).last() == n.children@[k as int]);
            if !spans_forward(&n.children[k], len) {
                proof {
                    lemma_spans_ok_all_prefix(n.children@, len as int, k as int);
                }
                return false;
            }
            k += 1;
        }
        assert(n.children@.take(n.children@.len() as int) == n.children@);
        true
    }
}

proof fn lemma_spans_ok_all_prefix(cs: Seq<SyntaxNode>, len: int, k: int)
    requires
        0 <= k < cs.len(),
        !spans_ok(cs[k], len),
    ensures
        !spans_ok_all(cs, len),
    decreases cs.len(),
{
    if k < cs.len() - 1 {
        lemma_spans_ok_all_prefix(cs.drop_last(), len, k);
    }
}

/// What [`stripped`] gives: for a file whose extension has a grammar and whose source
/// parses to a tree with forward comment spans, the source with the comments dropped
/// ([`strip_spec`]); otherwise `None`.
pub open spec fn stripped_spec(path: Chars, src: Chars) -> Option<Chars> {
    match crate::path::extension(path) {
        None => None,
        Some(ext) => match grammar_of_ext(ext) {
            None => None,
            Some(g) => match syntax_tree(g, src) {
                None => None,
                Some(root) => if spans_ok(root, encode_utf8(src).len() as int) {
                    Some(strip_spec(src, root))
                } else {
                    None
                },
            },
        },
    }
}

/// The source with its comments removed and its newlines kept, so that line numbers
/// still match. `None` when there is no grammar for the file or the parse fails.
pub fn stripped(path: &str, src: &str) -> (r: Option<String>)
    ensures
        match r {
            Some(s) => stripped_spec(path@, src@) == Some(s@),
            None => stripped_spec(path@, src@) is None,
        },
{
    let ext = crate::path::extension_of(path)?;
    let g = grammar_for_extension(ext.as_str())?;
    let root = parse_tree(g, src)?;
    if !spans_forward(&root, src.as_bytes().len()) {
        return None;
    }
    Some(drop_comments(src, &root))
}

} // verus!
