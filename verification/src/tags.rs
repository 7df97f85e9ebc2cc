//! Definitions and references of a source file from its grammar's tags query: the
//! tags tree-sitter-tags reports, turned into hits with their names, lines and the
//! text of their first line.

use vstd::prelude::*;
use vstd::utf8::{decode_utf8, encode_utf8, valid_utf8};

use crate::comments::{newlines, utf8_text};
use crate::outline::{grammar_for, import_last_segment, import_segment, TagHit};
use crate::syntax::{language, Grammar};
use crate::text::{copy_str, str_eq, Chars};

verus! {

#[verifier::external_type_specification]
#[verifier::external_body]
pub struct ExTagsConfiguration(tree_sitter_tags::TagsConfiguration);

/// Rust call and `use` references the stock query leaves out.
pub const RUST_EXTRA: &'static str = "
(call_expression
    function: (scoped_identifier
        name: (identifier) @name)) @reference.call
(use_declaration argument: (identifier) @name) @reference.import
(use_declaration argument: (scoped_identifier name: (identifier) @name)) @reference.import
(use_declaration argument: (use_as_clause path: (identifier) @name)) @reference.import
(use_declaration argument: (use_as_clause path: (scoped_identifier name: (identifier) @name))) @reference.import
(use_list (identifier) @name) @reference.import
(use_list (scoped_identifier name: (identifier) @name)) @reference.import
(use_list (use_as_clause path: (identifier) @name)) @reference.import
(use_list (use_as_clause path: (scoped_identifier name: (identifier) @name))) @reference.import
(use_wildcard (identifier) @name) @reference.import
(use_wildcard (scoped_identifier name: (identifier) @name)) @reference.import
";

/// JavaScript and TypeScript imports and `require` calls.
pub const JS_IMPORT: &'static str = "
(import_statement source: (string) @name) @reference.import
(import_specifier name: (identifier) @name) @reference.import
(call_expression
    function: (identifier) @doc
    arguments: (arguments (string) @name)
    (#eq? @doc \"require\")) @reference.import
";

/// Python imports.
pub const PYTHON_IMPORT: &'static str = "
(import_statement name: (dotted_name) @name) @reference.import
(import_statement name: (aliased_import name: (dotted_name) @name)) @reference.import
(import_from_statement name: (dotted_name) @name) @reference.import
(import_from_statement name: (aliased_import name: (dotted_name) @name)) @reference.import
(import_from_statement module_name: (dotted_name) @name) @reference.import
";

/// Go imports.
pub const GO_IMPORT: &'static str = "
(import_spec path: (interpreted_string_literal) @name) @reference.import
(import_spec path: (raw_string_literal) @name) @reference.import
";

/// Dart imports.
pub const DART_IMPORT: &'static str = "
(import_specification uri: [(configurable_uri) (uri)] @name) @reference.import
";

/// The grammar a tags grammar name selects.
pub open spec fn grammar_named(name: Chars) -> Option<Grammar> {
    if name == "rs"@ || name == "rust"@ {
        Some(Grammar::Rust)
    } else if name == "ts"@ {
        Some(Grammar::TypeScript)
    } else if name == "tsx"@ {
        Some(Grammar::Tsx)
    } else if name == "js"@ || name == "mjs"@ || name == "cjs"@ {
        Some(Grammar::JavaScript)
    } else if name == "py"@ {
        Some(Grammar::Python)
    } else if name == "dart"@ {
        Some(Grammar::Dart)
    } else if name == "c"@ || name == "h"@ {
        Some(Grammar::C)
    } else if name == "go"@ {
        Some(Grammar::Go)
    } else {
        None
    }
}

/// [`grammar_named`].
pub fn grammar_by_name(name: &str) -> (r: Option<Grammar>)
    ensures
        r == grammar_named(name@),
{
    if str_eq(name, "rs") || str_eq(name, "rust") {
        Some(Grammar::Rust)
    } else if str_eq(name, "ts") {
        Some(Grammar::TypeScript)
    } else if str_eq(name, "tsx") {
        Some(Grammar::Tsx)
    } else if str_eq(name, "js") || str_eq(name, "mjs") || str_eq(name, "cjs") {
        Some(Grammar::JavaScript)
    } else if str_eq(name, "py") {
        Some(Grammar::Python)
    } else if str_eq(name, "dart") {
        Some(Grammar::Dart)
    } else if str_eq(name, "c") || str_eq(name, "h") {
        Some(Grammar::C)
    } else if str_eq(name, "go") {
        Some(Grammar::Go)
    } else {
        None
    }
}

/// The grammar name a suffix is remapped to, the last entry for it winning.
pub open spec fn remapped(exts: Seq<(String, String)>, ext: Chars) -> Option<Chars>
    decreases exts.len(),
{
    if exts.len() == 0 {
        None
    } else if exts.last().0@ == ext {
        Some(exts.last().1@)
    } else {
        remapped(exts.drop_last(), ext)
    }
}

/// The tags grammar of a file: its suffix remapped by `exts`, else the built-in grammar
/// of the suffix; `None` without a suffix or for an unknown grammar.
pub open spec fn tags_grammar_spec(path: Chars, exts: Seq<(String, String)>) -> Option<Grammar> {
    match crate::path::extension(path) {
        None => None,
        Some(e) => match remapped(exts, e) {
            Some(name) => grammar_named(name),
            None => match grammar_for(e) {
                Some(name) => grammar_named(name),
                None => None,
            },
        },
    }
}

/// [`tags_grammar_spec`].
pub fn tags_grammar(path: &str, extensions: &Vec<(String, String)>) -> (r: Option<Grammar>)
    ensures
        r == tags_grammar_spec(path@, extensions@),
{
    let ext = crate::path::extension_of(path)?;
    let mut i: usize = extensions.len();
    assert(extensions@.take(i as int) == extensions@);
    while i > 0
        invariant
            i <= extensions@.len(),
            crate::path::extension(path@) == Some(ext@),
            remapped(extensions@, ext@) == remapped(extensions@.take(i as int), ext@),
        decreases i,
    {
        let ghost t = extensions@.take(i as int);
        assert(t.drop_last() == extensions@.take(i - 1));
        if str_eq(extensions[i - 1].0.as_str(), ext.as_str()) {
            return grammar_by_name(extensions[i - 1].1.as_str());
        }
        i -= 1;
    }
    assert(extensions@.take(0) == Seq::<(String, String)>::empty());
    match crate::outline::grammar_for_ext(ext.as_str()) {
        Some(name) => grammar_by_name(name),
        None => None,
    }
}

/// The query added to a grammar's stock tags query.
pub fn extra_query(g: Grammar) -> (r: &'static str)
    ensures
        r@ == extra_query_text(g),
{
    proof {
        reveal_strlit("");
    }
    match g {
        Grammar::Rust => RUST_EXTRA,
        Grammar::TypeScript | Grammar::Tsx | Grammar::JavaScript => JS_IMPORT,
        Grammar::Python => PYTHON_IMPORT,
        Grammar::Dart => DART_IMPORT,
        Grammar::C => "",
        Grammar::Go => GO_IMPORT,
    }
}

/// The stock tags query of a grammar's crate (its `TAGS_QUERY`).
pub uninterp spec fn stock_tags_text(g: Grammar) -> Chars;

/// The `TAGS_QUERY` constant of the grammar's crate (TypeScript and TSX share one).
#[verifier::external_body]
fn stock_tags_query(g: Grammar) -> (r: &'static str)
    ensures
        r@ == stock_tags_text(g),
{
    match g {
        Grammar::Rust => tree_sitter_rust::TAGS_QUERY,
        Grammar::TypeScript | Grammar::Tsx => tree_sitter_typescript::TAGS_QUERY,
        Grammar::JavaScript => tree_sitter_javascript::TAGS_QUERY,
        Grammar::Python => tree_sitter_python::TAGS_QUERY,
        Grammar::Dart => tree_sitter_dart::TAGS_QUERY,
        Grammar::C => tree_sitter_c::TAGS_QUERY,
        Grammar::Go => tree_sitter_go::TAGS_QUERY,
    }
}

/// The grammars whose tags query needs their crate's locals query.
pub open spec fn has_locals(g: Grammar) -> bool {
    g == Grammar::TypeScript || g == Grammar::Tsx || g == Grammar::JavaScript || g == Grammar::Dart
}

/// The locals query of a grammar's crate (its `LOCALS_QUERY`).
pub uninterp spec fn stock_locals_text(g: Grammar) -> Chars;

/// The `LOCALS_QUERY` constant of the grammar's crate, for those that have one.
#[verifier::external_body]
fn stock_locals_query(g: Grammar) -> (r: &'static str)
    requires
        has_locals(g),
    ensures
        r@ == stock_locals_text(g),
{
    match g {
        Grammar::TypeScript | Grammar::Tsx => tree_sitter_typescript::LOCALS_QUERY,
        Grammar::JavaScript => tree_sitter_javascript::LOCALS_QUERY,
        _ => tree_sitter_dart::LOCALS_QUERY,
    }
}

/// The tags query compiled for a grammar: its stock query with the extra one appended.
pub open spec fn tags_query_for(g: Grammar) -> Chars {
    stock_tags_text(g) + extra_query_text(g)
}

/// The locals query compiled for a grammar: its crate's, or none.
pub open spec fn locals_for(g: Grammar) -> Chars {
    if has_locals(g) {
        stock_locals_text(g)
    } else {
        Seq::empty()
    }
}

/// The query added to a grammar's stock tags query, as text.
pub open spec fn extra_query_text(g: Grammar) -> Chars {
    match g {
        Grammar::Rust => RUST_EXTRA@,
        Grammar::TypeScript | Grammar::Tsx | Grammar::JavaScript => JS_IMPORT@,
        Grammar::Python => PYTHON_IMPORT@,
        Grammar::Dart => DART_IMPORT@,
        Grammar::C => Seq::empty(),
        Grammar::Go => GO_IMPORT@,
    }
}

/// The locals query of a grammar's crate for TypeScript, TSX, JavaScript and Dart; no
/// query for the others ([`locals_for`]).
fn locals_query(g: Grammar) -> (r: &'static str)
    ensures
        r@ == locals_for(g),
{
    if g == Grammar::TypeScript || g == Grammar::Tsx || g == Grammar::JavaScript || g == Grammar::Dart {
        stock_locals_query(g)
    } else {
        proof {
            reveal_strlit("");
        }
        ""
    }
}

/// Whether tree-sitter-tags compiles a tags query and a locals query for grammar `g`.
pub uninterp spec fn tags_query_compiles(g: Grammar, tags: Chars, locals: Chars) -> bool;

/// `tree_sitter_tags::TagsConfiguration::new` with the language of `g`; the error as its
/// text. Whether it compiles is named [`tags_query_compiles`]: it depends on the grammar
/// and the two queries alone.
#[verifier::external_body]
fn tags_configuration(g: Grammar, tags: &str, locals: &str) -> (r: Result<
    tree_sitter_tags::TagsConfiguration,
    String,
>)
    ensures
        r is Ok == tags_query_compiles(g, tags@, locals@),
{
    tree_sitter_tags::TagsConfiguration::new(language(g), tags, locals).map_err(|e| e.to_string())
}

/// Whether the tags query of `g` ([`tags_query_for`], [`locals_for`]) compiles.
pub open spec fn tags_compile_ok(g: Grammar) -> bool {
    tags_query_compiles(g, tags_query_for(g), locals_for(g))
}

/// A compiled tags query for one grammar: its stock tags query with the extra one
/// appended, and its locals query where it has one. Only [`TagsConfig::new`] makes one,
/// so the compiled query is always the one of `grammar`.
pub struct TagsConfig {
    grammar: Grammar,
    cfg: tree_sitter_tags::TagsConfiguration,
}

impl TagsConfig {
    /// The grammar whose query this is.
    pub closed spec fn grammar(&self) -> Grammar {
        self.grammar
    }

    /// Compiles the tags query of `g`; the error says why the query did not compile.
    pub fn new(g: Grammar) -> (r: Result<TagsConfig, String>)
        ensures
            r is Ok == tags_compile_ok(g),
            r matches Ok(c) ==> c.grammar() == g,
            r matches Err(e) ==> crate::text::starts_with(e@, "tags query: "@),
    {
        let mut q = copy_str(stock_tags_query(g));
        q.append(extra_query(g));
        let locals = locals_query(g);
        assert(q@ == tags_query_for(g));
        match tags_configuration(g, q.as_str(), locals) {
            Ok(cfg) => Ok(TagsConfig { grammar: g, cfg }),
            Err(e) => {
                let mut m = copy_str("tags query: ");
                m.append(e.as_str());
                proof {
                    reveal_strlit("tags query: ");
                    assert(m@.take(12) == "tags query: "@);
                }
                Err(m)
            },
        }
    }
}

/// One tag as tree-sitter-tags reports it: its syntax type name, the byte ranges of
/// its name and of its first line, its first row, where its node ends, and whether it
/// defines.
pub struct RawTag {
    pub kind: String,
    pub name_start: usize,
    pub name_end: usize,
    pub line_start: usize,
    pub line_end: usize,
    pub row: usize,
    pub range_end: usize,
    pub is_def: bool,
}

/// [`RawTag`] as a value.
pub struct RawTagV {
    pub kind: Chars,
    pub name_start: usize,
    pub name_end: usize,
    pub line_start: usize,
    pub line_end: usize,
    pub row: usize,
    pub range_end: usize,
    pub is_def: bool,
}

impl View for RawTag {
    type V = RawTagV;

    open spec fn view(&self) -> RawTagV {
        RawTagV {
            kind: self.kind@,
            name_start: self.name_start,
            name_end: self.name_end,
            line_start: self.line_start,
            line_end: self.line_end,
            row: self.row,
            range_end: self.range_end,
            is_def: self.is_def,
        }
    }
}

/// The views of a list of reported tags (`None`: an item the iterator failed on).
pub open spec fn raw_views(v: Seq<Option<RawTag>>) -> Seq<Option<RawTagV>> {
    Seq::new(
        v.len(),
        |i: int|
            match v[i] {
                Some(t) => Some(t@),
                None => None,
            },
    )
}

/// What tree-sitter-tags reports for `src` with the tags query of grammar `g`, item by
/// item, or the text of its error.
pub uninterp spec fn raw_tags(g: Grammar, src: Chars) -> Result<Seq<Option<RawTagV>>, Chars>;

/// `TagsContext::generate_tags` over `src` with the compiled query of `cfg`, each tag's
/// syntax type id read as its name; the error as its text. The result is named
/// [`raw_tags`]: it depends on the grammar and the text alone.
#[verifier::external_body]
fn generate(cfg: &TagsConfig, src: &str) -> (r: Result<Vec<Option<RawTag>>, String>)
    ensures
        match r {
            Ok(v) => raw_tags(cfg.grammar(), src@) == Ok::<Seq<Option<RawTagV>>, Chars>(raw_views(v@)),
            Err(e) => raw_tags(cfg.grammar(), src@) == Err::<Seq<Option<RawTagV>>, Chars>(e@),
        },
{
    let mut ctx = tree_sitter_tags::TagsContext::new();
    let (tags, _) = ctx.generate_tags(&cfg.cfg, src.as_bytes(), None).map_err(|e| e.to_string())?;
    Ok(tags.map(|t| t.ok().map(|t| RawTag {
        kind: cfg.cfg.syntax_type_name(t.syntax_type_id).to_string(),
        name_start: t.name_range.start,
        name_end: t.name_range.end,
        line_start: t.line_range.start,
        line_end: t.line_range.end,
        row: t.span.start.row,
        range_end: t.range.end,
        is_def: t.is_definition,
    })).collect())
}

/// The text of bytes `s..e` of `b` (`str::get`): there when the range lies within `b`
/// and is whole UTF-8.
pub open spec fn byte_slice(b: Seq<u8>, s: int, e: int) -> Option<Chars> {
    if 0 <= s <= e <= b.len() && valid_utf8(b.subrange(s, e)) {
        Some(decode_utf8(b.subrange(s, e)))
    } else {
        None
    }
}

/// The line (from 1) byte `x` of `b` stands on: one more than the newlines before it.
pub open spec fn line_at(b: Seq<u8>, x: int) -> nat {
    1 + newlines(
        b.take(
            if x < b.len() {
                x
            } else {
                b.len() as int
            },
        ),
    )
}

/// A hit as a value: kind, name, line, last line, whether it defines, first line's text.
pub open spec fn hit_value(h: TagHit) -> (Chars, Chars, usize, usize, bool, Chars) {
    (h.kind@, h.name@, h.line, h.end_line, h.is_def, h.line_text@)
}

/// The hit a reported tag with name text `name` gives: an import is named by its last
/// segment; its line is its row from 1; a definition's last line is the line of the
/// last byte of its node, while a reference spans one line (its last line is its line);
/// its line text is empty where that range is not text.
pub open spec fn hit_of(b: Seq<u8>, t: RawTagV, name: Chars) -> (Chars, Chars, usize, usize, bool, Chars) {
    (
        t.kind,
        if t.kind == "import"@ {
            import_segment(name)
        } else {
            name
        },
        if t.row < usize::MAX {
            (t.row + 1) as usize
        } else {
            t.row
        },
        if t.is_def {
            line_at(
                b,
                if t.range_end > 0 {
                    t.range_end - 1
                } else {
                    0
                },
            ) as usize
        } else if t.row < usize::MAX {
            (t.row + 1) as usize
        } else {
            t.row
        },
        t.is_def,
        match byte_slice(b, t.line_start as int, t.line_end as int) {
            Some(x) => x,
            None => Seq::empty(),
        },
    )
}

/// The hits of the reported tags, in order, leaving out items the iterator failed on
/// and tags whose name range is not text.
pub open spec fn tag_hits_spec(src: Chars, raw: Seq<Option<RawTagV>>) -> Seq<
    (Chars, Chars, usize, usize, bool, Chars),
>
    decreases raw.len(),
{
    if raw.len() == 0 {
        Seq::empty()
    } else {
        let prev = tag_hits_spec(src, raw.drop_last());
        let b = encode_utf8(src);
        match raw.last() {
            None => prev,
            Some(t) => match byte_slice(b, t.name_start as int, t.name_end as int) {
                None => prev,
                Some(name) => prev.push(hit_of(b, t, name)),
            },
        }
    }
}

/// [`byte_slice`].
pub(crate) fn slice_text(b: &[u8], s: usize, e: usize) -> (r: Option<String>)
    ensures
        match r {
            Some(x) => byte_slice(b@, s as int, e as int) == Some(x@),
            None => byte_slice(b@, s as int, e as int) is None,
        },
{
    if s > e || e > b.len() {
        return None;
    }
    let mut v: Vec<u8> = Vec::new();
    let mut i = s;
    while i < e
        invariant
            s <= i <= e <= b@.len(),
            v@ == b@.subrange(s as int, i as int),
        decreases e - i,
    {
        v.push(b[i]);
        i += 1;
    }
    let ghost sub = v@;
    match utf8_text(v) {
        Some(x) => {
            proof {
                vstd::utf8::decode_utf8_encode_utf8(sub);
                vstd::utf8::encode_utf8_decode_utf8(x@);
            }
            Some(x)
        },
        None => None,
    }
}

/// The hits of reported tags over `src` ([`tag_hits_spec`]).
pub fn tag_hits(src: &str, raw: &Vec<Option<RawTag>>) -> (r: Vec<TagHit>)
    ensures
        r@.map_values(|h: TagHit| hit_value(h)) == tag_hits_spec(src@, raw_views(raw@)),
{
    let b = src.as_bytes();
    let n = b.len();
    let ghost bv = b@;
    assert(bv == encode_utf8(src@));
    let mut nl: Vec<usize> = Vec::new();
    nl.push(0);
    let mut c: usize = 0;
    let mut i: usize = 0;
    while i < n
        invariant
            n == bv.len(),
            bv == b@,
            i <= n,
            nl@.len() == i + 1,
            c == newlines(bv.take(i as int)),
            c <= i,
            forall|k: int| 0 <= k <= i ==> #[trigger] nl@[k] == newlines(bv.take(k)),
            forall|k: int| 0 <= k <= i ==> #[trigger] nl@[k] <= k,
        decreases n - i,
    {
        assert(bv.take(i + 1).drop_last() == bv.take(i as int));
        if b[i] == 10u8 {
            c += 1;
        }
        nl.push(c);
        i += 1;
    }
    let ghost rv = raw_views(raw@);
    let mut out: Vec<TagHit> = Vec::new();
    let mut k: usize = 0;
    while k < raw.len()
        invariant
            n == bv.len(),
            bv == b@,
            bv == encode_utf8(src@),
            nl@.len() == n + 1,
            forall|j: int| 0 <= j <= n ==> #[trigger] nl@[j] == newlines(bv.take(j)),
            forall|j: int| 0 <= j <= n ==> #[trigger] nl@[j] <= j,
            rv == raw_views(raw@),
            k <= raw@.len(),
            out@.map_values(|h: TagHit| hit_value(h)) == tag_hits_spec(src@, rv.take(k as int)),
        decreases raw@.len() - k,
    {
        assert(rv.take(k + 1).drop_last() == rv.take(k as int));
        let ghost before = out@;
        match &raw[k] {
            None => {},
            Some(t) => {
                match slice_text(b, t.name_start, t.name_end) {
                    None => {},
                    Some(name) => {
                        let is_import = str_eq(t.kind.as_str(), "import");
                        let nm = if is_import {
                            import_last_segment(name.as_str())
                        } else {
                            name
                        };
                        let line = if t.row < usize::MAX {
                            t.row + 1
                        } else {
                            t.row
                        };
                        let x = if t.range_end > 0 {
                            t.range_end - 1
                        } else {
                            0
                        };
                        let xi = if x < n {
                            x
                        } else {
                            n
                        };
                        let end_line = if t.is_def {
                            1 + nl[xi]
                        } else {
                            line
                        };
                        let line_text = match slice_text(b, t.line_start, t.line_end) {
                            Some(lt) => lt,
                            None => String::new(),
                        };
                        let h = TagHit {
                            kind: copy_str(t.kind.as_str()),
                            name: nm,
                            line,
                            end_line,
                            is_def: t.is_def,
                            line_text,
                        };
                        out.push(h);
                        proof {
                            assert(rv[k as int] == Some(raw@[k as int]->Some_0@));
                            assert(out@.map_values(|h: TagHit| hit_value(h)) =~= before.map_values(
                                |h: TagHit| hit_value(h),
                            ).push(hit_value(h)));
                        }
                    },
                }
            },
        }
        proof {
            if out@ == before {
                assert(out@.map_values(|h: TagHit| hit_value(h)) == before.map_values(
                    |h: TagHit| hit_value(h),
                ));
            }
        }
        k += 1;
    }
    assert(rv.take(raw@.len() as int) == rv);
    out
}

/// Definitions and references of `src` from the tags query `cfg` compiled
/// ([`tag_hits`] of what tree-sitter-tags reports), or its error's text.
pub fn tags_with_config(cfg: &TagsConfig, src: &str) -> (r: Result<Vec<TagHit>, String>)
    ensures
        match r {
            Ok(v) => raw_tags(cfg.grammar(), src@) matches Ok(raw) && v@.map_values(
                |h: TagHit| hit_value(h),
            ) == tag_hits_spec(src@, raw),
            Err(e) => raw_tags(cfg.grammar(), src@) == Err::<Seq<Option<RawTagV>>, Chars>(e@),
        },
{
    let raw = generate(cfg, src)?;
    Ok(tag_hits(src, &raw))
}

/// Definitions and references from the grammar's tags query, `extensions` remapping the
/// file suffix to a grammar name ([`tags_grammar`]): none for a file without a grammar;
/// otherwise the query is compiled and run ([`tags_with_config`]), and an error of either
/// step is returned.
pub fn tags_with_extensions(path: &str, src: &str, extensions: &Vec<(String, String)>) -> (r: Result<
    Vec<TagHit>,
    String,
>)
    ensures
        match r {
            Ok(v) => match tags_grammar_spec(path@, extensions@) {
                None => v@.len() == 0,
                Some(g) => tags_compile_ok(g) && (raw_tags(g, src@) matches Ok(raw) && v@.map_values(
                    |h: TagHit| hit_value(h),
                ) == tag_hits_spec(src@, raw)),
            },
            Err(e) => tags_grammar_spec(path@, extensions@) matches Some(g) && if tags_compile_ok(g) {
                raw_tags(g, src@) == Err::<Seq<Option<RawTagV>>, Chars>(e@)
            } else {
                crate::text::starts_with(e@, "tags query: "@)
            },
        },
{
    match tags_grammar(path, extensions) {
        None => Ok(Vec::new()),
        Some(g) => {
            let cfg = TagsConfig::new(g)?;
            tags_with_config(&cfg, src)
        },
    }
}

/// [`tags_with_extensions`] without a remap.
pub fn tags(path: &str, src: &str) -> (r: Result<Vec<TagHit>, String>)
    ensures
        match r {
            Ok(v) => match tags_grammar_spec(path@, Seq::empty()) {
                None => v@.len() == 0,
                Some(g) => tags_compile_ok(g) && (raw_tags(g, src@) matches Ok(raw) && v@.map_values(
                    |h: TagHit| hit_value(h),
                ) == tag_hits_spec(src@, raw)),
            },
            Err(e) => tags_grammar_spec(path@, Seq::empty()) matches Some(g) && if tags_compile_ok(g) {
                raw_tags(g, src@) == Err::<Seq<Option<RawTagV>>, Chars>(e@)
            } else {
                crate::text::starts_with(e@, "tags query: "@)
            },
        },
{
    let none: Vec<(String, String)> = Vec::new();
    tags_with_extensions(path, src, &none)
}

} // verus!
