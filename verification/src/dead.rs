//! The dead-code report: indexed private definitions that nothing references, with the
//! ones that are used in ways the index does not see (trait surfaces, `impl` targets,
//! tests, `main`, macros, public items) left out.

use vstd::prelude::*;
use vstd::utf8::encode_utf8;

use crate::comments::SyntaxNode;
use crate::graph::{is_test_path, is_test_path_spec};
use crate::syntax::{parse_tree, syntax_tree, Grammar};
use crate::tags::byte_slice;
use crate::text::{
    chars_of, ends_with, join, join_strings, push_i64, starts_with, str_eq, trim, trim_start,
    trim_start_chars, views, Chars,
};

verus! {

/// The first child of `cs` that holds the field `name`.
pub open spec fn field_child(cs: Seq<SyntaxNode>, name: Chars) -> Option<SyntaxNode>
    decreases cs.len(),
{
    if cs.len() == 0 {
        None
    } else if cs[0].field matches Some(f) && f@ == name {
        Some(cs[0])
    } else {
        field_child(cs.drop_first(), name)
    }
}

/// A row (from 0) as a line (from 1).
pub open spec fn line_of_row(r: usize) -> usize {
    if r < usize::MAX {
        (r + 1) as usize
    } else {
        r
    }
}

/// The line range of a node.
pub open spec fn node_lines(n: SyntaxNode) -> (usize, usize) {
    (line_of_row(n.start_row), line_of_row(n.end_row))
}

/// A node whose methods are interface surface: a trait impl (`impl T for S`) or a trait.
pub open spec fn is_surface(n: SyntaxNode) -> bool {
    (n.kind@ == "impl_item"@ && field_child(n.children@, "trait"@) is Some) || n.kind@
        == "trait_item"@
}

/// The line ranges of the trait impls and traits in `n`, in document order.
pub open spec fn impl_ranges(n: SyntaxNode) -> Seq<(usize, usize)>
    decreases n, 0int,
{
    (if is_surface(n) {
        seq![node_lines(n)]
    } else {
        Seq::empty()
    }) + impl_ranges_all(n.children@)
}

/// [`impl_ranges`] of each node of `cs`, in order.
pub open spec fn impl_ranges_all(cs: Seq<SyntaxNode>) -> Seq<(usize, usize)>
    decreases cs, 1int,
{
    if cs.len() == 0 {
        Seq::empty()
    } else {
        impl_ranges_all(cs.drop_last()) + impl_ranges(cs.last())
    }
}

/// The text before the first `<` (generics are dropped).
pub open spec fn before_lt(s: Chars) -> Chars
    decreases s.len(),
{
    if s.len() == 0 {
        s
    } else if s[0] == '<' {
        Seq::empty()
    } else {
        seq![s[0]] + before_lt(s.drop_first())
    }
}

/// The type an `impl` names (`impl S`, `impl T for S`), without its generics and
/// trimmed, where its text can be read.
pub open spec fn impl_type(bytes: Seq<u8>, n: SyntaxNode) -> Seq<Chars> {
    if n.kind@ == "impl_item"@ {
        match field_child(n.children@, "type"@) {
            Some(t) => match byte_slice(bytes, t.start as int, t.end as int) {
                Some(name) => seq![trim(before_lt(name))],
                None => Seq::empty(),
            },
            None => Seq::empty(),
        }
    } else {
        Seq::empty()
    }
}

/// The `impl` target types in `n`, in document order.
pub open spec fn impl_types(bytes: Seq<u8>, n: SyntaxNode) -> Seq<Chars>
    decreases n, 0int,
{
    impl_type(bytes, n) + impl_types_all(bytes, n.children@)
}

/// [`impl_types`] of each node of `cs`, in order.
pub open spec fn impl_types_all(bytes: Seq<u8>, cs: Seq<SyntaxNode>) -> Seq<Chars>
    decreases cs, 1int,
{
    if cs.len() == 0 {
        Seq::empty()
    } else {
        impl_types_all(bytes, cs.drop_last()) + impl_types(bytes, cs.last())
    }
}

/// [`field_child`]: the index of the first child holding field `name`.
fn field_child_index(cs: &Vec<SyntaxNode>, name: &str) -> (r: Option<usize>)
    ensures
        match r {
            Some(i) => i < cs@.len() && field_child(cs@, name@) == Some(cs@[i as int]),
            None => field_child(cs@, name@) is None,
        },
{
    let mut i: usize = 0;
    assert(cs@.skip(0) == cs@);
    while i < cs.len()
        invariant
            i <= cs@.len(),
            field_child(cs@, name@) == field_child(cs@.skip(i as int), name@),
        decreases cs@.len() - i,
    {
        assert(cs@.skip(i as int)[0] == cs@[i as int]);
        assert(cs@.skip(i as int).drop_first() == cs@.skip(i + 1));
        match &cs[i].field {
            Some(f) => {
                if str_eq(f.as_str(), name) {
                    return Some(i);
                }
            },
            None => {},
        }
        i += 1;
    }
    assert(cs@.skip(i as int).len() == 0);
    None
}

/// [`line_of_row`].
fn line_from_row(r: usize) -> (l: usize)
    ensures
        l == line_of_row(r),
{
    if r < usize::MAX {
        r + 1
    } else {
        r
    }
}

/// [`before_lt`].
fn before_lt_chars(s: &[char]) -> (r: Vec<char>)
    ensures
        r@ == before_lt(s@),
{
    let mut r: Vec<char> = Vec::new();
    let mut i: usize = 0;
    assert(s@.skip(0) == s@);
    while i < s.len() && s[i] != '<'
        invariant
            i <= s@.len(),
            before_lt(s@) == r@ + before_lt(s@.skip(i as int)),
        decreases s@.len() - i,
    {
        let ghost rest = s@.skip(i as int);
        assert(rest[0] == s@[i as int]);
        assert(rest.drop_first() == s@.skip(i + 1));
        r.push(s[i]);
        assert(r@ + before_lt(s@.skip(i + 1)) =~= r@.drop_last() + (seq![s@[i as int]] + before_lt(rest.drop_first())));
        i += 1;
    }
    if i < s.len() {
        assert(s@.skip(i as int)[0] == '<');
    }
    assert(r@ + before_lt(s@.skip(i as int)) =~= r@);
    r
}

/// [`impl_type`].
fn impl_type_of(bytes: &[u8], n: &SyntaxNode) -> (r: Option<String>)
    ensures
        match r {
            Some(t) => impl_type(bytes@, *n) == seq![t@],
            None => impl_type(bytes@, *n) == Seq::<Chars>::empty(),
        },
{
    if !str_eq(n.kind.as_str(), "impl_item") {
        return None;
    }
    let k = field_child_index(&n.children, "type")?;
    let t = &n.children[k];
    let name = crate::tags::slice_text(bytes, t.start, t.end)?;
    let nc = chars_of(name.as_str());
    let b = before_lt_chars(nc.as_slice());
    let tr = crate::text::trim_chars(b.as_slice());
    Some(crate::text::string_from(tr.as_slice()))
}

/// Appends the trait-impl and trait line ranges and the `impl` target types under `n`
/// ([`impl_ranges`], [`impl_types`]).
fn collect_impls(n: &SyntaxNode, bytes: &[u8], ranges: &mut Vec<(usize, usize)>, types: &mut Vec<String>)
    ensures
        final(ranges)@ == old(ranges)@ + impl_ranges(*n),
        views(final(types)@) == views(old(types)@) + impl_types(bytes@, *n),
    decreases n, 0int,
{
    let ghost r0 = ranges@;
    let ghost t0 = views(types@);
    match impl_type_of(bytes, n) {
        Some(t) => {
            types.push(t);
        },
        None => {},
    }
    let is_impl = str_eq(n.kind.as_str(), "impl_item");
    let surface = (is_impl && field_child_index(&n.children, "trait").is_some()) || str_eq(
        n.kind.as_str(),
        "trait_item",
    );
    if surface {
        ranges.push((line_from_row(n.start_row), line_from_row(n.end_row)));
    }
    let ghost r1 = ranges@;
    let ghost t1 = views(types@);
    assert(r1 == r0 + (if is_surface(*n) { seq![node_lines(*n)] } else { Seq::empty() }));
    assert(t1 =~= t0 + impl_type(bytes@, *n));
    let mut k: usize = 0;
    assert(n.children@.take(0) =~= Seq::<SyntaxNode>::empty());
    while k < n.children.len()
        invariant
            k <= n.children@.len(),
            ranges@ == r1 + impl_ranges_all(n.children@.take(k as int)),
            views(types@) == t1 + impl_types_all(bytes@, n.children@.take(k as int)),
        decreases n.children@.len() - k,
    {
        assert(n.children@.take(k + 1).drop_last() == n.children@.take(k as int));
        assert(n.children@.take(k + 1).last() == n.children@[k as int]);
        let ghost rb = ranges@;
        let ghost tb = views(types@);
        collect_impls(&n.children[k], bytes, ranges, types);
        assert(ranges@ =~= r1 + impl_ranges_all(n.children@.take(k + 1)));
        assert(views(types@) =~= t1 + impl_types_all(bytes@, n.children@.take(k + 1)));
        k += 1;
    }
    assert(n.children@.take(n.children@.len() as int) == n.children@);
    assert(ranges@ =~= r0 + impl_ranges(*n));
    assert(views(types@) =~= t0 + impl_types(bytes@, *n));
}

/// The trait-impl and trait line ranges of a Rust source, where methods are interface
/// surface rather than dead code, and every `impl` target type (`impl S`, `impl T for S`)
/// by name; none where the source does not parse.
pub fn rust_impls(src: &str) -> (r: (Vec<(usize, usize)>, Vec<String>))
    ensures
        r.0@ == match syntax_tree(Grammar::Rust, src@) {
            Some(t) => impl_ranges(t),
            None => Seq::empty(),
        },
        views(r.1@) == match syntax_tree(Grammar::Rust, src@) {
            Some(t) => impl_types(encode_utf8(src@), t),
            None => Seq::empty(),
        },
{
    let mut ranges: Vec<(usize, usize)> = Vec::new();
    let mut types: Vec<String> = Vec::new();
    match parse_tree(Grammar::Rust, src) {
        None => {
            assert(views(types@) =~= Seq::<Chars>::empty());
        },
        Some(t) => {
            assert(views(types@) =~= Seq::<Chars>::empty());
            collect_impls(&t, src.as_bytes(), &mut ranges, &mut types);
            assert(ranges@ =~= impl_ranges(t));
            assert(views(types@) =~= impl_types(encode_utf8(src@), t));
        },
    }
    (ranges, types)
}

/// A file's lines as values, by path.
pub open spec fn files_view(files: Seq<(String, Vec<String>)>) -> Seq<(Chars, Seq<Chars>)> {
    Seq::new(files.len(), |i: int| (files[i].0@, views(files[i].1@)))
}

/// The candidates as values: path, name, kind and line.
pub open spec fn cands_view(c: Seq<(String, String, String, i64)>) -> Seq<(Chars, Chars, Chars, i64)> {
    Seq::new(c.len(), |i: int| (c[i].0@, c[i].1@, c[i].2@, c[i].3))
}

/// The lines of the first file read for `path`; none where it was not read.
pub open spec fn lines_for(files: Seq<(Chars, Seq<Chars>)>, path: Chars) -> Seq<Chars>
    decreases files.len(),
{
    if files.len() == 0 {
        Seq::empty()
    } else if files[0].0 == path {
        files[0].1
    } else {
        lines_for(files.drop_first(), path)
    }
}

/// The index of a definition's line among the file's lines (lines count from 1; a line
/// below 1 reads as the first).
pub open spec fn def_index(line: i64) -> int {
    let m = (if line < 1 {
        1i64
    } else {
        line
    }) as usize;
    if m > 0 {
        m - 1
    } else {
        0
    }
}

/// Line `idx` of `src`, empty past its end.
pub open spec fn def_line(src: Seq<Chars>, idx: int) -> Chars {
    if 0 <= idx < src.len() {
        src[idx]
    } else {
        Seq::empty()
    }
}

/// A definition line that opens with `pub`: public, so not reported.
pub open spec fn is_pub_line(l: Chars) -> bool {
    let t = trim_start(l);
    starts_with(t, "pub "@) || starts_with(t, "pub("@) || t == "pub"@
}

/// A `#[test…]` or `#[cfg(test…]` attribute line.
pub open spec fn is_test_attr(l: Chars) -> bool {
    let t = trim_start(l);
    starts_with(t, "#[test"@) || starts_with(t, "#[cfg(test"@)
}

/// One of the (up to) three lines above line `idx` is a test attribute.
pub open spec fn marked_test(src: Seq<Chars>, idx: int) -> bool {
    let n = if idx < src.len() {
        idx
    } else {
        src.len() as int
    };
    exists|k: int| n - 3 <= k < n && 0 <= k && #[trigger] is_test_attr(src[k])
}

/// For a Rust file: the definition is an `impl` target, or a method inside a trait impl
/// or a trait ([`impl_types`], [`impl_ranges`] of the file's lines joined by newlines).
pub open spec fn used_by_impls(src: Seq<Chars>, path: Chars, name: Chars, kind: Chars, line: i64) -> bool {
    let text = join(src, "\n"@);
    &&& ends_with(path, ".rs"@)
    &&& match syntax_tree(Grammar::Rust, text) {
        None => false,
        Some(t) => {
            let ranges = impl_ranges(t);
            ||| impl_types(encode_utf8(text), t).contains(name)
            ||| (kind == "method"@ && exists|i: int|
                0 <= i < ranges.len() && #[trigger] ranges[i].0 <= line as usize && line as usize
                    <= ranges[i].1)
        },
    }
}

/// A candidate is reported: not a macro, not `main`, not in a test file, not public, not
/// under a test attribute, and not used through an `impl`.
pub open spec fn reported(files: Seq<(Chars, Seq<Chars>)>, c: (Chars, Chars, Chars, i64)) -> bool {
    let (path, name, kind, line) = c;
    let src = lines_for(files, path);
    let idx = def_index(line);
    &&& !(kind == "macro"@ || name == "main"@ || is_test_path_spec(path))
    &&& !is_pub_line(def_line(src, idx))
    &&& !marked_test(src, idx)
    &&& !used_by_impls(src, path, name, kind, line)
}

/// A reported definition's line: `path:line kind name`.
pub open spec fn dead_line(c: (Chars, Chars, Chars, i64)) -> Chars {
    c.0 + ":"@ + crate::text::dec_int(c.3 as int) + " "@ + c.2 + " "@ + c.1 + "\n"@
}

/// The lines of the reported candidates, in order.
pub open spec fn dead_lines(files: Seq<(Chars, Seq<Chars>)>, cands: Seq<(Chars, Chars, Chars, i64)>) -> Chars
    decreases cands.len(),
{
    if cands.len() == 0 {
        Seq::empty()
    } else {
        dead_lines(files, cands.drop_last()) + if reported(files, cands.last()) {
            dead_line(cands.last())
        } else {
            Seq::empty()
        }
    }
}

/// The report: the reported lines, or that there is no dead code under `root`.
pub open spec fn dead_text_spec(
    files: Seq<(Chars, Seq<Chars>)>,
    cands: Seq<(Chars, Chars, Chars, i64)>,
    root: Chars,
) -> Chars {
    let d = dead_lines(files, cands);
    if d.len() == 0 {
        "no dead code in "@ + root
    } else {
        d
    }
}

/// [`lines_for`].
fn lines_index(files: &Vec<(String, Vec<String>)>, path: &str) -> (r: Option<usize>)
    ensures
        match r {
            Some(i) => i < files@.len() && lines_for(files_view(files@), path@) == views(files@[i as int].1@),
            None => lines_for(files_view(files@), path@) == Seq::<Chars>::empty(),
        },
{
    let ghost fv = files_view(files@);
    let mut i: usize = 0;
    assert(fv.skip(0) == fv);
    while i < files.len()
        invariant
            i <= files@.len(),
            fv == files_view(files@),
            lines_for(fv, path@) == lines_for(fv.skip(i as int), path@),
        decreases files@.len() - i,
    {
        assert(fv.skip(i as int)[0] == fv[i as int]);
        assert(fv.skip(i as int).drop_first() == fv.skip(i + 1));
        if str_eq(files[i].0.as_str(), path) {
            return Some(i);
        }
        i += 1;
    }
    assert(fv.skip(i as int).len() == 0);
    None
}

/// Whether a line, without its leading whitespace, opens with `lit`.
fn opens_with(l: &str, lit: &str) -> (r: bool)
    ensures
        r == starts_with(trim_start(l@), lit@),
{
    let c = chars_of(l);
    let t = trim_start_chars(c.as_slice());
    crate::text::prefix_lit(t.as_slice(), lit)
}

/// Whether a candidate is reported ([`reported`]).
#[verifier::loop_isolation(false)]
fn is_reported(files: &Vec<(String, Vec<String>)>, c: &(String, String, String, i64)) -> (r: bool)
    ensures
        r == reported(files_view(files@), (c.0@, c.1@, c.2@, c.3)),
{
    let (path, name, kind, line) = (c.0.as_str(), c.1.as_str(), c.2.as_str(), c.3);
    if str_eq(kind, "macro") || str_eq(name, "main") || is_test_path(path) {
        return false;
    }
    let empty: Vec<String> = Vec::new();
    let src: &Vec<String> = match lines_index(files, path) {
        Some(i) => &files[i].1,
        None => &empty,
    };
    assert(views(empty@) =~= Seq::<Chars>::empty());
    let ghost sv = views(src@);
    assert(sv == lines_for(files_view(files@), path@));
    let m = (if line < 1 {
        1i64
    } else {
        line
    }) as usize;
    let idx = if m > 0 {
        m - 1
    } else {
        0
    };
    assert(idx == def_index(line));
    let empty_line = String::new();
    let def: &str = if idx < src.len() {
        src[idx].as_str()
    } else {
        empty_line.as_str()
    };
    assert(def@ == def_line(sv, idx as int));
    let dc = chars_of(def);
    let dt = trim_start_chars(dc.as_slice());
    if crate::text::prefix_lit(dt.as_slice(), "pub ") || crate::text::prefix_lit(dt.as_slice(), "pub(")
        || crate::text::eq_lit(dt.as_slice(), "pub") {
        return false;
    }
    let n = if idx < src.len() {
        idx
    } else {
        src.len()
    };
    let lo = if n >= 3 {
        n - 3
    } else {
        0
    };
    let mut k = lo;
    while k < n
        invariant
            lo <= k <= n <= src@.len(),
            sv == views(src@),
            lo == (if n >= 3 { n - 3 } else { 0 }),
            forall|j: int| lo <= j < k ==> !#[trigger] is_test_attr(sv[j]),
        decreases n - k,
    {
        assert(sv[k as int] == src@[k as int]@);
        if opens_with(src[k].as_str(), "#[test") || opens_with(src[k].as_str(), "#[cfg(test") {
            assert(is_test_attr(sv[k as int]));
            assert(marked_test(sv, idx as int));
            return false;
        }
        k += 1;
    }
    assert(!marked_test(sv, idx as int));
    if !crate::text::has_suffix(chars_of(path).as_slice(), chars_of(".rs").as_slice()) {
        return true;
    }
    let text = join_strings(src.as_slice(), "\n");
    let (ranges, types) = rust_impls(text.as_str());
    assert(text@ == join(sv, "\n"@));
    assert(ends_with(path@, ".rs"@));
    let mut t: usize = 0;
    while t < types.len()
        invariant
            t <= types@.len(),
            forall|j: int| 0 <= j < t ==> types@[j]@ != name@,
        decreases types@.len() - t,
    {
        if str_eq(types[t].as_str(), name) {
            assert(views(types@)[t as int] == name@);
            assert(views(types@).contains(name@));
            assert(used_by_impls(sv, path@, name@, kind@, line));
            return false;
        }
        t += 1;
    }
    assert(!views(types@).contains(name@)) by {
        if views(types@).contains(name@) {
            let j = choose|j: int| 0 <= j < views(types@).len() && views(types@)[j] == name@;
            assert(types@[j]@ == name@);
        }
    }
    if str_eq(kind, "method") {
        let lu = line as usize;
        let mut q: usize = 0;
        while q < ranges.len()
            invariant
                q <= ranges@.len(),
                lu == line as usize,
                forall|j: int| 0 <= j < q ==> !(#[trigger] ranges@[j].0 <= lu && lu <= ranges@[j].1),
            decreases ranges@.len() - q,
        {
            if ranges[q].0 <= lu && lu <= ranges[q].1 {
                assert(ranges@[q as int].0 <= line as usize && line as usize <= ranges@[q as int].1);
                assert(used_by_impls(sv, path@, name@, kind@, line));
                return false;
            }
            q += 1;
        }
    }
    true
}

/// Unreferenced private definitions, one `path:line kind name` line each, from the index's
/// candidates (path, name, kind, line) and the lines of their files (`files`, by path; a
/// file missing there reads as empty): macros, `main`, test files, public items, items
/// under a test attribute, `impl` targets and methods of trait impls and traits are left
/// out ([`reported`]). Without any, the answer says there is no dead code under `root`.
pub fn dead_text(
    cands: &Vec<(String, String, String, i64)>,
    files: &Vec<(String, Vec<String>)>,
    root: &str,
) -> (r: String)
    ensures
        r@ == dead_text_spec(files_view(files@), cands_view(cands@), root@),
{
    let ghost cv = cands_view(cands@);
    let ghost fv = files_view(files@);
    let mut out = String::new();
    let mut k: usize = 0;
    while k < cands.len()
        invariant
            k <= cands@.len(),
            cv == cands_view(cands@),
            fv == files_view(files@),
            out@ == dead_lines(fv, cv.take(k as int)),
        decreases cands@.len() - k,
    {
        assert(cv.take(k + 1).drop_last() == cv.take(k as int));
        assert(cv.take(k + 1).last() == cv[k as int]);
        let c = &cands[k];
        if is_reported(files, c) {
            out.append(c.0.as_str());
            out.append(":");
            push_i64(&mut out, c.3);
            out.append(" ");
            out.append(c.2.as_str());
            out.append(" ");
            out.append(c.1.as_str());
            out.append("\n");
        }
        assert(out@ =~= dead_lines(fv, cv.take(k + 1)));
        k += 1;
    }
    assert(cv.take(cands@.len() as int) == cv);
    if chars_of(out.as_str()).len() == 0 {
        let mut r = crate::text::copy_str("no dead code in ");
        r.append(root);
        return r;
    }
    out
}

/// A visible definition is never reported as dead: a candidate whose definition line,
/// without its leading whitespace, opens with `pub ` or `pub(` (`pub(crate)`,
/// `pub(super)`, `pub(in …)`) or is `pub` is left out of the report.
pub proof fn law_visible_items_are_not_dead(files: Seq<(Chars, Seq<Chars>)>, c: (Chars, Chars, Chars, i64))
    requires
        ({
            let t = trim_start(def_line(lines_for(files, c.0), def_index(c.3)));
            starts_with(t, "pub "@) || starts_with(t, "pub("@) || t == "pub"@
        }),
    ensures
        !reported(files, c),
{
}

} // verus!
