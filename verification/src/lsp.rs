//! What the code graph reads of a language server's answers: which server a workspace
//! gets, the symbol a position lies in, a file's outline, and the callers of a name
//! grouped by file and enclosing symbol.

use vstd::prelude::*;

use crate::inject::lex_lt;
use crate::text::{dec_nat, push_u64, views, Chars};
use crate::uri::{kind_name, kind_name_spec};

verus! {

/// A zero-based span of a document: start and end line and character.
pub struct SymRange {
    pub start_line: u64,
    pub start_char: u64,
    pub end_line: u64,
    pub end_char: u64,
}

/// One entry of a `textDocument/documentSymbol` answer.
pub struct DocSymbol {
    pub name: Option<String>,
    pub kind: u64,
    pub range: SymRange,
    pub children: Vec<DocSymbol>,
}

/// The position (`line`, `ch`) lies within `r`, both ends included.
pub open spec fn contains_spec(r: SymRange, line: u64, ch: u64) -> bool {
    (line > r.start_line || (line == r.start_line && ch >= r.start_char)) && (line < r.end_line || (
    line == r.end_line && ch <= r.end_char))
}

/// [`contains_spec`].
pub fn contains(r: &SymRange, line: u64, ch: u64) -> (b: bool)
    ensures
        b == contains_spec(*r, line, ch),
{
    (line > r.start_line || (line == r.start_line && ch >= r.start_char)) && (line < r.end_line || (
    line == r.end_line && ch <= r.end_char))
}

/// The name found so far after looking at `s`: a symbol whose span holds the position
/// names it (when it has a name), and then its children may name it more closely.
pub open spec fn visit(s: DocSymbol, line: u64, ch: u64, best: Chars) -> Chars
    decreases s, 0int,
{
    if contains_spec(s.range, line, ch) {
        let named = match s.name {
            Some(n) => n@,
            None => best,
        };
        walk(s.children@, line, ch, named)
    } else {
        best
    }
}

/// [`visit`] over the symbols `syms`, in order.
pub open spec fn walk(syms: Seq<DocSymbol>, line: u64, ch: u64, best: Chars) -> Chars
    decreases syms, 1int,
{
    if syms.len() == 0 {
        best
    } else {
        visit(syms.last(), line, ch, walk(syms.drop_last(), line, ch, best))
    }
}

/// Visits one symbol ([`visit`]).
fn visit_exec(s: &DocSymbol, line: u64, ch: u64, best: &mut String)
    ensures
        final(best)@ == visit(*s, line, ch, old(best)@),
    decreases s, 0int,
{
    if contains(&s.range, line, ch) {
        if let Some(n) = &s.name {
            *best = crate::text::copy_str(n.as_str());
        }
        walk_exec(&s.children, line, ch, best);
    }
}

/// Visits every symbol of `syms` ([`walk`]).
fn walk_exec(syms: &Vec<DocSymbol>, line: u64, ch: u64, best: &mut String)
    ensures
        final(best)@ == walk(syms@, line, ch, old(best)@),
    decreases syms@, 1int,
{
    let ghost start = best@;
    let mut i: usize = 0;
    while i < syms.len()
        invariant
            i <= syms@.len(),
            best@ == walk(syms@.take(i as int), line, ch, start),
        decreases syms@.len() - i,
    {
        assert(syms@.take(i + 1).drop_last() == syms@.take(i as int));
        assert(syms@.take(i + 1).last() == syms@[i as int]);
        visit_exec(&syms[i], line, ch, best);
        i += 1;
    }
    assert(syms@.take(syms@.len() as int) == syms@);
}

/// The innermost named symbol whose span holds the position (a later sibling over an
/// earlier one), or empty when none does: the scope a reference is made from.
pub fn enclosing(syms: &Vec<DocSymbol>, line: u64, ch: u64) -> (r: String)
    ensures
        r@ == walk(syms@, line, ch, Seq::empty()),
{
    let mut best = String::new();
    walk_exec(syms, line, ch, &mut best);
    best
}

/// How an outline line names a kind: `fn` for a function or method, the kind's name
/// otherwise.
pub open spec fn prefix_spec(kind: u64) -> Chars {
    if kind == 6 || kind == 12 {
        "fn"@
    } else {
        kind_name_spec(kind)
    }
}

/// One outline line: kind, name (empty when it has none) and 1-based line.
pub open spec fn outline_line(s: DocSymbol) -> Chars {
    prefix_spec(s.kind) + " "@ + match s.name {
        Some(n) => n@,
        None => Seq::empty(),
    } + " "@ + dec_nat(s.range.start_line as nat + 1) + "\n"@
}

/// A symbol's outline: its own line, then its children's, depth first.
pub open spec fn outline_of(s: DocSymbol) -> Chars
    decreases s, 0int,
{
    outline_line(s) + outline_all(s.children@)
}

/// The outlines of `syms`, in order.
pub open spec fn outline_all(syms: Seq<DocSymbol>) -> Chars
    decreases syms, 1int,
{
    if syms.len() == 0 {
        Seq::empty()
    } else {
        outline_all(syms.drop_last()) + outline_of(syms.last())
    }
}

/// Every start line under `s` can be counted from one.
pub open spec fn lines_ok(s: DocSymbol) -> bool
    decreases s, 0int,
{
    s.range.start_line < u64::MAX && lines_ok_all(s.children@)
}

/// [`lines_ok`] of every symbol of `syms`.
pub open spec fn lines_ok_all(syms: Seq<DocSymbol>) -> bool
    decreases syms, 1int,
{
    if syms.len() == 0 {
        true
    } else {
        lines_ok_all(syms.drop_last()) && lines_ok(syms.last())
    }
}

/// Each symbol of a list whose lines can be counted has lines that can be counted.
proof fn lemma_lines_ok_at(syms: Seq<DocSymbol>, k: int)
    requires
        lines_ok_all(syms),
        0 <= k < syms.len(),
    ensures
        lines_ok(syms[k]),
    decreases syms.len(),
{
    if k < syms.len() - 1 {
        lemma_lines_ok_at(syms.drop_last(), k);
    }
}

/// Appends one symbol's outline ([`outline_of`]).
fn outline_one(s: &DocSymbol, out: &mut String)
    requires
        lines_ok(*s),
    ensures
        final(out)@ == old(out)@ + outline_of(*s),
    decreases s, 0int,
{
    proof {
        reveal_strlit("fn");
    }
    let prefix: &str = if s.kind == 6 || s.kind == 12 {
        "fn"
    } else {
        kind_name(s.kind)
    };
    let ghost before = out@;
    out.append(prefix);
    out.append(" ");
    if let Some(n) = &s.name {
        out.append(n.as_str());
    }
    out.append(" ");
    push_u64(out, s.range.start_line + 1);
    out.append("\n");
    assert(out@ =~= before + outline_line(*s));
    flatten(&s.children, out);
    assert(out@ =~= before + outline_of(*s));
}

/// A file's outline: one `kind name line` line per symbol, children after their parent.
pub fn flatten(syms: &Vec<DocSymbol>, out: &mut String)
    requires
        lines_ok_all(syms@),
    ensures
        final(out)@ == old(out)@ + outline_all(syms@),
    decreases syms@, 1int,
{
    let ghost start = out@;
    let mut i: usize = 0;
    while i < syms.len()
        invariant
            i <= syms@.len(),
            lines_ok_all(syms@),
            out@ == start + outline_all(syms@.take(i as int)),
        decreases syms@.len() - i,
    {
        assert(syms@.take(i + 1).drop_last() == syms@.take(i as int));
        assert(syms@.take(i + 1).last() == syms@[i as int]);
        proof {
            lemma_lines_ok_at(syms@, i as int);
        }
        let ghost before = out@;
        outline_one(&syms[i], out);
        assert(out@ =~= start + outline_all(syms@.take(i + 1)));
        i += 1;
    }
    assert(syms@.take(syms@.len() as int) == syms@);
}

/// The language server a workspace gets, by the first marker file it holds: Cargo →
/// rust-analyzer, a compilation database → clangd, a TypeScript config → the TypeScript
/// server over stdio, a pubspec → Dart's server; none when it holds none of them.
pub open spec fn server_spec(cargo: bool, compile_commands: bool, tsconfig: bool, pubspec: bool) -> Option<(Chars, Seq<Chars>)> {
    if cargo {
        Some(("rust-analyzer"@, Seq::empty()))
    } else if compile_commands {
        Some(("clangd"@, Seq::empty()))
    } else if tsconfig {
        Some(("typescript-language-server"@, seq!["--stdio"@]))
    } else if pubspec {
        Some(("dart"@, seq!["language-server"@]))
    } else {
        None
    }
}

/// [`server_spec`]: the server's program and arguments.
pub fn pick_server(cargo: bool, compile_commands: bool, tsconfig: bool, pubspec: bool) -> (r: Option<(String, Vec<String>)>)
    ensures
        match server_spec(cargo, compile_commands, tsconfig, pubspec) {
            Some(want) => r matches Some(got) && got.0@ == want.0 && crate::text::views(got.1@) == want.1,
            None => r is None,
        },
{
    if cargo {
        let args: Vec<String> = Vec::new();
        assert(crate::text::views(args@) =~= Seq::<Chars>::empty());
        Some(("rust-analyzer".to_owned(), args))
    } else if compile_commands {
        let args: Vec<String> = Vec::new();
        assert(crate::text::views(args@) =~= Seq::<Chars>::empty());
        Some(("clangd".to_owned(), args))
    } else if tsconfig {
        let mut args: Vec<String> = Vec::new();
        args.push("--stdio".to_owned());
        assert(crate::text::views(args@) =~= seq!["--stdio"@]);
        Some(("typescript-language-server".to_owned(), args))
    } else if pubspec {
        let mut args: Vec<String> = Vec::new();
        args.push("language-server".to_owned());
        assert(crate::text::views(args@) =~= seq!["language-server"@]);
        Some(("dart".to_owned(), args))
    } else {
        None
    }
}

/// One reference to a name: the file it is in (relative to the workspace), the symbol it
/// is made from (empty at file level), and its 1-based line.
pub struct RefSite {
    pub path: String,
    pub scope: String,
    pub line: i32,
}

/// The references made from one symbol of one file: how many, and the first line.
pub struct RefGroup {
    pub path: String,
    pub scope: String,
    pub count: u64,
    pub line: i32,
}

/// A reference as a value: its key (file, symbol) and its line.
pub open spec fn site_view(r: RefSite) -> ((Chars, Chars), i32) {
    ((r.path@, r.scope@), r.line)
}

/// The references as values.
pub open spec fn sites_view(v: Seq<RefSite>) -> Seq<((Chars, Chars), i32)> {
    Seq::new(v.len(), |i: int| site_view(v[i]))
}

/// A group as a value: its key, count and first line.
pub open spec fn group_view(g: RefGroup) -> ((Chars, Chars), u64, i32) {
    ((g.path@, g.scope@), g.count, g.line)
}

/// The groups as values.
pub open spec fn groups_view(v: Seq<RefGroup>) -> Seq<((Chars, Chars), u64, i32)> {
    Seq::new(v.len(), |i: int| group_view(v[i]))
}

/// Keys in order: by file, then by symbol, each in character order.
pub open spec fn key_lt(a: (Chars, Chars), b: (Chars, Chars)) -> bool {
    lex_lt(a.0, b.0) || (a.0 == b.0 && lex_lt(a.1, b.1))
}

/// How many of `refs` carry `key`.
pub open spec fn count_key(refs: Seq<((Chars, Chars), i32)>, key: (Chars, Chars)) -> nat
    decreases refs.len(),
{
    if refs.len() == 0 {
        0
    } else {
        count_key(refs.drop_last(), key) + if refs.last().0 == key {
            1nat
        } else {
            0nat
        }
    }
}

/// The first line of the references that carry `key` (none when none does).
pub open spec fn first_line(refs: Seq<((Chars, Chars), i32)>, key: (Chars, Chars)) -> Option<i32>
    decreases refs.len(),
{
    if refs.len() == 0 {
        None
    } else {
        let prev = first_line(refs.drop_last(), key);
        if refs.last().0 == key {
            match prev {
                Some(l) => if refs.last().1 < l {
                    Some(refs.last().1)
                } else {
                    prev
                },
                None => Some(refs.last().1),
            }
        } else {
            prev
        }
    }
}

/// The references grouped by file and symbol: one group per key that some reference
/// carries, in key order, each with its count and first line.
pub open spec fn grouped(groups: Seq<((Chars, Chars), u64, i32)>, refs: Seq<((Chars, Chars), i32)>) -> bool {
    &&& forall|i: int, j: int| 0 <= i < j < groups.len() ==> key_lt(groups[i].0, groups[j].0)
    &&& forall|i: int| 0 <= i < groups.len() ==> count_key(refs, #[trigger] groups[i].0) == groups[i].1
        && first_line(refs, groups[i].0) == Some(groups[i].2)
    &&& forall|k: int| 0 <= k < refs.len() ==> has_key(groups, #[trigger] refs[k].0)
}

/// Some group carries `key`.
pub open spec fn has_key(groups: Seq<((Chars, Chars), u64, i32)>, key: (Chars, Chars)) -> bool {
    exists|i: int| 0 <= i < groups.len() && groups[i].0 == key
}

/// `lex_lt` never holds both ways, nor of a text and itself.
proof fn lemma_lex_asym(a: Chars, b: Chars)
    ensures
        lex_lt(a, b) ==> !lex_lt(b, a),
        !lex_lt(a, a),
    decreases a.len(),
{
    if a.len() > 0 && b.len() > 0 && a[0] == b[0] {
        lemma_lex_asym(a.drop_first(), b.drop_first());
    }
    if a.len() > 0 {
        lemma_lex_asym(a.drop_first(), a.drop_first());
    }
}

/// Two different texts are in `lex_lt` order one way or the other.
proof fn lemma_lex_total(a: Chars, b: Chars)
    ensures
        a != b ==> lex_lt(a, b) || lex_lt(b, a),
    decreases a.len(),
{
    if a.len() > 0 && b.len() > 0 && a[0] == b[0] {
        lemma_lex_total(a.drop_first(), b.drop_first());
        if a.drop_first() == b.drop_first() {
            assert(a =~= seq![a[0]] + a.drop_first());
            assert(b =~= seq![b[0]] + b.drop_first());
        }
    }
    if a.len() == 0 && b.len() == 0 {
        assert(a =~= b);
    }
    if a.len() > 0 && b.len() > 0 && a[0] != b[0] {
        vstd::utf8::char_u32_cast(a[0], a[0] as u32);
        vstd::utf8::char_u32_cast(b[0], b[0] as u32);
    }
}

/// `lex_lt` is transitive.
proof fn lemma_lex_trans(a: Chars, b: Chars, c: Chars)
    requires
        lex_lt(a, b),
        lex_lt(b, c),
    ensures
        lex_lt(a, c),
    decreases a.len(),
{
    if a.len() > 0 && b.len() > 0 && c.len() > 0 && a[0] == b[0] && b[0] == c[0] {
        lemma_lex_trans(a.drop_first(), b.drop_first(), c.drop_first());
    }
}

/// Keys are totally and strictly ordered.
proof fn lemma_key_order(a: (Chars, Chars), b: (Chars, Chars), c: (Chars, Chars))
    ensures
        !key_lt(a, a),
        key_lt(a, b) ==> !key_lt(b, a),
        a != b ==> key_lt(a, b) || key_lt(b, a),
        key_lt(a, b) && key_lt(b, c) ==> key_lt(a, c),
{
    lemma_lex_asym(a.0, b.0);
    lemma_lex_asym(a.1, b.1);
    lemma_lex_total(a.0, b.0);
    lemma_lex_total(a.1, b.1);
    if key_lt(a, b) && key_lt(b, c) {
        if lex_lt(a.0, b.0) && lex_lt(b.0, c.0) {
            lemma_lex_trans(a.0, b.0, c.0);
        }
        if a.0 == b.0 && b.0 == c.0 && lex_lt(a.1, b.1) && lex_lt(b.1, c.1) {
            lemma_lex_trans(a.1, b.1, c.1);
        }
    }
    if a != b && a.0 == b.0 {
        assert(a.1 != b.1);
    }
}

/// `a` before `b` in character order ([`lex_lt`]).
fn chars_lt(a: &str, b: &str) -> (r: bool)
    ensures
        r == lex_lt(a@, b@),
{
    let x = crate::text::chars_of(a);
    let y = crate::text::chars_of(b);
    let mut i: usize = 0;
    assert(x@.skip(0) == x@ && y@.skip(0) == y@);
    while i < x.len() && i < y.len() && x[i] == y[i]
        invariant
            i <= x@.len(),
            i <= y@.len(),
            lex_lt(x@, y@) == lex_lt(x@.skip(i as int), y@.skip(i as int)),
        decreases x@.len() - i,
    {
        assert(x@.skip(i as int).drop_first() == x@.skip(i + 1));
        assert(y@.skip(i as int).drop_first() == y@.skip(i + 1));
        i += 1;
    }
    if i == x.len() {
        i < y.len()
    } else if i == y.len() {
        false
    } else {
        (x[i] as u32) < (y[i] as u32)
    }
}

/// `a`'s key sorts before `b`'s ([`key_lt`]).
fn group_before(g: &RefGroup, r: &RefSite) -> (b: bool)
    ensures
        b == key_lt(group_view(*g).0, site_view(*r).0),
{
    if chars_lt(g.path.as_str(), r.path.as_str()) {
        return true;
    }
    crate::text::str_eq(g.path.as_str(), r.path.as_str()) && chars_lt(g.scope.as_str(), r.scope.as_str())
}

/// No reference carries a key that counts none, and the first line exists exactly when
/// the count is not zero.
proof fn lemma_count_zero(refs: Seq<((Chars, Chars), i32)>, key: (Chars, Chars))
    ensures
        count_key(refs, key) == 0 <==> forall|k: int| 0 <= k < refs.len() ==> refs[k].0 != key,
        first_line(refs, key) is None <==> count_key(refs, key) == 0,
    decreases refs.len(),
{
    if refs.len() > 0 {
        let p = refs.drop_last();
        lemma_count_zero(p, key);
        if count_key(refs, key) == 0 {
            assert forall|k: int| 0 <= k < refs.len() implies refs[k].0 != key by {
                if k < refs.len() - 1 {
                    assert(p[k] == refs[k]);
                }
            }
        } else {
            if refs.last().0 != key {
                let k = choose|k: int| 0 <= k < p.len() && !(p[k].0 != key);
                assert(refs[k] == p[k]);
            }
        }
    }
}

/// The references grouped by file and symbol ([`grouped`]).
pub fn group_references(refs: &[RefSite]) -> (r: Vec<RefGroup>)
    ensures
        grouped(groups_view(r@), sites_view(refs@)),
{
    let ghost sv = sites_view(refs@);
    let mut groups: Vec<RefGroup> = Vec::new();
    let mut i: usize = 0;
    assert(sv.take(0) =~= Seq::<((Chars, Chars), i32)>::empty());
    while i < refs.len()
        invariant
            i <= refs@.len(),
            sv == sites_view(refs@),
            grouped(groups_view(groups@), sv.take(i as int)),
            groups@.len() <= i,
        decreases refs@.len() - i,
    {
        let r = &refs[i];
        let ghost key = site_view(*r).0;
        let ghost gv = groups_view(groups@);
        let ghost before = sv.take(i as int);
        let ghost after = sv.take(i + 1);
        assert(after.drop_last() =~= before);
        assert(after.last() == site_view(*r));
        let mut j: usize = 0;
        while j < groups.len() && group_before(&groups[j], r)
            invariant
                j <= groups@.len(),
                gv == groups_view(groups@),
                key == site_view(*r).0,
                forall|m: int| 0 <= m < j ==> key_lt(#[trigger] gv[m].0, key),
            decreases groups@.len() - j,
        {
            assert(gv[j as int] == group_view(groups@[j as int]));
            j += 1;
        }
        let same = j < groups.len() && crate::text::str_eq(groups[j].path.as_str(), r.path.as_str())
            && crate::text::str_eq(groups[j].scope.as_str(), r.scope.as_str());
        proof {
            assert forall|m: int| j <= m < gv.len() implies key_lt(key, #[trigger] gv[m].0) || gv[m].0 == key by {
                lemma_key_order(gv[j as int].0, key, gv[m].0);
                lemma_key_order(key, gv[j as int].0, gv[m].0);
                if m > j {
                    assert(key_lt(gv[j as int].0, gv[m].0));
                }
            }
        }
        if same {
            assert(gv[j as int] == group_view(groups@[j as int]));
            let g = groups.remove(j);
            let ghost gk = group_view(g).0;
            assert(gv[j as int] == group_view(g));
            assert(gk == key);
            let line = if r.line < g.line {
                r.line
            } else {
                g.line
            };
            assert(g.count == count_key(before, key));
            assert(g.count <= i) by {
                lemma_count_le(before, key);
            }
            groups.insert(j, RefGroup { path: g.path, scope: g.scope, count: g.count + 1, line });
            proof {
                let nv = groups_view(groups@);
                assert(nv =~= gv.update(j as int, (key, (g.count + 1) as u64, line)));
                assert forall|m: int| 0 <= m < nv.len() implies count_key(after, #[trigger] nv[m].0) == nv[m].1
                    && first_line(after, nv[m].0) == Some(nv[m].2) by {
                    if m != j {
                        lemma_key_order(nv[m].0, key, key);
                        if m < j {
                            assert(key_lt(gv[m].0, gv[j as int].0));
                        } else {
                            assert(key_lt(gv[j as int].0, gv[m].0));
                        }
                    }
                }
                assert forall|k: int| 0 <= k < after.len() implies has_key(nv, #[trigger] after[k].0) by {
                    if k < before.len() {
                        assert(after[k] == before[k]);
                        assert(has_key(gv, before[k].0));
                        let w = choose|w: int| 0 <= w < gv.len() && gv[w].0 == before[k].0;
                        assert(nv[w].0 == gv[w].0);
                    } else {
                        assert(nv[j as int].0 == key);
                    }
                }
            }
        } else {
            proof {
                if j < gv.len() {
                    assert(gv[j as int] == group_view(groups@[j as int]));
                    assert(gv[j as int].0 != key);
                    assert(!key_lt(gv[j as int].0, key));
                    lemma_key_order(key, gv[j as int].0, key);
                    assert(key_lt(key, gv[j as int].0));
                }
                assert forall|m: int| 0 <= m < gv.len() implies gv[m].0 != key by {
                    lemma_key_order(gv[m].0, key, key);
                    if m > j {
                        assert(key_lt(gv[j as int].0, gv[m].0));
                        lemma_key_order(key, gv[j as int].0, gv[m].0);
                        lemma_key_order(gv[m].0, key, key);
                    }
                }
                assert forall|k: int| 0 <= k < before.len() implies before[k].0 != key by {
                    assert(has_key(gv, before[k].0));
                }
                lemma_count_zero(before, key);
            }
            groups.insert(j, RefGroup {
                path: crate::text::copy_str(r.path.as_str()),
                scope: crate::text::copy_str(r.scope.as_str()),
                count: 1,
                line: r.line,
            });
            proof {
                let nv = groups_view(groups@);
                assert(nv =~= gv.insert(j as int, (key, 1u64, r.line)));
                assert forall|a: int, b: int| 0 <= a < b < nv.len() implies key_lt(nv[a].0, nv[b].0) by {
                    if a < j && b == j {
                    } else if a < j && b > j {
                        assert(key_lt(gv[a].0, gv[b - 1].0));
                    } else if a == j {
                        assert(gv[b - 1].0 != key);
                    } else if a > j {
                        assert(key_lt(gv[a - 1].0, gv[b - 1].0));
                    }
                }
                assert forall|m: int| 0 <= m < nv.len() implies count_key(after, #[trigger] nv[m].0) == nv[m].1
                    && first_line(after, nv[m].0) == Some(nv[m].2) by {
                    if m < j {
                        assert(nv[m] == gv[m]);
                    } else if m > j {
                        assert(nv[m] == gv[m - 1]);
                    }
                }
                assert forall|k: int| 0 <= k < after.len() implies has_key(nv, #[trigger] after[k].0) by {
                    if k < before.len() {
                        assert(after[k] == before[k]);
                        assert(has_key(gv, before[k].0));
                        let w = choose|w: int| 0 <= w < gv.len() && gv[w].0 == before[k].0;
                        if w < j {
                            assert(nv[w].0 == gv[w].0);
                        } else {
                            assert(nv[w + 1].0 == gv[w].0);
                        }
                    } else {
                        assert(nv[j as int].0 == key);
                    }
                }
            }
        }
        i += 1;
    }
    assert(sv.take(sv.len() as int) =~= sv);
    groups
}

/// A key is carried by no more references than there are.
proof fn lemma_count_le(refs: Seq<((Chars, Chars), i32)>, key: (Chars, Chars))
    ensures
        count_key(refs, key) <= refs.len(),
    decreases refs.len(),
{
    if refs.len() > 0 {
        lemma_count_le(refs.drop_last(), key);
    }
}

/// One line of the callers answer: the file, the symbol the calls are made from (when
/// not at file level), how many, and the first line.
pub open spec fn caller_line(g: ((Chars, Chars), u64, i32)) -> Chars {
    g.0.0 + (if g.0.1.len() == 0 {
        Seq::empty()
    } else {
        "  "@ + g.0.1
    }) + " ×"@ + dec_nat(g.1 as nat) + " (L"@ + crate::text::dec_int(g.2 as int) + ")\n"@
}

/// The lines of the first `k` groups whose file the filter lets through.
pub open spec fn caller_lines(groups: Seq<((Chars, Chars), u64, i32)>, filter_path: Chars, k: int) -> Chars
    decreases k,
{
    if k <= 0 {
        Seq::empty()
    } else {
        let prev = caller_lines(groups, filter_path, k - 1);
        if filter_path.len() == 0 || crate::text::contains(groups[k - 1].0.0, filter_path) {
            prev + caller_line(groups[k - 1])
        } else {
            prev
        }
    }
}

/// The callers answer: a line per group the filter lets through, or `no references to
/// <name>` with the filter's note when none is left.
pub open spec fn callers_spec(groups: Seq<((Chars, Chars), u64, i32)>, name: Chars, filter_path: Chars, filter_kind: Chars) -> Chars {
    let text = caller_lines(groups, filter_path, groups.len() as int);
    if text.len() == 0 {
        "no references to "@ + name + crate::graph::scope_note_spec(filter_path, filter_kind)
    } else {
        text
    }
}

/// [`callers_spec`].
pub fn callers_text(groups: &[RefGroup], name: &str, filter: &crate::graph::Filter) -> (r: String)
    ensures
        r@ == callers_spec(groups_view(groups@), name@, filter.path@, filter.kind@),
{
    let ghost gv = groups_view(groups@);
    let mut out = String::new();
    let mut i: usize = 0;
    while i < groups.len()
        invariant
            i <= groups@.len(),
            gv == groups_view(groups@),
            out@ == caller_lines(gv, filter.path@, i as int),
        decreases groups@.len() - i,
    {
        let g = &groups[i];
        assert(gv[i as int] == group_view(*g));
        if filter.path_ok(g.path.as_str()) {
            let ghost before = out@;
            out.append(g.path.as_str());
            if crate::text::chars_of(g.scope.as_str()).len() > 0 {
                out.append("  ");
                out.append(g.scope.as_str());
            }
            out.append(" ×");
            push_u64(&mut out, g.count);
            out.append(" (L");
            crate::text::push_i64(&mut out, g.line as i64);
            out.append(")\n");
            assert(out@ =~= before + caller_line(gv[i as int]));
        }
        i += 1;
    }
    if crate::text::chars_of(out.as_str()).len() == 0 {
        let mut s = "no references to ".to_owned();
        s.append(name);
        let note = filter.scope_note();
        s.append(note.as_str());
        return s;
    }
    out
}

/// The value of a run of decimal digits.
pub open spec fn digits_value(d: Chars) -> nat
    decreases d.len(),
{
    if d.len() == 0 {
        0
    } else {
        digits_value(d.drop_last()) * 10 + ((d.last() as u32) - ('0' as u32)) as nat
    }
}

/// Every character of `d` is an ASCII digit.
pub open spec fn all_digits(d: Chars) -> bool {
    forall|i: int| 0 <= i < d.len() ==> '0' <= #[trigger] d[i] <= '9'
}

/// `str::parse::<usize>`: an optional `+`, then at least one digit and nothing else, of a
/// value that fits.
pub open spec fn parse_usize_spec(s: Chars) -> Option<nat> {
    let d = if s.len() > 0 && s[0] == '+' {
        s.skip(1)
    } else {
        s
    };
    if d.len() > 0 && all_digits(d) && digits_value(d) <= usize::MAX {
        Some(digits_value(d))
    } else {
        None
    }
}

/// [`parse_usize_spec`].
pub fn parse_usize(s: &str) -> (r: Option<usize>)
    ensures
        match r {
            Some(n) => parse_usize_spec(s@) == Some(n as nat),
            None => parse_usize_spec(s@) is None,
        },
{
    let c = crate::text::chars_of(s);
    let start: usize = if c.len() > 0 && c[0] == '+' {
        1
    } else {
        0
    };
    let ghost d = if s@.len() > 0 && s@[0] == '+' {
        s@.skip(1)
    } else {
        s@
    };
    assert(d =~= c@.skip(start as int));
    if c.len() == start {
        return None;
    }
    let mut v: u128 = 0;
    let mut i = start;
    while i < c.len()
        invariant
            start <= i <= c@.len(),
            c@ == s@,
            d == (if s@.len() > 0 && s@[0] == '+' {
                s@.skip(1)
            } else {
                s@
            }),
            d == c@.skip(start as int),
            all_digits(d.take(i - start)),
            v == digits_value(d.take(i - start)),
            v <= usize::MAX,
        decreases c@.len() - i,
    {
        let ch = c[i];
        assert(d.take(i + 1 - start).drop_last() =~= d.take(i - start));
        assert(d.take(i + 1 - start).last() == ch);
        assert(d[i - start] == ch);
        if !('0' <= ch && ch <= '9') {
            assert(!all_digits(d));
            return None;
        }
        let digit = (ch as u32 - '0' as u32) as u128;
        let next = v * 10 + digit;
        assert(all_digits(d.take(i + 1 - start))) by {
            assert forall|m: int| 0 <= m < i + 1 - start implies '0' <= #[trigger] d.take(i + 1 - start)[m] <= '9' by {
                if m < i - start {
                    assert(d.take(i + 1 - start)[m] == d.take(i - start)[m]);
                }
            }
        }
        assert(next == digits_value(d.take(i + 1 - start)));
        if next > usize::MAX as u128 {
            proof {
                lemma_digits_grow(d, (i + 1 - start) as int);
            }
            return None;
        }
        v = next;
        i += 1;
    }
    assert(d.take(c@.len() - start) =~= d);
    Some(v as usize)
}

/// A longer run of digits is worth at least as much as its prefix.
proof fn lemma_digits_grow(d: Chars, k: int)
    requires
        0 <= k <= d.len(),
        all_digits(d.take(k)),
    ensures
        digits_value(d.take(k)) <= digits_value(d) || !all_digits(d),
    decreases d.len() - k,
{
    if k < d.len() && all_digits(d) {
        assert(all_digits(d.take(k + 1)));
        lemma_digits_grow(d, k + 1);
        assert(d.take(k + 1).drop_last() =~= d.take(k));
    } else if k == d.len() {
        assert(d.take(k) =~= d);
    }
}

/// One header line of a language-server message.
pub enum HeaderLine {
    /// The blank line that ends the header.
    End,
    /// A `Content-Length` header, with its value when it is a number.
    Length(Option<usize>),
    /// Any other header.
    Other,
}

/// What a header line says: the blank line (`\r\n` or `\n`) ends the header; a line
/// whose name before the first `:` is `content-length`, in any ASCII case, gives the body's
/// length, trimmed and parsed.
pub open spec fn header_line_spec(line: Chars) -> Option<Option<nat>> {
    if line == "\r\n"@ || line == "\n"@ {
        None
    } else {
        match crate::text::find_spec(line, ":"@) {
            Some(i) => if crate::path::eq_ignore_case(line.take(i), "content-length"@) {
                Some(parse_usize_spec(crate::text::trim(line.skip(i + 1))))
            } else {
                Some(None)
            },
            None => Some(None),
        }
    }
}

/// [`header_line_spec`]: `End` for `None`; `Length` for a `content-length` line; `Other` else.
pub fn header_line(line: &str) -> (r: HeaderLine)
    ensures
        match r {
            HeaderLine::End => header_line_spec(line@) is None,
            HeaderLine::Length(v) => exists|i: int| {
                &&& crate::text::find_spec(line@, ":"@) == Some(i)
                &&& crate::path::eq_ignore_case(line@.take(i), "content-length"@)
                &&& match v {
                    Some(n) => parse_usize_spec(crate::text::trim(line@.skip(i + 1))) == Some(n as nat),
                    None => parse_usize_spec(crate::text::trim(line@.skip(i + 1))) is None,
                }
            },
            HeaderLine::Other => header_line_spec(line@) == Some(None::<nat>) && !(exists|i: int|
                crate::text::find_spec(line@, ":"@) == Some(i) && crate::path::eq_ignore_case(
                    line@.take(i),
                    "content-length"@,
                )),
        },
{
    if crate::text::str_eq(line, "\r\n") || crate::text::str_eq(line, "\n") {
        return HeaderLine::End;
    }
    let c = crate::text::chars_of(line);
    let colon = crate::text::chars_of(":");
    proof {
        reveal_strlit(":");
    }
    assert(colon@.len() == 1);
    match crate::text::find(c.as_slice(), colon.as_slice()) {
        Some(i) => {
            let n = c.len();
            assert(i + 1 <= n);
            let name = crate::text::take_chars(c.as_slice(), i);
            if eq_ignore_ascii_case(name.as_slice(), "content-length") {
                let rest = crate::text::skip_chars(c.as_slice(), i + 1);
                let value = crate::text::trim_chars(rest.as_slice());
                let text = crate::text::string_from(value.as_slice());
                HeaderLine::Length(parse_usize(text.as_str()))
            } else {
                HeaderLine::Other
            }
        },
        None => HeaderLine::Other,
    }
}

/// `a.eq_ignore_ascii_case(lit)`.
fn eq_ignore_ascii_case(a: &[char], lit: &str) -> (r: bool)
    ensures
        r == crate::path::eq_ignore_case(a@, lit@),
{
    let b = crate::text::chars_of(lit);
    if a.len() != b.len() {
        return false;
    }
    let mut i: usize = 0;
    while i < a.len()
        invariant
            i <= a@.len(),
            a@.len() == b@.len(),
            b@ == lit@,
            forall|m: int| 0 <= m < i ==> crate::path::lower_ascii(a@[m]) == crate::path::lower_ascii(b@[m]),
        decreases a@.len() - i,
    {
        let x = if 'A' <= a[i] && a[i] <= 'Z' {
            ((a[i] as u8) + 32) as char
        } else {
            a[i]
        };
        let y = if 'A' <= b[i] && b[i] <= 'Z' {
            ((b[i] as u8) + 32) as char
        } else {
            b[i]
        };
        if x != y {
            return false;
        }
        i += 1;
    }
    true
}

/// The header that frames a message body of `n` bytes.
pub fn frame_header(n: usize) -> (r: String)
    ensures
        r@ == "Content-Length: "@ + dec_nat(n as nat) + "\r\n\r\n"@,
{
    let mut s = "Content-Length: ".to_owned();
    push_u64(&mut s, n as u64);
    s.append("\r\n\r\n");
    s
}

/// How many levels the impact walk goes: the asked depth, at least one and at most four.
pub fn impact_depth(depth: u32) -> (r: u32)
    ensures
        r == if depth < 1 {
            1
        } else if depth > 4 {
            4
        } else {
            depth
        },
{
    if depth < 1 {
        1
    } else if depth > 4 {
        4
    } else {
        depth
    }
}

/// One line of the impact answer: the level, the caller's file, and its name (`(file)`
/// for a call at file level).
pub open spec fn impact_line_spec(depth: u32, path: Chars, name: Chars) -> Chars {
    dec_nat(depth as nat) + "  "@ + path + "  "@ + if name.len() == 0 {
        "(file)"@
    } else {
        name
    } + "\n"@
}

/// The walk's state after the first `k` incoming calls of one level: the names seen, the
/// lines written, and the calls the next level starts from. A name already seen is
/// skipped; a new name is marked seen, and then skipped if the filter refuses its file.
pub open spec fn impact_visit_spec(
    seen: Seq<Chars>,
    out: Chars,
    calls: Seq<(Chars, Chars)>,
    depth: u32,
    filter_path: Chars,
    k: int,
) -> (Seq<Chars>, Chars, Seq<int>)
    decreases k,
{
    if k <= 0 {
        (seen, out, Seq::empty())
    } else {
        let (s, o, next) = impact_visit_spec(seen, out, calls, depth, filter_path, k - 1);
        let (name, path) = calls[k - 1];
        if s.contains(name) {
            (s, o, next)
        } else if filter_path.len() == 0 || crate::text::contains(path, filter_path) {
            (s.push(name), o + impact_line_spec(depth, path, name), next.push(k - 1))
        } else {
            (s.push(name), o, next)
        }
    }
}

/// Incoming calls as values.
pub open spec fn calls_view(v: Seq<(String, String)>) -> Seq<(Chars, Chars)> {
    Seq::new(v.len(), |i: int| (v[i].0@, v[i].1@))
}

/// One level of the impact walk over the incoming `calls` (caller name, caller file):
/// updates the names seen and the answer, and returns which calls the next level starts
/// from ([`impact_visit_spec`]).
pub fn impact_visit(
    seen: &mut Vec<String>,
    out: &mut String,
    calls: &[(String, String)],
    depth: u32,
    filter: &crate::graph::Filter,
) -> (next: Vec<usize>)
    ensures
        ({
            let (s, o, n) = impact_visit_spec(
                views(old(seen)@),
                old(out)@,
                calls_view(calls@),
                depth,
                filter.path@,
                calls@.len() as int,
            );
            &&& views(final(seen)@) == s
            &&& final(out)@ == o
            &&& Seq::new(next@.len(), |i: int| next@[i] as int) == n
        }),
{
    let ghost s0 = views(seen@);
    let ghost o0 = out@;
    let ghost cv = calls_view(calls@);
    let mut next: Vec<usize> = Vec::new();
    let mut i: usize = 0;
    while i < calls.len()
        invariant
            i <= calls@.len(),
            cv == calls_view(calls@),
            ({
                let (s, o, n) = impact_visit_spec(s0, o0, cv, depth, filter.path@, i as int);
                &&& views(seen@) == s
                &&& out@ == o
                &&& Seq::new(next@.len(), |m: int| next@[m] as int) == n
            }),
        decreases calls@.len() - i,
    {
        let name = calls[i].0.as_str();
        let path = calls[i].1.as_str();
        assert(cv[i as int] == (name@, path@));
        let mut known = false;
        let mut j: usize = 0;
        while j < seen.len()
            invariant
                j <= seen@.len(),
                known == exists|m: int| 0 <= m < j && seen@[m]@ == name@,
            decreases seen@.len() - j,
        {
            if crate::text::str_eq(seen[j].as_str(), name) {
                known = true;
            }
            j += 1;
        }
        assert(known == views(seen@).contains(name@)) by {
            if known {
                let m = choose|m: int| 0 <= m < seen@.len() && seen@[m]@ == name@;
                assert(views(seen@)[m] == name@);
            }
            if views(seen@).contains(name@) {
                let m = choose|m: int| 0 <= m < views(seen@).len() && views(seen@)[m] == name@;
                assert(seen@[m]@ == name@);
            }
        }
        if !known {
            let ghost sb = seen@;
            seen.push(crate::text::copy_str(name));
            assert(views(seen@) =~= views(sb).push(name@));
            if filter.path_ok(path) {
                let ghost ob = out@;
                push_u64(out, depth as u64);
                out.append("  ");
                out.append(path);
                out.append("  ");
                if crate::text::chars_of(name).len() == 0 {
                    out.append("(file)");
                } else {
                    out.append(name);
                }
                out.append("\n");
                assert(out@ =~= ob + impact_line_spec(depth, path@, name@));
                let ghost nb = next@;
                next.push(i);
                assert(Seq::new(next@.len(), |m: int| next@[m] as int) =~= Seq::new(nb.len(), |m: int| nb[m] as int).push(i as int));
            }
        }
        i += 1;
    }
    next
}

} // verus!
