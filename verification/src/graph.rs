//! The `graph` plugin's text: filters on `symbol` / `callers` / `impact`, the lines those
//! tools print, test commands for affected files, and the `explore` answer assembled from
//! a backend's pieces.

use vstd::prelude::*;

use crate::plugin::{declares, DashboardPage, Manifest, Surface};
use crate::text::{
    chars_of, contains, dec_nat, find_spec, join, join_strings, lines, lines_vec, push_all,
    push_u64, split_char, split_vec, starts_with, str_eq, string_from, views, Chars,
};

verus! {

/// Catalogue plugin `graph`: symbol / callers / impact from a tags index.
pub struct Graph;

impl Graph {
    pub fn manifest(&self) -> (m: Manifest)
        ensures
            declares(m, "graph"@, seq![Surface::Mcp], true),
    {
        let mut surfaces: Vec<Surface> = Vec::new();
        surfaces.push(Surface::Mcp);
        assert(surfaces@ =~= seq![Surface::Mcp]);
        Manifest { id: "graph", surfaces, default_on: true }
    }

    pub fn dashboard_page(&self) -> (p: DashboardPage)
        ensures
            p.title@ == "Graph"@,
            p.summary@ == "symbol / callers / impact from a tree-sitter-tags index."@,
            p.saves_tokens,
    {
        DashboardPage {
            title: "Graph",
            summary: "symbol / callers / impact from a tree-sitter-tags index.",
            saves_tokens: true,
        }
    }
}

// ---------------------------------------------------------------------------------------
// Filter
// ---------------------------------------------------------------------------------------

/// Optional narrow-down for `symbol` / `callers` / `impact`: a `path` substring and an
/// exact `kind` (on `symbol`); empty means no filter.
pub struct Filter {
    pub path: String,
    pub kind: String,
}

/// The ` in <path>` / ` of kind <kind>` suffix of the empty-answer lines.
pub open spec fn scope_note_spec(path: Chars, kind: Chars) -> Chars {
    (if path.len() > 0 {
        " in "@ + path
    } else {
        Seq::empty()
    }) + (if kind.len() > 0 {
        " of kind "@ + kind
    } else {
        Seq::empty()
    })
}

impl Filter {
    /// No filter at all.
    pub fn none() -> (f: Self)
        ensures
            f.path@.len() == 0,
            f.kind@.len() == 0,
    {
        Filter { path: String::new(), kind: String::new() }
    }

    /// A path passes an empty filter, or one it contains.
    pub fn path_ok(&self, path: &str) -> (r: bool)
        ensures
            r == (self.path@.len() == 0 || contains(path@, self.path@)),
    {
        let f = chars_of(self.path.as_str());
        if f.len() == 0 {
            return true;
        }
        let p = chars_of(path);
        crate::text::find(p.as_slice(), f.as_slice()).is_some()
    }

    /// A kind passes an empty filter, or the one it names.
    pub fn kind_ok(&self, kind: &str) -> (r: bool)
        ensures
            r == (self.kind@.len() == 0 || kind@ == self.kind@),
    {
        let f = chars_of(self.kind.as_str());
        if f.len() == 0 {
            return true;
        }
        str_eq(kind, self.kind.as_str())
    }

    /// [`scope_note_spec`]: empty without a filter, so unfiltered answers stay byte-exact.
    pub fn scope_note(&self) -> (s: String)
        ensures
            s@ == scope_note_spec(self.path@, self.kind@),
    {
        let mut s = String::new();
        let p = chars_of(self.path.as_str());
        if p.len() > 0 {
            s.append(" in ");
            s.append(self.path.as_str());
        }
        let k = chars_of(self.kind.as_str());
        if k.len() > 0 {
            s.append(" of kind ");
            s.append(self.kind.as_str());
        }
        s
    }
}

// ---------------------------------------------------------------------------------------
// Lines the tools print
// ---------------------------------------------------------------------------------------

/// The `calls:` line under a definition: at most `cap` callee names, then `(+N)` for the
/// rest; nothing without callees.
pub open spec fn calls_line_spec(names: Seq<Chars>, cap: nat) -> Chars {
    if names.len() == 0 {
        Seq::empty()
    } else {
        let show = if names.len() < cap {
            names.len()
        } else {
            cap
        };
        let listed = join(names.take(show as int), ", "@);
        let extra = names.len() - show;
        if extra > 0 {
            "calls: "@ + listed + " (+"@ + dec_nat(extra as nat) + ")\n"@
        } else {
            "calls: "@ + listed + "\n"@
        }
    }
}

/// [`calls_line_spec`].
pub fn calls_line(names: &Vec<String>, cap: usize) -> (r: String)
    ensures
        r@ == calls_line_spec(views(names@), cap as nat),
{
    if names.len() == 0 {
        return String::new();
    }
    let show = if names.len() < cap {
        names.len()
    } else {
        cap
    };
    let mut head: Vec<String> = Vec::new();
    let mut i: usize = 0;
    while i < show
        invariant
            show <= names@.len(),
            i <= show,
            views(head@) == views(names@).take(i as int),
        decreases show - i,
    {
        let ghost before = head@;
        head.push(crate::text::copy_str(names[i].as_str()));
        assert(views(names@).take(i + 1) == views(names@).take(i as int).push(names@[i as int]@));
        assert(views(head@) =~= views(before).push(names@[i as int]@));
        i += 1;
    }
    let listed = join_strings(head.as_slice(), ", ");
    let extra = names.len() - show;
    let mut s = "calls: ".to_owned();
    s.append(listed.as_str());
    if extra > 0 {
        s.append(" (+");
        push_u64(&mut s, extra as u64);
        s.append(")\n");
    } else {
        s.append("\n");
    }
    s
}

/// The banner over an answer whose names are defined more than once.
pub open spec fn ambiguous_banner_spec(n: nat) -> Chars {
    dec_nat(n) + " names ambiguous (?): narrow with path or kind, or backend = \"lsp\"\n"@
}

/// [`ambiguous_banner_spec`].
pub fn ambiguous_banner(n: usize) -> (r: String)
    ensures
        r@ == ambiguous_banner_spec(n as nat),
{
    let mut s = String::new();
    push_u64(&mut s, n as u64);
    s.append(" names ambiguous (?): narrow with path or kind, or backend = \"lsp\"\n");
    s
}

/// Every line of `out` marked ` ?`; nothing for an empty text.
pub open spec fn mark_ambiguous_spec(out: Chars) -> Chars {
    if out.len() == 0 {
        Seq::empty()
    } else {
        let ls = lines(out);
        join(Seq::new(ls.len(), |i: int| ls[i] + " ?"@), "\n"@) + "\n"@
    }
}

/// [`mark_ambiguous_spec`].
pub fn mark_ambiguous_lines(out: &str) -> (r: String)
    ensures
        r@ == mark_ambiguous_spec(out@),
{
    let oc = chars_of(out);
    if oc.len() == 0 {
        return String::new();
    }
    let ls = lines_vec(out);
    let ghost lv = views(ls@);
    let mut marked: Vec<String> = Vec::new();
    let mut i: usize = 0;
    while i < ls.len()
        invariant
            lv == views(ls@),
            i <= ls@.len(),
            marked@.len() == i,
            forall|k: int| 0 <= k < i ==> (#[trigger] marked@[k])@ == lv[k] + " ?"@,
        decreases ls@.len() - i,
    {
        let mut l = crate::text::copy_str(ls[i].as_str());
        l.append(" ?");
        assert(lv[i as int] == ls@[i as int]@);
        marked.push(l);
        i += 1;
    }
    let mut r = join_strings(marked.as_slice(), "\n");
    assert(views(marked@) =~= Seq::new(lv.len(), |k: int| lv[k] + " ?"@));
    r.append("\n");
    r
}

/// The lines shown of one definition's source: lines `first..` of `src`, `count` of them
/// at most, where `first` and `last` are the 0-based start and the end bound.
pub open spec fn body_slice(src: Chars, first: nat, last: nat) -> Seq<Chars> {
    let ls = lines(src);
    let from = if first < ls.len() {
        first as int
    } else {
        ls.len() as int
    };
    let want = last - first;
    let n = if want < ls.len() - from {
        want
    } else {
        ls.len() - from
    };
    ls.subrange(from, from + n)
}

/// Source of one definition, `line..=end_line`, at most `budget` lines then
/// `  … N more lines`.
pub open spec fn body_lines_spec(src: Chars, first: nat, last: nat, budget: nat) -> Chars {
    let body = body_slice(src, first, last);
    let shown = if body.len() < budget {
        body.len()
    } else {
        budget
    };
    join(Seq::new(shown, |i: int| body[i] + "\n"@), Seq::empty()) + if body.len() > budget {
        "  … "@ + dec_nat((body.len() - budget) as nat) + " more lines\n"@
    } else {
        Seq::empty()
    }
}

/// Source of one definition, `line..=end_line` (1-based), at most `budget` lines, then how
/// many more there are.
pub fn body_lines(src: &str, line: i32, end_line: i32, budget: usize) -> (r: String)
    ensures
        ({
            let first = (if line < 1 {
                1
            } else {
                line
            }) - 1;
            let last = #[verifier::truncate] ((if end_line > line {
                end_line
            } else {
                line
            }) as usize);
            first <= last ==> r@ == body_lines_spec(src@, first as nat, last as nat, budget as nat)
        }),
{
    let first: usize = ((if line < 1 {
        1
    } else {
        line
    }) - 1) as usize;
    let last: usize = #[verifier::truncate] ((if end_line > line {
        end_line
    } else {
        line
    }) as usize);
    let ls = lines_vec(src);
    let ghost lv = views(ls@);
    let from = if first < ls.len() {
        first
    } else {
        ls.len()
    };
    let want: usize = if last >= first {
        last - first
    } else {
        0
    };
    let n = if want < ls.len() - from {
        want
    } else {
        ls.len() - from
    };
    let shown = if n < budget {
        n
    } else {
        budget
    };
    let mut out = String::new();
    let mut i: usize = 0;
    while i < shown
        invariant
            lv == views(ls@),
            ls@.len() <= usize::MAX,
            from + n <= ls@.len(),
            shown <= n,
            i <= shown,
            out@ == join(Seq::new(i as nat, |k: int| lv[from + k] + "\n"@), Seq::empty()),
        decreases shown - i,
    {
        out.append(ls[from + i].as_str());
        out.append("\n");
        assert(lv[from + i] == ls@[from + i]@);
        let ghost s1 = Seq::new(i as nat, |k: int| lv[from + k] + "\n"@);
        let ghost s2 = Seq::new((i + 1) as nat, |k: int| lv[from + k] + "\n"@);
        assert(s2.drop_last() =~= s1);
        assert(join(s2, Seq::empty()) == join(s1, Seq::empty()) + Seq::<char>::empty() + s2.last()
            || s2.len() == 1);
        proof {
            if i == 0 {
                assert(join(s2, Seq::empty()) == s2[0]);
                assert(join(s1, Seq::empty()) =~= Seq::<char>::empty());
            }
        }
        i += 1;
    }
    if n > budget {
        out.append("  … ");
        push_u64(&mut out, (n - budget) as u64);
        out.append(" more lines\n");
    }
    proof {
        let body = body_slice(src@, first as nat, last as nat);
        if first <= last {
            assert(body =~= lv.subrange(from as int, from + n));
            assert(Seq::new(shown as nat, |k: int| lv[from + k] + "\n"@) =~= Seq::new(
                shown as nat,
                |k: int| body[k] + "\n"@,
            ));
        }
    }
    out
}

/// `s.split(sep)` for a non-empty separator: the pieces between non-overlapping matches,
/// left to right.
pub open spec fn split_str(s: Chars, sep: Chars) -> Seq<Chars>
    decreases s.len(),
{
    if sep.len() == 0 {
        seq![s]
    } else {
        match find_spec(s, sep) {
            Some(i) => if 0 <= i && i + sep.len() <= s.len() {
                seq![s.take(i)] + split_str(s.skip(i + sep.len()), sep)
            } else {
                seq![s]
            },
            None => seq![s],
        }
    }
}

/// The arrow between the steps of a call chain.
pub open spec fn arrow() -> Chars {
    " → "@
}

/// A caller chain read the other way round.
pub open spec fn reverse_chain_spec(chain: Chars) -> Chars {
    join(split_str(chain, arrow()).reverse(), arrow())
}

/// The pieces of `s` split at every `sep` ([`split_str`]).
fn split_str_exec(s: &[char], sep: &[char]) -> (r: Vec<String>)
    requires
        sep@.len() > 0,
    ensures
        views(r@) == split_str(s@, sep@),
    decreases s@.len(),
{
    match crate::text::find(s, sep) {
        Some(i) => {
            proof {
                crate::text::lemma_find_spec(s@, sep@, i as int);
            }
            let sl = s.len();
            assert(i + sep@.len() <= sl);
            let head = crate::text::take_chars(s, i);
            let tail = crate::text::skip_chars(s, i + sep.len());
            let rest = split_str_exec(tail.as_slice(), sep);
            let mut r: Vec<String> = Vec::new();
            r.push(string_from(head.as_slice()));
            let mut k: usize = 0;
            while k < rest.len()
                invariant
                    k <= rest@.len(),
                    views(r@) == seq![head@] + views(rest@).take(k as int),
                decreases rest@.len() - k,
            {
                let ghost before = r@;
                r.push(crate::text::copy_str(rest[k].as_str()));
                assert(views(rest@).take(k + 1) == views(rest@).take(k as int).push(rest@[k as int]@));
                assert(views(r@) =~= views(before).push(rest@[k as int]@));
                k += 1;
            }
            assert(views(rest@).take(rest@.len() as int) == views(rest@));
            r
        },
        None => {
            let mut r: Vec<String> = Vec::new();
            r.push(string_from(s));
            assert(views(r@) =~= seq![s@]);
            r
        },
    }
}

/// `symbol_paths` walks callers; `impact --to` prints callee chains, so the arrows flip.
pub fn reverse_call_chain(chain: &str) -> (r: String)
    ensures
        r@ == reverse_chain_spec(chain@),
{
    let c = chars_of(chain);
    let sep = chars_of(" → ");
    proof {
        reveal_strlit(" → ");
    }
    let parts = split_str_exec(c.as_slice(), sep.as_slice());
    let ghost pv = views(parts@);
    let mut rev: Vec<String> = Vec::new();
    let mut i = parts.len();
    while i > 0
        invariant
            pv == views(parts@),
            i <= parts@.len(),
            views(rev@) == pv.reverse().take((parts@.len() - i) as int),
        decreases i,
    {
        let ghost before = rev@;
        rev.push(crate::text::copy_str(parts[i - 1].as_str()));
        assert(pv.reverse().take((parts@.len() - i + 1) as int) =~= pv.reverse().take(
            (parts@.len() - i) as int,
        ).push(pv[i - 1]));
        assert(views(rev@) =~= views(before).push(parts@[i - 1]@));
        i -= 1;
    }
    assert(pv.reverse().take(pv.len() as int) =~= pv.reverse());
    join_strings(rev.as_slice(), " → ")
}

/// One `depth  path  scope` line per row, `(file)` when the row is file-level.
pub open spec fn impact_line(d: u32, path: Chars, scope: Chars) -> Chars {
    dec_nat(d as nat) + "  "@ + path + "  "@ + (if scope.len() == 0 {
        "(file)"@
    } else {
        scope
    }) + "\n"@
}

/// The impact rows as text.
pub open spec fn impact_text_spec(rows: Seq<(u32, String, String)>) -> Chars
    decreases rows.len(),
{
    if rows.len() == 0 {
        Seq::empty()
    } else {
        let r = rows.last();
        impact_text_spec(rows.drop_last()) + impact_line(r.0, r.1@, r.2@)
    }
}

/// [`impact_text_spec`].
pub fn impact_lines_text(rows: &Vec<(u32, String, String)>) -> (r: String)
    ensures
        r@ == impact_text_spec(rows@),
{
    let mut out = String::new();
    let mut i: usize = 0;
    while i < rows.len()
        invariant
            i <= rows@.len(),
            out@ == impact_text_spec(rows@.take(i as int)),
        decreases rows@.len() - i,
    {
        assert(rows@.take(i + 1).drop_last() == rows@.take(i as int));
        let (d, path, scope) = &rows[i];
        push_u64(&mut out, *d as u64);
        out.append("  ");
        out.append(path.as_str());
        out.append("  ");
        let sc = chars_of(scope.as_str());
        if sc.len() == 0 {
            out.append("(file)");
        } else {
            out.append(scope.as_str());
        }
        out.append("\n");
        i += 1;
    }
    assert(rows@.take(rows@.len() as int) == rows@);
    out
}

/// Test files by path: a `tests/` directory, or a test-named file.
pub open spec fn is_test_path_spec(path: Chars) -> bool {
    let f = split_char(path, '/').last();
    ||| path == "tests"@
    ||| starts_with(path, "tests/"@)
    ||| contains(path, "/tests/"@)
    ||| starts_with(f, "test_"@)
    ||| starts_with(f, "_test"@)
    ||| contains(f, "_test."@)
}

/// [`is_test_path_spec`].
pub fn is_test_path(path: &str) -> (r: bool)
    ensures
        r == is_test_path_spec(path@),
{
    let p = chars_of(path);
    if crate::text::eq_lit(p.as_slice(), "tests") || crate::text::prefix_lit(p.as_slice(), "tests/")
        || crate::text::contains_lit(p.as_slice(), "/tests/") {
        return true;
    }
    let segs = split_vec(path, '/');
    proof {
        crate::text::lemma_split_nonempty(path@, '/');
    }
    let f = chars_of(segs[segs.len() - 1].as_str());
    assert(views(segs@).last() == f@);
    crate::text::prefix_lit(f.as_slice(), "test_") || crate::text::prefix_lit(f.as_slice(), "_test")
        || crate::text::contains_lit(f.as_slice(), "_test.")
}

/// The command that runs the tests of `name` in `path`, by the file's language.
pub open spec fn test_command_spec(path: Chars, name: Chars) -> Option<Chars> {
    let e = match crate::path::extension(path) {
        Some(e) => e,
        None => Seq::empty(),
    };
    if e == "rs"@ {
        Some("cargo test "@ + name)
    } else if e == "py"@ {
        Some("pytest "@ + path + "::"@ + name)
    } else if e == "go"@ {
        Some("go test -run "@ + name)
    } else if e == "ts"@ || e == "tsx"@ || e == "js"@ || e == "mjs"@ || e == "cjs"@ || e
        == "jsx"@ {
        Some("vitest "@ + path)
    } else {
        None
    }
}

/// [`test_command_spec`].
pub fn test_command(path: &str, name: &str) -> (r: Option<String>)
    ensures
        match r {
            Some(c) => test_command_spec(path@, name@) == Some(c@),
            None => test_command_spec(path@, name@) is None,
        },
{
    let e = match crate::path::extension_of(path) {
        Some(e) => e,
        None => String::new(),
    };
    let es = e.as_str();
    if str_eq(es, "rs") {
        let mut c = "cargo test ".to_owned();
        c.append(name);
        Some(c)
    } else if str_eq(es, "py") {
        let mut c = "pytest ".to_owned();
        c.append(path);
        c.append("::");
        c.append(name);
        Some(c)
    } else if str_eq(es, "go") {
        let mut c = "go test -run ".to_owned();
        c.append(name);
        Some(c)
    } else if str_eq(es, "ts") || str_eq(es, "tsx") || str_eq(es, "js") || str_eq(es, "mjs")
        || str_eq(es, "cjs") || str_eq(es, "jsx") {
        let mut c = "vitest ".to_owned();
        c.append(path);
        Some(c)
    } else {
        None
    }
}


// ---------------------------------------------------------------------------------------
// explore
// ---------------------------------------------------------------------------------------

/// A character that belongs to an identifier token.
pub open spec fn word_char(c: char) -> bool {
    crate::text::alphanumeric(c) || c == '_'
}

/// The runs between non-identifier characters (empty runs included).
pub open spec fn word_runs(s: Chars) -> Seq<Chars>
    decreases s.len(),
{
    if s.len() == 0 {
        seq![Seq::empty()]
    } else {
        let p = word_runs(s.drop_last());
        if !word_char(s.last()) {
            p.push(Seq::empty())
        } else {
            p.update(p.len() - 1, p.last().push(s.last()))
        }
    }
}

/// The non-empty runs, each once, in first-seen order.
pub open spec fn distinct_nonempty(xs: Seq<Chars>) -> Seq<Chars>
    decreases xs.len(),
{
    if xs.len() == 0 {
        Seq::empty()
    } else {
        let acc = distinct_nonempty(xs.drop_last());
        let x = xs.last();
        if x.len() > 0 && !acc.contains(x) {
            acc.push(x)
        } else {
            acc
        }
    }
}

/// Identifier tokens of a free-text question: alphanumeric/`_` runs, deduplicated, the
/// first 8.
pub open spec fn explore_tokens_spec(query: Chars) -> Seq<Chars> {
    let d = distinct_nonempty(word_runs(query));
    if d.len() <= 8 {
        d
    } else {
        d.take(8)
    }
}

proof fn lemma_word_runs_nonempty(s: Chars)
    ensures
        word_runs(s).len() > 0,
    decreases s.len(),
{
    if s.len() > 0 {
        lemma_word_runs_nonempty(s.drop_last());
    }
}

/// [`explore_tokens_spec`].
pub fn explore_tokens(query: &str) -> (r: Vec<String>)
    ensures
        views(r@) == explore_tokens_spec(query@),
{
    let q = chars_of(query);
    // All runs, the open one kept apart.
    let mut done: Vec<String> = Vec::new();
    let mut cur: Vec<char> = Vec::new();
    let mut i: usize = 0;
    while i < q.len()
        invariant
            i <= q@.len(),
            q@ == query@,
            views(done@).push(cur@) == word_runs(q@.take(i as int)),
        decreases q@.len() - i,
    {
        assert(q@.take(i + 1).drop_last() == q@.take(i as int));
        proof {
            lemma_word_runs_nonempty(q@.take(i as int));
        }
        let c = q[i];
        if !(crate::text::is_alphanumeric(c) || c == '_') {
            let w = string_from(cur.as_slice());
            let ghost before = done@;
            done.push(w);
            assert(views(done@) == views(before).push(w@));
            cur = Vec::new();
            assert(views(done@).push(cur@) == views(before).push(w@).push(Seq::empty()));
        } else {
            let ghost pre = word_runs(q@.take(i as int));
            cur.push(c);
            assert(views(done@).push(cur@) =~= pre.update(pre.len() - 1, pre.last().push(c)));
        }
        i += 1;
    }
    assert(q@.take(q@.len() as int) == q@);
    let ghost before = done@;
    let last = string_from(cur.as_slice());
    done.push(last);
    assert(views(done@) == views(before).push(last@));
    let ghost runs = views(done@);
    // Distinct non-empty runs.
    let mut toks: Vec<String> = Vec::new();
    let mut k: usize = 0;
    while k < done.len()
        invariant
            runs == views(done@),
            k <= done@.len(),
            views(toks@) == distinct_nonempty(runs.take(k as int)),
        decreases done@.len() - k,
    {
        assert(runs.take(k + 1).drop_last() == runs.take(k as int));
        assert(runs[k as int] == done@[k as int]@);
        let x = chars_of(done[k].as_str());
        if x.len() > 0 && !contains_string(&toks, done[k].as_str()) {
            let ghost b = toks@;
            toks.push(crate::text::copy_str(done[k].as_str()));
            assert(views(toks@) =~= views(b).push(runs[k as int]));
        }
        k += 1;
    }
    assert(runs.take(runs.len() as int) == runs);
    if toks.len() <= 8 {
        return toks;
    }
    let mut out: Vec<String> = Vec::new();
    let mut m: usize = 0;
    while m < 8
        invariant
            m <= 8,
            8 < toks@.len(),
            views(out@) == views(toks@).take(m as int),
        decreases 8 - m,
    {
        let ghost b = out@;
        out.push(crate::text::copy_str(toks[m].as_str()));
        assert(views(toks@).take(m + 1) == views(toks@).take(m as int).push(toks@[m as int]@));
        assert(views(out@) =~= views(b).push(toks@[m as int]@));
        m += 1;
    }
    out
}

/// `views(v)` holds `x`.
fn contains_string(v: &Vec<String>, x: &str) -> (r: bool)
    ensures
        r == views(v@).contains(x@),
{
    let mut i: usize = 0;
    while i < v.len()
        invariant
            i <= v@.len(),
            forall|k: int| 0 <= k < i ==> (#[trigger] v@[k])@ != x@,
        decreases v@.len() - i,
    {
        if str_eq(v[i].as_str(), x) {
            assert(views(v@)[i as int] == x@);
            return true;
        }
        i += 1;
    }
    assert forall|k: int| 0 <= k < views(v@).len() implies views(v@)[k] != x@ by {
        assert(views(v@)[k] == v@[k]@);
    }
    false
}

/// At most this many distinct names land in one answer.
pub const EXPLORE_MAX_NAMES: usize = 10;

/// `names` with every new one of `xs` appended, in order, while fewer than
/// [`EXPLORE_MAX_NAMES`] are held.
pub open spec fn add_new(names: Seq<Chars>, xs: Seq<Chars>) -> Seq<Chars>
    decreases xs.len(),
{
    if xs.len() == 0 {
        names
    } else {
        let a = add_new(names, xs.drop_last());
        if a.contains(xs.last()) || a.len() >= EXPLORE_MAX_NAMES {
            a
        } else {
            a.push(xs.last())
        }
    }
}

/// The names the tokens resolve to, in order and each once, taking names only while
/// fewer than [`EXPLORE_MAX_NAMES`] are collected.
pub open spec fn collect_names(resolved: Seq<Seq<Chars>>) -> Seq<Chars>
    decreases resolved.len(),
{
    if resolved.len() == 0 {
        Seq::empty()
    } else {
        let prev = collect_names(resolved.drop_last());
        if prev.len() >= EXPLORE_MAX_NAMES {
            prev
        } else {
            add_new(prev, resolved.last())
        }
    }
}

proof fn lemma_add_new_capped(names: Seq<Chars>, xs: Seq<Chars>)
    requires
        names.len() <= EXPLORE_MAX_NAMES,
    ensures
        add_new(names, xs).len() <= EXPLORE_MAX_NAMES,
    decreases xs.len(),
{
    if xs.len() > 0 {
        lemma_add_new_capped(names, xs.drop_last());
    }
}

/// However many tokens a query has and whatever they resolve to, at most
/// [`EXPLORE_MAX_NAMES`] names land in one answer.
pub proof fn law_explore_name_cap(resolved: Seq<Seq<Chars>>)
    ensures
        collect_names(resolved).len() <= EXPLORE_MAX_NAMES,
    decreases resolved.len(),
{
    if resolved.len() > 0 {
        law_explore_name_cap(resolved.drop_last());
        lemma_add_new_capped(collect_names(resolved.drop_last()), resolved.last());
    }
}

/// How many of `counts` exceed one.
pub open spec fn count_ambiguous(counts: Seq<usize>) -> nat
    decreases counts.len(),
{
    if counts.len() == 0 {
        0
    } else {
        count_ambiguous(counts.drop_last()) + if counts.last() > 1 {
            1nat
        } else {
            0nat
        }
    }
}

/// The concatenation of a list of texts.
pub open spec fn concat(parts: Seq<Chars>) -> Chars
    decreases parts.len(),
{
    if parts.len() == 0 {
        Seq::empty()
    } else {
        concat(parts.drop_last()) + parts.last()
    }
}

/// One name's section: `= name`, then its definitions.
pub open spec fn def_section(name: Chars, defs: Chars) -> Chars {
    "= "@ + name + "\n"@ + defs
}

/// One name's impact line: `name ← N`, marked ` ?` when the name is ambiguous.
pub open spec fn impact_entry(name: Chars, n: usize, count: usize) -> Chars {
    name + " ← "@ + dec_nat(n as nat) + (if count > 1 {
        " ?"@
    } else {
        Seq::empty()
    }) + "\n"@
}

/// The chains from name `i` to name `j`, one per line (none for `i == j`).
pub open spec fn pair_lines(paths: Seq<Seq<Seq<Chars>>>, i: int, j: int) -> Chars {
    if i != j {
        concat(Seq::new(paths[i][j].len(), |c: int| paths[i][j][c] + "\n"@))
    } else {
        Seq::empty()
    }
}

/// The chains from name `i` to every other name, in name order.
pub open spec fn row_lines(paths: Seq<Seq<Seq<Chars>>>, i: int, n: nat) -> Chars {
    concat(Seq::new(n, |j: int| pair_lines(paths, i, j)))
}

/// Every chain between two different names, rows in name order.
pub open spec fn chain_lines(paths: Seq<Seq<Seq<Chars>>>, n: nat) -> Chars {
    concat(Seq::new(n, |i: int| row_lines(paths, i, n)))
}

/// Whether any two different names are connected by a chain.
pub open spec fn any_chain(paths: Seq<Seq<Seq<Chars>>>, n: int) -> bool {
    exists|i: int, j: int| 0 <= i < n && 0 <= j < n && i != j && #[trigger] paths[i][j].len() > 0
}

/// UTF-8 length of a text held in memory (`str::len`).
pub open spec fn byte_len(s: Chars) -> nat {
    (vstd::utf8::encode_utf8(s).len() as usize) as nat
}

/// The bytes the separate `symbol` + `impact` calls would have returned.
pub open spec fn replaced_bytes(defs: Seq<Chars>, impacts: Seq<Chars>) -> nat
    decreases defs.len(),
{
    if defs.len() == 0 || impacts.len() == 0 {
        0
    } else {
        replaced_bytes(defs.drop_last(), impacts.drop_last()) + byte_len(defs.last()) + byte_len(
            impacts.last(),
        )
    }
}

/// The assembled `explore` answer for the resolved `names` (distinct), given per name its
/// definition count, its definitions text and its depth-1 impact (text and row count), and
/// per ordered pair of names the call chains between them.
pub open spec fn explore_text(
    names: Seq<Chars>,
    counts: Seq<usize>,
    defs: Seq<Chars>,
    impacts: Seq<(Chars, usize)>,
    paths: Seq<Seq<Seq<Chars>>>,
) -> Chars {
    let n = names.len() as int;
    let amb = count_ambiguous(counts);
    (if amb > 0 {
        ambiguous_banner_spec(amb)
    } else {
        Seq::empty()
    }) + concat(Seq::new(names.len(), |i: int| def_section(names[i], defs[i]))) + "paths:\n"@
        + (if any_chain(paths, n) {
        chain_lines(paths, names.len())
    } else {
        "none\n"@
    }) + "impact:\n"@ + concat(
        Seq::new(names.len(), |i: int| impact_entry(names[i], impacts[i].1, counts[i])),
    )
}

/// The empty answer: no token resolved to a definition.
pub open spec fn no_symbols_text(query: Chars, note: Chars) -> Chars {
    "no symbols resolved for \""@ + query + "\""@ + note
}

/// One question put to an [`ExploreParts`] backend, with its answer (`Err` with the
/// error's text where the backend failed).
pub enum ExploreAsk {
    /// The names a query token resolves to.
    Resolve(Chars, Result<Seq<Chars>, Chars>),
    /// How many definitions a name has.
    DefCount(Chars, Result<usize, Chars>),
    /// The definitions text of a name.
    Defs(Chars, Result<Chars, Chars>),
    /// The depth-1 impact of a name: its text and row count.
    Impact(Chars, Result<(Chars, usize), Chars>),
    /// The call chains from one name to another.
    Paths(Chars, Chars, Result<Seq<Chars>, Chars>),
}

/// The answer of a call that returns a list of texts.
pub open spec fn list_answer(r: Result<Vec<String>, String>) -> Result<Seq<Chars>, Chars> {
    match r {
        Ok(v) => Ok(views(v@)),
        Err(e) => Err(e@),
    }
}

/// The answer of a call that returns a text.
pub open spec fn text_answer(r: Result<String, String>) -> Result<Chars, Chars> {
    match r {
        Ok(v) => Ok(v@),
        Err(e) => Err(e@),
    }
}

/// The answer of a call that returns a count.
pub open spec fn count_answer(r: Result<usize, String>) -> Result<usize, Chars> {
    match r {
        Ok(v) => Ok(v),
        Err(e) => Err(e@),
    }
}

/// The answer of a call that returns a text and a count.
pub open spec fn impact_answer(r: Result<(String, usize), String>) -> Result<(Chars, usize), Chars> {
    match r {
        Ok(v) => Ok((v.0@, v.1)),
        Err(e) => Err(e@),
    }
}

/// The error text a backend answered a question with, if it failed.
pub open spec fn ask_error(a: ExploreAsk) -> Option<Chars> {
    match a {
        ExploreAsk::Resolve(_, Err(e)) => Some(e),
        ExploreAsk::DefCount(_, Err(e)) => Some(e),
        ExploreAsk::Defs(_, Err(e)) => Some(e),
        ExploreAsk::Impact(_, Err(e)) => Some(e),
        ExploreAsk::Paths(_, _, Err(e)) => Some(e),
        _ => None,
    }
}

/// The backend pieces `explore` assembles its answer from. Each backend answers the
/// same queries, so one assembler produces one answer shape. Every call is recorded,
/// with its answer, in [`ExploreParts::asked`].
pub trait ExploreParts {
    /// Every question put to this backend so far, with its answer, in order. A backend
    /// keeps this record by overriding it.
    open spec fn asked(&self) -> Seq<ExploreAsk> {
        Seq::empty()
    }

    /// Exact-then-prefix resolution of one query token to definition names (best 5).
    fn resolve(&mut self, token: &str) -> (r: Result<Vec<String>, String>)
        ensures
            final(self).asked() == old(self).asked().push(
                ExploreAsk::Resolve(token@, list_answer(r)),
            ),
    ;

    /// `{path}:{line} {kind}` + body lines for every definition of `name`.
    fn defs(&mut self, name: &str) -> (r: Result<String, String>)
        ensures
            final(self).asked() == old(self).asked().push(ExploreAsk::Defs(name@, text_answer(r))),
    ;

    /// Call chains `a → … → b` in the caller direction, at most 3 hops.
    fn paths(&mut self, a: &str, b: &str) -> (r: Result<Vec<String>, String>)
        ensures
            final(self).asked() == old(self).asked().push(
                ExploreAsk::Paths(a@, b@, list_answer(r)),
            ),
    ;

    /// What `impact(name, 1)` would print, and the row count behind it.
    fn impact1(&mut self, name: &str) -> (r: Result<(String, usize), String>)
        ensures
            final(self).asked() == old(self).asked().push(
                ExploreAsk::Impact(name@, impact_answer(r)),
            ),
    ;

    /// How many definitions `name` has.
    fn def_count(&mut self, name: &str) -> (r: Result<usize, String>)
        ensures
            final(self).asked() == old(self).asked().push(
                ExploreAsk::DefCount(name@, count_answer(r)),
            ),
    ;
}

/// The resolutions asked for the first tokens, one per token, in order.
pub open spec fn resolve_asks(tokens: Seq<Chars>, resolved: Seq<Seq<Chars>>) -> Seq<ExploreAsk> {
    Seq::new(resolved.len(), |k: int| ExploreAsk::Resolve(tokens[k], Ok(resolved[k])))
}

/// The definition counts asked, one per name, in order.
pub open spec fn count_asks(names: Seq<Chars>, counts: Seq<usize>) -> Seq<ExploreAsk> {
    Seq::new(names.len(), |i: int| ExploreAsk::DefCount(names[i], Ok(counts[i])))
}

/// For the first `m` names in order: its definitions, then its depth-1 impact.
pub open spec fn body_asks(
    names: Seq<Chars>,
    defs: Seq<Chars>,
    impacts: Seq<(Chars, usize)>,
    m: nat,
) -> Seq<ExploreAsk>
    decreases m,
{
    if m == 0 {
        Seq::empty()
    } else {
        let i = m - 1;
        body_asks(names, defs, impacts, (m - 1) as nat).push(
            ExploreAsk::Defs(names[i], Ok(defs[i])),
        ).push(ExploreAsk::Impact(names[i], Ok(impacts[i])))
    }
}

/// The chains asked from name `a` to each of the first `m` names but itself, in order.
pub open spec fn row_asks(names: Seq<Chars>, paths: Seq<Seq<Seq<Chars>>>, a: int, m: nat) -> Seq<
    ExploreAsk,
>
    decreases m,
{
    if m == 0 {
        Seq::empty()
    } else {
        let b = m - 1;
        let prev = row_asks(names, paths, a, (m - 1) as nat);
        if a != b {
            prev.push(ExploreAsk::Paths(names[a], names[b], Ok(paths[a][b])))
        } else {
            prev
        }
    }
}

/// The chains asked from each of the first `m` names to every other name, in order.
pub open spec fn path_asks(names: Seq<Chars>, paths: Seq<Seq<Seq<Chars>>>, m: nat) -> Seq<
    ExploreAsk,
>
    decreases m,
{
    if m == 0 {
        Seq::empty()
    } else {
        path_asks(names, paths, (m - 1) as nat) + row_asks(names, paths, m - 1, names.len())
    }
}

/// Tokens are resolved in order while fewer than [`EXPLORE_MAX_NAMES`] names are held:
/// each one asked was asked under the cap, and the asking stopped at the last token or
/// at the cap.
pub open spec fn resolved_in_turn(tokens: Seq<Chars>, resolved: Seq<Seq<Chars>>) -> bool {
    &&& resolved.len() <= tokens.len()
    &&& forall|k: int|
        0 <= k < resolved.len() ==> (#[trigger] collect_names(resolved.take(k))).len()
            < EXPLORE_MAX_NAMES
    &&& (resolved.len() == tokens.len() || collect_names(resolved).len() >= EXPLORE_MAX_NAMES)
}

/// What a successful `explore` asked of its backend, after `before`: the query's tokens
/// in turn ([`resolved_in_turn`]), then every collected name's definition count, then
/// per name its definitions and impact, then the chains of every ordered pair of
/// different names.
pub open spec fn explore_asks(
    query: Chars,
    before: Seq<ExploreAsk>,
    after: Seq<ExploreAsk>,
    resolved: Seq<Seq<Chars>>,
    counts: Seq<usize>,
    defs: Seq<Chars>,
    impacts: Seq<(Chars, usize)>,
    paths: Seq<Seq<Seq<Chars>>>,
) -> bool {
    let tokens = explore_tokens_spec(query);
    let names = collect_names(resolved);
    &&& resolved_in_turn(tokens, resolved)
    &&& after == before + resolve_asks(tokens, resolved) + count_asks(names, counts) + body_asks(
        names,
        defs,
        impacts,
        names.len(),
    ) + path_asks(names, paths, names.len())
}

proof fn lemma_concat_one(x: Chars)
    ensures
        concat(seq![x]) == x,
{
    assert(seq![x].drop_last() == Seq::<Chars>::empty());
    assert(concat(Seq::<Chars>::empty()) == Seq::<char>::empty());
    assert(Seq::<char>::empty() + x =~= x);
}

pub proof fn lemma_concat_step(f: spec_fn(int) -> Chars, i: nat)
    ensures
        concat(Seq::new(i + 1, f)) == concat(Seq::new(i, f)) + f(i as int),
{
    assert(Seq::new(i + 1, f).drop_last() =~= Seq::new(i, f));
}

/// The views of the chains table.
pub open spec fn paths_view(p: Seq<Vec<Vec<String>>>) -> Seq<Seq<Seq<Chars>>> {
    Seq::new(p.len(), |i: int| Seq::new(p[i]@.len(), |j: int| views(p[i]@[j]@)))
}

/// The views of the impact pieces.
pub open spec fn impacts_view(v: Seq<(String, usize)>) -> Seq<(Chars, usize)> {
    Seq::new(v.len(), |i: int| (v[i].0@, v[i].1))
}

/// Whether a chain was printed for any pair before row `i` (all columns) or in row `i`
/// before column `j`.
pub open spec fn any_before(paths: Seq<Seq<Seq<Chars>>>, i: int, j: int) -> bool {
    exists|a: int, b: int|
        0 <= a && 0 <= b && a != b && (a < i || (a == i && b < j)) && b < paths.len()
            && #[trigger] paths[a][b].len() > 0
}

/// The `explore` answer from the pieces a backend returned ([`explore_text`]), and the
/// bytes of the replaced calls (saturating at `u64::MAX`); the empty answer without names.
pub fn explore_answer(
    query: &str,
    note: &str,
    names: &Vec<String>,
    counts: &Vec<usize>,
    defs: &Vec<String>,
    impacts: &Vec<(String, usize)>,
    paths: &Vec<Vec<Vec<String>>>,
) -> (r: (String, u64))
    requires
        counts@.len() == names@.len(),
        defs@.len() == names@.len(),
        impacts@.len() == names@.len(),
        paths@.len() == names@.len(),
        forall|i: int| 0 <= i < paths@.len() ==> (#[trigger] paths@[i])@.len() == names@.len(),
    ensures
        names@.len() == 0 ==> r.0@ == no_symbols_text(query@, note@) && r.1 == 0,
        names@.len() > 0 ==> r.0@ == explore_text(
            views(names@),
            counts@,
            views(defs@),
            impacts_view(impacts@),
            paths_view(paths@),
        ),
        names@.len() > 0 ==> r.1 == (if replaced_bytes(
            views(defs@),
            Seq::new(impacts@.len(), |i: int| impacts@[i].0@),
        ) > u64::MAX {
            u64::MAX as nat
        } else {
            replaced_bytes(views(defs@), Seq::new(impacts@.len(), |i: int| impacts@[i].0@))
        }),
{
    let n = names.len();
    if n == 0 {
        let mut s = "no symbols resolved for \"".to_owned();
        s.append(query);
        s.append("\"");
        s.append(note);
        return (s, 0);
    }
    let ghost nv = views(names@);
    let ghost dv = views(defs@);
    let ghost iv = impacts_view(impacts@);
    let ghost it = Seq::new(impacts@.len(), |i: int| impacts@[i].0@);
    let ghost pv = paths_view(paths@);
    // The ambiguity count.
    let mut amb: usize = 0;
    let mut i: usize = 0;
    while i < n
        invariant
            n == names@.len(),
            counts@.len() == n,
            i <= n,
            amb as nat == count_ambiguous(counts@.take(i as int)),
            amb <= i,
        decreases n - i,
    {
        assert(counts@.take(i + 1).drop_last() == counts@.take(i as int));
        if counts[i] > 1 {
            amb += 1;
        }
        i += 1;
    }
    assert(counts@.take(n as int) == counts@);
    let mut out = String::new();
    if amb > 0 {
        let b = ambiguous_banner(amb);
        out.append(b.as_str());
    }
    let ghost head = out@;
    let ghost fsec = |k: int| def_section(nv[k], dv[k]);
    let ghost fimp = |k: int| impact_entry(nv[k], iv[k].1, counts@[k]);
    let mut before: u64 = 0;
    let mut imp = String::new();
    let mut i: usize = 0;
    while i < n
        invariant
            n == names@.len(),
            counts@.len() == n,
            defs@.len() == n,
            impacts@.len() == n,
            nv == views(names@),
            dv == views(defs@),
            iv == impacts_view(impacts@),
            it == Seq::new(impacts@.len(), |k: int| impacts@[k].0@),
            fsec == (|k: int| def_section(nv[k], dv[k])),
            fimp == (|k: int| impact_entry(nv[k], iv[k].1, counts@[k])),
            i <= n,
            out@ == head + concat(Seq::new(i as nat, fsec)),
            imp@ == concat(Seq::new(i as nat, fimp)),
            before as nat == (if replaced_bytes(dv.take(i as int), it.take(i as int)) > u64::MAX {
                u64::MAX as nat
            } else {
                replaced_bytes(dv.take(i as int), it.take(i as int))
            }),
        decreases n - i,
    {
        proof {
            lemma_concat_step(fsec, i as nat);
            lemma_concat_step(fimp, i as nat);
            assert(dv.take(i + 1).drop_last() == dv.take(i as int));
            assert(it.take(i + 1).drop_last() == it.take(i as int));
            assert(dv[i as int] == defs@[i as int]@);
            assert(nv[i as int] == names@[i as int]@);
        }
        out.append("= ");
        out.append(names[i].as_str());
        out.append("\n");
        out.append(defs[i].as_str());
        let dl = defs[i].as_str().len() as u64;
        let il = impacts[i].0.as_str().len() as u64;
        before = before.saturating_add(dl).saturating_add(il);
        imp.append(names[i].as_str());
        imp.append(" ← ");
        push_u64(&mut imp, impacts[i].1 as u64);
        if counts[i] > 1 {
            imp.append(" ?");
        }
        imp.append("\n");
        i += 1;
    }
    assert(dv.take(n as int) == dv);
    assert(it.take(n as int) == it);
    out.append("paths:\n");
    // Chains, row by row.
    let ghost frow = |a: int| row_lines(pv, a, n as nat);
    let mut chains = String::new();
    let mut any = false;
    let mut a: usize = 0;
    while a < n
        invariant
            n == names@.len(),
            paths@.len() == n,
            forall|k: int| 0 <= k < paths@.len() ==> (#[trigger] paths@[k])@.len() == n,
            pv == paths_view(paths@),
            frow == (|x: int| row_lines(pv, x, n as nat)),
            a <= n,
            chains@ == concat(Seq::new(a as nat, frow)),
            any == any_before(pv, a as int, 0),
        decreases n - a,
    {
        let ghost fpair = |y: int| pair_lines(pv, a as int, y);
        let mut row = String::new();
        let mut b: usize = 0;
        while b < n
            invariant
                n == names@.len(),
                paths@.len() == n,
                forall|k: int| 0 <= k < paths@.len() ==> (#[trigger] paths@[k])@.len() == n,
                pv == paths_view(paths@),
                a < n,
                b <= n,
                fpair == (|y: int| pair_lines(pv, a as int, y)),
                row@ == concat(Seq::new(b as nat, fpair)),
                any == any_before(pv, a as int, b as int),
            decreases n - b,
        {
            proof {
                lemma_concat_step(fpair, b as nat);
            }
            let cs = &paths[a][b];
            let ghost cv = views(cs@);
            assert(pv[a as int][b as int] == cv);
            let ghost fch = |c: int| cv[c] + "\n"@;
            if a != b {
                let mut c: usize = 0;
                let ghost row0 = row@;
                while c < cs.len()
                    invariant
                        cv == views(cs@),
                        fch == (|x: int| cv[x] + "\n"@),
                        c <= cs@.len(),
                        row@ == row0 + concat(Seq::new(c as nat, fch)),
                    decreases cs@.len() - c,
                {
                    proof {
                        lemma_concat_step(fch, c as nat);
                    }
                    row.append(cs[c].as_str());
                    row.append("\n");
                    c += 1;
                }
                assert(Seq::new(cs@.len(), fch) =~= Seq::new(pv[a as int][b as int].len(), |x: int| pv[a as int][b as int][x] + "\n"@));
                if cs.len() > 0 {
                    assert(pv[a as int][b as int].len() > 0);
                    any = true;
                }
            }
            proof {
                if any_before(pv, a as int, b + 1) && !any_before(pv, a as int, b as int) {
                    assert(a != b && pv[a as int][b as int].len() > 0);
                }
            }
            b += 1;
        }
        chains.append(row.as_str());
        proof {
            lemma_concat_step(frow, a as nat);
            assert(Seq::new(n as nat, fpair) =~= Seq::new(n as nat, |y: int| pair_lines(pv, a as int, y)));
            assert(any_before(pv, a as int, n as int) == any_before(pv, a + 1, 0));
        }
        a += 1;
    }
    assert(any == any_chain(pv, n as int)) by {
        if any_chain(pv, n as int) {
            let (x, y) = choose|x: int, y: int|
                0 <= x < n && 0 <= y < n && x != y && #[trigger] pv[x][y].len() > 0;
            assert(any_before(pv, n as int, 0));
        }
    }
    if any {
        out.append(chains.as_str());
    } else {
        out.append("none\n");
    }
    out.append("impact:\n");
    out.append(imp.as_str());
    assert(Seq::new(n as nat, fsec) =~= Seq::new(nv.len(), |k: int| def_section(nv[k], dv[k])));
    assert(Seq::new(n as nat, fimp) =~= Seq::new(nv.len(), |k: int| impact_entry(nv[k], iv[k].1, counts@[k])));
    assert(Seq::new(n as nat, frow) =~= Seq::new(nv.len(), |x: int| row_lines(pv, x, nv.len())));
    (out, before)
}


/// Appends the names of `xs` that `names` does not hold yet, while it holds fewer than
/// [`EXPLORE_MAX_NAMES`] ([`add_new`]).
pub fn add_new_names(names: &mut Vec<String>, xs: &Vec<String>)
    ensures
        views(final(names)@) == add_new(views(old(names)@), views(xs@)),
{
    let ghost start = views(names@);
    let ghost xv = views(xs@);
    let mut i: usize = 0;
    while i < xs.len()
        invariant
            xv == views(xs@),
            i <= xs@.len(),
            views(names@) == add_new(start, xv.take(i as int)),
        decreases xs@.len() - i,
    {
        assert(xv.take(i + 1).drop_last() == xv.take(i as int));
        assert(xv[i as int] == xs@[i as int]@);
        if names.len() < EXPLORE_MAX_NAMES && !contains_string(names, xs[i].as_str()) {
            let ghost b = names@;
            names.push(crate::text::copy_str(xs[i].as_str()));
            assert(views(names@) =~= views(b).push(xv[i as int]));
        }
        i += 1;
    }
    assert(xv.take(xv.len() as int) == xv);
}

/// One assembled `explore` answer plus the bytes the separate calls it replaces would
/// have returned: the query's tokens are resolved in turn (while fewer than
/// [`EXPLORE_MAX_NAMES`] names are found, and no more names than that are taken), then
/// every name's definition count, definitions, depth-1 impact and the chains between
/// every two names are asked of `parts`, and [`explore_answer`] lays them out. The first
/// error a backend returns is returned.
pub fn assemble_explore<P: ExploreParts>(query: &str, filter: &Filter, parts: &mut P) -> (r: Result<
    (String, u64),
    String,
>)
    ensures
        explore_tokens_spec(query@).len() == 0 ==> (r matches Ok(v) && v.0@ == no_symbols_text(
            query@,
            scope_note_spec(filter.path@, filter.kind@),
        ) && v.1 == 0 && final(parts).asked() == old(parts).asked()),
        r matches Err(e) ==> final(parts).asked().len() > old(parts).asked().len() && ask_error(
            final(parts).asked().last(),
        ) == Some(e@),
        r is Ok ==> explore_possible(
            query@,
            scope_note_spec(filter.path@, filter.kind@),
            old(parts).asked(),
            final(parts).asked(),
            r->Ok_0.0@,
            r->Ok_0.1 as nat,
        ),
{
    let ghost log0 = parts.asked();
    let tokens = explore_tokens(query);
    let ghost tv = views(tokens@);
    assert(tv.len() == tokens@.len());
    let mut names: Vec<String> = Vec::new();
    let ghost mut resolved_all: Seq<Seq<Chars>> = Seq::empty();
    let mut t: usize = 0;
    while t < tokens.len()
        invariant_except_break
            names@.len() < EXPLORE_MAX_NAMES,
            resolved_all.len() == t,
        invariant
            log0 == old(parts).asked(),
            parts.asked().len() >= log0.len(),
            t <= tokens@.len(),
            tv == views(tokens@),
            tv == explore_tokens_spec(query@),
            resolved_all.len() <= tokens@.len(),
            views(names@) == collect_names(resolved_all),
            forall|k: int|
                0 <= k < resolved_all.len() ==> (#[trigger] collect_names(resolved_all.take(k))).len()
                    < EXPLORE_MAX_NAMES,
            parts.asked() == log0 + resolve_asks(tv, resolved_all),
        ensures
            resolved_in_turn(tv, resolved_all),
            views(names@) == collect_names(resolved_all),
            parts.asked() == log0 + resolve_asks(tv, resolved_all),
        decreases tokens@.len() - t,
    {
        let resolved = match parts.resolve(tokens[t].as_str()) {
            Ok(v) => v,
            Err(e) => {
                return Err(e);
            },
        };
        let ghost prev = resolved_all;
        add_new_names(&mut names, &resolved);
        proof {
            resolved_all = resolved_all.push(views(resolved@));
            assert(resolved_all.drop_last() == prev);
            assert(resolved_all.take(t as int) == prev);
            assert forall|k: int| 0 <= k < resolved_all.len() implies (#[trigger] collect_names(
                resolved_all.take(k),
            )).len() < EXPLORE_MAX_NAMES by {
                if k < t {
                    assert(resolved_all.take(k) == prev.take(k));
                }
            }
            assert(tv[t as int] == tokens@[t as int]@);
            assert(resolve_asks(tv, resolved_all) =~= resolve_asks(tv, prev).push(
                ExploreAsk::Resolve(tokens@[t as int]@, Ok(views(resolved@))),
            ));
        }
        if names.len() >= EXPLORE_MAX_NAMES {
            break;
        }
        t += 1;
    }
    let note = filter.scope_note();
    let n = names.len();
    let ghost nv = views(names@);
    assert(nv.len() == n);
    proof {
        law_explore_name_cap(resolved_all);
    }
    assert(n > 0 ==> explore_tokens_spec(query@).len() > 0) by {
        if resolved_all.len() == 0 {
            assert(collect_names(resolved_all) == Seq::<Chars>::empty());
        }
    }
    let ghost log1 = parts.asked();
    let mut counts: Vec<usize> = Vec::new();
    let mut i: usize = 0;
    while i < n
        invariant
            log0 == old(parts).asked(),
            parts.asked().len() >= log0.len(),
            n == names@.len(),
            nv == views(names@),
            n == 0 || explore_tokens_spec(query@).len() > 0,
            i <= n,
            counts@.len() == i,
            parts.asked() == log1 + count_asks(nv.take(i as int), counts@),
        decreases n - i,
    {
        let c = match parts.def_count(names[i].as_str()) {
            Ok(v) => v,
            Err(e) => {
                return Err(e);
            },
        };
        let ghost prev = counts@;
        counts.push(c);
        proof {
            assert(nv[i as int] == names@[i as int]@);
            assert(count_asks(nv.take(i + 1), counts@) =~= count_asks(nv.take(i as int), prev).push(
                ExploreAsk::DefCount(names@[i as int]@, Ok(c)),
            ));
        }
        i += 1;
    }
    assert(nv.take(n as int) == nv);
    let ghost log2 = parts.asked();
    let mut defs: Vec<String> = Vec::new();
    let mut impacts: Vec<(String, usize)> = Vec::new();
    let mut i: usize = 0;
    while i < n
        invariant
            log0 == old(parts).asked(),
            parts.asked().len() >= log0.len(),
            n == names@.len(),
            nv == views(names@),
            n == 0 || explore_tokens_spec(query@).len() > 0,
            i <= n,
            defs@.len() == i,
            impacts@.len() == i,
            counts@.len() == n,
            parts.asked() == log2 + body_asks(nv, views(defs@), impacts_view(impacts@), i as nat),
        decreases n - i,
    {
        let ghost dv0 = views(defs@);
        let ghost iv0 = impacts_view(impacts@);
        let d = match parts.defs(names[i].as_str()) {
            Ok(v) => v,
            Err(e) => {
                return Err(e);
            },
        };
        defs.push(d);
        let im = match parts.impact1(names[i].as_str()) {
            Ok(v) => v,
            Err(e) => {
                return Err(e);
            },
        };
        impacts.push(im);
        proof {
            assert(nv[i as int] == names@[i as int]@);
            let dv = views(defs@);
            let iv = impacts_view(impacts@);
            assert(dv.take(i as int) =~= dv0);
            assert(iv.take(i as int) =~= iv0);
            lemma_body_asks_prefix(nv, dv, iv, dv0, iv0, i as nat);
        }
        i += 1;
    }
    let ghost log3 = parts.asked();
    let mut paths: Vec<Vec<Vec<String>>> = Vec::new();
    let mut a: usize = 0;
    while a < n
        invariant
            log0 == old(parts).asked(),
            parts.asked().len() >= log0.len(),
            n == names@.len(),
            nv == views(names@),
            n == 0 || explore_tokens_spec(query@).len() > 0,
            a <= n,
            paths@.len() == a,
            forall|k: int| 0 <= k < a ==> (#[trigger] paths@[k])@.len() == n,
            counts@.len() == n,
            defs@.len() == n,
            impacts@.len() == n,
            parts.asked() == log3 + path_asks(nv, paths_view(paths@), a as nat),
        decreases n - a,
    {
        let ghost log_a = parts.asked();
        let mut row: Vec<Vec<String>> = Vec::new();
        let mut b: usize = 0;
        while b < n
            invariant
                log0 == old(parts).asked(),
                parts.asked().len() >= log0.len(),
                n == names@.len(),
                nv == views(names@),
                n == 0 || explore_tokens_spec(query@).len() > 0,
                a < n,
                b <= n,
                row@.len() == b,
                parts.asked() == log_a + row_asks(
                    nv,
                    paths_view(paths@.push(row)),
                    a as int,
                    b as nat,
                ),
                paths@.len() == a,
            decreases n - b,
        {
            let ghost row0 = row;
            if a != b {
                let chains = match parts.paths(names[a].as_str(), names[b].as_str()) {
                    Ok(v) => v,
                    Err(e) => {
                        return Err(e);
                    },
                };
                row.push(chains);
                proof {
                    assert(nv[a as int] == names@[a as int]@);
                    assert(nv[b as int] == names@[b as int]@);
                }
            } else {
                row.push(Vec::new());
            }
            proof {
                lemma_row_asks_extend(nv, paths@, row0, row, a as int, b as nat);
            }
            b += 1;
        }
        let ghost pv0 = paths@;
        paths.push(row);
        proof {
            lemma_path_asks_extend(nv, pv0, row, a as nat);
        }
        a += 1;
    }
    let ans = explore_answer(query, note.as_str(), &names, &counts, &defs, &impacts, &paths);
    assert(views(defs@).len() == n);
    assert(impacts_view(impacts@).len() == n);
    assert(paths_view(paths@).len() == n);
    assert(forall|i: int| 0 <= i < n ==> (#[trigger] paths_view(paths@)[i]).len() == n);
    assert(Seq::new(n as nat, |i: int| impacts_view(impacts@)[i].0) =~= Seq::new(
        impacts@.len(),
        |i: int| impacts@[i].0@,
    ));
    assert(log2 == log1 + count_asks(nv, counts@));
    assert(explore_outcome(
        query@,
        scope_note_spec(filter.path@, filter.kind@),
        ans.0@,
        ans.1 as nat,
        resolved_all,
        counts@,
        views(defs@),
        impacts_view(impacts@),
        paths_view(paths@),
    ));
    assert(explore_asks(
        query@,
        log0,
        parts.asked(),
        resolved_all,
        counts@,
        views(defs@),
        impacts_view(impacts@),
        paths_view(paths@),
    ));
    assert(explore_run(
        query@,
        scope_note_spec(filter.path@, filter.kind@),
        log0,
        parts.asked(),
        ans.0@,
        ans.1 as nat,
        resolved_all,
        counts@,
        views(defs@),
        impacts_view(impacts@),
        paths_view(paths@),
    ));
    let r: Result<(String, u64), String> = Ok(ans);
    r
}

proof fn lemma_body_asks_prefix(
    names: Seq<Chars>,
    dv: Seq<Chars>,
    iv: Seq<(Chars, usize)>,
    dv0: Seq<Chars>,
    iv0: Seq<(Chars, usize)>,
    m: nat,
)
    requires
        dv.len() == m + 1,
        iv.len() == m + 1,
        dv.take(m as int) == dv0,
        iv.take(m as int) == iv0,
    ensures
        body_asks(names, dv, iv, m + 1) == body_asks(names, dv0, iv0, m).push(
            ExploreAsk::Defs(names[m as int], Ok(dv[m as int])),
        ).push(ExploreAsk::Impact(names[m as int], Ok(iv[m as int]))),
{
    lemma_body_asks_same(names, dv, iv, dv0, iv0, m);
}

proof fn lemma_body_asks_same(
    names: Seq<Chars>,
    dv: Seq<Chars>,
    iv: Seq<(Chars, usize)>,
    dv0: Seq<Chars>,
    iv0: Seq<(Chars, usize)>,
    m: nat,
)
    requires
        m <= dv0.len(),
        m <= iv0.len(),
        m <= dv.len(),
        m <= iv.len(),
        forall|k: int| 0 <= k < m ==> dv[k] == dv0[k] && iv[k] == iv0[k],
    ensures
        body_asks(names, dv, iv, m) == body_asks(names, dv0, iv0, m),
    decreases m,
{
    if m > 0 {
        lemma_body_asks_same(names, dv, iv, dv0, iv0, (m - 1) as nat);
    }
}

proof fn lemma_row_asks_same(
    names: Seq<Chars>,
    p: Seq<Seq<Seq<Chars>>>,
    q: Seq<Seq<Seq<Chars>>>,
    a: int,
    m: nat,
)
    requires
        0 <= a < p.len(),
        a < q.len(),
        m <= p[a].len(),
        m <= q[a].len(),
        forall|b: int| 0 <= b < m ==> p[a][b] == q[a][b],
    ensures
        row_asks(names, p, a, m) == row_asks(names, q, a, m),
    decreases m,
{
    if m > 0 {
        lemma_row_asks_same(names, p, q, a, (m - 1) as nat);
    }
}

proof fn lemma_row_asks_extend(
    names: Seq<Chars>,
    paths: Seq<Vec<Vec<String>>>,
    row0: Vec<Vec<String>>,
    row: Vec<Vec<String>>,
    a: int,
    b: nat,
)
    requires
        a == paths.len(),
        row0@.len() == b,
        row@ == row0@.push(row@[b as int]),
    ensures
        row_asks(names, paths_view(paths.push(row)), a, b + 1) == row_asks(
            names,
            paths_view(paths.push(row0)),
            a,
            b,
        ) + (if a != b {
            seq![ExploreAsk::Paths(names[a], names[b as int], Ok(views(row@[b as int]@)))]
        } else {
            Seq::empty()
        }),
{
    let p = paths_view(paths.push(row));
    let q = paths_view(paths.push(row0));
    assert(p[a] =~= q[a].push(views(row@[b as int]@)));
    lemma_row_asks_same(names, p, q, a, b);
    if a != b {
        assert(row_asks(names, p, a, b).push(
            ExploreAsk::Paths(names[a], names[b as int], Ok(p[a][b as int])),
        ) =~= row_asks(names, p, a, b) + seq![
            ExploreAsk::Paths(names[a], names[b as int], Ok(views(row@[b as int]@))),
        ]);
    } else {
        assert(row_asks(names, p, a, b) + Seq::<ExploreAsk>::empty() =~= row_asks(names, p, a, b));
    }
}

proof fn lemma_path_asks_same(
    names: Seq<Chars>,
    p: Seq<Seq<Seq<Chars>>>,
    q: Seq<Seq<Seq<Chars>>>,
    m: nat,
)
    requires
        m <= p.len(),
        m <= q.len(),
        forall|a: int| 0 <= a < m ==> p[a] == q[a],
    ensures
        path_asks(names, p, m) == path_asks(names, q, m),
    decreases m,
{
    if m > 0 {
        lemma_path_asks_same(names, p, q, (m - 1) as nat);
        lemma_row_asks_eq(names, p, q, m - 1, names.len());
    }
}

proof fn lemma_row_asks_eq(
    names: Seq<Chars>,
    p: Seq<Seq<Seq<Chars>>>,
    q: Seq<Seq<Seq<Chars>>>,
    a: int,
    m: nat,
)
    requires
        0 <= a < p.len(),
        a < q.len(),
        p[a] == q[a],
    ensures
        row_asks(names, p, a, m) == row_asks(names, q, a, m),
    decreases m,
{
    if m > 0 {
        lemma_row_asks_eq(names, p, q, a, (m - 1) as nat);
    }
}

proof fn lemma_path_asks_extend(
    names: Seq<Chars>,
    paths: Seq<Vec<Vec<String>>>,
    row: Vec<Vec<String>>,
    a: nat,
)
    requires
        paths.len() == a,
    ensures
        path_asks(names, paths_view(paths.push(row)), a + 1) == path_asks(
            names,
            paths_view(paths),
            a,
        ) + row_asks(names, paths_view(paths.push(row)), a as int, names.len()),
{
    let p = paths_view(paths.push(row));
    let q = paths_view(paths);
    assert forall|k: int| 0 <= k < a implies p[k] == q[k] by {
        assert(paths.push(row)[k] == paths[k]);
    }
    lemma_path_asks_same(names, p, q, a);
}

/// Some pieces a backend may have returned, as its record of questions shows, make this
/// answer ([`explore_run`]).
pub open spec fn explore_possible(
    query: Chars,
    note: Chars,
    before: Seq<ExploreAsk>,
    after: Seq<ExploreAsk>,
    text: Chars,
    bytes: nat,
) -> bool {
    exists|
        resolved: Seq<Seq<Chars>>,
        counts: Seq<usize>,
        defs: Seq<Chars>,
        impacts: Seq<(Chars, usize)>,
        paths: Seq<Seq<Seq<Chars>>>,
    |
        #[trigger] explore_run(
            query,
            note,
            before,
            after,
            text,
            bytes,
            resolved,
            counts,
            defs,
            impacts,
            paths,
        )
}

/// A successful `explore`: the backend was asked exactly [`explore_asks`] and answered
/// with these pieces, and the answer is laid out from them ([`explore_outcome`]).
pub open spec fn explore_run(
    query: Chars,
    note: Chars,
    before: Seq<ExploreAsk>,
    after: Seq<ExploreAsk>,
    text: Chars,
    bytes: nat,
    resolved: Seq<Seq<Chars>>,
    counts: Seq<usize>,
    defs: Seq<Chars>,
    impacts: Seq<(Chars, usize)>,
    paths: Seq<Seq<Seq<Chars>>>,
) -> bool {
    &&& explore_asks(query, before, after, resolved, counts, defs, impacts, paths)
    &&& explore_outcome(query, note, text, bytes, resolved, counts, defs, impacts, paths)
}

/// What an `explore` answer is made of: the names that the query's first tokens resolved
/// to (`resolved`, one list per token asked), per name its definition count, definitions
/// and depth-1 impact, per ordered pair the chains; the answer text laid out from them
/// ([`explore_text`]) with the bytes of the replaced calls (saturating), or the empty
/// answer when no name resolved.
pub open spec fn explore_outcome(
    query: Chars,
    note: Chars,
    text: Chars,
    bytes: nat,
    resolved: Seq<Seq<Chars>>,
    counts: Seq<usize>,
    defs: Seq<Chars>,
    impacts: Seq<(Chars, usize)>,
    paths: Seq<Seq<Seq<Chars>>>,
) -> bool {
    let names = collect_names(resolved);
    let n = names.len();
    &&& counts.len() == n && defs.len() == n && impacts.len() == n && paths.len() == n
    &&& forall|i: int| 0 <= i < n ==> (#[trigger] paths[i]).len() == n
    &&& n == 0 ==> text == no_symbols_text(query, note) && bytes == 0
    &&& n > 0 ==> text == explore_text(names, counts, defs, impacts, paths) && bytes == (if replaced_bytes(
        defs,
        Seq::new(n, |i: int| impacts[i].0),
    ) > u64::MAX {
        u64::MAX as nat
    } else {
        replaced_bytes(defs, Seq::new(n, |i: int| impacts[i].0))
    })
}

/// The answer for one resolved name names it once, with its definitions, and lists it
/// once under `impact:`.
pub proof fn law_explore_single_name(name: Chars, count: usize, defs: Chars, impact: (Chars, usize))
    requires
        count <= 1,
    ensures
        explore_text(seq![name], seq![count], seq![defs], seq![impact], seq![seq![Seq::empty()]])
            == "= "@ + name + "\n"@ + defs + "paths:\n"@ + "none\n"@ + "impact:\n"@ + name + " ← "@
            + dec_nat(impact.1 as nat) + "\n"@,
{
    let names = seq![name];
    let f1 = |i: int| def_section(names[i], seq![defs][i]);
    assert(Seq::new(1, f1) =~= seq![def_section(name, defs)]);
    lemma_concat_one(def_section(name, defs));
    let e = impact_entry(name, impact.1, count);
    assert(Seq::new(1, |i: int| impact_entry(names[i], seq![impact][i].1, seq![count][i])) =~= seq![e]);
    lemma_concat_one(e);
    assert(seq![count].drop_last() == Seq::<usize>::empty());
    assert(count_ambiguous(Seq::<usize>::empty()) == 0);
    assert(!any_chain(seq![seq![Seq::<Chars>::empty()]], 1));
    assert(e =~= name + " ← "@ + dec_nat(impact.1 as nat) + "\n"@);
}


// ---------------------------------------------------------------------------------------
// Index report and status
// ---------------------------------------------------------------------------------------

/// What one index run did.
pub struct Report {
    pub indexed: u32,
    pub inserted: usize,
    pub skipped: u32,
    /// Files whose bytes were read; a warm run over an untouched tree reads none.
    pub read: u32,
}

impl Default for Report {
    fn default() -> (r: Self)
        ensures
            r.indexed == 0 && r.inserted == 0 && r.skipped == 0 && r.read == 0,
    {
        Report { indexed: 0, inserted: 0, skipped: 0, read: 0 }
    }
}

/// A resolved path as the index key: backslashes become forward slashes.
pub open spec fn canon_spec(resolved: Chars) -> Chars {
    Seq::new(resolved.len(), |i: int| if resolved[i] == '\\' { '/' } else { resolved[i] })
}

/// The index key of a root, and the match key of a file: its canonical absolute path as
/// resolved by the file system (or the path itself when that fails), with `/` separators.
pub fn canon(resolved: &str) -> (r: String)
    ensures
        r@ == canon_spec(resolved@),
{
    let c = chars_of(resolved);
    let mut out = String::new();
    let mut i: usize = 0;
    while i < c.len()
        invariant
            i <= c@.len(),
            c@ == resolved@,
            out@ == canon_spec(c@.take(i as int)),
        decreases c@.len() - i,
    {
        let ch = if c[i] == '\\' {
            '/'
        } else {
            c[i]
        };
        crate::text::push_char(&mut out, ch);
        assert(canon_spec(c@.take(i + 1)) =~= canon_spec(c@.take(i as int)).push(ch));
        i += 1;
    }
    assert(c@.take(c@.len() as int) == c@);
    out
}

/// Index health for one root.
pub struct GraphStatus {
    pub root: String,
    pub rows: i64,
    pub files: i64,
    pub pending: Vec<String>,
    pub watch: String,
    pub indexed_at: Option<i64>,
}

/// The `rtok graph status` table.
pub open spec fn status_table_spec(s: GraphStatus) -> Chars {
    let pend = views(s.pending@);
    "root "@ + s.root@ + "\n"@ + "rows "@ + crate::text::dec_int(s.rows as int) + "\n"@ + "files "@
        + crate::text::dec_int(s.files as int) + "\n"@ + "pending "@ + dec_nat(pend.len()) + "\n"@
        + concat(Seq::new(pend.len(), |i: int| "  "@ + pend[i] + "\n"@)) + "watch "@ + s.watch@
        + "\n"@ + match s.indexed_at {
        Some(ts) => "indexed_at "@ + crate::text::dec_int(ts as int) + "\n"@,
        None => "indexed_at -\n"@,
    }
}

/// [`status_table_spec`].
pub fn format_table(s: &GraphStatus) -> (r: String)
    ensures
        r@ == status_table_spec(*s),
{
    let mut out = "root ".to_owned();
    out.append(s.root.as_str());
    out.append("\n");
    out.append("rows ");
    crate::text::push_i64(&mut out, s.rows);
    out.append("\n");
    out.append("files ");
    crate::text::push_i64(&mut out, s.files);
    out.append("\n");
    out.append("pending ");
    push_u64(&mut out, s.pending.len() as u64);
    out.append("\n");
    let ghost head = out@;
    let ghost pend = views(s.pending@);
    let ghost f = |i: int| "  "@ + pend[i] + "\n"@;
    let mut i: usize = 0;
    while i < s.pending.len()
        invariant
            pend == views(s.pending@),
            f == (|k: int| "  "@ + pend[k] + "\n"@),
            i <= s.pending@.len(),
            out@ == head + concat(Seq::new(i as nat, f)),
        decreases s.pending@.len() - i,
    {
        proof {
            lemma_concat_step(f, i as nat);
        }
        out.append("  ");
        out.append(s.pending[i].as_str());
        out.append("\n");
        i += 1;
    }
    out.append("watch ");
    out.append(s.watch.as_str());
    out.append("\n");
    match s.indexed_at {
        Some(ts) => {
            out.append("indexed_at ");
            crate::text::push_i64(&mut out, ts);
            out.append("\n");
        },
        None => {
            out.append("indexed_at -\n");
        },
    }
    assert(Seq::new(s.pending@.len() as nat, f) =~= Seq::new(pend.len(), |k: int| "  "@ + pend[k] + "\n"@));
    assert(out@ =~= status_table_spec(*s));
    out
}


// ---------------------------------------------------------------------------------------
// Capping, staleness and affected tests
// ---------------------------------------------------------------------------------------

/// How many lines, from line `k` on with `used` characters already taken, are shown under
/// `budget` characters, each line with its line break: the first always, then each while
/// it fits.
pub open spec fn lines_fit(ls: Seq<Chars>, budget: int, k: int, used: int) -> int
    decreases ls.len() - k,
{
    if k < 0 || k >= ls.len() {
        k
    } else if k > 0 && used + ls[k].len() + 1 > budget {
        k
    } else {
        lines_fit(ls, budget, k + 1, used + ls[k].len() + 1)
    }
}

/// The first `k` lines, each with its line break.
pub open spec fn head_lines(ls: Seq<Chars>, k: int) -> Chars {
    concat(Seq::new(k as nat, |i: int| ls[i] + "\n"@))
}

/// The character budget of a capped text: the share of its characters that `max` of
/// `est` tokens allows, less room for the trailer line.
pub open spec fn cap_budget(chars: nat, max: u32, est: u32) -> int {
    let b = (chars * max) as int / (est as int);
    if b >= 120 {
        b - 120
    } else {
        0
    }
}

/// A tool's text capped at `max` tokens when it measures `est`: unchanged when it fits;
/// otherwise the whole head lines that fit the budget, then `N more, expand <id>` naming
/// the archive the full text was kept under.
pub open spec fn cap_spec(text: Chars, max: u32, est: u32, archive_id: Chars) -> Chars {
    if est <= max {
        text
    } else {
        let ls = lines(text);
        let k = lines_fit(ls, cap_budget(text.len(), max, est), 0, 0);
        head_lines(ls, k) + dec_nat((ls.len() - k) as nat) + " more, expand "@ + archive_id
    }
}

/// [`cap_spec`].
pub fn cap_text(text: &str, max: u32, est: u32, archive_id: &str) -> (r: String)
    requires
        text@.len() * (max as int) <= usize::MAX,
        text@.len() <= isize::MAX,
    ensures
        r@ == cap_spec(text@, max, est, archive_id@),
{
    if est <= max {
        return crate::text::copy_str(text);
    }
    let c = chars_of(text);
    let n = c.len();
    let m = max as usize;
    let prod = n * m;
    let q = prod / (est as usize);
    let budget: usize = if q >= 120 {
        q - 120
    } else {
        0
    };
    assert(budget == cap_budget(text@.len(), max, est));
    let ls = lines_vec(text);
    let ghost lv = views(ls@);
    let mut head = String::new();
    let mut used: usize = 0;
    let mut k: usize = 0;
    let ghost f = |i: int| lv[i] + "\n"@;
    while k < ls.len()
        invariant
            k <= ls@.len(),
            lv == views(ls@),
            lv == lines(text@),
            f == (|i: int| lv[i] + "\n"@),
            head@ == concat(Seq::new(k as nat, f)),
            used == head@.len(),
            text@.len() <= isize::MAX,
            lines_fit(lv, budget as int, 0, 0) == lines_fit(lv, budget as int, k as int, used as int),
        ensures
            k <= ls@.len(),
            head@ == concat(Seq::new(k as nat, f)),
            lines_fit(lv, budget as int, k as int, used as int) == k,
        decreases ls@.len() - k,
    {
        let line = chars_of(ls[k].as_str());
        assert(lv[k as int] == line@);
        proof {
            lemma_lines_short(text@);
        }
        if k > 0 && (used > budget || line.len() >= budget - used) {
            break;
        }
        push_all(&mut head, line.as_slice());
        crate::text::push_char(&mut head, '\n');
        proof {
            reveal_strlit("\n");
            lemma_concat_step(f, k as nat);
        }
        used = used + line.len() + 1;
        k += 1;
    }
    assert(lines_fit(lv, budget as int, 0, 0) == k);
    assert(head@ == head_lines(lv, k as int));
    let mut out = head;
    push_u64(&mut out, (ls.len() - k) as u64);
    out.append(" more, expand ");
    out.append(archive_id);
    out
}

/// The lines read so far, and the open one, are no longer than the text.
proof fn lemma_lines_acc_short(s: Chars)
    ensures
        forall|i: int|
            0 <= i < crate::text::lines_acc(s).0.len() ==> (#[trigger] crate::text::lines_acc(s).0[i]).len()
                <= s.len(),
        crate::text::lines_acc(s).1.len() <= s.len(),
    decreases s.len(),
{
    if s.len() > 0 {
        lemma_lines_acc_short(s.drop_last());
    }
}

/// No line of a text is longer than the text.
proof fn lemma_lines_short(text: Chars)
    ensures
        forall|k: int| 0 <= k < lines(text).len() ==> (#[trigger] lines(text)[k]).len() <= text.len(),
{
    lemma_lines_acc_short(text);
}

/// A capped text shows at least one line: the first is kept whatever the budget.
pub proof fn law_cap_shows_a_line(ls: Seq<Chars>, budget: int)
    requires
        ls.len() >= 1,
    ensures
        1 <= lines_fit(ls, budget, 0, 0) <= ls.len(),
{
    lemma_fit_bounds(ls, budget, 1, (ls[0].len() + 1) as int);
}

/// [`lines_fit`] stays between where it starts and the number of lines.
proof fn lemma_fit_bounds(ls: Seq<Chars>, budget: int, k: int, used: int)
    requires
        0 <= k <= ls.len(),
    ensures
        k <= lines_fit(ls, budget, k, used) <= ls.len(),
    decreases ls.len() - k,
{
    if k < ls.len() && !(k > 0 && used + ls[k].len() + 1 > budget) {
        lemma_fit_bounds(ls, budget, k + 1, used + ls[k].len() + 1);
    }
}

/// The staleness banner: while files wait to be indexed and the index is not brought up
/// to date on its own (`auto_index` off, or a watcher holds pending changes), the count
/// and the first five paths.
pub open spec fn stale_banner_spec(pending: Seq<Chars>, auto_index: bool, watch_pending: bool) -> Chars {
    if pending.len() == 0 || (auto_index && !watch_pending) {
        Seq::empty()
    } else {
        "stale: "@ + dec_nat(pending.len()) + " files pending ("@ + join(
            pending.take(if pending.len() < 5 {
                pending.len() as int
            } else {
                5
            }),
            ", "@,
        ) + (if pending.len() > 5 {
            ", …"@
        } else {
            Seq::empty()
        }) + ")\n"@
    }
}

/// [`stale_banner_spec`].
pub fn stale_banner(pending: &Vec<String>, auto_index: bool, watch_pending: bool) -> (r: String)
    ensures
        r@ == stale_banner_spec(views(pending@), auto_index, watch_pending),
{
    let n = pending.len();
    if n == 0 || (auto_index && !watch_pending) {
        return String::new();
    }
    let show = if n < 5 {
        n
    } else {
        5
    };
    let mut first: Vec<String> = Vec::new();
    let mut i: usize = 0;
    while i < show
        invariant
            show <= pending@.len(),
            i <= show,
            views(first@) == views(pending@).take(i as int),
        decreases show - i,
    {
        let p = crate::text::copy_str(pending[i].as_str());
        let ghost before = first@;
        first.push(p);
        assert(views(first@) =~= views(before).push(p@));
        assert(views(pending@).take(i + 1) =~= views(pending@).take(i as int).push(p@));
        i += 1;
    }
    let mut s = "stale: ".to_owned();
    push_u64(&mut s, n as u64);
    s.append(" files pending (");
    let listed = join_strings(first.as_slice(), ", ");
    s.append(listed.as_str());
    if n > 5 {
        s.append(", …");
    }
    s.append(")\n");
    s
}

/// The message when no indexed test reaches a change.
pub const EMPTY_AFFECTED: &'static str = "no indexed test reaches the change; run the suite";

/// One affected test: `file ← via symbol`, then the command that runs it, if the file's
/// language has one.
pub open spec fn affected_entry(file: Chars, symbol: Chars) -> Chars {
    file + " ← via "@ + symbol + "\n"@ + match test_command_spec(file, symbol) {
        Some(c) => c + "\n"@,
        None => Seq::empty(),
    }
}

/// The affected tests as text: each in order, or the reminder to run the suite when none.
pub open spec fn affected_text_spec(hits: Seq<(Chars, Chars)>) -> Chars {
    if hits.len() == 0 {
        EMPTY_AFFECTED@
    } else {
        concat(Seq::new(hits.len(), |i: int| affected_entry(hits[i].0, hits[i].1)))
    }
}

/// The views of test hits.
pub open spec fn hits_view(hits: Seq<(String, String)>) -> Seq<(Chars, Chars)> {
    Seq::new(hits.len(), |i: int| (hits[i].0@, hits[i].1@))
}

/// [`affected_text_spec`]: the affected tests, in the order given (file, then symbol).
pub fn format_affected(hits: &Vec<(String, String)>) -> (r: String)
    ensures
        r@ == affected_text_spec(hits_view(hits@)),
{
    if hits.len() == 0 {
        return EMPTY_AFFECTED.to_owned();
    }
    let ghost hv = hits_view(hits@);
    let ghost f = |i: int| affected_entry(hv[i].0, hv[i].1);
    let mut out = String::new();
    let mut i: usize = 0;
    while i < hits.len()
        invariant
            i <= hits@.len(),
            hv == hits_view(hits@),
            f == (|m: int| affected_entry(hv[m].0, hv[m].1)),
            out@ == concat(Seq::new(i as nat, f)),
        decreases hits@.len() - i,
    {
        let (file, symbol) = (&hits[i].0, &hits[i].1);
        out.append(file.as_str());
        out.append(" ← via ");
        out.append(symbol.as_str());
        out.append("\n");
        match test_command(file.as_str(), symbol.as_str()) {
            Some(c) => {
                out.append(c.as_str());
                out.append("\n");
            },
            None => {},
        }
        proof {
            lemma_concat_step(f, i as nat);
        }
        i += 1;
    }
    out
}

} // verus!
