//! The `search` tool's rows: a pattern compiled once, each matching line of a file as
//! `path:line: snippet`, stopping at the cap, and paths shown relative to the directory
//! the caller works in.

use vstd::prelude::*;

use crate::path::{comp_views, comps_text, components, path_components, Component};
use crate::text::{chars_of, dec_nat, lines, lines_vec, push_u64, trim, trim_chars, views, Chars};

verus! {

#[verifier::external_type_specification]
#[verifier::external_body]
pub struct ExRegex(regex::Regex);

/// Whether `regex::Regex::new` accepts a pattern.
pub uninterp spec fn regex_compiles(pattern: Chars) -> bool;

/// Whether a pattern matches somewhere in a text (`regex::Regex::is_match`).
pub uninterp spec fn regex_matches(pattern: Chars, haystack: Chars) -> bool;

/// The message (`Display`) of the error `regex::Regex::new` refuses a pattern with.
pub uninterp spec fn regex_error(pattern: Chars) -> Chars;

/// `regex::Regex::new`: the compiled pattern, or the message of why it was refused (a
/// syntax error, or a program over the default size limit). Which patterns compile, and
/// the message, are named: both depend on the pattern alone.
#[verifier::external_body]
fn regex_new(pattern: &str) -> (r: Result<regex::Regex, String>)
    ensures
        r is Ok == regex_compiles(pattern@),
        r matches Err(e) ==> e@ == regex_error(pattern@),
{
    regex::Regex::new(pattern).map_err(|e| e.to_string())
}

/// A compiled search pattern, with the text it was compiled from.
pub struct Pattern {
    text: String,
    re: regex::Regex,
}

impl View for Pattern {
    type V = Chars;

    closed spec fn view(&self) -> Chars {
        self.text@
    }
}

/// `regex::Regex::is_match` on the pattern's compiled form: whether it matches anywhere in
/// `line`.
#[verifier::external_body]
fn is_match(p: &Pattern, line: &str) -> (r: bool)
    ensures
        r == regex_matches(p@, line@),
{
    p.re.is_match(line)
}

/// Compiles the search pattern; a refused pattern comes back as the regex crate's message.
pub fn compile(pattern: &str) -> (r: Result<Pattern, String>)
    ensures
        r is Ok == regex_compiles(pattern@),
        r matches Ok(p) ==> p@ == pattern@,
        r matches Err(e) ==> e@ == regex_error(pattern@),
{
    match regex_new(pattern) {
        Ok(re) => Ok(Pattern { text: crate::text::copy_str(pattern), re }),
        Err(e) => Err(e),
    }
}

/// The longest snippet a hit shows, in characters.
pub const SNIPPET_CHARS: usize = 120;

/// A matching line as a hit: the line trimmed and cut to [`SNIPPET_CHARS`] characters,
/// after the path and the 1-based line number.
pub open spec fn hit_row_spec(rel: Chars, number: nat, line: Chars) -> Chars {
    let t = trim(line);
    let snippet = if t.len() > SNIPPET_CHARS {
        t.take(SNIPPET_CHARS as int)
    } else {
        t
    };
    rel + ":"@ + dec_nat(number) + ": "@ + snippet
}

/// [`hit_row_spec`].
pub fn hit_row(rel: &str, number: u64, line: &str) -> (r: String)
    ensures
        r@ == hit_row_spec(rel@, number as nat, line@),
{
    let c = chars_of(line);
    let t = trim_chars(c.as_slice());
    let n = if t.len() > SNIPPET_CHARS {
        SNIPPET_CHARS
    } else {
        t.len()
    };
    let snippet = crate::text::string_of(t.as_slice(), 0, n);
    assert(snippet@ == if t@.len() > SNIPPET_CHARS {
        t@.take(SNIPPET_CHARS as int)
    } else {
        t@
    }) by {
        if t@.len() <= SNIPPET_CHARS {
            assert(t@.subrange(0, t@.len() as int) =~= t@);
        }
    }
    let mut r = crate::text::copy_str(rel);
    r.append(":");
    push_u64(&mut r, number);
    r.append(": ");
    r.append(snippet.as_str());
    r
}

/// The hits of the first `k` lines of a file: a row for each line the pattern matches.
pub open spec fn file_rows(rel: Chars, ls: Seq<Chars>, p: Chars, k: int) -> Seq<Chars>
    decreases k,
{
    if k <= 0 {
        Seq::empty()
    } else {
        let r = file_rows(rel, ls, p, k - 1);
        if regex_matches(p, ls[k - 1]) {
            r.push(hit_row_spec(rel, k as nat, ls[k - 1]))
        } else {
            r
        }
    }
}

/// What a file adds to the hits gathered so far: its rows, as many as the cap leaves room
/// for.
pub open spec fn search_file_spec(hits: Seq<Chars>, rel: Chars, text: Chars, p: Chars, cap: nat) -> Seq<Chars> {
    let rows = file_rows(rel, lines(text), p, lines(text).len() as int);
    let room: int = if hits.len() >= cap {
        0
    } else {
        cap - hits.len()
    };
    hits + rows.take(if rows.len() < room {
        rows.len() as int
    } else {
        room
    })
}

/// A file's rows grow one line at a time.
proof fn lemma_file_rows_grow(rel: Chars, ls: Seq<Chars>, p: Chars, k: int)
    requires
        0 <= k,
    ensures
        file_rows(rel, ls, p, k).len() <= k,
    decreases k,
{
    if k > 0 {
        lemma_file_rows_grow(rel, ls, p, k - 1);
    }
}

/// Adds the hits of one file, named `rel`, whose text is `text`, until `cap` hits are
/// gathered.
pub fn search_file(hits: &mut Vec<String>, rel: &str, text: &str, pattern: &Pattern, cap: usize)
    ensures
        views(final(hits)@) == search_file_spec(views(old(hits)@), rel@, text@, pattern@, cap as nat),
{
    let ls = lines_vec(text);
    let ghost lv = views(ls@);
    let ghost base = views(hits@);
    let ghost all = file_rows(rel@, lv, pattern@, lv.len() as int);
    let mut i: usize = 0;
    while i < ls.len() && hits.len() < cap
        invariant
            lv == views(ls@),
            lv == lines(text@),
            i <= ls@.len(),
            views(hits@).len() >= base.len(),
            views(hits@).len() - base.len() <= file_rows(rel@, lv, pattern@, i as int).len(),
            base.len() >= cap ==> views(hits@) == base,
            base.len() < cap ==> views(hits@).len() <= cap,
            views(hits@) == base + file_rows(rel@, lv, pattern@, i as int).take(
                (views(hits@).len() - base.len()) as int,
            ),
            views(hits@).len() < cap ==> views(hits@) == base + file_rows(rel@, lv, pattern@, i as int),
        decreases ls@.len() - i,
    {
        proof {
            lemma_file_rows_grow(rel@, lv, pattern@, i as int);
            let rows_i = file_rows(rel@, lv, pattern@, i as int);
            assert(rows_i.take(rows_i.len() as int) =~= rows_i);
        }
        let line = ls[i].as_str();
        let ghost before = views(hits@);
        if is_match(pattern, line) {
            let row = hit_row(rel, (i + 1) as u64, line);
            let ghost b = hits@;
            hits.push(row);
            assert(views(hits@) =~= views(b).push(row@));
        }
        proof {
            let rows_i = file_rows(rel@, lv, pattern@, i as int);
            let rows_n = file_rows(rel@, lv, pattern@, i + 1);
            assert(before == base + rows_i);
            let got = views(hits@);
            assert(rows_n.take(rows_n.len() as int) =~= rows_n);
            assert(got =~= base + rows_n.take((got.len() - base.len()) as int));
            lemma_file_rows_prefix(rel@, lv, pattern@, i as int, i + 1);
        }
        i += 1;
    }
    proof {
        let got = views(hits@);
        let all = file_rows(rel@, lv, pattern@, lv.len() as int);
        let rows_i = file_rows(rel@, lv, pattern@, i as int);
        lemma_file_rows_prefix(rel@, lv, pattern@, i as int, lv.len() as int);
        if base.len() >= cap {
            assert(all.take(0) =~= Seq::<Chars>::empty());
            assert(got =~= base + all.take(0));
        } else if got.len() < cap {
            assert(i == lv.len());
            assert(all.take(all.len() as int) =~= all);
        } else {
            let room = cap - base.len();
            assert(got.len() == cap);
            assert(all.take(room) =~= rows_i.take(room));
        }
    }
    assert(views(hits@) =~= search_file_spec(base, rel@, text@, pattern@, cap as nat));
}

/// The rows of fewer lines begin the rows of more.
proof fn lemma_file_rows_prefix(rel: Chars, ls: Seq<Chars>, p: Chars, j: int, k: int)
    requires
        0 <= j <= k,
    ensures
        file_rows(rel, ls, p, j).len() <= file_rows(rel, ls, p, k).len(),
        file_rows(rel, ls, p, j) == file_rows(rel, ls, p, k).take(file_rows(rel, ls, p, j).len() as int),
    decreases k - j,
{
    if j < k {
        lemma_file_rows_prefix(rel, ls, p, j, k - 1);
        let a = file_rows(rel, ls, p, k - 1);
        let b = file_rows(rel, ls, p, k);
        let n = file_rows(rel, ls, p, j).len() as int;
        assert(b.take(n) =~= a.take(n));
    } else {
        let a = file_rows(rel, ls, p, j);
        assert(a.take(a.len() as int) =~= a);
    }
}

/// `Path::strip_prefix`: when `prefix`'s components begin `path`'s, the components that
/// follow, written back as a path.
pub open spec fn strip_prefix_spec(path: Chars, prefix: Chars) -> Option<Chars> {
    let p = components(path);
    let r = components(prefix);
    if r.len() <= p.len() && p.take(r.len() as int) == r {
        Some(comps_text(p.skip(r.len() as int)))
    } else {
        None
    }
}

/// [`strip_prefix_spec`].
pub fn strip_prefix(path: &str, prefix: &str) -> (r: Option<String>)
    ensures
        match r {
            Some(s) => strip_prefix_spec(path@, prefix@) == Some(s@),
            None => strip_prefix_spec(path@, prefix@) is None,
        },
{
    let p = path_components(path);
    let r = path_components(prefix);
    if !crate::path::comps_prefix(&p, &r) {
        return None;
    }
    let ghost pv = comp_views(p@);
    let mut rest: Vec<Component> = Vec::new();
    let mut i = r.len();
    while i < p.len()
        invariant
            r@.len() <= i <= p@.len(),
            pv == comp_views(p@),
            comp_views(rest@) == pv.subrange(r@.len() as int, i as int),
        decreases p@.len() - i,
    {
        let c = crate::path::copy_component(&p[i]);
        let ghost before = rest@;
        rest.push(c);
        assert(comp_views(rest@) =~= comp_views(before).push(c@));
        assert(pv.subrange(r@.len() as int, i + 1) =~= pv.subrange(r@.len() as int, i as int).push(pv[i as int]));
        i += 1;
    }
    assert(pv.subrange(r@.len() as int, p@.len() as int) =~= pv.skip(r@.len() as int));
    Some(crate::path::path_text(&rest))
}

/// How a hit's path is shown: relative to the canonical working directory, else to the
/// working directory as given, else to the searched root, else whole.
pub open spec fn display_rel_spec(path: Chars, base: Chars, cwd: Chars, root: Chars) -> Chars {
    match strip_prefix_spec(path, base) {
        Some(s) => s,
        None => match strip_prefix_spec(path, cwd) {
            Some(s) => s,
            None => match strip_prefix_spec(path, root) {
                Some(s) => s,
                None => path,
            },
        },
    }
}

/// [`display_rel_spec`]; `base` is the canonical form of `cwd`.
pub fn display_rel(path: &str, base: &str, cwd: &str, root: &str) -> (r: String)
    ensures
        r@ == display_rel_spec(path@, base@, cwd@, root@),
{
    if let Some(s) = strip_prefix(path, base) {
        return s;
    }
    if let Some(s) = strip_prefix(path, cwd) {
        return s;
    }
    if let Some(s) = strip_prefix(path, root) {
        return s;
    }
    crate::text::copy_str(path)
}

} // verus!
