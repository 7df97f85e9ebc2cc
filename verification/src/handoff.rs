//! The spawn brief for sub-agents: pointers into what this session read or edited, most
//! recent first, each widened to the innermost indexed definitions it touched, with the
//! paths the task names first.

use vstd::prelude::*;

use crate::graph::concat;
use crate::text::{chars_of, contains, dec_int, find, find_spec, join, join_strings, push_i64, views, Chars};

verus! {

/// How many definition ranges one pointer carries: the newest three.
pub const MAX_RANGES: usize = 3;

/// Fixed instructions on every brief: how to use a pointer without paying for the file.
pub const INSTRUCTIONS: &'static str = "Read a slice with rtok read(mode=lines, range=a-b) before the whole file.\nGet the archived body with rtok expand <id>; answer with path:line citations.";

/// What the brief says when handoff is off.
pub const DISABLED: &'static str = "handoff disabled: Agent/Task results were 23 K of 2.83 M (0.8%) on the measured workload; enable [plugins.memory] handoff after sub-agents exceed 5 %.";

/// What the brief says when nothing was read or edited yet.
pub const NOTHING_YET: &'static str = "handoff: nothing read or edited yet.";

/// One recent `Read`, `Edit` or `Write` call, as the ledger reads it.
pub struct LedgerCall {
    pub tool: String,
    /// The file it names (`file_path`, else `path`).
    pub path: Option<String>,
    /// The session's directory at the call.
    pub cwd: Option<String>,
    /// A `Read`'s `offset` and `limit`, where given as integers.
    pub offset: Option<i64>,
    pub limit: Option<i64>,
    /// An `Edit`'s `new_string`.
    pub new_string: Option<String>,
}

/// Where one call landed in its file.
pub enum Touch {
    /// A `Read` line window.
    Lines(i32, i32),
    /// An `Edit`'s new text.
    Text(String),
}

/// A [`Touch`] as a value.
pub enum TouchV {
    Lines(i32, i32),
    Text(Chars),
}

impl View for Touch {
    type V = TouchV;

    open spec fn view(&self) -> TouchV {
        match self {
            Touch::Lines(a, b) => TouchV::Lines(*a, *b),
            Touch::Text(s) => TouchV::Text(s@),
        }
    }
}

/// One path the session touched: its directory at the first call, and where each call
/// landed.
pub struct Touched {
    pub path: String,
    pub cwd: String,
    pub touches: Vec<Touch>,
}

/// A [`Touched`] as a value.
pub type TouchedV = (Chars, Chars, Seq<TouchV>);

/// A call as a value.
pub type CallV = (Chars, Option<Chars>, Option<Chars>, Option<i64>, Option<i64>, Option<Chars>);

/// An optional text as a value.
pub open spec fn ov(o: Option<String>) -> Option<Chars> {
    match o {
        Some(s) => Some(s@),
        None => None,
    }
}

/// The views of the calls.
pub open spec fn calls_view(c: Seq<LedgerCall>) -> Seq<CallV> {
    Seq::new(c.len(), |i: int| (c[i].tool@, ov(c[i].path), ov(c[i].cwd), c[i].offset, c[i].limit, ov(c[i].new_string)))
}

/// The views of the touched paths.
pub open spec fn touched_view(t: Seq<Touched>) -> Seq<TouchedV> {
    Seq::new(t.len(), |i: int| (t[i].path@, t[i].cwd@, Seq::new(t[i].touches@.len(), |j: int| t[i].touches@[j]@)))
}

/// A line number as `i32`, the largest one where it does not fit.
pub open spec fn line_of(n: int) -> i32 {
    if i32::MIN <= n <= i32::MAX {
        n as i32
    } else {
        i32::MAX
    }
}

/// Where a call landed: a `Read` with an `offset` or a `limit` covers lines `offset` (at
/// least 1, by default 1) through `limit` lines on (at least 1, by default 2000); an `Edit`
/// with a non-empty `new_string` is that text; anything else has no place.
pub open spec fn touch_of(c: CallV) -> Option<TouchV> {
    let (tool, path, cwd, offset, limit, new_string) = c;
    if tool == "Read"@ && (offset is Some || limit is Some) {
        let o = match offset {
            Some(x) => x as int,
            None => 1,
        };
        let from = if o > 1 {
            o
        } else {
            1
        };
        let l = match limit {
            Some(x) => x as int,
            None => 2000,
        };
        let span = if l > 1 {
            l
        } else {
            1
        };
        let to = if from + span - 1 > i64::MAX {
            i64::MAX as int
        } else {
            from + span - 1
        };
        Some(TouchV::Lines(line_of(from), line_of(to)))
    } else if tool == "Edit"@ && (new_string matches Some(s) && s.len() > 0) {
        Some(TouchV::Text(new_string->Some_0))
    } else {
        None
    }
}

/// The first index of `path` among the touched paths, if any.
pub open spec fn index_of(t: Seq<TouchedV>, path: Chars) -> Option<int>
    decreases t.len(),
{
    if t.len() == 0 {
        None
    } else {
        match index_of(t.drop_last(), path) {
            Some(i) => Some(i),
            None => if t.last().0 == path {
                Some(t.len() - 1)
            } else {
                None
            },
        }
    }
}

/// The ledger: every `Read`, `Edit` or `Write` call that names a file, in order; each path
/// once, where it first came, with the directory of that first call (`.` if none) and the
/// places every call on it landed.
pub open spec fn ledger_spec(calls: Seq<CallV>) -> Seq<TouchedV>
    decreases calls.len(),
{
    if calls.len() == 0 {
        Seq::empty()
    } else {
        let t = ledger_spec(calls.drop_last());
        let c = calls.last();
        let (tool, path, cwd, offset, limit, new_string) = c;
        if !(tool == "Read"@ || tool == "Edit"@ || tool == "Write"@) || path is None {
            t
        } else {
            let p = path->Some_0;
            let add = match touch_of(c) {
                Some(x) => seq![x],
                None => Seq::empty(),
            };
            match index_of(t, p) {
                Some(i) => t.update(i, (t[i].0, t[i].1, t[i].2 + add)),
                None => t.push(
                    (
                        p,
                        match cwd {
                            Some(d) => d,
                            None => "."@,
                        },
                        add,
                    ),
                ),
            }
        }
    }
}

/// [`line_of`].
fn line_i32(n: i64) -> (r: i32)
    ensures
        r == line_of(n as int),
{
    if n <= 0x7fff_ffff && n >= -0x8000_0000 {
        n as i32
    } else {
        0x7fff_ffff
    }
}


/// An optional touch as a list of at most one.
pub open spec fn touch_seq(t: Option<Touch>) -> Seq<TouchV> {
    match t {
        Some(x) => seq![x@],
        None => Seq::empty(),
    }
}

/// [`touch_of`].
fn touch(c: &LedgerCall) -> (r: Option<Touch>)
    ensures
        match r {
            Some(t) => touch_of((c.tool@, ov(c.path), ov(c.cwd), c.offset, c.limit, ov(c.new_string)))
                == Some(t@),
            None => touch_of((c.tool@, ov(c.path), ov(c.cwd), c.offset, c.limit, ov(c.new_string)))
                is None,
        },
{
    let tool = c.tool.as_str();
    if crate::text::str_eq(tool, "Read") && (c.offset.is_some() || c.limit.is_some()) {
        let o = match c.offset {
            Some(x) => x,
            None => 1,
        };
        let from = if o > 1 {
            o
        } else {
            1
        };
        let l = match c.limit {
            Some(x) => x,
            None => 2000,
        };
        let span = if l > 1 {
            l
        } else {
            1
        };
        let to = if from > i64::MAX - (span - 1) {
            i64::MAX
        } else {
            from + (span - 1)
        };
        Some(Touch::Lines(line_i32(from), line_i32(to)))
    } else if crate::text::str_eq(tool, "Edit") {
        match &c.new_string {
            Some(s) => {
                let sc = chars_of(s.as_str());
                if sc.len() > 0 {
                    Some(Touch::Text(crate::text::copy_str(s.as_str())))
                } else {
                    None
                }
            },
            None => None,
        }
    } else {
        None
    }
}

/// [`ledger_spec`]: the paths the calls touched, in the order they first came.
pub fn ledger(calls: &Vec<LedgerCall>) -> (r: Vec<Touched>)
    ensures
        touched_view(r@) == ledger_spec(calls_view(calls@)),
{
    let ghost cv = calls_view(calls@);
    let mut out: Vec<Touched> = Vec::new();
    let mut i: usize = 0;
    while i < calls.len()
        invariant
            i <= calls@.len(),
            cv == calls_view(calls@),
            touched_view(out@) == ledger_spec(cv.take(i as int)),
        decreases calls@.len() - i,
    {
        assert(cv.take(i + 1).drop_last() =~= cv.take(i as int));
        assert(cv.take(i + 1).last() == cv[i as int]);
        let c = &calls[i];
        let t = c.tool.as_str();
        let kind = crate::text::str_eq(t, "Read") || crate::text::str_eq(t, "Edit")
            || crate::text::str_eq(t, "Write");
        if kind && c.path.is_some() {
            let p = match &c.path {
                Some(p) => p.as_str(),
                None => "",
            };
            let add = touch(c);
            let ghost tv = touched_view(out@);
            let ghost addv = touch_seq(add);
            let mut j: usize = 0;
            while j < out.len()
                invariant
                    j <= out@.len(),
                    tv == touched_view(out@),
                    index_of(tv.take(j as int), p@) is None,
                ensures
                    j <= out@.len(),
                    index_of(tv.take(j as int), p@) is None,
                    j < out@.len() ==> tv[j as int].0 == p@,
                decreases out@.len() - j,
            {
                assert(tv.take(j + 1).drop_last() =~= tv.take(j as int));
                if crate::text::str_eq(out[j].path.as_str(), p) {
                    break;
                }
                j += 1;
            }
            if j < out.len() {
                assert(tv.take(j + 1).drop_last() =~= tv.take(j as int));
                assert(tv.take(j + 1).last() == tv[j as int]);
                assert(index_of(tv.take(j + 1), p@) == Some(j as int));
                proof {
                    lemma_index_of_prefix(tv, p@, j as int);
                }
                let mut entry = out.remove(j);
                let ghost before = entry.touches@;
                match add {
                    Some(x) => {
                        entry.touches.push(x);
                    },
                    None => {},
                }
                assert(Seq::new(entry.touches@.len(), |k: int| entry.touches@[k]@) =~= Seq::new(
                    before.len(),
                    |k: int| before[k]@,
                ) + addv);
                out.insert(j, entry);
                assert(touched_view(out@) =~= tv.update(j as int, (tv[j as int].0, tv[j as int].1, tv[j as int].2 + addv)));
            } else {
                assert(tv.take(out@.len() as int) =~= tv);
                let cwd = match &c.cwd {
                    Some(d) => crate::text::copy_str(d.as_str()),
                    None => ".".to_owned(),
                };
                let mut touches: Vec<Touch> = Vec::new();
                match add {
                    Some(x) => {
                        touches.push(x);
                    },
                    None => {},
                }
                let entry = Touched { path: crate::text::copy_str(p), cwd, touches };
                let ghost before = out@;
                out.push(entry);
                assert(Seq::new(entry.touches@.len(), |k: int| entry.touches@[k]@) =~= addv);
                assert(touched_view(out@) =~= touched_view(before).push((entry.path@, entry.cwd@, addv)));
            }
        }
        i += 1;
    }
    assert(cv.take(cv.len() as int) =~= cv);
    out
}

/// A first index found in a prefix is the first index overall.
proof fn lemma_index_of_prefix(t: Seq<TouchedV>, p: Chars, j: int)
    requires
        0 <= j < t.len(),
        index_of(t.take(j + 1), p) == Some(j),
    ensures
        index_of(t, p) == Some(j),
    decreases t.len() - j,
{
    if j + 1 < t.len() {
        assert(t.take(j + 2).drop_last() =~= t.take(j + 1));
        lemma_index_of_prefix_grow(t, p, j, j + 2);
    } else {
        assert(t.take(j + 1) =~= t);
    }
}

/// Growing the prefix keeps a found index.
proof fn lemma_index_of_prefix_grow(t: Seq<TouchedV>, p: Chars, j: int, n: int)
    requires
        0 <= j < n <= t.len(),
        index_of(t.take(n - 1), p) == Some(j),
    ensures
        index_of(t, p) == Some(j),
    decreases t.len() - n,
{
    assert(t.take(n).drop_last() =~= t.take(n - 1));
    if n < t.len() {
        lemma_index_of_prefix_grow(t, p, j, n + 1);
    } else {
        assert(t.take(n) =~= t);
    }
}


// ---------------------------------------------------------------------------------------
// Definition ranges
// ---------------------------------------------------------------------------------------

/// How often `c` occurs in `s`.
pub open spec fn count_char(s: Chars, c: char) -> nat
    decreases s.len(),
{
    if s.len() == 0 {
        0
    } else {
        count_char(s.drop_last(), c) + if s.last() == c {
            1nat
        } else {
            0nat
        }
    }
}

/// `s` without its trailing line breaks.
pub open spec fn trim_end_newlines(s: Chars) -> Chars
    decreases s.len(),
{
    if s.len() > 0 && s.last() == '\n' {
        trim_end_newlines(s.drop_last())
    } else {
        s
    }
}

/// The lines a touch covers in the file: a read's window as given; an edit's text where it
/// first occurs in the file (from its line through as many lines as it spans), if it does.
/// Line numbers are `i32`s and wrap as the release build's arithmetic does.
pub open spec fn touch_span(t: TouchV, text: Option<Chars>) -> Option<(int, int)> {
    match t {
        TouchV::Lines(a, b) => Some((a as int, b as int)),
        TouchV::Text(s) => match text {
            None => None,
            Some(x) => match find_spec(x, s) {
                None => None,
                Some(at) => {
                    let from = (count_char(x.take(at), '\n') as i32).wrapping_add(1);
                    Some(
                        (
                            from as int,
                            from.wrapping_add(count_char(trim_end_newlines(s), '\n') as i32) as int,
                        ),
                    )
                },
            },
        },
    }
}

/// A definition by name, first line and last line.
pub type DefV = (Chars, i32, i32);

/// Whether a definition encloses lines `from` through `to`.
pub open spec fn encloses(d: DefV, from: int, to: int) -> bool {
    d.1 <= from && d.2 >= to
}

/// The innermost of the first `n` definitions enclosing the lines: the narrowest, the
/// first of equally narrow ones.
pub open spec fn innermost(defs: Seq<DefV>, n: int, from: int, to: int) -> Option<int>
    decreases n,
{
    if n <= 0 {
        None
    } else {
        let b = innermost(defs, n - 1, from, to);
        let d = defs[n - 1];
        if encloses(d, from, to) {
            match b {
                None => Some(n - 1),
                Some(i) => if d.2 - d.1 < defs[i].2 - defs[i].1 {
                    Some(n - 1)
                } else {
                    Some(i)
                },
            }
        } else {
            b
        }
    }
}

/// The ranges of the first `n` touches: each widened to its innermost enclosing definition
/// (as `(line, end_line, name)`), each once, at most [`MAX_RANGES`].
pub open spec fn ranges_spec(defs: Seq<DefV>, touches: Seq<TouchV>, text: Option<Chars>, n: int) -> Seq<
    (i32, i32, Chars),
>
    decreases n,
{
    if n <= 0 {
        Seq::empty()
    } else {
        let out = ranges_spec(defs, touches, text, n - 1);
        if out.len() >= 3 {
            out
        } else {
            match touch_span(touches[n - 1], text) {
                None => out,
                Some((from, to)) => match innermost(defs, defs.len() as int, from, to) {
                    None => out,
                    Some(i) => {
                        let r = (defs[i].1, defs[i].2, defs[i].0);
                        if out.contains(r) {
                            out
                        } else {
                            out.push(r)
                        }
                    },
                },
            }
        }
    }
}

/// The definitions as values.
pub open spec fn defs_view(d: Seq<(String, i32, i32)>) -> Seq<DefV> {
    Seq::new(d.len(), |i: int| (d[i].0@, d[i].1, d[i].2))
}

/// The ranges as values.
pub open spec fn ranges_view(r: Seq<(i32, i32, String)>) -> Seq<(i32, i32, Chars)> {
    Seq::new(r.len(), |i: int| (r[i].0, r[i].1, r[i].2@))
}

/// How often `c` occurs in `v[..n]`.
fn count_in(v: &[char], n: usize, c: char) -> (k: usize)
    requires
        n <= v@.len(),
    ensures
        k == count_char(v@.take(n as int), c),
        k <= n,
{
    let mut k: usize = 0;
    let mut i: usize = 0;
    while i < n
        invariant
            i <= n <= v@.len(),
            k == count_char(v@.take(i as int), c),
            k <= i,
        decreases n - i,
    {
        assert(v@.take(i + 1).drop_last() =~= v@.take(i as int));
        if v[i] == c {
            k += 1;
        }
        i += 1;
    }
    k
}

/// [`trim_end_newlines`]: the length left.
fn trimmed_len(v: &[char]) -> (n: usize)
    ensures
        n <= v@.len(),
        v@.take(n as int) == trim_end_newlines(v@),
{
    let mut n = v.len();
    assert(v@.take(n as int) =~= v@);
    while n > 0 && v[n - 1] == '\n'
        invariant
            n <= v@.len(),
            trim_end_newlines(v@) == trim_end_newlines(v@.take(n as int)),
        decreases n,
    {
        assert(v@.take(n as int).drop_last() =~= v@.take(n - 1));
        n -= 1;
    }
    n
}

/// [`touch_span`].
fn span(t: &Touch, text: &Option<Vec<char>>) -> (r: Option<(i32, i32)>)
    ensures
        match r {
            Some((a, b)) => touch_span(t@, match text {
                Some(x) => Some(x@),
                None => None,
            }) == Some((a as int, b as int)),
            None => touch_span(t@, match text {
                Some(x) => Some(x@),
                None => None,
            }) is None,
        },
{
    match t {
        Touch::Lines(a, b) => Some((*a, *b)),
        Touch::Text(s) => match text {
            None => None,
            Some(x) => {
                let sc = chars_of(s.as_str());
                match find(x.as_slice(), sc.as_slice()) {
                    None => None,
                    Some(at) => {
                        let before = count_in(x.as_slice(), at, '\n');
                        let m = trimmed_len(sc.as_slice());
                        let inside = count_in(sc.as_slice(), m, '\n');
                        proof {
                            assert(crate::text::occurs_at(x@, sc@, at as int));
                        }
                        let from = (before as i32).wrapping_add(1);
                        Some((from, from.wrapping_add(inside as i32)))
                    },
                }
            },
        },
    }
}

/// [`ranges_spec`]: the definition ranges of where the touches landed.
pub fn symbol_ranges(defs: &Vec<(String, i32, i32)>, touches: &Vec<Touch>, text: Option<&str>) -> (r: Vec<
    (i32, i32, String),
>)
    ensures
        ranges_view(r@) == ranges_spec(
            defs_view(defs@),
            Seq::new(touches@.len(), |i: int| touches@[i]@),
            match text {
                Some(x) => Some(x@),
                None => None,
            },
            touches@.len() as int,
        ),
{
    let ghost dv = defs_view(defs@);
    let ghost tv = Seq::new(touches@.len(), |i: int| touches@[i]@);
    let ghost xv: Option<Chars> = match text {
        Some(x) => Some(x@),
        None => None,
    };
    let tc: Option<Vec<char>> = match text {
        Some(x) => Some(chars_of(x)),
        None => None,
    };
    let mut out: Vec<(i32, i32, String)> = Vec::new();
    let mut i: usize = 0;
    while i < touches.len()
        invariant
            i <= touches@.len(),
            dv == defs_view(defs@),
            tv == Seq::new(touches@.len(), |m: int| touches@[m]@),
            xv == match tc {
                Some(x) => Some(x@),
                None => None::<Chars>,
            },
            ranges_view(out@) == ranges_spec(dv, tv, xv, i as int),
            out@.len() <= 3,
        decreases touches@.len() - i,
    {
        if out.len() < 3 {
            match span(&touches[i], &tc) {
                None => {},
                Some((from, to)) => {
                    let mut best: Option<usize> = None;
                    let mut k: usize = 0;
                    while k < defs.len()
                        invariant
                            k <= defs@.len(),
                            dv == defs_view(defs@),
                            match best {
                                Some(b) => innermost(dv, k as int, from as int, to as int) == Some(b as int) && b < k,
                                None => innermost(dv, k as int, from as int, to as int) is None,
                            },
                        decreases defs@.len() - k,
                    {
                        let (line, end) = (defs[k].1, defs[k].2);
                        if line <= from && end >= to {
                            best = match best {
                                None => Some(k),
                                Some(b) => if (end as i64) - (line as i64) < (defs[b].2 as i64) - (defs[b].1 as i64) {
                                    Some(k)
                                } else {
                                    Some(b)
                                },
                            };
                        }
                        k += 1;
                    }
                    match best {
                        None => {},
                        Some(b) => {
                            let name = crate::text::copy_str(defs[b].0.as_str());
                            let line = defs[b].1;
                            let end = defs[b].2;
                            let mut seen = false;
                            let mut m: usize = 0;
                            while m < out.len()
                                invariant
                                    m <= out@.len(),
                                    !seen ==> forall|q: int| 0 <= q < m ==> ranges_view(out@)[q] != (line, end, name@),
                                    seen ==> ranges_view(out@).contains((line, end, name@)),
                                decreases out@.len() - m,
                            {
                                if !seen && out[m].0 == line && out[m].1 == end && crate::text::str_eq(out[m].2.as_str(), name.as_str()) {
                                    seen = true;
                                    assert(ranges_view(out@)[m as int] == (line, end, name@));
                                }
                                m += 1;
                            }
                            if !seen {
                                let ghost before = out@;
                                out.push((line, end, name));
                                assert(ranges_view(out@) =~= ranges_view(before).push((line, end, defs@[b as int].0@)));
                            }
                        },
                    }
                },
            }
        }
        i += 1;
    }
    out
}


// ---------------------------------------------------------------------------------------
// The brief
// ---------------------------------------------------------------------------------------

/// One pointer of the brief: a path, the archive id of its last full read if one is kept,
/// and its definition ranges.
pub struct Pointer {
    pub path: String,
    pub archive_id: Option<String>,
    pub ranges: Vec<(i32, i32, String)>,
}

/// A [`Pointer`] as a value.
pub type PointerV = (Chars, Option<Chars>, Seq<(i32, i32, Chars)>);

/// The pointers as values.
pub open spec fn pointers_view(p: Seq<Pointer>) -> Seq<PointerV> {
    Seq::new(p.len(), |i: int| (p[i].path@, ov(p[i].archive_id), ranges_view(p[i].ranges@)))
}

/// One range as `a-b name`.
pub open spec fn span_text(r: (i32, i32, Chars)) -> Chars {
    dec_int(r.0 as int) + "-"@ + dec_int(r.1 as int) + " "@ + r.2
}

/// One pointer's line: the path, its ranges after a colon when `ranged` and it has some,
/// then the archive pointer when it has one.
pub open spec fn pointer_line(p: PointerV, ranged: bool) -> Chars {
    let base = if ranged && p.2.len() > 0 {
        p.0 + ":"@ + join(Seq::new(p.2.len(), |i: int| span_text(p.2[i])), ", "@)
    } else {
        p.0
    };
    match p.1 {
        Some(id) => base + " — rtok expand "@ + id,
        None => base,
    }
}

/// The pointers whose path the hint names, then the rest, each group in its order.
pub open spec fn by_hint(ps: Seq<PointerV>, hint: Chars) -> Seq<PointerV> {
    ps.filter(|p: PointerV| contains(hint, p.0)) + ps.filter(|p: PointerV| !contains(hint, p.0))
}

/// The brief's digest: one line per pointer, the hinted paths first, then the
/// instructions.
pub open spec fn digest_spec(ps: Seq<PointerV>, hint: Chars, ranged: bool) -> Chars {
    let o = by_hint(ps, hint);
    join(Seq::new(o.len(), |i: int| pointer_line(o[i], ranged)), "\n"@) + "\n"@ + INSTRUCTIONS@
}

/// [`pointer_line`].
fn pointer_text(p: &Pointer, ranged: bool) -> (r: String)
    ensures
        r@ == pointer_line((p.path@, ov(p.archive_id), ranges_view(p.ranges@)), ranged),
{
    let mut line = crate::text::copy_str(p.path.as_str());
    if ranged && p.ranges.len() > 0 {
        let ghost rv = ranges_view(p.ranges@);
        let mut spans: Vec<String> = Vec::new();
        let mut i: usize = 0;
        while i < p.ranges.len()
            invariant
                i <= p.ranges@.len(),
                rv == ranges_view(p.ranges@),
                views(spans@) == Seq::new(rv.len(), |m: int| span_text(rv[m])).take(i as int),
            decreases p.ranges@.len() - i,
        {
            let mut t = String::new();
            push_i64(&mut t, p.ranges[i].0 as i64);
            t.append("-");
            push_i64(&mut t, p.ranges[i].1 as i64);
            t.append(" ");
            t.append(p.ranges[i].2.as_str());
            let ghost before = spans@;
            spans.push(t);
            assert(views(spans@) =~= views(before).push(t@));
            assert(Seq::new(rv.len(), |m: int| span_text(rv[m])).take(i + 1) =~= Seq::new(
                rv.len(),
                |m: int| span_text(rv[m]),
            ).take(i as int).push(span_text(rv[i as int])));
            i += 1;
        }
        assert(Seq::new(rv.len(), |m: int| span_text(rv[m])).take(rv.len() as int) =~= Seq::new(
            rv.len(),
            |m: int| span_text(rv[m]),
        ));
        line.append(":");
        let j = join_strings(spans.as_slice(), ", ");
        line.append(j.as_str());
    }
    match &p.archive_id {
        Some(id) => {
            line.append(" — rtok expand ");
            line.append(id.as_str());
        },
        None => {},
    }
    line
}

/// [`digest_spec`]: the brief's digest of the pointers, hinted paths first.
pub fn brief_digest(pointers: &Vec<Pointer>, hint: &str, ranged: bool) -> (r: String)
    ensures
        r@ == digest_spec(pointers_view(pointers@), hint@, ranged),
{
    let ghost pv = pointers_view(pointers@);
    let h = chars_of(hint);
    let mut first: Vec<String> = Vec::new();
    let mut rest: Vec<String> = Vec::new();
    let ghost fa = |p: PointerV| contains(hint@, p.0);
    let ghost fb = |p: PointerV| !contains(hint@, p.0);
    let mut i: usize = 0;
    while i < pointers.len()
        invariant
            i <= pointers@.len(),
            pv == pointers_view(pointers@),
            h@ == hint@,
            fa == (|p: PointerV| contains(hint@, p.0)),
            fb == (|p: PointerV| !contains(hint@, p.0)),
            views(first@) == {
                let o = pv.take(i as int).filter(fa);
                Seq::new(o.len(), |m: int| pointer_line(o[m], ranged))
            },
            views(rest@) == {
                let o = pv.take(i as int).filter(fb);
                Seq::new(o.len(), |m: int| pointer_line(o[m], ranged))
            },
        decreases pointers@.len() - i,
    {
        let line = pointer_text(&pointers[i], ranged);
        let pc = chars_of(pointers[i].path.as_str());
        let hinted = crate::text::find(h.as_slice(), pc.as_slice()).is_some();
        let ghost p = pv[i as int];
        assert(pv.take(i + 1) =~= pv.take(i as int).push(p));
        proof {
            reveal(Seq::filter);
            assert(pv.take(i + 1).drop_last() =~= pv.take(i as int));
            assert(pv.take(i + 1).last() == p);
        }
        if hinted {
            let ghost before = first@;
            first.push(line);
            assert(views(first@) =~= views(before).push(line@));
        } else {
            let ghost before = rest@;
            rest.push(line);
            assert(views(rest@) =~= views(before).push(line@));
        }
        i += 1;
    }
    assert(pv.take(pv.len() as int) =~= pv);
    let ghost o = by_hint(pv, hint@);
    let ghost oa = pv.filter(fa);
    let ghost ob = pv.filter(fb);
    assert(o =~= oa + ob);
    let mut all = first;
    let mut k: usize = 0;
    let ghost base = all@;
    while k < rest.len()
        invariant
            k <= rest@.len(),
            views(all@) == views(base) + views(rest@).take(k as int),
        decreases rest@.len() - k,
    {
        let ghost before = all@;
        all.push(crate::text::copy_str(rest[k].as_str()));
        assert(views(all@) =~= views(before).push(rest@[k as int]@));
        assert(views(rest@).take(k + 1) =~= views(rest@).take(k as int).push(rest@[k as int]@));
        k += 1;
    }
    assert(views(rest@).take(rest@.len() as int) =~= views(rest@));
    assert(views(all@) =~= Seq::new(o.len(), |m: int| pointer_line(o[m], ranged)));
    let mut out = join_strings(all.as_slice(), "\n");
    out.append("\n");
    out.append(INSTRUCTIONS);
    out
}

/// The trailer after the digest: the archive id of the whole digest and how to expand it.
pub open spec fn trailer_spec(id: Chars) -> Chars {
    "\n[rtok "@ + id + " · expand: rtok expand "@ + id + "]"@
}

/// [`trailer_spec`].
pub fn brief_trailer(id: &str) -> (r: String)
    ensures
        r@ == trailer_spec(id@),
{
    let mut s = "\n[rtok ".to_owned();
    s.append(id);
    s.append(" · expand: rtok expand ");
    s.append(id);
    s.append("]");
    s
}

/// The `handoff` tool's answer: the brief while handoff is on (or that nothing was read or
/// edited yet), the notice that it is off otherwise.
pub fn handoff_text(enabled: bool, brief: Option<String>) -> (r: String)
    ensures
        !enabled ==> r@ == DISABLED@,
        enabled ==> r@ == match brief {
            Some(b) => b@,
            None => NOTHING_YET@,
        },
{
    if !enabled {
        return DISABLED.to_owned();
    }
    match brief {
        Some(b) => b,
        None => NOTHING_YET.to_owned(),
    }
}

} // verus!
