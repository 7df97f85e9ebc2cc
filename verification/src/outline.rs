//! File outlines for `mode=map` / `mode=signatures`: Markdown headings by a line scan,
//! other languages from tags-query hits, and a numbered first page for anything unknown.

use vstd::prelude::*;

use crate::text::{
    chars_of, dec_nat, eq_lit, join, join_strings, lines, lines_vec, push_all, push_u64,
    starts_with, str_eq, string_from, trim, trim_chars, trim_end, views, words, Chars,
};

verus! {

// ---------------------------------------------------------------------------------------
// Markdown headings
// ---------------------------------------------------------------------------------------

/// One ATX heading: 1-based line, `#` level, full trimmed line, first body line.
pub struct MdHeading {
    pub line: usize,
    pub level: usize,
    pub text: String,
    pub body: Option<String>,
}

/// A heading as a value.
pub struct HeadingV {
    pub line: int,
    pub level: int,
    pub text: Chars,
    pub body: Option<Chars>,
}

/// The view of an optional string.
pub open spec fn opt_string(o: Option<String>) -> Option<Chars> {
    match o {
        Some(s) => Some(s@),
        None => None,
    }
}

impl View for MdHeading {
    type V = HeadingV;

    open spec fn view(&self) -> HeadingV {
        HeadingV {
            line: self.line as int,
            level: self.level as int,
            text: self.text@,
            body: opt_string(self.body),
        }
    }
}

/// The views of a list of headings.
pub open spec fn heading_views(v: Seq<MdHeading>) -> Seq<HeadingV> {
    Seq::new(v.len(), |i: int| v[i]@)
}

/// How many times `c` repeats at the start of `t`.
pub open spec fn lead_count(t: Chars, c: char) -> nat
    decreases t.len(),
{
    if t.len() > 0 && t[0] == c {
        1 + lead_count(t.drop_first(), c)
    } else {
        0
    }
}

/// A heading's level: its leading `#`s, between 1 and 6.
pub open spec fn level_of(t: Chars) -> int {
    let n = lead_count(t, '#');
    if n < 1 {
        1
    } else if n > 6 {
        6
    } else {
        n as int
    }
}

/// The headings found in the first lines `ls`, whether a fence is open after them, and
/// which heading still waits for its first body line.
pub open spec fn md_scan(ls: Seq<Chars>) -> (Seq<HeadingV>, bool, Option<int>)
    decreases ls.len(),
{
    if ls.len() == 0 {
        (Seq::empty(), false, None)
    } else {
        let (out, fenced, slot) = md_scan(ls.drop_last());
        let t = trim(ls.last());
        if starts_with(t, "```"@) {
            (out, !fenced, slot)
        } else if fenced {
            (out, fenced, slot)
        } else if t.len() > 0 && t[0] == '#' {
            (
                out.push(HeadingV { line: ls.len() as int, level: level_of(t), text: t, body: None }),
                fenced,
                Some(out.len() as int),
            )
        } else if slot is Some && t.len() > 0 {
            let j = slot->Some_0;
            (out.update(j, HeadingV { body: Some(t), ..out[j] }), fenced, None)
        } else {
            (out, fenced, slot)
        }
    }
}

/// `#` headings of `src` with their first non-empty body line; fenced blocks skipped.
pub open spec fn md_headings(src: Chars) -> Seq<HeadingV> {
    md_scan(lines(src)).0
}

proof fn lemma_md_scan_slot(ls: Seq<Chars>)
    ensures
        md_scan(ls).2 matches Some(j) ==> 0 <= j < md_scan(ls).0.len(),
    decreases ls.len(),
{
    if ls.len() > 0 {
        lemma_md_scan_slot(ls.drop_last());
    }
}

/// [`lead_count`] of `#`.
fn hash_count(t: &[char]) -> (n: usize)
    ensures
        n == lead_count(t@, '#'),
{
    let mut i: usize = 0;
    assert(t@.skip(0) == t@);
    while i < t.len() && t[i] == '#'
        invariant
            i <= t@.len(),
            lead_count(t@, '#') == i + lead_count(t@.skip(i as int), '#'),
        decreases t@.len() - i,
    {
        assert(t@.skip(i as int).drop_first() == t@.skip(i + 1));
        i += 1;
    }
    i
}

/// [`md_headings`].
pub fn markdown_headings(src: &str) -> (r: Vec<MdHeading>)
    ensures
        heading_views(r@) == md_headings(src@),
{
    let ls = lines_vec(src);
    let ghost lv = views(ls@);
    let mut line_no: Vec<usize> = Vec::new();
    let mut levels: Vec<usize> = Vec::new();
    let mut texts: Vec<String> = Vec::new();
    let mut bodies: Vec<Option<String>> = Vec::new();
    let mut fenced = false;
    let mut slot: Option<usize> = None;
    proof {
        reveal_strlit("```");
    }
    let mut i: usize = 0;
    while i < ls.len()
        invariant
            lv == views(ls@),
            i <= ls@.len(),
            line_no@.len() == levels@.len(),
            line_no@.len() == texts@.len(),
            line_no@.len() == bodies@.len(),
            ({
                let (out, f, sl) = md_scan(lv.take(i as int));
                &&& out.len() == line_no@.len()
                &&& forall|k: int|
                    0 <= k < out.len() ==> (#[trigger] out[k]).line == line_no@[k] as int
                        && out[k].level == levels@[k] as int && out[k].text == texts@[k]@
                        && out[k].body == opt_string(bodies@[k])
                &&& f == fenced
                &&& sl == match slot {
                    Some(j) => Some(j as int),
                    None => None,
                }
            }),
        decreases ls@.len() - i,
    {
        assert(lv.take(i + 1).drop_last() == lv.take(i as int));
        proof {
            lemma_md_scan_slot(lv.take(i as int));
        }
        let raw = chars_of(ls[i].as_str());
        assert(lv[i as int] == raw@);
        let t = trim_chars(raw.as_slice());
        if crate::text::prefix_lit(t.as_slice(), "```") {
            fenced = !fenced;
        } else if fenced {
        } else if t.len() > 0 && t[0] == '#' {
            let n = hash_count(t.as_slice());
            let level = if n < 1 {
                1
            } else if n > 6 {
                6
            } else {
                n
            };
            line_no.push(i + 1);
            levels.push(level);
            texts.push(string_from(t.as_slice()));
            bodies.push(None);
            slot = Some(line_no.len() - 1);
        } else if slot.is_some() && t.len() > 0 {
            let j = slot.unwrap();
            bodies.set(j, Some(string_from(t.as_slice())));
            slot = None;
        }
        i += 1;
    }
    assert(lv.take(lv.len() as int) == lv);
    let mut out: Vec<MdHeading> = Vec::new();
    let mut k: usize = 0;
    while k < line_no.len()
        invariant
            k <= line_no@.len(),
            line_no@.len() == levels@.len(),
            line_no@.len() == texts@.len(),
            line_no@.len() == bodies@.len(),
            out@.len() == k,
            ({
                let hs = md_headings(src@);
                &&& hs.len() == line_no@.len()
                &&& forall|m: int|
                    0 <= m < hs.len() ==> (#[trigger] hs[m]).line == line_no@[m] as int
                        && hs[m].level == levels@[m] as int && hs[m].text == texts@[m]@
                        && hs[m].body == opt_string(bodies@[m])
            }),
            forall|m: int| 0 <= m < k ==> (#[trigger] out@[m])@ == md_headings(src@)[m],
        decreases line_no@.len() - k,
    {
        let body = match &bodies[k] {
            Some(b) => Some(crate::text::copy_str(b.as_str())),
            None => None,
        };
        out.push(
            MdHeading {
                line: line_no[k],
                level: levels[k],
                text: crate::text::copy_str(texts[k].as_str()),
                body,
            },
        );
        k += 1;
    }
    assert(heading_views(out@) =~= md_headings(src@));
    out
}


/// One heading's lines in the skill digest: the heading, then its body line indented.
pub open spec fn digest_entry(h: HeadingV) -> Chars {
    h.text + "\n"@ + match h.body {
        Some(b) => "  "@ + b + "\n"@,
        None => Seq::empty(),
    }
}

/// The digest of a list of headings.
pub open spec fn digest_of(hs: Seq<HeadingV>) -> Chars
    decreases hs.len(),
{
    if hs.len() == 0 {
        Seq::empty()
    } else {
        digest_of(hs.drop_last()) + digest_entry(hs.last())
    }
}

/// Heading map for a skill digest: each heading line, then its first body line indented.
pub fn markdown_digest(src: &str) -> (r: String)
    ensures
        r@ == digest_of(md_headings(src@)),
{
    let hs = markdown_headings(src);
    let ghost hv = heading_views(hs@);
    let mut s = String::new();
    let mut i: usize = 0;
    while i < hs.len()
        invariant
            hv == heading_views(hs@),
            i <= hs@.len(),
            s@ == digest_of(hv.take(i as int)),
        decreases hs@.len() - i,
    {
        assert(hv.take(i + 1).drop_last() == hv.take(i as int));
        let h = &hs[i];
        assert(hv[i as int] == h@);
        s.append(h.text.as_str());
        s.append("\n");
        match &h.body {
            Some(b) => {
                s.append("  ");
                s.append(b.as_str());
                s.append("\n");
            },
            None => {},
        }
        i += 1;
    }
    assert(hv.take(hv.len() as int) == hv);
    s
}

/// A heading's title: its text past the leading `#`s, trimmed.
pub open spec fn title_of(text: Chars) -> Chars {
    trim(text.skip(lead_count(text, '#') as int))
}

/// One `mode=map` row for a heading: `h{level} {title} {line}`, then its body indented.
pub open spec fn map_row(h: HeadingV) -> Chars {
    "h"@ + dec_nat(h.level as nat) + " "@ + title_of(h.text) + " "@ + dec_nat(h.line as nat)
        + match h.body {
        Some(b) => "\n  "@ + b,
        None => Seq::empty(),
    }
}

/// The Markdown outline: heading lines verbatim for `signatures`, map rows otherwise.
pub open spec fn md_render_spec(hs: Seq<HeadingV>, mode: Chars) -> Chars {
    if mode == "signatures"@ {
        join(Seq::new(hs.len(), |i: int| hs[i].text), "\n"@)
    } else {
        join(Seq::new(hs.len(), |i: int| map_row(hs[i])), "\n"@)
    }
}

proof fn lemma_lead_count_bound(t: Chars, c: char)
    ensures
        lead_count(t, c) <= t.len(),
    decreases t.len(),
{
    if t.len() > 0 && t[0] == c {
        lemma_lead_count_bound(t.drop_first(), c);
    }
}

/// [`md_render_spec`].
fn markdown_render(hs: &Vec<MdHeading>, mode: &str) -> (r: String)
    ensures
        r@ == md_render_spec(heading_views(hs@), mode@),
{
    let ghost hv = heading_views(hs@);
    let sig = str_eq(mode, "signatures");
    let mut rows: Vec<String> = Vec::new();
    let mut i: usize = 0;
    while i < hs.len()
        invariant
            hv == heading_views(hs@),
            i <= hs@.len(),
            rows@.len() == i,
            sig == (mode@ == "signatures"@),
            forall|k: int|
                0 <= k < i ==> (#[trigger] rows@[k])@ == (if sig {
                    hv[k].text
                } else {
                    map_row(hv[k])
                }),
        decreases hs@.len() - i,
    {
        let h = &hs[i];
        assert(hv[i as int] == h@);
        if sig {
            rows.push(crate::text::copy_str(h.text.as_str()));
        } else {
            let tc = chars_of(h.text.as_str());
            let n = hash_count(tc.as_slice());
            proof {
                lemma_lead_count_bound(tc@, '#');
            }
            let rest = crate::text::skip_chars(tc.as_slice(), n);
            let title = trim_chars(rest.as_slice());
            let mut row = "h".to_owned();
            push_u64(&mut row, h.level as u64);
            row.append(" ");
            push_all(&mut row, title.as_slice());
            row.append(" ");
            push_u64(&mut row, h.line as u64);
            match &h.body {
                Some(b) => {
                    row.append("\n  ");
                    row.append(b.as_str());
                },
                None => {},
            }
            rows.push(row);
        }
        i += 1;
    }
    let r = join_strings(rows.as_slice(), "\n");
    if sig {
        assert(views(rows@) =~= Seq::new(hv.len(), |k: int| hv[k].text));
    } else {
        assert(views(rows@) =~= Seq::new(hv.len(), |k: int| map_row(hv[k])));
    }
    r
}

/// The first page of an unknown language: up to 60 lines numbered `{n}:{line}`, then a note.
pub open spec fn fallback_spec(src: Chars) -> Chars {
    let ls = lines(src);
    let n = if ls.len() < 60 {
        ls.len() as int
    } else {
        60
    };
    join(Seq::new(n as nat, |i: int| dec_nat((i + 1) as nat) + ":"@ + ls[i]), "\n"@)
        + "\n(note: unknown language, showing lines 1-60)"@
}

/// [`fallback_spec`].
fn fallback(src: &str) -> (r: String)
    ensures
        r@ == fallback_spec(src@),
{
    let ls = lines_vec(src);
    let ghost lv = views(ls@);
    let n: usize = if ls.len() < 60 {
        ls.len()
    } else {
        60
    };
    let mut rows: Vec<String> = Vec::new();
    let mut i: usize = 0;
    while i < n
        invariant
            lv == views(ls@),
            n <= ls@.len(),
            n <= 60,
            i <= n,
            rows@.len() == i,
            forall|k: int|
                0 <= k < i ==> (#[trigger] rows@[k])@ == dec_nat((k + 1) as nat) + ":"@ + lv[k],
        decreases n - i,
    {
        let mut row = String::new();
        push_u64(&mut row, (i + 1) as u64);
        row.append(":");
        row.append(ls[i].as_str());
        assert(lv[i as int] == ls@[i as int]@);
        rows.push(row);
        i += 1;
    }
    let mut r = join_strings(rows.as_slice(), "\n");
    assert(views(rows@) =~= Seq::new(n as nat, |k: int| dec_nat((k + 1) as nat) + ":"@ + lv[k]));
    r.append("\n(note: unknown language, showing lines 1-60)");
    r
}


// ---------------------------------------------------------------------------------------
// Import names
// ---------------------------------------------------------------------------------------

/// A quote an import specifier may be wrapped in.
pub open spec fn is_quote(c: char) -> bool {
    c == '"' || c == '\'' || c == '`'
}

/// Quotes dropped from the start.
pub open spec fn strip_quotes_start(s: Chars) -> Chars
    decreases s.len(),
{
    if s.len() > 0 && is_quote(s[0]) {
        strip_quotes_start(s.drop_first())
    } else {
        s
    }
}

/// Quotes dropped from the end.
pub open spec fn strip_quotes_end(s: Chars) -> Chars
    decreases s.len(),
{
    if s.len() > 0 && is_quote(s.last()) {
        strip_quotes_end(s.drop_last())
    } else {
        s
    }
}

/// One source-file suffix dropped, the first of `.dart .tsx .ts .mjs .cjs .jsx .js` that ends
/// the specifier.
pub open spec fn strip_source_ext(t: Chars) -> Chars {
    if crate::text::ends_with(t, ".dart"@) {
        t.take(t.len() - 5)
    } else if crate::text::ends_with(t, ".tsx"@) {
        t.take(t.len() - 4)
    } else if crate::text::ends_with(t, ".ts"@) {
        t.take(t.len() - 3)
    } else if crate::text::ends_with(t, ".mjs"@) {
        t.take(t.len() - 4)
    } else if crate::text::ends_with(t, ".cjs"@) {
        t.take(t.len() - 4)
    } else if crate::text::ends_with(t, ".jsx"@) {
        t.take(t.len() - 4)
    } else if crate::text::ends_with(t, ".js"@) {
        t.take(t.len() - 3)
    } else {
        t
    }
}

/// A character that separates import path segments.
pub open spec fn is_seg_delim(c: char) -> bool {
    c == ':' || c == '.' || c == '/' || c == '\\'
}

/// Trailing separators dropped.
pub open spec fn strip_trailing_delims(t: Chars) -> Chars
    decreases t.len(),
{
    if t.len() > 0 && is_seg_delim(t.last()) {
        strip_trailing_delims(t.drop_last())
    } else {
        t
    }
}

/// What follows the last separator.
pub open spec fn after_last_delim(t: Chars) -> Chars
    decreases t.len(),
{
    if t.len() == 0 || is_seg_delim(t.last()) {
        Seq::empty()
    } else {
        after_last_delim(t.drop_last()).push(t.last())
    }
}

/// Last path segment of an import / use / require specifier.
pub open spec fn import_segment(raw: Chars) -> Chars {
    let t = strip_source_ext(strip_quotes_end(strip_quotes_start(trim(raw))));
    let te = strip_trailing_delims(t);
    if te.len() == 0 {
        t
    } else {
        after_last_delim(te)
    }
}

/// [`import_segment`].
pub fn import_last_segment(raw: &str) -> (r: String)
    ensures
        r@ == import_segment(raw@),
{
    let rc = chars_of(raw);
    let t0 = trim_chars(rc.as_slice());
    // Quotes off the start.
    let mut a: usize = 0;
    assert(t0@.skip(0) == t0@);
    while a < t0.len() && (t0[a] == '"' || t0[a] == '\'' || t0[a] == '`')
        invariant
            a <= t0@.len(),
            strip_quotes_start(t0@) == strip_quotes_start(t0@.skip(a as int)),
        decreases t0@.len() - a,
    {
        assert(t0@.skip(a as int).drop_first() == t0@.skip(a + 1));
        a += 1;
    }
    let t1 = crate::text::skip_chars(t0.as_slice(), a);
    // Quotes off the end.
    let mut b = t1.len();
    assert(t1@.take(b as int) == t1@);
    while b > 0 && (t1[b - 1] == '"' || t1[b - 1] == '\'' || t1[b - 1] == '`')
        invariant
            b <= t1@.len(),
            strip_quotes_end(t1@) == strip_quotes_end(t1@.take(b as int)),
        decreases b,
    {
        assert(t1@.take(b as int).drop_last() == t1@.take(b - 1));
        b -= 1;
    }
    let t2 = crate::text::take_chars(t1.as_slice(), b);
    // One source suffix.
    proof {
        reveal_strlit(".dart");
        reveal_strlit(".tsx");
        reveal_strlit(".ts");
        reveal_strlit(".mjs");
        reveal_strlit(".cjs");
        reveal_strlit(".jsx");
        reveal_strlit(".js");
    }
    let cut: usize = if suffix_lit(t2.as_slice(), ".dart") {
        5
    } else if suffix_lit(t2.as_slice(), ".tsx") {
        4
    } else if suffix_lit(t2.as_slice(), ".ts") {
        3
    } else if suffix_lit(t2.as_slice(), ".mjs") {
        4
    } else if suffix_lit(t2.as_slice(), ".cjs") {
        4
    } else if suffix_lit(t2.as_slice(), ".jsx") {
        4
    } else if suffix_lit(t2.as_slice(), ".js") {
        3
    } else {
        0
    };
    let t = crate::text::take_chars(t2.as_slice(), t2.len() - cut);
    assert(t2@.take(t2@.len() as int) == t2@);
    assert(t@ == strip_source_ext(t2@));
    // Trailing separators.
    let mut e = t.len();
    assert(t@.take(e as int) == t@);
    while e > 0 && (t[e - 1] == ':' || t[e - 1] == '.' || t[e - 1] == '/' || t[e - 1] == '\\')
        invariant
            e <= t@.len(),
            strip_trailing_delims(t@) == strip_trailing_delims(t@.take(e as int)),
        decreases e,
    {
        assert(t@.take(e as int).drop_last() == t@.take(e - 1));
        e -= 1;
    }
    if e == 0 {
        return string_from(t.as_slice());
    }
    // Back to the last separator before `e`.
    let mut s0 = e;
    while s0 > 0 && !(t[s0 - 1] == ':' || t[s0 - 1] == '.' || t[s0 - 1] == '/' || t[s0 - 1]
        == '\\')
        invariant
            s0 <= e <= t@.len(),
            after_last_delim(t@.take(e as int)) == after_last_delim(t@.take(s0 as int)) + t@.subrange(
                s0 as int,
                e as int,
            ),
        decreases s0,
    {
        assert(t@.take(s0 as int).drop_last() == t@.take(s0 - 1));
        assert(t@.subrange(s0 - 1, e as int) == seq![t@[s0 - 1]] + t@.subrange(s0 as int, e as int));
        assert(after_last_delim(t@.take(s0 as int)) == after_last_delim(t@.take(s0 - 1)).push(t@[s0 - 1]));
        assert(after_last_delim(t@.take(s0 - 1)).push(t@[s0 - 1]) + t@.subrange(s0 as int, e as int)
            =~= after_last_delim(t@.take(s0 - 1)) + t@.subrange(s0 - 1, e as int));
        s0 -= 1;
    }
    assert(after_last_delim(t@.take(s0 as int)) =~= Seq::<char>::empty());
    let mut out = String::new();
    crate::text::push_range(&mut out, t.as_slice(), s0, e);
    assert(Seq::<char>::empty() + t@.subrange(s0 as int, e as int) =~= t@.subrange(s0 as int, e as int));
    out
}

/// `v.ends_with(lit)`.
fn suffix_lit(v: &[char], lit: &str) -> (r: bool)
    ensures
        r == crate::text::ends_with(v@, lit@),
{
    let l = chars_of(lit);
    crate::text::has_suffix(v, l.as_slice())
}


// ---------------------------------------------------------------------------------------
// Languages
// ---------------------------------------------------------------------------------------

/// The tags grammar a file suffix (or a grammar name) selects in this build.
pub open spec fn grammar_for(ext: Chars) -> Option<Chars> {
    if ext == "rs"@ || ext == "rust"@ {
        Some("rust"@)
    } else if ext == "ts"@ {
        Some("ts"@)
    } else if ext == "tsx"@ {
        Some("tsx"@)
    } else if ext == "js"@ || ext == "mjs"@ || ext == "cjs"@ {
        Some("js"@)
    } else if ext == "py"@ {
        Some("py"@)
    } else if ext == "dart"@ {
        Some("dart"@)
    } else if ext == "c"@ {
        Some("c"@)
    } else if ext == "h"@ {
        Some("h"@)
    } else if ext == "go"@ {
        Some("go"@)
    } else {
        None
    }
}

/// [`grammar_for`].
pub fn grammar_for_ext(ext: &str) -> (r: Option<&'static str>)
    ensures
        match r {
            Some(g) => grammar_for(ext@) == Some(g@),
            None => grammar_for(ext@) is None,
        },
{
    if str_eq(ext, "rs") || str_eq(ext, "rust") {
        Some("rust")
    } else if str_eq(ext, "ts") {
        Some("ts")
    } else if str_eq(ext, "tsx") {
        Some("tsx")
    } else if str_eq(ext, "js") || str_eq(ext, "mjs") || str_eq(ext, "cjs") {
        Some("js")
    } else if str_eq(ext, "py") {
        Some("py")
    } else if str_eq(ext, "dart") {
        Some("dart")
    } else if str_eq(ext, "c") {
        Some("c")
    } else if str_eq(ext, "h") {
        Some("h")
    } else if str_eq(ext, "go") {
        Some("go")
    } else {
        None
    }
}

/// `path` has a tags-supported extension.
pub open spec fn supported_spec(path: Chars) -> bool {
    match crate::path::extension(path) {
        Some(e) => grammar_for(e) is Some,
        None => false,
    }
}

/// True when `path` has a tags-supported extension (cheap; does not parse).
pub fn supported(path: &str) -> (r: bool)
    ensures
        r == supported_spec(path@),
{
    match crate::path::extension_of(path) {
        Some(e) => grammar_for_ext(e.as_str()).is_some(),
        None => false,
    }
}

/// Whether a grammar name from the extension remap is available in this build.
pub fn grammar_available(grammar: &str) -> (r: bool)
    ensures
        r == (grammar_for(grammar@) is Some),
{
    grammar_for_ext(grammar).is_some()
}

/// No suffix is remapped twice.
pub open spec fn distinct_keys(exts: Seq<(String, String)>) -> bool {
    forall|i: int, j: int| 0 <= i < j < exts.len() ==> exts[i].0@ != exts[j].0@
}

/// `path` is indexable: a built-in extension, or one the remap sends to an available grammar.
pub open spec fn supported_with_spec(path: Chars, exts: Seq<(String, String)>) -> bool {
    ||| supported_spec(path)
    ||| match crate::path::extension(path) {
        Some(e) => exists|i: int|
            0 <= i < exts.len() && (#[trigger] exts[i]).0@ == e && grammar_for(exts[i].1@) is Some,
        None => false,
    }
}

/// True when `path` is indexable with built-in extensions or the `extensions` remap
/// (suffix to grammar name, each suffix once).
pub fn supported_with(path: &str, extensions: &Vec<(String, String)>) -> (r: bool)
    requires
        distinct_keys(extensions@),
    ensures
        r == supported_with_spec(path@, extensions@),
{
    if supported(path) {
        return true;
    }
    let ext = match crate::path::extension_of(path) {
        Some(e) => e,
        None => return false,
    };
    let mut i: usize = 0;
    while i < extensions.len()
        invariant
            i <= extensions@.len(),
            distinct_keys(extensions@),
            crate::path::extension(path@) == Some(ext@),
            !supported_spec(path@),
            forall|k: int| 0 <= k < i ==> (#[trigger] extensions@[k]).0@ != ext@,
        decreases extensions@.len() - i,
    {
        if str_eq(extensions[i].0.as_str(), ext.as_str()) {
            let ok = grammar_available(extensions[i].1.as_str());
            assert(crate::path::extension(path@) == Some(ext@));
            assert(extensions@[i as int].0@ == ext@);
            assert forall|k: int|
                0 <= k < extensions@.len() && (#[trigger] extensions@[k]).0@ == ext@ implies k
                == i by {
                if k != i {
                    assert(extensions@[i as int].0@ != extensions@[k].0@);
                }
            }
            if ok {
                assert(grammar_for(extensions@[i as int].1@) is Some);
            } else {
                assert(grammar_for(extensions@[i as int].1@) is None);
            }
            return ok;
        }
        i += 1;
    }
    false
}

// ---------------------------------------------------------------------------------------
// Outlines from tags
// ---------------------------------------------------------------------------------------

/// One tags-query hit (definition or reference).
pub struct TagHit {
    pub kind: String,
    pub name: String,
    pub line: usize,
    /// Last line of the tagged node; a reference spans one line.
    pub end_line: usize,
    pub is_def: bool,
    pub line_text: String,
}

/// The names of the import references among `hits`, each once, in first-seen order.
pub open spec fn import_names(hits: Seq<TagHit>) -> Seq<Chars>
    decreases hits.len(),
{
    if hits.len() == 0 {
        Seq::empty()
    } else {
        let prev = import_names(hits.drop_last());
        let h = hits.last();
        if h.kind@ == "import"@ && !h.is_def && !prev.contains(h.name@) {
            prev.push(h.name@)
        } else {
            prev
        }
    }
}

/// The definitions among `hits`, in order.
pub open spec fn def_hits(hits: Seq<TagHit>) -> Seq<TagHit>
    decreases hits.len(),
{
    if hits.len() == 0 {
        Seq::empty()
    } else if hits.last().is_def {
        def_hits(hits.drop_last()).push(hits.last())
    } else {
        def_hits(hits.drop_last())
    }
}

/// A definition's outline line: its source line for `signatures`, else `{kw} {name} {line}`
/// with the line's first word (or the tag kind) as keyword.
pub open spec fn def_line(h: TagHit, mode: Chars) -> Chars {
    if mode == "signatures"@ {
        trim_end(h.line_text@)
    } else {
        let w = words(h.line_text@);
        let kw = if w.len() > 0 {
            w[0]
        } else {
            h.kind@
        };
        kw + " "@ + h.name@ + " "@ + dec_nat(h.line as nat)
    }
}

/// `path` names a Markdown file.
pub open spec fn is_markdown_spec(path: Chars) -> bool {
    crate::path::extension(path) == Some("md"@) || crate::path::extension(path) == Some("mdx"@)
}

/// The outline of `src` at `path` in `mode`, given the tags hits for its language.
pub open spec fn render_spec(path: Chars, src: Chars, mode: Chars, hits: Seq<TagHit>) -> Chars {
    if is_markdown_spec(path) {
        let hs = md_headings(src);
        if hs.len() == 0 {
            fallback_spec(src)
        } else {
            md_render_spec(hs, mode)
        }
    } else {
        let imps = import_names(hits);
        let defs = def_hits(hits);
        if defs.len() == 0 && imps.len() == 0 {
            fallback_spec(src)
        } else {
            let head = if imps.len() > 0 && mode != "signatures"@ {
                seq!["imports: "@ + join(imps, ", "@)]
            } else {
                Seq::empty()
            };
            join(head + Seq::new(defs.len(), |i: int| def_line(defs[i], mode)), "\n"@)
        }
    }
}

/// [`is_markdown_spec`].
fn is_markdown(path: &str) -> (r: bool)
    ensures
        r == is_markdown_spec(path@),
{
    match crate::path::extension_of(path) {
        Some(e) => str_eq(e.as_str(), "md") || str_eq(e.as_str(), "mdx"),
        None => false,
    }
}

/// `views(v)` holds `x`.
fn contains_str(v: &Vec<String>, x: &str) -> (r: bool)
    ensures
        r == views(v@).contains(x@),
{
    let mut i: usize = 0;
    while i < v.len()
        invariant
            i <= v@.len(),
            forall|k: int| 0 <= k < i ==> (#[trigger] v@[k])@ != x@,
        decreases v@.len() - i,
    {
        if str_eq(v[i].as_str(), x) {
            assert(views(v@)[i as int] == x@);
            return true;
        }
        i += 1;
    }
    assert forall|k: int| 0 <= k < views(v@).len() implies views(v@)[k] != x@ by {
        assert(views(v@)[k] == v@[k]@);
    }
    false
}

/// One definition's outline line ([`def_line`]).
fn def_line_exec(h: &TagHit, sig: bool) -> (r: String)
    requires
        true,
    ensures
        sig ==> r@ == trim_end(h.line_text@),
        !sig ==> r@ == ({
            let w = words(h.line_text@);
            let kw = if w.len() > 0 {
                w[0]
            } else {
                h.kind@
            };
            kw + " "@ + h.name@ + " "@ + dec_nat(h.line as nat)
        }),
{
    if sig {
        let lc = chars_of(h.line_text.as_str());
        let t = crate::text::trim_end_chars(lc.as_slice());
        string_from(t.as_slice())
    } else {
        let w = crate::text::words_vec(h.line_text.as_str());
        let mut row = if w.len() > 0 {
            assert(views(w@)[0] == w@[0]@);
            crate::text::copy_str(w[0].as_str())
        } else {
            crate::text::copy_str(h.kind.as_str())
        };
        row.append(" ");
        row.append(h.name.as_str());
        row.append(" ");
        push_u64(&mut row, h.line as u64);
        row
    }
}

/// Definitions as `kind name line` (or their source lines for `signatures`), led by the
/// file's imports; Markdown by its headings; anything without either as a numbered first
/// page. `hits` are the tags-query hits for `src`.
pub fn render(path: &str, src: &str, mode: &str, hits: &Vec<TagHit>) -> (r: String)
    ensures
        r@ == render_spec(path@, src@, mode@, hits@),
{
    if is_markdown(path) {
        let hs = markdown_headings(src);
        if hs.len() == 0 {
            return fallback(src);
        }
        return markdown_render(&hs, mode);
    }
    let sig = str_eq(mode, "signatures");
    let mut imports: Vec<String> = Vec::new();
    let mut rows: Vec<String> = Vec::new();
    let mut n_defs: usize = 0;
    let mut i: usize = 0;
    while i < hits.len()
        invariant
            i <= hits@.len(),
            sig == (mode@ == "signatures"@),
            views(imports@) == import_names(hits@.take(i as int)),
            rows@.len() == def_hits(hits@.take(i as int)).len(),
            forall|k: int|
                0 <= k < rows@.len() ==> (#[trigger] rows@[k])@ == def_line(
                    def_hits(hits@.take(i as int))[k],
                    mode@,
                ),
        decreases hits@.len() - i,
    {
        assert(hits@.take(i + 1).drop_last() == hits@.take(i as int));
        assert(hits@.take(i + 1).last() == hits@[i as int]);
        let h = &hits[i];
        if str_eq(h.kind.as_str(), "import") && !h.is_def && !contains_str(&imports, h.name.as_str()) {
            let ghost before = imports@;
            imports.push(crate::text::copy_str(h.name.as_str()));
            assert(views(imports@) =~= views(before).push(h.name@));
        }
        if h.is_def {
            let row = def_line_exec(h, sig);
            rows.push(row);
        }
        i += 1;
    }
    assert(hits@.take(hits@.len() as int) == hits@);
    if rows.len() == 0 && imports.len() == 0 {
        return fallback(src);
    }
    let mut out: Vec<String> = Vec::new();
    if imports.len() > 0 && !sig {
        let mut head = "imports: ".to_owned();
        let j = join_strings(imports.as_slice(), ", ");
        head.append(j.as_str());
        out.push(head);
    }
    let ghost head_v = views(out@);
    let ghost imps = import_names(hits@);
    assert(head_v =~= (if imps.len() > 0 && mode@ != "signatures"@ {
        seq!["imports: "@ + join(imps, ", "@)]
    } else {
        Seq::<Chars>::empty()
    }));
    let mut k: usize = 0;
    while k < rows.len()
        invariant
            k <= rows@.len(),
            views(out@) == head_v + views(rows@).take(k as int),
        decreases rows@.len() - k,
    {
        let ghost before = out@;
        out.push(crate::text::copy_str(rows[k].as_str()));
        assert(views(rows@).take(k + 1) == views(rows@).take(k as int).push(rows@[k as int]@));
        assert(views(out@) =~= views(before).push(rows@[k as int]@));
        k += 1;
    }
    let ghost defs = def_hits(hits@);
    assert(views(rows@).take(rows@.len() as int) =~= Seq::new(defs.len(), |m: int| def_line(defs[m], mode@)));
    join_strings(out.as_slice(), "\n")
}

} // verus!
