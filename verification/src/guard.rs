//! The duplicate guard: which tool calls get a cache key, and when a repeat is denied.
//!
//! A `Read` is keyed by its path; a `Bash` command only when it is read-only (its output
//! changes only when something else ran in between), keyed by a normalised form:
//! whitespace collapsed, the `rtok run --` wrap stripped, leading `cd … &&` hops folded
//! to the last hop's target.

use vstd::prelude::*;

use crate::plugin::{declares, DashboardPage, Manifest, Surface};
use crate::text::{
    chars_of, contains, contains_lit, eq_lit, is_whitespace, is_ws, join, prefix_lit,
    push_all, replace_all, replace_chars, skip_chars, split_char, split_vec, starts_with,
    string_from, take_chars, trim, trim_chars, trim_end, trim_end_chars, trim_start,
    trim_start_chars, views, words, words_vec, Chars,
};

verus! {

/// Catalogue plugin `guard`.
pub struct Guard;

impl Guard {
    pub fn manifest(&self) -> (m: Manifest)
        ensures
            declares(m, "guard"@, seq![Surface::Hook, Surface::Cli], true),
    {
        Manifest { id: "guard", surfaces: vec![Surface::Hook, Surface::Cli], default_on: true }
    }

    pub fn dashboard_page(&self) -> (p: DashboardPage)
        ensures
            p.title@ == "Guard"@,
            p.summary@ == "Deny duplicate reads and commands inside a sliding window."@,
            p.saves_tokens,
    {
        DashboardPage {
            title: "Guard",
            summary: "Deny duplicate reads and commands inside a sliding window.",
            saves_tokens: true,
        }
    }
}

// ---------------------------------------------------------------------------------------
// Specs
// ---------------------------------------------------------------------------------------

/// The program name of a command word: its last `/`-separated segment.
pub open spec fn cmd_stem(w: Chars) -> Chars {
    split_char(w, '/').last()
}

/// Where the first shell word of `s` ends, scanning from `i` inside quote `q` (`'\0'` for
/// none): at the first blank outside quotes, or the end; `None` if a quote is left open.
pub open spec fn word_end(s: Chars, i: int, q: char) -> Option<int>
    decreases s.len() - i,
{
    if i < 0 || i >= s.len() {
        if q == '\0' {
            Some(s.len() as int)
        } else {
            None
        }
    } else if q == '\0' {
        if is_ws(s[i]) {
            Some(i)
        } else if s[i] == '\'' || s[i] == '"' {
            word_end(s, i + 1, s[i])
        } else {
            word_end(s, i + 1, '\0')
        }
    } else if s[i] == q {
        word_end(s, i + 1, '\0')
    } else {
        word_end(s, i + 1, q)
    }
}

/// The first index at or after `i` that is not a blank.
pub open spec fn blanks_end(s: Chars, i: int) -> int
    decreases s.len() - i,
{
    if 0 <= i < s.len() && is_ws(s[i]) {
        blanks_end(s, i + 1)
    } else {
        i
    }
}

/// One shell word at the start of `s` and the blanks after it: where the rest begins.
/// A word is a run of non-blank characters whose single- or double-quoted parts may hold
/// blanks; there is none when `s` starts blank or a quote is never closed.
pub open spec fn skip_word(s: Chars) -> Option<int> {
    if s.len() == 0 || is_ws(s[0]) {
        None
    } else {
        match word_end(s, 0, '\0') {
            Some(e) => Some(blanks_end(s, e)),
            None => None,
        }
    }
}

/// One `cd <dir> &&` prefix: the target word (quotes kept as typed) and the remainder
/// after `&&`, blanks trimmed.
pub open spec fn strip_cd_hop(s: Chars) -> Option<(Chars, Chars)> {
    if !starts_with(s, "cd "@) {
        None
    } else {
        let after = s.skip(3);
        match skip_word(after) {
            None => None,
            Some(k) => {
                let rest = after.skip(k);
                let target = trim_end(after.take(k));
                if target.len() == 0 || !starts_with(rest, "&&"@) {
                    None
                } else {
                    Some((target, trim_start(rest.skip(2))))
                }
            },
        }
    }
}

/// The POSIX `sh_quote` embedding of a single quote inside single quotes.
pub open spec fn sh_quote_quote() -> Chars {
    "'\"'\"'"@
}

/// The command without the `rtok run -- '…'` wrap PostToolUse often sees.
pub open spec fn strip_wrap(s: Chars) -> Chars {
    let s1 = if starts_with(s, "rtok run -- "@) {
        s.skip(12)
    } else {
        s
    };
    if s1.len() >= 2 && s1[0] == '\'' && s1.last() == '\'' {
        let inner = s1.subrange(1, s1.len() - 1);
        if contains(inner, sh_quote_quote()) {
            replace_all(inner, sh_quote_quote(), "'"@)
        } else {
            replace_all(inner, "''"@, "'"@)
        }
    } else {
        s1
    }
}

/// Leading `cd <dir> &&` hops folded to the last hop's target, and what runs after them.
pub open spec fn fold_cd(s: Chars) -> (Option<Chars>, Chars)
    decreases s.len(),
{
    match strip_cd_hop(s) {
        None => (None, s),
        Some((d, rest)) => {
            proof {
                lemma_hop_shorter(s);
                lemma_strip_wrap_shorter(rest);
            }
            let (d2, r2) = fold_cd(strip_wrap(rest));
            (
                if d2 is Some {
                    d2
                } else {
                    Some(d)
                },
                r2,
            )
        },
    }
}

/// Whitespace collapsed to single spaces.
pub open spec fn collapse(s: Chars) -> Chars {
    join(words(s), seq![' '])
}

/// The normalised `Bash` key body.
pub open spec fn norm_cmd(s: Chars) -> Chars {
    let t = strip_wrap(collapse(s));
    let (dir, rest) = fold_cd(t);
    match dir {
        Some(d) => "cd "@ + d + " && "@ + rest,
        None => rest,
    }
}

/// The command after a folded `cd <dir> &&` prefix.
pub open spec fn after_cd_prefix(s: Chars) -> Chars {
    if !starts_with(s, "cd "@) {
        s
    } else {
        let after = s.skip(3);
        match skip_word(after) {
            Some(k) => if starts_with(after.skip(k), "&&"@) {
                trim_start(after.skip(k).skip(2))
            } else {
                s
            },
            None => s,
        }
    }
}

/// Programs whose output only changes when something else ran in between.
pub open spec fn read_only_program(stem: Chars) -> bool {
    ||| stem == "ls"@
    ||| stem == "cat"@
    ||| stem == "head"@
    ||| stem == "tail"@
    ||| stem == "grep"@
    ||| stem == "rg"@
    ||| stem == "find"@
    ||| stem == "tree"@
    ||| stem == "wc"@
    ||| stem == "sed"@
    ||| stem == "jq"@
    ||| stem == "awk"@
}

/// `git` subcommands that only read.
pub open spec fn read_only_git(sub: Chars) -> bool {
    ||| sub == "status"@
    ||| sub == "log"@
    ||| sub == "diff"@
    ||| sub == "show"@
    ||| sub == "branch"@
    ||| sub == "rev-parse"@
}

/// One pipeline stage whose program only reads.
pub open spec fn read_only_stem(cmd: Chars) -> bool {
    let w = words(cmd);
    let stem = cmd_stem(
        if w.len() > 0 {
            w[0]
        } else {
            Seq::empty()
        },
    );
    ||| read_only_program(stem)
    ||| (stem == "git"@ && w.len() > 1 && read_only_git(w[1]))
    ||| (stem == "cargo"@ && w.len() > 1 && w[1] == "metadata"@)
}

/// One word that makes a command write: a redirect, `-delete`, `-exec`, in-place edits,
/// or `-f` on `tail` (it follows, never ends).
pub open spec fn writer_word(t: Seq<Chars>, i: int) -> bool {
    ||| starts_with(t[i], ">"@)
    ||| t[i] == "-delete"@
    ||| t[i] == "-exec"@
    ||| t[i] == "-i"@
    ||| t[i] == "--in-place"@
    ||| (t[i] == "-f"@ && i > 0 && cmd_stem(t[0]) == "tail"@)
}

/// Words `i` and `i + 1` are `|` and `tee`.
pub open spec fn pipe_tee(t: Seq<Chars>, i: int) -> bool {
    0 <= i < t.len() - 1 && t[i] == "|"@ && t[i + 1] == "tee"@
}

/// Whether the command writes: `| tee`, a writer word, or a later pipeline stage that is
/// not read-only.
pub open spec fn has_writer_marker(cmd: Chars) -> bool {
    let t = words(cmd);
    let parts = split_char(cmd, '|');
    ||| exists|i: int| #[trigger] pipe_tee(t, i)
    ||| exists|i: int| 0 <= i < t.len() && #[trigger] writer_word(t, i)
    ||| (parts.len() > 1 && exists|j: int|
        1 <= j < parts.len() && !read_only_stem(trim(#[trigger] parts[j])))
}

/// A command whose repeat is a duplicate: past the `cd` prefix, no writer marker and
/// every pipeline stage read-only.
pub open spec fn read_only(cmd: Chars) -> bool {
    let c = after_cd_prefix(cmd);
    let parts = split_char(c, '|');
    !has_writer_marker(c) && forall|j: int|
        0 <= j < parts.len() ==> read_only_stem(trim(#[trigger] parts[j]))
}

/// The guard's key for a tool call, if it gets one: `read\t<path>` for a `Read` with a
/// non-blank path, `bash\t<normalised command>` for a read-only `Bash`.
pub open spec fn cache_key_spec(tool: Chars, read_path: Option<Chars>, command: Option<Chars>) -> Option<Chars> {
    if tool == "Read"@ {
        match read_path {
            Some(p) => if trim(p).len() > 0 {
                Some("read\t"@ + trim(p))
            } else {
                None
            },
            None => None,
        }
    } else if tool == "Bash"@ {
        match command {
            Some(c) => if read_only(norm_cmd(c)) {
                Some("bash\t"@ + norm_cmd(c))
            } else {
                None
            },
            None => None,
        }
    } else {
        None
    }
}

// ---------------------------------------------------------------------------------------
// Length lemmas (termination of the `cd` fold)
// ---------------------------------------------------------------------------------------

proof fn lemma_trim_start_shorter(s: Chars)
    ensures
        trim_start(s).len() <= s.len(),
    decreases s.len(),
{
    if s.len() > 0 {
        lemma_trim_start_shorter(s.drop_last());
    }
}

proof fn lemma_trim_end_shorter(s: Chars)
    ensures
        trim_end(s).len() <= s.len(),
    decreases s.len(),
{
    if s.len() > 0 && is_ws(s.last()) {
        lemma_trim_end_shorter(s.drop_last());
    }
}

/// A hop's remainder is shorter than the command.
pub proof fn lemma_hop_shorter(s: Chars)
    ensures
        strip_cd_hop(s) matches Some((d, r)) ==> r.len() < s.len(),
{
    reveal_strlit("cd ");
    reveal_strlit("&&");
    if let Some((d, r)) = strip_cd_hop(s) {
        let after = s.skip(3);
        let k = skip_word(after)->Some_0;
        lemma_word_bounds(after);
        lemma_trim_start_shorter(after.skip(k).skip(2));
        assert(after.skip(k).skip(2).len() < s.len());
    }
}

/// Stripping the wrap never lengthens the command.
pub proof fn lemma_strip_wrap_shorter(s: Chars)
    ensures
        strip_wrap(s).len() <= s.len(),
{
    reveal_strlit("'\"'\"'");
    reveal_strlit("''");
    reveal_strlit("'");
    reveal_strlit("rtok run -- ");
    assert(sh_quote_quote().len() == 5);
    let s1 = if starts_with(s, "rtok run -- "@) {
        s.skip(12)
    } else {
        s
    };
    if s1.len() >= 2 && s1[0] == '\'' && s1.last() == '\'' {
        let inner = s1.subrange(1, s1.len() - 1);
        crate::text::lemma_replace_shorter(inner, sh_quote_quote(), "'"@);
        crate::text::lemma_replace_shorter(inner, "''"@, "'"@);
    }
}

proof fn lemma_word_end_bounds(s: Chars, i: int, q: char)
    requires
        0 <= i,
    ensures
        word_end(s, i, q) matches Some(e) ==> i <= e <= s.len() || (i > s.len() && e == s.len()),
    decreases s.len() - i,
{
    if i < s.len() {
        if q == '\0' {
            if !is_ws(s[i]) {
                if s[i] == '\'' || s[i] == '"' {
                    lemma_word_end_bounds(s, i + 1, s[i]);
                } else {
                    lemma_word_end_bounds(s, i + 1, '\0');
                }
            }
        } else if s[i] == q {
            lemma_word_end_bounds(s, i + 1, '\0');
        } else {
            lemma_word_end_bounds(s, i + 1, q);
        }
    }
}

proof fn lemma_blanks_end_bounds(s: Chars, i: int)
    requires
        0 <= i <= s.len(),
    ensures
        i <= blanks_end(s, i) <= s.len(),
    decreases s.len() - i,
{
    if i < s.len() && is_ws(s[i]) {
        lemma_blanks_end_bounds(s, i + 1);
    }
}

/// The word skipped lies inside `s` and is not empty.
pub proof fn lemma_word_bounds(s: Chars)
    ensures
        skip_word(s) matches Some(k) ==> 0 < k <= s.len(),
{
    if s.len() > 0 && !is_ws(s[0]) {
        lemma_word_end_bounds(s, 0, '\0');
        if let Some(e) = word_end(s, 0, '\0') {
            lemma_blanks_end_bounds(s, e);
            // The first character is not blank, so the word ends past it.
            if s[0] == '\'' || s[0] == '"' {
                lemma_word_end_bounds(s, 1, s[0]);
            } else {
                lemma_word_end_bounds(s, 1, '\0');
            }
        }
    }
}

// ---------------------------------------------------------------------------------------
// Exec
// ---------------------------------------------------------------------------------------

/// The program name of a command word.
fn stem_of(w: &[char]) -> (r: Vec<char>)
    ensures
        r@ == cmd_stem(w@),
{
    let ws = string_from(w);
    let parts = split_vec(ws.as_str(), '/');
    proof {
        crate::text::lemma_split_nonempty(w@, '/');
    }
    let last = &parts[parts.len() - 1];
    assert(views(parts@).last() == last@);
    chars_of(last.as_str())
}

/// [`skip_word`].
fn skip_word_exec(s: &[char]) -> (r: Option<usize>)
    ensures
        match r {
            Some(k) => skip_word(s@) == Some(k as int),
            None => skip_word(s@) is None,
        },
{
    if s.len() == 0 || is_whitespace(s[0]) {
        return None;
    }
    let mut q = '\0';
    let mut i: usize = 0;
    while i < s.len() && (q != '\0' || !is_whitespace(s[i]))
        invariant
            i <= s@.len(),
            word_end(s@, 0, '\0') == word_end(s@, i as int, q),
        decreases s@.len() - i,
    {
        let c = s[i];
        if q == '\0' {
            if c == '\'' || c == '"' {
                q = c;
            }
        } else if c == q {
            q = '\0';
        }
        i += 1;
    }
    if q != '\0' {
        return None;
    }
    let e = i;
    let mut j = e;
    while j < s.len() && is_whitespace(s[j])
        invariant
            e <= j <= s@.len(),
            blanks_end(s@, e as int) == blanks_end(s@, j as int),
        decreases s@.len() - j,
    {
        j += 1;
    }
    Some(j)
}

/// [`strip_cd_hop`].
fn strip_cd_hop_exec(s: &[char]) -> (r: Option<(Vec<char>, Vec<char>)>)
    ensures
        match (r, strip_cd_hop(s@)) {
            (Some((d, rest)), Some((d2, rest2))) => d@ == d2 && rest@ == rest2,
            (None, None) => true,
            _ => false,
        },
{
    let after = match crate::text::strip_prefix_chars(s, "cd ") {
        Some(a) => a,
        None => return None,
    };
    proof {
        reveal_strlit("cd ");
    }
    let k = match skip_word_exec(after.as_slice()) {
        Some(k) => k,
        None => return None,
    };
    proof {
        lemma_word_bounds(after@);
    }
    let rest = skip_chars(after.as_slice(), k);
    let word = take_chars(after.as_slice(), k);
    let target = trim_end_chars(word.as_slice());
    if target.len() == 0 || !prefix_lit(rest.as_slice(), "&&") {
        return None;
    }
    proof {
        reveal_strlit("&&");
    }
    let tail = skip_chars(rest.as_slice(), 2);
    let tail = trim_start_chars(tail.as_slice());
    Some((target, tail))
}

/// [`strip_wrap`].
fn strip_wrap_exec(s: &[char]) -> (r: Vec<char>)
    ensures
        r@ == strip_wrap(s@),
{
    let s1 = match crate::text::strip_prefix_chars(s, "rtok run -- ") {
        Some(rest) => rest,
        None => skip_chars(s, 0),
    };
    proof {
        reveal_strlit("rtok run -- ");
        assert(s@.skip(0) == s@);
    }
    let n = s1.len();
    if n >= 2 && s1[0] == '\'' && s1[n - 1] == '\'' {
        let inner = take_chars(s1.as_slice(), n - 1);
        let inner = skip_chars(inner.as_slice(), 1);
        assert(inner@ =~= s1@.subrange(1, n - 1));
        let qq = chars_of("'\"'\"'");
        let one = chars_of("'");
        proof {
            reveal_strlit("'\"'\"'");
            reveal_strlit("'");
            reveal_strlit("''");
        }
        if contains_lit(inner.as_slice(), "'\"'\"'") {
            replace_chars(inner.as_slice(), qq.as_slice(), one.as_slice())
        } else {
            let two = chars_of("''");
            replace_chars(inner.as_slice(), two.as_slice(), one.as_slice())
        }
    } else {
        s1
    }
}

/// [`fold_cd`].
fn fold_cd_exec(s: &[char]) -> (r: (Option<Vec<char>>, Vec<char>))
    ensures
        ({
            let (d, rest) = fold_cd(s@);
            &&& r.1@ == rest
            &&& match (r.0, d) {
                (Some(a), Some(b)) => a@ == b,
                (None, None) => true,
                _ => false,
            }
        }),
{
    let mut dir: Option<Vec<char>> = None;
    let mut t = skip_chars(s, 0);
    assert(s@.skip(0) == s@);
    loop
        invariant
            ({
                let (d_all, r_all) = fold_cd(s@);
                let (d_t, r_t) = fold_cd(t@);
                &&& r_all == r_t
                &&& d_all == (if d_t is Some {
                    d_t
                } else {
                    match dir {
                        Some(v) => Some(v@),
                        None => None,
                    }
                })
            }),
        decreases t@.len(),
    {
        match strip_cd_hop_exec(t.as_slice()) {
            None => {
                return (dir, t);
            },
            Some((d, rest)) => {
                proof {
                    lemma_hop_shorter(t@);
                    lemma_strip_wrap_shorter(rest@);
                }
                dir = Some(d);
                t = strip_wrap_exec(rest.as_slice());
            },
        }
    }
}

/// [`collapse`].
fn collapse_exec(s: &str) -> (r: Vec<char>)
    ensures
        r@ == collapse(s@),
{
    let w = words_vec(s);
    let j = crate::text::join_strings(w.as_slice(), " ");
    proof {
        reveal_strlit(" ");
        assert(" "@ =~= seq![' ']);
    }
    chars_of(j.as_str())
}

/// The normalised `Bash` key body ([`norm_cmd`]).
pub fn norm_cmd_exec(s: &str) -> (r: String)
    ensures
        r@ == norm_cmd(s@),
{
    let c = collapse_exec(s);
    let t = strip_wrap_exec(c.as_slice());
    let (dir, rest) = fold_cd_exec(t.as_slice());
    match dir {
        Some(d) => {
            let mut out = "cd ".to_owned();
            push_all(&mut out, d.as_slice());
            out.append(" && ");
            push_all(&mut out, rest.as_slice());
            out
        },
        None => string_from(rest.as_slice()),
    }
}

/// [`after_cd_prefix`].
fn after_cd_prefix_exec(s: &[char]) -> (r: Vec<char>)
    ensures
        r@ == after_cd_prefix(s@),
{
    let after = match crate::text::strip_prefix_chars(s, "cd ") {
        Some(a) => a,
        None => return skip_chars(s, 0),
    };
    proof {
        reveal_strlit("cd ");
    }
    match skip_word_exec(after.as_slice()) {
        Some(k) => {
            proof {
                lemma_word_bounds(after@);
            }
            let rest = skip_chars(after.as_slice(), k);
            if prefix_lit(rest.as_slice(), "&&") {
                proof {
                    reveal_strlit("&&");
                }
                let tail = skip_chars(rest.as_slice(), 2);
                trim_start_chars(tail.as_slice())
            } else {
                skip_chars(s, 0)
            }
        },
        None => skip_chars(s, 0),
    }
}

fn is_read_only_program(stem: &[char]) -> (r: bool)
    ensures
        r == read_only_program(stem@),
{
    eq_lit(stem, "ls") || eq_lit(stem, "cat") || eq_lit(stem, "head") || eq_lit(stem, "tail")
        || eq_lit(stem, "grep") || eq_lit(stem, "rg") || eq_lit(stem, "find") || eq_lit(
        stem,
        "tree",
    ) || eq_lit(stem, "wc") || eq_lit(stem, "sed") || eq_lit(stem, "jq") || eq_lit(stem, "awk")
}

fn is_read_only_git(sub: &[char]) -> (r: bool)
    ensures
        r == read_only_git(sub@),
{
    eq_lit(sub, "status") || eq_lit(sub, "log") || eq_lit(sub, "diff") || eq_lit(sub, "show")
        || eq_lit(sub, "branch") || eq_lit(sub, "rev-parse")
}

/// [`read_only_stem`].
fn read_only_stem_exec(cmd: &[char]) -> (r: bool)
    ensures
        r == read_only_stem(cmd@),
{
    let cs = string_from(cmd);
    let w = words_vec(cs.as_str());
    let first: Vec<char> = if w.len() > 0 {
        chars_of(w[0].as_str())
    } else {
        Vec::new()
    };
    assert(w@.len() > 0 ==> views(w@)[0] == w@[0]@);
    let stem = stem_of(first.as_slice());
    if is_read_only_program(stem.as_slice()) {
        return true;
    }
    proof {
        reveal_strlit("git");
        reveal_strlit("cargo");
    }
    if w.len() > 1 {
        let second = chars_of(w[1].as_str());
        assert(views(w@)[1] == w@[1]@);
        if eq_lit(stem.as_slice(), "git") {
            let r = is_read_only_git(second.as_slice());
            assert(views(w@) == words(cmd@));
            assert(stem@ == "git"@);
            assert(stem@.len() != "cargo"@.len());
            assert(!read_only_program(stem@));
            assert(r == read_only_stem(cmd@));
            return r;
        }
        if eq_lit(stem.as_slice(), "cargo") {
            return eq_lit(second.as_slice(), "metadata");
        }
    }
    false
}

/// [`writer_word`] at index `i`.
fn is_writer_word(t: &Vec<String>, i: usize) -> (r: bool)
    requires
        i < t@.len(),
    ensures
        r == writer_word(views(t@), i as int),
{
    let w = chars_of(t[i].as_str());
    assert(views(t@)[i as int] == w@);
    if prefix_lit(w.as_slice(), ">") || eq_lit(w.as_slice(), "-delete") || eq_lit(w.as_slice(), "-exec")
        || eq_lit(w.as_slice(), "-i") || eq_lit(w.as_slice(), "--in-place") {
        return true;
    }
    if eq_lit(w.as_slice(), "-f") && i > 0 {
        let first = chars_of(t[0].as_str());
        assert(views(t@)[0] == first@);
        let stem = stem_of(first.as_slice());
        return eq_lit(stem.as_slice(), "tail");
    }
    false
}

/// [`has_writer_marker`].
fn has_writer_marker_exec(cmd: &[char]) -> (r: bool)
    ensures
        r == has_writer_marker(cmd@),
{
    let cs = string_from(cmd);
    let t = words_vec(cs.as_str());
    let ghost tv = views(t@);
    let mut i: usize = 0;
    while i < t.len() && i + 1 < t.len()
        invariant
            tv == views(t@),
            tv == words(cmd@),
            i <= tv.len(),
            forall|k: int| 0 <= k < i ==> !#[trigger] pipe_tee(tv, k),
        decreases t@.len() - i,
    {
        let a = chars_of(t[i].as_str());
        let b = chars_of(t[i + 1].as_str());
        assert(tv[i as int] == a@ && tv[i + 1] == b@);
        if eq_lit(a.as_slice(), "|") && eq_lit(b.as_slice(), "tee") {
            assert(pipe_tee(tv, i as int));
            assert(tv == words(cmd@));
            return true;
        }
        i += 1;
    }
    let mut i: usize = 0;
    while i < t.len()
        invariant
            tv == views(t@),
            tv == words(cmd@),
            i <= tv.len(),
            !exists|k: int| #[trigger] pipe_tee(tv, k),
            forall|k: int| 0 <= k < i ==> !#[trigger] writer_word(tv, k),
        decreases t@.len() - i,
    {
        if is_writer_word(&t, i) {
            assert(writer_word(tv, i as int));
            assert(tv == words(cmd@));
            return true;
        }
        i += 1;
    }
    let parts = split_vec(cs.as_str(), '|');
    let ghost pv = views(parts@);
    if parts.len() > 1 {
        let mut j: usize = 1;
        while j < parts.len()
            invariant
                pv == views(parts@),
                pv == split_char(cmd@, '|'),
                1 <= j <= parts@.len(),
                forall|k: int| 1 <= k < j ==> read_only_stem(trim(#[trigger] pv[k])),
            decreases parts@.len() - j,
        {
            let seg = chars_of(parts[j].as_str());
            assert(pv[j as int] == seg@);
            let seg = trim_chars(seg.as_slice());
            if !read_only_stem_exec(seg.as_slice()) {
                return true;
            }
            j += 1;
        }
    }
    false
}

/// [`read_only`].
fn read_only_exec(cmd: &[char]) -> (r: bool)
    ensures
        r == read_only(cmd@),
{
    let c = after_cd_prefix_exec(cmd);
    if has_writer_marker_exec(c.as_slice()) {
        return false;
    }
    let cs = string_from(c.as_slice());
    let parts = split_vec(cs.as_str(), '|');
    let ghost pv = views(parts@);
    let mut j: usize = 0;
    while j < parts.len()
        invariant
            pv == views(parts@),
            pv == split_char(c@, '|'),
            c@ == after_cd_prefix(cmd@),
            j <= parts@.len(),
            forall|k: int| 0 <= k < j ==> read_only_stem(trim(#[trigger] pv[k])),
        decreases parts@.len() - j,
    {
        let seg = chars_of(parts[j].as_str());
        assert(pv[j as int] == seg@);
        let seg = trim_chars(seg.as_slice());
        if !read_only_stem_exec(seg.as_slice()) {
            assert(!read_only_stem(trim(pv[j as int])));
            return false;
        }
        j += 1;
    }
    true
}

/// Whether a Bash command only reads: a repeat of it with nothing run in between is a
/// duplicate. Looks past a `cd <dir> &&` prefix.
pub fn is_read_only(cmd: &str) -> (r: bool)
    ensures
        r == read_only(cmd@),
{
    let c = chars_of(cmd);
    read_only_exec(c.as_slice())
}

/// The guard's key for a tool call ([`cache_key_spec`]). `read_path` is the call's
/// `file_path` (or, without one, `path`) input; `command` is a Bash call's command.
pub fn cache_key(tool: &str, read_path: Option<&str>, command: Option<&str>) -> (r: Option<String>)
    ensures
        match (r, cache_key_spec(tool@, crate::memory_sync::opt_view(read_path), crate::memory_sync::opt_view(command))) {
            (Some(a), Some(b)) => a@ == b,
            (None, None) => true,
            _ => false,
        },
{
    let t = chars_of(tool);
    if eq_lit(t.as_slice(), "Read") {
        match read_path {
            Some(p) => {
                let pc = chars_of(p);
                let tp = trim_chars(pc.as_slice());
                if tp.len() > 0 {
                    let mut k = "read\t".to_owned();
                    push_all(&mut k, tp.as_slice());
                    Some(k)
                } else {
                    None
                }
            },
            None => None,
        }
    } else if eq_lit(t.as_slice(), "Bash") {
        match command {
            Some(c) => {
                let n = norm_cmd_exec(c);
                let nc = chars_of(n.as_str());
                if read_only_exec(nc.as_slice()) {
                    let mut k = "bash\t".to_owned();
                    k.append(n.as_str());
                    Some(k)
                } else {
                    None
                }
            },
            None => None,
        }
    } else {
        None
    }
}


// ---------------------------------------------------------------------------------------
// Decisions around the cache lookups
// ---------------------------------------------------------------------------------------

/// A duplicate's denial: the reason shown to the agent and what the denial records.
pub struct Denial {
    pub reason: String,
    /// Archived bytes the repeat would have returned.
    pub avoided: u64,
    /// Token estimate of those bytes (bytes / 4, at least 1).
    pub est: u32,
}

/// The reason a duplicate is denied with.
pub open spec fn deny_reason(id: Chars) -> Chars {
    "duplicate; rtok expand "@ + id
}

/// The token estimate of `avoided` archived bytes: a quarter, at least one.
pub open spec fn est_tokens(avoided: u64) -> u32 {
    (if avoided / 4 >= 1 {
        avoided / 4
    } else {
        1
    }) as u32
}

/// The pre-tool verdict once the key was found with archive `id`: deny while the repeat is
/// inside the window (`calls_since <= window`) and the original is retrievable (the
/// archive reports a non-zero size); otherwise let the call through.
pub fn duplicate_denial(id: &str, calls_since: i64, window: u32, archive_size: Option<u64>) -> (r:
    Option<Denial>)
    ensures
        match r {
            Some(d) => {
                &&& calls_since <= window
                &&& archive_size == Some(d.avoided)
                &&& d.avoided > 0
                &&& d.reason@ == deny_reason(id@)
                &&& d.est == est_tokens(d.avoided)
            },
            None => calls_since > window || archive_size is None || archive_size == Some(0u64),
        },
{
    if calls_since > window as i64 {
        return None;
    }
    let avoided = match archive_size {
        Some(a) => a,
        None => return None,
    };
    if avoided == 0 {
        return None;
    }
    let q = avoided / 4;
    let m = if q >= 1 {
        q
    } else {
        1
    };
    let est = m as u32;
    let mut reason = "duplicate; rtok expand ".to_owned();
    reason.append(id);
    Some(Denial { reason, avoided, est })
}

/// What the post-tool hook does with a finished call.
pub enum PostAction {
    /// Archive the response and remember it under this key.
    Remember(String),
    /// Drop every cached key equal to, or starting with, one of these followed by a tab.
    Clear(Vec<String>),
    /// Nothing to do.
    Nothing,
}

/// The prefixes a mutating call clears: every `bash` key, plus every `read` key for a
/// `Bash` or an `Edit`/`Write` without a path, else only that path's `read` key.
pub open spec fn mutation_clears(tool: Chars, path: Option<Chars>) -> Seq<Chars> {
    let read_part = if tool == "Bash"@ {
        "read"@
    } else {
        match path {
            Some(p) => if trim(p).len() > 0 {
                "read\t"@ + trim(p)
            } else {
                "read"@
            },
            None => "read"@,
        }
    };
    seq!["bash"@, read_part]
}

/// Whether a tool without a key changes what earlier calls saw.
pub open spec fn is_mutating(tool: Chars) -> bool {
    tool == "Bash"@ || tool == "Edit"@ || tool == "Write"@
}

/// The post-tool decision: a keyed call is remembered; a keyless `Bash`, `Edit` or `Write`
/// clears the keys it may have made stale; anything else is left alone. `path` is the
/// call's `file_path` (or `path`) input, `command` a Bash call's command.
pub fn post_tool_action(tool: &str, path: Option<&str>, command: Option<&str>) -> (r: PostAction)
    ensures
        match cache_key_spec(tool@, crate::memory_sync::opt_view(path), crate::memory_sync::opt_view(command)) {
            Some(k) => r matches PostAction::Remember(key) && key@ == k,
            None => if is_mutating(tool@) {
                r matches PostAction::Clear(v) && crate::text::views(v@) == mutation_clears(tool@, crate::memory_sync::opt_view(path))
            } else {
                r is Nothing
            },
        },
{
    match cache_key(tool, path, command) {
        Some(k) => PostAction::Remember(k),
        None => {
            let t = chars_of(tool);
            let bash = eq_lit(t.as_slice(), "Bash");
            if !(bash || eq_lit(t.as_slice(), "Edit") || eq_lit(t.as_slice(), "Write")) {
                return PostAction::Nothing;
            }
            let read_part = if bash {
                "read".to_owned()
            } else {
                match path {
                    Some(p) => {
                        let pc = chars_of(p);
                        let tp = trim_chars(pc.as_slice());
                        if tp.len() > 0 {
                            let mut k = "read\t".to_owned();
                            push_all(&mut k, tp.as_slice());
                            k
                        } else {
                            "read".to_owned()
                        }
                    },
                    None => "read".to_owned(),
                }
            };
            let mut v: Vec<String> = Vec::new();
            v.push("bash".to_owned());
            v.push(read_part);
            assert(crate::text::views(v@) =~= mutation_clears(tool@, crate::memory_sync::opt_view(path)));
            PostAction::Clear(v)
        },
    }
}

/// The MCP tool a native tool is redirected to, if any.
pub open spec fn redirect_target(tool: Chars) -> Option<Chars> {
    if tool == "Grep"@ {
        Some("search"@)
    } else if tool == "Glob"@ {
        Some("tree"@)
    } else {
        None
    }
}

/// The opt-in deny of native `Grep`/`Glob`: only with the guard's `deny_grep_glob` on and
/// the `read` plugin (which serves the replacement) enabled.
pub fn native_redirect(tool: &str, deny_grep_glob: bool, read_enabled: bool) -> (r: Option<String>)
    ensures
        match r {
            Some(reason) => deny_grep_glob && read_enabled && redirect_target(tool@) is Some
                && reason@ == "native "@ + tool@ + " is disabled here; use rtok "@
                + redirect_target(tool@)->Some_0 + " (MCP) instead"@,
            None => !deny_grep_glob || !read_enabled || redirect_target(tool@) is None,
        },
{
    let t = chars_of(tool);
    let target = if eq_lit(t.as_slice(), "Grep") {
        "search"
    } else if eq_lit(t.as_slice(), "Glob") {
        "tree"
    } else {
        return None;
    };
    if !deny_grep_glob || !read_enabled {
        return None;
    }
    let mut reason = "native ".to_owned();
    reason.append(tool);
    reason.append(" is disabled here; use rtok ");
    reason.append(target);
    reason.append(" (MCP) instead");
    Some(reason)
}

/// A mutating call always drops every Bash key first, then one set of Read keys.
pub proof fn law_mutation_clears_bash_keys(tool: Chars, path: Option<Chars>)
    requires
        is_mutating(tool),
    ensures
        mutation_clears(tool, path)[0] == "bash"@,
        mutation_clears(tool, path).len() == 2,
{
}

// ---------------------------------------------------------------------------------------
// A tool call's input
// ---------------------------------------------------------------------------------------

/// A top-level member of a JSON object as the guard reads it: a string, or anything else.
pub enum JsonMember {
    Text(String),
    Other,
}

/// [`JsonMember`] as a value.
pub enum JsonMemberV {
    Text(Chars),
    Other,
}

/// The view of a member.
pub open spec fn member_view(m: JsonMember) -> JsonMemberV {
    match m {
        JsonMember::Text(s) => JsonMemberV::Text(s@),
        JsonMember::Other => JsonMemberV::Other,
    }
}

/// The views of an object's members.
pub open spec fn members_view(v: Seq<(String, JsonMember)>) -> Seq<(Chars, JsonMemberV)> {
    Seq::new(v.len(), |i: int| (v[i].0@, member_view(v[i].1)))
}

/// What `serde_json::from_str::<Value>` makes of a text, read as an object's members (key
/// and value, strings kept, other values marked): `None` where the text does not parse or
/// is not an object.
pub uninterp spec fn json_object(raw: Chars) -> Option<Seq<(Chars, JsonMemberV)>>;

/// `serde_json::from_str::<Value>`, an object's members read as [`JsonMember`]s in the
/// map's order; `None` for a parse error or another kind of value. Named [`json_object`]:
/// it depends on the text alone.
#[verifier::external_body]
fn parse_object(raw: &str) -> (r: Option<Vec<(String, JsonMember)>>)
    ensures
        match r {
            Some(v) => json_object(raw@) == Some(members_view(v@)),
            None => json_object(raw@) is None,
        },
{
    match serde_json::from_str::<serde_json::Value>(raw) {
        Ok(serde_json::Value::Object(m)) => Some(m.into_iter().map(|(k, v)| match v {
            serde_json::Value::String(s) => (k, JsonMember::Text(s)),
            _ => (k, JsonMember::Other),
        }).collect()),
        _ => None,
    }
}

/// The first member named `key`, if any.
pub open spec fn member(ms: Seq<(Chars, JsonMemberV)>, key: Chars) -> Option<JsonMemberV>
    decreases ms.len(),
{
    if ms.len() == 0 {
        None
    } else if ms[0].0 == key {
        Some(ms[0].1)
    } else {
        member(ms.drop_first(), key)
    }
}

/// The text of a member that is a string.
pub open spec fn member_text(m: Option<JsonMemberV>) -> Option<Chars> {
    match m {
        Some(JsonMemberV::Text(s)) => Some(s),
        _ => None,
    }
}

/// What the guard reads of a tool call's input: the file it names, its command and the
/// skill it loads.
pub struct ToolInput {
    pub file_path: Option<String>,
    pub command: Option<String>,
    pub skill: Option<String>,
}

/// [`ToolInput`] as a value.
pub open spec fn tool_input_view(t: ToolInput) -> (Option<Chars>, Option<Chars>, Option<Chars>) {
    (
        crate::outline::opt_string(t.file_path),
        crate::outline::opt_string(t.command),
        crate::outline::opt_string(t.skill),
    )
}

/// The input read from an object's members: `filePath` (from some hosts) counts as
/// `file_path` where that is absent; the file is `file_path` where present (a string),
/// else `path`; the command is `command` and the skill `skill`, where they are strings. A
/// text that is no JSON object names nothing.
pub open spec fn tool_input_spec(obj: Option<Seq<(Chars, JsonMemberV)>>) -> (Option<Chars>, Option<Chars>, Option<Chars>) {
    match obj {
        None => (None, None, None),
        Some(ms) => {
            let fp = match member(ms, "file_path"@) {
                Some(v) => Some(v),
                None => member(ms, "filePath"@),
            };
            (
                match fp {
                    Some(v) => member_text(Some(v)),
                    None => member_text(member(ms, "path"@)),
                },
                member_text(member(ms, "command"@)),
                member_text(member(ms, "skill"@)),
            )
        },
    }
}

/// [`member`] on members as values.
fn find_member<'a>(ms: &'a Vec<(String, JsonMember)>, key: &str) -> (r: Option<&'a JsonMember>)
    ensures
        match r {
            Some(m) => member(members_view(ms@), key@) == Some(member_view(*m)),
            None => member(members_view(ms@), key@) is None,
        },
{
    let ghost mv = members_view(ms@);
    let mut i: usize = 0;
    assert(mv.skip(0) == mv);
    while i < ms.len()
        invariant
            i <= ms@.len(),
            mv == members_view(ms@),
            member(mv, key@) == member(mv.skip(i as int), key@),
        decreases ms@.len() - i,
    {
        assert(mv.skip(i as int)[0] == mv[i as int]);
        assert(mv.skip(i as int).drop_first() == mv.skip(i + 1));
        if crate::text::str_eq(ms[i].0.as_str(), key) {
            return Some(&ms[i].1);
        }
        i += 1;
    }
    assert(mv.skip(i as int).len() == 0);
    None
}

/// A member's string, copied.
fn text_of(m: Option<&JsonMember>) -> (r: Option<String>)
    ensures
        crate::outline::opt_string(r) == member_text(
            match m {
                Some(x) => Some(member_view(*x)),
                None => None,
            },
        ),
{
    match m {
        Some(JsonMember::Text(s)) => Some(crate::text::copy_str(s.as_str())),
        _ => None,
    }
}

/// The input of a tool call from its raw JSON text ([`tool_input_spec`] of what
/// serde_json parses it to).
pub fn tool_input(raw_input: &str) -> (r: ToolInput)
    ensures
        tool_input_view(r) == tool_input_spec(json_object(raw_input@)),
{
    match parse_object(raw_input) {
        None => ToolInput { file_path: None, command: None, skill: None },
        Some(ms) => {
            let fp = match find_member(&ms, "file_path") {
                Some(v) => Some(v),
                None => find_member(&ms, "filePath"),
            };
            let file_path = match fp {
                Some(v) => text_of(Some(v)),
                None => text_of(find_member(&ms, "path")),
            };
            let command = text_of(find_member(&ms, "command"));
            let skill = text_of(find_member(&ms, "skill"));
            ToolInput { file_path, command, skill }
        },
    }
}

/// What `serde_json::from_str::<Value>` makes of a text, when that is a JSON string: the
/// string's characters.
pub uninterp spec fn json_string(raw: Chars) -> Option<Chars>;

/// `serde_json::from_str::<Value>`, read as a string when the text is a JSON string;
/// `None` otherwise. Named [`json_string`]: it depends on the text alone.
#[verifier::external_body]
fn parse_string(raw: &str) -> (r: Option<String>)
    ensures
        match r {
            Some(s) => json_string(raw@) == Some(s@),
            None => json_string(raw@) is None,
        },
{
    match serde_json::from_str::<serde_json::Value>(raw) {
        Ok(serde_json::Value::String(s)) => Some(s),
        _ => None,
    }
}

/// What is archived for a remembered call, from its response's JSON text: a bare string
/// response, else its `stdout` string, else its `content` string, else the JSON text.
pub open spec fn payload_spec(raw: Chars) -> Chars {
    match json_string(raw) {
        Some(s) => s,
        None => match member_text(
            match json_object(raw) {
                Some(ms) => member(ms, "stdout"@),
                None => None,
            },
        ) {
            Some(s) => s,
            None => match member_text(
                match json_object(raw) {
                    Some(ms) => member(ms, "content"@),
                    None => None,
                },
            ) {
                Some(s) => s,
                None => raw,
            },
        },
    }
}

/// [`payload_spec`], as the UTF-8 text archived.
pub fn payload(raw_response: &str) -> (r: String)
    ensures
        r@ == payload_spec(raw_response@),
{
    if let Some(s) = parse_string(raw_response) {
        return s;
    }
    match parse_object(raw_response) {
        Some(ms) => {
            if let Some(s) = text_of(find_member(&ms, "stdout")) {
                return s;
            }
            if let Some(s) = text_of(find_member(&ms, "content")) {
                return s;
            }
            crate::text::copy_str(raw_response)
        },
        None => crate::text::copy_str(raw_response),
    }
}

} // verus!
