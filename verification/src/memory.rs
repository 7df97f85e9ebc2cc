//! The `memory` plugin's decisions around its note store: how a note reads back, what a
//! lifecycle update or a revision asks of the store and answers, which search backend a
//! query goes to, the `remember:` prompt prefix, note ages, and the project name read out
//! of a checkout's git files.

use vstd::prelude::*;

use crate::plugin::{declares, DashboardPage, Manifest, Surface};
use crate::text::{
    chars_of, dec_int, dec_nat, join, join_strings, lines, lines_vec, push_i64, push_u64,
    starts_with, str_eq, string_from, trim, trim_chars, trim_end, views, words, Chars,
};

verus! {

/// Catalogue plugin `memory`: notes recalled without an extraction step.
pub struct Memory;

impl Memory {
    pub fn manifest(&self) -> (m: Manifest)
        ensures
            declares(m, "memory"@, seq![Surface::Mcp, Surface::Hook], true),
    {
        Manifest { id: "memory", surfaces: vec![Surface::Mcp, Surface::Hook], default_on: true }
    }

    pub fn dashboard_page(&self) -> (p: DashboardPage)
        ensures
            p.title@ == "Memory"@,
            p.summary@ == "Recall notes and titles without an LLM extraction step."@,
            p.saves_tokens,
    {
        DashboardPage {
            title: "Memory",
            summary: "Recall notes and titles without an LLM extraction step.",
            saves_tokens: true,
        }
    }
}

/// What one notes import did.
pub struct Report {
    pub inserted: u32,
    pub skipped: u32,
    pub malformed: u32,
}

impl Report {
    /// `inserted N  skipped N  malformed N`.
    pub fn text(&self) -> (s: String)
        ensures
            s@ == "inserted "@ + dec_nat(self.inserted as nat) + "  skipped "@ + dec_nat(
                self.skipped as nat,
            ) + "  malformed "@ + dec_nat(self.malformed as nat),
    {
        let mut s = "inserted ".to_owned();
        push_u64(&mut s, self.inserted as u64);
        s.append("  skipped ");
        push_u64(&mut s, self.skipped as u64);
        s.append("  malformed ");
        push_u64(&mut s, self.malformed as u64);
        s
    }
}

impl Default for Report {
    fn default() -> (r: Self)
        ensures
            r.inserted == 0 && r.skipped == 0 && r.malformed == 0,
    {
        Report { inserted: 0, skipped: 0, malformed: 0 }
    }
}

// ---------------------------------------------------------------------------------------
// Reading a note
// ---------------------------------------------------------------------------------------

/// One stored note as the store returns it.
pub struct NoteRow {
    pub body: String,
    /// When the note was retired, if it was.
    pub retired: Option<i64>,
    /// The note that replaces it, if one was named.
    pub superseded_by: Option<i32>,
}

/// A note read back: its body; a retired note keeps its body whole under one line
/// saying when it was retired and, if named, what replaces it.
pub open spec fn note_text(row: NoteRow) -> Chars {
    match row.retired {
        None => row.body@,
        Some(ts) => "retired "@ + dec_int(ts as int) + match row.superseded_by {
            Some(s) => ", superseded by "@ + dec_int(s as int),
            None => Seq::empty(),
        } + "\n"@ + row.body@,
    }
}

/// The body `mem_get` returns for the row the store found, if any.
pub fn mem_get(row: Option<NoteRow>) -> (r: Option<String>)
    ensures
        match (row, r) {
            (Some(n), Some(t)) => t@ == note_text(n),
            (None, None) => true,
            _ => false,
        },
{
    match row {
        None => None,
        Some(n) => match n.retired {
            None => Some(n.body),
            Some(ts) => {
                let mut head = "retired ".to_owned();
                push_i64(&mut head, ts);
                match n.superseded_by {
                    Some(s) => {
                        head.append(", superseded by ");
                        push_i64(&mut head, s as i64);
                    },
                    None => {},
                }
                head.append("\n");
                head.append(n.body.as_str());
                Some(head)
            },
        },
    }
}

// ---------------------------------------------------------------------------------------
// Lifecycle
// ---------------------------------------------------------------------------------------

/// Why a lifecycle call fails.
#[derive(Clone, Copy, Debug, PartialEq, Eq, Structural)]
pub enum MemError {
    /// `superseded_by` without `retire`.
    SupersededNeedsRetire,
    /// The store has no note with this id.
    UnknownNote(i32),
    /// Neither `retire` nor `pinned` was given.
    NothingToDo,
}

/// The message each error carries.
pub open spec fn mem_error_text(e: MemError) -> Chars {
    match e {
        MemError::SupersededNeedsRetire => "superseded_by needs retire: true (it names what the retired note replaces)"@,
        MemError::UnknownNote(id) => "unknown note id: "@ + dec_int(id as int),
        MemError::NothingToDo => "nothing to do: pass retire or pinned"@,
    }
}

impl MemError {
    /// [`mem_error_text`].
    pub fn message(&self) -> (s: String)
        ensures
            s@ == mem_error_text(*self),
    {
        match self {
            MemError::SupersededNeedsRetire => "superseded_by needs retire: true (it names what the retired note replaces)".to_owned(),
            MemError::UnknownNote(id) => {
                let mut s = "unknown note id: ".to_owned();
                push_i64(&mut s, *id as i64);
                s
            },
            MemError::NothingToDo => "nothing to do: pass retire or pinned".to_owned(),
        }
    }
}

/// A call a lifecycle update makes on the store; each answers whether the id was known.
#[derive(Clone, Copy, Debug, PartialEq, Eq, Structural)]
pub enum NoteCall {
    /// Tombstone the note (never delete), naming its replacement if any.
    Retire(i32, Option<i32>),
    /// Pin or unpin the note.
    Pin(i32, bool),
}

/// The store calls an update makes, in order: retire first, then pin.
pub open spec fn update_calls(id: i32, retire: bool, superseded_by: Option<i32>, pinned: Option<bool>) -> Seq<NoteCall> {
    (if retire {
        seq![NoteCall::Retire(id, superseded_by)]
    } else {
        Seq::empty()
    }) + match pinned {
        Some(p) => seq![NoteCall::Pin(id, p)],
        None => Seq::empty(),
    }
}

/// The answer of a completed update: one part per call, joined by `; `.
pub open spec fn update_answer(id: i32, retire: bool, superseded_by: Option<i32>, pinned: Option<bool>) -> Chars {
    let r = "retired note "@ + dec_int(id as int) + match superseded_by {
        Some(s) => ", superseded by "@ + dec_int(s as int),
        None => Seq::empty(),
    };
    let p = match pinned {
        Some(b) => (if b {
            "pinned"@
        } else {
            "unpinned"@
        }) + " note "@ + dec_int(id as int),
        None => Seq::empty(),
    };
    join((if retire { seq![r] } else { Seq::empty() }) + (if pinned is Some { seq![p] } else { Seq::empty() }), "; "@)
}

/// What a lifecycle update does next, given the store's answers to the calls made so far
/// (each: was the id known): the next store call, or the final answer. `superseded_by`
/// needs `retire`; an unknown id fails at the call that finds out; an update with
/// neither `retire` nor `pinned` has nothing to do.
pub fn mem_update(id: i32, retire: bool, superseded_by: Option<i32>, pinned: Option<bool>, answers: &Vec<bool>) -> (r: Result<NoteCall, Result<String, MemError>>)
    ensures
        ({
            let calls = update_calls(id, retire, superseded_by, pinned);
            if superseded_by is Some && !retire {
                r == Err::<NoteCall, Result<String, MemError>>(Err(MemError::SupersededNeedsRetire))
            } else if exists|k: int| 0 <= k < answers@.len() && k < calls.len() && !#[trigger] answers@[k] {
                r == Err::<NoteCall, Result<String, MemError>>(Err(MemError::UnknownNote(id)))
            } else if answers@.len() < calls.len() {
                r == Ok::<NoteCall, Result<String, MemError>>(calls[answers@.len() as int])
            } else if calls.len() == 0 {
                r == Err::<NoteCall, Result<String, MemError>>(Err(MemError::NothingToDo))
            } else {
                r matches Err(Ok(t)) && t@ == update_answer(id, retire, superseded_by, pinned)
            }
        }),
{
    let ghost calls = update_calls(id, retire, superseded_by, pinned);
    if superseded_by.is_some() && !retire {
        return Err(Err(MemError::SupersededNeedsRetire));
    }
    let mut calls_v: Vec<NoteCall> = Vec::new();
    if retire {
        calls_v.push(NoteCall::Retire(id, superseded_by));
    }
    match pinned {
        Some(p) => calls_v.push(NoteCall::Pin(id, p)),
        None => {},
    }
    assert(calls_v@ =~= calls);
    let mut k: usize = 0;
    while k < answers.len() && k < calls_v.len()
        invariant
            calls_v@ == calls,
            calls == update_calls(id, retire, superseded_by, pinned),
            !(superseded_by is Some && !retire),
            k <= answers@.len(),
            forall|x: int| 0 <= x < k ==> #[trigger] answers@[x],
        decreases answers@.len() - k,
    {
        if !answers[k] {
            assert(k < calls.len() && !answers@[k as int]);
            return Err(Err(MemError::UnknownNote(id)));
        }
        k += 1;
    }
    if answers.len() < calls_v.len() {
        return Ok(calls_v[answers.len()]);
    }
    if calls_v.len() == 0 {
        return Err(Err(MemError::NothingToDo));
    }
    let mut rline = "retired note ".to_owned();
    push_i64(&mut rline, id as i64);
    match superseded_by {
        Some(sup) => {
            rline.append(", superseded by ");
            push_i64(&mut rline, sup as i64);
        },
        None => {},
    }
    let mut pline = match pinned {
        Some(true) => "pinned".to_owned(),
        _ => "unpinned".to_owned(),
    };
    pline.append(" note ");
    push_i64(&mut pline, id as i64);
    let ghost rs = "retired note "@ + dec_int(id as int) + match superseded_by {
        Some(sup) => ", superseded by "@ + dec_int(sup as int),
        None => Seq::empty(),
    };
    let ghost ps = match pinned {
        Some(b) => (if b {
            "pinned"@
        } else {
            "unpinned"@
        }) + " note "@ + dec_int(id as int),
        None => Seq::empty(),
    };
    assert(rline@ == rs);
    assert(pinned is Some ==> pline@ == ps);
    let out = if retire && pinned.is_some() {
        let mut o = rline;
        o.append("; ");
        o.append(pline.as_str());
        assert(join(seq![rs, ps], "; "@) == join(seq![rs, ps].drop_last(), "; "@) + "; "@ + ps);
        assert(seq![rs, ps].drop_last() =~= seq![rs]);
        o
    } else if retire {
        rline
    } else {
        pline
    };
    proof {
        assert(seq![rs] + Seq::<Chars>::empty() =~= seq![rs]);
        assert(Seq::<Chars>::empty() + seq![ps] =~= seq![ps]);
        assert(seq![rs] + seq![ps] =~= seq![rs, ps]);
    }
    Err(Ok(out))
}

/// What a revision does next: look the old note up (`found`), save the replacement
/// (`saved`: the id the save returned), and retire the old note naming the replacement
/// unless the save updated the same row (same title).
pub enum ReviseStep {
    /// Save the replacement with the old note's kind and project.
    Save,
    /// Retire `old`, naming `new` as its replacement.
    Retire(i32, i32),
    /// The replacement id and the retired old id, or the failure.
    Done(Result<(i32, Option<i32>), MemError>),
}

/// The next step of a revision of note `id`, given whether the store found it, the id the
/// save returned (once saved) and whether the retire was made.
pub fn mem_revise(id: i32, found: bool, saved: Option<i32>, retired: bool) -> (r: ReviseStep)
    ensures
        !found ==> r == ReviseStep::Done(Err(MemError::UnknownNote(id))),
        found && saved is None ==> r is Save,
        found && saved == Some(id) ==> r == ReviseStep::Done(Ok((id, None))),
        found && saved is Some && saved->Some_0 != id && !retired ==> r == ReviseStep::Retire(
            id,
            saved->Some_0,
        ),
        found && saved is Some && saved->Some_0 != id && retired ==> r == ReviseStep::Done(
            Ok((saved->Some_0, Some(id))),
        ),
{
    if !found {
        return ReviseStep::Done(Err(MemError::UnknownNote(id)));
    }
    match saved {
        None => ReviseStep::Save,
        Some(n) => if n == id {
            ReviseStep::Done(Ok((n, None)))
        } else if !retired {
            ReviseStep::Retire(id, n)
        } else {
            ReviseStep::Done(Ok((n, Some(id))))
        },
    }
}

/// Where a note search goes.
#[derive(Clone, Copy, Debug, PartialEq, Eq, Structural)]
pub enum SearchBackend {
    /// Full-text search.
    Fts,
    /// Embedding similarity.
    Embed,
    /// Both, merged.
    Hybrid,
}

/// The backend and the limit (at least one) of a note search: full text unless embeddings
/// are enabled, then hybrid or embeddings alone.
pub fn mem_search(limit: u32, embed_enabled: bool, hybrid: bool) -> (r: (SearchBackend, u32))
    ensures
        r.1 == (if limit < 1 {
            1
        } else {
            limit
        }),
        r.0 == (if !embed_enabled {
            SearchBackend::Fts
        } else if hybrid {
            SearchBackend::Hybrid
        } else {
            SearchBackend::Embed
        }),
{
    let lim = if limit < 1 {
        1
    } else {
        limit
    };
    if !embed_enabled {
        (SearchBackend::Fts, lim)
    } else if hybrid {
        (SearchBackend::Hybrid, lim)
    } else {
        (SearchBackend::Embed, lim)
    }
}

// ---------------------------------------------------------------------------------------
// Prompts and ages
// ---------------------------------------------------------------------------------------

/// A `remember:` prompt: its first line, trimmed, after the prefix, trimmed; the note's
/// title is the first 80 characters of that. `None` for any other prompt or an empty
/// remainder.
pub open spec fn remember_spec(prompt: Chars) -> Option<(Chars, Chars)> {
    let ls = lines(prompt);
    if ls.len() == 0 {
        None
    } else {
        let first = trim(ls[0]);
        if !starts_with(first, "remember:"@) {
            None
        } else {
            let rest = trim(first.skip(9));
            if rest.len() == 0 {
                None
            } else {
                Some((if rest.len() <= 80 { rest } else { rest.take(80) }, rest))
            }
        }
    }
}

/// The `(title, body)` of the note a `remember:` prompt saves, if it is one.
pub fn remember_note(prompt: &str) -> (r: Option<(String, String)>)
    ensures
        match (r, remember_spec(prompt@)) {
            (Some((t, b)), Some((t2, b2))) => t@ == t2 && b@ == b2,
            (None, None) => true,
            _ => false,
        },
{
    let ls = lines_vec(prompt);
    if ls.len() == 0 {
        return None;
    }
    let first = chars_of(ls[0].as_str());
    assert(views(ls@)[0] == first@);
    let first = trim_chars(first.as_slice());
    let rest = match crate::text::strip_prefix_chars(first.as_slice(), "remember:") {
        Some(r) => r,
        None => return None,
    };
    proof {
        reveal_strlit("remember:");
    }
    let rest = trim_chars(rest.as_slice());
    if rest.len() == 0 {
        return None;
    }
    let n = if rest.len() <= 80 {
        rest.len()
    } else {
        80
    };
    let title = crate::text::take_chars(rest.as_slice(), n);
    assert(rest.len() <= 80 ==> rest@.take(rest@.len() as int) == rest@);
    Some((string_from(title.as_slice()), string_from(rest.as_slice())))
}

/// The recall query of a prompt: its first 24 words, space-separated.
pub open spec fn recall_query_spec(prompt: Chars) -> Chars {
    let w = words(prompt);
    join(if w.len() <= 24 { w } else { w.take(24) }, " "@)
}

/// [`recall_query_spec`].
pub fn recall_query(prompt: &str) -> (r: String)
    ensures
        r@ == recall_query_spec(prompt@),
{
    let w = crate::text::words_vec(prompt);
    if w.len() <= 24 {
        return join_strings(w.as_slice(), " ");
    }
    let mut head: Vec<String> = Vec::new();
    let mut i: usize = 0;
    while i < 24
        invariant
            i <= 24,
            24 < w@.len(),
            views(head@) == views(w@).take(i as int),
        decreases 24 - i,
    {
        let ghost b = head@;
        head.push(crate::text::copy_str(w[i].as_str()));
        assert(views(w@).take(i + 1) == views(w@).take(i as int).push(w@[i as int]@));
        assert(views(head@) =~= views(b).push(w@[i as int]@));
        i += 1;
    }
    join_strings(head.as_slice(), " ")
}

/// The notes block a session starts with or a prompt recalls: `notes`, then one
/// `id title` line per note among the first `k`.
pub open spec fn notes_text_spec(rows: Seq<(i64, Chars)>, k: int) -> Chars
    decreases k,
{
    if k <= 0 {
        "notes"@
    } else {
        notes_text_spec(rows, k - 1) + "\n"@ + crate::text::dec_int(rows[k - 1].0 as int) + " "@ + rows[k - 1].1
    }
}

/// [`notes_text_spec`] over the first `k` of `rows`.
pub fn notes_text(rows: &[(i64, String)], k: usize) -> (r: String)
    requires
        k <= rows@.len(),
    ensures
        r@ == notes_text_spec(Seq::new(rows@.len(), |i: int| (rows@[i].0, rows@[i].1@)), k as int),
{
    let ghost rv = Seq::new(rows@.len(), |i: int| (rows@[i].0, rows@[i].1@));
    let mut s = "notes".to_owned();
    let mut i: usize = 0;
    while i < k
        invariant
            i <= k <= rows@.len(),
            rv == Seq::new(rows@.len(), |m: int| (rows@[m].0, rows@[m].1@)),
            s@ == notes_text_spec(rv, i as int),
        decreases k - i,
    {
        s.append("\n");
        crate::text::push_i64(&mut s, rows[i].0);
        s.append(" ");
        s.append(rows[i].1.as_str());
        i += 1;
    }
    s
}

/// How many notes a session's recall keeps: all of them unless the block is over the
/// token cap, then fewer, one at a time from the end, but never none. `costs[k]` is the
/// estimate of the block of the first `k` notes.
pub open spec fn recall_keep_spec(costs: Seq<u32>, cap: u32, k: int) -> int
    decreases k,
{
    if k > 1 && costs[k] > cap {
        recall_keep_spec(costs, cap, k - 1)
    } else {
        k
    }
}

/// [`recall_keep_spec`] from all `costs.len() - 1` notes.
pub fn recall_keep(costs: &[u32], cap: u32) -> (r: usize)
    requires
        costs@.len() >= 1,
    ensures
        r == recall_keep_spec(costs@, cap, costs@.len() - 1),
        costs@.len() > 1 ==> 1 <= r,
        r <= costs@.len() - 1,
{
    let mut k = costs.len() - 1;
    while k > 1 && costs[k] > cap
        invariant
            k <= costs@.len() - 1,
            recall_keep_spec(costs@, cap, costs@.len() - 1) == recall_keep_spec(costs@, cap, k as int),
            costs@.len() > 1 ==> 1 <= k,
        decreases k,
    {
        k -= 1;
    }
    k
}

/// A note's age in whole days: `(now - last_used)` floored at zero, truncated to `u32`,
/// divided by a day; `u32::MAX` for a note never used.
pub open spec fn age_days_spec(last_used: Option<i64>, now: i64) -> u32 {
    match last_used {
        Some(ts) => {
            let d = now - ts;
            ((if d > 0 {
                d
            } else {
                0
            }) as u32) / 86_400
        },
        None => u32::MAX,
    }
}

/// [`age_days_spec`]. Requires `now - last_used` to fit in an `i64`.
pub fn age_days(last_used: Option<i64>, now: i64) -> (r: u32)
    requires
        last_used matches Some(ts) ==> i64::MIN <= now - ts <= i64::MAX,
    ensures
        r == age_days_spec(last_used, now),
{
    match last_used {
        Some(ts) => {
            let d = now - ts;
            let m = if d > 0 {
                d
            } else {
                0
            };
            (#[verifier::truncate] (m as u32)) / 86_400
        },
        None => u32::MAX,
    }
}

// ---------------------------------------------------------------------------------------
// Project names from git files
// ---------------------------------------------------------------------------------------

/// The admin directory a worktree's `.git` file names: the first line starting with
/// `gitdir:`, what follows trimmed.
pub open spec fn gitdir_spec(dot_git: Chars) -> Option<Chars> {
    let ls = lines(dot_git);
    if exists|i: int| 0 <= i < ls.len() && starts_with(#[trigger] ls[i], "gitdir:"@) {
        let i = choose|i: int|
            0 <= i < ls.len() && starts_with(#[trigger] ls[i], "gitdir:"@) && forall|j: int|
                0 <= j < i ==> !starts_with(#[trigger] ls[j], "gitdir:"@);
        Some(trim(ls[i].skip(7)))
    } else {
        None
    }
}

/// [`gitdir_spec`].
pub fn gitdir_of(dot_git: &str) -> (r: Option<String>)
    ensures
        match r {
            Some(g) => gitdir_spec(dot_git@) == Some(g@),
            None => gitdir_spec(dot_git@) is None,
        },
{
    let ls = lines_vec(dot_git);
    let ghost lv = views(ls@);
    proof {
        reveal_strlit("gitdir:");
    }
    let mut i: usize = 0;
    while i < ls.len()
        invariant
            lv == views(ls@),
            lv == lines(dot_git@),
            i <= ls@.len(),
            forall|j: int| 0 <= j < i ==> !starts_with(#[trigger] lv[j], "gitdir:"@),
        decreases ls@.len() - i,
    {
        proof {
            reveal_strlit("gitdir:");
        }
        let l = chars_of(ls[i].as_str());
        assert(lv[i as int] == l@);
        match crate::text::strip_prefix_chars(l.as_slice(), "gitdir:") {
            Some(rest) => {
                let t = trim_chars(rest.as_slice());
                proof {
                    let w = choose|k: int|
                        0 <= k < lv.len() && starts_with(#[trigger] lv[k], "gitdir:"@) && forall|j: int|
                            0 <= j < k ==> !starts_with(#[trigger] lv[j], "gitdir:"@);
                    assert(0 <= i < lv.len() && starts_with(lv[i as int], "gitdir:"@) && forall|j: int|
                        0 <= j < i ==> !starts_with(#[trigger] lv[j], "gitdir:"@));
                    if w < i {
                        assert(starts_with(lv[w], "gitdir:"@));
                    } else if w > i {
                        assert(!starts_with(lv[i as int], "gitdir:"@));
                    }
                }
                return Some(string_from(t.as_slice()));
            },
            None => {},
        }
        i += 1;
    }
    None
}

/// A character that ends an origin URL's last segment.
pub open spec fn url_delim(c: char) -> bool {
    c == '/' || c == ':'
}

/// `s` without trailing `c`s.
pub open spec fn trim_end_char(s: Chars, c: char) -> Chars
    decreases s.len(),
{
    if s.len() > 0 && s.last() == c {
        trim_end_char(s.drop_last(), c)
    } else {
        s
    }
}

/// `s` without trailing `.git`s.
pub open spec fn trim_end_git(s: Chars) -> Chars
    decreases s.len(),
{
    if s.len() >= 4 && crate::text::ends_with(s, ".git"@) {
        trim_end_git(s.take(s.len() - 4))
    } else {
        s
    }
}

/// What follows the last `/` or `:`.
pub open spec fn after_url_delim(s: Chars) -> Chars
    decreases s.len(),
{
    if s.len() == 0 || url_delim(s.last()) {
        Seq::empty()
    } else {
        after_url_delim(s.drop_last()).push(s.last())
    }
}

/// The repo name an origin URL gives: its last `/`- or `:`-segment (trailing `/`
/// dropped), without `.git`; `None` when that is empty.
pub open spec fn repo_name(url: Chars) -> Option<Chars> {
    let n = trim_end_git(after_url_delim(trim_end_char(trim(url), '/')));
    if n.len() == 0 {
        None
    } else {
        Some(n)
    }
}

/// The `[remote "origin"]` url of a git config: the first `url = …` line inside that
/// section, as a repo name.
pub open spec fn origin_scan(ls: Seq<Chars>) -> Option<Option<Chars>>
    decreases ls.len(),
{
    origin_from(ls, 0, false)
}

/// The scan from line `i` on, inside the origin section or not.
pub open spec fn origin_from(ls: Seq<Chars>, i: int, in_origin: bool) -> Option<Option<Chars>>
    decreases ls.len() - i,
{
    if i < 0 || i >= ls.len() {
        None
    } else {
        let line = trim(ls[i]);
        if line.len() > 0 && line[0] == '[' {
            origin_from(ls, i + 1, line == "[remote \"origin\"]"@)
        } else {
            match crate::text::find_spec(line, "="@) {
                None => origin_from(ls, i + 1, in_origin),
                Some(e) => if !in_origin || trim(line.take(e)) != "url"@ {
                    origin_from(ls, i + 1, in_origin)
                } else {
                    Some(repo_name(line.skip(e + 1)))
                },
            }
        }
    }
}

/// The project name an origin's URL gives (`git@host:owner/repo.git`, `https://…/repo`,
/// `file:///…/repo.git` all name `repo`), from the text of `<common>/config`.
pub open spec fn origin_name_spec(config: Chars) -> Option<Chars> {
    match origin_from(lines(config), 0, false) {
        Some(n) => n,
        None => None,
    }
}

/// [`trim_end_char`] of `/`.
fn trim_end_slashes(t: &[char]) -> (r: Vec<char>)
    ensures
        r@ == trim_end_char(t@, '/'),
{
    let mut e = t.len();
    assert(t@.take(e as int) == t@);
    while e > 0 && t[e - 1] == '/'
        invariant
            e <= t@.len(),
            trim_end_char(t@, '/') == trim_end_char(t@.take(e as int), '/'),
        decreases e,
    {
        assert(t@.take(e as int).drop_last() == t@.take(e - 1));
        e -= 1;
    }
    crate::text::take_chars(t, e)
}

/// [`after_url_delim`].
fn after_delim(a: &[char]) -> (r: Vec<char>)
    ensures
        r@ == after_url_delim(a@),
{
    let mut s0 = a.len();
    assert(a@.take(s0 as int) == a@);
    assert(a@.subrange(s0 as int, a@.len() as int) =~= Seq::<char>::empty());
    while s0 > 0 && !(a[s0 - 1] == '/' || a[s0 - 1] == ':')
        invariant
            s0 <= a@.len(),
            after_url_delim(a@) == after_url_delim(a@.take(s0 as int)) + a@.subrange(s0 as int, a@.len() as int),
        decreases s0,
    {
        assert(a@.take(s0 as int).drop_last() == a@.take(s0 - 1));
        assert(a@.subrange(s0 - 1, a@.len() as int) == seq![a@[s0 - 1]] + a@.subrange(s0 as int, a@.len() as int));
        assert(after_url_delim(a@.take(s0 - 1)).push(a@[s0 - 1]) + a@.subrange(s0 as int, a@.len() as int)
            =~= after_url_delim(a@.take(s0 - 1)) + a@.subrange(s0 - 1, a@.len() as int));
        s0 -= 1;
    }
    assert(after_url_delim(a@.take(s0 as int)) =~= Seq::<char>::empty());
    let seg = crate::text::skip_chars(a, s0);
    assert(Seq::<char>::empty() + a@.subrange(s0 as int, a@.len() as int) =~= seg@);
    seg
}

/// [`trim_end_git`].
fn trim_git(seg: &[char]) -> (r: Vec<char>)
    ensures
        r@ == trim_end_git(seg@),
{
    let mut n = seg.len();
    assert(seg@.take(n as int) == seg@);
    while n >= 4 && seg[n - 4] == '.' && seg[n - 3] == 'g' && seg[n - 2] == 'i' && seg[n - 1] == 't'
        invariant
            n <= seg@.len(),
            trim_end_git(seg@) == trim_end_git(seg@.take(n as int)),
        decreases n,
    {
        assert(crate::text::ends_with(seg@.take(n as int), ".git"@)) by {
            reveal_strlit(".git");
            assert(seg@.take(n as int).skip(n - 4) =~= ".git"@);
        }
        assert(seg@.take(n as int).take(n - 4) == seg@.take(n - 4));
        n -= 4;
    }
    assert(!crate::text::ends_with(seg@.take(n as int), ".git"@) || n < 4) by {
        reveal_strlit(".git");
        if n >= 4 && crate::text::ends_with(seg@.take(n as int), ".git"@) {
            assert(seg@.take(n as int).skip(n - 4)[0] == seg@[n - 4]);
            assert(seg@.take(n as int).skip(n - 4)[1] == seg@[n - 3]);
            assert(seg@.take(n as int).skip(n - 4)[2] == seg@[n - 2]);
            assert(seg@.take(n as int).skip(n - 4)[3] == seg@[n - 1]);
        }
    }
    crate::text::take_chars(seg, n)
}

/// [`repo_name`].
fn repo_name_exec(url: &[char]) -> (r: Option<String>)
    ensures
        match r {
            Some(n) => repo_name(url@) == Some(n@),
            None => repo_name(url@) is None,
        },
{
    let t = trim_chars(url);
    let a = trim_end_slashes(t.as_slice());
    let seg = after_delim(a.as_slice());
    let name = trim_git(seg.as_slice());
    if name.len() == 0 {
        return None;
    }
    Some(string_from(name.as_slice()))
}

/// The project name the `origin` remote gives, from the text of a git config.
pub fn origin_name(config: &str) -> (r: Option<String>)
    ensures
        match r {
            Some(n) => origin_name_spec(config@) == Some(n@),
            None => origin_name_spec(config@) is None,
        },
{
    let ls = lines_vec(config);
    let ghost lv = views(ls@);
    let mut in_origin = false;
    let mut i: usize = 0;
    proof {
        reveal_strlit("=");
        reveal_strlit("url");
    }
    while i < ls.len()
        invariant
            lv == views(ls@),
            lv == lines(config@),
            i <= ls@.len(),
            origin_from(lv, 0, false) == origin_from(lv, i as int, in_origin),
        decreases ls@.len() - i,
    {
        proof {
            reveal_strlit("=");
            reveal_strlit("url");
        }
        let raw = chars_of(ls[i].as_str());
        assert(lv[i as int] == raw@);
        let line = trim_chars(raw.as_slice());
        if line.len() > 0 && line[0] == '[' {
            in_origin = crate::text::eq_lit(line.as_slice(), "[remote \"origin\"]");
        } else {
            let eq = chars_of("=");
            match crate::text::find(line.as_slice(), eq.as_slice()) {
                None => {},
                Some(e) => {
                    let key = crate::text::take_chars(line.as_slice(), e);
                    let key = trim_chars(key.as_slice());
                    if in_origin && crate::text::eq_lit(key.as_slice(), "url") {
                        assert(e + 1 <= line@.len());
                        let url = crate::text::skip_chars(line.as_slice(), e + 1);
                        return repo_name_exec(url.as_slice());
                    }
                },
            }
        }
        i += 1;
    }
    None
}


// ---------------------------------------------------------------------------------------
// The checkout a directory lies in
// ---------------------------------------------------------------------------------------

/// What finding a directory's project does next.
pub enum ProjectProbe {
    /// Test whether this `.git` path exists.
    Check(String),
    /// The project's name, or none outside a checkout.
    Found(Option<String>),
}

/// [`ProjectProbe`] as a value.
pub enum ProjectProbeV {
    Check(Chars),
    Found(Option<Chars>),
}

impl View for ProjectProbe {
    type V = ProjectProbeV;

    open spec fn view(&self) -> ProjectProbeV {
        match self {
            ProjectProbe::Check(p) => ProjectProbeV::Check(p@),
            ProjectProbe::Found(n) => ProjectProbeV::Found(
                match n {
                    Some(x) => Some(x@),
                    None => None,
                },
            ),
        }
    }
}

/// The walk up from directory `k` (`k` pops above `cs`), given whether each directory
/// tested so far holds a `.git`: the first that does names the project; past the root
/// there is none; a directory not yet tested is tested next.
pub open spec fn project_walk(cs: Seq<crate::path::Comp>, has_git: Seq<bool>, k: int) -> ProjectProbeV
    decreases crate::path::pops(cs) - k,
{
    if k < 0 || k >= has_git.len() {
        ProjectProbeV::Check(
            crate::path::join_name(crate::path::comps_text(crate::path::ancestor(cs, k)), ".git"@),
        )
    } else if has_git[k] {
        ProjectProbeV::Found(crate::path::comps_file_name(crate::path::ancestor(cs, k)))
    } else if k >= crate::path::pops(cs) {
        ProjectProbeV::Found(None)
    } else {
        project_walk(cs, has_git, k + 1)
    }
}

/// The name of the checkout `cwd` lies in: the name of the first directory, from `cwd` up,
/// that holds a `.git`. `has_git[k]` answers for the `k`-th directory up; the result is
/// the next `.git` path to test, or the name (none when no directory up to the root holds
/// one).
pub fn project_name(cwd: &str, has_git: &Vec<bool>) -> (r: ProjectProbe)
    ensures
        r@ == project_walk(crate::path::components(cwd@), has_git@, 0),
{
    let cs = crate::path::path_components(cwd);
    let ghost cv = crate::path::comp_views(cs@);
    let rooted = cs.len() > 0 && match &cs[0] {
        crate::path::Component::RootDir => true,
        _ => false,
    };
    let pops: usize = if rooted {
        cs.len() - 1
    } else {
        cs.len()
    };
    assert(pops == crate::path::pops(cv));
    let mut k: usize = 0;
    while k < has_git.len() && !has_git[k] && k < pops
        invariant
            k <= pops,
            pops == crate::path::pops(cv),
            cv == crate::path::comp_views(cs@),
            cv == crate::path::components(cwd@),
            project_walk(cv, has_git@, 0) == project_walk(cv, has_git@, k as int),
        decreases pops - k,
    {
        k += 1;
    }
    let mut up: Vec<crate::path::Component> = Vec::new();
    let mut i: usize = 0;
    let keep = cs.len() - k;
    while i < keep
        invariant
            keep == cs@.len() - k,
            i <= keep,
            k <= cs@.len(),
            crate::path::comp_views(up@) == cv.take(i as int),
            cv == crate::path::comp_views(cs@),
        decreases keep - i,
    {
        let c = crate::path::copy_component(&cs[i]);
        let ghost before = up@;
        up.push(c);
        assert(crate::path::comp_views(up@) =~= crate::path::comp_views(before).push(c@));
        assert(cv.take(i + 1) =~= cv.take(i as int).push(cv[i as int]));
        i += 1;
    }
    assert(crate::path::comp_views(up@) == crate::path::ancestor(cv, k as int));
    if k < has_git.len() && has_git[k] {
        let n = up.len();
        if n > 0 {
            match &up[n - 1] {
                crate::path::Component::Normal(v) => {
                    return ProjectProbe::Found(Some(string_from(v.as_slice())));
                },
                _ => {},
            }
        }
        ProjectProbe::Found(None)
    } else if k < has_git.len() {
        ProjectProbe::Found(None)
    } else {
        let dir = crate::path::path_text(&up);
        ProjectProbe::Check(crate::path::join_path(dir.as_str(), ".git"))
    }
}

} // verus!
