//! The opt-in rewrite of a request's `tools[]`: which tools the allow and deny lists drop,
//! and the sentences a description is cut at when it runs over its token cap.

use vstd::prelude::*;

use crate::graph::concat;
use crate::memory_sync::{over_budget, within_budget};
use crate::text::{chars_of, push_all, string_from, string_of, trim, trim_chars, views, Chars};

verus! {

/// An ASCII whitespace character (`u8::is_ascii_whitespace`).
pub open spec fn ascii_ws(c: char) -> bool {
    c == ' ' || c == '\t' || c == '\n' || c == '\r' || c == '\x0C'
}

/// A sentence ends at `i`: a `.`, `!` or `?` that ends the text or stands before ASCII
/// whitespace.
pub open spec fn sentence_end(t: Chars, i: int) -> bool {
    (t[i] == '.' || t[i] == '!' || t[i] == '?') && (i + 1 == t.len() || ascii_ws(t[i + 1]))
}

/// The sentences that end within the first `k` characters, and where the next one starts.
pub open spec fn sentences_upto(t: Chars, k: int) -> (Seq<Chars>, int)
    decreases k,
{
    if k <= 0 {
        (Seq::empty(), 0)
    } else {
        let (ps, start) = sentences_upto(t, k - 1);
        if sentence_end(t, k - 1) {
            (ps.push(t.subrange(start, k)), k)
        } else {
            (ps, start)
        }
    }
}

/// The sentences of `t`, each with the terminator and without the whitespace after it
/// (that whitespace opens the next one), then whatever follows the last terminator.
pub open spec fn sentences_spec(t: Chars) -> Seq<Chars> {
    let (ps, start) = sentences_upto(t, t.len() as int);
    if start < t.len() {
        ps.push(t.subrange(start, t.len() as int))
    } else {
        ps
    }
}

/// What [`sentences_upto`] has cut so far is the text up to where the next sentence
/// starts.
proof fn lemma_sentences_upto(t: Chars, k: int)
    requires
        0 <= k <= t.len(),
    ensures
        0 <= sentences_upto(t, k).1 <= k,
        concat(sentences_upto(t, k).0) == t.take(sentences_upto(t, k).1),
    decreases k,
{
    if k > 0 {
        lemma_sentences_upto(t, k - 1);
        let (ps, start) = sentences_upto(t, k - 1);
        if sentence_end(t, k - 1) {
            assert(ps.push(t.subrange(start, k)).drop_last() == ps);
            assert(t.take(start) + t.subrange(start, k) =~= t.take(k));
        }
    }
}

/// The sentences put back together are the text: cutting at them loses nothing.
pub proof fn law_sentences_cover_the_text(t: Chars)
    ensures
        concat(sentences_spec(t)) == t,
{
    lemma_sentences_upto(t, t.len() as int);
    let (ps, start) = sentences_upto(t, t.len() as int);
    if start < t.len() {
        assert(ps.push(t.subrange(start, t.len() as int)).drop_last() == ps);
        assert(t.take(start) + t.subrange(start, t.len() as int) =~= t);
    } else {
        assert(t.take(start) =~= t);
    }
}

/// [`ascii_ws`].
fn is_ascii_ws(c: char) -> (r: bool)
    ensures
        r == ascii_ws(c),
{
    c == ' ' || c == '\t' || c == '\n' || c == '\r' || c == '\x0C'
}

/// [`sentences_spec`].
pub fn sentences(text: &str) -> (r: Vec<String>)
    ensures
        views(r@) == sentences_spec(text@),
{
    let t = chars_of(text);
    let n = t.len();
    let mut out: Vec<String> = Vec::new();
    let mut start: usize = 0;
    let mut i: usize = 0;
    while i < n
        invariant
            n == t@.len(),
            t@ == text@,
            i <= n,
            (views(out@), start as int) == sentences_upto(t@, i as int),
        decreases n - i,
    {
        proof {
            lemma_sentences_upto(t@, i as int);
        }
        let c = t[i];
        let ends = (c == '.' || c == '!' || c == '?') && (i + 1 == n || is_ascii_ws(t[i + 1]));
        if ends {
            let piece = string_of(t.as_slice(), start, i + 1);
            let ghost before = out@;
            out.push(piece);
            assert(views(out@) =~= views(before).push(t@.subrange(start as int, i + 1)));
            start = i + 1;
        }
        i += 1;
    }
    proof {
        lemma_sentences_upto(t@, n as int);
    }
    if start < n {
        let piece = string_of(t.as_slice(), start, n);
        let ghost before = out@;
        out.push(piece);
        assert(views(out@) =~= views(before).push(t@.subrange(start as int, n as int)));
    }
    out
}

/// A tool named `name` leaves the request: the deny list names it, or an allow list is
/// set and does not.
pub open spec fn dropped_spec(name: Chars, allow: Seq<Chars>, deny: Seq<Chars>) -> bool {
    deny.contains(name) || (allow.len() > 0 && !allow.contains(name))
}

/// Whether `list` names `name`.
fn names(list: &[String], name: &str) -> (r: bool)
    ensures
        r == views(list@).contains(name@),
{
    let mut i: usize = 0;
    while i < list.len()
        invariant
            i <= list@.len(),
            forall|k: int| 0 <= k < i ==> list@[k]@ != name@,
        decreases list@.len() - i,
    {
        if crate::text::str_eq(list[i].as_str(), name) {
            assert(views(list@)[i as int] == name@);
            return true;
        }
        i += 1;
    }
    assert(!views(list@).contains(name@)) by {
        if views(list@).contains(name@) {
            let k = choose|k: int| 0 <= k < views(list@).len() && views(list@)[k] == name@;
            assert(list@[k]@ == name@);
        }
    }
    false
}

/// [`dropped_spec`].
pub fn dropped(name: &str, allow: &[String], deny: &[String]) -> (r: bool)
    ensures
        r == dropped_spec(name@, views(allow@), views(deny@)),
{
    names(deny, name) || (allow.len() > 0 && !names(allow, name))
}

/// What [`prefix_tokens`] may return: the first `j` characters of `t`, where every longer
/// prefix up to them was estimated within `max` and the next one (if any) over it.
pub open spec fn token_prefix<F: Fn(&str) -> u32>(est: F, t: Chars, max: u32, r: Chars) -> bool {
    exists|j: int| #![trigger t.take(j)]
        0 <= j <= t.len() && r == t.take(j) && (forall|i: int|
            0 <= i < j ==> #[trigger] within_budget(est, t.take(i + 1), max)) && (j == t.len()
            || over_budget(est, t.take(j + 1), max))
}

/// The longest prefix of `text`, grown one character at a time, whose estimate stays
/// within `max_tokens` ([`token_prefix`]).
pub fn prefix_tokens<F: Fn(&str) -> u32>(text: &str, max_tokens: u32, est: &F) -> (r: String)
    requires
        forall|s: &str| est.requires((s,)),
    ensures
        token_prefix(*est, text@, max_tokens, r@),
{
    let t = chars_of(text);
    let mut prefix = String::new();
    let mut j: usize = 0;
    while j < t.len()
        invariant
            t@ == text@,
            j <= t@.len(),
            prefix@ == t@.take(j as int),
            forall|s: &str| est.requires((s,)),
            forall|i: int| 0 <= i < j ==> #[trigger] within_budget(*est, t@.take(i + 1), max_tokens),
        decreases t@.len() - j,
    {
        let cand = string_of(t.as_slice(), 0, j + 1);
        assert(t@.subrange(0, j + 1) == t@.take(j + 1));
        let c = est(cand.as_str());
        if c > max_tokens {
            assert(over_budget(*est, t@.take(j + 1), max_tokens));
            return prefix;
        }
        assert(within_budget(*est, t@.take(j + 1), max_tokens));
        prefix = cand;
        j += 1;
    }
    assert(t@.take(t@.len() as int) == t@);
    prefix
}

/// What [`truncate_at_sentence`] may return for `t`: `t` itself where its estimate is
/// within `max`; otherwise the first `k` whole sentences, trimmed, where every longer run
/// up to them (trimmed) was within `max` and the next one over it; or, where not even the
/// first sentence fits, the longest prefix within `max` ([`token_prefix`]).
pub open spec fn sentence_cut<F: Fn(&str) -> u32>(est: F, t: Chars, max: u32, r: Chars) -> bool {
    let ss = sentences_spec(t);
    ||| r == t && within_budget(est, t, max)
    ||| over_budget(est, t, max) && exists|k: int| #![trigger ss.take(k)]
        0 <= k <= ss.len() && (forall|i: int|
            0 <= i < k ==> #[trigger] within_budget(est, trim(concat(ss.take(i + 1))), max)) && if k
            < ss.len() && over_budget(est, trim(concat(ss.take(k + 1))), max) && concat(ss.take(k)).len()
            == 0 {
            token_prefix(est, t, max, r)
        } else {
            (k == ss.len() || over_budget(est, trim(concat(ss.take(k + 1))), max)) && r == trim(
                concat(ss.take(k)),
            )
        }
}

/// A description cut to `max_tokens`: unchanged when its estimate fits, else cut after the
/// last whole sentence that keeps it within the cap, else cut by characters
/// ([`sentence_cut`]).
pub fn truncate_at_sentence<F: Fn(&str) -> u32>(text: &str, max_tokens: u32, est: &F) -> (r: String)
    requires
        forall|s: &str| est.requires((s,)),
    ensures
        sentence_cut(*est, text@, max_tokens, r@),
{
    let whole = est(text);
    if whole <= max_tokens {
        assert(within_budget(*est, text@, max_tokens));
        return crate::text::copy_str(text);
    }
    assert(over_budget(*est, text@, max_tokens));
    let ss = sentences(text);
    let ghost sv = views(ss@);
    let mut out = String::new();
    let mut k: usize = 0;
    assert(sv.take(0) =~= Seq::<Chars>::empty());
    while k < ss.len()
        invariant
            sv == views(ss@),
            sv == sentences_spec(text@),
            k <= ss@.len(),
            out@ == concat(sv.take(k as int)),
            forall|s: &str| est.requires((s,)),
            over_budget(*est, text@, max_tokens),
            forall|i: int|
                0 <= i < k ==> #[trigger] within_budget(*est, trim(concat(sv.take(i + 1))), max_tokens),
        decreases ss@.len() - k,
    {
        let mut cand = crate::text::copy_str(out.as_str());
        cand.append(ss[k].as_str());
        assert(sv.take(k + 1).drop_last() == sv.take(k as int));
        assert(sv[k as int] == ss@[k as int]@);
        assert(cand@ == concat(sv.take(k + 1)));
        let cc = chars_of(cand.as_str());
        let tc = trim_chars(cc.as_slice());
        let trimmed = string_from(tc.as_slice());
        let c = est(trimmed.as_str());
        if c <= max_tokens {
            assert(within_budget(*est, trim(concat(sv.take(k + 1))), max_tokens));
            out = cand;
            k += 1;
        } else {
            assert(over_budget(*est, trim(concat(sv.take(k + 1))), max_tokens));
            let oc = chars_of(out.as_str());
            if oc.len() == 0 {
                let r = prefix_tokens(text, max_tokens, est);
                return r;
            }
            let ot = trim_chars(oc.as_slice());
            return string_from(ot.as_slice());
        }
    }
    let oc = chars_of(out.as_str());
    let ot = trim_chars(oc.as_slice());
    string_from(ot.as_slice())
}

/// The estimator answers the same for the same text.
pub open spec fn deterministic<F: Fn(&str) -> u32>(est: F) -> bool {
    forall|a: &str, b: &str, x: u32, y: u32|
        a@ == b@ && #[trigger] est.ensures((a,), x) && #[trigger] est.ensures((b,), y) ==> x == y
}

/// What [`sentence_cut`] allows is within the cap, for an estimator that answers the same
/// for the same text and gives the empty text no tokens.
proof fn lemma_cut_within<F: Fn(&str) -> u32>(est: F, t: Chars, max: u32, r: Chars)
    requires
        deterministic(est),
        within_budget(est, Seq::empty(), 0),
        sentence_cut(est, t, max, r),
    ensures
        within_budget(est, r, max),
{
    let ss = sentences_spec(t);
    if r == t && within_budget(est, t, max) {
    } else {
        let k = choose|k: int| #![trigger ss.take(k)]
            0 <= k <= ss.len() && (forall|i: int|
                0 <= i < k ==> #[trigger] within_budget(est, trim(concat(ss.take(i + 1))), max)) && if k
                < ss.len() && over_budget(est, trim(concat(ss.take(k + 1))), max) && concat(ss.take(k)).len()
                == 0 {
                token_prefix(est, t, max, r)
            } else {
                (k == ss.len() || over_budget(est, trim(concat(ss.take(k + 1))), max)) && r == trim(
                    concat(ss.take(k)),
                )
            };
        if k < ss.len() && over_budget(est, trim(concat(ss.take(k + 1))), max) && concat(ss.take(k)).len() == 0 {
            let j = choose|j: int| #![trigger t.take(j)]
                0 <= j <= t.len() && r == t.take(j) && (forall|i: int|
                    0 <= i < j ==> #[trigger] within_budget(est, t.take(i + 1), max)) && (j == t.len()
                    || over_budget(est, t.take(j + 1), max));
            if j > 0 {
                assert(within_budget(est, t.take(j - 1 + 1), max));
                assert(t.take(j - 1 + 1) == r);
            } else {
                assert(r =~= Seq::<char>::empty());
            }
        } else if k > 0 {
            assert(within_budget(est, trim(concat(ss.take(k - 1 + 1))), max));
            assert(ss.take(k - 1 + 1) == ss.take(k));
        } else {
            assert(ss.take(0) =~= Seq::<Chars>::empty());
            assert(concat(ss.take(0)) =~= Seq::<char>::empty());
            assert(trim(Seq::<char>::empty()) == Seq::<char>::empty());
        }
    }
}

/// Cutting a description twice is cutting it once: for an estimator that answers the same
/// for the same text and gives the empty text no tokens, what [`truncate_at_sentence`]
/// returns is within the cap and is returned unchanged when cut again.
pub proof fn law_truncate_is_idempotent<F: Fn(&str) -> u32>(est: F, t: Chars, max: u32, r: Chars, r2: Chars)
    requires
        deterministic(est),
        within_budget(est, Seq::empty(), 0),
        sentence_cut(est, t, max, r),
        sentence_cut(est, r, max, r2),
    ensures
        within_budget(est, r, max),
        r2 == r,
{
    lemma_cut_within(est, t, max, r);
    if !(r2 == r && within_budget(est, r, max)) {
        assert(over_budget(est, r, max));
        let (a, x) = choose|a: &str, x: u32| #![trigger est.ensures((a,), x)]
            a@ == r && est.ensures((a,), x) && x <= max;
        let (b, y) = choose|b: &str, y: u32| #![trigger est.ensures((b,), y)]
            b@ == r && est.ensures((b,), y) && y > max;
    }
}

/// One entry of a request's `tools[]` as the rewrite reads it: its name (`name`, else
/// `function.name`) and its description (`description`, else `function.description`),
/// each where it is a string.
pub struct ToolDesc {
    pub name: Option<String>,
    pub description: Option<String>,
}

/// [`ToolDesc`] as a value.
pub struct ToolDescV {
    pub name: Option<Chars>,
    pub description: Option<Chars>,
}

impl View for ToolDesc {
    type V = ToolDescV;

    open spec fn view(&self) -> ToolDescV {
        ToolDescV {
            name: crate::outline::opt_string(self.name),
            description: crate::outline::opt_string(self.description),
        }
    }
}

/// The views of a list of tools.
pub open spec fn tools_view(v: Seq<ToolDesc>) -> Seq<ToolDescV> {
    Seq::new(v.len(), |i: int| v[i]@)
}

/// Description bytes and estimates of one request, before and after the rewrite, and
/// whether anything changed.
pub struct Delta {
    pub before_bytes: u64,
    pub after_bytes: u64,
    pub est_before: u32,
    pub est_after: u32,
    pub changed: bool,
}

/// A tool the lists drop: it has a name and [`dropped_spec`] holds of it.
pub open spec fn drops(t: ToolDescV, allow: Seq<Chars>, deny: Seq<Chars>) -> bool {
    t.name matches Some(n) && dropped_spec(n, allow, deny)
}

/// What a kept tool becomes: the same name; a named tool's description cut to `max`
/// ([`sentence_cut`]) when a cap is set; otherwise the same description.
pub open spec fn tool_after<F: Fn(&str) -> u32>(est: F, t: ToolDescV, u: ToolDescV, max: u32) -> bool {
    &&& u.name == t.name
    &&& if t.name is Some && max > 0 && t.description is Some {
        u.description matches Some(d) && sentence_cut(est, t.description->Some_0, max, d)
    } else {
        u.description == t.description
    }
}

/// `new` is `old` with the dropped tools removed and every kept one rewritten
/// ([`tool_after`]), in order.
pub open spec fn rewritten<F: Fn(&str) -> u32>(
    est: F,
    old: Seq<ToolDescV>,
    new: Seq<ToolDescV>,
    allow: Seq<Chars>,
    deny: Seq<Chars>,
    max: u32,
) -> bool
    decreases old.len(),
{
    if old.len() == 0 {
        new.len() == 0
    } else if drops(old.last(), allow, deny) {
        rewritten(est, old.drop_last(), new, allow, deny, max)
    } else {
        new.len() > 0 && tool_after(est, old.last(), new.last(), max) && rewritten(
            est,
            old.drop_last(),
            new.drop_last(),
            allow,
            deny,
            max,
        )
    }
}

/// Whether the rewrite changed anything: a tool was dropped, or a kept tool's description
/// differs.
pub open spec fn changes(old: Seq<ToolDescV>, new: Seq<ToolDescV>, allow: Seq<Chars>, deny: Seq<Chars>) -> bool
    decreases old.len(),
{
    if old.len() == 0 {
        false
    } else if drops(old.last(), allow, deny) {
        true
    } else {
        changes(old.drop_last(), new.drop_last(), allow, deny) || new.last().description
            != old.last().description
    }
}

/// The UTF-8 bytes of a tool's description (none without one).
pub open spec fn desc_bytes(t: ToolDescV) -> nat {
    match t.description {
        Some(d) => vstd::utf8::encode_utf8(d).len(),
        None => 0,
    }
}

/// The description bytes of the named tools of `ts`.
pub open spec fn named_bytes(ts: Seq<ToolDescV>) -> nat
    decreases ts.len(),
{
    if ts.len() == 0 {
        0
    } else {
        named_bytes(ts.drop_last()) + if ts.last().name is Some {
            desc_bytes(ts.last())
        } else {
            0
        }
    }
}

/// `n` capped at `u64::MAX`.
pub open spec fn sat64(n: nat) -> u64 {
    if n > u64::MAX {
        u64::MAX
    } else {
        n as u64
    }
}

/// The bytes of a description, and its estimate.
fn desc_stats<F: Fn(&str) -> u32>(t: &ToolDesc, est: &F) -> (r: (u64, u32))
    requires
        forall|s: &str| est.requires((s,)),
    ensures
        r.0 == desc_bytes(t@),
{
    match &t.description {
        Some(d) => {
            let n = d.as_str().as_bytes().len();
            (n as u64, est(d.as_str()))
        },
        None => (0, est("")),
    }
}

/// The `tools[]` rewrite: tools the lists drop ([`dropped_spec`]) leave, and each kept
/// named tool's description is cut to `max_description_tokens` when that is set
/// ([`rewritten`]). Unnamed tools are left as they are and not counted. The delta holds
/// the description bytes of the named tools before and after (saturating), the sums of
/// their estimates (saturating) and whether anything changed ([`changes`]).
pub fn rewrite_tools<F: Fn(&str) -> u32>(
    tools: &mut Vec<ToolDesc>,
    allow: &[String],
    deny: &[String],
    max_description_tokens: u32,
    est: &F,
) -> (r: Delta)
    requires
        forall|s: &str| est.requires((s,)),
    ensures
        rewritten(
            *est,
            tools_view(old(tools)@),
            tools_view(final(tools)@),
            views(allow@),
            views(deny@),
            max_description_tokens,
        ),
        r.changed == changes(tools_view(old(tools)@), tools_view(final(tools)@), views(allow@), views(deny@)),
        r.before_bytes == sat64(named_bytes(tools_view(old(tools)@))),
        r.after_bytes == sat64(named_bytes(tools_view(final(tools)@))),
{
    let ghost ov = tools_view(tools@);
    let ghost av = views(allow@);
    let ghost dv = views(deny@);
    let mut out: Vec<ToolDesc> = Vec::new();
    let mut before_bytes: u64 = 0;
    let mut after_bytes: u64 = 0;
    let mut est_before: u32 = 0;
    let mut est_after: u32 = 0;
    let mut changed = false;
    let mut i: usize = 0;
    while i < tools.len()
        invariant
            ov == tools_view(tools@),
            av == views(allow@),
            dv == views(deny@),
            i <= tools@.len(),
            forall|s: &str| est.requires((s,)),
            rewritten(*est, ov.take(i as int), tools_view(out@), av, dv, max_description_tokens),
            changed == changes(ov.take(i as int), tools_view(out@), av, dv),
            before_bytes == sat64(named_bytes(ov.take(i as int))),
            after_bytes == sat64(named_bytes(tools_view(out@))),
        decreases tools@.len() - i,
    {
        let ghost prev_out = tools_view(out@);
        assert(ov.take(i + 1).drop_last() == ov.take(i as int));
        assert(ov.take(i + 1).last() == tools@[i as int]@);
        let t = &tools[i];
        match &t.name {
            None => {
                let copy = ToolDesc {
                    name: None,
                    description: match &t.description {
                        Some(d) => Some(crate::text::copy_str(d.as_str())),
                        None => None,
                    },
                };
                out.push(copy);
                proof {
                    assert(tools_view(out@).drop_last() =~= prev_out);
                }
            },
            Some(n) => {
                let (b, eb) = desc_stats(t, est);
                before_bytes = before_bytes.saturating_add(b);
                est_before = est_before.saturating_add(eb);
                if dropped(n.as_str(), allow, deny) {
                    changed = true;
                } else {
                    let desc = match &t.description {
                        Some(d) => {
                            if max_description_tokens > 0 {
                                let cut = truncate_at_sentence(d.as_str(), max_description_tokens, est);
                                if !crate::text::str_eq(cut.as_str(), d.as_str()) {
                                    changed = true;
                                }
                                Some(cut)
                            } else {
                                Some(crate::text::copy_str(d.as_str()))
                            }
                        },
                        None => None,
                    };
                    let u = ToolDesc { name: Some(crate::text::copy_str(n.as_str())), description: desc };
                    let (a, ea) = desc_stats(&u, est);
                    after_bytes = after_bytes.saturating_add(a);
                    est_after = est_after.saturating_add(ea);
                    out.push(u);
                    proof {
                        assert(tools_view(out@).drop_last() =~= prev_out);
                    }
                }
            },
        }
        i += 1;
    }
    assert(ov.take(tools@.len() as int) == ov);
    *tools = out;
    Delta { before_bytes, after_bytes, est_before, est_after, changed }
}

/// The rewrite of a request's `tools[]` (`tools`: `None` where the request has none):
/// nothing when the rewrite is off or there are no tools, else [`rewrite_tools`].
pub fn rewrite<F: Fn(&str) -> u32>(
    tools: &mut Option<Vec<ToolDesc>>,
    enabled: bool,
    allow: &[String],
    deny: &[String],
    max_description_tokens: u32,
    est: &F,
) -> (r: Option<Delta>)
    requires
        forall|s: &str| est.requires((s,)),
    ensures
        !enabled || *old(tools) is None ==> (r is None && *final(tools) == *old(tools)),
        enabled && *old(tools) is Some ==> (r is Some && *final(tools) is Some && ({
            let d = r->Some_0;
            let before = tools_view((*old(tools))->Some_0@);
            let after = tools_view((*final(tools))->Some_0@);
            &&& rewritten(*est, before, after, views(allow@), views(deny@), max_description_tokens)
            &&& d.changed == changes(before, after, views(allow@), views(deny@))
            &&& d.before_bytes == sat64(named_bytes(before))
            &&& d.after_bytes == sat64(named_bytes(after))
        })),
{
    if !enabled {
        return None;
    }
    match tools {
        None => None,
        Some(t) => Some(rewrite_tools(t, allow, deny, max_description_tokens, est)),
    }
}

} // verus!
