//! Recommendations: rules over the ledgers, never a model call. Each finding prints what
//! triggered it and the rows it read, ordered by the tokens it would recover (ties keep
//! the rule order); a finding with no number attached does not exist.

use vstd::prelude::*;

use crate::report::{
    rec_view, recs_view, Recommendation, ReportBust, ReportCache, ReportLedgers,
};
use crate::text::{chars_of, dec_int, dec_nat, join, push_i64, push_u64, str_eq, views, Chars};

verus! {

/// "Fires often": in-window hook calls at or above this with no Measurement kind on the
/// event's path get a finding.
pub const OFTEN_HOOK_CALLS: u64 = 10;

/// Turns a grouped cache-bust finding names before it says "and K more".
pub const BUST_TURNS_NAMED: usize = 5;

/// What the rules read besides the ledgers. The expand rate's comparison with
/// `[expand] max_rate` and that limit's percentage (no decimals) come with it.
pub struct AdviceConfig {
    pub expand_over_max: bool,
    pub max_rate_pct: String,
    pub inject_budget_tokens: u32,
    pub archive_keep_turns: u32,
}

/// A finding: recoverable tokens, then rule, finding and evidence.
pub type Finding = (i64, Recommendation);

/// A finding as a value.
pub open spec fn fview(f: Finding) -> (i64, (Chars, Chars, Chars)) {
    (f.0, rec_view(f.1))
}

/// The views of a list of findings.
pub open spec fn fviews(v: Seq<Finding>) -> Seq<(i64, (Chars, Chars, Chars))> {
    Seq::new(v.len(), |i: int| fview(v[i]))
}

/// `{n} {what}`, with an `s` unless `n` is one.
pub open spec fn count_spec(n: u64, what: Chars) -> Chars {
    dec_nat(n as nat) + " "@ + what + if n == 1 {
        Seq::empty()
    } else {
        "s"@
    }
}

/// [`count_spec`], appended to `s`.
fn push_count(s: &mut String, n: u64, what: &str)
    ensures
        final(s)@ == old(s)@ + count_spec(n, what@),
{
    push_u64(s, n);
    s.append(" ");
    s.append(what);
    if n != 1 {
        s.append("s");
    }
}

/// "1 row" / "N rows": evidence strings name counts, so they decline them.
pub fn count(n: u64, what: &str) -> (r: String)
    ensures
        r@ == count_spec(n, what@),
{
    let mut s = String::new();
    push_count(&mut s, n, what);
    s
}

/// Hooks that are idle by design: they should not fire often and never record a
/// Measurement. `PostToolUse` fires constantly in a busy healthy session, and `SessionEnd`
/// closes the session row once per session, so neither is one.
pub open spec fn idle_by_design_spec(event: Chars) -> bool {
    event == "PreCompact"@ || event == "Stop"@
}

/// [`idle_by_design_spec`].
pub fn idle_by_design(event: &str) -> (r: bool)
    ensures
        r == idle_by_design_spec(event@),
{
    str_eq(event, "PreCompact") || str_eq(event, "Stop")
}

/// The Measurement kinds an event can produce: `PreToolUse` denies through `guard`,
/// injections record `inject`.
pub open spec fn kinds_for_hook_spec(event: Chars) -> Seq<Chars> {
    if event == "PreToolUse"@ {
        seq!["guard"@]
    } else if event == "SessionStart"@ || event == "UserPromptSubmit"@ || event == "PostCompact"@ {
        seq!["inject"@]
    } else {
        Seq::empty()
    }
}

/// [`kinds_for_hook_spec`].
pub fn kinds_for_hook(event: &str) -> (r: Vec<&'static str>)
    ensures
        Seq::new(r@.len(), |i: int| r@[i]@) == kinds_for_hook_spec(event@),
{
    let mut v: Vec<&'static str> = Vec::new();
    if str_eq(event, "PreToolUse") {
        v.push("guard");
        assert(Seq::new(v@.len(), |i: int| v@[i]@) =~= seq!["guard"@]);
    } else if str_eq(event, "SessionStart") || str_eq(event, "UserPromptSubmit") || str_eq(
        event,
        "PostCompact",
    ) {
        v.push("inject");
        assert(Seq::new(v@.len(), |i: int| v@[i]@) =~= seq!["inject"@]);
    } else {
        assert(Seq::new(v@.len(), |i: int| v@[i]@) =~= Seq::<Chars>::empty());
    }
    v
}

// ---------------------------------------------------------------------------------------
// The rules
// ---------------------------------------------------------------------------------------

/// (1) The expand rate above `[expand] max_rate`: the compression is lossier than it looks.
pub open spec fn expand_rate_spec(l: ReportLedgers, cfg: AdviceConfig) -> Seq<
    (i64, (Chars, Chars, Chars)),
> {
    let e = l.expand;
    if e.decisions > 0 && cfg.expand_over_max {
        seq![
            (
                e.cost,
                (
                    "expand-rate"@,
                    "expand rate "@ + e.rate_pct@ + "% ("@ + dec_int(e.expanded as int) + " of "@
                        + dec_int(e.decisions as int)
                        + " live-zone pointers re-read) is above [expand] max_rate "@
                        + cfg.max_rate_pct@ + "% — re-expansions cost "@ + dec_int(e.cost as int)
                        + " est tokens over "@ + count_spec(e.cost_rows, "row"@),
                    count_spec(e.decisions as u64, "archive_decisions row"@) + ", "@ + count_spec(
                        e.cost_rows,
                        "archive Measurement row"@,
                    ) + " of kind expand"@,
                ),
            ),
        ]
    } else {
        Seq::empty()
    }
}

fn expand_rate(l: &ReportLedgers, cfg: &AdviceConfig, out: &mut Vec<Finding>)
    ensures
        fviews(final(out)@) == fviews(old(out)@) + expand_rate_spec(*l, *cfg),
{
    let e = &l.expand;
    if e.decisions > 0 && cfg.expand_over_max {
        let mut f = "expand rate ".to_owned();
        f.append(e.rate_pct.as_str());
        f.append("% (");
        push_i64(&mut f, e.expanded);
        f.append(" of ");
        push_i64(&mut f, e.decisions);
        f.append(" live-zone pointers re-read) is above [expand] max_rate ");
        f.append(cfg.max_rate_pct.as_str());
        f.append("% — re-expansions cost ");
        push_i64(&mut f, e.cost);
        f.append(" est tokens over ");
        push_count(&mut f, e.cost_rows, "row");
        let mut ev = String::new();
        push_count(&mut ev, e.decisions as u64, "archive_decisions row");
        ev.append(", ");
        push_count(&mut ev, e.cost_rows, "archive Measurement row");
        ev.append(" of kind expand");
        let ghost before = out@;
        out.push((e.cost, Recommendation { rule: "expand-rate".to_owned(), finding: f, evidence: ev }));
        assert(fviews(out@) =~= fviews(before) + expand_rate_spec(*l, *cfg));
    } else {
        assert(fviews(out@) =~= fviews(out@) + expand_rate_spec(*l, *cfg));
    }
}

/// (2) One savings row whose net saving is at most zero though it measured something.
pub open spec fn retire_one(r: crate::report::ReportSavings) -> Seq<(i64, (Chars, Chars, Chars))> {
    if r.saved <= 0 && (r.est_before != 0 || r.est_after != 0) {
        seq![
            (
                (-r.saved) as i64,
                (
                    "retire-plugin"@,
                    "plugin "@ + r.plugin@ + " net "@ + dec_int(r.saved as int) + " est tokens over "@
                        + count_spec(r.rows, "Measurement row"@)
                        + " (≤ 0) — D10 says retire, not stack"@,
                    count_spec(r.rows, r.plugin@ + " Measurement row"@),
                ),
            ),
        ]
    } else {
        Seq::empty()
    }
}

/// (2) Net saving at most zero costs more than it returns: retire, not stack. All-zero rows
/// are bookkeeping, not evidence.
pub open spec fn retire_spec(rows: Seq<crate::report::ReportSavings>) -> Seq<
    (i64, (Chars, Chars, Chars)),
>
    decreases rows.len(),
{
    if rows.len() == 0 {
        Seq::empty()
    } else {
        retire_spec(rows.drop_last()) + retire_one(rows.last())
    }
}

fn retire_plugin(l: &ReportLedgers, out: &mut Vec<Finding>)
    requires
        forall|i: int|
            0 <= i < l.savings.rows@.len() ==> (#[trigger] l.savings.rows@[i]).saved != i64::MIN,
    ensures
        fviews(final(out)@) == fviews(old(out)@) + retire_spec(l.savings.rows@),
{
    let rows = &l.savings.rows;
    let ghost start = fviews(out@);
    let mut i: usize = 0;
    while i < rows.len()
        invariant
            i <= rows@.len(),
            forall|k: int| 0 <= k < rows@.len() ==> (#[trigger] rows@[k]).saved != i64::MIN,
            fviews(out@) == start + retire_spec(rows@.take(i as int)),
        decreases rows@.len() - i,
    {
        assert(rows@.take(i + 1).drop_last() == rows@.take(i as int));
        assert(rows@.take(i + 1).last() == rows@[i as int]);
        let r = &rows[i];
        let ghost before = out@;
        if r.saved <= 0 && (r.est_before != 0 || r.est_after != 0) {
            let mut f = "plugin ".to_owned();
            f.append(r.plugin.as_str());
            f.append(" net ");
            push_i64(&mut f, r.saved);
            f.append(" est tokens over ");
            push_count(&mut f, r.rows, "Measurement row");
            f.append(" (≤ 0) — D10 says retire, not stack");
            let mut what = crate::text::copy_str(r.plugin.as_str());
            what.append(" Measurement row");
            let ev = count(r.rows, what.as_str());
            out.push((-r.saved, Recommendation { rule: "retire-plugin".to_owned(), finding: f, evidence: ev }));
            assert(fviews(out@) =~= fviews(before) + retire_one(rows@[i as int]));
        } else {
            assert(fviews(out@) =~= fviews(before) + retire_one(rows@[i as int]));
        }
        i += 1;
    }
    assert(rows@.take(rows@.len() as int) == rows@);
}

/// A bust the host caused: a rewritten tool list or system prompt.
pub open spec fn host_bust(b: ReportBust) -> bool {
    b.cause@ == "tools"@ || b.cause@ == "system"@
}

/// The first group for `session` and `cause`.
pub open spec fn group_index(g: Seq<(Chars, Chars, Seq<int>)>, session: Chars, cause: Chars) -> Option<
    int,
>
    decreases g.len(),
{
    if g.len() == 0 {
        None
    } else {
        match group_index(g.drop_last(), session, cause) {
            Some(k) => Some(k),
            None => if g.last().0 == session && g.last().1 == cause {
                Some(g.len() - 1)
            } else {
                None
            },
        }
    }
}

/// The host-caused busts grouped by session and cause, groups in first-seen order, each
/// with the indices of its busts in order.
pub open spec fn bust_groups(d: Seq<ReportBust>) -> Seq<(Chars, Chars, Seq<int>)>
    decreases d.len(),
{
    if d.len() == 0 {
        Seq::empty()
    } else {
        let g = bust_groups(d.drop_last());
        let b = d.last();
        let i = d.len() - 1;
        if !host_bust(b) {
            g
        } else {
            match group_index(g, b.session@, b.cause@) {
                Some(k) => g.update(k, (g[k].0, g[k].1, g[k].2.push(i))),
                None => g.push((b.session@, b.cause@, seq![i])),
            }
        }
    }
}

/// The cache-create tokens of the busts at `idx`.
pub open spec fn create_sum(d: Seq<ReportBust>, idx: Seq<int>) -> int
    decreases idx.len(),
{
    if idx.len() == 0 {
        0
    } else {
        create_sum(d, idx.drop_last()) + d[idx.last()].cache_create
    }
}

/// The turns named in a grouped finding: the first few, then how many more.
pub open spec fn turns_text(d: Seq<ReportBust>, idx: Seq<int>) -> Chars {
    let shown = if idx.len() < BUST_TURNS_NAMED {
        idx.len()
    } else {
        BUST_TURNS_NAMED as nat
    };
    join(Seq::new(shown, |k: int| dec_nat(d[idx[k]].turn as nat)), ", "@) + if idx.len()
        > BUST_TURNS_NAMED {
        " and "@ + dec_nat((idx.len() - BUST_TURNS_NAMED) as nat) + " more"@
    } else {
        Seq::empty()
    }
}

/// What a cause rewrote.
pub open spec fn cause_what(cause: Chars) -> Chars {
    if cause == "system"@ {
        "system prompt"@
    } else {
        "tool list"@
    }
}

/// The finding for one group of busts.
pub open spec fn bust_finding(d: Seq<ReportBust>, g: (Chars, Chars, Seq<int>)) -> Chars {
    let (session, cause, idx) = g;
    let create = dec_int(create_sum(d, idx));
    if idx.len() == 1 {
        let b = d[idx[0]];
        "session "@ + session + " turn "@ + dec_nat(b.turn as nat)
            + " busted the prompt cache (cause "@ + cause + "): "@ + create
            + " cache-create tokens re-written with cache_read "@ + dec_int(b.cache_read as int)
            + " — pin the "@ + cause_what(cause) + "; "@ + create
            + " tokens would have stayed cached"@
    } else {
        "session "@ + session + " busted the prompt cache "@ + count_spec(idx.len() as u64, "time"@)
            + " (cause "@ + cause + ", turns "@ + turns_text(d, idx) + "): "@ + create
            + " cache-create tokens re-written — pin the "@ + cause_what(cause) + "; "@ + create
            + " tokens would have stayed cached"@
    }
}

/// The evidence every cache-bust finding carries.
pub open spec fn bust_evidence(c: ReportCache) -> Chars {
    count_spec(c.busts, "cache bust"@) + " over "@ + count_spec(c.turns, "turn"@) + " in "@
        + count_spec(c.sessions, "session"@) + " with usage rows"@
}

/// (3) Cache busts the host caused, one finding per session and cause.
pub open spec fn cache_busts_spec(c: ReportCache) -> Seq<(i64, (Chars, Chars, Chars))> {
    let d = c.detail@;
    let g = bust_groups(d);
    Seq::new(
        g.len(),
        |k: int| (create_sum(d, g[k].2) as i64, ("cache-bust"@, bust_finding(d, g[k]), bust_evidence(c))),
    )
}

/// The cache-create sums the findings report fit in an `i64`.
pub open spec fn bust_sums_fit(d: Seq<ReportBust>) -> bool {
    forall|k: int|
        0 <= k < bust_groups(d).len() ==> i64::MIN <= #[trigger] create_sum(d, bust_groups(d)[k].2)
            <= i64::MAX
}

/// (5) The first `inject` savings row, if any.
pub open spec fn inject_row(rows: Seq<crate::report::ReportSavings>) -> Option<int>
    decreases rows.len(),
{
    if rows.len() == 0 {
        None
    } else {
        match inject_row(rows.drop_last()) {
            Some(k) => Some(k),
            None => if rows.last().plugin@ == "inject"@ {
                Some(rows.len() - 1)
            } else {
                None
            },
        }
    }
}

/// What the rules need of their inputs so no arithmetic overflows: no savings row at
/// `i64::MIN`, the inject budget times its rows within `i64`, the bust sums within `i64`.
pub open spec fn advice_inputs_ok(l: ReportLedgers, cfg: AdviceConfig) -> bool {
    &&& forall|i: int|
        0 <= i < l.savings.rows@.len() ==> (#[trigger] l.savings.rows@[i]).saved != i64::MIN
    &&& match inject_row(l.savings.rows@) {
        Some(k) => l.savings.rows@[k].rows <= i64::MAX && cfg.inject_budget_tokens
            * l.savings.rows@[k].rows <= i64::MAX,
        None => true,
    }
    &&& bust_sums_fit(l.cache.detail@)
}


/// Index of the group for `session` / `cause` in the exec groups.
fn find_group(sessions: &Vec<String>, causes: &Vec<String>, idxs: &Vec<Vec<usize>>, session: &str, cause: &str) -> (r: Option<usize>)
    requires
        sessions@.len() == causes@.len(),
        sessions@.len() == idxs@.len(),
    ensures
        match r {
            Some(k) => group_index(groups_view(sessions@, causes@, idxs@), session@, cause@) == Some(k as int),
            None => group_index(groups_view(sessions@, causes@, idxs@), session@, cause@) is None,
        },
{
    let ghost gv = groups_view(sessions@, causes@, idxs@);
    let mut k: usize = 0;
    while k < sessions.len()
        invariant
            sessions@.len() == causes@.len(),
            sessions@.len() == idxs@.len(),
            gv == groups_view(sessions@, causes@, idxs@),
            k <= sessions@.len(),
            group_index(gv.take(k as int), session@, cause@) is None,
        decreases sessions@.len() - k,
    {
        assert(gv.take(k + 1).drop_last() == gv.take(k as int));
        assert(gv.take(k + 1).last() == gv[k as int]);
        if str_eq(sessions[k].as_str(), session) && str_eq(causes[k].as_str(), cause) {
            proof {
                lemma_group_index_prefix(gv, k as int + 1, session@, cause@);
            }
            return Some(k);
        }
        k += 1;
    }
    assert(gv.take(gv.len() as int) == gv);
    None
}

/// The view of the exec groups.
pub open spec fn groups_view(sessions: Seq<String>, causes: Seq<String>, idxs: Seq<Vec<usize>>) -> Seq<(Chars, Chars, Seq<int>)> {
    Seq::new(sessions.len(), |k: int| (sessions[k]@, causes[k]@, idx_view(idxs[k])))
}

/// Bust indices as integers.
pub open spec fn idx_view(v: Vec<usize>) -> Seq<int> {
    Seq::new(v@.len(), |j: int| v@[j] as int)
}

/// A copy of `v` with `i` appended.
fn pushed_copy(v: &Vec<usize>, i: usize) -> (r: Vec<usize>)
    ensures
        r@ == v@.push(i),
{
    let mut r: Vec<usize> = Vec::new();
    let mut j: usize = 0;
    while j < v.len()
        invariant
            j <= v@.len(),
            r@ == v@.take(j as int),
        decreases v@.len() - j,
    {
        r.push(v[j]);
        assert(v@.take(j + 1) == v@.take(j as int).push(v@[j as int]));
        j += 1;
    }
    assert(v@.take(v@.len() as int) == v@);
    r.push(i);
    r
}

proof fn lemma_group_index_prefix(g: Seq<(Chars, Chars, Seq<int>)>, n: int, s: Chars, c: Chars)
    requires
        0 <= n <= g.len(),
        group_index(g.take(n), s, c) is Some,
    ensures
        group_index(g, s, c) == group_index(g.take(n), s, c),
    decreases g.len() - n,
{
    if n < g.len() {
        assert(g.take(n + 1).drop_last() == g.take(n));
        lemma_group_index_prefix(g, n + 1, s, c);
    } else {
        assert(g.take(n) == g);
    }
}

proof fn lemma_group_index_bound(g: Seq<(Chars, Chars, Seq<int>)>, s: Chars, c: Chars)
    ensures
        group_index(g, s, c) matches Some(k) ==> 0 <= k < g.len() && g[k].0 == s && g[k].1 == c,
    decreases g.len(),
{
    if g.len() > 0 {
        lemma_group_index_bound(g.drop_last(), s, c);
    }
}

proof fn lemma_groups_bound(d: Seq<ReportBust>)
    ensures
        forall|k: int, j: int|
            0 <= k < bust_groups(d).len() && 0 <= j < bust_groups(d)[k].2.len() ==> 0
                <= #[trigger] bust_groups(d)[k].2[j] < d.len(),
        forall|k: int| 0 <= k < bust_groups(d).len() ==> (#[trigger] bust_groups(d)[k]).2.len() > 0,
    decreases d.len(),
{
    if d.len() > 0 {
        lemma_groups_bound(d.drop_last());
        let g = bust_groups(d.drop_last());
        let b = d.last();
        lemma_group_index_bound(g, b.session@, b.cause@);
        assert forall|k: int, j: int|
            0 <= k < bust_groups(d).len() && 0 <= j < bust_groups(d)[k].2.len() implies 0
                <= #[trigger] bust_groups(d)[k].2[j] < d.len() by {
            if host_bust(b) {
                match group_index(g, b.session@, b.cause@) {
                    Some(m) => {
                        if k == m && j == g[m].2.len() {
                        } else {
                            assert(bust_groups(d)[k].2[j] == g[k].2[j]);
                        }
                    },
                    None => {
                        if k < g.len() {
                            assert(bust_groups(d)[k].2[j] == g[k].2[j]);
                        }
                    },
                }
            }
        }
    }
}

/// (3) Cache busts the host caused: one finding per session and cause, naming the turns.
#[verifier::spinoff_prover]
#[verifier::rlimit(40)]
pub fn cache_busts(c: &ReportCache, out: &mut Vec<Finding>)
    requires
        bust_sums_fit(c.detail@),
    ensures
        fviews(final(out)@) == fviews(old(out)@) + cache_busts_spec(*c),
{
    let d = &c.detail;
    let ghost dv = d@;
    // Group.
    let mut sessions: Vec<String> = Vec::new();
    let mut causes: Vec<String> = Vec::new();
    let mut idxs: Vec<Vec<usize>> = Vec::new();
    let mut i: usize = 0;
    while i < d.len()
        invariant
            dv == d@,
            i <= d@.len(),
            sessions@.len() == causes@.len(),
            sessions@.len() == idxs@.len(),
            groups_view(sessions@, causes@, idxs@) == bust_groups(dv.take(i as int)),
        decreases d@.len() - i,
    {
        assert(dv.take(i + 1).drop_last() == dv.take(i as int));
        assert(dv.take(i + 1).last() == dv[i as int]);
        let b = &d[i];
        let host = str_eq(b.cause.as_str(), "tools") || str_eq(b.cause.as_str(), "system");
        if host {
            let ghost g0 = groups_view(sessions@, causes@, idxs@);
            match find_group(&sessions, &causes, &idxs, b.session.as_str(), b.cause.as_str()) {
                Some(k) => {
                    proof {
                        lemma_group_index_bound(g0, b.session@, b.cause@);
                    }
                    let nv = pushed_copy(&idxs[k], i);
                    idxs.set(k, nv);
                    assert forall|m: int| 0 <= m < g0.len() implies groups_view(sessions@, causes@, idxs@)[m]
                        == g0.update(k as int, (g0[k as int].0, g0[k as int].1, g0[k as int].2.push(i as int)))[m] by {
                        if m == k {
                            assert(idx_view(idxs@[m]) =~= g0[k as int].2.push(i as int));
                        }
                    }
                    assert(groups_view(sessions@, causes@, idxs@) =~= g0.update(k as int, (g0[k as int].0, g0[k as int].1, g0[k as int].2.push(i as int))));
                },
                None => {
                    let mut one: Vec<usize> = Vec::new();
                    one.push(i);
                    sessions.push(crate::text::copy_str(b.session.as_str()));
                    causes.push(crate::text::copy_str(b.cause.as_str()));
                    idxs.push(one);
                    assert(idx_view(one) =~= seq![i as int]);
                    assert(groups_view(sessions@, causes@, idxs@) =~= g0.push((b.session@, b.cause@, seq![i as int])));
                },
            }
        }
        i += 1;
    }
    assert(dv.take(dv.len() as int) == dv);
    let ghost gv = groups_view(sessions@, causes@, idxs@);
    proof {
        lemma_groups_bound(dv);
    }
    // The evidence, shared.
    let mut ev = String::new();
    push_count(&mut ev, c.busts, "cache bust");
    ev.append(" over ");
    push_count(&mut ev, c.turns, "turn");
    ev.append(" in ");
    push_count(&mut ev, c.sessions, "session");
    ev.append(" with usage rows");
    let ghost start = fviews(out@);
    let mut k: usize = 0;
    while k < sessions.len()
        invariant
            dv == d@,
            dv == c.detail@,
            sessions@.len() == causes@.len(),
            sessions@.len() == idxs@.len(),
            gv == groups_view(sessions@, causes@, idxs@),
            gv == bust_groups(dv),
            bust_sums_fit(dv),
            ev@ == bust_evidence(*c),
            forall|a: int, j: int|
                0 <= a < gv.len() && 0 <= j < gv[a].2.len() ==> 0 <= #[trigger] gv[a].2[j] < dv.len(),
            forall|a: int| 0 <= a < gv.len() ==> (#[trigger] gv[a]).2.len() > 0,
            k <= sessions@.len(),
            fviews(out@) == start + cache_busts_spec(*c).take(k as int),
        decreases sessions@.len() - k,
    {
        let session = &sessions[k];
        let cause = &causes[k];
        let idx = &idxs[k];
        let il = idx.len();
        let ghost g = gv[k as int];
        assert(g.2 =~= Seq::new(idx@.len(), |j: int| idx@[j] as int));
        assert forall|x: int| 0 <= x < idx@.len() implies 0 <= #[trigger] idx@[x] < dv.len() by {
            assert(gv[k as int].2[x] == idx@[x] as int);
        }
        // The cache-create sum.
        let mut sum: i128 = 0;
        let mut j: usize = 0;
        while j < idx.len()
            invariant
                dv == d@,
                g.2 == Seq::new(idx@.len(), |x: int| idx@[x] as int),
                forall|x: int| 0 <= x < idx@.len() ==> 0 <= #[trigger] idx@[x] < dv.len(),
                j <= idx@.len(),
                idx@.len() <= usize::MAX,
                sum == create_sum(dv, g.2.take(j as int)),
                -0x8000_0000_0000_0000 * (j as int) <= sum <= 0x8000_0000_0000_0000 * (j as int),
            decreases idx@.len() - j,
        {
            assert(g.2.take(j + 1).drop_last() == g.2.take(j as int));
            assert(idx@[j as int] < dv.len());
            sum = sum + d[idx[j]].cache_create as i128;
            j += 1;
        }
        assert(g.2.take(g.2.len() as int) == g.2);
        assert(i64::MIN <= create_sum(dv, gv[k as int].2) <= i64::MAX);
        let create = sum as i64;
        let what = if str_eq(cause.as_str(), "system") {
            "system prompt"
        } else {
            "tool list"
        };
        let mut f = "session ".to_owned();
        f.append(session.as_str());
        if idx.len() == 1 {
            let b = &d[idx[0]];
            f.append(" turn ");
            push_u64(&mut f, b.turn);
            f.append(" busted the prompt cache (cause ");
            f.append(cause.as_str());
            f.append("): ");
            push_i64(&mut f, create);
            f.append(" cache-create tokens re-written with cache_read ");
            push_i64(&mut f, b.cache_read);
            f.append(" — pin the ");
            f.append(what);
            f.append("; ");
            push_i64(&mut f, create);
            f.append(" tokens would have stayed cached");
            assert(f@ =~= bust_finding(dv, g));
        } else {
            f.append(" busted the prompt cache ");
            push_count(&mut f, idx.len() as u64, "time");
            f.append(" (cause ");
            f.append(cause.as_str());
            f.append(", turns ");
            let shown = if idx.len() < BUST_TURNS_NAMED {
                idx.len()
            } else {
                BUST_TURNS_NAMED
            };
            let mut turns: Vec<String> = Vec::new();
            let mut t: usize = 0;
            while t < shown
                invariant
                    dv == d@,
                    g.2 == Seq::new(idx@.len(), |x: int| idx@[x] as int),
                    forall|x: int| 0 <= x < idx@.len() ==> 0 <= #[trigger] idx@[x] < dv.len(),
                    shown <= idx@.len(),
                    t <= shown,
                    turns@.len() == t,
                    forall|x: int| 0 <= x < t ==> (#[trigger] turns@[x])@ == dec_nat(dv[g.2[x]].turn as nat),
                decreases shown - t,
            {
                let mut ts = String::new();
                push_u64(&mut ts, d[idx[t]].turn);
                turns.push(ts);
                t += 1;
            }
            let tl = crate::text::join_strings(turns.as_slice(), ", ");
            assert(views(turns@) =~= Seq::new(shown as nat, |x: int| dec_nat(dv[g.2[x]].turn as nat)));
            f.append(tl.as_str());
            if idx.len() > BUST_TURNS_NAMED {
                f.append(" and ");
                push_u64(&mut f, (idx.len() - BUST_TURNS_NAMED) as u64);
                f.append(" more");
            }
            f.append("): ");
            push_i64(&mut f, create);
            f.append(" cache-create tokens re-written — pin the ");
            f.append(what);
            f.append("; ");
            push_i64(&mut f, create);
            f.append(" tokens would have stayed cached");
            assert(f@ =~= bust_finding(dv, g));
        }
        let ghost before = out@;
        out.push((create, Recommendation { rule: "cache-bust".to_owned(), finding: f, evidence: crate::text::copy_str(ev.as_str()) }));
        assert(cache_busts_spec(*c).take(k + 1) =~= cache_busts_spec(*c).take(k as int).push(cache_busts_spec(*c)[k as int]));
        assert(fviews(out@) =~= fviews(before).push(fview(out@[before.len() as int])));
        assert(fview(out@[before.len() as int]) == cache_busts_spec(*c)[k as int]);
        assert(fviews(out@) =~= start + cache_busts_spec(*c).take(k + 1));
        k += 1;
    }
    assert(cache_busts_spec(*c).take(gv.len() as int) =~= cache_busts_spec(*c));
}


/// (4) Idle-by-design hooks that fire often: latency on the hook path for nothing.
pub open spec fn idle_one(l: ReportLedgers, h: crate::report::ReportHook) -> Seq<(i64, (Chars, Chars, Chars))> {
    let kinds = views(l.savings.kinds@);
    let worked = exists|w: int|
        0 <= w < kinds_for_hook_spec(h.name@).len() && kinds.contains(
            #[trigger] kinds_for_hook_spec(h.name@)[w],
        );
    if idle_by_design_spec(h.name@) && h.calls >= OFTEN_HOOK_CALLS && !worked {
        seq![
            (
                0i64,
                (
                    "idle-hook"@,
                    h.name@ + " fired "@ + dec_nat(h.calls as nat)
                        + " times in window with no Measurement kind recorded on its path — weight on the 10 ms hook path for nothing; 0 tokens saved"@,
                    count_spec(h.calls, "hook `"@ + h.name@ + "` row"@) + " in window, "@
                        + count_spec(l.window.measurements, "Measurement row"@) + " in ledger"@,
                ),
            ),
        ]
    } else {
        Seq::empty()
    }
}

/// (4) over every hook, in order.
pub open spec fn idle_spec(l: ReportLedgers, hooks: Seq<crate::report::ReportHook>) -> Seq<
    (i64, (Chars, Chars, Chars)),
>
    decreases hooks.len(),
{
    if hooks.len() == 0 {
        Seq::empty()
    } else {
        idle_spec(l, hooks.drop_last()) + idle_one(l, hooks.last())
    }
}

/// Whether the ledger holds a Measurement kind the event produces.
fn worked(kinds: &Vec<String>, event: &str) -> (r: bool)
    ensures
        r == exists|w: int|
            0 <= w < kinds_for_hook_spec(event@).len() && views(kinds@).contains(
                #[trigger] kinds_for_hook_spec(event@)[w],
            ),
{
    let want = kinds_for_hook(event);
    let ghost wv = Seq::new(want@.len(), |i: int| want@[i]@);
    let mut i: usize = 0;
    while i < want.len()
        invariant
            wv == Seq::new(want@.len(), |x: int| want@[x]@),
            wv == kinds_for_hook_spec(event@),
            i <= want@.len(),
            forall|w: int| 0 <= w < i ==> !views(kinds@).contains(#[trigger] wv[w]),
        decreases want@.len() - i,
    {
        let mut j: usize = 0;
        while j < kinds.len()
            invariant
                wv == Seq::new(want@.len(), |x: int| want@[x]@),
                wv == kinds_for_hook_spec(event@),
                i < want@.len(),
                j <= kinds@.len(),
                forall|x: int| 0 <= x < j ==> (#[trigger] kinds@[x])@ != wv[i as int],
            decreases kinds@.len() - j,
        {
            if str_eq(kinds[j].as_str(), want[i]) {
                assert(views(kinds@)[j as int] == wv[i as int]);
                assert(views(kinds@).contains(kinds_for_hook_spec(event@)[i as int]));
                return true;
            }
            j += 1;
        }
        assert forall|x: int| 0 <= x < views(kinds@).len() implies views(kinds@)[x] != wv[i as int] by {
            assert(views(kinds@)[x] == kinds@[x]@);
        }
        i += 1;
    }
    false
}

fn idle_hooks(l: &ReportLedgers, out: &mut Vec<Finding>)
    ensures
        fviews(final(out)@) == fviews(old(out)@) + idle_spec(*l, l.calls.hooks@),
{
    let hooks = &l.calls.hooks;
    let ghost start = fviews(out@);
    let mut i: usize = 0;
    while i < hooks.len()
        invariant
            i <= hooks@.len(),
            fviews(out@) == start + idle_spec(*l, hooks@.take(i as int)),
        decreases hooks@.len() - i,
    {
        assert(hooks@.take(i + 1).drop_last() == hooks@.take(i as int));
        assert(hooks@.take(i + 1).last() == hooks@[i as int]);
        let h = &hooks[i];
        let ghost before = out@;
        if idle_by_design(h.name.as_str()) && h.calls >= OFTEN_HOOK_CALLS && !worked(&l.savings.kinds, h.name.as_str()) {
            let mut f = crate::text::copy_str(h.name.as_str());
            f.append(" fired ");
            push_u64(&mut f, h.calls);
            f.append(" times in window with no Measurement kind recorded on its path — weight on the 10 ms hook path for nothing; 0 tokens saved");
            let mut what = "hook `".to_owned();
            what.append(h.name.as_str());
            what.append("` row");
            let mut ev = count(h.calls, what.as_str());
            ev.append(" in window, ");
            push_count(&mut ev, l.window.measurements, "Measurement row");
            ev.append(" in ledger");
            out.push((0, Recommendation { rule: "idle-hook".to_owned(), finding: f, evidence: ev }));
            assert(fviews(out@) =~= fviews(before) + idle_one(*l, hooks@[i as int]));
        } else {
            assert(fviews(out@) =~= fviews(before) + idle_one(*l, hooks@[i as int]));
        }
        i += 1;
    }
    assert(hooks@.take(hooks@.len() as int) == hooks@);
}

/// (5) Measured injection per turn against the budget.
pub open spec fn inject_budget_spec(l: ReportLedgers, cfg: AdviceConfig) -> Seq<
    (i64, (Chars, Chars, Chars)),
> {
    match inject_row(l.savings.rows@) {
        Some(k) => {
            let r = l.savings.rows@[k];
            let budget = cfg.inject_budget_tokens as int;
            if r.rows > 0 && r.est_after > budget * r.rows {
                let excess = r.est_after - budget * r.rows;
                seq![
                    (
                        excess as i64,
                        (
                            "inject-budget"@,
                            "inject averages "@ + dec_int((r.est_after as int) / (r.rows as int))
                                + " est tokens/turn over "@ + count_spec(r.rows, "inject Measurement row"@)
                                + " vs [plugins.inject] budget_tokens "@ + dec_int(budget) + " — "@
                                + dec_int(excess) + " tokens over budget; trim modes and memory recall"@,
                            count_spec(r.rows, "inject Measurement row"@),
                        ),
                    ),
                ]
            } else {
                Seq::empty()
            }
        },
        None => Seq::empty(),
    }
}

proof fn lemma_inject_row_bound(rows: Seq<crate::report::ReportSavings>)
    ensures
        inject_row(rows) matches Some(k) ==> 0 <= k < rows.len() && rows[k].plugin@ == "inject"@,
        inject_row(rows) is None ==> forall|k: int| 0 <= k < rows.len() ==> (#[trigger] rows[k]).plugin@ != "inject"@,
    decreases rows.len(),
{
    if rows.len() > 0 {
        lemma_inject_row_bound(rows.drop_last());
        if inject_row(rows.drop_last()) is None {
            assert forall|k: int| 0 <= k < rows.len() - 1 implies (#[trigger] rows[k]).plugin@ != "inject"@ by {
                assert(rows.drop_last()[k] == rows[k]);
            }
        }
    }
}

proof fn lemma_inject_row_prefix(rows: Seq<crate::report::ReportSavings>, n: int)
    requires
        0 <= n <= rows.len(),
        inject_row(rows.take(n)) is Some,
    ensures
        inject_row(rows) == inject_row(rows.take(n)),
    decreases rows.len() - n,
{
    if n < rows.len() {
        assert(rows.take(n + 1).drop_last() == rows.take(n));
        lemma_inject_row_prefix(rows, n + 1);
    } else {
        assert(rows.take(n) == rows);
    }
}

fn inject_budget(l: &ReportLedgers, cfg: &AdviceConfig, out: &mut Vec<Finding>)
    requires
        advice_inputs_ok(*l, *cfg),
    ensures
        fviews(final(out)@) == fviews(old(out)@) + inject_budget_spec(*l, *cfg),
{
    let rows = &l.savings.rows;
    let mut k: usize = 0;
    while k < rows.len() && !str_eq(rows[k].plugin.as_str(), "inject")
        invariant
            k <= rows@.len(),
            inject_row(rows@.take(k as int)) is None,
        decreases rows@.len() - k,
    {
        assert(rows@.take(k + 1).drop_last() == rows@.take(k as int));
        assert(rows@.take(k + 1).last() == rows@[k as int]);
        k += 1;
    }
    if k == rows.len() {
        assert(rows@.take(k as int) == rows@);
        assert(fviews(out@) =~= fviews(out@) + inject_budget_spec(*l, *cfg));
        return;
    }
    proof {
        assert(rows@.take(k + 1).drop_last() == rows@.take(k as int));
        assert(rows@.take(k + 1).last() == rows@[k as int]);
        assert(inject_row(rows@.take(k + 1)) == Some(k as int));
        lemma_inject_row_prefix(rows@, k + 1);
    }
    let r = &rows[k];
    let budget = cfg.inject_budget_tokens as i64;
    if r.rows > 0 {
        let n = r.rows as i64;
        let cap = budget * n;
        if r.est_after > cap {
            let excess = r.est_after - cap;
            let mut f = "inject averages ".to_owned();
            push_i64(&mut f, r.est_after / n);
            f.append(" est tokens/turn over ");
            push_count(&mut f, r.rows, "inject Measurement row");
            f.append(" vs [plugins.inject] budget_tokens ");
            push_i64(&mut f, budget);
            f.append(" — ");
            push_i64(&mut f, excess);
            f.append(" tokens over budget; trim modes and memory recall");
            let ev = count(r.rows, "inject Measurement row");
            let ghost before = out@;
            out.push((excess, Recommendation { rule: "inject-budget".to_owned(), finding: f, evidence: ev }));
            assert(fviews(out@) =~= fviews(before) + inject_budget_spec(*l, *cfg));
            return;
        }
    }
    assert(fviews(out@) =~= fviews(out@) + inject_budget_spec(*l, *cfg));
}

/// (6) `keep_turns` against observed re-reads: expanded pointers were archived young.
pub open spec fn archive_window_spec(l: ReportLedgers, cfg: AdviceConfig) -> Seq<
    (i64, (Chars, Chars, Chars)),
> {
    let e = l.expand;
    if e.expanded > 0 {
        seq![
            (
                e.cost,
                (
                    "archive-window"@,
                    "archive keep_turns "@ + dec_nat(cfg.archive_keep_turns as nat) + " with "@
                        + dec_int(e.expanded as int) + " of "@ + dec_int(e.decisions as int)
                        + " pointers re-read via rtok expand ("@ + dec_int(e.cost as int)
                        + " est tokens over "@ + count_spec(e.cost_rows, "row"@)
                        + ") — old results ARE re-read; raise keep_turns or min_tokens so volatile results stay live"@,
                    count_spec(e.decisions as u64, "archive_decisions row"@) + ", "@ + count_spec(
                        e.cost_rows,
                        "expand Measurement row"@,
                    ),
                ),
            ),
        ]
    } else {
        Seq::empty()
    }
}

fn archive_window(l: &ReportLedgers, cfg: &AdviceConfig, out: &mut Vec<Finding>)
    ensures
        fviews(final(out)@) == fviews(old(out)@) + archive_window_spec(*l, *cfg),
{
    let e = &l.expand;
    if e.expanded > 0 {
        let mut f = "archive keep_turns ".to_owned();
        push_u64(&mut f, cfg.archive_keep_turns as u64);
        f.append(" with ");
        push_i64(&mut f, e.expanded);
        f.append(" of ");
        push_i64(&mut f, e.decisions);
        f.append(" pointers re-read via rtok expand (");
        push_i64(&mut f, e.cost);
        f.append(" est tokens over ");
        push_count(&mut f, e.cost_rows, "row");
        f.append(") — old results ARE re-read; raise keep_turns or min_tokens so volatile results stay live");
        let mut ev = String::new();
        push_count(&mut ev, e.decisions as u64, "archive_decisions row");
        ev.append(", ");
        push_count(&mut ev, e.cost_rows, "expand Measurement row");
        let ghost before = out@;
        out.push((e.cost, Recommendation { rule: "archive-window".to_owned(), finding: f, evidence: ev }));
        assert(fviews(out@) =~= fviews(before) + archive_window_spec(*l, *cfg));
    } else {
        assert(fviews(out@) =~= fviews(out@) + archive_window_spec(*l, *cfg));
    }
}

/// (7) One token sink that cost at least a byte.
pub open spec fn sink_one(l: ReportLedgers, s: crate::report::ReportSink) -> Seq<(i64, (Chars, Chars, Chars))> {
    if s.before_bytes < 1 {
        Seq::empty()
    } else {
        seq![
            (
                s.before_bytes,
                (
                    "top-sinks"@,
                    s.class@ + " "@ + s.sink@ + " cost "@ + dec_int(s.before_bytes as int) + " bytes over "@
                        + count_spec(s.rows, "Measurement row"@) + " — "@ + s.switch@,
                    count_spec(s.rows, s.sink@ + " row"@) + " "@ + s.class@ + " Measurement rows, "@
                        + count_spec(l.window.measurements, "Measurement row"@) + " total in ledger"@,
                ),
            ),
        ]
    }
}

/// (7) Top token sinks: which paths, stems or MCP tools cost the most bytes.
pub open spec fn sinks_spec(l: ReportLedgers, rows: Seq<crate::report::ReportSink>) -> Seq<
    (i64, (Chars, Chars, Chars)),
>
    decreases rows.len(),
{
    if rows.len() == 0 {
        Seq::empty()
    } else {
        sinks_spec(l, rows.drop_last()) + sink_one(l, rows.last())
    }
}

/// (7) Top token sinks, one finding per sink that cost at least a byte.
pub fn top_sinks(l: &ReportLedgers, out: &mut Vec<Finding>)
    ensures
        fviews(final(out)@) == fviews(old(out)@) + sinks_spec(*l, l.sinks.rows@),
{
    let rows = &l.sinks.rows;
    let ghost start = fviews(out@);
    let mut i: usize = 0;
    while i < rows.len()
        invariant
            i <= rows@.len(),
            fviews(out@) == start + sinks_spec(*l, rows@.take(i as int)),
        decreases rows@.len() - i,
    {
        assert(rows@.take(i + 1).drop_last() == rows@.take(i as int));
        assert(rows@.take(i + 1).last() == rows@[i as int]);
        let s = &rows[i];
        let ghost before = out@;
        if s.before_bytes >= 1 {
            let mut f = crate::text::copy_str(s.class.as_str());
            f.append(" ");
            f.append(s.sink.as_str());
            f.append(" cost ");
            push_i64(&mut f, s.before_bytes);
            f.append(" bytes over ");
            push_count(&mut f, s.rows, "Measurement row");
            f.append(" — ");
            f.append(s.switch.as_str());
            let mut what = crate::text::copy_str(s.sink.as_str());
            what.append(" row");
            let mut ev = count(s.rows, what.as_str());
            ev.append(" ");
            ev.append(s.class.as_str());
            ev.append(" Measurement rows, ");
            push_count(&mut ev, l.window.measurements, "Measurement row");
            ev.append(" total in ledger");
            out.push((s.before_bytes, Recommendation { rule: "top-sinks".to_owned(), finding: f, evidence: ev }));
            assert(fviews(out@) =~= fviews(before) + sink_one(*l, rows@[i as int]));
        } else {
            assert(fviews(out@) =~= fviews(before) + sink_one(*l, rows@[i as int]));
        }
        i += 1;
    }
    assert(rows@.take(rows@.len() as int) == rows@);
}

// ---------------------------------------------------------------------------------------
// Ordering
// ---------------------------------------------------------------------------------------

/// `x` placed into a list ordered by tokens, most first, after every entry with at least
/// its tokens.
pub open spec fn insert_desc<T>(s: Seq<(i64, T)>, x: (i64, T)) -> Seq<(i64, T)>
    decreases s.len(),
{
    if s.len() == 0 {
        seq![x]
    } else if s.last().0 >= x.0 {
        s.push(x)
    } else {
        insert_desc(s.drop_last(), x).push(s.last())
    }
}

/// A stable sort by tokens, most first: ties keep their order.
pub open spec fn sort_desc<T>(xs: Seq<(i64, T)>) -> Seq<(i64, T)>
    decreases xs.len(),
{
    if xs.len() == 0 {
        Seq::empty()
    } else {
        insert_desc(sort_desc(xs.drop_last()), xs.last())
    }
}

proof fn lemma_insert_at<T>(s: Seq<(i64, T)>, x: (i64, T), j: int)
    requires
        0 <= j <= s.len(),
        forall|k: int| j <= k < s.len() ==> (#[trigger] s[k]).0 < x.0,
        j > 0 ==> s[j - 1].0 >= x.0,
    ensures
        insert_desc(s, x) == s.take(j) + seq![x] + s.skip(j),
    decreases s.len(),
{
    if s.len() == 0 {
        assert(s.take(j) + seq![x] + s.skip(j) =~= seq![x]);
    } else if s.last().0 >= x.0 {
        assert(j == s.len());
        assert(s.take(j) + seq![x] + s.skip(j) =~= s.push(x));
    } else {
        lemma_insert_at(s.drop_last(), x, j);
        assert(s.drop_last().take(j) + seq![x] + s.drop_last().skip(j) + seq![s.last()] =~= s.take(j)
            + seq![x] + s.skip(j));
    }
}

/// Orders findings by tokens, most first; ties keep their order.
fn sort_findings(v: Vec<Finding>) -> (r: Vec<Finding>)
    ensures
        fviews(r@) == sort_desc(fviews(v@)),
{
    let ghost vv = fviews(v@);
    let mut rest = v;
    let mut out: Vec<Finding> = Vec::new();
    let ghost mut done: int = 0;
    assert(vv.skip(0) == vv);
    while rest.len() > 0
        invariant
            0 <= done <= vv.len(),
            fviews(rest@) == vv.skip(done),
            fviews(out@) == sort_desc(vv.take(done)),
        decreases rest@.len(),
    {
        let ghost r0 = rest@;
        let x = rest.remove(0);
        assert(fviews(rest@) =~= fviews(r0).skip(1));
        assert(fviews(r0)[0] == fview(r0[0]));
        assert(fview(x) == vv[done]);
        let mut j = out.len();
        while j > 0 && out[j - 1].0 < x.0
            invariant
                j <= out@.len(),
                forall|k: int| j <= k < out@.len() ==> (#[trigger] out@[k]).0 < x.0,
            decreases j,
        {
            j -= 1;
        }
        let ghost o0 = fviews(out@);
        proof {
            lemma_insert_at(o0, fview(x), j as int);
        }
        out.insert(j, x);
        assert(fviews(out@) =~= o0.take(j as int) + seq![fview(x)] + o0.skip(j as int));
        proof {
            assert(vv.take(done + 1).drop_last() == vv.take(done));
            assert(vv.take(done + 1).last() == vv[done]);
            done = done + 1;
            assert(vv.skip(done) =~= vv.skip(done - 1).skip(1));
        }
    }
    assert(vv.take(done) == vv);
    out
}

/// Every rule's findings, in rule order.
pub open spec fn findings_spec(l: ReportLedgers, cfg: AdviceConfig) -> Seq<(i64, (Chars, Chars, Chars))> {
    expand_rate_spec(l, cfg) + retire_spec(l.savings.rows@) + cache_busts_spec(l.cache) + idle_spec(
        l,
        l.calls.hooks@,
    ) + inject_budget_spec(l, cfg) + archive_window_spec(l, cfg) + sinks_spec(l, l.sinks.rows@)
}

/// The recommendations: every rule's findings, most recoverable tokens first, ties in
/// rule order.
pub open spec fn recommendations_spec(l: ReportLedgers, cfg: AdviceConfig) -> Seq<(Chars, Chars, Chars)> {
    let s = sort_desc(findings_spec(l, cfg));
    Seq::new(s.len(), |i: int| s[i].1)
}

/// The rules over one ledger read, most recoverable tokens first.
pub fn recommendations(l: &ReportLedgers, cfg: &AdviceConfig) -> (r: Vec<Recommendation>)
    requires
        advice_inputs_ok(*l, *cfg),
    ensures
        recs_view(r@) == recommendations_spec(*l, *cfg),
{
    let mut found: Vec<Finding> = Vec::new();
    expand_rate(l, cfg, &mut found);
    retire_plugin(l, &mut found);
    cache_busts(&l.cache, &mut found);
    idle_hooks(l, &mut found);
    inject_budget(l, cfg, &mut found);
    archive_window(l, cfg, &mut found);
    top_sinks(l, &mut found);
    assert(fviews(found@) =~= findings_spec(*l, *cfg));
    let mut sorted = sort_findings(found);
    let ghost sv = fviews(sorted@);
    let mut out: Vec<Recommendation> = Vec::new();
    let ghost mut done: int = 0;
    assert(sv.skip(0) == sv);
    while sorted.len() > 0
        invariant
            0 <= done <= sv.len(),
            fviews(sorted@) == sv.skip(done),
            recs_view(out@) == Seq::new(done as nat, |i: int| sv[i].1),
        decreases sorted@.len(),
    {
        let ghost s0 = sorted@;
        let (_, rec) = sorted.remove(0);
        assert(fviews(sorted@) =~= fviews(s0).skip(1));
        assert(fviews(s0)[0] == fview(s0[0]));
        assert(rec_view(rec) == sv[done].1);
        let ghost o0 = out@;
        out.push(rec);
        assert(recs_view(out@) =~= recs_view(o0).push(sv[done].1));
        assert(recs_view(out@) =~= Seq::new((done + 1) as nat, |i: int| sv[i].1));
        proof {
            done = done + 1;
            assert(sv.skip(done) =~= sv.skip(done - 1).skip(1));
        }
    }
    out
}

/// A session-end hook is never idle by design; `Stop` and `PreCompact` are.
pub proof fn law_idle_hooks()
    ensures
        !idle_by_design_spec("SessionEnd"@),
        !idle_by_design_spec("PostToolUse"@),
        idle_by_design_spec("Stop"@),
        idle_by_design_spec("PreCompact"@),
{
    reveal_strlit("SessionEnd");
    reveal_strlit("PostToolUse");
    reveal_strlit("Stop");
    reveal_strlit("PreCompact");
    assert("SessionEnd"@[0] != "PreCompact"@[0]);
    assert("SessionEnd"@.len() != "Stop"@.len());
    assert("PostToolUse"@.len() != "PreCompact"@.len());
    assert("PostToolUse"@.len() != "Stop"@.len());
}

/// The recommendations come most recoverable tokens first.
pub proof fn law_recommendations_ordered<T>(xs: Seq<(i64, T)>)
    ensures
        forall|i: int, j: int|
            0 <= i < j < sort_desc(xs).len() ==> sort_desc(xs)[i].0 >= sort_desc(xs)[j].0,
        sort_desc(xs).len() == xs.len(),
    decreases xs.len(),
{
    if xs.len() > 0 {
        law_recommendations_ordered(xs.drop_last());
        lemma_insert_sorted(sort_desc(xs.drop_last()), xs.last());
    }
}

proof fn lemma_insert_sorted<T>(s: Seq<(i64, T)>, x: (i64, T))
    requires
        forall|i: int, j: int| 0 <= i < j < s.len() ==> s[i].0 >= s[j].0,
    ensures
        forall|i: int, j: int|
            0 <= i < j < insert_desc(s, x).len() ==> insert_desc(s, x)[i].0 >= insert_desc(s, x)[j].0,
        insert_desc(s, x).len() == s.len() + 1,
        forall|i: int| 0 <= i < insert_desc(s, x).len() ==> insert_desc(s, x)[i].0 >= x.0 || insert_desc(s, x)[i].0 <= s.last().0 || true,
    decreases s.len(),
{
    if s.len() > 0 && s.last().0 < x.0 {
        lemma_insert_sorted(s.drop_last(), x);
        let r = insert_desc(s.drop_last(), x);
        // Every entry of `r` is at least the last of `s`: they are `s`'s earlier entries or `x`.
        lemma_insert_members(s.drop_last(), x);
        assert forall|i: int| 0 <= i < r.len() implies r[i].0 >= s.last().0 by {
            if r[i] != x {
                let k = choose|k: int| 0 <= k < s.drop_last().len() && s.drop_last()[k] == r[i];
                assert(s[k].0 >= s.last().0);
            }
        }
    }
}

proof fn lemma_insert_members<T>(s: Seq<(i64, T)>, x: (i64, T))
    ensures
        forall|i: int|
            0 <= i < insert_desc(s, x).len() ==> insert_desc(s, x)[i] == x || exists|k: int|
                0 <= k < s.len() && s[k] == #[trigger] insert_desc(s, x)[i],
    decreases s.len(),
{
    if s.len() > 0 {
        lemma_insert_members(s.drop_last(), x);
        let r = insert_desc(s, x);
        assert forall|i: int| 0 <= i < r.len() implies r[i] == x || exists|k: int|
            0 <= k < s.len() && s[k] == #[trigger] r[i] by {
            if s.last().0 >= x.0 {
                if i < s.len() {
                    assert(s[i] == r[i]);
                }
            } else {
                if i == r.len() - 1 {
                    assert(s[s.len() - 1] == r[i]);
                } else {
                    let rr = insert_desc(s.drop_last(), x);
                    assert(r[i] == rr[i]);
                    if rr[i] != x {
                        let k = choose|k: int| 0 <= k < s.drop_last().len() && s.drop_last()[k] == rr[i];
                        assert(s[k] == r[i]);
                    }
                }
            }
        }
    }
}

} // verus!
