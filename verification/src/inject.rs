//! Budgeted SessionStart / UserPromptSubmit injection: offered texts in priority order
//! until the token budget is reached. A candidate that starts under budget is emitted even
//! if it overshoots.

use vstd::prelude::*;

use crate::plugin::{declares, DashboardPage, Manifest, Surface};
use crate::text::{dec_nat, join, join_strings, push_u64, views, Chars};

verus! {

/// Catalogue plugin `inject`.
pub struct Inject;

impl Inject {
    pub fn manifest(&self) -> (m: Manifest)
        ensures
            declares(m, "inject"@, seq![Surface::Hook], true),
    {
        let mut surfaces: Vec<Surface> = Vec::new();
        surfaces.push(Surface::Hook);
        assert(surfaces@ =~= seq![Surface::Hook]);
        Manifest { id: "inject", surfaces, default_on: true }
    }
}

/// One offered injection.
pub struct Injection {
    pub plugin: String,
    pub text: String,
    pub priority: u8,
}

/// An injection as a value: plugin, text, priority.
pub open spec fn inj_view(i: Injection) -> (Chars, Chars, u8) {
    (i.plugin@, i.text@, i.priority)
}

/// `a` comes before `b` in lexicographic character order.
pub open spec fn lex_lt(a: Chars, b: Chars) -> bool
    decreases a.len(),
{
    if a.len() == 0 {
        b.len() > 0
    } else if b.len() == 0 {
        false
    } else if a[0] != b[0] {
        (a[0] as u32) < (b[0] as u32)
    } else {
        lex_lt(a.drop_first(), b.drop_first())
    }
}

/// `a` is emitted before `b`: higher priority first, then plugin name.
pub open spec fn inj_before(a: (Chars, Chars, u8), b: (Chars, Chars, u8)) -> bool {
    a.2 > b.2 || (a.2 == b.2 && lex_lt(a.0, b.0))
}

/// `x` placed after every entry it does not sort before (ties keep their order).
pub open spec fn insert_sorted(s: Seq<((Chars, Chars, u8), u32)>, x: ((Chars, Chars, u8), u32)) -> Seq<
    ((Chars, Chars, u8), u32),
>
    decreases s.len(),
{
    if s.len() == 0 {
        seq![x]
    } else if !inj_before(x.0, s.last().0) {
        s.push(x)
    } else {
        insert_sorted(s.drop_last(), x).push(s.last())
    }
}

/// A stable sort of the offers into emission order.
pub open spec fn sort_offers(xs: Seq<((Chars, Chars, u8), u32)>) -> Seq<((Chars, Chars, u8), u32)>
    decreases xs.len(),
{
    if xs.len() == 0 {
        Seq::empty()
    } else {
        insert_sorted(sort_offers(xs.drop_last()), xs.last())
    }
}

/// The greedy pass over sorted offers: texts emitted, `dropped:{plugin}:{tokens}` for the
/// ones that find the budget already used, and the tokens used (counted up to `u32::MAX`).
pub open spec fn greedy(s: Seq<((Chars, Chars, u8), u32)>, budget: u32) -> (Seq<Chars>, Seq<Chars>, nat)
    decreases s.len(),
{
    if s.len() == 0 {
        (Seq::empty(), Seq::empty(), 0)
    } else {
        let (p, d, u) = greedy(s.drop_last(), budget);
        let (x, t) = s.last();
        if u >= budget {
            (p, d.push("dropped:"@ + x.0 + ":"@ + dec_nat(t as nat)), u)
        } else {
            (p.push(x.1), d, if u + t > u32::MAX {
                u32::MAX as nat
            } else {
                (u + t) as nat
            })
        }
    }
}

/// The sum of the estimates.
pub open spec fn est_sum(ts: Seq<u32>) -> nat
    decreases ts.len(),
{
    if ts.len() == 0 {
        0
    } else {
        est_sum(ts.drop_last()) + (ts.last() as nat)
    }
}

/// The sum of the texts' UTF-8 lengths.
pub open spec fn bytes_sum(xs: Seq<Injection>) -> nat
    decreases xs.len(),
{
    if xs.len() == 0 {
        0
    } else {
        bytes_sum(xs.drop_last()) + crate::graph::byte_len(xs.last().text@)
    }
}

/// What one `apply` produced: the injected text, the drop notes (the first is the
/// measurement's reference), the estimated tokens and bytes of everything offered.
pub struct Applied {
    pub text: String,
    pub dropped: Vec<String>,
    pub est_before: u32,
    pub before_bytes: u64,
}

/// The offers paired with their estimates, as values.
pub open spec fn offers_view(offered: Seq<Injection>, tokens: Seq<u32>) -> Seq<((Chars, Chars, u8), u32)> {
    Seq::new(offered.len(), |i: int| (inj_view(offered[i]), tokens[i]))
}

/// `a` sorts strictly before `b` ([`inj_before`]).
fn sorts_before(a: &Injection, b: &Injection) -> (r: bool)
    ensures
        r == inj_before(inj_view(*a), inj_view(*b)),
{
    if a.priority != b.priority {
        return a.priority > b.priority;
    }
    let x = crate::text::chars_of(a.plugin.as_str());
    let y = crate::text::chars_of(b.plugin.as_str());
    let mut i: usize = 0;
    assert(x@.skip(0) == x@ && y@.skip(0) == y@);
    while i < x.len() && i < y.len() && x[i] == y[i]
        invariant
            i <= x@.len(),
            i <= y@.len(),
            lex_lt(x@, y@) == lex_lt(x@.skip(i as int), y@.skip(i as int)),
        decreases x@.len() - i,
    {
        assert(x@.skip(i as int).drop_first() == x@.skip(i + 1));
        assert(y@.skip(i as int).drop_first() == y@.skip(i + 1));
        i += 1;
    }
    assert(x@.skip(0) == x@ && y@.skip(0) == y@);
    if i == x.len() {
        i < y.len()
    } else if i == y.len() {
        false
    } else {
        (x[i] as u32) < (y[i] as u32)
    }
}

proof fn lemma_insert_sorted_at(s: Seq<((Chars, Chars, u8), u32)>, x: ((Chars, Chars, u8), u32), j: int)
    requires
        0 <= j <= s.len(),
        forall|k: int| j <= k < s.len() ==> inj_before(x.0, (#[trigger] s[k]).0),
        j > 0 ==> !inj_before(x.0, s[j - 1].0),
    ensures
        insert_sorted(s, x) == s.take(j) + seq![x] + s.skip(j),
    decreases s.len(),
{
    if s.len() == 0 {
        assert(s.take(j) + seq![x] + s.skip(j) =~= seq![x]);
    } else if !inj_before(x.0, s.last().0) {
        assert(j == s.len());
        assert(s.take(j) + seq![x] + s.skip(j) =~= s.push(x));
    } else {
        lemma_insert_sorted_at(s.drop_last(), x, j);
        assert(s.drop_last().take(j) + seq![x] + s.drop_last().skip(j) + seq![s.last()] =~= s.take(j)
            + seq![x] + s.skip(j));
    }
}

/// The views of the paired offers.
pub open spec fn pairs_view(v: Seq<(Injection, u32)>) -> Seq<((Chars, Chars, u8), u32)> {
    Seq::new(v.len(), |i: int| (inj_view(v[i].0), v[i].1))
}

/// Pick injections in priority order (higher first, then plugin name) until the budget:
/// an offer is emitted while the tokens used so far are under `budget`, the rest are
/// noted as dropped. `tokens[i]` is the estimate of `offered[i]`'s text.
pub fn apply(offered: Vec<Injection>, tokens: &Vec<u32>, budget: u32) -> (r: Applied)
    requires
        tokens@.len() == offered@.len(),
        est_sum(tokens@) <= u32::MAX,
        bytes_sum(offered@) <= u64::MAX,
    ensures
        ({
            let (parts, dropped, _) = greedy(sort_offers(offers_view(offered@, tokens@)), budget);
            &&& r.text@ == join(parts, "\n"@)
            &&& views(r.dropped@) == dropped
            &&& r.est_before as nat == est_sum(tokens@)
            &&& r.before_bytes as nat == bytes_sum(offered@)
        }),
{
    let ghost ov = offers_view(offered@, tokens@);
    // Totals over everything offered.
    let mut before: u32 = 0;
    let mut before_bytes: u64 = 0;
    let mut i: usize = 0;
    while i < offered.len()
        invariant
            tokens@.len() == offered@.len(),
            est_sum(tokens@) <= u32::MAX,
            bytes_sum(offered@) <= u64::MAX,
            i <= offered@.len(),
            before as nat == est_sum(tokens@.take(i as int)),
            before_bytes as nat == bytes_sum(offered@.take(i as int)),
        decreases offered@.len() - i,
    {
        proof {
            lemma_prefix_sums(tokens@, offered@, i as int);
        }
        assert(tokens@.take(i + 1).drop_last() == tokens@.take(i as int));
        assert(offered@.take(i + 1).drop_last() == offered@.take(i as int));
        before = before + tokens[i];
        before_bytes = before_bytes + offered[i].text.as_str().len() as u64;
        i += 1;
    }
    assert(tokens@.take(tokens@.len() as int) == tokens@);
    assert(offered@.take(offered@.len() as int) == offered@);
    // Pair each offer with its estimate, then sort stably into emission order.
    let mut rest: Vec<(Injection, u32)> = Vec::new();
    let mut rest_src = offered;
    let mut k: usize = 0;
    let n0 = rest_src.len();
    let ghost src0 = rest_src@;
    while rest_src.len() > 0
        invariant
            n0 == src0.len(),
            tokens@.len() == src0.len(),
            k + rest_src@.len() == src0.len(),
            rest_src@ == src0.skip(k as int),
            pairs_view(rest@) == offers_view(src0, tokens@).take(k as int),
        decreases rest_src@.len(),
    {
        let ghost r0 = rest_src@;
        let x = rest_src.remove(0);
        assert(rest_src@ =~= src0.skip(k + 1));
        assert(x == src0[k as int]);
        let ghost p0 = rest@;
        let t = tokens[k];
        rest.push((x, t));
        assert(pairs_view(rest@) =~= pairs_view(p0).push((inj_view(x), t)));
        assert(offers_view(src0, tokens@).take(k + 1) =~= offers_view(src0, tokens@).take(k as int).push(
            (inj_view(src0[k as int]), tokens@[k as int]),
        ));
        assert(pairs_view(rest@) =~= offers_view(src0, tokens@).take(k + 1));
        k += 1;
    }
    assert(offers_view(src0, tokens@).take(k as int) =~= ov);
    let ghost pv = pairs_view(rest@);
    let mut sorted: Vec<(Injection, u32)> = Vec::new();
    let ghost mut done: int = 0;
    assert(pv.skip(0) == pv);
    while rest.len() > 0
        invariant
            0 <= done <= pv.len(),
            pairs_view(rest@) == pv.skip(done),
            pairs_view(sorted@) == sort_offers(pv.take(done)),
        decreases rest@.len(),
    {
        let ghost r0 = rest@;
        let x = rest.remove(0);
        assert(pairs_view(rest@) =~= pairs_view(r0).skip(1));
        assert(pairs_view(r0)[0] == (inj_view(x.0), x.1));
        let mut j = sorted.len();
        while j > 0 && sorts_before(&x.0, &sorted[j - 1].0)
            invariant
                j <= sorted@.len(),
                forall|m: int| j <= m < sorted@.len() ==> inj_before(inj_view(x.0), inj_view((#[trigger] sorted@[m]).0)),
            decreases j,
        {
            j -= 1;
        }
        let ghost s0 = pairs_view(sorted@);
        proof {
            lemma_insert_sorted_at(s0, (inj_view(x.0), x.1), j as int);
        }
        sorted.insert(j, x);
        assert(pairs_view(sorted@) =~= s0.take(j as int) + seq![(inj_view(x.0), x.1)] + s0.skip(j as int));
        proof {
            assert(pv.take(done + 1).drop_last() == pv.take(done));
            assert(pv.take(done + 1).last() == pv[done]);
            done = done + 1;
            assert(pv.skip(done) =~= pv.skip(done - 1).skip(1));
        }
    }
    assert(pv.take(done) == pv);
    // The greedy pass.
    let ghost sv = pairs_view(sorted@);
    let mut parts: Vec<String> = Vec::new();
    let mut dropped: Vec<String> = Vec::new();
    let mut used: u32 = 0;
    let mut m: usize = 0;
    while m < sorted.len()
        invariant
            sv == pairs_view(sorted@),
            est_sum(tokens@) <= u32::MAX,
            sv == sort_offers(ov),
            ov == offers_view(src0, tokens@),
            m <= sorted@.len(),
            ({
                let (p, d, u) = greedy(sv.take(m as int), budget);
                &&& views(parts@) == p
                &&& views(dropped@) == d
                &&& used as nat == u
            }),
        decreases sorted@.len() - m,
    {
        assert(sv.take(m + 1).drop_last() == sv.take(m as int));
        assert(sv.take(m + 1).last() == sv[m as int]);
        let (x, t) = (&sorted[m].0, sorted[m].1);
        if used >= budget {
            let mut note = "dropped:".to_owned();
            note.append(x.plugin.as_str());
            note.append(":");
            push_u64(&mut note, t as u64);
            let ghost b = dropped@;
            dropped.push(note);
            assert(views(dropped@) =~= views(b).push(note@));
        } else {
            used = used.saturating_add(t);
            let ghost b = parts@;
            parts.push(crate::text::copy_str(x.text.as_str()));
            assert(views(parts@) =~= views(b).push(x.text@));
        }
        m += 1;
    }
    assert(sv.take(sv.len() as int) == sv);
    let text = join_strings(parts.as_slice(), "\n");
    Applied { text, dropped, est_before: before, before_bytes }
}

proof fn lemma_prefix_sums(ts: Seq<u32>, xs: Seq<Injection>, i: int)
    requires
        0 <= i < ts.len(),
        i < xs.len(),
    ensures
        est_sum(ts.take(i + 1)) <= est_sum(ts),
        bytes_sum(xs.take(i + 1)) <= bytes_sum(xs),
{
    lemma_est_sum_mono(ts, i + 1);
    lemma_bytes_sum_mono(xs, i + 1);
}

proof fn lemma_est_sum_mono(ts: Seq<u32>, n: int)
    requires
        0 <= n <= ts.len(),
    ensures
        est_sum(ts.take(n)) <= est_sum(ts),
    decreases ts.len() - n,
{
    if n < ts.len() {
        lemma_est_sum_mono(ts, n + 1);
        assert(ts.take(n + 1).drop_last() == ts.take(n));
    } else {
        assert(ts.take(n) == ts);
    }
}

proof fn lemma_bytes_sum_mono(xs: Seq<Injection>, n: int)
    requires
        0 <= n <= xs.len(),
    ensures
        bytes_sum(xs.take(n)) <= bytes_sum(xs),
    decreases xs.len() - n,
{
    if n < xs.len() {
        lemma_bytes_sum_mono(xs, n + 1);
        assert(xs.take(n + 1).drop_last() == xs.take(n));
    } else {
        assert(xs.take(n) == xs);
    }
}


// ---------------------------------------------------------------------------------------
// The session-start injection
// ---------------------------------------------------------------------------------------

/// A text ending with a line break (one added if it lacks one).
pub open spec fn with_newline(t: Chars) -> Chars {
    if t.len() > 0 && t.last() == '\n' {
        t
    } else {
        t + "\n"@
    }
}

/// The mode texts in order (each whose body was found), each ending with a line break;
/// nothing when no mode is configured.
pub open spec fn modes_spec(configured: bool, bodies: Seq<Option<Chars>>) -> Option<Chars> {
    if !configured {
        None
    } else {
        Some(
            crate::graph::concat(
                Seq::new(
                    bodies.len(),
                    |i: int|
                        match bodies[i] {
                            Some(b) => with_newline(b),
                            None => Seq::empty(),
                        },
                ),
            ),
        )
    }
}

/// [`modes_spec`]: `bodies[i]` is the text of the `i`-th configured mode, where found.
pub fn modes_text(configured: bool, bodies: &Vec<Option<String>>) -> (r: Option<String>)
    ensures
        match r {
            Some(t) => modes_spec(
                configured,
                Seq::new(
                    bodies@.len(),
                    |i: int|
                        match bodies@[i] {
                            Some(b) => Some(b@),
                            None => None,
                        },
                ),
            ) == Some(t@),
            None => !configured,
        },
{
    if !configured {
        return None;
    }
    let ghost bv = Seq::new(
        bodies@.len(),
        |i: int|
            match bodies@[i] {
                Some(b) => Some(b@),
                None => None::<Chars>,
            },
    );
    let ghost f = |i: int|
        match bv[i] {
            Some(b) => with_newline(b),
            None => Seq::<char>::empty(),
        };
    let mut text = String::new();
    let mut i: usize = 0;
    while i < bodies.len()
        invariant
            i <= bodies@.len(),
            bv == Seq::new(
                bodies@.len(),
                |m: int|
                    match bodies@[m] {
                        Some(b) => Some(b@),
                        None => None::<Chars>,
                    },
            ),
            f == (|m: int|
                match bv[m] {
                    Some(b) => with_newline(b),
                    None => Seq::<char>::empty(),
                }),
            text@ == crate::graph::concat(Seq::new(i as nat, f)),
        decreases bodies@.len() - i,
    {
        match &bodies[i] {
            Some(b) => {
                text.append(b.as_str());
                let c = crate::text::chars_of(b.as_str());
                if !(c.len() > 0 && c[c.len() - 1] == '\n') {
                    text.append("\n");
                }
            },
            None => {},
        }
        proof {
            crate::graph::lemma_concat_step(f, i as nat);
        }
        i += 1;
    }
    Some(text)
}

/// The session-start injection: after a compaction, the checkpoint offered (priority 9),
/// then the mode texts on a line of their own; priority 5 without a checkpoint; nothing
/// when both are absent or empty.
pub open spec fn session_start_spec(compacted: bool, checkpoint: Option<Chars>, modes: Option<Chars>) -> Option<
    (Chars, Chars, u8),
> {
    let (head, priority) = match checkpoint {
        Some(c) => if compacted {
            (c, 9u8)
        } else {
            (Seq::<char>::empty(), 5u8)
        },
        None => (Seq::<char>::empty(), 5u8),
    };
    let text = match modes {
        Some(m) => if head.len() > 0 {
            head + "\n"@ + m
        } else {
            head + m
        },
        None => head,
    };
    if text.len() == 0 {
        None
    } else {
        Some(("inject"@, text, priority))
    }
}

/// [`session_start_spec`].
pub fn session_start(compacted: bool, checkpoint: Option<String>, modes: Option<String>) -> (r: Option<
    Injection,
>)
    ensures
        match r {
            Some(i) => session_start_spec(
                compacted,
                match checkpoint {
                    Some(c) => Some(c@),
                    None => None,
                },
                match modes {
                    Some(m) => Some(m@),
                    None => None,
                },
            ) == Some(inj_view(i)),
            None => session_start_spec(
                compacted,
                match checkpoint {
                    Some(c) => Some(c@),
                    None => None,
                },
                match modes {
                    Some(m) => Some(m@),
                    None => None,
                },
            ) is None,
        },
{
    let mut text = String::new();
    let mut priority: u8 = 5;
    if compacted {
        match checkpoint {
            Some(c) => {
                text = c;
                priority = 9;
            },
            None => {},
        }
    }
    match modes {
        Some(m) => {
            let t = crate::text::chars_of(text.as_str());
            if t.len() > 0 {
                text.append("\n");
            }
            text.append(m.as_str());
        },
        None => {},
    }
    let t = crate::text::chars_of(text.as_str());
    if t.len() == 0 {
        None
    } else {
        Some(Injection { plugin: "inject".to_owned(), text, priority })
    }
}

// ---------------------------------------------------------------------------------------
// The emission order does not depend on the offer order
// ---------------------------------------------------------------------------------------

proof fn lemma_lex_asymmetric(a: Chars, b: Chars)
    ensures
        lex_lt(a, b) ==> !lex_lt(b, a),
    decreases a.len(),
{
    if a.len() > 0 && b.len() > 0 && a[0] == b[0] {
        lemma_lex_asymmetric(a.drop_first(), b.drop_first());
    }
}

proof fn lemma_lex_total(a: Chars, b: Chars)
    ensures
        a != b ==> lex_lt(a, b) || lex_lt(b, a),
    decreases a.len(),
{
    if a.len() > 0 && b.len() > 0 && a[0] == b[0] {
        lemma_lex_total(a.drop_first(), b.drop_first());
        if a.drop_first() == b.drop_first() {
            assert(a =~= seq![a[0]] + a.drop_first());
            assert(b =~= seq![b[0]] + b.drop_first());
        }
    } else if a.len() == 0 && b.len() == 0 {
        assert(a =~= b);
    } else if a.len() > 0 && b.len() > 0 {
        vstd::utf8::char_u32_cast(a[0], a[0] as u32);
        vstd::utf8::char_u32_cast(b[0], b[0] as u32);
    }
}

proof fn lemma_lex_transitive(a: Chars, b: Chars, c: Chars)
    ensures
        lex_lt(a, b) && lex_lt(b, c) ==> lex_lt(a, c),
    decreases a.len(),
{
    if a.len() > 0 && b.len() > 0 && c.len() > 0 {
        lemma_lex_transitive(a.drop_first(), b.drop_first(), c.drop_first());
    }
}

/// Two offers of the same priority from the same plugin.
pub open spec fn same_key(a: (Chars, Chars, u8), b: (Chars, Chars, u8)) -> bool {
    a.0 == b.0 && a.2 == b.2
}

proof fn lemma_before_total(a: (Chars, Chars, u8), b: (Chars, Chars, u8))
    ensures
        !same_key(a, b) ==> inj_before(a, b) || inj_before(b, a),
        inj_before(a, b) ==> !inj_before(b, a),
{
    lemma_lex_total(a.0, b.0);
    lemma_lex_asymmetric(a.0, b.0);
}

/// "Not before" chains: the emission order is a strict weak order.
proof fn lemma_not_before_chain(x: (Chars, Chars, u8), l: (Chars, Chars, u8), y: (Chars, Chars, u8))
    requires
        !inj_before(x, l),
        !inj_before(l, y),
    ensures
        !inj_before(x, y),
{
    if inj_before(x, y) {
        lemma_lex_total(l.0, x.0);
        lemma_lex_transitive(l.0, x.0, y.0);
        lemma_lex_transitive(x.0, l.0, y.0);
        lemma_lex_total(l.0, y.0);
    }
}

/// No offer comes before one placed ahead of it.
pub open spec fn emission_sorted(s: Seq<((Chars, Chars, u8), u32)>) -> bool {
    forall|i: int, j: int| 0 <= i < j < s.len() ==> !inj_before(#[trigger] s[j].0, #[trigger] s[i].0)
}

proof fn lemma_insert_sorted(s: Seq<((Chars, Chars, u8), u32)>, x: ((Chars, Chars, u8), u32))
    requires
        emission_sorted(s),
    ensures
        emission_sorted(insert_sorted(s, x)),
        insert_sorted(s, x).to_multiset() == s.to_multiset().insert(x),
    decreases s.len(),
{
    broadcast use vstd::seq_lib::group_to_multiset_ensures;

    let r = insert_sorted(s, x);
    if s.len() == 0 {
        assert(seq![x] =~= Seq::<((Chars, Chars, u8), u32)>::empty().push(x));
    } else if !inj_before(x.0, s.last().0) {
        assert forall|i: int, j: int| 0 <= i < j < r.len() implies !inj_before(#[trigger] r[j].0, #[trigger] r[i].0) by {
            if j == s.len() {
                if i < s.len() - 1 {
                    assert(!inj_before(s[s.len() - 1].0, s[i].0));
                    lemma_not_before_chain(x.0, s.last().0, s[i].0);
                }
            }
        }
    } else {
        let t = s.drop_last();
        let l = s.last();
        assert forall|i: int, j: int| 0 <= i < j < t.len() implies !inj_before(#[trigger] t[j].0, #[trigger] t[i].0) by {
            assert(t[i] == s[i] && t[j] == s[j]);
        }
        lemma_insert_sorted(t, x);
        let q = insert_sorted(t, x);
        assert(s =~= t.push(l));
        assert(r == q.push(l));
        assert forall|i: int, j: int| 0 <= i < j < r.len() implies !inj_before(#[trigger] r[j].0, #[trigger] r[i].0) by {
            if j == q.len() {
                let e = q[i];
                assert(q.contains(e));
                assert(q.to_multiset().count(e) > 0);
                if e == x {
                    lemma_before_total(x.0, l.0);
                } else {
                    assert(t.to_multiset().count(e) > 0);
                    assert(t.contains(e));
                    let k = choose|k: int| 0 <= k < t.len() && t[k] == e;
                    assert(s[k] == e);
                    assert(!inj_before(s[s.len() - 1].0, s[k].0));
                }
            } else {
                assert(r[i] == q[i] && r[j] == q[j]);
            }
        }
    }
}

proof fn lemma_sort_offers(xs: Seq<((Chars, Chars, u8), u32)>)
    ensures
        emission_sorted(sort_offers(xs)),
        sort_offers(xs).to_multiset() == xs.to_multiset(),
    decreases xs.len(),
{
    broadcast use vstd::seq_lib::group_to_multiset_ensures;

    if xs.len() > 0 {
        lemma_sort_offers(xs.drop_last());
        lemma_insert_sorted(sort_offers(xs.drop_last()), xs.last());
        assert(xs =~= xs.drop_last().push(xs.last()));
    } else {
        assert(sort_offers(xs).to_multiset() =~= xs.to_multiset());
    }
}

/// Offers of the same priority from the same plugin are the same offer.
pub open spec fn keys_decide(s: Seq<((Chars, Chars, u8), u32)>) -> bool {
    forall|i: int, j: int|
        0 <= i < s.len() && 0 <= j < s.len() && same_key(#[trigger] s[i].0, #[trigger] s[j].0) ==> s[i] == s[j]
}

proof fn lemma_sorted_unique(s1: Seq<((Chars, Chars, u8), u32)>, s2: Seq<((Chars, Chars, u8), u32)>)
    requires
        emission_sorted(s1),
        emission_sorted(s2),
        s1.to_multiset() == s2.to_multiset(),
        keys_decide(s1),
    ensures
        s1 == s2,
    decreases s1.len(),
{
    broadcast use vstd::seq_lib::group_to_multiset_ensures;

    vstd::seq_lib::to_multiset_len(s1);
    vstd::seq_lib::to_multiset_len(s2);
    assert(s1.len() == s2.len());
    if s1.len() > 0 {
        let n = s1.len() - 1;
        let l1 = s1.last();
        let l2 = s2.last();
        assert(s2.to_multiset().count(l2) > 0);
        assert(s1.contains(l2));
        assert(s1.to_multiset().count(l1) > 0);
        assert(s2.contains(l1));
        if l1 != l2 {
            let i = choose|i: int| 0 <= i < s1.len() && s1[i] == l2;
            let j = choose|j: int| 0 <= j < s2.len() && s2[j] == l1;
            assert(i < n);
            assert(j < n);
            assert(!inj_before(s1[n].0, s1[i].0));
            assert(!inj_before(s2[n].0, s2[j].0));
            if same_key(l1.0, l2.0) {
                assert(s1[i] == s1[n]);
            } else {
                lemma_before_total(l1.0, l2.0);
            }
        }
        let t1 = s1.drop_last();
        let t2 = s2.drop_last();
        assert(s1.remove(n) =~= t1);
        assert(s2.remove(n) =~= t2);
        assert(t1.to_multiset() == t2.to_multiset());
        assert forall|a: int, b: int| 0 <= a < b < t1.len() implies !inj_before(#[trigger] t1[b].0, #[trigger] t1[a].0) by {
            assert(t1[a] == s1[a] && t1[b] == s1[b]);
        }
        assert forall|a: int, b: int| 0 <= a < b < t2.len() implies !inj_before(#[trigger] t2[b].0, #[trigger] t2[a].0) by {
            assert(t2[a] == s2[a] && t2[b] == s2[b]);
        }
        assert forall|a: int, b: int|
            0 <= a < t1.len() && 0 <= b < t1.len() && same_key(#[trigger] t1[a].0, #[trigger] t1[b].0) implies t1[a] == t1[b] by {
            assert(t1[a] == s1[a] && t1[b] == s1[b]);
        }
        lemma_sorted_unique(t1, t2);
        assert(s1 =~= t1.push(l1));
        assert(s2 =~= t2.push(l2));
    } else {
        assert(s1 =~= s2);
    }
}

/// Offers that are a reordering of each other, where no two offers of the same priority
/// come from the same plugin unless they are the same offer, sort into the same emission
/// order.
proof fn lemma_same_emission_order(
    xs: Seq<((Chars, Chars, u8), u32)>,
    ys: Seq<((Chars, Chars, u8), u32)>,
    budget: u32,
)
    requires
        xs.to_multiset() == ys.to_multiset(),
        keys_decide(xs),
    ensures
        sort_offers(xs) == sort_offers(ys),
        greedy(sort_offers(xs), budget) == greedy(sort_offers(ys), budget),
{
    broadcast use vstd::seq_lib::group_to_multiset_ensures;

    lemma_sort_offers(xs);
    lemma_sort_offers(ys);
    let s1 = sort_offers(xs);
    assert forall|a: int, b: int|
        0 <= a < s1.len() && 0 <= b < s1.len() && same_key(#[trigger] s1[a].0, #[trigger] s1[b].0) implies s1[a] == s1[b] by {
        assert(s1.contains(s1[a]));
        assert(s1.contains(s1[b]));
        assert(xs.to_multiset().count(s1[a]) > 0);
        assert(xs.to_multiset().count(s1[b]) > 0);
        assert(xs.contains(s1[a]));
        assert(xs.contains(s1[b]));
        let p = choose|p: int| 0 <= p < xs.len() && xs[p] == s1[a];
        let q = choose|q: int| 0 <= q < xs.len() && xs[q] == s1[b];
        assert(same_key(xs[p].0, xs[q].0));
    }
    lemma_sorted_unique(s1, sort_offers(ys));
}

/// The order in which plugins offer their injections does not change what [`apply`]
/// emits or drops: two offer lists (with their estimates) that are a reordering of each
/// other, where no two offers of the same priority come from the same plugin unless they
/// are the same offer, give the same text and the same drop notes.
pub proof fn law_apply_ignores_offer_order(
    o1: Seq<Injection>,
    t1: Seq<u32>,
    o2: Seq<Injection>,
    t2: Seq<u32>,
    budget: u32,
)
    requires
        o1.len() == t1.len(),
        o2.len() == t2.len(),
        offers_view(o1, t1).to_multiset() == offers_view(o2, t2).to_multiset(),
        keys_decide(offers_view(o1, t1)),
    ensures
        greedy(sort_offers(offers_view(o1, t1)), budget) == greedy(sort_offers(offers_view(o2, t2)), budget),
        join(greedy(sort_offers(offers_view(o1, t1)), budget).0, "\n"@) == join(
            greedy(sort_offers(offers_view(o2, t2)), budget).0,
            "\n"@,
        ),
{
    lemma_same_emission_order(offers_view(o1, t1), offers_view(o2, t2), budget);
}

/// Mapping two reorderings of each other gives two reorderings of each other.
proof fn lemma_map_keeps_reordering<A, B>(xs: Seq<A>, ys: Seq<A>, f: spec_fn(A) -> B)
    requires
        xs.to_multiset() == ys.to_multiset(),
    ensures
        xs.map_values(f).to_multiset() == ys.map_values(f).to_multiset(),
    decreases xs.len(),
{
    broadcast use vstd::seq_lib::group_to_multiset_ensures;

    vstd::seq_lib::to_multiset_len(xs);
    vstd::seq_lib::to_multiset_len(ys);
    if xs.len() == 0 {
        assert(ys.len() == 0);
        assert(xs.map_values(f) =~= ys.map_values(f));
    } else {
        let a = xs.last();
        assert(xs.to_multiset().count(a) > 0);
        assert(ys.contains(a));
        let j = choose|j: int| 0 <= j < ys.len() && ys[j] == a;
        let xr = xs.drop_last();
        let yr = ys.remove(j);
        assert(xs =~= xr.push(a));
        assert(xr.push(a).to_multiset() == xr.to_multiset().insert(a));
        assert(yr.to_multiset() == ys.to_multiset().remove(a));
        assert(xr.to_multiset() =~= yr.to_multiset());
        lemma_map_keeps_reordering(xr, yr, f);
        assert(xs.map_values(f) =~= xr.map_values(f).push(f(a)));
        assert(ys.map_values(f).remove(j) =~= yr.map_values(f));
        assert(ys.map_values(f)[j] == f(a));
        assert(ys.map_values(f).remove(j).to_multiset() == ys.map_values(f).to_multiset().remove(f(a)));
        assert(ys.map_values(f).to_multiset() =~= yr.map_values(f).to_multiset().insert(f(a)));
    }
}

/// The offers of `offered`, each with the estimate `est` gives its text.
pub open spec fn estimated(offered: Seq<Injection>, est: spec_fn(Chars) -> u32) -> Seq<((Chars, Chars, u8), u32)> {
    offered.map_values(|i: Injection| (inj_view(i), est(i.text@)))
}

/// The order in which plugins offer their injections does not change what [`apply`]
/// emits or drops, when each offer's estimate (`t1`, `t2`) is what one estimator gives
/// its text: two offer lists
/// that are a reordering of each other, where no two offers of the same priority come
/// from the same plugin unless they are the same offer, give the same text and the same
/// drop notes.
pub proof fn law_apply_ignores_offer_order_for_an_estimator(
    o1: Seq<Injection>,
    t1: Seq<u32>,
    o2: Seq<Injection>,
    t2: Seq<u32>,
    est: spec_fn(Chars) -> u32,
    budget: u32,
)
    requires
        t1.len() == o1.len(),
        t2.len() == o2.len(),
        forall|i: int| 0 <= i < o1.len() ==> #[trigger] t1[i] == est(o1[i].text@),
        forall|i: int| 0 <= i < o2.len() ==> #[trigger] t2[i] == est(o2[i].text@),
        o1.map_values(|i: Injection| inj_view(i)).to_multiset() == o2.map_values(
            |i: Injection| inj_view(i),
        ).to_multiset(),
        forall|a: int, b: int|
            0 <= a < o1.len() && 0 <= b < o1.len() && same_key(
                #[trigger] inj_view(o1[a]),
                #[trigger] inj_view(o1[b]),
            ) ==> inj_view(o1[a]) == inj_view(o1[b]),
    ensures
        greedy(sort_offers(offers_view(o1, t1)), budget) == greedy(sort_offers(offers_view(o2, t2)), budget),
{
    assert(offers_view(o1, t1) =~= estimated(o1, est));
    assert(offers_view(o2, t2) =~= estimated(o2, est));
    let v1 = o1.map_values(|i: Injection| inj_view(i));
    let v2 = o2.map_values(|i: Injection| inj_view(i));
    let f = |v: (Chars, Chars, u8)| (v, est(v.1));
    lemma_map_keeps_reordering(v1, v2, f);
    assert(v1.map_values(f) =~= estimated(o1, est));
    assert(v2.map_values(f) =~= estimated(o2, est));
    let e1 = estimated(o1, est);
    assert forall|a: int, b: int|
        0 <= a < e1.len() && 0 <= b < e1.len() && same_key(#[trigger] e1[a].0, #[trigger] e1[b].0) implies e1[a] == e1[b] by {
        assert(e1[a].0 == inj_view(o1[a]));
        assert(e1[b].0 == inj_view(o1[b]));
    }
    lemma_same_emission_order(e1, estimated(o2, est), budget);
}

} // verus!
