//! The PDF report's layout: the same eight sections as every other rendering, as
//! paragraphs and bar charts; paragraphs word-wrapped to the page width; and the flow of
//! headings, lines and charts onto pages, a chart never split and a heading never left
//! alone at the bottom of a page. Drawing the pages is left to the PDF writer.

use vstd::prelude::*;

use crate::report::{Document, ReportCache, ReportCallsSection, ReportExpand, ReportSavingsSection, ReportWindow};
use crate::graph::byte_len;
use crate::text::{dec_int, dec_nat, join, push_i64, push_u64, views, Chars};

verus! {

/// A block of a section: a paragraph, or a bar chart of labelled values.
pub enum PdfBlock {
    Para(String),
    Chart { title: String, pairs: Vec<(String, i64)> },
}

/// [`PdfBlock`] as a value.
pub enum PdfBlockV {
    Para(Chars),
    Chart(Chars, Seq<(Chars, i64)>),
}

/// Labelled values as values.
pub open spec fn pairs_view(p: Seq<(String, i64)>) -> Seq<(Chars, i64)> {
    Seq::new(p.len(), |i: int| (p[i].0@, p[i].1))
}

impl View for PdfBlock {
    type V = PdfBlockV;

    open spec fn view(&self) -> PdfBlockV {
        match self {
            PdfBlock::Para(s) => PdfBlockV::Para(s@),
            PdfBlock::Chart { title, pairs } => PdfBlockV::Chart(title@, pairs_view(pairs@)),
        }
    }
}

/// Blocks as values.
pub open spec fn blocks_view(b: Seq<PdfBlock>) -> Seq<PdfBlockV> {
    Seq::new(b.len(), |i: int| b[i]@)
}

/// One section: its title and its blocks.
pub struct PdfSection {
    pub title: String,
    pub blocks: Vec<PdfBlock>,
}

/// Lines as paragraphs.
pub open spec fn paras(lines: Seq<Chars>) -> Seq<PdfBlockV> {
    Seq::new(lines.len(), |i: int| PdfBlockV::Para(lines[i]))
}

/// The Window section: calls in and out of the window, the two ledgers without row
/// times, and a note when the store is empty.
pub open spec fn window_pdf(w: ReportWindow) -> Seq<PdfBlockV> {
    let lines = seq![
        "calls: "@ + dec_nat(w.calls_in_window as nat) + " of "@ + dec_nat(w.calls_total as nat)
            + " in window ("@ + w.since@ + ")"@,
        "measurements: "@ + dec_nat(w.measurements as nat) + " (whole ledger, no row times)"@,
        "usage: "@ + dec_nat(w.usage as nat) + " (whole ledger, no row times)"@,
    ];
    paras(
        if w.calls_total == 0 && w.measurements == 0 && w.usage == 0 {
            lines.push("No rows in window. The store has no rows to report."@)
        } else {
            lines
        },
    )
}

/// One plugin's savings line.
pub open spec fn savings_line(sav: ReportSavingsSection, i: int) -> Chars {
    let r = sav.rows@[i];
    r.plugin@ + ": "@ + dec_nat(r.rows as nat) + " rows, est "@ + dec_int(r.est_before as int)
        + " -> "@ + dec_int(r.est_after as int) + ", saved "@ + dec_int(r.saved as int)
}

/// The Savings section: a line per plugin and the total, then a chart of the saved tokens.
pub open spec fn savings_pdf(sav: ReportSavingsSection) -> Seq<PdfBlockV> {
    let head = seq!["Estimated tokens from Measurement rows only (est_before - est_after, net)."@];
    let n = sav.rows@.len();
    if n == 0 {
        paras(head.push("No rows in window."@))
    } else {
        paras(
            head + Seq::new(n, |i: int| savings_line(sav, i)).push(
                "Total: "@ + dec_int(sav.total_saved as int) + " est tokens over "@ + dec_nat(
                    sav.total_rows as nat,
                ) + " Measurement rows."@,
            ),
        ).push(
            PdfBlockV::Chart(
                "saved tokens per plugin"@,
                Seq::new(n, |i: int| (sav.rows@[i].plugin@, sav.rows@[i].saved)),
            ),
        )
    }
}

/// A latency as formatted, `—` when the surface timed no call.
pub open spec fn ms_pdf(v: Option<String>) -> Chars {
    match v {
        Some(s) => s@,
        None => "—"@,
    }
}

/// One surface's latency line.
pub open spec fn calls_line(calls: ReportCallsSection, i: int) -> Chars {
    let r = calls.rows@[i];
    r.surface@ + ": "@ + dec_nat(r.calls as nat) + " calls, "@ + dec_nat(r.timed as nat)
        + " timed, p50 "@ + ms_pdf(r.p50_ms) + " ms, p95 "@ + ms_pdf(r.p95_ms) + " ms"@
}

/// The Calls section: latency per surface and the window's share of the calls, then a
/// chart of the calls per surface.
pub open spec fn calls_pdf(calls: ReportCallsSection, since: Chars) -> Seq<PdfBlockV> {
    let head = seq!["Latency per surface, nearest-rank p50/p95 over timed calls."@];
    let n = calls.rows@.len();
    if calls.total == 0 {
        paras(head.push("No rows in window."@))
    } else {
        paras(
            head + Seq::new(n, |i: int| calls_line(calls, i)).push(
                dec_nat(calls.in_window as nat) + " of "@ + dec_nat(calls.total as nat)
                    + " calls rows in window ("@ + since + ")."@,
            ),
        ).push(
            PdfBlockV::Chart(
                "calls per surface"@,
                Seq::new(n, |i: int| (calls.rows@[i].surface@, calls.rows@[i].calls as i64)),
            ),
        )
    }
}

/// The Cache section: busts per cause and the totals, then a chart of the busts.
pub open spec fn cache_pdf(cache: ReportCache) -> Seq<PdfBlockV> {
    let head = seq!["Prompt-cache busts by cause, from the proxy usage rows."@];
    let n = cache.by_cause@.len();
    if cache.sessions == 0 {
        paras(head.push("No rows in window."@))
    } else {
        paras(
            head + Seq::new(n, |i: int| cache.by_cause@[i].0@ + ": "@ + dec_nat(cache.by_cause@[i].1 as nat))
                .push(
                "Busts: "@ + dec_nat(cache.busts as nat) + " over "@ + dec_nat(cache.turns as nat)
                    + " turns in "@ + dec_nat(cache.sessions as nat) + " session(s)."@,
            ),
        ).push(
            PdfBlockV::Chart(
                "busts per cause"@,
                Seq::new(n, |i: int| (cache.by_cause@[i].0@, cache.by_cause@[i].1 as i64)),
            ),
        )
    }
}

/// The Expand section: how many live-zone pointers were frozen, and which.
pub open spec fn expand_pdf(e: ReportExpand) -> Seq<PdfBlockV> {
    if e.decisions == 0 {
        paras(seq!["No rows in window."@])
    } else {
        let what = if e.expanded_ids@.len() == 0 {
            "none"@
        } else {
            join(views(e.expanded_ids@), ", "@)
        };
        paras(
            seq![
                "rtok expand froze "@ + dec_int(e.expanded as int) + " of "@ + dec_int(e.decisions as int)
                    + " live-zone pointers ("@ + e.rate_pct@ + "%). Expanded: "@ + what + "."@,
            ],
        )
    }
}

/// The Config section: every effective key with its origin, then the count.
pub open spec fn config_pdf(doc: Document) -> Seq<PdfBlockV> {
    let c = doc.config@;
    paras(
        seq!["Every effective key with its origin (config show --sources)."@] + Seq::new(
            c.len(),
            |i: int| c[i].key@ + " = "@ + c[i].value@ + " ("@ + c[i].source@ + ")"@,
        ).push(dec_nat(c.len()) + " keys."@),
    )
}

/// The Doctor section: the doctor page, line by line.
pub open spec fn doctor_pdf(doc: Document) -> Seq<PdfBlockV> {
    paras(seq!["Live probes (the rtok doctor page), not store rows."@] + crate::text::lines(doc.doctor@))
}

/// The Recommendations section: one line per recommendation, or a note that there is none.
pub open spec fn recommendations_pdf(doc: Document) -> Seq<PdfBlockV> {
    let r = doc.recommendations@;
    if r.len() == 0 {
        paras(seq!["No recommendations."@])
    } else {
        paras(Seq::new(r.len(), |i: int| r[i].rule@ + ": "@ + r[i].finding@ + " ("@ + r[i].evidence@ + ")"@))
    }
}

/// The title of section `i`.
pub open spec fn pdf_title(i: int) -> Chars {
    if i == 0 {
        "Window"@
    } else if i == 1 {
        "Savings"@
    } else if i == 2 {
        "Calls"@
    } else if i == 3 {
        "Cache"@
    } else if i == 4 {
        "Expand"@
    } else if i == 5 {
        "Config"@
    } else if i == 6 {
        "Doctor"@
    } else {
        "Recommendations"@
    }
}

/// The blocks of section `i`.
pub open spec fn pdf_blocks(doc: Document, i: int) -> Seq<PdfBlockV> {
    let l = doc.ledgers;
    if i == 0 {
        window_pdf(l.window)
    } else if i == 1 {
        savings_pdf(l.savings)
    } else if i == 2 {
        calls_pdf(l.calls, l.window.since@)
    } else if i == 3 {
        cache_pdf(l.cache)
    } else if i == 4 {
        expand_pdf(l.expand)
    } else if i == 5 {
        config_pdf(doc)
    } else if i == 6 {
        doctor_pdf(doc)
    } else {
        recommendations_pdf(doc)
    }
}

/// The eight sections, in the report's order.
pub open spec fn sections_spec(doc: Document) -> Seq<(Chars, Seq<PdfBlockV>)> {
    Seq::new(8, |i: int| (pdf_title(i), pdf_blocks(doc, i)))
}

/// Appends a paragraph.
fn push_para(blocks: &mut Vec<PdfBlock>, line: String)
    ensures
        blocks_view(final(blocks)@) == blocks_view(old(blocks)@).push(PdfBlockV::Para(line@)),
{
    let ghost before = blocks@;
    blocks.push(PdfBlock::Para(line));
    assert(blocks_view(blocks@) =~= blocks_view(before).push(PdfBlockV::Para(line@)));
}

/// [`window_pdf`].
fn window_blocks(w: &ReportWindow) -> (r: Vec<PdfBlock>)
    ensures
        blocks_view(r@) == window_pdf(*w),
{
    let mut b: Vec<PdfBlock> = Vec::new();
    let mut s = "calls: ".to_owned();
    push_u64(&mut s, w.calls_in_window);
    s.append(" of ");
    push_u64(&mut s, w.calls_total);
    s.append(" in window (");
    s.append(w.since.as_str());
    s.append(")");
    push_para(&mut b, s);
    let mut s = "measurements: ".to_owned();
    push_u64(&mut s, w.measurements);
    s.append(" (whole ledger, no row times)");
    push_para(&mut b, s);
    let mut s = "usage: ".to_owned();
    push_u64(&mut s, w.usage);
    s.append(" (whole ledger, no row times)");
    push_para(&mut b, s);
    if w.calls_total == 0 && w.measurements == 0 && w.usage == 0 {
        push_para(&mut b, "No rows in window. The store has no rows to report.".to_owned());
    }
    assert(blocks_view(b@) =~= window_pdf(*w));
    b
}

/// [`savings_pdf`].
fn savings_blocks(sav: &ReportSavingsSection) -> (r: Vec<PdfBlock>)
    ensures
        blocks_view(r@) == savings_pdf(*sav),
{
    let mut b: Vec<PdfBlock> = Vec::new();
    push_para(&mut b, "Estimated tokens from Measurement rows only (est_before - est_after, net).".to_owned());
    let n = sav.rows.len();
    if n == 0 {
        push_para(&mut b, "No rows in window.".to_owned());
        assert(blocks_view(b@) =~= savings_pdf(*sav));
        return b;
    }
    let ghost head = seq!["Estimated tokens from Measurement rows only (est_before - est_after, net)."@];
    let ghost lines = Seq::new(n as nat, |i: int| savings_line(*sav, i));
    let mut pairs: Vec<(String, i64)> = Vec::new();
    let mut i: usize = 0;
    while i < n
        invariant
            n == sav.rows@.len(),
            i <= n,
            lines == Seq::new(n as nat, |m: int| savings_line(*sav, m)),
            blocks_view(b@) == paras(head + lines.take(i as int)),
            pairs_view(pairs@) == Seq::new(i as nat, |m: int| (sav.rows@[m].plugin@, sav.rows@[m].saved)),
        decreases n - i,
    {
        let r = &sav.rows[i];
        let mut s = crate::text::copy_str(r.plugin.as_str());
        s.append(": ");
        push_u64(&mut s, r.rows);
        s.append(" rows, est ");
        push_i64(&mut s, r.est_before);
        s.append(" -> ");
        push_i64(&mut s, r.est_after);
        s.append(", saved ");
        push_i64(&mut s, r.saved);
        let ghost bb = blocks_view(b@);
        push_para(&mut b, s);
        assert(paras(head + lines.take(i + 1)) =~= bb.push(PdfBlockV::Para(s@)));
        let ghost pb = pairs@;
        let label = crate::text::copy_str(r.plugin.as_str());
        pairs.push((label, r.saved));
        assert(pairs_view(pairs@) =~= pairs_view(pb).push((r.plugin@, r.saved)));
        assert(pairs_view(pairs@) =~= Seq::new((i + 1) as nat, |m: int| (sav.rows@[m].plugin@, sav.rows@[m].saved)));
        i += 1;
    }
    let mut s = "Total: ".to_owned();
    push_i64(&mut s, sav.total_saved);
    s.append(" est tokens over ");
    push_u64(&mut s, sav.total_rows);
    s.append(" Measurement rows.");
    let ghost bb = blocks_view(b@);
    push_para(&mut b, s);
    assert(lines.take(n as int) =~= lines);
    assert(paras((head + lines).push(s@)) =~= bb.push(PdfBlockV::Para(s@)));
    let ghost bc = blocks_view(b@);
    let title = "saved tokens per plugin".to_owned();
    let ghost pv = pairs_view(pairs@);
    b.push(PdfBlock::Chart { title, pairs });
    assert(blocks_view(b@) =~= bc.push(PdfBlockV::Chart("saved tokens per plugin"@, pv)));
    b
}

/// [`calls_pdf`].
fn calls_blocks(calls: &ReportCallsSection, since: &str) -> (r: Vec<PdfBlock>)
    ensures
        blocks_view(r@) == calls_pdf(*calls, since@),
{
    let mut b: Vec<PdfBlock> = Vec::new();
    push_para(&mut b, "Latency per surface, nearest-rank p50/p95 over timed calls.".to_owned());
    if calls.total == 0 {
        push_para(&mut b, "No rows in window.".to_owned());
        assert(blocks_view(b@) =~= calls_pdf(*calls, since@));
        return b;
    }
    let n = calls.rows.len();
    let ghost head = seq!["Latency per surface, nearest-rank p50/p95 over timed calls."@];
    let ghost lines = Seq::new(n as nat, |i: int| calls_line(*calls, i));
    let mut pairs: Vec<(String, i64)> = Vec::new();
    let mut i: usize = 0;
    while i < n
        invariant
            n == calls.rows@.len(),
            i <= n,
            lines == Seq::new(n as nat, |m: int| calls_line(*calls, m)),
            blocks_view(b@) == paras(head + lines.take(i as int)),
            pairs_view(pairs@) == Seq::new(i as nat, |m: int| (calls.rows@[m].surface@, calls.rows@[m].calls as i64)),
        decreases n - i,
    {
        let r = &calls.rows[i];
        let mut s = crate::text::copy_str(r.surface.as_str());
        s.append(": ");
        push_u64(&mut s, r.calls);
        s.append(" calls, ");
        push_u64(&mut s, r.timed);
        s.append(" timed, p50 ");
        match &r.p50_ms {
            Some(x) => s.append(x.as_str()),
            None => s.append("—"),
        }
        s.append(" ms, p95 ");
        match &r.p95_ms {
            Some(x) => s.append(x.as_str()),
            None => s.append("—"),
        }
        s.append(" ms");
        let ghost bb = blocks_view(b@);
        push_para(&mut b, s);
        assert(paras(head + lines.take(i + 1)) =~= bb.push(PdfBlockV::Para(s@)));
        let ghost pb = pairs@;
        let label = crate::text::copy_str(r.surface.as_str());
        let v: i64 = #[verifier::truncate] (r.calls as i64);
        pairs.push((label, v));
        assert(pairs_view(pairs@) =~= pairs_view(pb).push((r.surface@, r.calls as i64)));
        assert(pairs_view(pairs@) =~= Seq::new((i + 1) as nat, |m: int| (calls.rows@[m].surface@, calls.rows@[m].calls as i64)));
        i += 1;
    }
    let mut s = String::new();
    push_u64(&mut s, calls.in_window);
    s.append(" of ");
    push_u64(&mut s, calls.total);
    s.append(" calls rows in window (");
    s.append(since);
    s.append(").");
    let ghost bb = blocks_view(b@);
    push_para(&mut b, s);
    assert(lines.take(n as int) =~= lines);
    assert(paras((head + lines).push(s@)) =~= bb.push(PdfBlockV::Para(s@)));
    let ghost bc = blocks_view(b@);
    let ghost pv = pairs_view(pairs@);
    b.push(PdfBlock::Chart { title: "calls per surface".to_owned(), pairs });
    assert(blocks_view(b@) =~= bc.push(PdfBlockV::Chart("calls per surface"@, pv)));
    b
}

/// [`cache_pdf`].
fn cache_blocks(cache: &ReportCache) -> (r: Vec<PdfBlock>)
    ensures
        blocks_view(r@) == cache_pdf(*cache),
{
    let mut b: Vec<PdfBlock> = Vec::new();
    push_para(&mut b, "Prompt-cache busts by cause, from the proxy usage rows.".to_owned());
    if cache.sessions == 0 {
        push_para(&mut b, "No rows in window.".to_owned());
        assert(blocks_view(b@) =~= cache_pdf(*cache));
        return b;
    }
    let n = cache.by_cause.len();
    let ghost head = seq!["Prompt-cache busts by cause, from the proxy usage rows."@];
    let ghost lines = Seq::new(n as nat, |i: int| cache.by_cause@[i].0@ + ": "@ + dec_nat(cache.by_cause@[i].1 as nat));
    let mut pairs: Vec<(String, i64)> = Vec::new();
    let mut i: usize = 0;
    while i < n
        invariant
            n == cache.by_cause@.len(),
            i <= n,
            lines == Seq::new(n as nat, |m: int| cache.by_cause@[m].0@ + ": "@ + dec_nat(cache.by_cause@[m].1 as nat)),
            blocks_view(b@) == paras(head + lines.take(i as int)),
            pairs_view(pairs@) == Seq::new(i as nat, |m: int| (cache.by_cause@[m].0@, cache.by_cause@[m].1 as i64)),
        decreases n - i,
    {
        let c = &cache.by_cause[i];
        let mut s = crate::text::copy_str(c.0.as_str());
        s.append(": ");
        push_u64(&mut s, c.1);
        let ghost bb = blocks_view(b@);
        push_para(&mut b, s);
        assert(paras(head + lines.take(i + 1)) =~= bb.push(PdfBlockV::Para(s@)));
        let ghost pb = pairs@;
        let label = crate::text::copy_str(c.0.as_str());
        let v: i64 = #[verifier::truncate] (c.1 as i64);
        pairs.push((label, v));
        assert(pairs_view(pairs@) =~= pairs_view(pb).push((c.0@, c.1 as i64)));
        assert(pairs_view(pairs@) =~= Seq::new((i + 1) as nat, |m: int| (cache.by_cause@[m].0@, cache.by_cause@[m].1 as i64)));
        i += 1;
    }
    let mut s = "Busts: ".to_owned();
    push_u64(&mut s, cache.busts);
    s.append(" over ");
    push_u64(&mut s, cache.turns);
    s.append(" turns in ");
    push_u64(&mut s, cache.sessions);
    s.append(" session(s).");
    let ghost bb = blocks_view(b@);
    push_para(&mut b, s);
    assert(lines.take(n as int) =~= lines);
    assert(paras((head + lines).push(s@)) =~= bb.push(PdfBlockV::Para(s@)));
    let ghost bc = blocks_view(b@);
    let ghost pv = pairs_view(pairs@);
    b.push(PdfBlock::Chart { title: "busts per cause".to_owned(), pairs });
    assert(blocks_view(b@) =~= bc.push(PdfBlockV::Chart("busts per cause"@, pv)));
    b
}

/// [`expand_pdf`].
fn expand_blocks(e: &ReportExpand) -> (r: Vec<PdfBlock>)
    ensures
        blocks_view(r@) == expand_pdf(*e),
{
    let mut b: Vec<PdfBlock> = Vec::new();
    if e.decisions == 0 {
        push_para(&mut b, "No rows in window.".to_owned());
        assert(blocks_view(b@) =~= expand_pdf(*e));
        return b;
    }
    let what = if e.expanded_ids.len() == 0 {
        "none".to_owned()
    } else {
        crate::text::join_strings(e.expanded_ids.as_slice(), ", ")
    };
    let mut s = "rtok expand froze ".to_owned();
    push_i64(&mut s, e.expanded);
    s.append(" of ");
    push_i64(&mut s, e.decisions);
    s.append(" live-zone pointers (");
    s.append(e.rate_pct.as_str());
    s.append("%). Expanded: ");
    s.append(what.as_str());
    s.append(".");
    push_para(&mut b, s);
    assert(blocks_view(b@) =~= expand_pdf(*e));
    b
}

/// [`config_pdf`].
fn config_blocks(doc: &Document) -> (r: Vec<PdfBlock>)
    ensures
        blocks_view(r@) == config_pdf(*doc),
{
    let mut b: Vec<PdfBlock> = Vec::new();
    push_para(&mut b, "Every effective key with its origin (config show --sources).".to_owned());
    let n = doc.config.len();
    let ghost c = doc.config@;
    let ghost head = seq!["Every effective key with its origin (config show --sources)."@];
    let ghost lines = Seq::new(c.len(), |i: int| c[i].key@ + " = "@ + c[i].value@ + " ("@ + c[i].source@ + ")"@);
    let mut i: usize = 0;
    while i < n
        invariant
            n == c.len(),
            c == doc.config@,
            i <= n,
            lines == Seq::new(c.len(), |m: int| c[m].key@ + " = "@ + c[m].value@ + " ("@ + c[m].source@ + ")"@),
            blocks_view(b@) == paras(head + lines.take(i as int)),
        decreases n - i,
    {
        let e = &doc.config[i];
        let mut s = crate::text::copy_str(e.key.as_str());
        s.append(" = ");
        s.append(e.value.as_str());
        s.append(" (");
        s.append(e.source.as_str());
        s.append(")");
        let ghost bb = blocks_view(b@);
        push_para(&mut b, s);
        assert(paras(head + lines.take(i + 1)) =~= bb.push(PdfBlockV::Para(s@)));
        i += 1;
    }
    let mut s = String::new();
    push_u64(&mut s, n as u64);
    s.append(" keys.");
    let ghost bb = blocks_view(b@);
    push_para(&mut b, s);
    assert(lines.take(n as int) =~= lines);
    assert(paras((head + lines).push(s@)) =~= bb.push(PdfBlockV::Para(s@)));
    b
}

/// [`doctor_pdf`].
fn doctor_blocks(doc: &Document) -> (r: Vec<PdfBlock>)
    ensures
        blocks_view(r@) == doctor_pdf(*doc),
{
    let mut b: Vec<PdfBlock> = Vec::new();
    push_para(&mut b, "Live probes (the rtok doctor page), not store rows.".to_owned());
    let ls = crate::text::lines_vec(doc.doctor.as_str());
    let ghost lv = views(ls@);
    let ghost head = seq!["Live probes (the rtok doctor page), not store rows."@];
    let mut i: usize = 0;
    while i < ls.len()
        invariant
            i <= ls@.len(),
            lv == views(ls@),
            blocks_view(b@) == paras(head + lv.take(i as int)),
        decreases ls@.len() - i,
    {
        let line = crate::text::copy_str(ls[i].as_str());
        let ghost bb = blocks_view(b@);
        push_para(&mut b, line);
        assert(paras(head + lv.take(i + 1)) =~= bb.push(PdfBlockV::Para(lv[i as int])));
        i += 1;
    }
    assert(lv.take(lv.len() as int) =~= lv);
    b
}

/// [`recommendations_pdf`].
fn recommendations_blocks(doc: &Document) -> (r: Vec<PdfBlock>)
    ensures
        blocks_view(r@) == recommendations_pdf(*doc),
{
    let mut b: Vec<PdfBlock> = Vec::new();
    let n = doc.recommendations.len();
    if n == 0 {
        push_para(&mut b, "No recommendations.".to_owned());
        assert(blocks_view(b@) =~= recommendations_pdf(*doc));
        return b;
    }
    let ghost rs = doc.recommendations@;
    let ghost lines = Seq::new(rs.len(), |i: int| rs[i].rule@ + ": "@ + rs[i].finding@ + " ("@ + rs[i].evidence@ + ")"@);
    let mut i: usize = 0;
    while i < n
        invariant
            n == rs.len(),
            rs == doc.recommendations@,
            i <= n,
            lines == Seq::new(rs.len(), |m: int| rs[m].rule@ + ": "@ + rs[m].finding@ + " ("@ + rs[m].evidence@ + ")"@),
            blocks_view(b@) == paras(lines.take(i as int)),
        decreases n - i,
    {
        let r = &doc.recommendations[i];
        let mut s = crate::text::copy_str(r.rule.as_str());
        s.append(": ");
        s.append(r.finding.as_str());
        s.append(" (");
        s.append(r.evidence.as_str());
        s.append(")");
        let ghost bb = blocks_view(b@);
        push_para(&mut b, s);
        assert(paras(lines.take(i + 1)) =~= bb.push(PdfBlockV::Para(s@)));
        i += 1;
    }
    assert(lines.take(n as int) =~= lines);
    b
}

/// Sections as values.
pub open spec fn sections_view(v: Seq<PdfSection>) -> Seq<(Chars, Seq<PdfBlockV>)> {
    Seq::new(v.len(), |i: int| (v[i].title@, blocks_view(v[i].blocks@)))
}

/// [`sections_spec`]: the report's eight sections, straight from the document.
pub fn sections(doc: &Document) -> (v: Vec<PdfSection>)
    ensures
        sections_view(v@) == sections_spec(*doc),
{
    let l = &doc.ledgers;
    let mut v: Vec<PdfSection> = Vec::new();
    v.push(PdfSection { title: "Window".to_owned(), blocks: window_blocks(&l.window) });
    v.push(PdfSection { title: "Savings".to_owned(), blocks: savings_blocks(&l.savings) });
    v.push(PdfSection { title: "Calls".to_owned(), blocks: calls_blocks(&l.calls, l.window.since.as_str()) });
    v.push(PdfSection { title: "Cache".to_owned(), blocks: cache_blocks(&l.cache) });
    v.push(PdfSection { title: "Expand".to_owned(), blocks: expand_blocks(&l.expand) });
    v.push(PdfSection { title: "Config".to_owned(), blocks: config_blocks(doc) });
    v.push(PdfSection { title: "Doctor".to_owned(), blocks: doctor_blocks(doc) });
    v.push(PdfSection { title: "Recommendations".to_owned(), blocks: recommendations_blocks(doc) });
    assert(sections_view(v@) =~= sections_spec(*doc));
    v
}

/// A word cut into pieces of `width` characters (the last one shorter); a word that fits
/// stays whole.
pub open spec fn split_word_spec(w: Chars, width: nat) -> Seq<Chars>
    decreases w.len(),
{
    if w.len() <= width || width == 0 {
        seq![w]
    } else {
        seq![w.take(width as int)] + split_word_spec(w.skip(width as int), width)
    }
}

/// [`split_word_spec`]: cut on characters, so that no character is split.
pub fn split_word(word: &str, width: usize) -> (r: Vec<String>)
    requires
        width > 0,
    ensures
        views(r@) == split_word_spec(word@, width as nat),
{
    let c = crate::text::chars_of(word);
    let n = c.len();
    let mut out: Vec<String> = Vec::new();
    if n <= width {
        out.push(crate::text::copy_str(word));
        assert(views(out@) =~= split_word_spec(word@, width as nat));
        return out;
    }
    let mut at: usize = 0;
    assert(c@.skip(0) =~= c@);
    while n - at > width
        invariant
            c@ == word@,
            n == c@.len(),
            at <= n,
            width > 0,
            views(out@) + split_word_spec(c@.skip(at as int), width as nat) == split_word_spec(word@, width as nat),
        decreases n - at,
    {
        let piece = crate::text::string_of(c.as_slice(), at, at + width);
        let ghost before = out@;
        out.push(piece);
        assert(c@.skip(at as int).take(width as int) =~= c@.subrange(at as int, at + width));
        assert(c@.skip(at as int).skip(width as int) =~= c@.skip(at + width));
        assert(views(out@) =~= views(before).push(piece@));
        assert(views(out@) + split_word_spec(c@.skip(at + width), width as nat)
            =~= views(before) + split_word_spec(c@.skip(at as int), width as nat));
        at = at + width;
    }
    let last = crate::text::string_of(c.as_slice(), at, n);
    let ghost before = out@;
    out.push(last);
    assert(c@.skip(at as int) =~= c@.subrange(at as int, n as int));
    assert(views(out@) =~= views(before).push(last@));
    assert(views(out@) =~= views(before) + split_word_spec(c@.skip(at as int), width as nat));
    out
}

/// The pieces of every word of `words`, in order.
pub open spec fn pieces_of(words: Seq<Chars>, width: nat) -> Seq<Chars>
    decreases words.len(),
{
    if words.len() == 0 {
        Seq::empty()
    } else {
        pieces_of(words.drop_last(), width) + split_word_spec(words.last(), width)
    }
}

/// One piece placed: the open line is closed first when the piece would carry it past
/// `width` bytes with the space before it; the piece then joins the open line, after a
/// space unless the line is empty.
pub open spec fn place(st: (Seq<Chars>, Chars), p: Chars, width: nat) -> (Seq<Chars>, Chars) {
    let (lines, cur) = if st.1.len() > 0 && byte_len(st.1) + 1 + byte_len(p) > width {
        (st.0.push(st.1), Seq::<char>::empty())
    } else {
        st
    };
    (lines, if cur.len() > 0 {
        cur + " "@ + p
    } else {
        cur + p
    })
}

/// [`place`] over every piece of `ps`, in order.
pub open spec fn place_all(ps: Seq<Chars>, width: nat) -> (Seq<Chars>, Chars)
    decreases ps.len(),
{
    if ps.len() == 0 {
        (Seq::empty(), Seq::empty())
    } else {
        place(place_all(ps.drop_last(), width), ps.last(), width)
    }
}

/// A paragraph wrapped to `width` bytes a line, words split at spaces and overlong words
/// cut into pieces; the open line ends the paragraph unless it is empty.
pub open spec fn wrap_spec(s: Chars, width: nat) -> Seq<Chars> {
    let (lines, cur) = place_all(pieces_of(crate::text::split_char(s, ' '), width), width);
    if cur.len() > 0 {
        lines.push(cur)
    } else {
        lines
    }
}

/// [`wrap_spec`].
pub fn wrap(s: &str, width: usize) -> (r: Vec<String>)
    requires
        width > 0,
    ensures
        views(r@) == wrap_spec(s@, width as nat),
{
    let words = crate::text::split_vec(s, ' ');
    let ghost wv = views(words@);
    let mut lines: Vec<String> = Vec::new();
    let mut cur = String::new();
    let mut i: usize = 0;
    while i < words.len()
        invariant
            i <= words@.len(),
            width > 0,
            wv == views(words@),
            wv == crate::text::split_char(s@, ' '),
            (views(lines@), cur@) == place_all(pieces_of(wv.take(i as int), width as nat), width as nat),
        decreases words@.len() - i,
    {
        let pieces = split_word(words[i].as_str(), width);
        let ghost done = pieces_of(wv.take(i as int), width as nat);
        let ghost pv = views(pieces@);
        let mut j: usize = 0;
        while j < pieces.len()
            invariant
                j <= pieces@.len(),
                pv == views(pieces@),
                (views(lines@), cur@) == place_all(done + pv.take(j as int), width as nat),
            decreases pieces@.len() - j,
        {
            let piece = pieces[j].as_str();
            let cl = cur.as_str().len() as u128;
            let pl = piece.len() as u128;
            let ghost st = (views(lines@), cur@);
            assert(piece@ == pv[j as int]);
            assert(cl == byte_len(cur@));
            assert(pl == byte_len(piece@));
            let ghost mid = if st.1.len() > 0 && byte_len(st.1) + 1 + byte_len(piece@) > width {
                (st.0.push(st.1), Seq::<char>::empty())
            } else {
                st
            };
            assert((done + pv.take(j + 1)).drop_last() =~= done + pv.take(j as int));
            assert((done + pv.take(j + 1)).last() == pv[j as int]);
            if !cur.as_str().is_empty() && cl + 1 + pl > width as u128 {
                let closed = cur;
                let ghost before = lines@;
                lines.push(closed);
                assert(views(lines@) =~= views(before).push(closed@));
                cur = String::new();
            }
            assert((views(lines@), cur@) == mid);
            if !cur.as_str().is_empty() {
                cur.append(" ");
            }
            cur.append(piece);
            assert((views(lines@), cur@) == place(st, pv[j as int], width as nat));
            j += 1;
        }
        assert(pv.take(pv.len() as int) =~= pv);
        assert(wv.take(i + 1).drop_last() =~= wv.take(i as int));
        assert(pv == split_word_spec(wv[i as int], width as nat));
        i += 1;
    }
    assert(wv.take(wv.len() as int) =~= wv);
    if !cur.as_str().is_empty() {
        let ghost before = lines@;
        lines.push(cur);
        assert(views(lines@) =~= views(before).push(cur@));
    }
    lines
}

/// Body lines a page holds.
pub const LINES: usize = 58;

/// Columns a paragraph is wrapped to.
pub const WIDTH: usize = 100;

/// What a page shows: a section heading, one wrapped line, or a whole chart.
pub enum PageItem {
    Heading(String),
    Line(String),
    Chart { title: String, pairs: Vec<(String, i64)> },
}

/// [`PageItem`] as a value.
pub enum PageItemV {
    Heading(Chars),
    Line(Chars),
    Chart(Chars, Seq<(Chars, i64)>),
}

impl View for PageItem {
    type V = PageItemV;

    open spec fn view(&self) -> PageItemV {
        match self {
            PageItem::Heading(t) => PageItemV::Heading(t@),
            PageItem::Line(l) => PageItemV::Line(l@),
            PageItem::Chart { title, pairs } => PageItemV::Chart(title@, pairs_view(pairs@)),
        }
    }
}

/// Items as values.
pub open spec fn items_view(v: Seq<PageItem>) -> Seq<PageItemV> {
    Seq::new(v.len(), |i: int| v[i]@)
}

/// Pages as values.
pub open spec fn pages_view(v: Seq<Vec<PageItem>>) -> Seq<Seq<PageItemV>> {
    Seq::new(v.len(), |i: int| items_view(v[i]@))
}

/// The lines an item takes: three for a heading, one for a line, two plus a bar per pair
/// for a chart.
pub open spec fn cost(it: PageItemV) -> int {
    match it {
        PageItemV::Heading(_) => 3,
        PageItemV::Line(_) => 1,
        PageItemV::Chart(_, pairs) => pairs.len() as int + 2,
    }
}

/// The items of a block: a paragraph's wrapped lines, or the chart itself.
pub open spec fn block_items(b: PdfBlockV) -> Seq<PageItemV> {
    match b {
        PdfBlockV::Para(p) => {
            let ls = wrap_spec(p, WIDTH as nat);
            Seq::new(ls.len(), |i: int| PageItemV::Line(ls[i]))
        },
        PdfBlockV::Chart(t, ps) => seq![PageItemV::Chart(t, ps)],
    }
}

/// The items of every block of `bs`, in order.
pub open spec fn blocks_items(bs: Seq<PdfBlockV>) -> Seq<PageItemV>
    decreases bs.len(),
{
    if bs.len() == 0 {
        Seq::empty()
    } else {
        blocks_items(bs.drop_last()) + block_items(bs.last())
    }
}

/// A section's items: its heading, then its blocks'.
pub open spec fn section_items(sec: (Chars, Seq<PdfBlockV>)) -> Seq<PageItemV> {
    seq![PageItemV::Heading(sec.0)] + blocks_items(sec.1)
}

/// How many items from `i` on fit in `budget` lines, taken greedily in order.
pub open spec fn fit_from(items: Seq<PageItemV>, i: int, budget: int) -> int
    decreases items.len() - i,
{
    if i < 0 || i >= items.len() || cost(items[i]) > budget {
        0
    } else {
        1 + fit_from(items, i + 1, budget - cost(items[i]))
    }
}

/// How many items from `k` on the page takes with `rest` lines left: as many as fit, but
/// none when that would leave the section's heading alone at the bottom of the page. A
/// fresh page always takes something: where nothing fits there (a chart taller than a
/// page), the chart is placed whole on it, with the heading that introduces it.
pub open spec fn chunk_spec(items: Seq<PageItemV>, k: int, rest: int) -> int {
    let m = fit_from(items, k, rest);
    let c = if m == 1 && items[k] is Heading && k + 1 < items.len() {
        0
    } else {
        m
    };
    if c == 0 && rest >= LINES {
        if items[k] is Heading && k + 1 < items.len() {
            2
        } else {
            1
        }
    } else {
        c
    }
}

/// The pages after flowing `items` from `pos` on: each step either fills the last page
/// with the next chunk (noting the page a section starts on) or, when nothing may go
/// there, opens a new page.
pub open spec fn flow(
    items: Seq<PageItemV>,
    pos: int,
    pages: Seq<Seq<PageItemV>>,
    starts: Seq<int>,
    recorded: bool,
    fuel: nat,
) -> (Seq<Seq<PageItemV>>, Seq<int>)
    decreases fuel,
{
    if fuel == 0 || pos >= items.len() || pages.len() == 0 {
        (pages, starts)
    } else {
        let rest = LINES - pages.last().len();
        let m = chunk_spec(items, pos, rest);
        if m <= 0 {
            flow(items, pos, pages.push(Seq::empty()), starts, recorded, (fuel - 1) as nat)
        } else {
            let st = if recorded {
                starts
            } else {
                starts.push(pages.len() - 1)
            };
            flow(
                items,
                pos + m,
                pages.update(pages.len() - 1, pages.last() + items.subrange(pos, pos + m)),
                st,
                true,
                (fuel - 1) as nat,
            )
        }
    }
}

/// The pages of the first `k` sections, and the page each of them starts on.
pub open spec fn paginate_upto(secs: Seq<(Chars, Seq<PdfBlockV>)>, k: int) -> (Seq<Seq<PageItemV>>, Seq<int>)
    decreases k,
{
    if k <= 0 {
        (seq![Seq::empty()], Seq::empty())
    } else {
        let (pages, starts) = paginate_upto(secs, k - 1);
        let items = section_items(secs[k - 1]);
        flow(items, 0, pages, starts, false, (2 * items.len() + 2) as nat)
    }
}

/// A copy of labelled values.
fn copy_pairs(p: &Vec<(String, i64)>) -> (r: Vec<(String, i64)>)
    ensures
        pairs_view(r@) == pairs_view(p@),
{
    let mut r: Vec<(String, i64)> = Vec::new();
    let mut i: usize = 0;
    while i < p.len()
        invariant
            i <= p@.len(),
            pairs_view(r@) == pairs_view(p@).take(i as int),
        decreases p@.len() - i,
    {
        let ghost before = r@;
        r.push((crate::text::copy_str(p[i].0.as_str()), p[i].1));
        assert(pairs_view(r@) =~= pairs_view(before).push((p@[i as int].0@, p@[i as int].1)));
        assert(pairs_view(p@).take(i + 1) =~= pairs_view(p@).take(i as int).push((p@[i as int].0@, p@[i as int].1)));
        i += 1;
    }
    assert(pairs_view(p@).take(p@.len() as int) =~= pairs_view(p@));
    r
}

/// A copy of an item.
fn copy_item(it: &PageItem) -> (r: PageItem)
    ensures
        r@ == it@,
{
    match it {
        PageItem::Heading(t) => PageItem::Heading(crate::text::copy_str(t.as_str())),
        PageItem::Line(l) => PageItem::Line(crate::text::copy_str(l.as_str())),
        PageItem::Chart { title, pairs } => PageItem::Chart {
            title: crate::text::copy_str(title.as_str()),
            pairs: copy_pairs(pairs),
        },
    }
}

/// Appends a block's items ([`block_items`]).
fn push_block_items(b: &PdfBlock, out: &mut Vec<PageItem>)
    ensures
        items_view(final(out)@) == items_view(old(out)@) + block_items(b@),
{
    match b {
        PdfBlock::Para(p) => {
            let ls = wrap(p.as_str(), WIDTH);
            let ghost lv = views(ls@);
            let ghost base = items_view(out@);
            let mut i: usize = 0;
            while i < ls.len()
                invariant
                    i <= ls@.len(),
                    lv == views(ls@),
                    items_view(out@) == base + Seq::new(i as nat, |m: int| PageItemV::Line(lv[m])),
                decreases ls@.len() - i,
            {
                let ghost before = out@;
                out.push(PageItem::Line(crate::text::copy_str(ls[i].as_str())));
                assert(items_view(out@) =~= items_view(before).push(PageItemV::Line(lv[i as int])));
                assert(base + Seq::new((i + 1) as nat, |m: int| PageItemV::Line(lv[m])) =~= (base + Seq::new(i as nat, |m: int| PageItemV::Line(lv[m]))).push(PageItemV::Line(lv[i as int])));
                i += 1;
            }
        },
        PdfBlock::Chart { title, pairs } => {
            let ghost before = out@;
            out.push(PageItem::Chart { title: crate::text::copy_str(title.as_str()), pairs: copy_pairs(pairs) });
            assert(items_view(out@) =~= items_view(before).push(PageItemV::Chart(title@, pairs_view(pairs@))));
        },
    }
}

/// A section's items ([`section_items`]).
pub fn section_item_list(sec: &PdfSection) -> (r: Vec<PageItem>)
    ensures
        items_view(r@) == section_items((sec.title@, blocks_view(sec.blocks@))),
{
    let mut out: Vec<PageItem> = Vec::new();
    out.push(PageItem::Heading(crate::text::copy_str(sec.title.as_str())));
    let ghost bv = blocks_view(sec.blocks@);
    assert(items_view(out@) =~= seq![PageItemV::Heading(sec.title@)]);
    let mut i: usize = 0;
    while i < sec.blocks.len()
        invariant
            i <= sec.blocks@.len(),
            bv == blocks_view(sec.blocks@),
            items_view(out@) == seq![PageItemV::Heading(sec.title@)] + blocks_items(bv.take(i as int)),
        decreases sec.blocks@.len() - i,
    {
        push_block_items(&sec.blocks[i], &mut out);
        assert(bv.take(i + 1).drop_last() =~= bv.take(i as int));
        assert(bv.take(i + 1).last() == sec.blocks@[i as int]@);
        i += 1;
    }
    assert(bv.take(bv.len() as int) =~= bv);
    out
}

/// [`cost`].
fn item_cost(it: &PageItem) -> (c: u128)
    ensures
        c == cost(it@),
        c <= usize::MAX as u128 + 2,
{
    match it {
        PageItem::Heading(_) => 3,
        PageItem::Line(_) => 1,
        PageItem::Chart { pairs, .. } => pairs.len() as u128 + 2,
    }
}

/// [`chunk_spec`].
fn chunk(items: &Vec<PageItem>, k: usize, rest: usize) -> (m: usize)
    requires
        k < items@.len(),
    ensures
        m == chunk_spec(items_view(items@), k as int, rest as int),
        m <= items@.len() - k,
{
    let ghost iv = items_view(items@);
    let mut used: u128 = 0;
    let mut j: usize = k;
    while j < items.len() && used + item_cost(&items[j]) <= rest as u128
        invariant
            k <= j <= items@.len(),
            iv == items_view(items@),
            used <= rest,
            fit_from(iv, k as int, rest as int) == (j - k) + fit_from(iv, j as int, rest - used),
        decreases items@.len() - j,
    {
        used = used + item_cost(&items[j]);
        j += 1;
    }
    assert(fit_from(iv, j as int, rest - used) == 0);
    let m = j - k;
    let is_heading = match &items[k] {
        PageItem::Heading(_) => true,
        _ => false,
    };
    let c = if m == 1 && is_heading && k + 1 < items.len() {
        0
    } else {
        m
    };
    if c == 0 && rest >= LINES {
        if is_heading && k + 1 < items.len() {
            2
        } else {
            1
        }
    } else {
        c
    }
}

/// Greedy filling takes no more items than there are lines, nor than there are items.
proof fn lemma_fit_le(items: Seq<PageItemV>, i: int, budget: int)
    requires
        0 <= i,
        forall|q: int| 0 <= q < items.len() ==> #[trigger] cost(items[q]) >= 1,
    ensures
        fit_from(items, i, budget) <= if budget < 0 {
            0
        } else {
            budget
        },
        fit_from(items, i, budget) >= 0,
        i <= items.len() ==> fit_from(items, i, budget) <= items.len() - i,
    decreases items.len() - i,
{
    if i < items.len() && cost(items[i]) <= budget {
        lemma_fit_le(items, i + 1, budget - cost(items[i]));
    }
}

/// Every item takes at least one line.
proof fn lemma_cost_pos(items: Seq<PageItemV>)
    ensures
        forall|q: int| 0 <= q < items.len() ==> #[trigger] cost(items[q]) >= 1,
{
}

/// On an empty page the next chunk is never empty.
proof fn lemma_fresh_page(items: Seq<PageItemV>, pos: int)
    requires
        0 <= pos < items.len(),
    ensures
        chunk_spec(items, pos, LINES as int) >= 1,
{
    lemma_cost_pos(items);
    lemma_fit_le(items, pos, LINES as int);
}

/// Starts as integers.
pub open spec fn starts_view(v: Seq<usize>) -> Seq<int> {
    Seq::new(v.len(), |i: int| v[i] as int)
}

/// No page holds more than [`LINES`] items.
pub open spec fn pages_ok(pages: Seq<Seq<PageItemV>>) -> bool {
    pages.len() >= 1 && forall|i: int| 0 <= i < pages.len() ==> #[trigger] pages[i].len() <= LINES
}

/// Flows one section's items onto the pages ([`flow`]).
fn flow_section(
    items: &Vec<PageItem>,
    pages: &mut Vec<Vec<PageItem>>,
    starts: &mut Vec<usize>,
)
    requires
        items@.len() >= 1,
        pages_ok(pages_view(old(pages)@)),
    ensures
        pages_ok(pages_view(final(pages)@)),
        (pages_view(final(pages)@), starts_view(final(starts)@)) == flow(
            items_view(items@),
            0,
            pages_view(old(pages)@),
            starts_view(old(starts)@),
            false,
            (2 * items@.len() + 2) as nat,
        ),
{
    let ghost iv = items_view(items@);
    let ghost target = flow(iv, 0, pages_view(pages@), starts_view(starts@), false, (2 * items@.len() + 2) as nat);
    let ghost mut fuel: nat = (2 * items@.len() + 2) as nat;
    let mut recorded = false;
    let mut pos: usize = 0;
    proof {
        lemma_cost_pos(iv);
    }
    while pos < items.len()
        invariant
            iv == items_view(items@),
            pos <= items@.len(),
            pages_ok(pages_view(pages@)),
            forall|q: int| 0 <= q < iv.len() ==> #[trigger] cost(iv[q]) >= 1,
            flow(iv, pos as int, pages_view(pages@), starts_view(starts@), recorded, fuel) == target,
            fuel >= 2 * (items@.len() - pos) + if pages_view(pages@).last().len() > 0 {
                1int
            } else {
                0
            },
        decreases 2 * (items@.len() - pos) + if pages_view(pages@).last().len() > 0 {
            1int
        } else {
            0
        },
    {
        let ghost pv = pages_view(pages@);
        let ghost sv = starts_view(starts@);
        let n = pages.len();
        assert(pv.last() == pv[n - 1]);
        assert(pv[n - 1].len() == pages@[n - 1]@.len());
        let rest = LINES - pages[n - 1].len();
        let m = chunk(items, pos, rest);
        proof {
            lemma_fit_le(iv, pos as int, rest as int);
            if pv.last().len() == 0 {
                lemma_fresh_page(iv, pos as int);
            }
        }
        if m == 0 {
            pages.push(Vec::new());
            proof {
                assert(items_view(pages@[n as int]@) =~= Seq::<PageItemV>::empty());
                assert(pages_view(pages@) =~= pv.push(Seq::empty()));
                fuel = (fuel - 1) as nat;
            }
        } else {
            if !recorded {
                starts.push(n - 1);
                assert(starts_view(starts@) =~= sv.push(n - 1));
                recorded = true;
            }
            let mut last = pages.pop().unwrap();
            let ghost lastv = items_view(last@);
            let end = pos + m;
            let mut j: usize = 0;
            while j < m
                invariant
                    j <= m,
                    end == pos + m,
                    end <= items@.len(),
                    iv == items_view(items@),
                    items_view(last@) == lastv + iv.subrange(pos as int, pos + j),
                decreases m - j,
            {
                let ghost before = last@;
                last.push(copy_item(&items[pos + j]));
                assert(items_view(last@) =~= items_view(before).push(iv[pos + j]));
                assert(iv.subrange(pos as int, pos + j + 1) =~= iv.subrange(pos as int, pos + j).push(iv[pos + j]));
                j += 1;
            }
            pages.push(last);
            proof {
                assert(pages_view(pages@) =~= pv.update(n - 1, pv.last() + iv.subrange(pos as int, pos + m)));
                fuel = (fuel - 1) as nat;
            }
            pos = pos + m;
        }
    }
}

/// [`paginate_upto`] over all sections: the pages, and the page each section starts on.
pub fn paginate(secs: &Vec<PdfSection>) -> (r: (Vec<Vec<PageItem>>, Vec<usize>))
    ensures
        (pages_view(r.0@), starts_view(r.1@)) == paginate_upto(sections_view(secs@), secs@.len() as int),
{
    let ghost sv = sections_view(secs@);
    let mut pages: Vec<Vec<PageItem>> = Vec::new();
    pages.push(Vec::new());
    let mut starts: Vec<usize> = Vec::new();
    assert(items_view(pages@[0]@) =~= Seq::<PageItemV>::empty());
    assert(pages_view(pages@) =~= seq![Seq::<PageItemV>::empty()]);
    assert(starts_view(starts@) =~= Seq::<int>::empty());
    let mut k: usize = 0;
    while k < secs.len()
        invariant
            k <= secs@.len(),
            sv == sections_view(secs@),
            pages_ok(pages_view(pages@)),
            (pages_view(pages@), starts_view(starts@)) == paginate_upto(sv, k as int),
        decreases secs@.len() - k,
    {
        let items = section_item_list(&secs[k]);
        assert(sv[k as int] == (secs@[k as int].title@, blocks_view(secs@[k as int].blocks@)));
        assert(items_view(items@).len() == items@.len());
        flow_section(&items, &mut pages, &mut starts);
        k += 1;
    }
    (pages, starts)
}

/// `b` holds every page of `a` as its beginning, and maybe more pages.
pub open spec fn pages_grow(a: Seq<Seq<PageItemV>>, b: Seq<Seq<PageItemV>>) -> bool {
    b.len() >= a.len() && forall|i: int|
        0 <= i < a.len() ==> #[trigger] b[i].len() >= a[i].len() && b[i].take(a[i].len() as int) == a[i]
}

/// What flowing a section does to the pages: what was on them stays, and the page noted
/// for the section holds its first item.
proof fn lemma_flow(
    items: Seq<PageItemV>,
    pos: int,
    pages: Seq<Seq<PageItemV>>,
    starts: Seq<int>,
    recorded: bool,
    fuel: nat,
)
    requires
        pages_ok(pages),
        0 <= pos <= items.len(),
        fuel >= 2 * (items.len() - pos) + if pages.last().len() > 0 {
            1int
        } else {
            0
        },
        !recorded ==> pos == 0 && items.len() >= 1,
    ensures
        ({
            let (p2, s2) = flow(items, pos, pages, starts, recorded, fuel);
            &&& pages_ok(p2)
            &&& pages_grow(pages, p2)
            &&& recorded ==> s2 == starts
            &&& !recorded ==> s2.len() == starts.len() + 1 && s2.take(starts.len() as int) == starts && 0
                <= s2.last() < p2.len() && p2[s2.last()].contains(items[0])
        }),
    decreases fuel,
{
    lemma_cost_pos(items);
    if fuel == 0 || pos >= items.len() || pages.len() == 0 {
        assert forall|i: int| 0 <= i < pages.len() implies #[trigger] pages[i].len() >= pages[i].len() && pages[i].take(pages[i].len() as int) == pages[i] by {
            assert(pages[i].take(pages[i].len() as int) =~= pages[i]);
        }
    } else {
        let n = pages.len();
        let rest = LINES - pages.last().len();
        let m = chunk_spec(items, pos, rest);
        lemma_fit_le(items, pos, rest);
        if pages.last().len() == 0 {
            lemma_fresh_page(items, pos);
        }
        if m <= 0 {
            let p1 = pages.push(Seq::empty());
            lemma_flow(items, pos, p1, starts, recorded, (fuel - 1) as nat);
            let (p2, s2) = flow(items, pos, p1, starts, recorded, (fuel - 1) as nat);
            assert forall|i: int| 0 <= i < pages.len() implies #[trigger] p2[i].len() >= pages[i].len() && p2[i].take(pages[i].len() as int) == pages[i] by {
                assert(p1[i] == pages[i]);
                assert(p2[i].take(p1[i].len() as int) == p1[i]);
            }
            if !recorded {
                assert(p2[s2.last()].contains(items[0]));
            }
        } else {
            let st = if recorded {
                starts
            } else {
                starts.push(n - 1)
            };
            let added = pages.last() + items.subrange(pos, pos + m);
            let p1 = pages.update(n - 1, added);
            assert(pages_ok(p1)) by {
                assert forall|i: int| 0 <= i < p1.len() implies #[trigger] p1[i].len() <= LINES by {
                    if i != n - 1 {
                        assert(p1[i] == pages[i]);
                    }
                }
            }
            lemma_flow(items, pos + m, p1, st, true, (fuel - 1) as nat);
            let (p2, s2) = flow(items, pos + m, p1, st, true, (fuel - 1) as nat);
            assert(added.take(pages.last().len() as int) =~= pages.last());
            assert forall|i: int| 0 <= i < pages.len() implies #[trigger] p2[i].len() >= pages[i].len() && p2[i].take(pages[i].len() as int) == pages[i] by {
                assert(p2[i].take(p1[i].len() as int) == p1[i]);
                if i == n - 1 {
                    assert(p2[i].take(pages[i].len() as int) =~= p1[i].take(pages[i].len() as int));
                } else {
                    assert(p1[i] == pages[i]);
                }
            }
            if !recorded {
                let k = pages.last().len() as int;
                assert(added[k] == items[0]);
                assert(p2[n - 1].take(added.len() as int) == added);
                assert(p2[n - 1][k] == added[k]);
                assert(st.take(starts.len() as int) =~= starts);
            }
        }
    }
}

/// The page each section starts on holds that section's heading: the contents page points
/// at the right pages.
pub proof fn law_sections_start_on_their_heading_page(secs: Seq<(Chars, Seq<PdfBlockV>)>, k: int)
    requires
        0 <= k <= secs.len(),
    ensures
        ({
            let (pages, starts) = paginate_upto(secs, k);
            &&& pages_ok(pages)
            &&& starts.len() == k
            &&& forall|s: int|
                0 <= s < k ==> 0 <= #[trigger] starts[s] < pages.len() && pages[starts[s]].contains(
                    PageItemV::Heading(secs[s].0),
                )
        }),
    decreases k,
{
    if k == 0 {
        assert(pages_ok(seq![Seq::<PageItemV>::empty()]));
    } else {
        law_sections_start_on_their_heading_page(secs, k - 1);
        let (pages, starts) = paginate_upto(secs, k - 1);
        let items = section_items(secs[k - 1]);
        lemma_flow(items, 0, pages, starts, false, (2 * items.len() + 2) as nat);
        let (p2, s2) = flow(items, 0, pages, starts, false, (2 * items.len() + 2) as nat);
        assert forall|s: int| 0 <= s < k implies 0 <= #[trigger] s2[s] < p2.len() && p2[s2[s]].contains(PageItemV::Heading(secs[s].0)) by {
            if s < k - 1 {
                assert(s2[s] == s2.take(starts.len() as int)[s]);
                assert(s2[s] == starts[s]);
                let pg = starts[s];
                assert(pages[pg].contains(PageItemV::Heading(secs[s].0)));
                let j = choose|j: int| 0 <= j < pages[pg].len() && pages[pg][j] == PageItemV::Heading(secs[s].0);
                assert(p2[pg].take(pages[pg].len() as int) == pages[pg]);
                assert(p2[pg][j] == pages[pg][j]);
            } else {
                assert(items[0] == PageItemV::Heading(secs[s].0));
            }
        }
    }
}

/// No page ends with a heading.
pub open spec fn no_orphan(pages: Seq<Seq<PageItemV>>) -> bool {
    forall|i: int| 0 <= i < pages.len() && pages[i].len() > 0 ==> !(#[trigger] pages[i].last() is Heading)
}

/// A block's items hold no heading.
proof fn lemma_no_heading_in_blocks(bs: Seq<PdfBlockV>)
    ensures
        forall|q: int| 0 <= q < blocks_items(bs).len() ==> !(#[trigger] blocks_items(bs)[q] is Heading),
    decreases bs.len(),
{
    if bs.len() > 0 {
        lemma_no_heading_in_blocks(bs.drop_last());
        let a = blocks_items(bs.drop_last());
        let c = block_items(bs.last());
        assert forall|q: int| 0 <= q < (a + c).len() implies !(#[trigger] (a + c)[q] is Heading) by {
            if q >= a.len() {
                assert((a + c)[q] == c[q - a.len()]);
            } else {
                assert((a + c)[q] == a[q]);
            }
        }
    }
}

/// Flowing a section whose only heading opens it and which has more than its heading
/// leaves no page ending with a heading.
proof fn lemma_flow_no_orphan(
    items: Seq<PageItemV>,
    pos: int,
    pages: Seq<Seq<PageItemV>>,
    starts: Seq<int>,
    recorded: bool,
    fuel: nat,
)
    requires
        no_orphan(pages),
        items.len() >= 2,
        forall|q: int| 1 <= q < items.len() ==> !(#[trigger] items[q] is Heading),
        0 <= pos,
    ensures
        no_orphan(flow(items, pos, pages, starts, recorded, fuel).0),
    decreases fuel,
{
    if fuel == 0 || pos >= items.len() || pages.len() == 0 {
    } else {
        let n = pages.len();
        let rest = LINES - pages.last().len();
        let m = chunk_spec(items, pos, rest);
        if m <= 0 {
            let p1 = pages.push(Seq::empty());
            assert(no_orphan(p1)) by {
                assert forall|i: int| 0 <= i < p1.len() && p1[i].len() > 0 implies !(#[trigger] p1[i].last() is Heading) by {
                    assert(p1[i] == pages[i]);
                }
            }
            lemma_flow_no_orphan(items, pos, p1, starts, recorded, (fuel - 1) as nat);
        } else {
            let st = if recorded {
                starts
            } else {
                starts.push(n - 1)
            };
            lemma_cost_pos(items);
            lemma_fit_le(items, pos, rest);
            let added = pages.last() + items.subrange(pos, pos + m);
            let p1 = pages.update(n - 1, added);
            assert(added.last() == items[pos + m - 1]);
            if m == 1 {
                assert(!(items[pos] is Heading) || pos + 1 >= items.len());
            }
            assert(!(added.last() is Heading));
            assert(no_orphan(p1)) by {
                assert forall|i: int| 0 <= i < p1.len() && p1[i].len() > 0 implies !(#[trigger] p1[i].last() is Heading) by {
                    if i != n - 1 {
                        assert(p1[i] == pages[i]);
                    }
                }
            }
            lemma_flow_no_orphan(items, pos + m, p1, st, true, (fuel - 1) as nat);
        }
    }
}

/// A heading never stands alone at the bottom of a page: it moves to the next page with
/// the block it introduces. (Every section has something under its heading.)
pub proof fn law_no_orphan_heading(secs: Seq<(Chars, Seq<PdfBlockV>)>, k: int)
    requires
        0 <= k <= secs.len(),
        forall|s: int| 0 <= s < secs.len() ==> #[trigger] blocks_items(secs[s].1).len() >= 1,
    ensures
        no_orphan(paginate_upto(secs, k).0),
    decreases k,
{
    if k > 0 {
        law_no_orphan_heading(secs, k - 1);
        let (pages, starts) = paginate_upto(secs, k - 1);
        let items = section_items(secs[k - 1]);
        let bs = secs[k - 1].1;
        assert(blocks_items(secs[k - 1].1).len() >= 1);
        lemma_no_heading_in_blocks(bs);
        assert forall|q: int| 1 <= q < items.len() implies !(#[trigger] items[q] is Heading) by {
            assert(items[q] == blocks_items(bs)[q - 1]);
        }
        lemma_flow_no_orphan(items, 0, pages, starts, false, (2 * items.len() + 2) as nat);
    }
}

} // verus!
