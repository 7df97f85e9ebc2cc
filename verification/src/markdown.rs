//! The Markdown rendering of a [`Document`]: tables, no charts. It formats and computes
//! nothing: every number is a model value, every section names the rows and the window
//! behind it, and a section with no rows says so instead of printing zeros.

use vstd::prelude::*;

use crate::graph::concat;
use crate::report::{
    ConfigEntry, Document, Recommendation, ReportCache, ReportCalls, ReportCallsSection,
    ReportExpand, ReportSavings, ReportSavingsSection, ReportWindow,
};
use crate::text::{chars_of, dec_int, dec_nat, join, join_strings, push_i64, push_u64, views, Chars};

verus! {

/// A table cell: `|` would end the cell early, so it is escaped.
pub open spec fn cell_spec(s: Chars) -> Chars
    decreases s.len(),
{
    if s.len() == 0 {
        Seq::empty()
    } else {
        cell_spec(s.drop_last()) + if s.last() == '|' {
            seq!['\\', '|']
        } else {
            seq![s.last()]
        }
    }
}

/// [`cell_spec`], appended to `out`.
fn push_cell(out: &mut String, s: &str)
    ensures
        final(out)@ == old(out)@ + cell_spec(s@),
{
    let c = chars_of(s);
    let ghost start = out@;
    let mut i: usize = 0;
    while i < c.len()
        invariant
            c@ == s@,
            i <= c@.len(),
            out@ == start + cell_spec(c@.take(i as int)),
        decreases c@.len() - i,
    {
        assert(c@.take(i + 1).drop_last() == c@.take(i as int));
        assert(c@.take(i + 1).last() == c@[i as int]);
        if c[i] == '|' {
            crate::text::push_char(out, '\\');
            crate::text::push_char(out, '|');
        } else {
            crate::text::push_char(out, c[i]);
        }
        i += 1;
    }
    assert(c@.take(c@.len() as int) == c@);
}

/// A recorded latency as given, `—` for none: an untimed surface is not a zero-ms one.
pub open spec fn ms_spec(v: Option<String>) -> Chars {
    match v {
        Some(s) => s@,
        None => "—"@,
    }
}

/// The title and the Window section.
pub open spec fn window_md(w: ReportWindow) -> Chars {
    "# rtok report\n\nWindow "@ + w.from_date@ + " → "@ + w.to_date@ + " ("@ + w.since@
        + ") · store "@ + w.db_path@ + "\n"@ + "\n"@ + "## Window\n"@ + "\n"@
        + "| ledger | rows | covers |\n| --- | --- | --- |"@ + "\n"@ + "| calls | "@ + dec_nat(
        w.calls_in_window as nat,
    ) + " of "@ + dec_nat(w.calls_total as nat) + " | window ("@ + w.since@ + ") |"@ + "\n"@
        + "| measurements | "@ + dec_nat(w.measurements as nat)
        + " | whole ledger (no row times) |"@ + "\n"@ + "| usage | "@ + dec_nat(w.usage as nat)
        + " | whole ledger (no row times) |"@ + "\n"@ + if w.calls_total == 0 && w.measurements
        == 0 && w.usage == 0 {
        "\n**No rows in window.** The store has no rows to report."@ + "\n"@
    } else {
        Seq::empty()
    }
}

fn window_text(w: &ReportWindow) -> (s: String)
    ensures
        s@ == window_md(*w),
{
    let mut s = "# rtok report\n\nWindow ".to_owned();
    s.append(w.from_date.as_str());
    s.append(" → ");
    s.append(w.to_date.as_str());
    s.append(" (");
    s.append(w.since.as_str());
    s.append(") · store ");
    s.append(w.db_path.as_str());
    s.append("\n");
    s.append("\n");
    s.append("## Window\n");
    s.append("\n");
    s.append("| ledger | rows | covers |\n| --- | --- | --- |");
    s.append("\n");
    s.append("| calls | ");
    push_u64(&mut s, w.calls_in_window);
    s.append(" of ");
    push_u64(&mut s, w.calls_total);
    s.append(" | window (");
    s.append(w.since.as_str());
    s.append(") |");
    s.append("\n");
    s.append("| measurements | ");
    push_u64(&mut s, w.measurements);
    s.append(" | whole ledger (no row times) |");
    s.append("\n");
    s.append("| usage | ");
    push_u64(&mut s, w.usage);
    s.append(" | whole ledger (no row times) |");
    s.append("\n");
    if w.calls_total == 0 && w.measurements == 0 && w.usage == 0 {
        s.append("\n**No rows in window.** The store has no rows to report.");
        s.append("\n");
    }
    s
}

/// One savings table row.
pub open spec fn savings_row_md(r: ReportSavings) -> Chars {
    "| "@ + cell_spec(r.plugin@) + " | "@ + dec_nat(r.rows as nat) + " | "@ + dec_int(
        r.est_before as int,
    ) + " | "@ + dec_int(r.est_after as int) + " | "@ + dec_int(r.saved as int) + " |"@ + "\n"@
}

/// The Savings section.
pub open spec fn savings_md(sav: ReportSavingsSection) -> Chars {
    let rows = sav.rows@;
    "\n## Savings\n\nEstimated tokens from `Measurement` rows only: est_before − est_after, net — an `expand` row counts negative, because retrieval costs tokens. A `Measurement` row carries no turn count, so these are floors, not context-token-turns.\n"@
        + "\n"@ + if rows.len() == 0 {
        "No rows in window."@ + "\n"@
    } else {
        "| plugin | rows | est before | est after | saved |\n| --- | ---: | ---: | ---: | ---: |"@
            + "\n"@ + concat(Seq::new(rows.len(), |i: int| savings_row_md(rows[i])))
            + "\nTotal: "@ + dec_int(sav.total_saved as int) + " est tokens over "@ + dec_nat(
            sav.total_rows as nat,
        ) + " `Measurement` rows (whole ledger: no row times)."@ + "\n"@
    }
}

fn savings_text(sav: &ReportSavingsSection) -> (s: String)
    ensures
        s@ == savings_md(*sav),
{
    let mut s = String::new();
    s.append(
        "\n## Savings\n\nEstimated tokens from `Measurement` rows only: est_before − est_after, net — an `expand` row counts negative, because retrieval costs tokens. A `Measurement` row carries no turn count, so these are floors, not context-token-turns.\n",
    );
    s.append("\n");
    let rows = &sav.rows;
    if rows.len() == 0 {
        s.append("No rows in window.");
        s.append("\n");
    } else {
        s.append(
            "| plugin | rows | est before | est after | saved |\n| --- | ---: | ---: | ---: | ---: |",
        );
        s.append("\n");
        let ghost head = s@;
        let ghost f = |i: int| savings_row_md(rows@[i]);
        let mut i: usize = 0;
        while i < rows.len()
            invariant
                f == (|k: int| savings_row_md(rows@[k])),
                i <= rows@.len(),
                s@ == head + concat(Seq::new(i as nat, f)),
            decreases rows@.len() - i,
        {
            proof {
                crate::graph::lemma_concat_step(f, i as nat);
            }
            let r = &rows[i];
            let ghost b = s@;
            s.append("| ");
            push_cell(&mut s, r.plugin.as_str());
            s.append(" | ");
            push_u64(&mut s, r.rows);
            s.append(" | ");
            push_i64(&mut s, r.est_before);
            s.append(" | ");
            push_i64(&mut s, r.est_after);
            s.append(" | ");
            push_i64(&mut s, r.saved);
            s.append(" |");
            s.append("\n");
            assert(s@ =~= b + savings_row_md(rows@[i as int]));
            i += 1;
        }
        s.append("\nTotal: ");
        push_i64(&mut s, sav.total_saved);
        s.append(" est tokens over ");
        push_u64(&mut s, sav.total_rows);
        s.append(" `Measurement` rows (whole ledger: no row times).");
        s.append("\n");
        assert(Seq::new(rows@.len(), f) =~= Seq::new(rows@.len(), |k: int| savings_row_md(rows@[k])));
    }
    s
}

/// One calls table row.
pub open spec fn calls_row_md(r: ReportCalls) -> Chars {
    "| "@ + cell_spec(r.surface@) + " | "@ + dec_nat(r.calls as nat) + " | "@ + dec_nat(
        r.timed as nat,
    ) + " | "@ + ms_spec(r.p50_ms) + " | "@ + ms_spec(r.p95_ms) + " |"@ + "\n"@
}

/// The Calls section.
pub open spec fn calls_md(calls: ReportCallsSection, since: Chars) -> Chars {
    let rows = calls.rows@;
    "\n## Calls\n\nLatency per surface, nearest-rank p50/p95 over the calls that recorded one.\n"@
        + "\n"@ + if calls.total == 0 {
        "No rows in window."@ + "\n"@
    } else {
        "| surface | calls | timed | p50 ms | p95 ms |\n| --- | ---: | ---: | ---: | ---: |"@
            + "\n"@ + concat(Seq::new(rows.len(), |i: int| calls_row_md(rows[i]))) + "\n"@
            + dec_nat(calls.in_window as nat) + " of "@ + dec_nat(calls.total as nat)
            + " `calls` rows in window ("@ + since
            + "); surfaces beyond hook/mcp/proxy are not in the section set."@ + "\n"@
    }
}

fn push_ms(s: &mut String, v: &Option<String>)
    ensures
        final(s)@ == old(s)@ + ms_spec(*v),
{
    match v {
        Some(x) => s.append(x.as_str()),
        None => s.append("—"),
    }
}

fn calls_row_text(r: &ReportCalls) -> (s: String)
    ensures
        s@ == calls_row_md(*r),
{
    let mut s = "| ".to_owned();
    push_cell(&mut s, r.surface.as_str());
    s.append(" | ");
    push_u64(&mut s, r.calls);
    s.append(" | ");
    push_u64(&mut s, r.timed);
    s.append(" | ");
    push_ms(&mut s, &r.p50_ms);
    s.append(" | ");
    push_ms(&mut s, &r.p95_ms);
    s.append(" |");
    s.append("\n");
    s
}

fn calls_text(calls: &ReportCallsSection, since: &str) -> (s: String)
    ensures
        s@ == calls_md(*calls, since@),
{
    let mut s = String::new();
    s.append(
        "\n## Calls\n\nLatency per surface, nearest-rank p50/p95 over the calls that recorded one.\n",
    );
    s.append("\n");
    let rows = &calls.rows;
    if calls.total == 0 {
        s.append("No rows in window.");
        s.append("\n");
    } else {
        s.append("| surface | calls | timed | p50 ms | p95 ms |\n| --- | ---: | ---: | ---: | ---: |");
        s.append("\n");
        let ghost head = s@;
        let ghost f = |i: int| calls_row_md(rows@[i]);
        let mut i: usize = 0;
        while i < rows.len()
            invariant
                f == (|k: int| calls_row_md(rows@[k])),
                i <= rows@.len(),
                s@ == head + concat(Seq::new(i as nat, f)),
            decreases rows@.len() - i,
        {
            proof {
                crate::graph::lemma_concat_step(f, i as nat);
            }
            let row = calls_row_text(&rows[i]);
            let ghost b = s@;
            s.append(row.as_str());
            assert(s@ =~= b + calls_row_md(rows@[i as int]));
            i += 1;
        }
        s.append("\n");
        push_u64(&mut s, calls.in_window);
        s.append(" of ");
        push_u64(&mut s, calls.total);
        s.append(" `calls` rows in window (");
        s.append(since);
        s.append("); surfaces beyond hook/mcp/proxy are not in the section set.");
        s.append("\n");
        assert(Seq::new(rows@.len(), f) =~= Seq::new(rows@.len(), |k: int| calls_row_md(rows@[k])));
    }
    s
}

/// The Cache section.
pub open spec fn cache_md(cache: ReportCache) -> Chars {
    let rows = cache.by_cause@;
    "\n## Cache\n\nPrompt-cache busts by cause, from the proxy's `usage` rows (whole ledger).\n"@
        + "\n"@ + if cache.sessions == 0 {
        "No rows in window."@ + "\n"@
    } else {
        "| cause | busts |\n| --- | ---: |"@ + "\n"@ + concat(
            Seq::new(
                rows.len(),
                |i: int| "| "@ + cell_spec(rows[i].0@) + " | "@ + dec_nat(rows[i].1 as nat) + " |"@
                    + "\n"@,
            ),
        ) + "\nBusts: "@ + dec_nat(cache.busts as nat) + " over "@ + dec_nat(cache.turns as nat)
            + " turns in "@ + dec_nat(cache.sessions as nat) + " session(s)."@ + "\n"@
    }
}

fn cache_text(cache: &ReportCache) -> (s: String)
    ensures
        s@ == cache_md(*cache),
{
    let mut s = String::new();
    s.append("\n## Cache\n\nPrompt-cache busts by cause, from the proxy's `usage` rows (whole ledger).\n");
    s.append("\n");
    let rows = &cache.by_cause;
    if cache.sessions == 0 {
        s.append("No rows in window.");
        s.append("\n");
    } else {
        s.append("| cause | busts |\n| --- | ---: |");
        s.append("\n");
        let ghost head = s@;
        let ghost f = |i: int| "| "@ + cell_spec(rows@[i].0@) + " | "@ + dec_nat(rows@[i].1 as nat) + " |"@ + "\n"@;
        let mut i: usize = 0;
        while i < rows.len()
            invariant
                f == (|k: int| "| "@ + cell_spec(rows@[k].0@) + " | "@ + dec_nat(rows@[k].1 as nat) + " |"@ + "\n"@),
                i <= rows@.len(),
                s@ == head + concat(Seq::new(i as nat, f)),
            decreases rows@.len() - i,
        {
            proof {
                crate::graph::lemma_concat_step(f, i as nat);
            }
            let ghost b = s@;
            s.append("| ");
            push_cell(&mut s, rows[i].0.as_str());
            s.append(" | ");
            push_u64(&mut s, rows[i].1);
            s.append(" |");
            s.append("\n");
            assert(s@ =~= b + f(i as int));
            i += 1;
        }
        s.append("\nBusts: ");
        push_u64(&mut s, cache.busts);
        s.append(" over ");
        push_u64(&mut s, cache.turns);
        s.append(" turns in ");
        push_u64(&mut s, cache.sessions);
        s.append(" session(s).");
        s.append("\n");
        assert(Seq::new(rows@.len(), f) =~= Seq::new(rows@.len(), |k: int| "| "@ + cell_spec(rows@[k].0@) + " | "@ + dec_nat(rows@[k].1 as nat) + " |"@ + "\n"@));
    }
    s
}

/// The expanded ids, escaped and comma-separated, or `none`.
pub open spec fn expanded_what(ids: Seq<String>) -> Chars {
    if ids.len() == 0 {
        "none"@
    } else {
        join(Seq::new(ids.len(), |i: int| cell_spec(ids[i]@)), ", "@)
    }
}

/// The Expand section.
pub open spec fn expand_md(exp: ReportExpand) -> Chars {
    "\n## Expand\n\nHow often a live-zone pointer had to be expanded (`archive_decisions` rows, T5.4).\n"@
        + "\n"@ + if exp.decisions == 0 {
        "No rows in window."@ + "\n"@
    } else {
        "`rtok expand` froze "@ + dec_int(exp.expanded as int) + " of "@ + dec_int(
            exp.decisions as int,
        ) + " live-zone pointers ("@ + exp.rate_pct@ + "%). Expanded: "@ + expanded_what(
            exp.expanded_ids@,
        ) + "."@ + "\n"@
    }
}

fn expand_text(exp: &ReportExpand) -> (s: String)
    ensures
        s@ == expand_md(*exp),
{
    let mut s = String::new();
    s.append(
        "\n## Expand\n\nHow often a live-zone pointer had to be expanded (`archive_decisions` rows, T5.4).\n",
    );
    s.append("\n");
    if exp.decisions == 0 {
        s.append("No rows in window.");
        s.append("\n");
    } else {
        let ids = &exp.expanded_ids;
        let what = if ids.len() == 0 {
            "none".to_owned()
        } else {
            let mut cells: Vec<String> = Vec::new();
            let mut i: usize = 0;
            while i < ids.len()
                invariant
                    i <= ids@.len(),
                    cells@.len() == i,
                    forall|k: int| 0 <= k < i ==> (#[trigger] cells@[k])@ == cell_spec(ids@[k]@),
                decreases ids@.len() - i,
            {
                let mut c = String::new();
                push_cell(&mut c, ids[i].as_str());
                cells.push(c);
                i += 1;
            }
            assert(views(cells@) =~= Seq::new(ids@.len(), |k: int| cell_spec(ids@[k]@)));
            join_strings(cells.as_slice(), ", ")
        };
        s.append("`rtok expand` froze ");
        push_i64(&mut s, exp.expanded);
        s.append(" of ");
        push_i64(&mut s, exp.decisions);
        s.append(" live-zone pointers (");
        s.append(exp.rate_pct.as_str());
        s.append("%). Expanded: ");
        s.append(what.as_str());
        s.append(".");
        s.append("\n");
    }
    s
}

/// One config table row.
pub open spec fn config_row_md(e: ConfigEntry) -> Chars {
    "| "@ + cell_spec(e.key@) + " | "@ + cell_spec(e.value@) + " | "@ + cell_spec(e.source@)
        + " |"@ + "\n"@
}

/// The Config section.
pub open spec fn config_md(config: Seq<ConfigEntry>) -> Chars {
    "\n## Config\n\nEvery effective key with its origin — the `config show --sources` page.\n"@
        + "\n"@ + "| key | value | source |\n| --- | --- | --- |"@ + "\n"@ + concat(
        Seq::new(config.len(), |i: int| config_row_md(config[i])),
    ) + "\n"@ + dec_nat(config.len()) + " keys."@ + "\n"@
}

fn config_text(config: &Vec<ConfigEntry>) -> (s: String)
    ensures
        s@ == config_md(config@),
{
    let mut s = String::new();
    s.append("\n## Config\n\nEvery effective key with its origin — the `config show --sources` page.\n");
    s.append("\n");
    s.append("| key | value | source |\n| --- | --- | --- |");
    s.append("\n");
    let ghost head = s@;
    let ghost f = |i: int| config_row_md(config@[i]);
    let mut i: usize = 0;
    while i < config.len()
        invariant
            f == (|k: int| config_row_md(config@[k])),
            i <= config@.len(),
            s@ == head + concat(Seq::new(i as nat, f)),
        decreases config@.len() - i,
    {
        proof {
            crate::graph::lemma_concat_step(f, i as nat);
        }
        let e = &config[i];
        let ghost b = s@;
        s.append("| ");
        push_cell(&mut s, e.key.as_str());
        s.append(" | ");
        push_cell(&mut s, e.value.as_str());
        s.append(" | ");
        push_cell(&mut s, e.source.as_str());
        s.append(" |");
        s.append("\n");
        assert(s@ =~= b + config_row_md(config@[i as int]));
        i += 1;
    }
    s.append("\n");
    push_u64(&mut s, config.len() as u64);
    s.append(" keys.");
    s.append("\n");
    assert(Seq::new(config@.len(), f) =~= Seq::new(config@.len(), |k: int| config_row_md(config@[k])));
    s
}

/// One recommendation line.
pub open spec fn rec_md(r: Recommendation) -> Chars {
    "- **"@ + cell_spec(r.rule@) + "**: "@ + cell_spec(r.finding@) + " ("@ + cell_spec(
        r.evidence@,
    ) + ")"@ + "\n"@
}

/// The Doctor and Recommendations sections.
pub open spec fn tail_md(doctor: Chars, recs: Seq<Recommendation>) -> Chars {
    "\n## Doctor\n\nLive probes (the `rtok doctor` page), not store rows.\n\n```text\n"@ + doctor
        + "```\n"@ + "\n"@ + "## Recommendations\n"@ + "\n"@ + if recs.len() == 0 {
        "No recommendations."@ + "\n"@
    } else {
        concat(Seq::new(recs.len(), |i: int| rec_md(recs[i])))
    }
}

fn tail_text(doctor: &str, recs: &Vec<Recommendation>) -> (s: String)
    ensures
        s@ == tail_md(doctor@, recs@),
{
    let mut s = String::new();
    s.append("\n## Doctor\n\nLive probes (the `rtok doctor` page), not store rows.\n\n```text\n");
    s.append(doctor);
    s.append("```\n");
    s.append("\n");
    s.append("## Recommendations\n");
    s.append("\n");
    if recs.len() == 0 {
        s.append("No recommendations.");
        s.append("\n");
    } else {
        let ghost head = s@;
        let ghost f = |i: int| rec_md(recs@[i]);
        let mut i: usize = 0;
        while i < recs.len()
            invariant
                f == (|k: int| rec_md(recs@[k])),
                i <= recs@.len(),
                s@ == head + concat(Seq::new(i as nat, f)),
            decreases recs@.len() - i,
        {
            proof {
                crate::graph::lemma_concat_step(f, i as nat);
            }
            let r = &recs[i];
            let ghost b = s@;
            s.append("- **");
            push_cell(&mut s, r.rule.as_str());
            s.append("**: ");
            push_cell(&mut s, r.finding.as_str());
            s.append(" (");
            push_cell(&mut s, r.evidence.as_str());
            s.append(")");
            s.append("\n");
            assert(s@ =~= b + rec_md(recs@[i as int]));
            i += 1;
        }
        assert(Seq::new(recs@.len(), f) =~= Seq::new(recs@.len(), |k: int| rec_md(recs@[k])));
    }
    s
}

/// The whole document in the fixed section order: Window, Savings, Calls, Cache, Expand,
/// Config, Doctor, Recommendations.
pub open spec fn markdown_spec(doc: Document) -> Chars {
    let l = doc.ledgers;
    window_md(l.window) + savings_md(l.savings) + calls_md(l.calls, l.window.since@) + cache_md(
        l.cache,
    ) + expand_md(l.expand) + config_md(doc.config@) + tail_md(doc.doctor@, doc.recommendations@)
}

/// Render the whole document ([`markdown_spec`]).
pub fn render(doc: &Document) -> (r: String)
    ensures
        r@ == markdown_spec(*doc),
{
    let l = &doc.ledgers;
    let mut s = window_text(&l.window);
    s.append(savings_text(&l.savings).as_str());
    s.append(calls_text(&l.calls, l.window.since.as_str()).as_str());
    s.append(cache_text(&l.cache).as_str());
    s.append(expand_text(&l.expand).as_str());
    s.append(config_text(&doc.config).as_str());
    s.append(tail_text(doc.doctor.as_str(), &doc.recommendations).as_str());
    s
}

/// A cell never holds an unescaped `|`: every `|` is preceded by a backslash.
pub proof fn law_cell_escapes_pipes(s: Chars, i: int)
    requires
        0 <= i < cell_spec(s).len(),
        cell_spec(s)[i] == '|',
    ensures
        i > 0 && cell_spec(s)[i - 1] == '\\',
    decreases s.len(),
{
    if s.len() > 0 {
        let p = cell_spec(s.drop_last());
        if i < p.len() {
            law_cell_escapes_pipes(s.drop_last(), i);
        } else if s.last() == '|' {
            assert(cell_spec(s) == p + seq!['\\', '|']);
            if i == p.len() {
                assert(cell_spec(s)[i] == '\\');
            }
        } else {
            assert(cell_spec(s) == p + seq![s.last()]);
        }
    }
}

} // verus!
