//! The HTML rendering of a [`Document`]: the same eight sections in the same order, one
//! self-contained file with inline CSS and the bar charts the caller drew. It formats and
//! computes nothing.

use vstd::prelude::*;

use crate::graph::concat;
use crate::report::{
    ConfigEntry, Document, Recommendation, ReportCache, ReportCalls, ReportCallsSection,
    ReportExpand, ReportSavings, ReportSavingsSection, ReportWindow,
};
use crate::text::{chars_of, dec_int, dec_nat, join, join_strings, push_i64, push_u64, views, Chars};

verus! {

/// The stylesheet every report carries inline.
pub const CSS: &'static str = "body{font-family:sans-serif;max-width:60rem;margin:2rem auto;padding:0 1rem;color:#222}\ntable{border-collapse:collapse;margin:1rem 0}\nth,td{border:1px solid #ccc;padding:.25rem .5rem;text-align:left}\npre{background:#f6f6f6;padding:1rem;overflow-x:auto}\nsvg.chart{background:#fafafa;margin:1rem 0}\n";

/// The three bar charts, already drawn (inline SVG, or the no-data sentence).
pub struct HtmlCharts {
    pub savings: String,
    pub calls: String,
    pub cache: String,
}

/// One character escaped for element content and attribute values.
pub open spec fn esc_char(c: char) -> Chars {
    if c == '&' {
        "&amp;"@
    } else if c == '<' {
        "&lt;"@
    } else if c == '>' {
        "&gt;"@
    } else if c == '"' {
        "&quot;"@
    } else {
        seq![c]
    }
}

/// Text escaped for element content and attribute values.
pub open spec fn esc_spec(s: Chars) -> Chars
    decreases s.len(),
{
    if s.len() == 0 {
        Seq::empty()
    } else {
        esc_spec(s.drop_last()) + esc_char(s.last())
    }
}

/// [`esc_spec`].
pub fn esc(s: &str) -> (r: String)
    ensures
        r@ == esc_spec(s@),
{
    let c = chars_of(s);
    let mut out = String::new();
    let mut i: usize = 0;
    while i < c.len()
        invariant
            c@ == s@,
            i <= c@.len(),
            out@ == esc_spec(c@.take(i as int)),
        decreases c@.len() - i,
    {
        assert(c@.take(i + 1).drop_last() == c@.take(i as int));
        assert(c@.take(i + 1).last() == c@[i as int]);
        let ch = c[i];
        if ch == '&' {
            out.append("&amp;");
        } else if ch == '<' {
            out.append("&lt;");
        } else if ch == '>' {
            out.append("&gt;");
        } else if ch == '"' {
            out.append("&quot;");
        } else {
            crate::text::push_char(&mut out, ch);
        }
        i += 1;
    }
    assert(c@.take(c@.len() as int) == c@);
    out
}

/// One row of cells.
pub open spec fn row_html(cells: Seq<Chars>) -> Chars {
    "<tr>"@ + concat(Seq::new(cells.len(), |i: int| "<td>"@ + cells[i] + "</td>"@)) + "</tr>\n"@
}

/// One `<table>`; cells arrive escaped (or plain numbers).
pub open spec fn table_html(heads: Seq<Chars>, rows: Seq<Seq<Chars>>) -> Chars {
    "<table>\n<tr>"@ + concat(Seq::new(heads.len(), |i: int| "<th>"@ + heads[i] + "</th>"@))
        + "</tr>\n"@ + concat(Seq::new(rows.len(), |i: int| row_html(rows[i]))) + "</table>\n"@
}

/// The views of a table's rows.
pub open spec fn rows_view(rows: Seq<Vec<String>>) -> Seq<Seq<Chars>> {
    Seq::new(rows.len(), |i: int| views(rows[i]@))
}

/// [`table_html`].
fn table(heads: &[&str], rows: &Vec<Vec<String>>) -> (r: String)
    ensures
        r@ == table_html(Seq::new(heads@.len(), |i: int| heads@[i]@), rows_view(rows@)),
{
    let ghost hv = Seq::new(heads@.len(), |i: int| heads@[i]@);
    let ghost rv = rows_view(rows@);
    let mut s = "<table>\n<tr>".to_owned();
    let ghost h0 = s@;
    let ghost fh = |i: int| "<th>"@ + hv[i] + "</th>"@;
    let mut i: usize = 0;
    while i < heads.len()
        invariant
            hv == Seq::new(heads@.len(), |k: int| heads@[k]@),
            fh == (|k: int| "<th>"@ + hv[k] + "</th>"@),
            i <= heads@.len(),
            s@ == h0 + concat(Seq::new(i as nat, fh)),
        decreases heads@.len() - i,
    {
        proof {
            crate::graph::lemma_concat_step(fh, i as nat);
        }
        let mut cell = "<th>".to_owned();
        cell.append(heads[i]);
        cell.append("</th>");
        s.append(cell.as_str());
        i += 1;
    }
    assert(Seq::new(heads@.len(), fh) =~= Seq::new(hv.len(), |k: int| "<th>"@ + hv[k] + "</th>"@));
    s.append("</tr>\n");
    let ghost h1 = s@;
    let ghost fr = |k: int| row_html(rv[k]);
    let mut j: usize = 0;
    while j < rows.len()
        invariant
            rv == rows_view(rows@),
            fr == (|k: int| row_html(rv[k])),
            j <= rows@.len(),
            s@ == h1 + concat(Seq::new(j as nat, fr)),
        decreases rows@.len() - j,
    {
        proof {
            crate::graph::lemma_concat_step(fr, j as nat);
        }
        let r = &rows[j];
        let ghost cv = views(r@);
        let ghost fc = |k: int| "<td>"@ + cv[k] + "</td>"@;
        let mut row = "<tr>".to_owned();
        let ghost r0 = row@;
        let mut k: usize = 0;
        while k < r.len()
            invariant
                cv == views(r@),
                fc == (|x: int| "<td>"@ + cv[x] + "</td>"@),
                k <= r@.len(),
                row@ == r0 + concat(Seq::new(k as nat, fc)),
            decreases r@.len() - k,
        {
            proof {
                crate::graph::lemma_concat_step(fc, k as nat);
            }
            let mut cell = "<td>".to_owned();
            cell.append(r[k].as_str());
            cell.append("</td>");
            row.append(cell.as_str());
            k += 1;
        }
        row.append("</tr>\n");
        assert(Seq::new(r@.len(), fc) =~= Seq::new(cv.len(), |x: int| "<td>"@ + cv[x] + "</td>"@));
        assert(rv[j as int] == cv);
        s.append(row.as_str());
        j += 1;
    }
    assert(Seq::new(rows@.len(), fr) =~= Seq::new(rv.len(), |k: int| row_html(rv[k])));
    s.append("</table>\n");
    s
}

/// The head of the page, the title and the Window section.
pub open spec fn window_html(w: ReportWindow) -> Chars {
    "<!DOCTYPE html>\n<html lang=\"en\">\n<head>\n<meta charset=\"utf-8\">\n<title>rtok report</title>\n<style>\n"@
        + CSS@ + "</style>\n</head>\n<body>\n<h1>rtok report</h1>\n"@ + "<p>Window "@ + esc_spec(
        w.from_date@,
    ) + " → "@ + esc_spec(w.to_date@) + " ("@ + esc_spec(w.since@) + ") · store "@ + esc_spec(
        w.db_path@,
    ) + "</p>\n<h2 id=\"window\">Window</h2>\n"@ + table_html(
        seq!["ledger"@, "rows"@, "covers"@],
        seq![
            seq![
                "calls"@,
                dec_nat(w.calls_in_window as nat) + " of "@ + dec_nat(w.calls_total as nat),
                "window ("@ + esc_spec(w.since@) + ")"@,
            ],
            seq!["measurements"@, dec_nat(w.measurements as nat), "whole ledger (no row times)"@],
            seq!["usage"@, dec_nat(w.usage as nat), "whole ledger (no row times)"@],
        ],
    ) + if w.calls_total == 0 && w.measurements == 0 && w.usage == 0 {
        "<p><strong>No rows in window.</strong> The store has no rows to report.</p>\n"@
    } else {
        Seq::empty()
    }
}

/// A number as a `String`.
fn num(n: u64) -> (r: String)
    ensures
        r@ == dec_nat(n as nat),
{
    let mut s = String::new();
    push_u64(&mut s, n);
    s
}

/// A signed number as a `String`.
fn inum(n: i64) -> (r: String)
    ensures
        r@ == dec_int(n as int),
{
    let mut s = String::new();
    push_i64(&mut s, n);
    s
}

fn window_text(w: &ReportWindow) -> (s: String)
    ensures
        s@ == window_html(*w),
{
    let mut s = "<!DOCTYPE html>\n<html lang=\"en\">\n<head>\n<meta charset=\"utf-8\">\n<title>rtok report</title>\n<style>\n".to_owned();
    s.append(CSS);
    s.append("</style>\n</head>\n<body>\n<h1>rtok report</h1>\n");
    s.append("<p>Window ");
    s.append(esc(w.from_date.as_str()).as_str());
    s.append(" → ");
    s.append(esc(w.to_date.as_str()).as_str());
    s.append(" (");
    s.append(esc(w.since.as_str()).as_str());
    s.append(") · store ");
    s.append(esc(w.db_path.as_str()).as_str());
    s.append("</p>\n<h2 id=\"window\">Window</h2>\n");
    let mut c1 = num(w.calls_in_window);
    c1.append(" of ");
    c1.append(num(w.calls_total).as_str());
    let mut c2 = "window (".to_owned();
    c2.append(esc(w.since.as_str()).as_str());
    c2.append(")");
    let rows = vec![
        vec!["calls".to_owned(), c1, c2],
        vec!["measurements".to_owned(), num(w.measurements), "whole ledger (no row times)".to_owned()],
        vec!["usage".to_owned(), num(w.usage), "whole ledger (no row times)".to_owned()],
    ];
    let heads = ["ledger", "rows", "covers"];
    let t = table(&heads, &rows);
    assert(Seq::new(heads@.len(), |i: int| heads@[i]@) =~= seq!["ledger"@, "rows"@, "covers"@]);
    assert(views(rows@[0]@) =~= seq!["calls"@, dec_nat(w.calls_in_window as nat) + " of "@ + dec_nat(w.calls_total as nat), "window ("@ + esc_spec(w.since@) + ")"@]);
    assert(views(rows@[1]@) =~= seq!["measurements"@, dec_nat(w.measurements as nat), "whole ledger (no row times)"@]);
    assert(views(rows@[2]@) =~= seq!["usage"@, dec_nat(w.usage as nat), "whole ledger (no row times)"@]);
    assert(rows_view(rows@) =~= seq![views(rows@[0]@), views(rows@[1]@), views(rows@[2]@)]);
    s.append(t.as_str());
    if w.calls_total == 0 && w.measurements == 0 && w.usage == 0 {
        s.append("<p><strong>No rows in window.</strong> The store has no rows to report.</p>\n");
    }
    s
}

/// The cells of one savings row.
pub open spec fn savings_cells(r: ReportSavings) -> Seq<Chars> {
    seq![esc_spec(r.plugin@), dec_nat(r.rows as nat), dec_int(r.est_before as int), dec_int(r.est_after as int), dec_int(r.saved as int)]
}

/// The Savings section, after the caller's chart.
pub open spec fn savings_html(sav: ReportSavingsSection, chart: Chars) -> Chars {
    let rows = sav.rows@;
    "<h2 id=\"savings\">Savings</h2>\n<p>Estimated tokens from <code>Measurement</code> rows only (est_before − est_after, net; floors, not context-token-turns).</p>\n"@
        + if rows.len() == 0 {
        "<p>No rows in window.</p>\n"@
    } else {
        chart + table_html(
            seq!["plugin"@, "rows"@, "est before"@, "est after"@, "saved"@],
            Seq::new(rows.len(), |i: int| savings_cells(rows[i])),
        ) + "<p>Total: "@ + dec_int(sav.total_saved as int) + " est tokens over "@ + dec_nat(
            sav.total_rows as nat,
        ) + " <code>Measurement</code> rows (whole ledger: no row times).</p>\n"@
    }
}

fn savings_text(sav: &ReportSavingsSection, chart: &str) -> (s: String)
    ensures
        s@ == savings_html(*sav, chart@),
{
    let mut s = "<h2 id=\"savings\">Savings</h2>\n<p>Estimated tokens from <code>Measurement</code> rows only (est_before − est_after, net; floors, not context-token-turns).</p>\n".to_owned();
    let rows = &sav.rows;
    if rows.len() == 0 {
        s.append("<p>No rows in window.</p>\n");
        return s;
    }
    let mut cells: Vec<Vec<String>> = Vec::new();
    let mut i: usize = 0;
    while i < rows.len()
        invariant
            i <= rows@.len(),
            cells@.len() == i,
            forall|k: int| 0 <= k < i ==> views((#[trigger] cells@[k])@) == savings_cells(rows@[k]),
        decreases rows@.len() - i,
    {
        let r = &rows[i];
        let row = vec![esc(r.plugin.as_str()), num(r.rows), inum(r.est_before), inum(r.est_after), inum(r.saved)];
        assert(views(row@) =~= savings_cells(rows@[i as int]));
        cells.push(row);
        i += 1;
    }
    let heads = ["plugin", "rows", "est before", "est after", "saved"];
    let t = table(&heads, &cells);
    assert(Seq::new(heads@.len(), |k: int| heads@[k]@) =~= seq!["plugin"@, "rows"@, "est before"@, "est after"@, "saved"@]);
    assert(rows_view(cells@) =~= Seq::new(rows@.len(), |k: int| savings_cells(rows@[k])));
    s.append(chart);
    s.append(t.as_str());
    s.append("<p>Total: ");
    s.append(inum(sav.total_saved).as_str());
    s.append(" est tokens over ");
    s.append(num(sav.total_rows).as_str());
    s.append(" <code>Measurement</code> rows (whole ledger: no row times).</p>\n");
    s
}

/// A recorded latency as given, `—` for none.
pub open spec fn ms_html(v: Option<String>) -> Chars {
    match v {
        Some(x) => x@,
        None => "—"@,
    }
}

/// The cells of one calls row.
pub open spec fn calls_cells(r: ReportCalls) -> Seq<Chars> {
    seq![esc_spec(r.surface@), dec_nat(r.calls as nat), dec_nat(r.timed as nat), ms_html(r.p50_ms), ms_html(r.p95_ms)]
}

/// The Calls section, after the caller's chart.
pub open spec fn calls_html(calls: ReportCallsSection, since: Chars, chart: Chars) -> Chars {
    let rows = calls.rows@;
    "<h2 id=\"calls\">Calls</h2>\n<p>Latency per surface, nearest-rank p50/p95 over the calls that recorded one.</p>\n"@
        + if calls.total == 0 {
        "<p>No rows in window.</p>\n"@
    } else {
        chart + table_html(
            seq!["surface"@, "calls"@, "timed"@, "p50 ms"@, "p95 ms"@],
            Seq::new(rows.len(), |i: int| calls_cells(rows[i])),
        ) + "<p>"@ + dec_nat(calls.in_window as nat) + " of "@ + dec_nat(calls.total as nat)
            + " <code>calls</code> rows in window ("@ + esc_spec(since)
            + "); surfaces beyond hook/mcp/proxy are not in the section set.</p>\n"@
    }
}

fn ms_text(v: &Option<String>) -> (r: String)
    ensures
        r@ == ms_html(*v),
{
    match v {
        Some(x) => crate::text::copy_str(x.as_str()),
        None => "—".to_owned(),
    }
}

fn calls_text(calls: &ReportCallsSection, since: &str, chart: &str) -> (s: String)
    ensures
        s@ == calls_html(*calls, since@, chart@),
{
    let mut s = "<h2 id=\"calls\">Calls</h2>\n<p>Latency per surface, nearest-rank p50/p95 over the calls that recorded one.</p>\n".to_owned();
    if calls.total == 0 {
        s.append("<p>No rows in window.</p>\n");
        return s;
    }
    let rows = &calls.rows;
    let mut cells: Vec<Vec<String>> = Vec::new();
    let mut i: usize = 0;
    while i < rows.len()
        invariant
            i <= rows@.len(),
            cells@.len() == i,
            forall|k: int| 0 <= k < i ==> views((#[trigger] cells@[k])@) == calls_cells(rows@[k]),
        decreases rows@.len() - i,
    {
        let r = &rows[i];
        let row = vec![esc(r.surface.as_str()), num(r.calls), num(r.timed), ms_text(&r.p50_ms), ms_text(&r.p95_ms)];
        assert(views(row@) =~= calls_cells(rows@[i as int]));
        cells.push(row);
        i += 1;
    }
    let heads = ["surface", "calls", "timed", "p50 ms", "p95 ms"];
    let t = table(&heads, &cells);
    assert(Seq::new(heads@.len(), |k: int| heads@[k]@) =~= seq!["surface"@, "calls"@, "timed"@, "p50 ms"@, "p95 ms"@]);
    assert(rows_view(cells@) =~= Seq::new(rows@.len(), |k: int| calls_cells(rows@[k])));
    s.append(chart);
    s.append(t.as_str());
    s.append("<p>");
    s.append(num(calls.in_window).as_str());
    s.append(" of ");
    s.append(num(calls.total).as_str());
    s.append(" <code>calls</code> rows in window (");
    s.append(esc(since).as_str());
    s.append("); surfaces beyond hook/mcp/proxy are not in the section set.</p>\n");
    s
}

/// The Cache section, after the caller's chart.
pub open spec fn cache_html(cache: ReportCache, chart: Chars) -> Chars {
    let rows = cache.by_cause@;
    "<h2 id=\"cache\">Cache</h2>\n<p>Prompt-cache busts by cause, from the proxy's <code>usage</code> rows (whole ledger).</p>\n"@
        + if cache.sessions == 0 {
        "<p>No rows in window.</p>\n"@
    } else {
        chart + table_html(
            seq!["cause"@, "busts"@],
            Seq::new(rows.len(), |i: int| seq![esc_spec(rows[i].0@), dec_nat(rows[i].1 as nat)]),
        ) + "<p>Busts: "@ + dec_nat(cache.busts as nat) + " over "@ + dec_nat(cache.turns as nat)
            + " turns in "@ + dec_nat(cache.sessions as nat) + " session(s).</p>\n"@
    }
}

fn cache_text(cache: &ReportCache, chart: &str) -> (s: String)
    ensures
        s@ == cache_html(*cache, chart@),
{
    let mut s = "<h2 id=\"cache\">Cache</h2>\n<p>Prompt-cache busts by cause, from the proxy's <code>usage</code> rows (whole ledger).</p>\n".to_owned();
    if cache.sessions == 0 {
        s.append("<p>No rows in window.</p>\n");
        return s;
    }
    let rows = &cache.by_cause;
    let mut cells: Vec<Vec<String>> = Vec::new();
    let mut i: usize = 0;
    while i < rows.len()
        invariant
            i <= rows@.len(),
            cells@.len() == i,
            forall|k: int|
                0 <= k < i ==> views((#[trigger] cells@[k])@) == seq![esc_spec(rows@[k].0@), dec_nat(rows@[k].1 as nat)],
        decreases rows@.len() - i,
    {
        let row = vec![esc(rows[i].0.as_str()), num(rows[i].1)];
        assert(views(row@) =~= seq![esc_spec(rows@[i as int].0@), dec_nat(rows@[i as int].1 as nat)]);
        cells.push(row);
        i += 1;
    }
    let heads = ["cause", "busts"];
    let t = table(&heads, &cells);
    assert(Seq::new(heads@.len(), |k: int| heads@[k]@) =~= seq!["cause"@, "busts"@]);
    assert(rows_view(cells@) =~= Seq::new(rows@.len(), |k: int| seq![esc_spec(rows@[k].0@), dec_nat(rows@[k].1 as nat)]));
    s.append(chart);
    s.append(t.as_str());
    s.append("<p>Busts: ");
    s.append(num(cache.busts).as_str());
    s.append(" over ");
    s.append(num(cache.turns).as_str());
    s.append(" turns in ");
    s.append(num(cache.sessions).as_str());
    s.append(" session(s).</p>\n");
    s
}

/// The Expand section.
pub open spec fn expand_html(exp: ReportExpand) -> Chars {
    let ids = exp.expanded_ids@;
    "<h2 id=\"expand\">Expand</h2>\n<p>How often a live-zone pointer had to be expanded (<code>archive_decisions</code> rows, T5.4).</p>\n"@
        + if exp.decisions == 0 {
        "<p>No rows in window.</p>\n"@
    } else {
        "<p><code>rtok expand</code> froze "@ + dec_int(exp.expanded as int) + " of "@ + dec_int(
            exp.decisions as int,
        ) + " live-zone pointers ("@ + exp.rate_pct@ + "%). Expanded: "@ + (if ids.len() == 0 {
            "none"@
        } else {
            join(Seq::new(ids.len(), |i: int| "<code>"@ + esc_spec(ids[i]@) + "</code>"@), ", "@)
        }) + ".</p>\n"@
    }
}

fn expand_text(exp: &ReportExpand) -> (s: String)
    ensures
        s@ == expand_html(*exp),
{
    let mut s = "<h2 id=\"expand\">Expand</h2>\n<p>How often a live-zone pointer had to be expanded (<code>archive_decisions</code> rows, T5.4).</p>\n".to_owned();
    if exp.decisions == 0 {
        s.append("<p>No rows in window.</p>\n");
        return s;
    }
    let ids = &exp.expanded_ids;
    let what = if ids.len() == 0 {
        "none".to_owned()
    } else {
        let mut parts: Vec<String> = Vec::new();
        let mut i: usize = 0;
        while i < ids.len()
            invariant
                i <= ids@.len(),
                parts@.len() == i,
                forall|k: int| 0 <= k < i ==> (#[trigger] parts@[k])@ == "<code>"@ + esc_spec(ids@[k]@) + "</code>"@,
            decreases ids@.len() - i,
        {
            let mut p = "<code>".to_owned();
            p.append(esc(ids[i].as_str()).as_str());
            p.append("</code>");
            parts.push(p);
            i += 1;
        }
        assert(views(parts@) =~= Seq::new(ids@.len(), |k: int| "<code>"@ + esc_spec(ids@[k]@) + "</code>"@));
        join_strings(parts.as_slice(), ", ")
    };
    s.append("<p><code>rtok expand</code> froze ");
    s.append(inum(exp.expanded).as_str());
    s.append(" of ");
    s.append(inum(exp.decisions).as_str());
    s.append(" live-zone pointers (");
    s.append(exp.rate_pct.as_str());
    s.append("%). Expanded: ");
    s.append(what.as_str());
    s.append(".</p>\n");
    s
}

/// The cells of one config row: the value rides in `<code>`, never a live reference.
pub open spec fn config_cells(e: ConfigEntry) -> Seq<Chars> {
    seq![esc_spec(e.key@), "<code>"@ + esc_spec(e.value@) + "</code>"@, esc_spec(e.source@)]
}

/// The Config section.
pub open spec fn config_html(config: Seq<ConfigEntry>) -> Chars {
    "<h2 id=\"config\">Config</h2>\n<p>Every effective key with its origin — the <code>config show --sources</code> page.</p>\n"@
        + table_html(
        seq!["key"@, "value"@, "source"@],
        Seq::new(config.len(), |i: int| config_cells(config[i])),
    ) + "<p>"@ + dec_nat(config.len()) + " keys.</p>\n"@
}

fn config_text(config: &Vec<ConfigEntry>) -> (s: String)
    ensures
        s@ == config_html(config@),
{
    let mut s = "<h2 id=\"config\">Config</h2>\n<p>Every effective key with its origin — the <code>config show --sources</code> page.</p>\n".to_owned();
    let mut cells: Vec<Vec<String>> = Vec::new();
    let mut i: usize = 0;
    while i < config.len()
        invariant
            i <= config@.len(),
            cells@.len() == i,
            forall|k: int| 0 <= k < i ==> views((#[trigger] cells@[k])@) == config_cells(config@[k]),
        decreases config@.len() - i,
    {
        let e = &config[i];
        let mut v = "<code>".to_owned();
        v.append(esc(e.value.as_str()).as_str());
        v.append("</code>");
        let row = vec![esc(e.key.as_str()), v, esc(e.source.as_str())];
        assert(views(row@) =~= config_cells(config@[i as int]));
        cells.push(row);
        i += 1;
    }
    let heads = ["key", "value", "source"];
    let t = table(&heads, &cells);
    assert(Seq::new(heads@.len(), |k: int| heads@[k]@) =~= seq!["key"@, "value"@, "source"@]);
    assert(rows_view(cells@) =~= Seq::new(config@.len(), |k: int| config_cells(config@[k])));
    s.append(t.as_str());
    s.append("<p>");
    s.append(num(config.len() as u64).as_str());
    s.append(" keys.</p>\n");
    s
}

/// One recommendation item.
pub open spec fn rec_html(r: Recommendation) -> Chars {
    "<li><strong>"@ + esc_spec(r.rule@) + "</strong>: "@ + esc_spec(r.finding@) + " ("@ + esc_spec(
        r.evidence@,
    ) + ")</li>\n"@
}

/// The Doctor and Recommendations sections and the end of the page.
pub open spec fn tail_html(doctor: Chars, recs: Seq<Recommendation>) -> Chars {
    "<h2 id=\"doctor\">Doctor</h2>\n<p>Live probes (the <code>rtok doctor</code> page), not store rows.</p>\n<pre><code>"@
        + esc_spec(doctor) + "</code></pre>\n<h2 id=\"recommendations\">Recommendations</h2>\n"@
        + (if recs.len() == 0 {
        "<p>No recommendations.</p>\n"@
    } else {
        "<ul>\n"@ + concat(Seq::new(recs.len(), |i: int| rec_html(recs[i]))) + "</ul>\n"@
    }) + "</body>\n</html>\n"@
}

fn rec_text(r: &Recommendation) -> (s: String)
    ensures
        s@ == rec_html(*r),
{
    let mut s = "<li><strong>".to_owned();
    s.append(esc(r.rule.as_str()).as_str());
    s.append("</strong>: ");
    s.append(esc(r.finding.as_str()).as_str());
    s.append(" (");
    s.append(esc(r.evidence.as_str()).as_str());
    s.append(")</li>\n");
    s
}

fn tail_text(doctor: &str, recs: &Vec<Recommendation>) -> (s: String)
    ensures
        s@ == tail_html(doctor@, recs@),
{
    let mut s = "<h2 id=\"doctor\">Doctor</h2>\n<p>Live probes (the <code>rtok doctor</code> page), not store rows.</p>\n<pre><code>".to_owned();
    s.append(esc(doctor).as_str());
    s.append("</code></pre>\n<h2 id=\"recommendations\">Recommendations</h2>\n");
    if recs.len() == 0 {
        s.append("<p>No recommendations.</p>\n");
    } else {
        s.append("<ul>\n");
        let ghost head = s@;
        let ghost f = |k: int| rec_html(recs@[k]);
        let mut i: usize = 0;
        while i < recs.len()
            invariant
                f == (|k: int| rec_html(recs@[k])),
                i <= recs@.len(),
                s@ == head + concat(Seq::new(i as nat, f)),
            decreases recs@.len() - i,
        {
            proof {
                crate::graph::lemma_concat_step(f, i as nat);
            }
            s.append(rec_text(&recs[i]).as_str());
            i += 1;
        }
        assert(Seq::new(recs@.len(), f) =~= Seq::new(recs@.len(), |k: int| rec_html(recs@[k])));
        s.append("</ul>\n");
    }
    s.append("</body>\n</html>\n");
    s
}

/// The whole page: one `<h2>` per Markdown `##` heading, same names, same order.
pub open spec fn html_spec(doc: Document, charts: HtmlCharts) -> Chars {
    let l = doc.ledgers;
    window_html(l.window) + savings_html(l.savings, charts.savings@) + calls_html(
        l.calls,
        l.window.since@,
        charts.calls@,
    ) + cache_html(l.cache, charts.cache@) + expand_html(l.expand) + config_html(doc.config@)
        + tail_html(doc.doctor@, doc.recommendations@)
}

/// Render the whole document ([`html_spec`]) with the charts drawn for it.
pub fn render(doc: &Document, charts: &HtmlCharts) -> (r: String)
    ensures
        r@ == html_spec(*doc, *charts),
{
    let l = &doc.ledgers;
    let mut s = window_text(&l.window);
    s.append(savings_text(&l.savings, charts.savings.as_str()).as_str());
    s.append(calls_text(&l.calls, l.window.since.as_str(), charts.calls.as_str()).as_str());
    s.append(cache_text(&l.cache, charts.cache.as_str()).as_str());
    s.append(expand_text(&l.expand).as_str());
    s.append(config_text(&doc.config).as_str());
    s.append(tail_text(doc.doctor.as_str(), &doc.recommendations).as_str());
    s
}

/// Escaped text holds no markup: no `<`, `>` or `"` survives.
pub proof fn law_escaped_text_has_no_markup(s: Chars, i: int)
    requires
        0 <= i < esc_spec(s).len(),
    ensures
        esc_spec(s)[i] != '<' && esc_spec(s)[i] != '>' && esc_spec(s)[i] != '"',
    decreases s.len(),
{
    reveal_strlit("&amp;");
    reveal_strlit("&lt;");
    reveal_strlit("&gt;");
    reveal_strlit("&quot;");
    if s.len() > 0 {
        let p = esc_spec(s.drop_last());
        if i < p.len() {
            law_escaped_text_has_no_markup(s.drop_last(), i);
        } else {
            assert(esc_spec(s)[i] == esc_char(s.last())[i - p.len()]);
        }
    }
}

// ---------------------------------------------------------------------------------------
// Bar charts
// ---------------------------------------------------------------------------------------

/// Labelled values as values.
pub open spec fn chart_pairs_view(v: Seq<(String, i64)>) -> Seq<(Chars, i64)> {
    Seq::new(v.len(), |i: int| (v[i].0@, v[i].1))
}

/// One bar of a chart: its label (escaped), the bar `wd` units wide, and its value.
pub open spec fn bar_row(i: nat, label: Chars, v: i64, wd: i64) -> Chars {
    let y = i * 24 + 4;
    "<text x=\"0\" y=\""@ + dec_nat(y + 12) + "\" font-size=\"12\">"@ + esc_spec(label)
        + "</text><rect x=\"140\" y=\""@ + dec_nat(y) + "\" width=\""@ + dec_int(wd as int)
        + "\" height=\"14\"/><text x=\""@ + dec_int(146 + wd) + "\" y=\""@ + dec_nat(y + 12)
        + "\" font-size=\"12\">"@ + dec_int(v as int) + "</text>\n"@
}

/// One inline-SVG bar chart over label and value pairs, bar `i` drawn `widths[i]` wide:
/// no script, no external reference, every label escaped. Without pairs, a sentence.
pub open spec fn bar_chart_spec(title: Chars, pairs: Seq<(Chars, i64)>, widths: Seq<i64>) -> Chars {
    if pairs.len() == 0 {
        "<p>No data for "@ + esc_spec(title) + ".</p>\n"@
    } else {
        "<svg class=\"chart\" width=\"600\" height=\""@ + dec_nat(pairs.len() * 24 + 8)
            + "\" role=\"img\" aria-label=\""@ + esc_spec(title) + "\">\n"@ + concat(
            Seq::new(pairs.len(), |i: int| bar_row(i as nat, pairs[i].0, pairs[i].1, widths[i])),
        ) + "</svg>\n"@
    }
}

/// [`bar_row`].
fn bar_row_text(i: u64, label: &str, v: i64, wd: i64) -> (r: String)
    requires
        i * 24 + 16 <= u64::MAX,
        0 <= wd <= 440,
    ensures
        r@ == bar_row(i as nat, label@, v, wd),
{
    let y = i * 24 + 4;
    let mut o = crate::text::copy_str("<text x=\"0\" y=\"");
    push_u64(&mut o, y + 12);
    o.append("\" font-size=\"12\">");
    o.append(esc(label).as_str());
    o.append("</text><rect x=\"140\" y=\"");
    push_u64(&mut o, y);
    o.append("\" width=\"");
    push_i64(&mut o, wd);
    o.append("\" height=\"14\"/><text x=\"");
    push_i64(&mut o, 146 + wd);
    o.append("\" y=\"");
    push_u64(&mut o, y + 12);
    o.append("\" font-size=\"12\">");
    push_i64(&mut o, v);
    o.append("</text>\n");
    o
}

/// [`bar_chart_spec`]; the widths (between 0 and 440) are the caller's.
pub fn bar_chart(title: &str, pairs: &Vec<(String, i64)>, widths: &Vec<i64>) -> (r: String)
    requires
        widths@.len() == pairs@.len(),
        pairs@.len() * 24 + 8 <= u64::MAX,
        forall|i: int| 0 <= i < widths@.len() ==> 0 <= #[trigger] widths@[i] <= 440,
    ensures
        r@ == bar_chart_spec(title@, chart_pairs_view(pairs@), widths@),
{
    let ghost pv = chart_pairs_view(pairs@);
    if pairs.len() == 0 {
        let mut o = crate::text::copy_str("<p>No data for ");
        o.append(esc(title).as_str());
        o.append(".</p>\n");
        return o;
    }
    let n = pairs.len() as u64;
    let mut o = crate::text::copy_str("<svg class=\"chart\" width=\"600\" height=\"");
    push_u64(&mut o, n * 24 + 8);
    o.append("\" role=\"img\" aria-label=\"");
    o.append(esc(title).as_str());
    o.append("\">\n");
    let ghost head = o@;
    let ghost f = |i: int| bar_row(i as nat, pv[i].0, pv[i].1, widths@[i]);
    let mut k: usize = 0;
    while k < pairs.len()
        invariant
            k <= pairs@.len(),
            widths@.len() == pairs@.len(),
            pairs@.len() * 24 + 8 <= u64::MAX,
            forall|i: int| 0 <= i < widths@.len() ==> 0 <= #[trigger] widths@[i] <= 440,
            pv == chart_pairs_view(pairs@),
            f == (|i: int| bar_row(i as nat, pv[i].0, pv[i].1, widths@[i])),
            o@ == head + concat(Seq::new(k as nat, f)),
        decreases pairs@.len() - k,
    {
        let row = bar_row_text(k as u64, pairs[k].0.as_str(), pairs[k].1, widths[k]);
        o.append(row.as_str());
        proof {
            crate::graph::lemma_concat_step(f, k as nat);
            assert(pv[k as int] == (pairs@[k as int].0@, pairs@[k as int].1));
        }
        k += 1;
    }
    o.append("</svg>\n");
    o
}

/// How wide each bar of a document's three charts is drawn.
pub struct ChartWidths {
    pub savings: Vec<i64>,
    pub calls: Vec<i64>,
    pub cache: Vec<i64>,
}

/// The saved tokens per plugin.
pub open spec fn savings_pairs(doc: Document) -> Seq<(Chars, i64)> {
    Seq::new(doc.ledgers.savings.rows@.len(), |i: int| (doc.ledgers.savings.rows@[i].plugin@, doc.ledgers.savings.rows@[i].saved))
}

/// The calls per surface (a count read as `i64`).
pub open spec fn calls_pairs(doc: Document) -> Seq<(Chars, i64)> {
    Seq::new(doc.ledgers.calls.rows@.len(), |i: int| (doc.ledgers.calls.rows@[i].surface@, doc.ledgers.calls.rows@[i].calls as i64))
}

/// The busts per cause (a count read as `i64`).
pub open spec fn cache_pairs(doc: Document) -> Seq<(Chars, i64)> {
    Seq::new(doc.ledgers.cache.by_cause@.len(), |i: int| (doc.ledgers.cache.by_cause@[i].0@, doc.ledgers.cache.by_cause@[i].1 as i64))
}

/// Widths fit a chart: one per bar, each between 0 and 440, and the chart's height fits.
pub open spec fn widths_fit(widths: Seq<i64>, n: nat) -> bool {
    &&& widths.len() == n
    &&& n * 24 + 8 <= u64::MAX
    &&& forall|i: int| 0 <= i < widths.len() ==> 0 <= #[trigger] widths[i] <= 440
}

/// The three charts of a document ([`bar_chart_spec`]): saved tokens per plugin, calls per
/// surface, busts per cause, drawn with the caller's bar widths.
pub fn draw_charts(doc: &Document, widths: &ChartWidths) -> (r: HtmlCharts)
    requires
        widths_fit(widths.savings@, doc.ledgers.savings.rows@.len()),
        widths_fit(widths.calls@, doc.ledgers.calls.rows@.len()),
        widths_fit(widths.cache@, doc.ledgers.cache.by_cause@.len()),
    ensures
        r.savings@ == bar_chart_spec("saved tokens per plugin"@, savings_pairs(*doc), widths.savings@),
        r.calls@ == bar_chart_spec("calls per surface"@, calls_pairs(*doc), widths.calls@),
        r.cache@ == bar_chart_spec("busts per cause"@, cache_pairs(*doc), widths.cache@),
{
    let l = &doc.ledgers;
    let mut sp: Vec<(String, i64)> = Vec::new();
    let mut i: usize = 0;
    while i < l.savings.rows.len()
        invariant
            i <= l.savings.rows@.len(),
            chart_pairs_view(sp@) == savings_pairs(*doc).take(i as int),
            l == &doc.ledgers,
        decreases l.savings.rows@.len() - i,
    {
        let ghost before = sp@;
        sp.push((crate::text::copy_str(l.savings.rows[i].plugin.as_str()), l.savings.rows[i].saved));
        assert(chart_pairs_view(sp@) =~= chart_pairs_view(before).push(savings_pairs(*doc)[i as int]));
        assert(savings_pairs(*doc).take(i + 1) =~= savings_pairs(*doc).take(i as int).push(savings_pairs(*doc)[i as int]));
        i += 1;
    }
    assert(savings_pairs(*doc).take(l.savings.rows@.len() as int) =~= savings_pairs(*doc));
    let mut cp: Vec<(String, i64)> = Vec::new();
    let mut i: usize = 0;
    while i < l.calls.rows.len()
        invariant
            i <= l.calls.rows@.len(),
            chart_pairs_view(cp@) == calls_pairs(*doc).take(i as int),
            l == &doc.ledgers,
        decreases l.calls.rows@.len() - i,
    {
        let ghost before = cp@;
        let c = l.calls.rows[i].calls as i64;
        cp.push((crate::text::copy_str(l.calls.rows[i].surface.as_str()), c));
        assert(chart_pairs_view(cp@) =~= chart_pairs_view(before).push(calls_pairs(*doc)[i as int]));
        assert(calls_pairs(*doc).take(i + 1) =~= calls_pairs(*doc).take(i as int).push(calls_pairs(*doc)[i as int]));
        i += 1;
    }
    assert(calls_pairs(*doc).take(l.calls.rows@.len() as int) =~= calls_pairs(*doc));
    let mut kp: Vec<(String, i64)> = Vec::new();
    let mut i: usize = 0;
    while i < l.cache.by_cause.len()
        invariant
            i <= l.cache.by_cause@.len(),
            chart_pairs_view(kp@) == cache_pairs(*doc).take(i as int),
            l == &doc.ledgers,
        decreases l.cache.by_cause@.len() - i,
    {
        let ghost before = kp@;
        let c = l.cache.by_cause[i].1 as i64;
        kp.push((crate::text::copy_str(l.cache.by_cause[i].0.as_str()), c));
        assert(chart_pairs_view(kp@) =~= chart_pairs_view(before).push(cache_pairs(*doc)[i as int]));
        assert(cache_pairs(*doc).take(i + 1) =~= cache_pairs(*doc).take(i as int).push(cache_pairs(*doc)[i as int]));
        i += 1;
    }
    assert(cache_pairs(*doc).take(l.cache.by_cause@.len() as int) =~= cache_pairs(*doc));
    HtmlCharts {
        savings: bar_chart("saved tokens per plugin", &sp, &widths.savings),
        calls: bar_chart("calls per surface", &cp, &widths.calls),
        cache: bar_chart("busts per cause", &kp, &widths.cache),
    }
}

} // verus!
