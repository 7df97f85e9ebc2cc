//! The report shaped for a model: dense plain lines under stable `#id` anchors, tables in
//! the TOON encoding (or `k=v` lines where a table is not tabular), every number with its
//! unit. One token budget: sections are kept in order while they fit and dropped whole,
//! and named, once they do not. The token cost of each section is measured by the caller
//! and handed in.

use vstd::prelude::*;

use crate::graph::concat;
use crate::report::{Document, ReportCallsSection, ReportCache, ReportExpand, ReportSavingsSection, ReportWindow};
use crate::text::{chars_of, dec_int, dec_nat, join, join_strings, push_i64, push_u64, views, Chars};
use crate::toon::{encode, encode_spec, Cell, CellV};

verus! {

// ---------------------------------------------------------------------------------------
// Tables
// ---------------------------------------------------------------------------------------

/// One cell on one line: line breaks and carriage returns become spaces.
pub open spec fn flat_spec(s: Chars) -> Chars {
    Seq::new(
        s.len(),
        |i: int|
            if s[i] == '\n' || s[i] == '\r' {
                ' '
            } else {
                s[i]
            },
    )
}

/// The rows of a text table as TOON rows of string cells.
pub open spec fn str_rows(keys: Seq<Chars>, rows: Seq<Seq<Chars>>) -> Seq<Seq<(Chars, CellV)>> {
    Seq::new(
        rows.len(),
        |i: int| Seq::new(keys.len(), |j: int| (keys[j], CellV::Str(flat_spec(rows[i][j])))),
    )
}

/// A row as `key=value` pairs, space separated.
pub open spec fn flat_line(keys: Seq<Chars>, row: Seq<Chars>) -> Chars {
    join(Seq::new(keys.len(), |j: int| keys[j] + "="@ + flat_spec(row[j])), " "@)
}

/// A table as one `key=value` line per row.
pub open spec fn flat_lines_spec(keys: Seq<Chars>, rows: Seq<Seq<Chars>>) -> Chars {
    join(Seq::new(rows.len(), |i: int| flat_line(keys, rows[i])), "\n"@)
}

/// A table: a TOON block when it has rows and at least three columns, `key=value` lines
/// otherwise; a line break ends it.
pub open spec fn table_spec(keys: Seq<Chars>, rows: Seq<Seq<Chars>>) -> Chars {
    (if rows.len() >= 1 && keys.len() >= 3 {
        encode_spec(str_rows(keys, rows), keys)
    } else {
        flat_lines_spec(keys, rows)
    }) + "\n"@
}

/// Text rows as values.
pub open spec fn text_rows(rows: Seq<Vec<String>>) -> Seq<Seq<Chars>> {
    Seq::new(rows.len(), |i: int| views(rows[i]@))
}

/// [`flat_spec`].
fn flat(s: &str) -> (r: String)
    ensures
        r@ == flat_spec(s@),
{
    let c = chars_of(s);
    let mut v: Vec<char> = Vec::new();
    let mut i: usize = 0;
    while i < c.len()
        invariant
            i <= c@.len(),
            c@ == s@,
            v@ == flat_spec(s@).take(i as int),
        decreases c@.len() - i,
    {
        let ch = if c[i] == '\n' || c[i] == '\r' {
            ' '
        } else {
            c[i]
        };
        v.push(ch);
        assert(flat_spec(s@).take(i + 1) =~= flat_spec(s@).take(i as int).push(ch));
        i += 1;
    }
    assert(flat_spec(s@).take(c@.len() as int) =~= flat_spec(s@));
    crate::text::string_from(v.as_slice())
}

/// [`flat_line`].
fn flat_line_text(keys: &Vec<String>, row: &Vec<String>) -> (r: String)
    requires
        row@.len() == keys@.len(),
    ensures
        r@ == flat_line(views(keys@), views(row@)),
{
    let ghost kv = views(keys@);
    let ghost rv = views(row@);
    let ghost want = Seq::new(kv.len(), |j: int| kv[j] + "="@ + flat_spec(rv[j]));
    let mut parts: Vec<String> = Vec::new();
    let mut j: usize = 0;
    while j < keys.len()
        invariant
            j <= keys@.len(),
            row@.len() == keys@.len(),
            kv == views(keys@),
            rv == views(row@),
            want == Seq::new(kv.len(), |m: int| kv[m] + "="@ + flat_spec(rv[m])),
            views(parts@) == want.take(j as int),
        decreases keys@.len() - j,
    {
        let mut p = crate::text::copy_str(keys[j].as_str());
        p.append("=");
        let f = flat(row[j].as_str());
        p.append(f.as_str());
        let ghost before = parts@;
        parts.push(p);
        assert(views(parts@) =~= views(before).push(p@));
        assert(want.take(j + 1) =~= want.take(j as int).push(want[j as int]));
        j += 1;
    }
    assert(want.take(kv.len() as int) =~= want);
    join_strings(parts.as_slice(), " ")
}

/// [`table_spec`]: the rows of a table under `keys`, each row as wide as `keys`.
fn table(keys: &Vec<String>, rows: &Vec<Vec<String>>) -> (r: String)
    requires
        forall|i: int| 0 <= i < rows@.len() ==> (#[trigger] rows@[i])@.len() == keys@.len(),
    ensures
        r@ == table_spec(views(keys@), text_rows(rows@)),
{
    let ghost kv = views(keys@);
    let ghost tr = text_rows(rows@);
    let mut out = if rows.len() >= 1 && keys.len() >= 3 {
        let ghost want = str_rows(kv, tr);
        let mut cells: Vec<Vec<(String, Cell)>> = Vec::new();
        let mut i: usize = 0;
        while i < rows.len()
            invariant
                i <= rows@.len(),
                kv == views(keys@),
                tr == text_rows(rows@),
                want == str_rows(kv, tr),
                forall|m: int| 0 <= m < rows@.len() ==> (#[trigger] rows@[m])@.len() == keys@.len(),
                crate::toon::rows_view(cells@) == want.take(i as int),
            decreases rows@.len() - i,
        {
            let ghost wi = want[i as int];
            let mut row: Vec<(String, Cell)> = Vec::new();
            let mut j: usize = 0;
            while j < keys.len()
                invariant
                    j <= keys@.len(),
                    i < rows@.len(),
                    rows@[i as int]@.len() == keys@.len(),
                    kv == views(keys@),
                    tr == text_rows(rows@),
                    wi == Seq::new(kv.len(), |m: int| (kv[m], CellV::Str(flat_spec(tr[i as int][m])))),
                    crate::toon::entries_view(row@) == wi.take(j as int),
                decreases keys@.len() - j,
            {
                let k = crate::text::copy_str(keys[j].as_str());
                let v = flat(rows[i][j].as_str());
                let ghost before = row@;
                row.push((k, Cell::Str(v)));
                assert(crate::toon::entries_view(row@) =~= crate::toon::entries_view(before).push(
                    (k@, CellV::Str(v@)),
                ));
                assert(tr[i as int][j as int] == rows@[i as int]@[j as int]@);
                assert(wi.take(j + 1) =~= wi.take(j as int).push(wi[j as int]));
                j += 1;
            }
            assert(wi.take(kv.len() as int) =~= wi);
            let ghost before = cells@;
            cells.push(row);
            assert(crate::toon::rows_view(cells@) =~= crate::toon::rows_view(before).push(wi));
            assert(want.take(i + 1) =~= want.take(i as int).push(wi));
            i += 1;
        }
        assert(want.take(tr.len() as int) =~= want);
        encode(&cells, keys)
    } else {
        let ghost want = Seq::new(tr.len(), |m: int| flat_line(kv, tr[m]));
        let mut lines: Vec<String> = Vec::new();
        let mut i: usize = 0;
        while i < rows.len()
            invariant
                i <= rows@.len(),
                kv == views(keys@),
                tr == text_rows(rows@),
                want == Seq::new(tr.len(), |m: int| flat_line(kv, tr[m])),
                forall|m: int| 0 <= m < rows@.len() ==> (#[trigger] rows@[m])@.len() == keys@.len(),
                views(lines@) == want.take(i as int),
            decreases rows@.len() - i,
        {
            let l = flat_line_text(keys, &rows[i]);
            let ghost before = lines@;
            lines.push(l);
            assert(views(lines@) =~= views(before).push(l@));
            assert(want.take(i + 1) =~= want.take(i as int).push(want[i as int]));
            i += 1;
        }
        assert(want.take(tr.len() as int) =~= want);
        join_strings(lines.as_slice(), "\n")
    };
    out.append("\n");
    out
}

/// `n` in decimal.
fn nat_text(n: u64) -> (s: String)
    ensures
        s@ == dec_nat(n as nat),
{
    let mut s = String::new();
    push_u64(&mut s, n);
    s
}

/// `n` in decimal, signed.
fn int_text(n: i64) -> (s: String)
    ensures
        s@ == dec_int(n as int),
{
    let mut s = String::new();
    push_i64(&mut s, n);
    s
}

/// A vector of owned copies of literal texts.
fn texts(a: &str, b: &str, c: &str, d: &str, e: &str, n: usize) -> (v: Vec<String>)
    requires
        1 <= n <= 5,
    ensures
        views(v@) == seq![a@, b@, c@, d@, e@].take(n as int),
{
    let mut v: Vec<String> = Vec::new();
    v.push(crate::text::copy_str(a));
    if n >= 2 {
        v.push(crate::text::copy_str(b));
    }
    if n >= 3 {
        v.push(crate::text::copy_str(c));
    }
    if n >= 4 {
        v.push(crate::text::copy_str(d));
    }
    if n >= 5 {
        v.push(crate::text::copy_str(e));
    }
    assert(views(v@) =~= seq![a@, b@, c@, d@, e@].take(n as int));
    v
}


// ---------------------------------------------------------------------------------------
// Sections
// ---------------------------------------------------------------------------------------

/// The window section: the row count of each ledger and what it covers.
pub open spec fn window_ai(w: ReportWindow) -> Chars {
    "units: row counts per ledger\n"@ + table_spec(
        seq!["ledger"@, "in_window"@, "total"@, "coverage"@],
        seq![
            seq!["calls"@, dec_nat(w.calls_in_window as nat), dec_nat(w.calls_total as nat), "window "@ + w.since@],
            seq!["measurements"@, Seq::empty(), dec_nat(w.measurements as nat), "whole ledger no row times"@],
            seq!["usage"@, Seq::empty(), dec_nat(w.usage as nat), "whole ledger no row times"@],
        ],
    ) + "since="@ + w.since@ + "\n"@
}

/// The savings section: estimated tokens per plugin, and the totals.
pub open spec fn savings_ai(sav: ReportSavingsSection) -> Chars {
    let head = "units: est tokens, floors from Measurement rows (no turn counts); expand rows negative\n"@;
    let rows = sav.rows@;
    if rows.len() == 0 {
        head + "no rows.\n"@
    } else {
        head + table_spec(
            seq!["plugin"@, "rows"@, "est_before"@, "est_after"@, "saved"@],
            Seq::new(
                rows.len(),
                |i: int|
                    seq![
                        rows[i].plugin@,
                        dec_nat(rows[i].rows as nat),
                        dec_int(rows[i].est_before as int),
                        dec_int(rows[i].est_after as int),
                        dec_int(rows[i].saved as int),
                    ],
            ),
        ) + "total_saved="@ + dec_int(sav.total_saved as int) + "tok rows="@ + dec_nat(
            sav.total_rows as nat,
        ) + "\n"@
    }
}

/// A latency as recorded; blank when the surface timed no call.
pub open spec fn ms_ai(v: Option<String>) -> Chars {
    match v {
        Some(x) => x@,
        None => Seq::empty(),
    }
}

/// The calls section: latency per surface, and the call counts.
pub open spec fn calls_ai(calls: ReportCallsSection, since: Chars) -> Chars {
    let head = "units: counts; p50_ms/p95_ms nearest-rank over timed calls, blank when untimed\n"@;
    let rows = calls.rows@;
    if calls.total == 0 {
        head + "no rows.\n"@
    } else {
        head + table_spec(
            seq!["surface"@, "calls"@, "timed"@, "p50_ms"@, "p95_ms"@],
            Seq::new(
                rows.len(),
                |i: int|
                    seq![
                        rows[i].surface@,
                        dec_nat(rows[i].calls as nat),
                        dec_nat(rows[i].timed as nat),
                        ms_ai(rows[i].p50_ms),
                        ms_ai(rows[i].p95_ms),
                    ],
            ),
        ) + "in_window="@ + dec_nat(calls.in_window as nat) + " total="@ + dec_nat(
            calls.total as nat,
        ) + " window="@ + since + "\n"@
    }
}

/// The cache section: busts per cause, and the usage counts.
pub open spec fn cache_ai(cache: ReportCache) -> Chars {
    let head = "units: counts from usage rows, whole ledger\n"@;
    let rows = cache.by_cause@;
    if cache.sessions == 0 {
        head + "no rows.\n"@
    } else {
        head + table_spec(
            seq!["cause"@, "busts"@],
            Seq::new(rows.len(), |i: int| seq![rows[i].0@, dec_nat(rows[i].1 as nat)]),
        ) + "turns="@ + dec_nat(cache.turns as nat) + " sessions="@ + dec_nat(cache.sessions as nat)
            + " busts="@ + dec_nat(cache.busts as nat) + "\n"@
    }
}

/// The expand section: decisions, re-expansions and their rate.
pub open spec fn expand_ai(e: ReportExpand) -> Chars {
    let head = "units: counts; rate = expanded/decisions\n"@;
    if e.decisions == 0 {
        head + "no rows.\n"@
    } else {
        head + "decisions="@ + dec_int(e.decisions as int) + " expanded="@ + dec_int(
            e.expanded as int,
        ) + " rate="@ + e.rate_pct@ + "% expanded_ids="@ + (if e.expanded_ids@.len() == 0 {
            "none"@
        } else {
            join(views(e.expanded_ids@), ","@)
        }) + "\n"@
    }
}

/// The config section: every effective key with its value and origin.
pub open spec fn config_ai(doc: Document) -> Chars {
    let rows = doc.config@;
    "units: effective keys with origin\n"@ + table_spec(
        seq!["key"@, "value"@, "source"@],
        Seq::new(rows.len(), |i: int| seq![rows[i].key@, rows[i].value@, rows[i].source@]),
    ) + "keys="@ + dec_nat(rows.len()) + "\n"@
}

/// The doctor section: the probes' text, ending with a line break.
pub open spec fn doctor_ai(doctor: Chars) -> Chars {
    "units: live probes, not store rows\n"@ + doctor + if doctor.len() > 0 && doctor.last() != '\n' {
        "\n"@
    } else {
        Seq::empty()
    }
}

/// The recommendations section: a numbered task list.
pub open spec fn recommendations_ai(doc: Document) -> Chars {
    let head = "units: rules over ledgers, most recoverable tokens first\n"@;
    let r = doc.recommendations@;
    if r.len() == 0 {
        head + "no recommendations.\n"@
    } else {
        head + concat(
            Seq::new(
                r.len(),
                |i: int|
                    dec_nat((i + 1) as nat) + ". ["@ + r[i].rule@ + "] "@ + r[i].finding@ + " ("@
                        + r[i].evidence@ + ")\n"@,
            ),
        )
    }
}

/// [`window_ai`].
fn window_section(w: &ReportWindow) -> (s: String)
    ensures
        s@ == window_ai(*w),
{
    let keys = texts("ledger", "in_window", "total", "coverage", "", 4);
    let mut cover = "window ".to_owned();
    cover.append(w.since.as_str());
    let mut rows: Vec<Vec<String>> = Vec::new();
    let mut r0: Vec<String> = Vec::new();
    r0.push("calls".to_owned());
    r0.push(nat_text(w.calls_in_window));
    r0.push(nat_text(w.calls_total));
    r0.push(cover);
    let mut r1: Vec<String> = Vec::new();
    r1.push("measurements".to_owned());
    r1.push(String::new());
    r1.push(nat_text(w.measurements));
    r1.push("whole ledger no row times".to_owned());
    let mut r2: Vec<String> = Vec::new();
    r2.push("usage".to_owned());
    r2.push(String::new());
    r2.push(nat_text(w.usage));
    r2.push("whole ledger no row times".to_owned());
    rows.push(r0);
    rows.push(r1);
    rows.push(r2);
    assert(views(keys@) =~= seq!["ledger"@, "in_window"@, "total"@, "coverage"@]);
    assert(forall|m: int| 0 <= m < rows@.len() ==> (#[trigger] rows@[m])@.len() == keys@.len());
    let t = table(&keys, &rows);
    assert(text_rows(rows@) =~= seq![
        seq!["calls"@, dec_nat(w.calls_in_window as nat), dec_nat(w.calls_total as nat), "window "@ + w.since@],
        seq!["measurements"@, Seq::empty(), dec_nat(w.measurements as nat), "whole ledger no row times"@],
        seq!["usage"@, Seq::empty(), dec_nat(w.usage as nat), "whole ledger no row times"@],
    ]) by {
        assert(views(rows@[0]@) =~= seq!["calls"@, dec_nat(w.calls_in_window as nat), dec_nat(w.calls_total as nat), "window "@ + w.since@]);
        assert(views(rows@[1]@) =~= seq!["measurements"@, Seq::empty(), dec_nat(w.measurements as nat), "whole ledger no row times"@]);
        assert(views(rows@[2]@) =~= seq!["usage"@, Seq::empty(), dec_nat(w.usage as nat), "whole ledger no row times"@]);
    }
    let mut s = "units: row counts per ledger\n".to_owned();
    s.append(t.as_str());
    s.append("since=");
    s.append(w.since.as_str());
    s.append("\n");
    s
}

/// [`savings_ai`].
fn savings_section(sav: &ReportSavingsSection) -> (s: String)
    ensures
        s@ == savings_ai(*sav),
{
    let mut s = "units: est tokens, floors from Measurement rows (no turn counts); expand rows negative\n".to_owned();
    if sav.rows.len() == 0 {
        s.append("no rows.\n");
        return s;
    }
    let keys = texts("plugin", "rows", "est_before", "est_after", "saved", 5);
    let ghost rv = sav.rows@;
    let ghost want = Seq::new(
        rv.len(),
        |i: int|
            seq![
                rv[i].plugin@,
                dec_nat(rv[i].rows as nat),
                dec_int(rv[i].est_before as int),
                dec_int(rv[i].est_after as int),
                dec_int(rv[i].saved as int),
            ],
    );
    let mut rows: Vec<Vec<String>> = Vec::new();
    let mut i: usize = 0;
    while i < sav.rows.len()
        invariant
            i <= rv.len(),
            rv == sav.rows@,
            want == Seq::new(
                rv.len(),
                |m: int|
                    seq![
                        rv[m].plugin@,
                        dec_nat(rv[m].rows as nat),
                        dec_int(rv[m].est_before as int),
                        dec_int(rv[m].est_after as int),
                        dec_int(rv[m].saved as int),
                    ],
            ),
            text_rows(rows@) == want.take(i as int),
            forall|m: int| 0 <= m < rows@.len() ==> (#[trigger] rows@[m])@.len() == 5,
        decreases rv.len() - i,
    {
        let r = &sav.rows[i];
        let mut row: Vec<String> = Vec::new();
        row.push(crate::text::copy_str(r.plugin.as_str()));
        row.push(nat_text(r.rows));
        row.push(int_text(r.est_before));
        row.push(int_text(r.est_after));
        row.push(int_text(r.saved));
        assert(views(row@) =~= want[i as int]);
        let ghost before = rows@;
        rows.push(row);
        assert(text_rows(rows@) =~= text_rows(before).push(views(row@)));
        assert(want.take(i + 1) =~= want.take(i as int).push(want[i as int]));
        i += 1;
    }
    assert(want.take(rv.len() as int) =~= want);
    assert(views(keys@) =~= seq!["plugin"@, "rows"@, "est_before"@, "est_after"@, "saved"@]);
    let t = table(&keys, &rows);
    s.append(t.as_str());
    s.append("total_saved=");
    push_i64(&mut s, sav.total_saved);
    s.append("tok rows=");
    push_u64(&mut s, sav.total_rows);
    s.append("\n");
    s
}

/// [`ms_ai`].
fn ms_text(v: &Option<String>) -> (s: String)
    ensures
        s@ == ms_ai(*v),
{
    match v {
        Some(x) => crate::text::copy_str(x.as_str()),
        None => String::new(),
    }
}

/// [`calls_ai`].
fn calls_section(calls: &ReportCallsSection, since: &str) -> (s: String)
    ensures
        s@ == calls_ai(*calls, since@),
{
    let mut s = "units: counts; p50_ms/p95_ms nearest-rank over timed calls, blank when untimed\n".to_owned();
    if calls.total == 0 {
        s.append("no rows.\n");
        return s;
    }
    let keys = texts("surface", "calls", "timed", "p50_ms", "p95_ms", 5);
    let ghost rv = calls.rows@;
    let ghost want = Seq::new(
        rv.len(),
        |i: int|
            seq![
                rv[i].surface@,
                dec_nat(rv[i].calls as nat),
                dec_nat(rv[i].timed as nat),
                ms_ai(rv[i].p50_ms),
                ms_ai(rv[i].p95_ms),
            ],
    );
    let mut rows: Vec<Vec<String>> = Vec::new();
    let mut i: usize = 0;
    while i < calls.rows.len()
        invariant
            i <= rv.len(),
            rv == calls.rows@,
            want == Seq::new(
                rv.len(),
                |m: int|
                    seq![
                        rv[m].surface@,
                        dec_nat(rv[m].calls as nat),
                        dec_nat(rv[m].timed as nat),
                        ms_ai(rv[m].p50_ms),
                        ms_ai(rv[m].p95_ms),
                    ],
            ),
            text_rows(rows@) == want.take(i as int),
            forall|m: int| 0 <= m < rows@.len() ==> (#[trigger] rows@[m])@.len() == 5,
        decreases rv.len() - i,
    {
        let r = &calls.rows[i];
        let mut row: Vec<String> = Vec::new();
        row.push(crate::text::copy_str(r.surface.as_str()));
        row.push(nat_text(r.calls));
        row.push(nat_text(r.timed));
        row.push(ms_text(&r.p50_ms));
        row.push(ms_text(&r.p95_ms));
        assert(views(row@) =~= want[i as int]);
        let ghost before = rows@;
        rows.push(row);
        assert(text_rows(rows@) =~= text_rows(before).push(views(row@)));
        assert(want.take(i + 1) =~= want.take(i as int).push(want[i as int]));
        i += 1;
    }
    assert(want.take(rv.len() as int) =~= want);
    assert(views(keys@) =~= seq!["surface"@, "calls"@, "timed"@, "p50_ms"@, "p95_ms"@]);
    let t = table(&keys, &rows);
    s.append(t.as_str());
    s.append("in_window=");
    push_u64(&mut s, calls.in_window);
    s.append(" total=");
    push_u64(&mut s, calls.total);
    s.append(" window=");
    s.append(since);
    s.append("\n");
    s
}

/// [`cache_ai`].
fn cache_section(cache: &ReportCache) -> (s: String)
    ensures
        s@ == cache_ai(*cache),
{
    let mut s = "units: counts from usage rows, whole ledger\n".to_owned();
    if cache.sessions == 0 {
        s.append("no rows.\n");
        return s;
    }
    let keys = texts("cause", "busts", "", "", "", 2);
    let ghost rv = cache.by_cause@;
    let ghost want = Seq::new(rv.len(), |i: int| seq![rv[i].0@, dec_nat(rv[i].1 as nat)]);
    let mut rows: Vec<Vec<String>> = Vec::new();
    let mut i: usize = 0;
    while i < cache.by_cause.len()
        invariant
            i <= rv.len(),
            rv == cache.by_cause@,
            want == Seq::new(rv.len(), |m: int| seq![rv[m].0@, dec_nat(rv[m].1 as nat)]),
            text_rows(rows@) == want.take(i as int),
            forall|m: int| 0 <= m < rows@.len() ==> (#[trigger] rows@[m])@.len() == 2,
        decreases rv.len() - i,
    {
        let mut row: Vec<String> = Vec::new();
        row.push(crate::text::copy_str(cache.by_cause[i].0.as_str()));
        row.push(nat_text(cache.by_cause[i].1));
        assert(views(row@) =~= want[i as int]);
        let ghost before = rows@;
        rows.push(row);
        assert(text_rows(rows@) =~= text_rows(before).push(views(row@)));
        assert(want.take(i + 1) =~= want.take(i as int).push(want[i as int]));
        i += 1;
    }
    assert(want.take(rv.len() as int) =~= want);
    assert(views(keys@) =~= seq!["cause"@, "busts"@]);
    let t = table(&keys, &rows);
    s.append(t.as_str());
    s.append("turns=");
    push_u64(&mut s, cache.turns);
    s.append(" sessions=");
    push_u64(&mut s, cache.sessions);
    s.append(" busts=");
    push_u64(&mut s, cache.busts);
    s.append("\n");
    s
}

/// [`expand_ai`].
fn expand_section(e: &ReportExpand) -> (s: String)
    ensures
        s@ == expand_ai(*e),
{
    let mut s = "units: counts; rate = expanded/decisions\n".to_owned();
    if e.decisions == 0 {
        s.append("no rows.\n");
        return s;
    }
    s.append("decisions=");
    push_i64(&mut s, e.decisions);
    s.append(" expanded=");
    push_i64(&mut s, e.expanded);
    s.append(" rate=");
    s.append(e.rate_pct.as_str());
    s.append("% expanded_ids=");
    if e.expanded_ids.len() == 0 {
        s.append("none");
    } else {
        let ids = join_strings(e.expanded_ids.as_slice(), ",");
        s.append(ids.as_str());
    }
    s.append("\n");
    s
}

/// [`config_ai`].
fn config_section(doc: &Document) -> (s: String)
    ensures
        s@ == config_ai(*doc),
{
    let keys = texts("key", "value", "source", "", "", 3);
    let ghost rv = doc.config@;
    let ghost want = Seq::new(rv.len(), |i: int| seq![rv[i].key@, rv[i].value@, rv[i].source@]);
    let mut rows: Vec<Vec<String>> = Vec::new();
    let mut i: usize = 0;
    while i < doc.config.len()
        invariant
            i <= rv.len(),
            rv == doc.config@,
            want == Seq::new(rv.len(), |m: int| seq![rv[m].key@, rv[m].value@, rv[m].source@]),
            text_rows(rows@) == want.take(i as int),
            forall|m: int| 0 <= m < rows@.len() ==> (#[trigger] rows@[m])@.len() == 3,
        decreases rv.len() - i,
    {
        let c = &doc.config[i];
        let mut row: Vec<String> = Vec::new();
        row.push(crate::text::copy_str(c.key.as_str()));
        row.push(crate::text::copy_str(c.value.as_str()));
        row.push(crate::text::copy_str(c.source.as_str()));
        assert(views(row@) =~= want[i as int]);
        let ghost before = rows@;
        rows.push(row);
        assert(text_rows(rows@) =~= text_rows(before).push(views(row@)));
        assert(want.take(i + 1) =~= want.take(i as int).push(want[i as int]));
        i += 1;
    }
    assert(want.take(rv.len() as int) =~= want);
    assert(views(keys@) =~= seq!["key"@, "value"@, "source"@]);
    let t = table(&keys, &rows);
    let mut s = "units: effective keys with origin\n".to_owned();
    s.append(t.as_str());
    s.append("keys=");
    push_u64(&mut s, doc.config.len() as u64);
    s.append("\n");
    s
}

/// [`doctor_ai`].
fn doctor_section(doctor: &str) -> (s: String)
    ensures
        s@ == doctor_ai(doctor@),
{
    let mut s = "units: live probes, not store rows\n".to_owned();
    s.append(doctor);
    let d = chars_of(doctor);
    if d.len() > 0 && d[d.len() - 1] != '\n' {
        s.append("\n");
    }
    s
}

/// [`recommendations_ai`].
fn recommendations_section(doc: &Document) -> (s: String)
    ensures
        s@ == recommendations_ai(*doc),
{
    let mut s = "units: rules over ledgers, most recoverable tokens first\n".to_owned();
    let r = &doc.recommendations;
    if r.len() == 0 {
        s.append("no recommendations.\n");
        return s;
    }
    let ghost head = s@;
    let ghost rv = r@;
    let ghost f = |i: int|
        dec_nat((i + 1) as nat) + ". ["@ + rv[i].rule@ + "] "@ + rv[i].finding@ + " ("@
            + rv[i].evidence@ + ")\n"@;
    let mut i: usize = 0;
    while i < r.len()
        invariant
            i <= rv.len(),
            rv == doc.recommendations@,
            r@ == rv,
            f == (|m: int|
                dec_nat((m + 1) as nat) + ". ["@ + rv[m].rule@ + "] "@ + rv[m].finding@ + " ("@
                    + rv[m].evidence@ + ")\n"@),
            s@ == head + concat(Seq::new(i as nat, f)),
        decreases rv.len() - i,
    {
        push_u64(&mut s, (i + 1) as u64);
        s.append(". [");
        s.append(r[i].rule.as_str());
        s.append("] ");
        s.append(r[i].finding.as_str());
        s.append(" (");
        s.append(r[i].evidence.as_str());
        s.append(")\n");
        proof {
            crate::graph::lemma_concat_step(f, i as nat);
        }
        i += 1;
    }
    s
}


// ---------------------------------------------------------------------------------------
// The report under a budget
// ---------------------------------------------------------------------------------------

/// The stable anchor of section `i`, in report order.
pub open spec fn section_id(i: int) -> Chars {
    if i == 0 {
        "window"@
    } else if i == 1 {
        "savings"@
    } else if i == 2 {
        "calls"@
    } else if i == 3 {
        "cache"@
    } else if i == 4 {
        "expand"@
    } else if i == 5 {
        "config"@
    } else if i == 6 {
        "doctor"@
    } else {
        "recommendations"@
    }
}

/// The body of section `i`.
pub open spec fn section_ai(doc: Document, i: int) -> Chars {
    let l = doc.ledgers;
    if i == 0 {
        window_ai(l.window)
    } else if i == 1 {
        savings_ai(l.savings)
    } else if i == 2 {
        calls_ai(l.calls, l.window.since@)
    } else if i == 3 {
        cache_ai(l.cache)
    } else if i == 4 {
        expand_ai(l.expand)
    } else if i == 5 {
        config_ai(doc)
    } else if i == 6 {
        doctor_ai(doc.doctor@)
    } else {
        recommendations_ai(doc)
    }
}

/// Every section body, in report order.
pub open spec fn sections_spec(doc: Document) -> Seq<Chars> {
    Seq::new(8, |i: int| section_ai(doc, i))
}

/// The budget left, and the sections kept and dropped, after the first `n`: each is kept
/// while its cost fits what is left, and dropped otherwise.
pub open spec fn select(costs: Seq<u32>, budget: int, n: int) -> (int, Seq<int>, Seq<int>)
    decreases n,
{
    if n <= 0 {
        (budget, Seq::empty(), Seq::empty())
    } else {
        let (rem, kept, dropped) = select(costs, budget, n - 1);
        if costs[n - 1] <= rem {
            (rem - costs[n - 1], kept.push(n - 1), dropped)
        } else {
            (rem, kept, dropped.push(n - 1))
        }
    }
}

/// The whole `--ai` report under `budget` tokens, section `i` costing `costs[i]`: a title,
/// the range, the dropped sections by name (or `none`), then each kept section under its
/// `#id`.
pub open spec fn render_spec(doc: Document, budget: u32, costs: Seq<u32>) -> Chars {
    let w = doc.ledgers.window;
    let (rem, kept, dropped) = select(costs, budget as int, 8);
    "rtok-report ai\n"@ + "range "@ + w.from_date@ + ".."@ + w.to_date@ + " window="@ + w.since@
        + " store="@ + w.db_path@ + "\n"@ + "dropped: "@ + (if dropped.len() == 0 {
        "none"@
    } else {
        join(Seq::new(dropped.len(), |i: int| section_id(dropped[i])), ","@)
    }) + "\n"@ + concat(
        Seq::new(kept.len(), |i: int| "#"@ + section_id(kept[i]) + "\n"@ + section_ai(doc, kept[i])),
    )
}

/// [`section_id`].
fn section_id_text(i: usize) -> (s: &'static str)
    requires
        i < 8,
    ensures
        s@ == section_id(i as int),
{
    if i == 0 {
        "window"
    } else if i == 1 {
        "savings"
    } else if i == 2 {
        "calls"
    } else if i == 3 {
        "cache"
    } else if i == 4 {
        "expand"
    } else if i == 5 {
        "config"
    } else if i == 6 {
        "doctor"
    } else {
        "recommendations"
    }
}

/// [`sections_spec`]: the body of every section, in report order.
pub fn sections(doc: &Document) -> (v: Vec<String>)
    ensures
        views(v@) == sections_spec(*doc),
{
    let l = &doc.ledgers;
    let mut v: Vec<String> = Vec::new();
    v.push(window_section(&l.window));
    v.push(savings_section(&l.savings));
    v.push(calls_section(&l.calls, l.window.since.as_str()));
    v.push(cache_section(&l.cache));
    v.push(expand_section(&l.expand));
    v.push(config_section(doc));
    v.push(doctor_section(doc.doctor.as_str()));
    v.push(recommendations_section(doc));
    assert(views(v@) =~= sections_spec(*doc));
    v
}

/// Indices as integers.
pub open spec fn ints(v: Seq<usize>) -> Seq<int> {
    Seq::new(v.len(), |i: int| v[i] as int)
}

/// [`render_spec`]: the report under `budget_tokens`, where `costs[i]` is what section `i`
/// of [`sections`] measures in tokens.
pub fn render(doc: &Document, budget_tokens: u32, costs: &Vec<u32>) -> (r: String)
    requires
        costs@.len() == 8,
    ensures
        r@ == render_spec(*doc, budget_tokens, costs@),
{
    let bodies = sections(doc);
    let ghost cv = costs@;
    let mut rem = budget_tokens;
    let mut kept: Vec<usize> = Vec::new();
    let mut dropped: Vec<usize> = Vec::new();
    let mut i: usize = 0;
    while i < 8
        invariant
            i <= 8,
            cv == costs@,
            cv.len() == 8,
            select(cv, budget_tokens as int, i as int) == (rem as int, ints(kept@), ints(dropped@)),
            forall|m: int| 0 <= m < kept@.len() ==> kept@[m] < i,
            forall|m: int| 0 <= m < dropped@.len() ==> dropped@[m] < i,
        decreases 8 - i,
    {
        let ghost k0 = kept@;
        let ghost d0 = dropped@;
        if costs[i] <= rem {
            rem = rem - costs[i];
            kept.push(i);
            assert(ints(kept@) =~= ints(k0).push(i as int));
        } else {
            dropped.push(i);
            assert(ints(dropped@) =~= ints(d0).push(i as int));
        }
        i += 1;
    }
    let w = &doc.ledgers.window;
    let mut s = "rtok-report ai\n".to_owned();
    s.append("range ");
    s.append(w.from_date.as_str());
    s.append("..");
    s.append(w.to_date.as_str());
    s.append(" window=");
    s.append(w.since.as_str());
    s.append(" store=");
    s.append(w.db_path.as_str());
    s.append("\n");
    s.append("dropped: ");
    let ghost dv = ints(dropped@);
    if dropped.len() == 0 {
        s.append("none");
    } else {
        let mut names: Vec<String> = Vec::new();
        let mut j: usize = 0;
        while j < dropped.len()
            invariant
                j <= dropped@.len(),
                dv == ints(dropped@),
                forall|m: int| 0 <= m < dropped@.len() ==> dropped@[m] < 8,
                views(names@) == Seq::new(dv.len(), |m: int| section_id(dv[m])).take(j as int),
            decreases dropped@.len() - j,
        {
            let n = crate::text::copy_str(section_id_text(dropped[j]));
            let ghost before = names@;
            names.push(n);
            assert(views(names@) =~= views(before).push(n@));
            assert(Seq::new(dv.len(), |m: int| section_id(dv[m])).take(j + 1) =~= Seq::new(
                dv.len(),
                |m: int| section_id(dv[m]),
            ).take(j as int).push(section_id(dv[j as int])));
            j += 1;
        }
        assert(Seq::new(dv.len(), |m: int| section_id(dv[m])).take(dv.len() as int) =~= Seq::new(
            dv.len(),
            |m: int| section_id(dv[m]),
        ));
        let joined = join_strings(names.as_slice(), ",");
        s.append(joined.as_str());
    }
    s.append("\n");
    let ghost head = s@;
    let ghost kv = ints(kept@);
    let ghost f = |m: int| "#"@ + section_id(kv[m]) + "\n"@ + section_ai(*doc, kv[m]);
    assert(views(bodies@).len() == bodies@.len());
    let mut j: usize = 0;
    while j < kept.len()
        invariant
            j <= kept@.len(),
            kv == ints(kept@),
            forall|m: int| 0 <= m < kept@.len() ==> kept@[m] < 8,
            views(bodies@) == sections_spec(*doc),
            bodies@.len() == 8,
            f == (|m: int| "#"@ + section_id(kv[m]) + "\n"@ + section_ai(*doc, kv[m])),
            s@ == head + concat(Seq::new(j as nat, f)),
        decreases kept@.len() - j,
    {
        let k = kept[j];
        s.append("#");
        s.append(section_id_text(k));
        s.append("\n");
        assert(views(bodies@)[k as int] == bodies@[k as int]@);
        assert(bodies@[k as int]@ == section_ai(*doc, k as int));
        s.append(bodies[k].as_str());
        proof {
            crate::graph::lemma_concat_step(f, j as nat);
        }
        j += 1;
    }
    s
}

/// The costs of the sections at `idx`, summed.
pub open spec fn cost_of(costs: Seq<u32>, idx: Seq<int>) -> int
    decreases idx.len(),
{
    if idx.len() == 0 {
        0
    } else {
        cost_of(costs, idx.drop_last()) + costs[idx.last()]
    }
}

/// The budget holds: what the kept sections cost and what is left add up to the budget,
/// nothing is overspent, and every section is either kept or dropped, never both, each
/// list in report order.
pub proof fn law_budget_holds(costs: Seq<u32>, budget: u32, n: int)
    requires
        0 <= n <= costs.len(),
    ensures
        ({
            let (rem, kept, dropped) = select(costs, budget as int, n);
            &&& 0 <= rem
            &&& cost_of(costs, kept) + rem == budget
            &&& cost_of(costs, kept) <= budget
            &&& kept.len() + dropped.len() == n
            &&& forall|i: int| 0 <= i < n ==> (kept.contains(i) <==> !dropped.contains(i))
            &&& forall|a: int, b: int| 0 <= a < b < kept.len() ==> kept[a] < kept[b]
            &&& forall|a: int, b: int| 0 <= a < b < dropped.len() ==> dropped[a] < dropped[b]
        }),
    decreases n,
{
    if n > 0 {
        law_budget_holds(costs, budget, n - 1);
        let (rem, kept, dropped) = select(costs, budget as int, n - 1);
        assert(forall|m: int| 0 <= m < kept.len() ==> 0 <= #[trigger] kept[m] < n - 1) by {
            lemma_select_range(costs, budget as int, n - 1);
        }
        assert(forall|m: int| 0 <= m < dropped.len() ==> 0 <= #[trigger] dropped[m] < n - 1) by {
            lemma_select_range(costs, budget as int, n - 1);
        }
        if costs[n - 1] <= rem {
            let k2 = kept.push(n - 1);
            assert(k2.drop_last() =~= kept);
            assert forall|i: int| 0 <= i < n implies (k2.contains(i) <==> !dropped.contains(i)) by {
                if i == n - 1 {
                    assert(k2[k2.len() - 1] == i);
                    if dropped.contains(i) {
                        let m = choose|m: int| 0 <= m < dropped.len() && dropped[m] == i;
                    }
                } else {
                    if k2.contains(i) {
                        let m = choose|m: int| 0 <= m < k2.len() && k2[m] == i;
                        assert(kept[m] == i);
                    }
                    if kept.contains(i) {
                        let m = choose|m: int| 0 <= m < kept.len() && kept[m] == i;
                        assert(k2[m] == i);
                    }
                }
            }
        } else {
            let d2 = dropped.push(n - 1);
            assert forall|i: int| 0 <= i < n implies (kept.contains(i) <==> !d2.contains(i)) by {
                if i == n - 1 {
                    assert(d2[d2.len() - 1] == i);
                    if kept.contains(i) {
                        let m = choose|m: int| 0 <= m < kept.len() && kept[m] == i;
                    }
                } else {
                    if d2.contains(i) {
                        let m = choose|m: int| 0 <= m < d2.len() && d2[m] == i;
                        assert(dropped[m] == i);
                    }
                    if dropped.contains(i) {
                        let m = choose|m: int| 0 <= m < dropped.len() && dropped[m] == i;
                        assert(d2[m] == i);
                    }
                }
            }
        }
    }
}

/// Every index that [`select`] lists is below `n`.
proof fn lemma_select_range(costs: Seq<u32>, budget: int, n: int)
    requires
        0 <= n <= costs.len(),
    ensures
        ({
            let (rem, kept, dropped) = select(costs, budget, n);
            &&& forall|m: int| 0 <= m < kept.len() ==> 0 <= #[trigger] kept[m] < n
            &&& forall|m: int| 0 <= m < dropped.len() ==> 0 <= #[trigger] dropped[m] < n
        }),
    decreases n,
{
    if n > 0 {
        lemma_select_range(costs, budget, n - 1);
        let (rem, kept, dropped) = select(costs, budget, n - 1);
        if costs[n - 1] <= rem {
            let k2 = kept.push(n - 1);
            assert(select(costs, budget, n) == (rem - costs[n - 1], k2, dropped));
            assert forall|m: int| 0 <= m < k2.len() implies 0 <= #[trigger] k2[m] < n by {
                if m < kept.len() {
                    assert(k2[m] == kept[m]);
                }
            }
        } else {
            let d2 = dropped.push(n - 1);
            assert(select(costs, budget, n) == (rem, kept, d2));
            assert forall|m: int| 0 <= m < d2.len() implies 0 <= #[trigger] d2[m] < n by {
                if m < dropped.len() {
                    assert(d2[m] == dropped[m]);
                }
            }
        }
    }
}

} // verus!
