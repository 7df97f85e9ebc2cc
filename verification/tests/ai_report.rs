use rtok::ai::{render, sections};
use rtok::report::{
    ConfigEntry, Document, Recommendation, ReportCache, ReportCalls, ReportCallsSection, ReportExpand,
    ReportLedgers, ReportSavings, ReportSavingsSection, ReportSinksSection, ReportWindow,
};

const IDS: [&str; 8] = ["window", "savings", "calls", "cache", "expand", "config", "doctor", "recommendations"];

fn doc() -> Document {
    Document {
        ledgers: ReportLedgers {
            window: ReportWindow {
                since: "30d".into(),
                from_unix: 1,
                to_unix: 2,
                from_date: "2026-08-10".into(),
                to_date: "2026-09-09".into(),
                db_path: "/tmp/rtok.db".into(),
                calls_in_window: 7,
                calls_total: 7,
                measurements: 3,
                usage: 3,
            },
            savings: ReportSavingsSection {
                rows: vec![ReportSavings { plugin: "cmd".into(), rows: 1, est_before: 25, est_after: 10, saved: 15 }],
                total_rows: 1,
                total_saved: 15,
                kinds: vec![],
            },
            sinks: ReportSinksSection { rows: vec![] },
            calls: ReportCallsSection {
                rows: vec![ReportCalls {
                    surface: "hook".into(),
                    calls: 2,
                    timed: 2,
                    p50_ms: Some("2.0".into()),
                    p95_ms: Some("4.0".into()),
                }],
                in_window: 2,
                total: 2,
                hooks: vec![],
            },
            cache: ReportCache { sessions: 1, turns: 3, busts: 1, by_cause: vec![("tools".to_string(), 1)], detail: vec![] },
            expand: ReportExpand {
                decisions: 3,
                expanded: 1,
                rate_pct: "33.3".into(),
                expanded_ids: vec!["abc".into()],
                cost: 0,
                cost_rows: 0,
            },
        },
        config: vec![ConfigEntry { key: "report.since".into(), value: "30d".into(), source: "user".into() }],
        doctor: "hooks: 2 (PostToolUse 1, PreToolUse 1)\nproxy: 8787".into(),
        recommendations: vec![
            Recommendation { rule: "expand-rate".into(), finding: "pointers frozen".into(), evidence: "3 rows".into() },
            Recommendation { rule: "cache-bust".into(), finding: "tools rewritten".into(), evidence: "1 turn".into() },
        ],
    }
}

/// The test's token measure for each section: a quarter of its bytes.
fn costs(d: &Document) -> Vec<u32> {
    sections(d).iter().map(|s| (s.len() / 4) as u32).collect()
}

fn render_with(d: &Document, budget: u32) -> String {
    render(d, budget, &costs(d))
}

#[test]
fn recommendations_close_as_an_explicit_task_list() {
    let out = render_with(&doc(), 8000);
    let tail = &out[out.find("#recommendations").expect("id")..];
    assert!(tail.contains("1. [expand-rate] pointers frozen (3 rows)"));
    assert!(tail.contains("2. [cache-bust] tools rewritten (1 turn)"));
    assert!(out.ends_with("2. [cache-bust] tools rewritten (1 turn)\n"), "nothing follows the task list");

    let mut empty = doc();
    empty.recommendations.clear();
    let out = render_with(&empty, 8000);
    assert!(out.contains("no recommendations."));
}

#[test]
fn tight_budget_drops_whole_sections_and_names_them() {
    let full = render_with(&doc(), 8000);
    assert!(full.contains("dropped: none"));
    let out = render_with(&doc(), 120);
    assert!(!out.contains("dropped: none"), "{out}");
    let dropped: Vec<&str> = out.lines().find(|l| l.starts_with("dropped: ")).expect("dropped line")[9..]
        .split(',')
        .collect();
    assert!(!dropped.is_empty());
    for id in &dropped {
        assert!(IDS.contains(id), "named drops are section ids: {id} in {out}");
        assert!(!out.contains(&format!("#{id}\n")), "a dropped section leaves no heading: {id}");
    }
    for line in out.lines().filter(|l| l.starts_with('[') && l.contains("]{")) {
        let n: usize = line[1..line.find(']').unwrap()].parse().unwrap();
        assert!(n > 0, "kept block is non-empty: {line}");
    }
}

#[test]
fn heading_ids_are_stable_across_runs() {
    let (a, b) = (render_with(&doc(), 8000), render_with(&doc(), 8000));
    assert_eq!(a, b);
    let ids: Vec<String> = a.lines().filter(|l| l.starts_with('#')).map(str::to_string).collect();
    assert_eq!(ids, IDS.iter().map(|id| format!("#{id}")).collect::<Vec<_>>(), "every section carries its stable id, in order");
}

#[test]
fn tables_are_toon_and_numbers_keep_units() {
    let out = render_with(&doc(), 8000);
    assert!(!out.contains("| ---"), "no Markdown pipe tables");
    assert!(out.contains("[1]{plugin,rows,est_before,est_after,saved}:"));
    assert!(out.contains("total_saved=15tok rows=1"));
    assert!(out.contains("units:"));
}

#[test]
fn the_header_names_the_range_and_every_kept_section_follows_in_order() {
    let out = render(&doc(), 30, &vec![10, 25, 5, 5, 100, 10, 0, 1]);
    assert!(out.starts_with(
        "rtok-report ai\nrange 2026-08-10..2026-09-09 window=30d store=/tmp/rtok.db\ndropped: savings,expand,recommendations\n#window\n"
    ), "{out}");
    let ids: Vec<&str> = out.lines().filter(|l| l.starts_with('#')).collect();
    assert_eq!(ids, ["#window", "#calls", "#cache", "#config", "#doctor"]);
}

#[test]
fn two_column_tables_are_key_value_lines_and_untimed_latency_is_blank() {
    let mut d = doc();
    d.ledgers.calls.rows[0].p95_ms = None;
    let s = sections(&d);
    assert_eq!(s[3], "units: counts from usage rows, whole ledger\ncause=tools busts=1\nturns=3 sessions=1 busts=1\n");
    assert!(s[2].contains("\n  hook,2,2,2.0,\n"), "{}", s[2]);
    assert_eq!(s[6], "units: live probes, not store rows\nhooks: 2 (PostToolUse 1, PreToolUse 1)\nproxy: 8787\n");
    assert_eq!(
        s[0],
        "units: row counts per ledger\n[3]{ledger,in_window,total,coverage}:\n  calls,7,7,window 30d\n  measurements,,3,whole ledger no row times\n  usage,,3,whole ledger no row times\nsince=30d\n"
    );
    assert_eq!(s[4], "units: counts; rate = expanded/decisions\ndecisions=3 expanded=1 rate=33.3% expanded_ids=abc\n");
}
