use rtok::advice::{cache_busts, count, idle_by_design, recommendations, top_sinks, AdviceConfig};
use rtok::report::{
    document, ConfigEntry, Recommendation, ReportBust, ReportCache, ReportCalls, ReportCallsSection,
    ReportExpand, ReportHook, ReportLedgers, ReportSavings, ReportSavingsSection, ReportSink,
    ReportSinksSection, ReportWindow,
};

fn window(measurements: u64) -> ReportWindow {
    ReportWindow {
        since: "30d".into(),
        from_unix: 0,
        to_unix: 1,
        from_date: "1970-01-01".into(),
        to_date: "1970-01-01".into(),
        db_path: "x".into(),
        calls_in_window: 0,
        calls_total: 0,
        measurements,
        usage: 0,
    }
}

fn empty_cache() -> ReportCache {
    ReportCache { sessions: 0, turns: 0, busts: 0, by_cause: vec![], detail: vec![] }
}

fn empty_expand() -> ReportExpand {
    ReportExpand { decisions: 0, expanded: 0, rate_pct: "0.0".into(), expanded_ids: vec![], cost: 0, cost_rows: 0 }
}

fn ledgers() -> ReportLedgers {
    ReportLedgers {
        window: window(2),
        savings: ReportSavingsSection { rows: vec![], total_rows: 0, total_saved: 0, kinds: vec![] },
        sinks: ReportSinksSection { rows: vec![] },
        calls: ReportCallsSection { rows: vec![], in_window: 0, total: 0, hooks: vec![] },
        cache: empty_cache(),
        expand: empty_expand(),
    }
}

fn cfg() -> AdviceConfig {
    AdviceConfig { expand_over_max: false, max_rate_pct: "20".into(), inject_budget_tokens: 800, archive_keep_turns: 3 }
}

#[test]
fn the_session_end_rtok_installs_is_not_idle() {
    assert!(!idle_by_design("SessionEnd"));
    assert!(idle_by_design("Stop"));
}

#[test]
fn top_sinks_ranks_largest_sink_first() {
    let mut l = ledgers();
    l.sinks = ReportSinksSection {
        rows: vec![
            ReportSink { class: "cmd".into(), sink: "grep".into(), before_bytes: 200, rows: 2, switch: "[grep] rule".into() },
            ReportSink {
                class: "read".into(),
                sink: "src/a.rs".into(),
                before_bytes: 50,
                rows: 1,
                switch: "[plugins.read] default_mode = full".into(),
            },
        ],
    };
    let mut found = Vec::new();
    top_sinks(&l, &mut found);
    assert_eq!(found.len(), 2);
    assert_eq!(found[0].1.rule, "top-sinks");
    assert!(found[0].1.finding.contains("grep"), "{}", found[0].1.finding);
    assert!(found[0].0 >= found[1].0);
    assert_eq!(found[0].1.finding, "cmd grep cost 200 bytes over 2 Measurement rows — [grep] rule");
    assert_eq!(found[0].1.evidence, "2 grep rows cmd Measurement rows, 2 Measurement rows total in ledger");
}

#[test]
fn cache_busts_group_per_session_and_cause() {
    let bust = |session: &str, turn: u64, cause: &str| ReportBust {
        session: session.into(),
        turn,
        cause: cause.into(),
        cache_create: 100,
        cache_read: 0,
    };
    let detail: Vec<ReportBust> =
        (1..=8).map(|t| bust("a", t, "tools")).chain([bust("a", 9, "system"), bust("b", 1, "tools")]).collect();
    let cache = ReportCache { sessions: 2, turns: 10, busts: 10, by_cause: vec![], detail };
    let mut found = Vec::new();
    cache_busts(&cache, &mut found);
    assert_eq!(found.len(), 3);
    assert_eq!(found[0].0, 800);
    assert!(
        found[0].1.finding.contains("8 times") && found[0].1.finding.contains("1, 2, 3, 4, 5 and 3 more"),
        "{}",
        found[0].1.finding
    );
    assert!(found[1].1.finding.contains("session a turn 9"), "{}", found[1].1.finding);
    assert!(found[1].1.finding.contains("pin the system prompt"), "{}", found[1].1.finding);
    assert_eq!(found[2].1.evidence, "10 cache busts over 10 turns in 2 sessions with usage rows");
}

#[test]
fn counts_decline() {
    assert_eq!(count(1, "row"), "1 row");
    assert_eq!(count(0, "row"), "0 rows");
    assert_eq!(count(2, "cache bust"), "2 cache busts");
}

#[test]
fn recommendations_come_most_tokens_first_ties_in_rule_order() {
    let mut l = ledgers();
    l.savings.rows = vec![
        ReportSavings { plugin: "cmd".into(), rows: 3, est_before: 10, est_after: 40, saved: -30 },
        ReportSavings { plugin: "inject".into(), rows: 2, est_before: 0, est_after: 2000, saved: -2000 },
    ];
    l.expand = ReportExpand { decisions: 4, expanded: 2, rate_pct: "50.0".into(), expanded_ids: vec!["ab".into()], cost: 30, cost_rows: 1 };
    l.calls.hooks = vec![ReportHook { name: "Stop".into(), calls: 12 }, ReportHook { name: "PostToolUse".into(), calls: 99 }];
    let mut c = cfg();
    c.expand_over_max = true;
    let recs = recommendations(&l, &c);
    let rules: Vec<&str> = recs.iter().map(|r| r.rule.as_str()).collect();
    assert_eq!(
        rules,
        vec!["retire-plugin", "inject-budget", "expand-rate", "retire-plugin", "archive-window", "idle-hook"]
    );
    assert_eq!(
        recs[2].finding,
        "expand rate 50.0% (2 of 4 live-zone pointers re-read) is above [expand] max_rate 20% — re-expansions cost 30 est tokens over 1 row"
    );
    assert_eq!(
        recs[1].finding,
        "inject averages 1000 est tokens/turn over 2 inject Measurement rows vs [plugins.inject] budget_tokens 800 — 400 tokens over budget; trim modes and memory recall"
    );
    assert!(recs[5].finding.starts_with("Stop fired 12 times in window"), "{}", recs[5].finding);
}

#[test]
fn no_rule_fires_on_an_empty_ledger() {
    assert!(recommendations(&ledgers(), &cfg()).is_empty());
}

#[test]
fn the_document_carries_the_rules_output() {
    let d = document(ledgers(), vec![ConfigEntry { key: "k".into(), value: "v".into(), source: "user".into() }], "ok\n".into(), &cfg());
    assert!(d.recommendations.is_empty());
    assert_eq!(d.config.len(), 1);
    let md = rtok::markdown::render(&d);
    assert!(md.starts_with("# rtok report\n\nWindow 1970-01-01 → 1970-01-01 (30d) · store x\n\n## Window\n"), "{md}");
    assert!(md.contains("## Savings\n\nEstimated tokens"), "{md}");
    assert!(md.contains("No rows in window."), "{md}");
    assert!(md.contains("| k | v | user |\n\n1 keys.\n"), "{md}");
    assert!(md.contains("```text\nok\n```\n"), "{md}");
    assert!(md.ends_with("## Recommendations\n\nNo recommendations.\n"), "{md}");
}

#[test]
fn markdown_escapes_pipes_and_prints_a_dash_for_untimed_latency() {
    let mut l = ledgers();
    l.calls = ReportCallsSection {
        rows: vec![ReportCalls { surface: "ho|ok".into(), calls: 3, timed: 1, p50_ms: Some("4.0".into()), p95_ms: None }],
        in_window: 3,
        total: 3,
        hooks: vec![],
    };
    let mut d = document(l, vec![], String::new(), &cfg());
    d.recommendations.push(Recommendation { rule: "r|1".into(), finding: "f".into(), evidence: "e".into() });
    let md = rtok::markdown::render(&d);
    assert!(md.contains("| ho\\|ok | 3 | 1 | 4.0 | — |"), "{md}");
    assert!(md.contains("- **r\\|1**: f (e)\n"), "{md}");
}

#[test]
fn html_report_escapes_text_and_keeps_the_charts_it_is_given() {
    let mut l = ledgers();
    l.window.db_path = "<db>".into();
    let d = document(l, vec![], "a & b".into(), &cfg());
    let charts = rtok::html::HtmlCharts {
        savings: "<svg id=\"s\"/>".into(),
        calls: "<svg id=\"c\"/>".into(),
        cache: "<svg id=\"k\"/>".into(),
    };
    let h = rtok::html::render(&d, &charts);
    assert!(h.starts_with("<!DOCTYPE html>\n"), "{h}");
    assert!(h.contains("store &lt;db&gt;"), "{h}");
    assert!(h.contains("a &amp; b"), "{h}");
    assert!(!h.contains("<db>"), "{h}");
    assert_eq!(rtok::html::esc("<\"&>"), "&lt;&quot;&amp;&gt;");
}

#[test]
fn chart_labels_and_titles_are_escaped() {
    let pairs = vec![("<script>alert(1)</script>".to_string(), 5i64), ("b&c".to_string(), -2)];
    let svg = rtok::html::bar_chart("t<", &pairs, &vec![440, 0]);
    assert!(!svg.contains("<script>"), "{svg}");
    assert!(svg.contains("&lt;script&gt;alert(1)&lt;/script&gt;"), "{svg}");
    assert!(svg.contains("aria-label=\"t&lt;\""), "{svg}");
    assert!(svg.starts_with("<svg class=\"chart\" width=\"600\" height=\"56\""), "{svg}");
    assert!(svg.contains("<rect x=\"140\" y=\"4\" width=\"440\" height=\"14\"/><text x=\"586\" y=\"16\" font-size=\"12\">5</text>"), "{svg}");
    assert!(svg.contains("b&amp;c</text>"), "{svg}");
    assert!(svg.ends_with("</svg>\n"));
    assert_eq!(rtok::html::bar_chart("x & y", &Vec::new(), &Vec::new()), "<p>No data for x &amp; y.</p>\n");
}
