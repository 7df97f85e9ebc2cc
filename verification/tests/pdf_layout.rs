use rtok::pdf::{paginate, section_item_list, sections, split_word, wrap, PageItem, PdfBlock, LINES};
use rtok::report::{
    ConfigEntry, Document, Recommendation, ReportCache, ReportCalls, ReportCallsSection, ReportExpand,
    ReportLedgers, ReportSavings, ReportSavingsSection, ReportSinksSection, ReportWindow,
};

fn doc() -> Document {
    Document {
        ledgers: ReportLedgers {
            window: ReportWindow {
                since: "30d".into(),
                from_unix: 1,
                to_unix: 2,
                from_date: "2026-08-10".into(),
                to_date: "2026-09-09".into(),
                db_path: "/tmp/rtok.db".into(),
                calls_in_window: 7,
                calls_total: 7,
                measurements: 3,
                usage: 3,
            },
            savings: ReportSavingsSection {
                rows: vec![ReportSavings { plugin: "cmd".into(), rows: 1, est_before: 25, est_after: 10, saved: 15 }],
                total_rows: 1,
                total_saved: 15,
                kinds: vec![],
            },
            sinks: ReportSinksSection { rows: vec![] },
            calls: ReportCallsSection {
                rows: vec![ReportCalls {
                    surface: "hook".into(),
                    calls: 2,
                    timed: 2,
                    p50_ms: Some("2.0".into()),
                    p95_ms: Some("4.0".into()),
                }],
                in_window: 2,
                total: 2,
                hooks: vec![],
            },
            cache: ReportCache { sessions: 1, turns: 3, busts: 1, by_cause: vec![("tools".to_string(), 1)], detail: vec![] },
            expand: ReportExpand {
                decisions: 3,
                expanded: 1,
                rate_pct: "33.3".into(),
                expanded_ids: vec!["abc".into()],
                cost: 0,
                cost_rows: 0,
            },
        },
        config: vec![ConfigEntry { key: "report.since".into(), value: "30d".into(), source: "user".into() }],
        doctor: "hooks: 2 (PostToolUse 1, PreToolUse 1)\nproxy: 8787".into(),
        recommendations: vec![
            Recommendation { rule: "expand-rate".into(), finding: "pointers frozen".into(), evidence: "3 rows".into() },
            Recommendation { rule: "cache-bust".into(), finding: "tools rewritten".into(), evidence: "1 turn".into() },
        ],
    }
}

fn paras(blocks: &[PdfBlock]) -> Vec<String> {
    blocks
        .iter()
        .filter_map(|b| match b {
            PdfBlock::Para(p) => Some(p.clone()),
            _ => None,
        })
        .collect()
}

#[test]
fn split_word_splits_on_chars_not_bytes() {
    assert_eq!(split_word("ééééé", 2), vec!["éé", "éé", "é"]);
}

#[test]
fn split_word_leaves_short_word_unchanged() {
    assert_eq!(split_word("short", 26), vec!["short"]);
}

#[test]
fn paragraphs_wrap_at_spaces_and_cut_overlong_words() {
    assert_eq!(wrap("aa bb cc dd", 5), vec!["aa bb", "cc dd"]);
    assert_eq!(wrap("abcdefgh ij", 3), vec!["abc", "def", "gh", "ij"]);
    assert!(wrap("", 10).is_empty());
    assert_eq!(wrap("a  b", 10), vec!["a  b"], "a double space keeps its empty word");
}

#[test]
fn the_eight_sections_come_in_report_order() {
    let secs = sections(&doc());
    let titles: Vec<&str> = secs.iter().map(|s| s.title.as_str()).collect();
    assert_eq!(titles, vec!["Window", "Savings", "Calls", "Cache", "Expand", "Config", "Doctor", "Recommendations"]);
    assert_eq!(paras(&secs[0].blocks)[0], "calls: 7 of 7 in window (30d)");
    assert_eq!(paras(&secs[1].blocks)[1], "cmd: 1 rows, est 25 -> 10, saved 15");
    assert_eq!(paras(&secs[2].blocks)[1], "hook: 2 calls, 2 timed, p50 2.0 ms, p95 4.0 ms");
    assert_eq!(paras(&secs[3].blocks)[2], "Busts: 1 over 3 turns in 1 session(s).");
    assert_eq!(paras(&secs[4].blocks), vec!["rtok expand froze 1 of 3 live-zone pointers (33.3%). Expanded: abc."]);
    assert_eq!(paras(&secs[5].blocks)[2], "1 keys.");
    assert_eq!(paras(&secs[6].blocks)[2], "proxy: 8787");
    assert_eq!(paras(&secs[7].blocks)[0], "expand-rate: pointers frozen (3 rows)");
    match secs[1].blocks.last().unwrap() {
        PdfBlock::Chart { title, pairs } => {
            assert_eq!(title, "saved tokens per plugin");
            assert_eq!(pairs, &vec![("cmd".to_string(), 15)]);
        }
        _ => panic!("the savings section ends with its chart"),
    }
}

#[test]
fn an_empty_store_says_so() {
    let mut d = doc();
    d.ledgers.window.calls_total = 0;
    d.ledgers.window.measurements = 0;
    d.ledgers.window.usage = 0;
    d.ledgers.savings.rows.clear();
    d.recommendations.clear();
    let secs = sections(&d);
    assert_eq!(paras(&secs[0].blocks).last().unwrap(), "No rows in window. The store has no rows to report.");
    assert_eq!(paras(&secs[1].blocks).last().unwrap(), "No rows in window.");
    assert!(secs[1].blocks.iter().all(|b| matches!(b, PdfBlock::Para(_))), "no chart without rows");
    assert_eq!(paras(&secs[7].blocks), vec!["No recommendations."]);
}

fn fat_doc() -> Document {
    let mut d = doc();
    for i in 0..40 {
        d.ledgers.savings.rows.push(ReportSavings { plugin: format!("p{i}"), rows: 1, est_before: 9, est_after: 3, saved: 6 });
        d.config.push(ConfigEntry { key: format!("k{i}"), value: "v".repeat(150), source: "default".into() });
    }
    d
}

#[test]
fn section_page_numbers_match_heading_pages() {
    let secs = sections(&fat_doc());
    let (pages, starts) = paginate(&secs);
    assert!(pages.len() >= 3, "need a multi-page report, got {}", pages.len());
    assert_eq!(starts.len(), 8);
    for (sec, start) in secs.iter().zip(&starts) {
        assert!(
            pages[*start].iter().any(|it| matches!(it, PageItem::Heading(t) if *t == sec.title)),
            "{} does not start on page {start}",
            sec.title
        );
    }
    for page in &pages {
        assert!(page.len() <= LINES);
        assert!(!matches!(page.last(), Some(PageItem::Heading(_))), "a heading alone at the bottom");
    }
    let items = section_item_list(&secs[0]);
    assert!(matches!(&items[0], PageItem::Heading(t) if t == "Window"));
}

#[test]
fn a_chart_too_tall_for_a_page_is_placed_whole() {
    let mut d = doc();
    for i in 0..56 {
        d.ledgers.savings.rows.push(ReportSavings { plugin: format!("p{i}"), rows: 1, est_before: 1, est_after: 0, saved: 1 });
    }
    assert_eq!(d.ledgers.savings.rows.len(), 57);
    let secs = sections(&d);
    let (pages, starts) = paginate(&secs);
    assert_eq!(starts.len(), secs.len());
    let tall: Vec<_> = pages
        .iter()
        .flat_map(|p| p.iter())
        .filter(|it| matches!(it, PageItem::Chart { pairs, .. } if pairs.len() == 57))
        .collect();
    assert_eq!(tall.len(), 1);
    for page in &pages {
        assert!(!matches!(page.last(), Some(PageItem::Heading(_))), "a heading alone at the bottom");
    }
}
