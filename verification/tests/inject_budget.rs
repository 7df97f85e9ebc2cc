use rtok::inject::{apply, Inject, Injection};
use rtok::plugin::{Measure, Proxy, Surface, Toon};

fn offer(plugin: &str, text: &str, priority: u8) -> Injection {
    Injection { plugin: plugin.to_string(), text: text.to_string(), priority }
}

/// Three offers of 500 tokens at a budget of 800: the second starts under budget and is
/// emitted though it overshoots, the third is dropped; the answer is byte-stable.
#[test]
fn three_500_budget_800_drops_one_and_is_byte_stable() {
    let text = "x".repeat(2000);
    let offered = || vec![offer("a", &text, 3), offer("b", &text, 2), offer("c", &text, 1)];
    let once = apply(offered(), &vec![500, 500, 500], 800);
    let twice = apply(offered(), &vec![500, 500, 500], 800);
    assert_eq!(once.text, twice.text);
    assert_eq!(once.text.matches('\n').count(), 1, "two emitted → one separator");
    assert_eq!(once.text, format!("{text}\n{text}"));
    assert_eq!(once.dropped, vec!["dropped:c:500".to_string()]);
    assert_eq!(once.est_before, 1500);
    assert_eq!(once.before_bytes, 6000);
}

#[test]
fn priority_then_plugin_name_orders_the_offers() {
    let out = apply(
        vec![offer("b", "B", 1), offer("z", "Z", 9), offer("a", "A", 1), offer("y", "Y", 9)],
        &vec![1, 1, 1, 1],
        100,
    );
    assert_eq!(out.text, "Y\nZ\nA\nB");
    assert!(out.dropped.is_empty());
}

#[test]
fn a_zero_budget_emits_nothing() {
    let out = apply(vec![offer("a", "A", 1)], &vec![1], 0);
    assert_eq!(out.text, "");
    assert_eq!(out.dropped, vec!["dropped:a:1".to_string()]);
}

#[test]
fn catalogue_entries() {
    assert_eq!(Inject.manifest().id, "inject");
    assert_eq!(Inject.manifest().surfaces, vec![Surface::Hook]);
    assert_eq!(Measure.manifest().surfaces, vec![Surface::Cli, Surface::Proxy]);
    assert_eq!(Proxy.manifest().surfaces, vec![Surface::Proxy]);
    assert!(!Toon.manifest().default_on);
    assert_eq!(Surface::Mcp.as_str(), "mcp");
}

#[test]
fn mode_texts_end_with_a_line_break_each() {
    assert_eq!(rtok::inject::modes_text(false, &vec![Some("x".into())]), None);
    assert_eq!(
        rtok::inject::modes_text(true, &vec![Some("# terse\nbe brief".into()), None, Some("# yagni\n".into())]).unwrap(),
        "# terse\nbe brief\n# yagni\n"
    );
    assert_eq!(rtok::inject::modes_text(true, &vec![]).unwrap(), "");
}

#[test]
fn a_checkpoint_after_compaction_leads_at_priority_nine() {
    let i = rtok::inject::session_start(true, Some("checkpoint".into()), Some("# terse\n".into())).unwrap();
    assert_eq!((i.plugin.as_str(), i.text.as_str(), i.priority), ("inject", "checkpoint\n# terse\n", 9));
    let i = rtok::inject::session_start(false, Some("checkpoint".into()), Some("# terse\n".into())).unwrap();
    assert_eq!((i.text.as_str(), i.priority), ("# terse\n", 5));
    assert!(rtok::inject::session_start(false, None, Some(String::new())).is_none());
    assert!(rtok::inject::session_start(true, None, None).is_none());
}

#[test]
fn offer_order_does_not_change_the_emitted_text() {
    let a = vec![offer("b", "B text", 5), offer("a", "A text", 5), offer("c", "C text", 9)];
    let b = vec![offer("c", "C text", 9), offer("b", "B text", 5), offer("a", "A text", 5)];
    let ra = apply(a, &vec![3, 3, 3], 5);
    let rb = apply(b, &vec![3, 3, 3], 5);
    assert_eq!(ra.text, rb.text);
    assert_eq!(ra.text, "C text\nA text");
    assert_eq!(ra.dropped, rb.dropped);
    assert_eq!(ra.dropped, vec!["dropped:b:3".to_string()]);
}
