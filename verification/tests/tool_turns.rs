use rtok::turns::{tool_result_turns, WireItem};

fn user(results: &[Option<&str>]) -> WireItem {
    WireItem { is_user: true, results: results.iter().map(|r| r.map(str::to_string)).collect() }
}

fn other(results: &[Option<&str>]) -> WireItem {
    WireItem { is_user: false, results: results.iter().map(|r| r.map(str::to_string)).collect() }
}

#[test]
fn extracts_only_old_anthropic_tool_results() {
    // user[tool_result one] · assistant · user[tool_result two]
    let items = vec![user(&[Some("one")]), other(&[]), user(&[Some("two")])];
    let results = tool_result_turns(&items);
    assert_eq!(results.len(), 2);
    assert_eq!(results[0].id, "one");
    assert_eq!(results[0].turn, 1);
    assert_eq!(results[1].turn, 0);
}

#[test]
fn counts_user_turns_after_each_tool_message() {
    // user · assistant · tool(one) · user · assistant · tool(two)
    let items = vec![user(&[]), other(&[]), other(&[Some("one")]), user(&[]), other(&[]), other(&[Some("two")])];
    let results = tool_result_turns(&items);
    assert_eq!(results.len(), 2);
    assert_eq!(results[0].id, "one");
    assert_eq!(results[0].turn, 1, "one user turn follows the first result");
    assert_eq!(results[1].turn, 0, "the last result is the live tail");
    assert_eq!((results[0].item, results[0].part), (2, 0));
}

#[test]
fn response_without_a_name_is_not_a_result() {
    let items = vec![user(&[None, Some("lookup")]), other(&[]), user(&[])];
    let results = tool_result_turns(&items);
    assert_eq!(results.len(), 1);
    assert_eq!((results[0].id.as_str(), results[0].part, results[0].turn), ("lookup", 1, 1));
}

#[test]
fn the_live_zone_stays_intact() {
    let items = vec![
        user(&[Some("a")]),
        other(&[]),
        user(&[Some("b")]),
        other(&[]),
        user(&[Some("c")]),
    ];
    let results = tool_result_turns(&items);
    let turns: Vec<usize> = results.iter().map(|r| r.turn).collect();
    assert_eq!(turns, vec![2, 1, 0]);
    assert_eq!(rtok::turns::rewritable(&results, 2), vec![0]);
    assert_eq!(rtok::turns::rewritable(&results, 0), vec![0, 1, 2]);
    assert!(rtok::turns::rewritable(&results, 3).is_empty());
}

fn six_turns() -> Vec<WireItem> {
    let mut items = Vec::new();
    for i in 0..6 {
        items.push(user(&[Some(["r0", "r1", "r2", "r3", "r4", "r5"][i])]));
        items.push(other(&[]));
    }
    items
}

#[test]
fn default_off_leaves_bytes_identical() {
    let refs = tool_result_turns(&six_turns());
    assert!(rtok::turns::toon_targets(false, &refs, 0).is_empty());
}

#[test]
fn live_zone_turns_are_untouched() {
    let refs = tool_result_turns(&six_turns());
    let targets = rtok::turns::toon_targets(true, &refs, 4);
    assert_eq!(targets, vec![0, 1], "only older-than-live-zone results encode");
    let ids: Vec<&str> = targets.iter().map(|&i| refs[i].id.as_str()).collect();
    assert_eq!(ids, ["r0", "r1"]);
}
