use rtok::wire::{collect_skill_refs, Block, Message};
use rtok::live::{alerts, clear, push, LiveRing, LIVE_CAP};
use rtok::wire::{
    api_of, for_path, Usage, ANTHROPIC, ANTHROPIC_PROVIDER, API_ANTHROPIC, API_GEMINI,
    API_OPENAI_CHAT, API_OPENAI_RESPONSES, GEMINI, GEMINI_PROVIDER, OPENAI_CHAT, OPENAI_PROVIDER,
    OPENAI_RESPONSES,
};

#[test]
fn matches_generate_and_stream_actions_only() {
    assert!(GEMINI.matches("/v1beta/models/gemini-2.0-flash:generateContent"));
    assert!(GEMINI.matches("/v1/models/gemini-2.0-flash:streamGenerateContent"));
    assert!(!GEMINI.matches("/v1/messages"));
    assert!(!GEMINI.matches("/v1/chat/completions"));
    assert!(!GEMINI.matches("/v1/responses"));
    assert!(!GEMINI.matches("/v1beta/models"));
}

#[test]
fn model_comes_from_the_path() {
    assert_eq!(
        GEMINI.model("/v1beta/models/gemini-2.0-flash:generateContent"),
        Some("gemini-2.0-flash".to_string())
    );
    assert_eq!(GEMINI.model("/v1beta/models/:generateContent"), None);
}

#[test]
fn wire_reports_own_provider_and_api() {
    let cases = [
        ("/v1/messages", ANTHROPIC_PROVIDER, API_ANTHROPIC),
        ("/v1/chat/completions", OPENAI_PROVIDER, API_OPENAI_CHAT),
        ("/v1/responses", OPENAI_PROVIDER, API_OPENAI_RESPONSES),
        ("/v1beta/models/gemini-2.0-flash:generateContent", GEMINI_PROVIDER, API_GEMINI),
        ("/v1beta/models/gemini-2.0-flash:streamGenerateContent", GEMINI_PROVIDER, API_GEMINI),
    ];
    for (path, provider, api) in cases {
        let wire = for_path(path).expect("wire");
        assert_eq!(wire.provider(), provider, "{path}");
        assert_eq!(api_of(wire), api, "{path}");
    }
    assert!(for_path("/v1/models").is_none());
}

#[test]
fn each_wire_owns_its_own_path() {
    assert!(ANTHROPIC.matches("/v1/messages"));
    assert!(OPENAI_CHAT.matches("/v1/chat/completions"));
    assert!(OPENAI_RESPONSES.matches("/v1/responses"));
    assert!(!ANTHROPIC.matches("/v1/responses"));
}

#[test]
fn merge_keeps_the_latest_counter_of_each_event() {
    let mut u = Usage::default();
    u.merge(Usage { input: 10, cache_create: 0, cache_read: 3, output: 0 });
    u.merge(Usage { input: 0, cache_create: 0, cache_read: 0, output: 7 });
    assert_eq!(u, Usage { input: 10, cache_create: 0, cache_read: 3, output: 7 });
    let same = u;
    u.merge(same);
    assert_eq!(u, same);
}

#[test]
fn provider_totals_by_wire() {
    let u = Usage { input: 10, cache_create: 2, cache_read: 3, output: 4 };
    assert_eq!(ANTHROPIC.provider_total(u), 19);
    assert_eq!(OPENAI_CHAT.provider_total(u), 14);
    assert_eq!(GEMINI.provider_total(u), 14);
}

struct LiveCall {
    ts: i64,
    method: String,
    path: String,
    provider: Option<String>,
    model: Option<String>,
    status: u16,
    request_bytes: usize,
    response_bytes: usize,
    ms: f64,
}

#[test]
fn ring_keeps_newest_first_and_caps() {
    let mut ring: LiveRing<LiveCall> = LiveRing::new();
    clear(&mut ring);
    for i in 0..(LIVE_CAP + 5) {
        push(
            &mut ring,
            LiveCall {
                ts: i as i64,
                method: "POST".into(),
                path: format!("/v1/{i}"),
                provider: None,
                model: None,
                status: 200,
                request_bytes: 1,
                response_bytes: 2,
                ms: 1.0,
            },
        );
    }
    let s = ring.items();
    assert_eq!(s.len(), LIVE_CAP);
    assert_eq!(s[0].ts, (LIVE_CAP + 4) as i64);
    assert_eq!(s.back().unwrap().ts, 5);
    assert_eq!(s[0].method, "POST");
    assert!(s[0].provider.is_none() && s[0].model.is_none());
    assert_eq!((s[0].status, s[0].request_bytes, s[0].response_bytes), (200, 1, 2));
    assert_eq!(s[0].path, format!("/v1/{}", LIVE_CAP + 4));
    assert!(s[0].ms > 0.0);
    clear(&mut ring);
    assert!(ring.items().is_empty());
}

#[test]
fn alerts_only_when_a_kill_switch_is_off() {
    assert!(alerts(true, true).is_empty());
    assert_eq!(alerts(false, true).len(), 1);
    assert!(alerts(true, false)[0].contains("[core] enabled"));
    assert_eq!(
        alerts(false, false)[0],
        "proxy disabled — live passthrough (not recorded). Set [proxy] enabled and [core] enabled = true and restart to restore compress/bookkeeping."
    );
}

#[test]
fn skill_bodies_after_a_launch_are_found_in_strings_and_blocks() {
    let launch = |id: &str| Message::Tool { id: Some(id.into()), text: Some("  Launching skill: pdf \n".into()) };
    let msgs = vec![
        Message::UserText("hi".into()),
        launch("c1"),
        Message::UserText("Base directory for this skill: /s/pdf\n...".into()),
        Message::Other,
        Message::UserBlocks(vec![
            Block::ToolResult { id: Some("c2".into()), text: Some("Launching skill: xlsx".into()) },
            Block::Text(Some("unrelated".into())),
            Block::Text(Some("Base directory for this skill: /s/xlsx".into())),
            Block::Text(Some("Base directory for this skill: again".into())),
        ]),
        launch("c3"),
        Message::UserText("no body here".into()),
        Message::UserText("Base directory for this skill: late".into()),
    ];
    let hits = collect_skill_refs(&msgs, 5);
    assert_eq!(hits.len(), 2);
    assert_eq!((hits[0].message, hits[0].block, hits[0].id.as_str(), hits[0].name.as_str(), hits[0].turn), (2, None, "c1", "pdf", 3));
    assert_eq!((hits[1].message, hits[1].block, hits[1].id.as_str(), hits[1].name.as_str(), hits[1].turn), (4, Some(2), "c2", "xlsx", 2));
}

#[test]
fn a_launch_without_a_name_or_an_id_waits_for_nothing() {
    let msgs = vec![
        Message::Tool { id: Some("c1".into()), text: Some("Launching skill:   ".into()) },
        Message::UserText("Base directory for this skill: x".into()),
        Message::Tool { id: None, text: Some("Launching skill: y".into()) },
        Message::UserText("Base directory for this skill: y".into()),
    ];
    assert!(collect_skill_refs(&msgs, 2).is_empty());
}
