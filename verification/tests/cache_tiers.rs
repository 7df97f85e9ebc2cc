use rtok::semantic_cache::{
    canonical_hash, clear_last_user, content_string, eligible, hex8, messages_text, system_text,
    Block, Cache, Content, KeyMessage, MessageShape, RequestShape,
};

fn user(text: &str) -> MessageShape {
    MessageShape { role: Some("user".to_string()), content: Some(Content::Text(text.to_string())) }
}

fn key_of(system: Option<&str>, messages: &[MessageShape]) -> Vec<u8> {
    let sys = system_text(system.map(|s| Content::Text(s.to_string())).as_ref());
    let msgs = messages_text(Some(&messages.iter().map(copy_message).collect()));
    let mut text = format!("{:?}", sys);
    for m in &msgs {
        text.push_str(&format!("|{}:{}", m.role, m.text));
    }
    canonical_hash(text.as_bytes())
}

fn scope_of(system: Option<&str>, messages: &[MessageShape]) -> Vec<u8> {
    let sys = system_text(system.map(|s| Content::Text(s.to_string())).as_ref());
    let mut msgs = messages_text(Some(&messages.iter().map(copy_message).collect()));
    clear_last_user(&mut msgs);
    let mut text = format!("{:?}", sys);
    for m in &msgs {
        text.push_str(&format!("|{}:{}", m.role, m.text));
    }
    canonical_hash(text.as_bytes())
}

fn copy_message(m: &MessageShape) -> MessageShape {
    MessageShape {
        role: m.role.clone(),
        content: m.content.as_ref().map(|c| match c {
            Content::Text(s) => Content::Text(s.clone()),
            _ => Content::Other,
        }),
    }
}

#[test]
fn tool_result_text_joins_the_cache_key() {
    let body = |result: &str| Content::Blocks(vec![
        Block::ToolResult {
            id: "t".to_string(),
            content: Box::new(Content::Text(result.to_string())),
        },
        Block::Text("summarize the result".to_string()),
    ]);
    let a = content_string(&body("tests passed: 200 ok"));
    let b = content_string(&body("tests FAILED: 1 broken"));
    assert_eq!(a, "tool_result t: tests passed: 200 ok\nsummarize the result");
    assert_ne!(canonical_hash(a.as_bytes()), canonical_hash(b.as_bytes()));
    let shape = RequestShape {
        stream: false,
        roles: Some(vec![Some("assistant".to_string()), Some("user".to_string())]),
        tools: None,
    };
    assert!(eligible(&shape, 1, true), "shape stays cache-eligible under defaults");
}

#[test]
fn tool_use_ids_join_the_cache_key() {
    let call = |id: &str| Content::Blocks(vec![Block::ToolUse {
        id: id.to_string(),
        name: "run".to_string(),
    }]);
    let a = content_string(&call("t-1"));
    let b = content_string(&call("t-2"));
    assert_eq!(a, "tool_use t-1 run");
    assert_ne!(canonical_hash(a.as_bytes()), canonical_hash(b.as_bytes()));
}

#[test]
fn image_blocks_hash_into_the_cache_key() {
    let image = |data: &str| Content::Blocks(vec![
        Block::Binary { kind: "image".to_string(), source_data: data.to_string(), url: String::new() },
        Block::Text("what is in the picture?".to_string()),
    ]);
    let a = content_string(&image(&"aB3dE5g7".repeat(600)));
    let b = content_string(&image(&"7g5E3dBa".repeat(600)));
    assert_ne!(a, b);
    assert!(a.starts_with("image "));
    assert!(a.len() < 100, "the payload joins as its digest, not as text");
    let url = content_string(&Content::Blocks(vec![Block::Binary {
        kind: "image_url".to_string(),
        source_data: String::new(),
        url: "https://example.com/a.png".to_string(),
    }]));
    assert_eq!(url.len(), "image_url ".len() + 64);
}

#[test]
fn direct_hit_on_exact_replay() {
    let prompt = key_of(None, &[user("hello")]);
    let mut cache: Cache<Vec<u8>> = Cache::new();
    cache.store(&prompt, None, b"resp", Some("application/json"), 200, 1_000, 300);
    let hit = cache.direct_hit(&prompt, 1_500, 300).unwrap();
    assert_eq!(hit.response.as_slice(), b"resp");
    assert_eq!(hit.content_type.as_deref(), Some("application/json"));
}

#[test]
fn an_error_response_is_never_cached() {
    let prompt = key_of(None, &[user("hello")]);
    let mut cache: Cache<Vec<u8>> = Cache::new();
    for status in [429u16, 500, 529] {
        cache.store(&prompt, None, b"overloaded", None, status, 1_000, 300);
        assert!(cache.direct_hit(&prompt, 1_000, 300).is_none(), "{status} was cached");
    }
    assert_eq!((cache.direct_len(), cache.semantic_len()), (0, 0));
}

#[test]
fn hash_backend_skips_semantic_tier() {
    let pa = key_of(None, &[user("a")]);
    let pb = key_of(None, &[user("b")]);
    let mut cache: Cache<Vec<u8>> = Cache::new();
    cache.store(&pa, None, b"ra", None, 200, 0, 300);
    assert!(cache.direct_hit(&pb, 0, 300).is_none());
    assert_eq!(cache.semantic_len(), 0);
}

#[test]
fn store_drops_expired_entries_and_replaces_its_own() {
    let pa = key_of(None, &[user("a")]);
    let pb = key_of(None, &[user("b")]);
    let scope = scope_of(None, &[user("a")]);
    let mut cache: Cache<Vec<u8>> = Cache::new();
    cache.store(&pa, Some((vec![1], scope.clone())), b"ra", None, 200, 0, 300);
    cache.store(&pa, Some((vec![1], scope.clone())), b"ra", None, 200, 0, 300);
    assert_eq!(cache.semantic_len(), 1, "a replay replaces, it does not stack");
    cache.store(&pb, Some((vec![2], scope)), b"rb", None, 200, 301_000, 300);
    assert_eq!((cache.direct_len(), cache.semantic_len()), (1, 1));
}

#[test]
fn the_same_question_under_another_system_prompt_misses() {
    let ask = |system: &str| (key_of(Some(system), &[user("hello")]), scope_of(Some(system), &[user("hello")]));
    let (french, french_scope) = ask("Answer in French");
    let (_, german_scope) = ask("Answer in German");
    let mut cache: Cache<Vec<u8>> = Cache::new();
    cache.store(&french, Some((vec![7], french_scope.clone())), b"bonjour", None, 200, 0, 300);
    assert!(cache.semantic_candidates(&german_scope, 10, 300).is_empty());
    assert_eq!(cache.semantic_candidates(&french_scope, 10, 300), vec![0]);
}

#[test]
fn a_reply_is_forgotten_once_its_lifetime_is_over() {
    let prompt = key_of(None, &[user("hello")]);
    let mut cache: Cache<Vec<u8>> = Cache::new();
    cache.store(&prompt, None, b"resp", None, 200, 0, 0);
    assert!(cache.direct_hit(&prompt, 999, 0).is_some(), "a zero lifetime still lasts a second");
    assert!(cache.direct_hit(&prompt, 1_000, 0).is_none());
}

#[test]
fn eligibility_counts_user_turns_and_tools() {
    let roles = |n: usize| Some((0..n).map(|_| Some("user".to_string())).collect::<Vec<_>>());
    let shape = |stream: bool, n: usize, tools: Option<usize>| RequestShape { stream, roles: roles(n), tools };
    assert!(!eligible(&shape(true, 1, None), 1, true), "a stream never reaches the cache");
    assert!(!eligible(&shape(false, 0, None), 1, true));
    assert!(!eligible(&shape(false, 2, None), 1, true));
    assert!(eligible(&shape(false, 2, None), 2, true));
    assert!(!eligible(&shape(false, 1, Some(1)), 1, true));
    assert!(eligible(&shape(false, 1, Some(1)), 1, false));
    assert!(eligible(&shape(false, 1, Some(0)), 1, true));
    let untyped = RequestShape { stream: false, roles: None, tools: None };
    assert!(!eligible(&untyped, 5, false));
}

#[test]
fn the_scope_empties_only_the_last_user_message() {
    let mut msgs = vec![
        KeyMessage { role: "user".to_string(), text: "first".to_string() },
        KeyMessage { role: "assistant".to_string(), text: "reply".to_string() },
        KeyMessage { role: "user".to_string(), text: "second".to_string() },
        KeyMessage { role: "assistant".to_string(), text: "tail".to_string() },
    ];
    clear_last_user(&mut msgs);
    let texts: Vec<&str> = msgs.iter().map(|m| m.text.as_str()).collect();
    assert_eq!(texts, vec!["first", "reply", "", "tail"]);
}

#[test]
fn hit_names_its_row_by_four_bytes() {
    assert_eq!(hex8(&[0xde, 0xad, 0xbe, 0xef, 0x01, 0x02]), "deadbeef");
    assert_eq!(hex8(&[0x0a]), "0a");
    let h = canonical_hash(b"abc");
    assert_eq!(hex8(&h), "ba7816bf");
}
