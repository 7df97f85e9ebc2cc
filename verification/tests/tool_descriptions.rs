use rtok::tools_rewrite::{dropped, prefix_tokens, rewrite, rewrite_tools, sentences, truncate_at_sentence, ToolDesc};

#[test]
fn descriptions_split_after_terminators_before_whitespace() {
    let s = sentences("Short one. This second sentence is far too long to keep under the cap.");
    assert_eq!(s, vec!["Short one.", " This second sentence is far too long to keep under the cap."]);
    assert_eq!(sentences("v1.2 is out! Really? yes"), vec!["v1.2 is out!", " Really?", " yes"]);
    assert!(sentences("").is_empty());
    assert_eq!(sentences("no terminator"), vec!["no terminator"]);
}

#[test]
fn sentences_put_back_together_are_the_text() {
    for t in ["Stay.", "a. b!\tc?\nd", "ends with space. ", "é. ü? ß"] {
        assert_eq!(sentences(t).concat(), t);
    }
}

#[test]
fn deny_drops_and_allow_keeps_only_its_names() {
    let names = |v: &[&str]| v.iter().map(|s| s.to_string()).collect::<Vec<_>>();
    assert!(dropped("drop_me", &[], &names(&["drop_me"])));
    assert!(!dropped("keep", &[], &names(&["drop_me"])));
    assert!(dropped("other", &names(&["keep"]), &[]));
    assert!(!dropped("keep", &names(&["keep"]), &[]));
    assert!(dropped("keep", &names(&["keep"]), &names(&["keep"])), "deny wins over allow");
}

fn words(s: &str) -> u32 {
    s.split_whitespace().count() as u32
}

#[test]
fn a_description_within_the_cap_is_kept() {
    let t = "One two. Three.";
    assert_eq!(truncate_at_sentence(t, 3, &words), t);
}

#[test]
fn a_long_description_is_cut_after_its_last_fitting_sentence() {
    assert_eq!(truncate_at_sentence("One two. Three four. Five.", 3, &words), "One two.");
    assert_eq!(truncate_at_sentence("One. Two. Three four five.", 3, &words), "One. Two.");
}

#[test]
fn a_first_sentence_over_the_cap_is_cut_by_characters() {
    assert_eq!(truncate_at_sentence("a b c d.", 2, &words), "a b ");
    assert_eq!(prefix_tokens("a b c", 2, &words), "a b ");
    assert_eq!(prefix_tokens("a b", 5, &words), "a b");
    assert_eq!(prefix_tokens("abc", 0, &|s: &str| s.len() as u32), "");
}

fn tool(name: Option<&str>, desc: Option<&str>) -> ToolDesc {
    ToolDesc { name: name.map(str::to_string), description: desc.map(str::to_string) }
}

#[test]
fn rewrite_drops_denied_tools_and_cuts_descriptions() {
    let mut tools = vec![
        tool(Some("keep"), Some("One two. Three four. Five.")),
        tool(Some("gone"), Some("abc")),
        tool(None, Some("no name here at all")),
        tool(Some("short"), Some("Fine.")),
    ];
    let deny = vec!["gone".to_string()];
    let d = rewrite_tools(&mut tools, &[], &deny, 3, &words);
    assert_eq!(tools.len(), 3);
    assert_eq!(tools[0].description.as_deref(), Some("One two."));
    assert_eq!(tools[1].name, None);
    assert_eq!(tools[1].description.as_deref(), Some("no name here at all"));
    assert_eq!(tools[2].description.as_deref(), Some("Fine."));
    assert!(d.changed);
    assert_eq!(d.before_bytes, 26 + 3 + 5);
    assert_eq!(d.after_bytes, 8 + 5);
    assert_eq!((d.est_before, d.est_after), (5 + 1 + 1, 2 + 1));
}

#[test]
fn rewrite_without_cap_or_lists_changes_nothing() {
    let mut tools = vec![tool(Some("a"), Some("Long text. More text.")), tool(Some("b"), None)];
    let d = rewrite_tools(&mut tools, &[], &[], 0, &words);
    assert!(!d.changed);
    assert_eq!(tools[0].description.as_deref(), Some("Long text. More text."));
    assert_eq!(d.before_bytes, d.after_bytes);
    let allow = vec!["b".to_string()];
    let d = rewrite_tools(&mut tools, &allow, &[], 0, &words);
    assert!(d.changed);
    assert_eq!(tools.len(), 1);
    assert_eq!(tools[0].name.as_deref(), Some("b"));
}

#[test]
fn cutting_twice_is_cutting_once() {
    for t in ["One two. Three four. Five.", "a b c d.", "Fits.", "", "x y z w v u"] {
        for max in [0, 1, 2, 3, 10] {
            let once = truncate_at_sentence(t, max, &words);
            assert!(words(&once) <= max, "{t:?} {max} {once:?}");
            assert_eq!(truncate_at_sentence(&once, max, &words), once, "{t:?} {max}");
        }
    }
}

const LONG: &str = "Short one. This second sentence is far too long to keep under the cap.";

#[test]
fn anthropic_truncates_description_not_schema() {
    let mut tools = Some(vec![tool(Some("Bash"), Some(LONG))]);
    let d = rewrite(&mut tools, true, &[], &[], 5, &words).unwrap();
    assert!(d.changed && d.after_bytes < d.before_bytes);
    assert_eq!(tools.as_ref().unwrap()[0].description.as_deref(), Some("Short one."));
    let again: Vec<Option<String>> = tools.as_ref().unwrap().iter().map(|t| t.description.clone()).collect();
    rewrite(&mut tools, true, &[], &[], 5, &words).unwrap();
    let now: Vec<Option<String>> = tools.as_ref().unwrap().iter().map(|t| t.description.clone()).collect();
    assert_eq!(now, again);
}

#[test]
fn openai_chat_truncates_function_description_not_parameters() {
    // `function.name` and `function.description` are read into the same two fields.
    let mut tools = Some(vec![tool(Some("search"), Some(LONG))]);
    let d = rewrite(&mut tools, true, &[], &[], 5, &words).unwrap();
    assert!(d.changed);
    assert_eq!(tools.unwrap()[0].description.as_deref(), Some("Short one."));
}

#[test]
fn deny_drops_tools_but_not_a_later_call() {
    let mut tools = Some(vec![tool(Some("keep"), Some("Stay.")), tool(Some("drop_me"), Some("Gone."))]);
    let deny = vec!["drop_me".to_string()];
    let d = rewrite(&mut tools, true, &[], &deny, 0, &words).unwrap();
    assert!(d.changed);
    let t = tools.unwrap();
    assert_eq!(t.len(), 1);
    assert_eq!(t[0].name.as_deref(), Some("keep"));
}

#[test]
fn off_or_missing_tools_is_a_no_op() {
    let mut tools = Some(vec![tool(Some("Bash"), Some("Hi there."))]);
    assert!(rewrite(&mut tools, false, &[], &[], 5, &words).is_none());
    assert_eq!(tools.unwrap()[0].description.as_deref(), Some("Hi there."));
    let mut none: Option<Vec<ToolDesc>> = None;
    assert!(rewrite(&mut none, true, &[], &[], 5, &words).is_none());
}
