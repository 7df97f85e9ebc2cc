use rtok::memory::{
    age_days, gitdir_of, mem_get, mem_revise, mem_search, mem_update, origin_name, recall_query,
    remember_note, Memory, MemError, NoteCall, NoteRow, Report, ReviseStep, SearchBackend,
};

/// Runs one lifecycle update against a store that knows the ids in `known`.
fn run_update(id: i32, retire: bool, sup: Option<i32>, pinned: Option<bool>, known: &[i32]) -> Result<String, MemError> {
    let mut answers = Vec::new();
    loop {
        match mem_update(id, retire, sup, pinned, &answers) {
            Ok(NoteCall::Retire(i, _)) | Ok(NoteCall::Pin(i, _)) => answers.push(known.contains(&i)),
            Err(result) => return result,
        }
    }
}

#[test]
fn retire_and_pin_answer_with_one_line_each() {
    assert_eq!(run_update(4, true, None, None, &[4]), Ok("retired note 4".to_string()));
    assert_eq!(
        run_update(4, true, Some(9), None, &[4]),
        Ok("retired note 4, superseded by 9".to_string())
    );
    assert_eq!(run_update(4, false, None, Some(true), &[4]), Ok("pinned note 4".to_string()));
    assert_eq!(run_update(4, false, None, Some(false), &[4]), Ok("unpinned note 4".to_string()));
    assert_eq!(
        run_update(4, true, None, Some(true), &[4]),
        Ok("retired note 4; pinned note 4".to_string())
    );
}

#[test]
fn update_errors() {
    assert_eq!(run_update(999, true, None, None, &[1]), Err(MemError::UnknownNote(999)));
    assert_eq!(run_update(1, false, Some(2), None, &[1]), Err(MemError::SupersededNeedsRetire));
    assert_eq!(run_update(1, false, None, None, &[1]), Err(MemError::NothingToDo));
    assert_eq!(MemError::UnknownNote(999).message(), "unknown note id: 999");
    assert!(MemError::SupersededNeedsRetire.message().starts_with("superseded_by needs retire"));
    assert_eq!(MemError::NothingToDo.message(), "nothing to do: pass retire or pinned");
}

#[test]
fn the_retire_call_comes_before_the_pin_call() {
    assert_eq!(mem_update(7, true, None, Some(true), &vec![]), Ok(NoteCall::Retire(7, None)));
    assert_eq!(mem_update(7, true, None, Some(true), &vec![true]), Ok(NoteCall::Pin(7, true)));
    assert_eq!(mem_update(7, true, None, Some(true), &vec![false]), Err(Err(MemError::UnknownNote(7))));
}

#[test]
fn a_retired_note_still_reads_whole() {
    let live = NoteRow { body: "sessions forever".into(), retired: None, superseded_by: None };
    assert_eq!(mem_get(Some(live)), Some("sessions forever".to_string()));
    let gone = NoteRow { body: "sessions forever".into(), retired: Some(1700), superseded_by: Some(2) };
    assert_eq!(mem_get(Some(gone)), Some("retired 1700, superseded by 2\nsessions forever".to_string()));
    let quiet = NoteRow { body: "b".into(), retired: Some(5), superseded_by: None };
    assert_eq!(mem_get(Some(quiet)), Some("retired 5\nb".to_string()));
    assert_eq!(mem_get(None), None);
}

#[test]
fn revise_saves_then_retires_unless_the_row_was_updated_in_place() {
    assert!(matches!(mem_revise(1, false, None, false), ReviseStep::Done(Err(MemError::UnknownNote(1)))));
    assert!(matches!(mem_revise(1, true, None, false), ReviseStep::Save));
    assert!(matches!(mem_revise(1, true, Some(2), false), ReviseStep::Retire(1, 2)));
    assert!(matches!(mem_revise(1, true, Some(2), true), ReviseStep::Done(Ok((2, Some(1))))));
    assert!(matches!(mem_revise(1, true, Some(1), false), ReviseStep::Done(Ok((1, None)))));
}

#[test]
fn search_goes_to_the_configured_backend_with_a_limit_of_at_least_one() {
    assert_eq!(mem_search(0, false, true), (SearchBackend::Fts, 1));
    assert_eq!(mem_search(5, true, true), (SearchBackend::Hybrid, 5));
    assert_eq!(mem_search(5, true, false), (SearchBackend::Embed, 5));
}

#[test]
fn remember_prefix_saves_a_note() {
    assert_eq!(
        remember_note("remember: hooks fail open under 10 ms"),
        Some(("hooks fail open under 10 ms".to_string(), "hooks fail open under 10 ms".to_string()))
    );
    assert_eq!(remember_note("just a question"), None);
    assert_eq!(remember_note("remember:   \nmore"), None);
    let long = format!("remember: {}", "x".repeat(100));
    let (title, body) = remember_note(&long).unwrap();
    assert_eq!(title.chars().count(), 80);
    assert_eq!(body.len(), 100);
}

#[test]
fn recall_query_takes_the_first_words() {
    assert_eq!(recall_query("  tell me   about hooks "), "tell me about hooks");
    let many: Vec<String> = (0..30).map(|i| format!("w{i}")).collect();
    assert_eq!(recall_query(&many.join(" ")).split(' ').count(), 24);
}

#[test]
fn ages_in_whole_days() {
    assert_eq!(age_days(None, 10), u32::MAX);
    assert_eq!(age_days(Some(0), 86_400 * 3 + 5), 3);
    assert_eq!(age_days(Some(100), 50), 0);
}

fn config_with(url: &str) -> String {
    format!("[core]\n\tbare = false\n[remote \"origin\"]\n\turl = {url}\n\tfetch = +refs/heads/*:refs/remotes/origin/*\n")
}

#[test]
fn origin_urls_of_every_shape_name_the_repo() {
    for (url, name) in [
        ("https://github.com/listepo/rtok", "rtok"),
        ("https://github.com/listepo/rtok.git/", "rtok"),
        ("ssh://git@github.com/listepo/rtok.git", "rtok"),
        ("file:///srv/git/rtok.git", "rtok"),
        ("git@github.com:listepo/rtok-notes.git", "rtok-notes"),
    ] {
        assert_eq!(origin_name(&config_with(url)).as_deref(), Some(name), "{url}");
    }
    assert_eq!(origin_name("[core]\n\turl = x\n"), None);
    assert_eq!(origin_name("[remote \"upstream\"]\n\turl = https://h/a/b\n"), None);
}

#[test]
fn a_worktree_git_file_names_its_admin_dir() {
    assert_eq!(
        gitdir_of("gitdir: ../../rtok/.git/worktrees/rtok-t133\n"),
        Some("../../rtok/.git/worktrees/rtok-t133".to_string())
    );
    assert_eq!(gitdir_of("nothing here\n"), None);
}

#[test]
fn import_report_text() {
    let r = Report { inserted: 50, skipped: 2, malformed: 1 };
    assert_eq!(r.text(), "inserted 50  skipped 2  malformed 1");
    let d = Report::default();
    assert_eq!((d.inserted, d.skipped, d.malformed), (0, 0, 0));
}

#[test]
fn memory_is_a_default_on_mcp_and_hook_plugin() {
    assert_eq!(Memory.manifest().id, "memory");
    assert_eq!(Memory.dashboard_page().title, "Memory");
}

#[test]
fn the_notes_block_lists_id_and_title_per_line() {
    let rows = vec![(3i64, "walrus".to_string()), (12, "hooks fail open".to_string())];
    assert_eq!(rtok::memory::notes_text(&rows, 2), "notes\n3 walrus\n12 hooks fail open");
    assert_eq!(rtok::memory::notes_text(&rows, 1), "notes\n3 walrus");
    assert_eq!(rtok::memory::notes_text(&rows, 0), "notes");
}

#[test]
fn recall_drops_titles_from_the_end_but_keeps_one() {
    assert_eq!(rtok::memory::recall_keep(&[1, 5, 9, 14], 10), 2);
    assert_eq!(rtok::memory::recall_keep(&[1, 50, 90], 10), 1, "the first title always stays");
    assert_eq!(rtok::memory::recall_keep(&[1, 2, 3], 10), 2);
}
