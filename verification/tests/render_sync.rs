use rtok::digest::hex_sha256;
use rtok::memory_sync::{guarded_splice, has_block, overlap_line, render, splice, SyncError, END};
use rtok::render::{file_diff, paint, GREEN, OFF, RED};

#[test]
fn plain_text_passes_through_when_colour_is_off() {
    assert_eq!(paint("+ added\n- gone\nno changes", false), "+ added\n- gone\nno changes");
}

#[test]
fn coloured_lines_are_wrapped_by_sign() {
    let out = paint("+ added\n- gone", true);
    assert!(out.contains(&format!("{GREEN}+ added{OFF}")), "{out:?}");
    assert!(out.contains(&format!("{RED}- gone{OFF}")), "{out:?}");
}

#[test]
fn one_changed_line_reads_as_a_git_diff() {
    let out = file_diff("config.toml", "a = 1\nb = 2\n", "a = 1\nb = 3\n", false);
    assert!(out.contains("--- a/config.toml"), "{out}");
    assert!(out.contains("+++ b/config.toml"), "{out}");
    assert!(out.contains("-b = 2"), "{out}");
    assert!(out.contains("+b = 3"), "{out}");
    assert!(out.contains(" a = 1"), "context line kept: {out}");
}

#[test]
fn equal_input_is_no_diff_at_all() {
    assert!(file_diff("x", "same\n", "same\n", false).is_empty());
}

fn est(s: &str) -> u32 {
    s.len() as u32
}

fn notes() -> Vec<(i32, String)> {
    vec![(3, "pinned-high".into()), (2, "newer".into()), (1, "older".into())]
}

#[test]
fn vfs_create_appends_block_at_end() {
    let file = "# intro\nkeep me\n".to_string();
    let block = render(&notes(), 10_000, est);
    let got = guarded_splice(&file, Some(&block), None, false).unwrap();
    assert!(got.starts_with("# intro\nkeep me\n"), "{got}");
    assert!(got.contains("3 pinned-high\n2 newer\n1 older\n"), "{got}");
    assert!(got.ends_with(&format!("{END}\n")), "{got}");
}

#[test]
fn vfs_update_leaves_outside_bytes_identical() {
    let block1 = render(&[(1, "a".into())], 10_000, est);
    let file = splice("pre\n", Some(&block1)).unwrap() + "post\n";
    let block2 = render(&[(2, "b".into())], 10_000, est);
    let sha = hex_sha256(block1.as_bytes());
    let after = guarded_splice(&file, Some(&block2), Some(&sha), false).unwrap();
    assert!(after.starts_with("pre\n"), "{after}");
    assert!(after.ends_with("post\n"), "{after}");
    assert!(after.contains("2 b"), "{after}");
    assert!(!after.contains("1 a"), "{after}");
}

#[test]
fn vfs_hand_edit_refused_unless_force() {
    let block = render(&[(1, "title".into())], 10_000, est);
    let file = splice("pre\n", Some(&block)).unwrap();
    let sha = hex_sha256(block.as_bytes());
    let edited = file.replace("1 title", "1 edited");
    let err = guarded_splice(&edited, Some(&block), Some(&sha), false).unwrap_err();
    assert_eq!(err, SyncError::HandEdited);
    assert!(err.message().contains("--force"), "{}", err.message());
    let after = guarded_splice(&edited, Some(&block), Some(&sha), true).unwrap();
    assert!(after.contains("1 title"));
}

#[test]
fn vfs_remove_deletes_only_the_block() {
    let block = render(&[(1, "x".into())], 10_000, est);
    let file = format!("alpha\n{block}omega\n");
    let sha = hex_sha256(block.as_bytes());
    let got = guarded_splice(&file, None, Some(&sha), false).unwrap();
    assert_eq!(got, "alpha\nomega\n");
    assert!(!has_block(&got));
}

#[test]
fn vfs_budget_trims_from_the_end() {
    let block = render(&notes(), 65, est);
    assert!(block.contains("3 pinned-high"), "{block}");
    assert!(block.contains("2 newer"), "{block}");
    assert!(!block.contains("1 older"), "{block}");
    assert!(est(&block) <= 65, "{} {block}", est(&block));
}

#[test]
fn unchanged_store_is_byte_stable() {
    let a = render(&notes(), 300, est);
    let b = render(&notes(), 300, est);
    assert_eq!(a, b);
    assert!(!a.contains("20"), "{a}");
}

#[test]
fn two_opening_markers_are_refused() {
    let block = render(&[(1, "x".into())], 10_000, est);
    let file = format!("{block}{block}");
    assert_eq!(splice(&file, None), Err(SyncError::MultipleBlocks));
    assert_eq!(splice("<!-- rtok:memory -->\nno end\n", None), Err(SyncError::UnclosedBlock));
}

#[test]
fn sha256_is_lower_case_hex_of_the_digest() {
    assert_eq!(hex_sha256(b"abc"), "ba7816bf8f01cfea414140de5dae2223b00361a396177a9cb410ff61f20015ad");
    assert_eq!(hex_sha256(b"").len(), 64);
}

#[test]
fn the_overlap_line_names_recall() {
    assert!(!overlap_line().is_empty());
}
