use rtok::index::{add_inserted, fingerprint_stale, index_step, skip_step, stat_skip, IndexAction, ParsedKind, Report};

#[test]
fn stat_gate_skips_only_a_known_unchanged_stat() {
    assert!(stat_skip(Some((5, 10)), (5, 10)));
    assert!(!stat_skip(Some((5, 10)), (6, 10)));
    assert!(!stat_skip(Some((5, 10)), (5, 11)));
    assert!(!stat_skip(None, (5, 10)));
    assert!(!stat_skip(Some((0, 0)), (0, 0)));
}

#[test]
fn fingerprint_mismatch_is_stale() {
    assert!(fingerprint_stale(None, "abc"));
    assert!(fingerprint_stale(Some("deadbeef"), "abc"));
    assert!(!fingerprint_stale(Some("abc"), "abc"));
}

#[test]
fn steps_tally_each_outcome() {
    let r = Report::new();
    let (r, a) = index_step(r, ParsedKind::Unreadable, false);
    assert!(matches!(a, IndexAction::Nothing));
    assert_eq!((r.read, r.skipped, r.indexed, r.inserted), (0, 0, 0, 0));
    let (r, a) = index_step(r, ParsedKind::Unparsed, false);
    assert!(matches!(a, IndexAction::Nothing));
    assert_eq!(r.read, 1);
    let (r, a) = index_step(r, ParsedKind::Same, false);
    assert!(matches!(a, IndexAction::Touch));
    assert_eq!((r.read, r.skipped), (2, 1));
    let (r, a) = index_step(r, ParsedKind::Rows(4), false);
    assert!(matches!(a, IndexAction::Replace));
    assert_eq!((r.read, r.indexed, r.inserted), (3, 1, 0));
    let r = add_inserted(r, 4);
    assert_eq!(r.inserted, 4);
    let r = skip_step(r);
    assert_eq!(r.skipped, 2);
}

#[test]
fn dry_run_counts_rows_and_writes_nothing() {
    let (r, a) = index_step(Report::new(), ParsedKind::Rows(7), true);
    assert!(matches!(a, IndexAction::Nothing));
    assert_eq!((r.read, r.indexed, r.inserted), (1, 1, 7));
    let (r, a) = index_step(r, ParsedKind::Same, true);
    assert!(matches!(a, IndexAction::Nothing));
    assert_eq!(r.skipped, 1);
}
