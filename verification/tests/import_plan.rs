use rtok::import::{import_plan, ImportLine};

fn row(project: Option<&str>, title: &str, body: &str) -> ImportLine {
    ImportLine::Row {
        project: project.map(str::to_string),
        kind: "note".into(),
        title: title.into(),
        body: body.into(),
    }
}

fn fifty() -> Vec<ImportLine> {
    (0..50).map(|i| row(None, &format!("t{i}"), &format!("body-{i}"))).collect()
}

fn bodies() -> Vec<String> {
    (0..50).map(|i| format!("body-{i}")).collect()
}

fn keys() -> Vec<(Option<String>, String, String)> {
    (0..50).map(|i| (None, "note".to_string(), format!("t{i}"))).collect()
}

#[test]
fn fifty_then_reimport_then_malformed_plans() {
    let first = import_plan(&fifty(), &vec![], &vec![]);
    assert_eq!((first.report.inserted, first.report.skipped, first.report.malformed), (50, 0, 0));
    assert_eq!(first.rows, (0..50).collect::<Vec<usize>>());
    let again = import_plan(&fifty(), &bodies(), &keys());
    assert_eq!((again.report.inserted, again.report.skipped, again.report.malformed), (0, 50, 0));
    assert!(again.rows.is_empty());
    let mut lines = fifty();
    lines.push(ImportLine::Malformed);
    lines.push(ImportLine::Blank);
    let third = import_plan(&lines, &bodies(), &keys());
    assert_eq!((third.report.inserted, third.report.skipped, third.report.malformed), (0, 50, 1));
}

#[test]
fn a_line_whose_key_exists_locally_with_a_different_body_is_skipped_in_the_plan() {
    let lines = vec![row(Some("p"), "t", "import body")];
    let held_bodies = vec!["local body".to_string()];
    let held_keys = vec![(Some("p".to_string()), "note".to_string(), "t".to_string())];
    let plan = import_plan(&lines, &held_bodies, &held_keys);
    assert_eq!((plan.report.inserted, plan.report.skipped, plan.report.malformed), (0, 1, 0));
    assert!(plan.rows.is_empty());
}

#[test]
fn duplicates_inside_one_export_insert_once() {
    let lines = vec![
        row(None, "a", "same"),
        row(None, "b", "same"),
        row(Some("p"), "c", "x"),
        row(Some("p"), "c", "y"),
        row(None, "c", "z"),
    ];
    let plan = import_plan(&lines, &vec![], &vec![]);
    assert_eq!(plan.rows, vec![0, 2, 4]);
    assert_eq!((plan.report.inserted, plan.report.skipped), (3, 2));
}
