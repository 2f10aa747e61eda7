use fontdirs::reconcile::{
    classify, classify_lines, reconcile, ChangeKind, ClassifiedChange, DiffLine, LineTag,
};

fn strings(v: &[&str]) -> Vec<String> {
    v.iter().map(|s| s.to_string()).collect()
}

fn row(kind: ChangeKind, text: &str) -> ClassifiedChange {
    ClassifiedChange { kind, text: text.to_string() }
}

fn line(tag: LineTag, text: &str) -> DiffLine {
    DiffLine { tag, text: text.to_string() }
}

#[test]
fn classify_each_tag() {
    assert_eq!(classify(LineTag::Equal, true), ChangeKind::Match);
    assert_eq!(classify(LineTag::Equal, false), ChangeKind::Match);
    assert_eq!(classify(LineTag::Insert, false), ChangeKind::Added);
    assert_eq!(classify(LineTag::Insert, true), ChangeKind::Added);
    assert_eq!(classify(LineTag::Delete, true), ChangeKind::RemovedExisting);
    assert_eq!(classify(LineTag::Delete, false), ChangeKind::RemovedStale);
}

#[test]
fn classify_lines_stale_removal() {
    let lines = vec![line(LineTag::Equal, "/a"), line(LineTag::Delete, "/b"), line(LineTag::Insert, "/c")];
    let rows = classify_lines(&lines, &vec![false, false, true]);
    assert_eq!(
        rows,
        vec![row(ChangeKind::Match, "/a"), row(ChangeKind::RemovedStale, "/b"), row(ChangeKind::Added, "/c")]
    );
}

#[test]
fn classify_lines_existing_removal() {
    let lines = vec![line(LineTag::Equal, "/a"), line(LineTag::Delete, "/b"), line(LineTag::Insert, "/c")];
    let rows = classify_lines(&lines, &vec![false, true, true]);
    assert_eq!(rows[1], row(ChangeKind::RemovedExisting, "/b"));
}

#[test]
fn reconcile_reports_stale_removal() {
    let old = strings(&["/a", "/nonexistent-font-dir-b"]);
    let new = strings(&["/a", "/"]);
    assert_eq!(
        reconcile(&old, &new),
        vec![
            row(ChangeKind::Match, "/a"),
            row(ChangeKind::RemovedStale, "/nonexistent-font-dir-b"),
            row(ChangeKind::Added, "/"),
        ]
    );
}

#[test]
fn reconcile_reports_existing_removal() {
    let old = strings(&["/a", "/"]);
    let new = strings(&["/a", "/nonexistent-font-dir-c"]);
    assert_eq!(
        reconcile(&old, &new),
        vec![
            row(ChangeKind::Match, "/a"),
            row(ChangeKind::RemovedExisting, "/"),
            row(ChangeKind::Added, "/nonexistent-font-dir-c"),
        ]
    );
}

#[test]
fn reconcile_equal_and_empty_lists() {
    let same = strings(&["/x", "/y"]);
    assert_eq!(reconcile(&same, &same), vec![row(ChangeKind::Match, "/x"), row(ChangeKind::Match, "/y")]);
    assert_eq!(reconcile(&Vec::new(), &Vec::new()), Vec::<ClassifiedChange>::new());
    assert_eq!(reconcile(&Vec::new(), &strings(&["/n"])), vec![row(ChangeKind::Added, "/n")]);
}

#[test]
fn reconcile_keeps_both_sides() {
    let old = strings(&["/a", "/b", "/c", "/d"]);
    let new = strings(&["/b", "/e", "/d", "/a"]);
    let rows = reconcile(&old, &new);
    let left: Vec<String> =
        rows.iter().filter(|r| r.kind != ChangeKind::Added).map(|r| r.text.clone()).collect();
    let right: Vec<String> = rows
        .iter()
        .filter(|r| r.kind == ChangeKind::Match || r.kind == ChangeKind::Added)
        .map(|r| r.text.clone())
        .collect();
    assert_eq!(left, old);
    assert_eq!(right, new);
}

#[test]
fn markers_are_distinct() {
    assert_eq!(ChangeKind::Match.marker(), " ");
    assert_eq!(ChangeKind::RemovedStale.marker(), "x");
    assert_eq!(ChangeKind::RemovedExisting.marker(), "-");
    assert_eq!(ChangeKind::Added.marker(), "+");
}
