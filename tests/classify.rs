use donder_release::changelog::{classify, Changelog, ChangelogCommit};
use donder_release::git::Commit;

fn types(ts: &[&str]) -> Vec<String> {
    ts.iter().map(|t| t.to_string()).collect()
}

fn entry(c: &ChangelogCommit) -> (String, String, String, String, String) {
    (c.section_type.clone(), c.scope.clone(), c.desc.clone(), c.breaking.clone(), c.hash.clone())
}

#[test]
fn classifies_type_scope_and_description() {
    let c = Commit::new("a1", "feat(api): add endpoint", "");
    let r = classify(&types(&["feat", "fix"]), &c).unwrap();
    assert_eq!(entry(&r), ("feat".into(), "api".into(), "add endpoint".into(), "".into(), "a1".into()));
}

#[test]
fn classifies_bang_without_scope() {
    let c = Commit::new("b2", "fix!: crash on start", "");
    let r = classify(&types(&["feat", "fix"]), &c).unwrap();
    assert_eq!(entry(&r), ("fix".into(), "".into(), "crash on start".into(), "".into(), "b2".into()));
}

#[test]
fn description_stops_at_punctuation() {
    let c = Commit::new("c3", "feat: add x, y and z", "");
    let r = classify(&types(&["feat"]), &c).unwrap();
    assert_eq!(r.desc, "add x");
}

#[test]
fn description_keeps_unicode_word_characters() {
    let c = Commit::new("c4", "feat: añadir función", "");
    let r = classify(&types(&["feat"]), &c).unwrap();
    assert_eq!(r.desc, "añadir función");
}

#[test]
fn scope_may_hold_dashes_and_dots() {
    let c = Commit::new("c5", "fix(core-lib.v2): patch it", "");
    let r = classify(&types(&["fix"]), &c).unwrap();
    assert_eq!(r.scope, "core-lib.v2");
}

#[test]
fn unconfigured_type_is_dropped() {
    let c = Commit::new("d4", "chore: tidy up", "");
    assert!(classify(&types(&["feat", "fix"]), &c).is_none());
}

#[test]
fn malformed_subject_is_dropped() {
    let c = Commit::new("d5", "feat:missing space", "");
    assert!(classify(&types(&["feat"]), &c).is_none());
    let c = Commit::new("d6", "feat(): empty scope", "");
    assert!(classify(&types(&["feat"]), &c).is_none());
}

#[test]
fn later_type_is_tried_when_earlier_prefix_fails() {
    let c = Commit::new("e5", "feat: x", "");
    let r = classify(&types(&["fe", "feat"]), &c).unwrap();
    assert_eq!(r.section_type, "feat");
}

#[test]
fn breaking_change_recovers_unconfigured_type() {
    let c = Commit::new("f6", "chore(deps): drop old api", "BREAKING CHANGE: removed v1");
    let r = classify(&types(&["feat", "fix"]), &c).unwrap();
    assert_eq!(entry(&r), ("chore".into(), "deps".into(), "drop old api".into(), "removed v1".into(), "f6".into()));
}

#[test]
fn breaking_note_is_rest_of_last_marker_line() {
    let c = Commit::new("g7", "feat: new flow", "BREAKING CHANGE: first\r\nBREAKING CHANGE: second\r\nmore text");
    let r = classify(&types(&["feat"]), &c).unwrap();
    assert_eq!(r.breaking, "second");
}

#[test]
fn marker_not_at_line_start_is_ignored() {
    let c = Commit::new("g8", "chore: x", "see BREAKING CHANGE: no");
    assert!(classify(&types(&["feat"]), &c).is_none());
}

#[test]
fn classifying_twice_gives_the_same_result() {
    let ts = types(&["feat", "fix"]);
    let c = Commit::new("h8", "feat(ui): dark mode", "BREAKING CHANGE: new theme");
    let a = classify(&ts, &c).unwrap();
    let b = classify(&ts, &c).unwrap();
    assert_eq!(entry(&a), entry(&b));
    let d = Commit::new("h9", "docs: readme", "");
    assert!(classify(&ts, &d).is_none() && classify(&ts, &d).is_none());
}

#[test]
fn parse_commit_keeps_only_relevant_commits() {
    let ts = types(&["feat", "fix"]);
    let mut cl = Changelog::new();
    assert_eq!(cl.next_release_version, "0.0.0");
    cl.parse_commit(&ts, &Commit::new("1", "feat: one", ""));
    cl.parse_commit(&ts, &Commit::new("2", "docs: two", ""));
    cl.parse_commit(&ts, &Commit::new("3", "fix: three", ""));
    let hashes: Vec<String> = cl.commits.iter().map(|c| c.hash.clone()).collect();
    assert_eq!(hashes, vec!["1".to_string(), "3".to_string()]);
}
