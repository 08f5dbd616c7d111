use donder_release::changelog::{Changelog, ChangelogCommit};
use donder_release::ctx::ReleaseType;
use donder_release::notes::render_notes;
use donder_release::package::Pkg;
use donder_release::version::ReleaseInfo;

fn rule(t: &str, b: &str, s: &str) -> ReleaseType {
    ReleaseType { commit_type: t.into(), bump: b.into(), section: s.into() }
}

fn commit(t: &str, scope: &str, desc: &str, hash: &str) -> ChangelogCommit {
    ChangelogCommit { section_type: t.into(), scope: scope.into(), desc: desc.into(), breaking: "".into(), hash: hash.into() }
}

#[test]
fn first_release_notes() {
    let rules = vec![rule("feat", "minor", "Features")];
    let commits = vec![commit("feat", "", "add a", "h1")];
    let notes = render_notes(&commits, &"v1.0.0".to_string(), &String::new(), &rules, "https://x/o/r", "Oct 17, 2026");
    assert_eq!(
        notes,
        "## v1.0.0\r\n\r\n###### _Oct 17, 2026_\r\n\r\n### Features\r\n- add a ([h1](https://x/o/r/commit/h1))\r\n"
    );
}

#[test]
fn notes_with_comparison_and_scopes() {
    let rules = vec![rule("feat", "minor", "Features")];
    let commits = vec![
        commit("feat", "api", "add a", "h1"),
        commit("feat", "", "add b", "h2"),
        commit("feat", "api", "add c", "h3"),
    ];
    let notes = render_notes(&commits, &"v1.1.0".to_string(), &"v1.0.0".to_string(), &rules, "https://x/o/r", "D");
    assert_eq!(
        notes,
        "## [v1.1.0](https://x/o/r/compare/v1.0.0...v1.1.0)\r\n\r\n###### _D_\r\n\r\n### Features\r\n\
         \r\n- **api:**\r\n  - add a ([h1](https://x/o/r/commit/h1))\r\n  - add c ([h3](https://x/o/r/commit/h3))\r\n\
         - add b ([h2](https://x/o/r/commit/h2))\r\n"
    );
}

#[test]
fn sections_follow_rule_order_with_unconfigured_first() {
    let rules = vec![rule("feat", "minor", "Features"), rule("fix", "patch", "Bug Fixes")];
    let commits = vec![commit("fix", "", "f", "1"), commit("feat", "", "n", "2"), commit("chore", "", "c", "3")];
    let notes = render_notes(&commits, &"v2.0.0".to_string(), &String::new(), &rules, "u", "D");
    let titles: Vec<&str> = notes.split("\r\n").filter(|l| l.starts_with("### ")).collect();
    assert_eq!(titles, vec!["### chore", "### Features", "### Bug Fixes"]);
}

#[test]
fn write_notes_dates_the_notes() {
    let rules = vec![rule("feat", "minor", "Features")];
    let mut cl = Changelog::new();
    cl.commits.push(commit("feat", "", "x", "h"));
    cl.next_release_version = "v1.0.0".into();
    cl.write_notes(&String::new(), &rules, "u");
    assert!(cl.notes.starts_with("## v1.0.0\r\n\r\n###### _"));
    let date_line = cl.notes.split("\r\n").nth(2).unwrap();
    assert!(date_line.len() > "###### __".len());
    assert!(cl.notes.ends_with("### Features\r\n- x ([h](u/commit/h))\r\n"));
}

#[test]
fn package_notes_compare_only_after_a_real_release() {
    let rules = vec![rule("feat", "minor", "Features")];
    let mut first = Pkg::new(String::new(), String::new(), "v".into(), vec![]);
    first.last_release(&vec![], "");
    first.changelog.commits.push(commit("feat", "", "x", "h"));
    first.changelog.next_release_version = "v1.0.0".into();
    assert_eq!(first.compared_tag(), "");
    first.write_notes(&rules, "u");
    assert!(first.changelog.notes.starts_with("## v1.0.0\r\n"));
    let mut later = Pkg::new(String::new(), String::new(), "v".into(), vec![]);
    later.last_release(&vec![ReleaseInfo::new("v1.0.0", "v", false).unwrap()], "");
    later.changelog.commits.push(commit("feat", "", "y", "k"));
    later.changelog.next_release_version = "v1.1.0".into();
    assert_eq!(later.compared_tag(), "v1.0.0");
    later.write_notes(&rules, "u");
    assert!(later.changelog.notes.starts_with("## [v1.1.0](u/compare/v1.0.0...v1.1.0)\r\n"));
}
