use donder_release::changelog::ChangelogCommit;
use donder_release::ctx::ReleaseType;
use donder_release::git::Commit;
use donder_release::package::{bump_level, next_version, Bump, Pkg, ResolveError};
use donder_release::version::{precedes, release_tags, sort_tags, ReleaseInfo, Version};

fn v(text: &str) -> Version {
    Version::parse(text).unwrap()
}

fn text(r: Result<Version, ResolveError>) -> String {
    r.unwrap().to_text()
}

fn rules() -> Vec<ReleaseType> {
    vec![
        ReleaseType { commit_type: "feat".into(), bump: "minor".into(), section: "Features".into() },
        ReleaseType { commit_type: "fix".into(), bump: "patch".into(), section: "Bug Fixes".into() },
        ReleaseType { commit_type: "perf".into(), bump: "patch".into(), section: "Performance".into() },
    ]
}

fn commit(t: &str, breaking: &str) -> ChangelogCommit {
    ChangelogCommit { section_type: t.into(), scope: "".into(), desc: "d".into(), breaking: breaking.into(), hash: "h".into() }
}

#[test]
fn stable_bumps() {
    assert_eq!(text(next_version(&v("1.2.3"), Bump::Major, "")), "2.0.0");
    assert_eq!(text(next_version(&v("1.2.3"), Bump::Minor, "")), "1.3.0");
    assert_eq!(text(next_version(&v("1.2.3"), Bump::Patch, "")), "1.2.4");
}

#[test]
fn build_metadata_is_dropped() {
    assert_eq!(text(next_version(&v("1.2.3+77"), Bump::Patch, "")), "1.2.4");
}

#[test]
fn stable_release_with_pre_id_starts_track() {
    assert_eq!(text(next_version(&v("1.2.3"), Bump::Patch, "rc")), "1.2.4-rc.0");
}

#[test]
fn frozen_triple_while_prerelease() {
    assert_eq!(text(next_version(&v("1.3.0-alpha.1"), Bump::Patch, "alpha")), "1.3.0-alpha.2");
}

#[test]
fn prerelease_continuation_and_switch() {
    let once = next_version(&v("2.0.0-beta.3"), Bump::Major, "beta").unwrap();
    assert_eq!(once.to_text(), "2.0.0-beta.4");
    assert_eq!(text(next_version(&once, Bump::Major, "beta")), "2.0.0-beta.5");
    assert_eq!(text(next_version(&v("2.0.0-alpha.2"), Bump::Minor, "beta")), "2.0.0-beta.0");
}

#[test]
fn prerelease_closes_into_stable() {
    assert_eq!(text(next_version(&v("1.3.0-rc.2"), Bump::Major, "")), "1.3.0");
}

#[test]
fn resolution_errors() {
    assert_eq!(next_version(&v("1.0.0-alpha"), Bump::Patch, "alpha").unwrap_err(), ResolveError::PrereleaseCounter);
    assert_eq!(next_version(&v("1.0.0-alpha.x"), Bump::Patch, "alpha").unwrap_err(), ResolveError::PrereleaseCounter);
    assert_eq!(next_version(&v("1.0.0"), Bump::Patch, "a b").unwrap_err(), ResolveError::InvalidPrerelease);
    let top = Version::new(u64::MAX, 0, 0);
    assert_eq!(next_version(&top, Bump::Major, "").unwrap_err(), ResolveError::VersionOverflow);
}

#[test]
fn next_version_is_higher_than_last() {
    let cases = [
        ("1.2.3", Bump::Patch, ""),
        ("1.2.3", Bump::Minor, "beta"),
        ("1.3.0-alpha.1", Bump::Major, "alpha"),
        ("1.3.0-alpha.9", Bump::Major, "beta"),
        ("1.3.0-rc.1", Bump::Patch, ""),
    ];
    for (last, bump, pre) in cases {
        let next = next_version(&v(last), bump, pre).unwrap().to_text();
        assert!(semver::Version::parse(&next).unwrap() > semver::Version::parse(last).unwrap(), "{} -> {}", last, next);
    }
}

#[test]
fn breaking_change_dominates_bump() {
    let cs = vec![commit("fix", ""), commit("feat", ""), commit("perf", "api gone")];
    assert_eq!(bump_level(&cs, &rules()), Bump::Major);
    let cs = vec![commit("fix", ""), commit("feat", "")];
    assert_eq!(bump_level(&cs, &rules()), Bump::Minor);
    let cs = vec![commit("fix", ""), commit("perf", "")];
    assert_eq!(bump_level(&cs, &rules()), Bump::Patch);
}

fn tag(t: &str) -> ReleaseInfo {
    ReleaseInfo::new(t, "v", false).unwrap()
}

#[test]
fn first_release_seeding() {
    let mut p = Pkg::new(String::new(), String::new(), "v".into(), vec![]);
    p.last_release(&vec![], "");
    assert!(p.last_release.initial);
    assert_eq!(p.last_release.tag(), "v1.0.0");
    let mut p = Pkg::new(String::new(), String::new(), "v".into(), vec![]);
    p.last_release(&vec![], "rc");
    assert!(p.last_release.initial);
    assert_eq!(p.last_release.tag(), "v1.0.0-rc.0");
}

#[test]
fn last_release_selection() {
    let tags = vec![tag("v2.0.0-beta.1"), tag("v1.5.0"), tag("v1.4.0")];
    let mut p = Pkg::new(String::new(), String::new(), "v".into(), vec![]);
    p.last_release(&tags, "");
    assert_eq!(p.last_release.tag(), "v1.5.0");
    p.last_release(&tags, "beta");
    assert_eq!(p.last_release.tag(), "v2.0.0-beta.1");
    p.last_release(&tags, "alpha");
    assert_eq!(p.last_release.tag(), "v1.5.0");
    assert!(!p.last_release.initial);
}

#[test]
fn release_info_parses_tags() {
    assert!(ReleaseInfo::new("v1.x", "v", false).is_none());
    assert!(ReleaseInfo::new("1.0.0", "v", false).is_none());
    assert!(ReleaseInfo::new("v01.0.0", "v", false).is_none());
    let r = ReleaseInfo::new("pkg@v1.2.3-rc.1+5", "pkg@v", false).unwrap();
    assert_eq!((r.version.major, r.version.minor, r.version.patch), (1, 2, 3));
    assert_eq!(r.version.pre, "rc.1");
    assert_eq!(r.version.build, "5");
    assert_eq!(r.tag(), "pkg@v1.2.3-rc.1+5");
}

#[test]
fn load_changelog_for_first_release() {
    let mut p = Pkg::new("a".into(), "packages/a".into(), "v".into(), vec![]);
    assert_eq!(p.tag_prefix, "a@v");
    p.last_release(&vec![], "");
    p.commits = vec![Commit::new("1", "feat: x", ""), Commit::new("2", "docs: y", "")];
    assert_eq!(p.load_changelog("", &rules()), Ok(true));
    assert_eq!(p.changelog.commits.len(), 1);
    assert_eq!(p.changelog.next_release_version, "a@v1.0.0");
}

#[test]
fn load_changelog_resolves_next_version() {
    let mut p = Pkg::new(String::new(), String::new(), "v".into(), vec![]);
    p.last_release(&vec![tag("v1.4.2")], "");
    p.commits = vec![Commit::new("1", "fix: x", ""), Commit::new("2", "feat(ui): y", "")];
    assert_eq!(p.load_changelog("", &rules()), Ok(true));
    assert_eq!(p.changelog.next_release_version, "v1.5.0");
}

#[test]
fn load_changelog_without_relevant_commits() {
    let mut p = Pkg::new(String::new(), String::new(), "v".into(), vec![]);
    p.last_release(&vec![tag("v1.4.2")], "");
    p.commits = vec![Commit::new("1", "docs: x", "")];
    assert_eq!(p.load_changelog("", &rules()), Ok(false));
    assert_eq!(p.changelog.next_release_version, "0.0.0");
}

#[test]
fn load_changelog_reports_resolution_error() {
    let mut p = Pkg::new(String::new(), String::new(), "v".into(), vec![]);
    p.last_release(&vec![tag("v1.0.0-beta")], "beta");
    p.commits = vec![Commit::new("1", "fix: x", "")];
    assert_eq!(p.load_changelog("beta", &rules()), Err(ResolveError::PrereleaseCounter));
}

#[test]
fn package_helpers() {
    let mut p = Pkg::new("a".into(), "packages/a".into(), "v".into(), vec![]);
    assert_eq!(p.changelog_path("CHANGELOG.md"), "packages/a/CHANGELOG.md");
    p.changelog.next_release_version = "a@v1.2.0".into();
    assert_eq!(p.release_version(), "1.2.0");
    p.last_release(&vec![], "");
    assert_eq!(p.log_since(), "");
    let root = Pkg::new(String::new(), String::new(), "v".into(), vec![]);
    assert_eq!(root.changelog_path("CHANGELOG.md"), "CHANGELOG.md");
    let tags = vec![tag("v2.0.0-rc.1"), tag("v1.0.0"), tag("v1.0.0-rc.3")];
    assert_eq!(Pkg::pre_release_tags(&tags), vec!["v2.0.0-rc.1".to_string(), "v1.0.0-rc.3".to_string()]);
}

#[test]
fn release_tags_keep_versions_under_the_prefix() {
    let names: Vec<String> = ["v1.0.0", "a@v2.0.0", "v1.1", "latest", "v1.1.0-rc.1"].iter().map(|s| s.to_string()).collect();
    let tags: Vec<String> = release_tags(&names, "v").iter().map(|t| t.tag()).collect();
    assert_eq!(tags, vec!["v1.0.0".to_string(), "v1.1.0-rc.1".to_string()]);
    let pkg: Vec<String> = release_tags(&names, "a@v").iter().map(|t| t.tag()).collect();
    assert_eq!(pkg, vec!["a@v2.0.0".to_string()]);
}

#[test]
fn tags_sort_by_precedence_highest_first() {
    let names: Vec<String> = [
        "v1.0.0-alpha", "v1.0.0", "v1.0.0-alpha.beta", "v1.0.0-rc.1", "v1.0.0-beta.11", "v1.0.0-alpha.1",
        "v1.0.0-beta", "v1.0.0-beta.2", "v0.9.9", "v2.0.0-rc.99999999999999999999999",
        "v2.0.0-rc.100000000000000000000000",
    ]
    .iter()
    .map(|s| s.to_string())
    .collect();
    let sorted: Vec<String> = sort_tags(release_tags(&names, "v")).iter().map(|t| t.tag()).collect();
    assert_eq!(
        sorted,
        vec![
            "v2.0.0-rc.100000000000000000000000", "v2.0.0-rc.99999999999999999999999", "v1.0.0", "v1.0.0-rc.1",
            "v1.0.0-beta.11", "v1.0.0-beta.2", "v1.0.0-beta", "v1.0.0-alpha.beta", "v1.0.0-alpha.1", "v1.0.0-alpha",
            "v0.9.9",
        ]
    );
}

#[test]
fn precedence_of_versions() {
    assert!(precedes(&v("1.0.0-alpha"), &v("1.0.0-alpha.1")));
    assert!(precedes(&v("1.0.0-alpha.1"), &v("1.0.0-alpha.beta")));
    assert!(precedes(&v("1.0.0-rc.1"), &v("1.0.0")));
    assert!(!precedes(&v("1.0.0"), &v("1.0.0+5")));
    assert!(precedes(&v("1.9.0"), &v("1.10.0")));
}

#[test]
fn breaking_change_moves_to_next_major() {
    let mut p = Pkg::new(String::new(), String::new(), "v".into(), vec![]);
    p.last_release(&vec![tag("v1.4.2")], "");
    p.commits = vec![
        Commit::new("1", "feat: x", ""),
        Commit::new("2", "fix: y", "details\n\nBREAKING CHANGE: old flag removed"),
    ];
    assert_eq!(p.load_changelog("", &rules()), Ok(true));
    assert_eq!(p.changelog.next_release_version, "v2.0.0");
}
