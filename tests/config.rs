use donder_release::ctx::{
    default_build_metadata, default_bump_files, default_include_authors, default_package, default_release_message,
    default_tag_prefix, default_types, partition_packages, resolve_types, BumpFile, Config, ConfigError, Ctx, ReleaseType,
};
use donder_release::package::{changelog_contents, release_message};

fn rule(t: &str, b: &str, s: &str) -> ReleaseType {
    ReleaseType { commit_type: t.into(), bump: b.into(), section: s.into() }
}

fn file(target: &str, path: &str, package: bool) -> BumpFile {
    BumpFile { target: target.into(), path: path.into(), build_metadata: false, package }
}

fn views(rs: &[ReleaseType]) -> Vec<(String, String, String)> {
    rs.iter().map(|r| (r.commit_type.clone(), r.bump.clone(), r.section.clone())).collect()
}

#[test]
fn reserved_types_keep_bumps_and_take_new_titles() {
    let r = resolve_types(&vec![rule("feat", "", "New"), rule("perf", "patch", "Speed"), rule("revert", "", "Undo")]).unwrap();
    assert_eq!(
        views(&r),
        vec![
            ("feat".into(), "minor".into(), "New".into()),
            ("fix".into(), "patch".into(), "Bug Fixes".into()),
            ("revert".into(), "patch".into(), "Undo".into()),
            ("perf".into(), "patch".into(), "Speed".into()),
        ]
    );
}

#[test]
fn defaults_without_configured_types() {
    let r = resolve_types(&vec![]).unwrap();
    assert_eq!(
        views(&r),
        vec![
            ("feat".into(), "minor".into(), "Features".into()),
            ("fix".into(), "patch".into(), "Bug Fixes".into()),
            ("revert".into(), "patch".into(), "Reverts".into()),
        ]
    );
}

#[test]
fn rule_errors() {
    assert_eq!(resolve_types(&vec![rule("fix", "minor", "F")]).unwrap_err(), ConfigError::ReservedTypeBump);
    assert_eq!(resolve_types(&vec![rule("perf", "major", "P")]).unwrap_err(), ConfigError::InvalidBump);
    assert_eq!(resolve_types(&vec![rule("perf", "", "P")]).unwrap_err(), ConfigError::InvalidBump);
    assert_eq!(resolve_types(&vec![rule("perf", "patch", "")]).unwrap_err(), ConfigError::EmptySection);
    assert_eq!(resolve_types(&vec![rule("feat", "", "")]).unwrap_err(), ConfigError::EmptySection);
}

fn summary(ps: &[donder_release::package::Pkg]) -> Vec<(String, String, String, usize)> {
    ps.iter().map(|p| (p.name.clone(), p.path.clone(), p.tag_prefix.clone(), p.bump_files.len())).collect()
}

#[test]
fn partition_groups_packages_by_directory() {
    let fs = vec![file("npm", "packages/a/package.json", true), file("npm", "packages/b/package.json", true)];
    let ps = partition_packages(&fs, &"v".to_string(), &vec![]).unwrap();
    assert_eq!(
        summary(&ps),
        vec![("a".into(), "packages/a".into(), "a@v".into(), 1), ("b".into(), "packages/b".into(), "b@v".into(), 1)]
    );
}

#[test]
fn partition_root_only() {
    let fs = vec![file("cargo", "Cargo.toml", false)];
    let ps = partition_packages(&fs, &"v".to_string(), &vec![]).unwrap();
    assert_eq!(summary(&ps), vec![("".into(), "".into(), "v".into(), 1)]);
}

#[test]
fn partition_root_first_and_files_grouped() {
    let fs = vec![
        file("npm", "packages/a/package.json", true),
        file("cargo", "Cargo.toml", false),
        file("pub", "packages/a/pubspec.yaml", true),
    ];
    let ps = partition_packages(&fs, &"v".to_string(), &vec![]).unwrap();
    assert_eq!(summary(&ps), vec![("".into(), "".into(), "v".into(), 1), ("a".into(), "packages/a".into(), "a@v".into(), 2)]);
}

#[test]
fn partition_selection() {
    let fs = vec![file("npm", "packages/a/package.json", true), file("npm", "packages/b/package.json", true)];
    let ps = partition_packages(&fs, &"v".to_string(), &vec!["b".to_string()]).unwrap();
    assert_eq!(summary(&ps), vec![("b".into(), "packages/b".into(), "b@v".into(), 1)]);
    let err = partition_packages(&fs, &"v".to_string(), &vec!["c".to_string()]).unwrap_err();
    assert_eq!(err, ConfigError::NoPackages);
}

#[test]
fn partition_errors() {
    assert_eq!(partition_packages(&vec![], &"v".to_string(), &vec![]).unwrap_err(), ConfigError::NoBumpFiles);
    let fs = vec![file("maven", "pom.xml", false)];
    assert_eq!(partition_packages(&fs, &"v".to_string(), &vec![]).unwrap_err(), ConfigError::UnsupportedTarget);
    let fs = vec![file("npm", "package.json", true)];
    assert_eq!(partition_packages(&fs, &"v".to_string(), &vec![]).unwrap_err(), ConfigError::InvalidPackagePath);
}

fn config(types: Vec<ReleaseType>, files: Vec<BumpFile>) -> Config {
    Config {
        release_message: default_release_message(),
        tag_prefix: default_tag_prefix(),
        types,
        bump_files: files,
        include_authors: default_include_authors(),
        changelog_file: String::new(),
    }
}

#[test]
fn context_checks_rules_before_files() {
    let c = config(vec![rule("fix", "patch", "F")], vec![]);
    assert_eq!(Ctx::new(c, String::new(), false, vec![]).unwrap_err(), ConfigError::ReservedTypeBump);
    let c = config(vec![], vec![]);
    assert_eq!(Ctx::new(c, String::new(), false, vec![]).unwrap_err(), ConfigError::NoBumpFiles);
}

#[test]
fn context_from_defaults() {
    assert!(default_types().is_empty() && default_bump_files().is_empty());
    assert!(!default_build_metadata() && !default_package());
    let c = config(vec![], vec![file("cargo", "Cargo.toml", false)]);
    let ctx = Ctx::new(c, "rc".into(), true, vec![]).unwrap();
    assert_eq!(ctx.release_message, "chore(release): %s");
    assert_eq!(ctx.tag_prefix, "v");
    assert_eq!(ctx.types.len(), 3);
    assert_eq!(ctx.packages.len(), 1);
    assert_eq!(ctx.pre_id, "rc");
    assert!(ctx.preview && ctx.include_authors);
}

#[test]
fn release_message_substitutes_version() {
    assert_eq!(release_message("chore(release): %s", "v1.2.0"), "chore(release): v1.2.0");
}

#[test]
fn changelog_file_contents() {
    let title = "# CHANGELOG\r\n\r\n_This file is auto-generated by donder-release and should not be edited manually._\r\n\r\n";
    assert_eq!(changelog_contents(None, "NEW\r\n"), format!("{}NEW\r\n", title));
    let old = format!("{}## v1.0.0\r\n- a\r\n", title);
    assert_eq!(
        changelog_contents(Some(&old), "## v1.1.0\r\n"),
        format!("{}## v1.1.0\r\n\r\n\r\n## v1.0.0\r\n- a\r\n", title)
    );
}
