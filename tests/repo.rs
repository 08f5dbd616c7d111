use donder_release::api::{GithubApi, Release};
use donder_release::bump_files::{
    bump_android, bump_cargo, bump_ios, bump_npm, bump_pub, parse_path, xcode_project_path, BumpError,
};
use donder_release::changelog::classify;
use donder_release::git::{parse_log, Git};

#[test]
fn remote_over_ssh() {
    let g = Git::new("tok123", "me", "me@x.org", "git@github.com:owner/repo.git").unwrap();
    assert_eq!(g.owner, "owner");
    assert_eq!(g.repo, "repo");
    assert_eq!(g.repo_url, "https://tok123@github.com/owner/repo.git");
    assert_eq!(g.origin_url(), "https://github.com/owner/repo");
}

#[test]
fn remote_over_https() {
    let g = Git::new("tok", "me", "me@x.org", "https://github.com/my-org/my_repo").unwrap();
    assert_eq!((g.owner.as_str(), g.repo.as_str()), ("my-org", "my_repo"));
    assert_eq!(g.origin_url(), "https://github.com/my-org/my_repo");
    assert!(Git::new("tok", "me", "m", "not a remote").is_none());
}

#[test]
fn log_records_keep_whole_bodies() {
    let out = "abc|||feat: x|||line one\n\nBREAKING CHANGE: gone\n\u{1e}\ndef|||fix: y|||\u{1e}";
    let cs = parse_log(out);
    let v: Vec<(String, String, String)> = cs.iter().map(|c| (c.hash.clone(), c.subject.clone(), c.body.clone())).collect();
    assert_eq!(
        v,
        vec![
            ("abc".into(), "feat: x".into(), "line one\n\nBREAKING CHANGE: gone\n".into()),
            ("def".into(), "fix: y".into(), "".into()),
        ]
    );
    let c = classify(&vec!["feat".to_string()], &cs[0]).unwrap();
    assert_eq!(c.breaking, "gone");
}

#[test]
fn log_edge_records() {
    assert!(parse_log("").is_empty());
    let one = parse_log("abc|||subject\u{1e}");
    assert_eq!((one[0].hash.as_str(), one[0].subject.as_str(), one[0].body.as_str()), ("abc", "", ""));
    let bars = parse_log("h|||s|||a|||b\u{1e}");
    assert_eq!(bars[0].body, "a|||b");
}

#[test]
fn paths_of_version_files() {
    assert_eq!(parse_path(&"<root>".to_string(), "Cargo.toml".to_string()), "Cargo.toml");
    assert_eq!(parse_path(&"android".to_string(), "app/build.gradle".to_string()), "android/app/build.gradle");
    assert_eq!(xcode_project_path(&"ios/App/".to_string()), "ios/App.xcodeproj/project.pbxproj");
}

#[test]
fn cargo_version_is_replaced() {
    let toml = "[package]\nname = \"x\"\nversion = \"0.1.0\"\n".to_string();
    assert_eq!(bump_cargo(&"1.0.0".into(), &toml, &false).unwrap(), "[package]\nname = \"x\"\nversion = \"1.0.0\"\n");
}

#[test]
fn build_numbers_are_incremented() {
    let y = "name: app\nversion: 1.2.3+41\n".to_string();
    assert_eq!(bump_pub(&"1.3.0".into(), &y, &true).unwrap(), "name: app\nversion: 1.3.0+42\n");
    let y = "version: 1.2.3\n".to_string();
    assert_eq!(bump_pub(&"1.3.0".into(), &y, &true).unwrap(), "version: 1.3.0+1\n");
}

#[test]
fn bump_errors() {
    assert_eq!(bump_cargo(&"1.0.0".into(), &"no version".to_string(), &false).unwrap_err(), BumpError::NoVersion);
    assert_eq!(bump_pub(&"1.0.0".into(), &"v: 1.0.0+x".to_string(), &true).unwrap_err(), BumpError::InvalidBuildNumber);
    assert_eq!(bump_android(&"1.0.0".into(), &String::new()).unwrap_err(), BumpError::Unsupported);
}

#[test]
fn npm_version_field() {
    assert_eq!(bump_npm(&"2.0.0".into(), &"1.0.0+7".to_string(), &true).unwrap(), "2.0.0+8");
    assert_eq!(bump_npm(&"2.0.0".into(), &"1.0.0".to_string(), &false).unwrap(), "2.0.0");
}

#[test]
fn ios_project_versions() {
    let pbx = "A\n\t\tMARKETING_VERSION = 1.0;\n\t\tCURRENT_PROJECT_VERSION = 5.0;\nB\n\t\tMARKETING_VERSION = 1.0;\n".to_string();
    let out = bump_ios(&"1.2.0-beta.3".into(), &pbx).unwrap();
    assert_eq!(out, "A\n\t\tMARKETING_VERSION = 1.2.0;\n\t\tCURRENT_PROJECT_VERSION = 2.3;\nB\n\t\tMARKETING_VERSION = 1.2.0;\n");
    let out = bump_ios(&"1.2.0".into(), &pbx).unwrap();
    assert!(out.contains("CURRENT_PROJECT_VERSION = 5.0;"));
    assert_eq!(bump_ios(&"1.2.0-beta".into(), &pbx).unwrap_err(), BumpError::InvalidPrerelease);
    assert_eq!(bump_ios(&"1.2.0".into(), &"nothing".to_string()).unwrap_err(), BumpError::NoMarketingVersion);
    assert_eq!(
        bump_ios(&"1.2.0".into(), &"MARKETING_VERSION = 1;".to_string()).unwrap_err(),
        BumpError::NoProjectVersion
    );
}

#[test]
fn api_values() {
    let api = GithubApi::new("tok", "o", "r");
    assert_eq!(api.api_url, "https://api.github.com/repos/o/r");
    assert_eq!(api.authorization, "Bearer tok");
    assert_eq!(api.user_agent, "donder-release");
    assert_eq!(api.content_type, "application/vnd.github+json");
    let req = api.release_request("v1.0.0-rc.1", "v", "notes").unwrap();
    assert!(req.prerelease);
    assert_eq!((req.tag_name.as_str(), req.name.as_str(), req.body.as_str()), ("v1.0.0-rc.1", "v1.0.0-rc.1", "notes"));
    assert!(!api.release_request("v1.0.0", "v", "").unwrap().prerelease);
    assert!(api.release_request("vx", "v", "").is_none());
}

#[test]
fn pre_releases_to_delete() {
    let rs = vec![
        Release { id: 1, tag_name: "v1.0.0-rc.1".into(), prerelease: true },
        Release { id: 2, tag_name: "v1.0.0".into(), prerelease: false },
        Release { id: 3, tag_name: "v1.1.0".into(), prerelease: true },
        Release { id: 4, tag_name: "v2.0.0-beta.0".into(), prerelease: true },
    ];
    assert_eq!(GithubApi::pre_release_ids(&rs, "v").unwrap(), vec![1, 4]);
    let bad = vec![Release { id: 5, tag_name: "weird".into(), prerelease: true }];
    assert!(GithubApi::pre_release_ids(&bad, "v").is_none());
}
