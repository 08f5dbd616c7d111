//! Configuration: commit-type rules, version-file declarations, and the
//! partition of a repository into packages.
use vstd::prelude::*;
use crate::package::{Pkg, package_prefix};
use crate::text::{chars_of, same, string_of};
use crate::notes::contains_string;

verus! {

/// A commit type that triggers a release: its bump (`"minor"`, `"patch"`, or
/// empty for the reserved types) and the changelog section it is listed under.
#[derive(Debug, Clone)]
pub struct ReleaseType {
    pub commit_type: String,
    pub bump: String,
    pub section: String,
}

/// A version file to bump: its ecosystem (`cargo`, `npm`, `pub`, `android`
/// or `ios`), its path, whether a build number is kept, and whether its
/// directory is a package of its own.
#[derive(Debug, Clone)]
pub struct BumpFile {
    pub target: String,
    pub path: String,
    pub build_metadata: bool,
    pub package: bool,
}

/// Why a configuration is refused.
#[derive(Debug, Clone, Copy, PartialEq, Eq)]
pub enum ConfigError {
    /// `feat`, `fix` or `revert` was given a bump.
    ReservedTypeBump,
    /// Another type was given a bump other than `minor` or `patch`.
    InvalidBump,
    /// A type was given an empty section title.
    EmptySection,
    /// No version file is declared.
    NoBumpFiles,
    /// A version file names an unknown ecosystem.
    UnsupportedTarget,
    /// A package's version file has no parent directory.
    InvalidPackagePath,
    /// No package is left to release.
    NoPackages,
}

impl ConfigError {
    /// The message shown for this error.
    pub fn message(&self) -> (r: &'static str)
        ensures
            r@ == match *self {
                ConfigError::ReservedTypeBump => "feat, fix and perf are reserved types and cannot have a bump"@,
                ConfigError::InvalidBump => "only minor and patch bumps are allowed"@,
                ConfigError::EmptySection => "type section cannot be empty"@,
                ConfigError::NoBumpFiles => "at least one bump file must be defined"@,
                ConfigError::UnsupportedTarget => "unsupported bump file target"@,
                ConfigError::InvalidPackagePath => "invalid bump file path for a package"@,
                ConfigError::NoPackages => "no packages to release make sure you have selected packages defined in your config file"@,
            },
    {
        match self {
            ConfigError::ReservedTypeBump => "feat, fix and perf are reserved types and cannot have a bump",
            ConfigError::InvalidBump => "only minor and patch bumps are allowed",
            ConfigError::EmptySection => "type section cannot be empty",
            ConfigError::NoBumpFiles => "at least one bump file must be defined",
            ConfigError::UnsupportedTarget => "unsupported bump file target",
            ConfigError::InvalidPackagePath => "invalid bump file path for a package",
            ConfigError::NoPackages => "no packages to release make sure you have selected packages defined in your config file",
        }
    }
}

pub open spec fn rule_view(r: ReleaseType) -> (Seq<char>, Seq<char>, Seq<char>) {
    (r.commit_type@, r.bump@, r.section@)
}

pub open spec fn rule_views(rs: Seq<ReleaseType>) -> Seq<(Seq<char>, Seq<char>, Seq<char>)> {
    rs.map_values(|r: ReleaseType| rule_view(r))
}

pub open spec fn reserved(t: Seq<char>) -> bool {
    t == "feat"@ || t == "fix"@ || t == "revert"@
}

/// The three reserved rules, with their default titles.
pub open spec fn default_rules() -> Seq<(Seq<char>, Seq<char>, Seq<char>)> {
    seq![("feat"@, "minor"@, "Features"@), ("fix"@, "patch"@, "Bug Fixes"@), ("revert"@, "patch"@, "Reverts"@)]
}

/// What is wrong with one configured rule, if anything.
pub open spec fn rule_error(r: ReleaseType) -> Option<ConfigError> {
    if reserved(r.commit_type@) && r.bump@.len() > 0 {
        Some(ConfigError::ReservedTypeBump)
    } else if !reserved(r.commit_type@) && r.bump@ != "minor"@ && r.bump@ != "patch"@ {
        Some(ConfigError::InvalidBump)
    } else if r.section@.len() == 0 {
        Some(ConfigError::EmptySection)
    } else {
        None
    }
}

/// The error of the first faulty rule among `rs[..n]`.
pub open spec fn rules_error(rs: Seq<ReleaseType>, n: int) -> Option<ConfigError>
    decreases n,
{
    if n <= 0 || n > rs.len() {
        None
    } else {
        match rules_error(rs, n - 1) {
            Some(e) => Some(e),
            None => rule_error(rs[n - 1]),
        }
    }
}

/// The rules in force after `rs[..n]`: a reserved type only renames its
/// section; any other is appended.
pub open spec fn merged_rules(rs: Seq<ReleaseType>, n: int) -> Seq<(Seq<char>, Seq<char>, Seq<char>)>
    decreases n,
{
    if n <= 0 || n > rs.len() {
        default_rules()
    } else {
        let m = merged_rules(rs, n - 1);
        let r = rs[n - 1];
        if r.commit_type@ == "feat"@ {
            m.update(0, ("feat"@, "minor"@, r.section@))
        } else if r.commit_type@ == "fix"@ {
            m.update(1, ("fix"@, "patch"@, r.section@))
        } else if r.commit_type@ == "revert"@ {
            m.update(2, ("revert"@, "patch"@, r.section@))
        } else {
            m.push(rule_view(r))
        }
    }
}

/// Once a faulty rule is met, later rules do not change the error.
proof fn lemma_rules_error_stays(rs: Seq<ReleaseType>, n: int, m: int)
    requires
        0 < n <= m <= rs.len(),
        rules_error(rs, n) is Some,
    ensures
        rules_error(rs, m) == rules_error(rs, n),
    decreases m - n,
{
    if m > n {
        lemma_rules_error_stays(rs, n, m - 1);
    }
}

proof fn lemma_merged_len(rs: Seq<ReleaseType>, n: int)
    ensures
        merged_rules(rs, n).len() >= 3,
    decreases n,
{
    if 0 < n <= rs.len() {
        lemma_merged_len(rs, n - 1);
    }
}

fn rule(t: &str, b: &str, s: &str) -> (r: ReleaseType)
    ensures
        r.commit_type@ == t@ && r.bump@ == b@ && r.section@ == s@,
{
    ReleaseType { commit_type: t.to_owned(), bump: b.to_owned(), section: s.to_owned() }
}

/// The rules in force for `input`: the reserved `feat` (minor), `fix`
/// (patch) and `revert` (patch) first, whose titles `input` may change, then
/// the other types of `input` in order. Refused when a rule is faulty.
pub fn resolve_types(input: &Vec<ReleaseType>) -> (r: Result<Vec<ReleaseType>, ConfigError>)
    ensures
        match rules_error(input@, input@.len() as int) {
            Some(e) => r == Err::<Vec<ReleaseType>, ConfigError>(e),
            None => r matches Ok(v) && rule_views(v@) == merged_rules(input@, input@.len() as int),
        },
{
    let mut out: Vec<ReleaseType> = Vec::new();
    out.push(rule("feat", "minor", "Features"));
    out.push(rule("fix", "patch", "Bug Fixes"));
    out.push(rule("revert", "patch", "Reverts"));
    assert(rule_views(out@) =~= merged_rules(input@, 0));
    let feat = chars_of("feat");
    let fix = chars_of("fix");
    let revert = chars_of("revert");
    let minor = chars_of("minor");
    let patch = chars_of("patch");
    let mut i: usize = 0;
    while i < input.len()
        invariant
            i <= input@.len(),
            feat@ == "feat"@ && fix@ == "fix"@ && revert@ == "revert"@,
            minor@ == "minor"@ && patch@ == "patch"@,
            rules_error(input@, i as int) is None,
            rule_views(out@) == merged_rules(input@, i as int),
            out@.len() >= 3,
        decreases input@.len() - i,
    {
        let r = &input[i];
        let t = chars_of(r.commit_type.as_str());
        let b = chars_of(r.bump.as_str());
        let is_feat = same(&t, &feat);
        let is_fix = same(&t, &fix);
        let is_revert = same(&t, &revert);
        let is_reserved = is_feat || is_fix || is_revert;
        if is_reserved && b.len() > 0 {
            proof {
                lemma_rules_error_stays(input@, i + 1, input@.len() as int);
            }
            return Err(ConfigError::ReservedTypeBump);
        }
        if !is_reserved && !same(&b, &minor) && !same(&b, &patch) {
            proof {
                lemma_rules_error_stays(input@, i + 1, input@.len() as int);
            }
            return Err(ConfigError::InvalidBump);
        }
        if r.section.as_str().is_empty() {
            proof {
                lemma_rules_error_stays(input@, i + 1, input@.len() as int);
            }
            return Err(ConfigError::EmptySection);
        }
        let ghost before = out@;
        if is_feat {
            out.set(0, rule("feat", "minor", r.section.as_str()));
        } else if is_fix {
            out.set(1, rule("fix", "patch", r.section.as_str()));
        } else if is_revert {
            out.set(2, rule("revert", "patch", r.section.as_str()));
        } else {
            out.push(rule(r.commit_type.as_str(), r.bump.as_str(), r.section.as_str()));
        }
        i = i + 1;
        assert(rule_views(out@) =~= merged_rules(input@, i as int));
        proof {
            lemma_merged_len(input@, i as int);
        }
    }
    Ok(out)
}

// ---------------------------------------------------------------------------
// Packages.

pub open spec fn file_view(f: BumpFile) -> (Seq<char>, Seq<char>, bool, bool) {
    (f.target@, f.path@, f.build_metadata, f.package)
}

pub open spec fn file_views(fs: Seq<BumpFile>) -> Seq<(Seq<char>, Seq<char>, bool, bool)> {
    fs.map_values(|f: BumpFile| file_view(f))
}

pub open spec fn supported_target(t: Seq<char>) -> bool {
    t == "cargo"@ || t == "npm"@ || t == "pub"@ || t == "android"@ || t == "ios"@
}

/// The position of the last `/` in `s[..n]`, or -1.
pub open spec fn last_slash(s: Seq<char>, n: int) -> int
    decreases n,
{
    if n <= 0 || n > s.len() {
        -1
    } else if s[n - 1] == '/' {
        n - 1
    } else {
        last_slash(s, n - 1)
    }
}

/// The directory of a package's version file: all but its last segment.
pub open spec fn package_dir(p: Seq<char>) -> Seq<char> {
    p.take(last_slash(p, p.len() as int))
}

/// The name of a package: the second-to-last segment of its version file's path.
pub open spec fn package_name(p: Seq<char>) -> Seq<char> {
    let l = last_slash(p, p.len() as int);
    p.subrange(last_slash(p, l) + 1, l)
}

/// What is wrong with one version-file declaration, if anything.
pub open spec fn file_error(f: BumpFile) -> Option<ConfigError> {
    if !supported_target(f.target@) {
        Some(ConfigError::UnsupportedTarget)
    } else if f.package && last_slash(f.path@, f.path@.len() as int) < 0 {
        Some(ConfigError::InvalidPackagePath)
    } else {
        None
    }
}

/// The error of the first faulty declaration among `fs[..n]`.
pub open spec fn files_error(fs: Seq<BumpFile>, n: int) -> Option<ConfigError>
    decreases n,
{
    if n <= 0 || n > fs.len() {
        None
    } else {
        match files_error(fs, n - 1) {
            Some(e) => Some(e),
            None => file_error(fs[n - 1]),
        }
    }
}

pub open spec fn has_name(hs: Seq<(Seq<char>, Seq<char>)>, name: Seq<char>) -> bool {
    exists|k: int| 0 <= k < hs.len() && hs[k].0 == name
}

/// The named packages of `fs[..n]`, as (name, path), each once, in order of
/// first appearance; the path comes from the first declaration.
pub open spec fn package_heads(fs: Seq<BumpFile>, n: int) -> Seq<(Seq<char>, Seq<char>)>
    decreases n,
{
    if n <= 0 || n > fs.len() {
        Seq::empty()
    } else {
        let h = package_heads(fs, n - 1);
        let f = fs[n - 1];
        if f.package && !has_name(h, package_name(f.path@)) {
            h.push((package_name(f.path@), package_dir(f.path@)))
        } else {
            h
        }
    }
}

/// The declarations among `fs[..n]` of the package `name`, or of the root
/// package when `root` holds.
pub open spec fn files_of(fs: Seq<BumpFile>, n: int, root: bool, name: Seq<char>) -> Seq<(Seq<char>, Seq<char>, bool, bool)>
    decreases n,
{
    if n <= 0 || n > fs.len() {
        Seq::empty()
    } else {
        let prev = files_of(fs, n - 1, root, name);
        let f = fs[n - 1];
        if (root && !f.package) || (!root && f.package && package_name(f.path@) == name) {
            prev.push(file_view(f))
        } else {
            prev
        }
    }
}

/// A package as (name, path, tag prefix, version files).
pub type PackageView = (Seq<char>, Seq<char>, Seq<char>, Seq<(Seq<char>, Seq<char>, bool, bool)>);

pub open spec fn pkg_view(p: Pkg) -> PackageView {
    (p.name@, p.path@, p.tag_prefix@, file_views(p.bump_files@))
}

pub open spec fn pkg_views(ps: Seq<Pkg>) -> Seq<PackageView> {
    ps.map_values(|p: Pkg| pkg_view(p))
}

/// The packages of `fs` under the global `prefix`: the root package first,
/// if any declaration belongs to it, then the named packages in order of
/// first appearance.
pub open spec fn partition(fs: Seq<BumpFile>, prefix: Seq<char>) -> Seq<PackageView> {
    let n = fs.len() as int;
    let root = files_of(fs, n, true, Seq::empty());
    let hs = package_heads(fs, n);
    (if root.len() > 0 { seq![(Seq::empty(), Seq::empty(), prefix, root)] } else { Seq::empty() })
        + Seq::new(hs.len(), |k: int| (hs[k].0, hs[k].1, package_prefix(hs[k].0, prefix), files_of(fs, n, false, hs[k].0)))
}

/// The packages among `ps[..n]` whose names are in `sel`.
pub open spec fn chosen(ps: Seq<PackageView>, sel: Seq<Seq<char>>, n: int) -> Seq<PackageView>
    decreases n,
{
    if n <= 0 || n > ps.len() {
        Seq::empty()
    } else if sel.contains(ps[n - 1].0) {
        chosen(ps, sel, n - 1).push(ps[n - 1])
    } else {
        chosen(ps, sel, n - 1)
    }
}

/// The packages released for `fs`: all of them, or those named in `sel`
/// when it is not empty.
pub open spec fn released(fs: Seq<BumpFile>, prefix: Seq<char>, sel: Seq<Seq<char>>) -> Seq<PackageView> {
    let ps = partition(fs, prefix);
    if sel.len() == 0 { ps } else { chosen(ps, sel, ps.len() as int) }
}

/// The outcome of partitioning: the first configuration error, or the
/// packages to release.
pub open spec fn partition_error(fs: Seq<BumpFile>, prefix: Seq<char>, sel: Seq<Seq<char>>) -> Option<ConfigError> {
    if fs.len() == 0 {
        Some(ConfigError::NoBumpFiles)
    } else if files_error(fs, fs.len() as int) is Some {
        files_error(fs, fs.len() as int)
    } else if released(fs, prefix, sel).len() == 0 {
        Some(ConfigError::NoPackages)
    } else {
        None
    }
}

proof fn lemma_files_error_stays(fs: Seq<BumpFile>, n: int, m: int)
    requires
        0 < n <= m <= fs.len(),
        files_error(fs, n) is Some,
    ensures
        files_error(fs, m) == files_error(fs, n),
    decreases m - n,
{
    if m > n {
        lemma_files_error_stays(fs, n, m - 1);
    }
}

pub fn copy_file(f: &BumpFile) -> (r: BumpFile)
    ensures
        file_view(r) == file_view(*f),
{
    BumpFile { target: f.target.clone(), path: f.path.clone(), build_metadata: f.build_metadata, package: f.package }
}

/// The position of the last `/` in `v[..n]`.
fn find_last_slash(v: &Vec<char>, n: usize) -> (r: Option<usize>)
    requires
        n <= v@.len(),
    ensures
        match r {
            Some(i) => i == last_slash(v@, n as int) && i < n,
            None => last_slash(v@, n as int) == -1,
        },
{
    let mut k: usize = n;
    while k > 0
        invariant
            k <= n <= v@.len(),
            last_slash(v@, n as int) == last_slash(v@, k as int),
        decreases k,
    {
        if v[k - 1] == '/' {
            return Some(k - 1);
        }
        k = k - 1;
    }
    None
}

/// The name and directory of a package's version file.
fn name_and_dir(path: &String) -> (r: (String, String))
    requires
        last_slash(path@, path@.len() as int) >= 0,
    ensures
        r.0@ == package_name(path@),
        r.1@ == package_dir(path@),
{
    let v = chars_of(path.as_str());
    let l = match find_last_slash(&v, v.len()) {
        Some(l) => l,
        None => 0,
    };
    let start = match find_last_slash(&v, l) {
        Some(p) => p + 1,
        None => 0,
    };
    assert(v@.take(l as int) =~= v@.subrange(0, l as int));
    (string_of(&v, start, l), string_of(&v, 0, l))
}

fn is_supported(t: &String) -> (r: bool)
    ensures
        r == supported_target(t@),
{
    let v = chars_of(t.as_str());
    same(&v, &chars_of("cargo")) || same(&v, &chars_of("npm")) || same(&v, &chars_of("pub"))
        || same(&v, &chars_of("android")) || same(&v, &chars_of("ios"))
}

fn position_of(names: &Vec<String>, name: &String) -> (r: Option<usize>)
    ensures
        match r {
            Some(k) => k < names@.len() && names@[k as int]@ == name@,
            None => forall|k: int| 0 <= k < names@.len() ==> names@[k]@ != name@,
        },
{
    let mut k: usize = 0;
    while k < names.len()
        invariant
            k <= names@.len(),
            forall|j: int| 0 <= j < k ==> names@[j]@ != name@,
        decreases names@.len() - k,
    {
        if names[k] == *name {
            return Some(k);
        }
        k = k + 1;
    }
    None
}

/// The declarations of `files` that belong to the root package (`root`) or
/// to the package `name`.
fn collect_files(files: &Vec<BumpFile>, root: bool, name: &String) -> (r: Vec<BumpFile>)
    requires
        forall|i: int| 0 <= i < files@.len() ==> file_error(#[trigger] files@[i]) is None,
    ensures
        file_views(r@) == files_of(files@, files@.len() as int, root, name@),
{
    let mut r: Vec<BumpFile> = Vec::new();
    let mut i: usize = 0;
    while i < files.len()
        invariant
            i <= files@.len(),
            forall|i: int| 0 <= i < files@.len() ==> file_error(#[trigger] files@[i]) is None,
            file_views(r@) == files_of(files@, i as int, root, name@),
        decreases files@.len() - i,
    {
        let f = &files[i];
        let keep = if root {
            !f.package
        } else if f.package {
            assert(file_error(files@[i as int]) is None);
            let (n, _) = name_and_dir(&f.path);
            n == *name
        } else {
            false
        };
        if keep {
            r.push(copy_file(f));
        }
        i = i + 1;
        assert(file_views(r@) =~= files_of(files@, i as int, root, name@));
    }
    r
}

/// Groups the version-file declarations into packages under the global
/// `tag_prefix` and keeps those named in `selected_packages` (all of them when
/// it is empty).
pub fn partition_packages(bump_files: &Vec<BumpFile>, tag_prefix: &String, selected_packages: &Vec<String>) -> (r: Result<Vec<Pkg>, ConfigError>)
    ensures
        match partition_error(bump_files@, tag_prefix@, crate::changelog::names(selected_packages@)) {
            Some(e) => r == Err::<Vec<Pkg>, ConfigError>(e),
            None => r matches Ok(ps) && pkg_views(ps@) == released(bump_files@, tag_prefix@, crate::changelog::names(selected_packages@)),
        },
{
    let ghost fs = bump_files@;
    let ghost sel = crate::changelog::names(selected_packages@);
    if bump_files.len() == 0 {
        return Err(ConfigError::NoBumpFiles);
    }
    let mut i: usize = 0;
    while i < bump_files.len()
        invariant
            i <= fs.len(),
            fs == bump_files@,
            files_error(fs, i as int) is None,
            forall|j: int| 0 <= j < i ==> file_error(#[trigger] fs[j]) is None,
        decreases fs.len() - i,
    {
        let f = &bump_files[i];
        if !is_supported(&f.target) {
            proof { lemma_files_error_stays(fs, i + 1, fs.len() as int); }
            return Err(ConfigError::UnsupportedTarget);
        }
        if f.package {
            let v = chars_of(f.path.as_str());
            if find_last_slash(&v, v.len()).is_none() {
                proof { lemma_files_error_stays(fs, i + 1, fs.len() as int); }
                return Err(ConfigError::InvalidPackagePath);
            }
        }
        i = i + 1;
    }
    // the named packages, in order of first appearance
    let mut names: Vec<String> = Vec::new();
    let mut dirs: Vec<String> = Vec::new();
    let mut i: usize = 0;
    while i < bump_files.len()
        invariant
            i <= fs.len(),
            fs == bump_files@,
            forall|j: int| 0 <= j < fs.len() ==> file_error(#[trigger] fs[j]) is None,
            names@.len() == dirs@.len(),
            package_heads(fs, i as int) == Seq::new(names@.len(), |k: int| (names@[k]@, dirs@[k]@)),
        decreases fs.len() - i,
    {
        let f = &bump_files[i];
        let ghost h = package_heads(fs, i as int);
        if f.package {
            assert(file_error(fs[i as int]) is None);
            let (n, d) = name_and_dir(&f.path);
            match position_of(&names, &n) {
                Some(k) => {
                    assert(h[k as int].0 == n@);
                },
                None => {
                    assert(!has_name(h, n@));
                    names.push(n);
                    dirs.push(d);
                },
            }
        }
        i = i + 1;
        assert(package_heads(fs, i as int) =~= Seq::new(names@.len(), |k: int| (names@[k]@, dirs@[k]@)));
    }
    let mut pkgs: Vec<Pkg> = Vec::new();
    let root_files = collect_files(bump_files, true, &String::new());
    let ghost part = partition(fs, tag_prefix@);
    let ghost hs = package_heads(fs, fs.len() as int);
    let ghost rootv = files_of(fs, fs.len() as int, true, Seq::empty());
    let ghost base: Seq<PackageView> = if rootv.len() > 0 { seq![(Seq::empty(), Seq::empty(), tag_prefix@, rootv)] } else { Seq::empty() };
    if root_files.len() > 0 {
        pkgs.push(Pkg::new(String::new(), String::new(), tag_prefix.clone(), root_files));
    }
    assert(pkg_views(pkgs@) =~= base);
    let mut k: usize = 0;
    while k < names.len()
        invariant
            k <= names@.len(),
            names@.len() == dirs@.len(),
            fs == bump_files@,
            forall|j: int| 0 <= j < fs.len() ==> file_error(#[trigger] fs[j]) is None,
            hs == Seq::new(names@.len(), |k: int| (names@[k]@, dirs@[k]@)),
            part == base + Seq::new(hs.len(), |k: int| (hs[k].0, hs[k].1, package_prefix(hs[k].0, tag_prefix@), files_of(fs, fs.len() as int, false, hs[k].0))),
            pkg_views(pkgs@) == part.take(base.len() + k),
            base.len() <= 1,
        decreases names@.len() - k,
    {
        let files = collect_files(bump_files, false, &names[k]);
        let p = Pkg::new(names[k].clone(), dirs[k].clone(), tag_prefix.clone(), files);
        assert(hs[k as int] == (names@[k as int]@, dirs@[k as int]@));
        assert(pkg_view(p) == part[base.len() + k]);
        let ghost before = pkgs@;
        pkgs.push(p);
        assert(pkg_views(pkgs@) =~= pkg_views(before).push(pkg_view(p)));
        k = k + 1;
        assert(pkg_views(pkgs@) =~= part.take(base.len() + k));
    }
    assert(part.take(base.len() + k) =~= part);
    let ghost all = pkg_views(pkgs@);
    let result = if selected_packages.len() == 0 {
        pkgs
    } else {
        let mut kept: Vec<Pkg> = Vec::new();
        let mut rest = pkgs;
        let ghost mut done: int = 0;
        assert(all.skip(0) =~= all);
        assert(pkg_views(kept@) =~= chosen(all, sel, 0));
        while rest.len() > 0
            invariant
                0 <= done <= all.len(),
                pkg_views(rest@) == all.skip(done),
                pkg_views(kept@) == chosen(all, sel, done),
                sel == crate::changelog::names(selected_packages@),
            decreases rest@.len(),
        {
            let ghost before = rest@;
            let p = rest.remove(0);
            assert(p == before[0]);
            assert(all[done] == pkg_view(p)) by {
                assert(before.len() > 0);
                assert(pkg_views(before).len() == all.skip(done).len());
                assert(done < all.len());
                assert(pkg_views(before)[0] == pkg_view(before[0]));
                assert(all.skip(done)[0] == all[done]);
            }
            assert(pkg_views(rest@) =~= pkg_views(before).skip(1));
            let keep = contains_string(selected_packages, &p.name);
            if keep {
                kept.push(p);
            }
            proof {
                done = done + 1;
            }
            assert(pkg_views(rest@) =~= all.skip(done));
            assert(pkg_views(kept@) =~= chosen(all, sel, done));
        }
        assert(done == all.len());
        assert(all.take(done) =~= all);
        kept
    };
    if result.len() == 0 {
        return Err(ConfigError::NoPackages);
    }
    Ok(result)
}

// ---------------------------------------------------------------------------

/// The configuration file's settings.
#[derive(Debug)]
pub struct Config {
    /// Message of the release commit; `%s` stands for the version.
    pub release_message: String,
    pub tag_prefix: String,
    pub types: Vec<ReleaseType>,
    pub bump_files: Vec<BumpFile>,
    pub include_authors: bool,
    /// Where the notes are written; empty for nowhere.
    pub changelog_file: String,
}

pub fn default_release_message() -> (r: String)
    ensures
        r@ == "chore(release): %s"@,
{
    "chore(release): %s".to_owned()
}

pub fn default_tag_prefix() -> (r: String)
    ensures
        r@ == "v"@,
{
    "v".to_owned()
}

pub fn default_types() -> (r: Vec<ReleaseType>)
    ensures
        r@.len() == 0,
{
    Vec::new()
}

pub fn default_bump_files() -> (r: Vec<BumpFile>)
    ensures
        r@.len() == 0,
{
    Vec::new()
}

pub fn default_include_authors() -> (r: bool)
    ensures
        r,
{
    true
}

pub fn default_build_metadata() -> (r: bool)
    ensures
        !r,
{
    false
}

pub fn default_package() -> (r: bool)
    ensures
        !r,
{
    false
}

/// The settings of a run: the configuration with its rules resolved, the
/// requested pre-release identifier, the mode, and the packages to release.
#[derive(Debug)]
pub struct Ctx {
    pub release_message: String,
    pub tag_prefix: String,
    pub types: Vec<ReleaseType>,
    pub bump_files: Vec<BumpFile>,
    pub include_authors: bool,
    pub changelog_file: String,
    /// Requested pre-release identifier; empty for a stable release.
    pub pre_id: String,
    /// When set, nothing is published.
    pub preview: bool,
    pub packages: Vec<Pkg>,
}

/// The first configuration error of `c` with selection `sel`, if any: faulty
/// rules first, then the version files and packages.
pub open spec fn config_error(c: Config, sel: Seq<Seq<char>>) -> Option<ConfigError> {
    match rules_error(c.types@, c.types@.len() as int) {
        Some(e) => Some(e),
        None => partition_error(c.bump_files@, c.tag_prefix@, sel),
    }
}

impl Ctx {
    /// Validates `config` and partitions it into the packages to release.
    pub fn new(config: Config, pre_id: String, preview: bool, selected_packages: Vec<String>) -> (r: Result<Self, ConfigError>)
        ensures
            match config_error(config, crate::changelog::names(selected_packages@)) {
                Some(e) => r == Err::<Ctx, ConfigError>(e),
                None => r matches Ok(ctx)
                    && rule_views(ctx.types@) == merged_rules(config.types@, config.types@.len() as int)
                    && pkg_views(ctx.packages@) == released(config.bump_files@, config.tag_prefix@, crate::changelog::names(selected_packages@))
                    && ctx.release_message == config.release_message
                    && ctx.tag_prefix == config.tag_prefix
                    && ctx.bump_files == config.bump_files
                    && ctx.include_authors == config.include_authors
                    && ctx.changelog_file == config.changelog_file
                    && ctx.pre_id == pre_id
                    && ctx.preview == preview,
            },
    {
        let types = match resolve_types(&config.types) {
            Ok(t) => t,
            Err(e) => {
                return Err(e);
            },
        };
        let packages = match partition_packages(&config.bump_files, &config.tag_prefix, &selected_packages) {
            Ok(p) => p,
            Err(e) => {
                return Err(e);
            },
        };
        Ok(Ctx {
            release_message: config.release_message,
            tag_prefix: config.tag_prefix,
            types,
            bump_files: config.bump_files,
            include_authors: config.include_authors,
            changelog_file: config.changelog_file,
            pre_id,
            preview,
            packages,
        })
    }
}

} // verus!
