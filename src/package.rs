//! A package's release computation: picking the last release, classifying
//! its commits, and resolving the next version.
use vstd::prelude::*;
use vstd::string::StringExecFns;
use crate::changelog::{Changelog, Entry, entries, classify_commit};
use crate::ctx::{BumpFile, ReleaseType};
use crate::git::Commit;
use crate::text::{
    Class, span, lemma_span, scan, chars_of, same, string_of, parse_decimal, push_decimal, decimal, all_digits,
    digits_value, replace_all, replace_seq, pieces_from, split_bounds, push_range,
};
use crate::version::{
    Version, ReleaseInfo, version_text, version_parts, semver_prerelease_accepts, select_release, eligible, tag_text,
};

verus! {

/// How far a release moves the version.
#[derive(Debug, Clone, Copy, PartialEq, Eq)]
pub enum Bump {
    Major,
    Minor,
    Patch,
}

/// Why the next version could not be computed.
#[derive(Debug, Clone, Copy, PartialEq, Eq)]
pub enum ResolveError {
    /// A version number would pass `u64::MAX`.
    VersionOverflow,
    /// The last release is on the requested pre-release track but its
    /// second identifier is not a counter that can be incremented.
    PrereleaseCounter,
    /// The computed pre-release is not a valid pre-release identifier.
    InvalidPrerelease,
}

impl ResolveError {
    /// The message shown for this error.
    pub fn message(&self) -> (r: &'static str)
        ensures
            r@ == match *self {
                ResolveError::VersionOverflow => "version number overflow"@,
                ResolveError::PrereleaseCounter => "failed to update pre release: no numeric counter"@,
                ResolveError::InvalidPrerelease => "failed to update pre release"@,
            },
    {
        match self {
            ResolveError::VersionOverflow => "version number overflow",
            ResolveError::PrereleaseCounter => "failed to update pre release: no numeric counter",
            ResolveError::InvalidPrerelease => "failed to update pre release",
        }
    }
}

/// The bump a set of entries calls for: major if any carries a breaking
/// change, else minor if any has a type whose rule bumps minor, else patch.
pub open spec fn bump_of(es: Seq<Entry>, rules: Seq<ReleaseType>) -> Bump {
    if exists|i: int| 0 <= i < es.len() && (#[trigger] es[i]).breaking.len() > 0 {
        Bump::Major
    } else if exists|i: int, j: int| 0 <= i < es.len() && 0 <= j < rules.len()
        && (#[trigger] es[i]).section_type == (#[trigger] rules[j]).commit_type@ && rules[j].bump@ == "minor"@ {
        Bump::Minor
    } else {
        Bump::Patch
    }
}

/// The first identifier of a pre-release.
pub open spec fn first_ident(pre: Seq<char>) -> Seq<char> {
    pre.take(span(pre, 0, Class::NotDot))
}

/// The second identifier of a pre-release, if it has one.
pub open spec fn second_ident(pre: Seq<char>) -> Option<Seq<char>> {
    let e = span(pre, 0, Class::NotDot);
    if e < pre.len() {
        Some(pre.subrange(e + 1, span(pre, e + 1, Class::NotDot)))
    } else {
        None
    }
}

/// The pre-release of the next version, before validation: `<pre_id>.0` when
/// the last release is not on the `pre_id` track, else its counter plus one.
/// `None` when the counter is missing, not a number, or too large.
pub open spec fn next_prerelease(last_pre: Seq<char>, pre_id: Seq<char>) -> Option<Seq<char>> {
    if last_pre.len() == 0 || first_ident(last_pre) != pre_id {
        Some(pre_id + ".0"@)
    } else {
        match second_ident(last_pre) {
            Some(c) => if numeric_counter(c) {
                Some(pre_id + "."@ + decimal((digits_value(c) + 1) as nat))
            } else {
                None
            },
            None => None,
        }
    }
}

/// A counter that can be read and incremented within 64 bits.
pub open spec fn numeric_counter(c: Seq<char>) -> bool {
    all_digits(c) && digits_value(c) < u64::MAX
}

/// The numbers of the next version, before checking they fit: bumped when
/// the last release is not a pre-release, kept when it is.
pub open spec fn next_numbers(last: Version, b: Bump) -> (int, int, int) {
    if last.pre@.len() > 0 {
        (last.major as int, last.minor as int, last.patch as int)
    } else {
        match b {
            Bump::Major => (last.major + 1, 0, 0),
            Bump::Minor => (last.major as int, last.minor + 1, 0),
            Bump::Patch => (last.major as int, last.minor as int, last.patch + 1),
        }
    }
}

pub open spec fn fits(n: (int, int, int)) -> bool {
    n.0 <= u64::MAX && n.1 <= u64::MAX && n.2 <= u64::MAX
}

/// The outcome of resolving the next version from `last` with bump `b` and
/// pre-release identifier `pre_id` (empty for a stable release).
pub open spec fn resolved(last: Version, b: Bump, pre_id: Seq<char>) -> Result<(int, int, int, Seq<char>), ResolveError> {
    let n = next_numbers(last, b);
    if !fits(n) {
        Err(ResolveError::VersionOverflow)
    } else if pre_id.len() == 0 {
        Ok((n.0, n.1, n.2, Seq::empty()))
    } else {
        match next_prerelease(last.pre@, pre_id) {
            Some(p) => if semver_prerelease_accepts(p) {
                Ok((n.0, n.1, n.2, p))
            } else {
                Err(ResolveError::InvalidPrerelease)
            },
            None => Err(ResolveError::PrereleaseCounter),
        }
    }
}


/// The bump that `commits` call for under `release_types`.
pub fn bump_level(commits: &Vec<crate::changelog::ChangelogCommit>, release_types: &Vec<ReleaseType>) -> (r: Bump)
    ensures
        r == bump_of(entries(commits@), release_types@),
{
    let ghost es = entries(commits@);
    let mut i: usize = 0;
    while i < commits.len()
        invariant
            i <= commits@.len(),
            es == entries(commits@),
            forall|k: int| 0 <= k < i ==> (#[trigger] es[k]).breaking.len() == 0,
        decreases commits@.len() - i,
    {
        if !commits[i].breaking.as_str().is_empty() {
            assert(es[i as int].breaking.len() > 0);
            return Bump::Major;
        }
        i = i + 1;
    }
    let minor = chars_of("minor");
    let mut i: usize = 0;
    while i < commits.len()
        invariant
            i <= commits@.len(),
            es == entries(commits@),
            minor@ == "minor"@,
            forall|k: int| 0 <= k < es.len() ==> (#[trigger] es[k]).breaking.len() == 0,
            forall|k: int, j: int| 0 <= k < i && 0 <= j < release_types@.len()
                ==> !((#[trigger] es[k]).section_type == (#[trigger] release_types@[j]).commit_type@ && release_types@[j].bump@ == "minor"@),
        decreases commits@.len() - i,
    {
        let mut j: usize = 0;
        while j < release_types.len()
            invariant
                i < commits@.len(),
                j <= release_types@.len(),
                es == entries(commits@),
                minor@ == "minor"@,
                forall|k: int| 0 <= k < es.len() ==> (#[trigger] es[k]).breaking.len() == 0,
                forall|k: int, m: int| 0 <= k < i && 0 <= m < release_types@.len()
                    ==> !((#[trigger] es[k]).section_type == (#[trigger] release_types@[m]).commit_type@ && release_types@[m].bump@ == "minor"@),
                forall|m: int| 0 <= m < j
                    ==> !(es[i as int].section_type == (#[trigger] release_types@[m]).commit_type@ && release_types@[m].bump@ == "minor"@),
            decreases release_types@.len() - j,
        {
            let b = chars_of(release_types[j].bump.as_str());
            if commits[i].section_type == release_types[j].commit_type && same(&b, &minor) {
                assert(es[i as int].section_type == release_types@[j as int].commit_type@);
                assert(release_types@[j as int].bump@ == "minor"@);
                assert(!exists|k: int| 0 <= k < es.len() && (#[trigger] es[k]).breaking.len() > 0);
                assert(exists|k: int, m: int| 0 <= k < es.len() && 0 <= m < release_types@.len()
                    && (#[trigger] es[k]).section_type == (#[trigger] release_types@[m]).commit_type@ && release_types@[m].bump@ == "minor"@) by {
                    assert(0 <= i < es.len() && 0 <= j < release_types@.len());
                }
                return Bump::Minor;
            }
            j = j + 1;
        }
        i = i + 1;
    }
    Bump::Patch
}

/// The next version after `last`, as `resolved` states it; build metadata
/// is never carried over.
pub fn next_version(last: &Version, bump: Bump, pre_id: &str) -> (r: Result<Version, ResolveError>)
    ensures
        match r {
            Ok(v) => resolved(*last, bump, pre_id@) == Ok::<(int, int, int, Seq<char>), ResolveError>(version_parts(v)) && v.build@.len() == 0,
            Err(e) => resolved(*last, bump, pre_id@) == Err::<(int, int, int, Seq<char>), ResolveError>(e),
        },
{
    let has_pre = !last.pre.as_str().is_empty();
    let (major, minor, patch) = if has_pre {
        (last.major, last.minor, last.patch)
    } else {
        match bump {
            Bump::Major => {
                if last.major == u64::MAX {
                    return Err(ResolveError::VersionOverflow);
                }
                (last.major + 1, 0, 0)
            },
            Bump::Minor => {
                if last.minor == u64::MAX {
                    return Err(ResolveError::VersionOverflow);
                }
                (last.major, last.minor + 1, 0)
            },
            Bump::Patch => {
                if last.patch == u64::MAX {
                    return Err(ResolveError::VersionOverflow);
                }
                (last.major, last.minor, last.patch + 1)
            },
        }
    };
    if pre_id.is_empty() {
        return Ok(Version { major, minor, patch, pre: String::new(), build: String::new() });
    }
    let lp = chars_of(last.pre.as_str());
    let p = chars_of(pre_id);
    let e = scan(&lp, 0, Class::NotDot);
    proof {
        lemma_span(lp@, 0, Class::NotDot);
    }
    let mut pre = String::new();
    pre.append(pre_id);
    let ghost first = lp@.take(e as int);
    let on_track = lp.len() > 0 && {
        let f = string_of(&lp, 0, e);
        let fc = chars_of(f.as_str());
        same(&fc, &p)
    };
    assert(on_track == (lp@.len() > 0 && first_ident(lp@) == pre_id@)) by {
        assert(lp@.subrange(0, e as int) =~= first);
    }
    if !on_track {
        pre.append(".0");
    } else {
        if e >= lp.len() {
            return Err(ResolveError::PrereleaseCounter);
        }
        let e2 = scan(&lp, e + 1, Class::NotDot);
        proof {
            lemma_span(lp@, e + 1, Class::NotDot);
        }
        match parse_decimal(&lp, e + 1, e2) {
            Some(n) => {
                if n == u64::MAX {
                    return Err(ResolveError::PrereleaseCounter);
                }
                pre.append(".");
                push_decimal(&mut pre, n + 1);
            },
            None => {
                return Err(ResolveError::PrereleaseCounter);
            },
        }
    }
    if !crate::version::prerelease_ok(pre.as_str()) {
        return Err(ResolveError::InvalidPrerelease);
    }
    Ok(Version { major, minor, patch, pre, build: String::new() })
}

/// A unit of independent release.
#[derive(Debug)]
pub struct Pkg {
    /// Package name; empty for the repository root.
    pub name: String,
    /// Package path; empty for the repository root.
    pub path: String,
    /// Version files to bump.
    pub bump_files: Vec<BumpFile>,
    /// The last release.
    pub last_release: ReleaseInfo,
    /// Classified commits, next version and notes.
    pub changelog: Changelog,
    /// Commits since the last release.
    pub commits: Vec<Commit>,
    /// The package name and the global tag prefix combined.
    pub tag_prefix: String,
}

/// The tag prefix of a package: the global prefix for the root package,
/// `<name>@<prefix>` for a named one.
pub open spec fn package_prefix(name: Seq<char>, prefix: Seq<char>) -> Seq<char> {
    if name.len() == 0 {
        prefix
    } else {
        name + "@"@ + prefix
    }
}

/// The entries that `cs` yield under `types`, in order.
pub open spec fn classify_all(types: Seq<String>, cs: Seq<Commit>) -> Seq<Entry>
    decreases cs.len(),
{
    if cs.len() == 0 {
        Seq::empty()
    } else {
        classify_all(types, cs.drop_last()) + match classify_commit(types, cs.last()) {
            Some(e) => seq![e],
            None => Seq::empty(),
        }
    }
}

pub open spec fn rule_types(rules: Seq<ReleaseType>) -> Seq<String> {
    rules.map_values(|r: ReleaseType| r.commit_type)
}

/// The text of resolved version numbers and pre-release.
pub open spec fn parts_text(p: (int, int, int, Seq<char>)) -> Seq<char> {
    decimal(p.0 as nat) + "."@ + decimal(p.1 as nat) + "."@ + decimal(p.2 as nat)
        + (if p.3.len() > 0 { "-"@ + p.3 } else { Seq::empty() })
}

/// What loading the changelog of a package yields: `Ok(false)` when no commit
/// is relevant; otherwise `Ok(true)` with the next tag, which is the seed's own
/// tag for a first release and the resolved version under the package prefix
/// else; or the resolution error.
pub open spec fn load_outcome(
    es: Seq<Entry>,
    last: ReleaseInfo,
    prefix: Seq<char>,
    rules: Seq<ReleaseType>,
    pre_id: Seq<char>,
) -> Result<Option<Seq<char>>, ResolveError> {
    if es.len() == 0 {
        Ok(None)
    } else if last.initial {
        Ok(Some(tag_text(last)))
    } else {
        match resolved(last.version, bump_of(es, rules), pre_id) {
            Ok(p) => Ok(Some(prefix + parts_text(p))),
            Err(e) => Err(e),
        }
    }
}

proof fn lemma_parts_text(v: Version)
    requires
        v.build@.len() == 0,
    ensures
        version_text(v) == parts_text(version_parts(v)),
{
    assert(version_text(v) =~= parts_text(version_parts(v)));
}

/// The tag that release notes compare against: none for a first release.
pub open spec fn compared(last: ReleaseInfo) -> Seq<char> {
    if last.initial { Seq::empty() } else { tag_text(last) }
}

/// The heading of a changelog file.
pub open spec fn changelog_title() -> Seq<char> {
    "# CHANGELOG\r\n\r\n_This file is auto-generated by donder-release and should not be edited manually._\r\n\r\n"@
}

pub open spec fn strip_cr(l: Seq<char>) -> Seq<char> {
    if l.len() > 0 && l.last() == '\r' { l.drop_last() } else { l }
}

/// The lines of `s` as `str::lines` yields them: split at `\n`, a `\r`
/// before it dropped, no empty line after a final `\n`.
pub open spec fn text_lines(s: Seq<char>) -> Seq<Seq<char>> {
    let ps = pieces_from(s, "\n"@, 0);
    let n: int = if s.len() == 0 { 0 } else if s.last() == '\n' { ps.len() - 1 } else { ps.len() as int };
    Seq::new(n as nat, |k: int| if k < ps.len() - 1 { strip_cr(ps[k]) } else { ps[k] })
}

/// The lines `ls[3..n]`, each after a `\r\n`.
pub open spec fn kept_lines(ls: Seq<Seq<char>>, n: int) -> Seq<char>
    decreases n,
{
    if n <= 3 || n > ls.len() {
        Seq::empty()
    } else {
        kept_lines(ls, n - 1) + "\r\n"@ + ls[n - 1]
    }
}

/// The new text of a changelog file: the heading and the new notes, then,
/// when the file exists, its old lines after its own three-line heading.
pub open spec fn changelog_text(existing: Option<Seq<char>>, notes: Seq<char>) -> Seq<char> {
    match existing {
        Some(old) => changelog_title() + notes + kept_lines(text_lines(old), text_lines(old).len() as int) + "\r\n"@,
        None => changelog_title() + notes,
    }
}

/// The new text of a changelog file whose current text is `existing` (`None`
/// when there is no such file).
pub fn changelog_contents(existing: Option<&str>, notes: &str) -> (r: String)
    ensures
        r@ == changelog_text(match existing { Some(e) => Some(e@), None => None }, notes@),
{
    let mut out = "# CHANGELOG\r\n\r\n_This file is auto-generated by donder-release and should not be edited manually._\r\n\r\n".to_owned();
    out.append(notes);
    match existing {
        None => out,
        Some(old) => {
            let s = chars_of(old);
            let nl = chars_of("\n");
            proof {
                reveal_strlit("\n");
                reveal_strlit("\r");
            }
            let b = split_bounds(&s, &nl);
            let ghost ps = pieces_from(s@, "\n"@, 0);
            let ghost ls = text_lines(s@);
            let n: usize = if s.len() == 0 {
                0
            } else if s[s.len() - 1] == '\n' {
                b.len() - 1
            } else {
                b.len()
            };
            let ghost head = out@;
            let mut k: usize = 3;
            while k < n
                invariant
                    3 <= k,
                    k <= n || k == 3,
                    n == ls.len(),
                    b@.len() == ps.len(),
                    n <= b@.len(),
                    ls == text_lines(s@),
                    ps == pieces_from(s@, "\n"@, 0),
                    forall|j: int| 0 <= j < b@.len() ==> (#[trigger] b@[j]).0 <= b@[j].1 <= s@.len()
                        && s@.subrange(b@[j].0 as int, b@[j].1 as int) == ps[j],
                    out@ == head + kept_lines(ls, k as int),
                decreases n - k,
            {
                let (lo, hi) = b[k];
                let end = if k + 1 < b.len() && hi > lo && s[hi - 1] == '\r' { hi - 1 } else { hi };
                out.append("\r\n");
                push_range(&mut out, &s, lo, end);
                proof {
                    let piece = ps[k as int];
                    assert(piece == s@.subrange(lo as int, hi as int));
                    if k + 1 < b@.len() {
                        if hi > lo && s@[hi - 1] == '\r' {
                            assert(s@.subrange(lo as int, end as int) =~= strip_cr(piece));
                        } else {
                            assert(s@.subrange(lo as int, end as int) =~= strip_cr(piece));
                        }
                    }
                    assert(ls[k as int] == s@.subrange(lo as int, end as int));
                }
                k = k + 1;
                assert(out@ =~= head + kept_lines(ls, k as int));
            }
            proof {
                if n <= 3 {
                    assert(kept_lines(ls, n as int) == Seq::<char>::empty());
                    assert(kept_lines(ls, 3) == Seq::<char>::empty());
                }
            }
            assert(out@ =~= head + kept_lines(ls, ls.len() as int));
            out.append("\r\n");
            out
        },
    }
}

/// The release commit's message: `template` with every `%s` replaced by
/// `version`.
pub fn release_message(template: &str, version: &str) -> (r: String)
    ensures
        r@ == replace_all(template@, "%s"@, version@),
{
    replace_seq(&chars_of(template), &chars_of("%s"), &chars_of(version))
}

/// The tags of the pre-releases among `tags`.
pub open spec fn prerelease_tags(tags: Seq<ReleaseInfo>, n: int) -> Seq<Seq<char>>
    decreases n,
{
    if n <= 0 || n > tags.len() {
        Seq::empty()
    } else if tags[n - 1].version.pre@.len() > 0 {
        prerelease_tags(tags, n - 1).push(tag_text(tags[n - 1]))
    } else {
        prerelease_tags(tags, n - 1)
    }
}

impl Pkg {
    pub fn new(name: String, path: String, tag_prefix: String, bump_files: Vec<BumpFile>) -> (r: Self)
        ensures
            r.tag_prefix@ == package_prefix(name@, tag_prefix@),
            r.name == name,
            r.path == path,
            r.bump_files == bump_files,
            !r.last_release.initial,
            r.last_release.version.major == 0 && r.last_release.version.minor == 0
                && r.last_release.version.patch == 0,
            r.last_release.version.pre@.len() == 0 && r.last_release.version.build@.len() == 0,
            r.last_release.head@.len() == 0 && r.last_release.prefix@.len() == 0,
            r.changelog.commits@.len() == 0,
            r.changelog.notes@.len() == 0,
            r.commits@.len() == 0,
    {
        let prefix = if name.as_str().is_empty() {
            tag_prefix
        } else {
            let mut p = name.clone();
            p.append("@");
            p.append(tag_prefix.as_str());
            p
        };
        Pkg {
            name,
            path,
            bump_files,
            last_release: ReleaseInfo {
                version: Version::new(0, 0, 0),
                prefix: String::new(),
                head: String::new(),
                initial: false,
            },
            changelog: Changelog::new(),
            commits: Vec::new(),
            tag_prefix: prefix,
        }
    }

    /// Picks the last release among `tags` (sorted by version, highest
    /// first): the first that is on a track containing `pre_id` or is not a
    /// pre-release. Without one, a first release is synthesized under this
    /// package's prefix. The commit a picked tag points to is looked up
    /// afterwards, by the caller.
    pub fn last_release(&mut self, tags: &Vec<ReleaseInfo>, pre_id: &str)
        ensures
            match crate::version::selected(tags@, pre_id@) {
                Some(i) => final(self).last_release.version.major == tags@[i].version.major
                    && final(self).last_release.version.minor == tags@[i].version.minor
                    && final(self).last_release.version.patch == tags@[i].version.patch
                    && final(self).last_release.version.pre@ == tags@[i].version.pre@
                    && final(self).last_release.version.build@ == tags@[i].version.build@
                    && final(self).last_release.prefix@ == tags@[i].prefix@
                    && final(self).last_release.head@ == tags@[i].head@
                    && final(self).last_release.initial == tags@[i].initial,
                None => final(self).last_release.initial
                    && final(self).last_release.version.major == 1
                    && final(self).last_release.version.minor == 0
                    && final(self).last_release.version.patch == 0
                    && final(self).last_release.version.pre@ == (if pre_id@.len() == 0 { Seq::empty() } else { pre_id@ + ".0"@ })
                    && final(self).last_release.version.build@.len() == 0
                    && final(self).last_release.prefix@ == old(self).tag_prefix@
                    && final(self).last_release.head@.len() == 0,
            },
            final(self).tag_prefix == old(self).tag_prefix,
            final(self).name == old(self).name,
            final(self).path == old(self).path,
            final(self).commits == old(self).commits,
            final(self).changelog == old(self).changelog,
            final(self).bump_files == old(self).bump_files,
    {
        match select_release(tags, pre_id) {
            Some(i) => {
                proof {
                    let k = crate::version::selected(tags@, pre_id@)->0;
                    assert(eligible(tags@[i as int], pre_id@));
                    if k < i {
                        assert(!eligible(tags@[k], pre_id@));
                    }
                    if i < k {
                        assert(!eligible(tags@[i as int], pre_id@));
                    }
                }
                self.last_release = tags[i].copy();
            },
            None => {
                self.last_release = ReleaseInfo::seed(pre_id, &self.tag_prefix);
            },
        }
    }

    /// The commit to read the log from: none (all history) for a first
    /// release, else the commit the last release points to.
    pub fn log_since(&self) -> (r: String)
        ensures
            r@ == (if self.last_release.initial { Seq::empty() } else { self.last_release.head@ }),
    {
        if self.last_release.initial {
            String::new()
        } else {
            self.last_release.head.clone()
        }
    }

    /// The tag the notes compare against: none for a first release.
    pub fn compared_tag(&self) -> (r: String)
        ensures
            r@ == compared(self.last_release),
    {
        if self.last_release.initial {
            String::new()
        } else {
            self.last_release.tag()
        }
    }

    /// Renders this package's release notes, dated today, compared with
    /// the last release unless this is the first.
    pub fn write_notes(&mut self, types: &Vec<ReleaseType>, origin_url: &str)
        ensures
            exists|date: Seq<char>| final(self).changelog.notes@ == #[trigger] crate::notes::notes_text(
                entries(old(self).changelog.commits@),
                old(self).changelog.next_release_version@,
                compared(old(self).last_release),
                types@,
                origin_url@,
                date,
            ),
            final(self).changelog.commits == old(self).changelog.commits,
            final(self).changelog.next_release_version == old(self).changelog.next_release_version,
            final(self).last_release == old(self).last_release,
            final(self).tag_prefix == old(self).tag_prefix,
    {
        let last = self.compared_tag();
        self.changelog.write_notes(&last, types, origin_url);
    }

    /// Where this package's changelog file lives: under the package path,
    /// or as given for the root package.
    pub fn changelog_path(&self, changelog_file: &str) -> (r: String)
        ensures
            r@ == (if self.path@.len() > 0 { self.path@ + "/"@ + changelog_file@ } else { changelog_file@ }),
    {
        if self.path.as_str().is_empty() {
            changelog_file.to_owned()
        } else {
            let mut r = self.path.clone();
            r.append("/");
            r.append(changelog_file);
            r
        }
    }

    /// The version written into version files: the next release tag with
    /// every occurrence of the tag prefix removed.
    pub fn release_version(&self) -> (r: String)
        ensures
            r@ == replace_all(self.changelog.next_release_version@, self.tag_prefix@, Seq::empty()),
    {
        let nothing: Vec<char> = Vec::new();
        let r = replace_seq(&chars_of(self.changelog.next_release_version.as_str()), &chars_of(self.tag_prefix.as_str()), &nothing);
        assert(nothing@ =~= Seq::<char>::empty());
        r
    }

    /// The tags of `tags` that are pre-releases, to delete once a release is
    /// published.
    pub fn pre_release_tags(tags: &Vec<ReleaseInfo>) -> (r: Vec<String>)
        ensures
            crate::changelog::names(r@) == prerelease_tags(tags@, tags@.len() as int),
    {
        let mut r: Vec<String> = Vec::new();
        let mut i: usize = 0;
        while i < tags.len()
            invariant
                i <= tags@.len(),
                crate::changelog::names(r@) == prerelease_tags(tags@, i as int),
            decreases tags@.len() - i,
        {
            if !tags[i].version.pre.as_str().is_empty() {
                let t = tags[i].tag();
                r.push(t);
            }
            i = i + 1;
            assert(crate::changelog::names(r@) =~= prerelease_tags(tags@, i as int));
        }
        r
    }

    /// Classifies this package's commits into its changelog and, when any is
    /// relevant, sets the next release version: returns whether a release is
    /// due.
    pub fn load_changelog(&mut self, pre_id: &str, types: &Vec<ReleaseType>) -> (r: Result<bool, ResolveError>)
        ensures
            entries(final(self).changelog.commits@) == entries(old(self).changelog.commits@)
                + classify_all(rule_types(types@), old(self).commits@),
            match load_outcome(
                entries(final(self).changelog.commits@),
                old(self).last_release,
                old(self).tag_prefix@,
                types@,
                pre_id@,
            ) {
                Ok(None) => r == Ok::<bool, ResolveError>(false)
                    && final(self).changelog.next_release_version == old(self).changelog.next_release_version,
                Ok(Some(t)) => r == Ok::<bool, ResolveError>(true) && final(self).changelog.next_release_version@ == t,
                Err(e) => r == Err::<bool, ResolveError>(e),
            },
            final(self).last_release == old(self).last_release,
            final(self).tag_prefix == old(self).tag_prefix,
            final(self).commits == old(self).commits,
            final(self).name == old(self).name,
            final(self).path == old(self).path,
            final(self).bump_files == old(self).bump_files,
    {
        let mut release_types: Vec<String> = Vec::new();
        let mut k: usize = 0;
        while k < types.len()
            invariant
                k <= types@.len(),
                release_types@ == rule_types(types@).take(k as int),
            decreases types@.len() - k,
        {
            release_types.push(types[k].commit_type.clone());
            k = k + 1;
            assert(release_types@ =~= rule_types(types@).take(k as int));
        }
        assert(release_types@ =~= rule_types(types@));
        let ghost start = entries(self.changelog.commits@);
        let mut i: usize = 0;
        while i < self.commits.len()
            invariant
                i <= self.commits@.len(),
                release_types@ == rule_types(types@),
                entries(self.changelog.commits@) == start + classify_all(rule_types(types@), self.commits@.take(i as int)),
                self.last_release == old(self).last_release,
                self.tag_prefix == old(self).tag_prefix,
                self.commits == old(self).commits,
                self.name == old(self).name,
                self.path == old(self).path,
                self.bump_files == old(self).bump_files,
                self.changelog.next_release_version == old(self).changelog.next_release_version,
            decreases self.commits@.len() - i,
        {
            assert(self.commits@.take(i + 1).drop_last() =~= self.commits@.take(i as int));
            self.changelog.parse_commit(&release_types, &self.commits[i]);
            i = i + 1;
            assert(entries(self.changelog.commits@) =~= start + classify_all(rule_types(types@), self.commits@.take(i as int)));
        }
        assert(self.commits@.take(i as int) =~= self.commits@);
        if self.changelog.commits.len() == 0 {
            return Ok(false);
        }
        assert(entries(self.changelog.commits@).len() > 0);
        if self.last_release.initial {
            self.changelog.next_release_version = self.last_release.tag();
            return Ok(true);
        }
        let bump = bump_level(&self.changelog.commits, types);
        match next_version(&self.last_release.version, bump, pre_id) {
            Ok(v) => {
                let mut t = self.tag_prefix.clone();
                v.push_text(&mut t);
                proof {
                    lemma_parts_text(v);
                }
                self.changelog.next_release_version = t;
                Ok(true)
            },
            Err(e) => Err(e),
        }
    }
}

} // verus!
