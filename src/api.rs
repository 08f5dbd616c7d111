//! The values exchanged with the hosting service's release API.
use vstd::prelude::*;
use vstd::string::StringExecFns;
use crate::text::{chars_of, replace_all, replace_seq};
use crate::version::{Version, semver_accepts, semver_parse, fields};

verus! {

/// Endpoint and request headers of the release API for one repository.
#[derive(Debug)]
pub struct GithubApi {
    /// The repository's API root.
    pub api_url: String,
    pub content_type: String,
    pub user_agent: String,
    pub authorization: String,
}

/// A published release, as the API lists it.
#[derive(Debug)]
pub struct Release {
    pub id: u64,
    pub tag_name: String,
    pub prerelease: bool,
}

/// The body of a request that publishes a release.
#[derive(Debug)]
pub struct PostRelease {
    pub tag_name: String,
    pub name: String,
    pub body: String,
    pub prerelease: bool,
}

/// The version named by `tag`: the tag with every occurrence of `prefix`
/// removed.
pub open spec fn tag_version(tag: Seq<char>, prefix: Seq<char>) -> Seq<char> {
    replace_all(tag, prefix, Seq::empty())
}

fn version_of_tag(tag: &str, prefix: &str) -> (r: Option<Version>)
    ensures
        match r {
            Some(v) => semver_parse(tag_version(tag@, prefix@)) == Some(fields(v)),
            None => semver_parse(tag_version(tag@, prefix@)) is None,
        },
{
    let nothing: Vec<char> = Vec::new();
    let rest = replace_seq(&chars_of(tag), &chars_of(prefix), &nothing);
    assert(nothing@ =~= Seq::<char>::empty());
    Version::parse(rest.as_str())
}

impl GithubApi {
    pub fn new(token: &str, owner: &str, repo: &str) -> (r: Self)
        ensures
            r.api_url@ == "https://api.github.com/repos/"@ + owner@ + "/"@ + repo@,
            r.content_type@ == "application/vnd.github+json"@,
            r.user_agent@ == "donder-release"@,
            r.authorization@ == "Bearer "@ + token@,
    {
        let mut api_url = "https://api.github.com/repos/".to_owned();
        api_url.append(owner);
        api_url.append("/");
        api_url.append(repo);
        let mut authorization = "Bearer ".to_owned();
        authorization.append(token);
        GithubApi {
            api_url,
            content_type: "application/vnd.github+json".to_owned(),
            user_agent: "donder-release".to_owned(),
            authorization,
        }
    }

    /// The request that publishes `release_tag` with `release_notes`: a
    /// pre-release when its version has a pre-release part. `None` when the
    /// tag without `tag_prefix` is not a version.
    pub fn release_request(&self, release_tag: &str, tag_prefix: &str, release_notes: &str) -> (r: Option<PostRelease>)
        ensures
            semver_accepts(tag_version(release_tag@, tag_prefix@)) <==> r is Some,
            r matches Some(p) ==> p.tag_name@ == release_tag@ && p.name@ == release_tag@
                && p.body@ == release_notes@
                && p.prerelease == has_prerelease(tag_version(release_tag@, tag_prefix@)),
    {
        match version_of_tag(release_tag, tag_prefix) {
            Some(v) => {
                let pre = !v.pre.as_str().is_empty();
                Some(PostRelease {
                    tag_name: release_tag.to_owned(),
                    name: release_tag.to_owned(),
                    body: release_notes.to_owned(),
                    prerelease: pre,
                })
            },
            None => None,
        }
    }

    /// The ids of the releases to delete when cleaning pre-releases: those
    /// flagged as pre-releases whose tag, without `tag_prefix`, is a version
    /// with a pre-release part. `None` when such a flagged release's tag is
    /// not a version.
    pub fn pre_release_ids(releases: &Vec<Release>, tag_prefix: &str) -> (r: Option<Vec<u64>>)
        ensures
            r is Some <==> forall|i: int| 0 <= i < releases@.len() && (#[trigger] releases@[i]).prerelease
                ==> semver_accepts(tag_version(releases@[i].tag_name@, tag_prefix@)),
            r matches Some(ids) ==> ids@ == doomed(releases@, tag_prefix@, releases@.len() as int),
    {
        let mut ids: Vec<u64> = Vec::new();
        let mut i: usize = 0;
        while i < releases.len()
            invariant
                i <= releases@.len(),
                forall|j: int| 0 <= j < i && (#[trigger] releases@[j]).prerelease
                    ==> semver_accepts(tag_version(releases@[j].tag_name@, tag_prefix@)),
                ids@ == doomed(releases@, tag_prefix@, i as int),
            decreases releases@.len() - i,
        {
            let rel = &releases[i];
            if rel.prerelease {
                match version_of_tag(rel.tag_name.as_str(), tag_prefix) {
                    Some(v) => {
                        if !v.pre.as_str().is_empty() {
                            ids.push(rel.id);
                        }
                    },
                    None => {
                        return None;
                    },
                }
            }
            i = i + 1;
        }
        Some(ids)
    }
}

/// Whether the version `t` parses to has a pre-release part.
pub open spec fn has_prerelease(t: Seq<char>) -> bool {
    semver_parse(t) matches Some(f) && f.3.len() > 0
}

/// The ids among `rs[..n]` of flagged pre-releases whose version has a
/// pre-release part.
pub open spec fn doomed(rs: Seq<Release>, prefix: Seq<char>, n: int) -> Seq<u64>
    decreases n,
{
    if n <= 0 || n > rs.len() {
        Seq::empty()
    } else if rs[n - 1].prerelease && has_prerelease(tag_version(rs[n - 1].tag_name@, prefix)) {
        doomed(rs, prefix, n - 1).push(rs[n - 1].id)
    } else {
        doomed(rs, prefix, n - 1)
    }
}

} // verus!
