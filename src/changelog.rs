//! Commit classification: turning a commit record into a typed changelog
//! entry, or dropping it.
use vstd::prelude::*;
use crate::git::Commit;
use crate::ctx::ReleaseType;
use crate::notes::{render_notes, notes_text};
use crate::text::{
    chars_of, string_of, scan, matches_at, span, lemma_span, occurs_at, Class,
};

verus! {

/// The classified commits of one package, the version they lead to, and the
/// release notes rendered from them.
#[derive(Debug)]
pub struct Changelog {
    pub commits: Vec<ChangelogCommit>,
    pub next_release_version: String,
    pub notes: String,
}

/// Relies on `chrono::Utc::now` and `DateTime::format`: today's UTC date as
/// `"%b %_d, %Y"` (e.g. `"Oct  7, 2026"`). It depends on the clock, so
/// nothing is stated of it.
#[verifier::external_body]
fn today() -> String {
    chrono::Utc::now().format("%b %_d, %Y").to_string()
}

impl Changelog {
    pub fn new() -> (r: Self)
        ensures
            r.commits@.len() == 0,
            r.next_release_version@ == "0.0.0"@,
            r.notes@.len() == 0,
    {
        Changelog { commits: Vec::new(), next_release_version: "0.0.0".to_owned(), notes: String::new() }
    }

    /// Classifies `git_commit` against `release_types` and keeps it when it
    /// yields an entry.
    pub fn parse_commit(&mut self, release_types: &Vec<String>, git_commit: &Commit)
        ensures
            entries(final(self).commits@) == entries(old(self).commits@) + match classify_commit(release_types@, *git_commit) {
                Some(e) => seq![e],
                None => Seq::empty(),
            },
            final(self).next_release_version == old(self).next_release_version,
            final(self).notes == old(self).notes,
    {
        let ghost before = self.commits@;
        match classify(release_types, git_commit) {
            Some(c) => {
                self.commits.push(c);
                assert(entries(self.commits@) =~= entries(before) + seq![c@]);
            },
            None => {
                assert(entries(self.commits@) =~= entries(before) + Seq::<Entry>::empty());
            },
        }
    }

    /// Renders the notes for `next_release_version`, compared with
    /// `last_release_version` (empty for a first release), dated `date`.
    pub fn write_notes_dated(
        &mut self,
        last_release_version: &String,
        release_types: &Vec<ReleaseType>,
        origin_url: &str,
        date: &str,
    )
        ensures
            final(self).notes@ == notes_text(
                entries(old(self).commits@),
                old(self).next_release_version@,
                last_release_version@,
                release_types@,
                origin_url@,
                date@,
            ),
            final(self).commits == old(self).commits,
            final(self).next_release_version == old(self).next_release_version,
    {
        self.notes = render_notes(
            &self.commits,
            &self.next_release_version,
            last_release_version,
            release_types,
            origin_url,
            date,
        );
    }

    /// Renders the notes dated today.
    pub fn write_notes(&mut self, last_release_version: &String, release_types: &Vec<ReleaseType>, origin_url: &str)
        ensures
            exists|date: Seq<char>| final(self).notes@ == notes_text(
                entries(old(self).commits@),
                old(self).next_release_version@,
                last_release_version@,
                release_types@,
                origin_url@,
                date,
            ),
            final(self).commits == old(self).commits,
            final(self).next_release_version == old(self).next_release_version,
    {
        let date = today();
        self.write_notes_dated(last_release_version, release_types, origin_url, date.as_str());
    }
}

/// A classified commit.
#[derive(Debug, Clone)]
pub struct ChangelogCommit {
    pub section_type: String,
    pub scope: String,
    pub desc: String,
    pub breaking: String,
    pub hash: String,
}

/// The abstract content of a [`ChangelogCommit`].
pub struct Entry {
    pub section_type: Seq<char>,
    pub scope: Seq<char>,
    pub desc: Seq<char>,
    pub breaking: Seq<char>,
    pub hash: Seq<char>,
}

impl View for ChangelogCommit {
    type V = Entry;

    open spec fn view(&self) -> Entry {
        Entry {
            section_type: self.section_type@,
            scope: self.scope@,
            desc: self.desc@,
            breaking: self.breaking@,
            hash: self.hash@,
        }
    }
}

pub open spec fn entries(v: Seq<ChangelogCommit>) -> Seq<Entry> {
    v.map_values(|c: ChangelogCommit| c@)
}

pub open spec fn names(v: Seq<String>) -> Seq<Seq<char>> {
    v.map_values(|s: String| s@)
}

// ---------------------------------------------------------------------------
// The subject grammar: `type(scope)!: description`, where the scope group and
// the `!` are optional, a scope is a non-empty run of word characters, `-` and
// `.`, and the description is the longest non-empty run of word characters
// and spaces after `": "` (text after it is ignored).

/// Where an optional `(scope)` group that may start at `i` ends (`i` if absent).
pub open spec fn scope_end(s: Seq<char>, i: int) -> int {
    if 0 <= i < s.len() && s[i] == '(' {
        let e = span(s, i + 1, Class::Scope);
        if e > i + 1 && e < s.len() && s[e] == ')' {
            e + 1
        } else {
            i
        }
    } else {
        i
    }
}

/// Where the optional `!` after the scope group ends.
pub open spec fn bang_end(s: Seq<char>, i: int) -> int {
    let p = scope_end(s, i);
    if 0 <= p < s.len() && s[p] == '!' {
        p + 1
    } else {
        p
    }
}

/// Matches the part of a subject after its type, which starts at `i`; on
/// success, the bounds of the scope (empty when absent) and of the description.
pub open spec fn tail_at(s: Seq<char>, i: int) -> Option<(int, int, int, int)> {
    let p = bang_end(s, i);
    let e = span(s, p + 2, Class::Desc);
    if 0 <= p && p + 1 < s.len() && s[p] == ':' && s[p + 1] == ' ' && e > p + 2 {
        if scope_end(s, i) > i {
            Some((i + 1, scope_end(s, i) - 1, p + 2, e))
        } else {
            Some((i, i, p + 2, e))
        }
    } else {
        None
    }
}

/// Type, scope and description of a matched subject.
pub struct Heading {
    pub kind: Seq<char>,
    pub scope: Seq<char>,
    pub desc: Seq<char>,
}

pub open spec fn heading_of(s: Seq<char>, kind_end: int) -> Option<Heading> {
    match tail_at(s, kind_end) {
        Some(t) => Some(
            Heading {
                kind: s.subrange(0, kind_end),
                scope: s.subrange(t.0, t.1),
                desc: s.subrange(t.2, t.3),
            },
        ),
        None => None,
    }
}

/// The match against the configured types `types[k..]`: the first of them
/// that begins the subject and is followed by a matching tail.
pub open spec fn primary_from(types: Seq<Seq<char>>, k: int, s: Seq<char>) -> Option<Heading>
    decreases types.len() - k,
{
    if k < 0 || k >= types.len() {
        None
    } else if occurs_at(s, 0, types[k]) && tail_at(s, types[k].len() as int) is Some {
        heading_of(s, types[k].len() as int)
    } else {
        primary_from(types, k + 1, s)
    }
}

/// The match with any non-empty run of word characters as the type.
pub open spec fn fallback(s: Seq<char>) -> Option<Heading> {
    let e = span(s, 0, Class::Word);
    if e > 0 {
        heading_of(s, e)
    } else {
        None
    }
}

pub open spec fn marker() -> Seq<char> {
    "BREAKING CHANGE: "@
}

/// Where the line that starts at `i` ends (its line feed, or the end).
pub open spec fn line_end(s: Seq<char>, i: int) -> int {
    span(s, i, Class::NotNewline)
}

/// The line that starts at `i`, without its line ending (`\n` or `\r\n`).
pub open spec fn line_at(s: Seq<char>, i: int) -> Seq<char> {
    let e = line_end(s, i);
    if i < e < s.len() && s[e - 1] == '\r' {
        s.subrange(i, e - 1)
    } else {
        s.subrange(i, e)
    }
}

/// What follows the breaking-change marker on the line starting at `i`, if
/// that line begins with it.
pub open spec fn note_on_line(s: Seq<char>, i: int) -> Option<Seq<char>> {
    let l = line_at(s, i);
    if occurs_at(l, 0, marker()) {
        Some(l.skip(marker().len() as int))
    } else {
        None
    }
}

/// The breaking-change note of the last line, from the one starting at `i`
/// on, that begins with the marker.
pub open spec fn note_from(s: Seq<char>, i: int) -> Option<Seq<char>>
    decreases s.len() - i,
{
    let e = line_end(s, i);
    if 0 <= i <= e < s.len() {
        match note_from(s, e + 1) {
            Some(n) => Some(n),
            None => note_on_line(s, i),
        }
    } else {
        note_on_line(s, i)
    }
}

/// The breaking-change note of a commit: from the last marker line of its
/// body, else of its subject.
pub open spec fn breaking_note(subject: Seq<char>, body: Seq<char>) -> Option<Seq<char>> {
    match note_from(body, 0) {
        Some(n) => Some(n),
        None => note_from(subject, 0),
    }
}

/// The heading a commit is classified under: the match against the
/// configured types, or, when that fails and the commit carries a breaking
/// change, the match with any word as type.
pub open spec fn heading(types: Seq<Seq<char>>, subject: Seq<char>, body: Seq<char>) -> Option<Heading> {
    match primary_from(types, 0, subject) {
        Some(h) if h.kind.len() > 0 => Some(h),
        _ => if breaking_note(subject, body) is Some {
            fallback(subject)
        } else {
            None
        },
    }
}

/// The entry a commit yields under the configured types, or `None` when it
/// is dropped.
pub open spec fn classified(
    types: Seq<Seq<char>>,
    hash: Seq<char>,
    subject: Seq<char>,
    body: Seq<char>,
) -> Option<Entry> {
    match heading(types, subject, body) {
        Some(h) if h.kind.len() > 0 => Some(
            Entry {
                section_type: h.kind,
                scope: h.scope,
                desc: h.desc,
                breaking: match breaking_note(subject, body) {
                    Some(n) => n,
                    None => Seq::empty(),
                },
                hash: hash,
            },
        ),
        _ => None,
    }
}

pub open spec fn classify_commit(types: Seq<String>, c: Commit) -> Option<Entry> {
    classified(names(types), c.hash@, c.subject@, c.body@)
}

pub open spec fn entry_of(r: Option<ChangelogCommit>) -> Option<Entry> {
    match r {
        Some(c) => Some(c@),
        None => None,
    }
}

// ---------------------------------------------------------------------------

fn find_scope_end(s: &Vec<char>, i: usize) -> (r: usize)
    requires
        i <= s@.len(),
    ensures
        r == scope_end(s@, i as int),
        i <= r <= s@.len(),
{
    if i < s.len() && s[i] == '(' {
        let e = scan(s, i + 1, Class::Scope);
        proof {
            lemma_span(s@, i + 1, Class::Scope);
        }
        if e > i + 1 && e < s.len() && s[e] == ')' {
            e + 1
        } else {
            i
        }
    } else {
        i
    }
}

fn match_tail(s: &Vec<char>, i: usize) -> (r: Option<(usize, usize, usize, usize)>)
    requires
        i <= s@.len(),
    ensures
        match r {
            Some(t) => tail_at(s@, i as int) == Some((t.0 as int, t.1 as int, t.2 as int, t.3 as int)),
            None => tail_at(s@, i as int) is None,
        },
        r matches Some(t) ==> t.0 <= t.1 <= s@.len() && t.2 <= t.3 <= s@.len(),
{
    let se = find_scope_end(s, i);
    let p = if se < s.len() && s[se] == '!' { se + 1 } else { se };
    if s.len() >= 2 && p <= s.len() - 2 && s[p] == ':' && s[p + 1] == ' ' {
        let e = scan(s, p + 2, Class::Desc);
        proof {
            lemma_span(s@, p + 2, Class::Desc);
        }
        if e > p + 2 {
            if se > i {
                return Some((i + 1, se - 1, p + 2, e));
            } else {
                return Some((i, i, p + 2, e));
            }
        }
    }
    None
}

/// The type that begins `s` among `types[k..]`, with its tail, as in `primary_from`.
fn match_primary(types: &Vec<Vec<char>>, s: &Vec<char>) -> (r: Option<(usize, (usize, usize, usize, usize))>)
    ensures
        match r {
            Some((k, t)) => k < types@.len() && occurs_at(s@, 0, types@[k as int]@)
                && heading_of(s@, types@[k as int]@.len() as int) == primary_from(types@.map_values(|v: Vec<char>| v@), 0, s@)
                && tail_at(s@, types@[k as int]@.len() as int) == Some((t.0 as int, t.1 as int, t.2 as int, t.3 as int))
                && t.0 <= t.1 <= s@.len() && t.2 <= t.3 <= s@.len(),
            None => primary_from(types@.map_values(|v: Vec<char>| v@), 0, s@) is None,
        },
{
    let ghost tv = types@.map_values(|v: Vec<char>| v@);
    let mut k: usize = 0;
    while k < types.len()
        invariant
            k <= types@.len(),
            tv == types@.map_values(|v: Vec<char>| v@),
            primary_from(tv, 0, s@) == primary_from(tv, k as int, s@),
        decreases types@.len() - k,
    {
        let t = &types[k];
        if matches_at(s, 0, t) {
            let m = match_tail(s, t.len());
            match m {
                Some(tl) => {
                    return Some((k, tl));
                },
                None => {},
            }
        }
        k = k + 1;
    }
    None
}

/// The breaking-change note of `s`, as `note_from(s, 0)` states it.
fn find_note(s: &Vec<char>, marker_chars: &Vec<char>) -> (r: Option<(usize, usize)>)
    requires
        marker_chars@ == marker(),
    ensures
        match r {
            Some((lo, hi)) => lo <= hi <= s@.len() && note_from(s@, 0) == Some(s@.subrange(lo as int, hi as int)),
            None => note_from(s@, 0) is None,
        },
{
    let mut found: Option<(usize, usize)> = None;
    let mut i: usize = 0;
    loop
        invariant
            marker_chars@ == marker(),
            i <= s@.len(),
            match found {
                Some((lo, hi)) => lo <= hi <= s@.len() && note_from(s@, 0) == match note_from(s@, i as int) {
                    Some(n) => Some(n),
                    None => Some(s@.subrange(lo as int, hi as int)),
                },
                None => note_from(s@, 0) == note_from(s@, i as int),
            },
        decreases s@.len() - i,
    {
        let e = scan(s, i, Class::NotNewline);
        proof {
            lemma_span(s@, i as int, Class::NotNewline);
        }
        let le = if i < e && e < s.len() && s[e - 1] == '\r' { e - 1 } else { e };
        let ghost l = s@.subrange(i as int, le as int);
        assert(l == line_at(s@, i as int));
        // does the line begin with the marker?
        if le - i >= marker_chars.len() && matches_at(s, i, marker_chars) {
            assert(occurs_at(l, 0, marker())) by {
                assert(l.subrange(0, marker().len() as int) =~= s@.subrange(i as int, i + marker().len()));
            }
            assert(l.skip(marker().len() as int) =~= s@.subrange(i + marker_chars@.len(), le as int));
            found = Some((i + marker_chars.len(), le));
        } else {
            assert(!occurs_at(l, 0, marker())) by {
                if occurs_at(l, 0, marker()) {
                    assert(l.subrange(0, marker().len() as int) =~= s@.subrange(i as int, i + marker().len()));
                }
            }
        }
        if e >= s.len() {
            return found;
        }
        i = e + 1;
    }
}

/// Classifies one commit against the configured types, as `classified`
/// states it: `None` when it is dropped.
pub fn classify(release_types: &Vec<String>, git_commit: &Commit) -> (r: Option<ChangelogCommit>)
    ensures
        entry_of(r) == classify_commit(release_types@, *git_commit),
{
    let s = chars_of(git_commit.subject.as_str());
    let b = chars_of(git_commit.body.as_str());
    let mut types: Vec<Vec<char>> = Vec::new();
    let mut k: usize = 0;
    while k < release_types.len()
        invariant
            k <= release_types@.len(),
            types@.len() == k,
            forall|j: int| 0 <= j < k ==> #[trigger] types@[j]@ == release_types@[j]@,
        decreases release_types@.len() - k,
    {
        types.push(chars_of(release_types[k].as_str()));
        k = k + 1;
    }
    let ghost tn = names(release_types@);
    assert(types@.map_values(|v: Vec<char>| v@) =~= tn);
    let marker_chars = chars_of("BREAKING CHANGE: ");
    let body_note = find_note(&b, &marker_chars);
    let subject_note = find_note(&s, &marker_chars);
    let note: Option<String> = match body_note {
        Some((lo, hi)) => Some(string_of(&b, lo, hi)),
        None => match subject_note {
            Some((lo, hi)) => Some(string_of(&s, lo, hi)),
            None => None,
        },
    };
    let ghost bn = breaking_note(s@, b@);
    assert(match note { Some(n) => bn == Some(n@), None => bn is None });
    // the heading: (end of type, scope bounds, description bounds)
    let mut parts: Option<(usize, (usize, usize, usize, usize))> = None;
    match match_primary(&types, &s) {
        Some((k, t)) => {
            if types[k].len() > 0 {
                parts = Some((types[k].len(), t));
            }
        },
        None => {},
    }
    if parts.is_none() && note.is_some() {
        let e = scan(&s, 0, Class::Word);
        proof {
            lemma_span(s@, 0, Class::Word);
        }
        if e > 0 {
            match match_tail(&s, e) {
                Some(t) => {
                    parts = Some((e, t));
                },
                None => {},
            }
        }
    }
    let ghost h = heading(tn, s@, b@);
    match parts {
        Some((ke, t)) => {
            assert(h == heading_of(s@, ke as int));
            let breaking = match note {
                Some(n) => n,
                None => String::new(),
            };
            Some(ChangelogCommit {
                section_type: string_of(&s, 0, ke),
                scope: string_of(&s, t.0, t.1),
                desc: string_of(&s, t.2, t.3),
                breaking,
                hash: git_commit.hash.clone(),
            })
        },
        None => {
            None
        },
    }
}

} // verus!
