//! Commit records and the pure parts of talking to the repository: reading a
//! remote URL, deriving the browsable origin, and splitting log output.
use vstd::prelude::*;
use vstd::string::StringExecFns;
use crate::text::{
    Class, span, scan, lemma_span, occurs_at, matches_at, chars_of, string_of,
    push_range, replace_all, replace_seq, pieces_from, split_bounds, find_from,
};

verus! {

/// One commit as the log reports it.
#[derive(Debug)]
pub struct Commit {
    pub subject: String,
    pub body: String,
    pub hash: String,
}

impl Commit {
    pub fn new(hash: &str, subject: &str, body: &str) -> (r: Self)
        ensures
            r.hash@ == hash@,
            r.subject@ == subject@,
            r.body@ == body@,
    {
        Commit { subject: subject.to_owned(), body: body.to_owned(), hash: hash.to_owned() }
    }
}

/// Where the repository lives and who signs release commits.
#[derive(Debug)]
pub struct Git {
    /// Authenticated URL of the remote: `https://<token>@<host>/<owner>/<repo>.git`.
    pub repo_url: String,
    pub token: String,
    pub author: String,
    pub email: String,
    pub owner: String,
    pub repo: String,
}

/// The match of a remote URL at `i`: `git@` or `https://`, a host of word
/// characters, `.` and `@`, then `/` or `:`, an owner and `/` and a
/// repository, both of word characters, `,`, `-` and `_`. The bounds of host,
/// owner and repository.
pub open spec fn remote_at(s: Seq<char>, i: int) -> Option<(int, int, int, int, int, int)> {
    let p = if occurs_at(s, i, "git@"@) {
        i + 4
    } else if occurs_at(s, i, "https://"@) {
        i + 8
    } else {
        -1
    };
    let h = span(s, p, Class::Host);
    let o = span(s, h + 1, Class::Name);
    let r = span(s, o + 1, Class::Name);
    if p >= 0 && h > p && h < s.len() && (s[h] == '/' || s[h] == ':') && o > h + 1 && o < s.len()
        && s[o] == '/' && r > o + 1 {
        Some((p, h, h + 1, o, o + 1, r))
    } else {
        None
    }
}

/// The leftmost match of a remote URL from position `i` on.
pub open spec fn remote_from(s: Seq<char>, i: int) -> Option<(int, int, int, int, int, int)>
    decreases s.len() + 1 - i,
{
    if i < 0 || i > s.len() {
        None
    } else if remote_at(s, i) is Some {
        remote_at(s, i)
    } else {
        remote_from(s, i + 1)
    }
}

/// The authenticated remote URL for `token` and the matched parts of `url`.
pub open spec fn authenticated_url(url: Seq<char>, token: Seq<char>, m: (int, int, int, int, int, int)) -> Seq<char> {
    "https://"@ + token + "@"@ + url.subrange(m.0, m.1) + "/"@ + url.subrange(m.2, m.3) + "/"@
        + url.subrange(m.4, m.5) + ".git"@
}

/// The browsable origin: the authenticated URL without `<token>@` and
/// without `.git`, each removed wherever it occurs.
pub open spec fn browsable(repo_url: Seq<char>, token: Seq<char>) -> Seq<char> {
    replace_all(replace_all(repo_url, token + "@"@, Seq::empty()), ".git"@, Seq::empty())
}

fn match_remote_at(s: &Vec<char>, i: usize, git_at: &Vec<char>, https: &Vec<char>) -> (r: Option<(usize, usize, usize, usize, usize, usize)>)
    requires
        i <= s@.len(),
        git_at@ == "git@"@,
        https@ == "https://"@,
    ensures
        match r {
            Some(m) => remote_at(s@, i as int) == Some((m.0 as int, m.1 as int, m.2 as int, m.3 as int, m.4 as int, m.5 as int))
                && m.0 <= m.1 <= m.2 <= m.3 <= m.4 <= m.5 <= s@.len(),
            None => remote_at(s@, i as int) is None,
        },
{
    proof {
        reveal_strlit("git@");
        reveal_strlit("https://");
    }
    assert(git_at@.len() == 4 && https@.len() == 8);
    let p = if matches_at(s, i, git_at) {
        assert(i + 4 <= s@.len());
        assert(i + 4 <= s.len());
        i + 4
    } else if matches_at(s, i, https) {
        assert(i + 8 <= s@.len());
        assert(i + 8 <= s.len());
        i + 8
    } else {
        return None;
    };
    let h = scan(s, p, Class::Host);
    proof { lemma_span(s@, p as int, Class::Host); }
    if !(h > p && h < s.len() && (s[h] == '/' || s[h] == ':')) {
        return None;
    }
    let o = scan(s, h + 1, Class::Name);
    proof { lemma_span(s@, h + 1, Class::Name); }
    if !(o > h + 1 && o < s.len() && s[o] == '/') {
        return None;
    }
    let r = scan(s, o + 1, Class::Name);
    proof { lemma_span(s@, o + 1, Class::Name); }
    if !(r > o + 1) {
        return None;
    }
    Some((p, h, h + 1, o, o + 1, r))
}

impl Git {
    /// Reads host, owner and repository from the remote URL `origin_url`
    /// (its leftmost match); `None` when it holds none.
    pub fn new(token: &str, author: &str, email: &str, origin_url: &str) -> (r: Option<Self>)
        ensures
            match remote_from(origin_url@, 0) {
                Some(m) => r matches Some(g) && g.repo_url@ == authenticated_url(origin_url@, token@, m)
                    && g.token@ == token@ && g.author@ == author@ && g.email@ == email@
                    && g.owner@ == origin_url@.subrange(m.2, m.3) && g.repo@ == origin_url@.subrange(m.4, m.5),
                None => r is None,
            },
    {
        let s = chars_of(origin_url);
        let git_at = chars_of("git@");
        let https = chars_of("https://");
        let mut i: usize = 0;
        while i <= s.len()
            invariant
                i <= s@.len() + 1,
                s@ == origin_url@,
                git_at@ == "git@"@,
                https@ == "https://"@,
                remote_from(s@, 0) == remote_from(s@, i as int),
            decreases s@.len() + 1 - i,
        {
            match match_remote_at(&s, i, &git_at, &https) {
                Some(m) => {
                    let mut url = String::new();
                    url.append("https://");
                    url.append(token);
                    url.append("@");
                    push_range(&mut url, &s, m.0, m.1);
                    url.append("/");
                    push_range(&mut url, &s, m.2, m.3);
                    url.append("/");
                    push_range(&mut url, &s, m.4, m.5);
                    url.append(".git");
                    assert(url@ =~= authenticated_url(origin_url@, token@, (m.0 as int, m.1 as int, m.2 as int, m.3 as int, m.4 as int, m.5 as int)));
                    return Some(Git {
                        repo_url: url,
                        token: token.to_owned(),
                        author: author.to_owned(),
                        email: email.to_owned(),
                        owner: string_of(&s, m.2, m.3),
                        repo: string_of(&s, m.4, m.5),
                    });
                },
                None => {},
            }
            if i == s.len() {
                assert(remote_from(s@, i + 1) is None);
                return None;
            }
            i = i + 1;
        }
        None
    }

    /// The browsable origin URL, as `browsable` states it.
    pub fn origin_url(&self) -> (r: String)
        ensures
            r@ == browsable(self.repo_url@, self.token@),
    {
        let url = chars_of(self.repo_url.as_str());
        let mut from = chars_of(self.token.as_str());
        from.push('@');
        let nothing: Vec<char> = Vec::new();
        let step = replace_seq(&url, &from, &nothing);
        let step_chars = chars_of(step.as_str());
        let git = chars_of(".git");
        let r = replace_seq(&step_chars, &git, &nothing);
        proof {
            assert(from@ =~= self.token@ + "@"@) by {
                reveal_strlit("@");
            }
            assert(nothing@ =~= Seq::<char>::empty());
        }
        r
    }
}

// ---------------------------------------------------------------------------
// Log output: one record per commit, `<hash>|||<subject>|||<body>`, each
// record ended by the record separator (U+001E), which no commit holds; git
// puts a line feed between records.

/// The record separator.
pub open spec fn separator() -> Seq<char> {
    seq!['\u{1e}']
}

/// A piece of log output between separators, without the line feeds before it.
pub open spec fn record_text(p: Seq<char>) -> Seq<char> {
    p.skip(span(p, 0, Class::Newline))
}

/// The non-empty records among the pieces `ps[..n]`.
pub open spec fn log_records(ps: Seq<Seq<char>>, n: int) -> Seq<Seq<char>>
    decreases n,
{
    if n <= 0 || n > ps.len() {
        Seq::empty()
    } else if record_text(ps[n - 1]).len() > 0 {
        log_records(ps, n - 1).push(record_text(ps[n - 1]))
    } else {
        log_records(ps, n - 1)
    }
}

/// The records of log output, one per commit.
pub open spec fn records_of(output: Seq<char>) -> Seq<Seq<char>> {
    let ps = pieces_from(output, separator(), 0);
    log_records(ps, ps.len() as int)
}

/// The commit one record describes: the text before the first `|||` is the
/// hash, the text between the first two is the subject, and everything after
/// the second is the body, kept whole. A record with one `|||` gives the
/// hash alone; one with none gives nothing.
pub open spec fn log_record(t: Seq<char>) -> (Seq<char>, Seq<char>, Seq<char>) {
    let f1 = find_from(t, "|||"@, 0);
    let f2 = find_from(t, "|||"@, f1 + 3);
    if f1 >= 0 && f2 >= 0 {
        (t.subrange(0, f1), t.subrange(f1 + 3, f2), t.skip(f2 + 3))
    } else if f1 >= 0 {
        (t.subrange(0, f1), Seq::empty(), Seq::empty())
    } else {
        (Seq::empty(), Seq::empty(), Seq::empty())
    }
}

pub open spec fn commit_view(c: Commit) -> (Seq<char>, Seq<char>, Seq<char>) {
    (c.hash@, c.subject@, c.body@)
}

/// The first position from `i` on where `p` occurs in `v`.
fn find_after(v: &Vec<char>, p: &Vec<char>, i: usize) -> (r: Option<usize>)
    ensures
        match r {
            Some(j) => find_from(v@, p@, i as int) == j && occurs_at(v@, j as int, p@) && i <= j,
            None => find_from(v@, p@, i as int) == -1,
        },
{
    if i > v.len() {
        return None;
    }
    let mut j: usize = i;
    while j < v.len() && !matches_at(v, j, p)
        invariant
            i <= j <= v@.len(),
            find_from(v@, p@, i as int) == find_from(v@, p@, j as int),
        decreases v@.len() - j,
    {
        j = j + 1;
    }
    if matches_at(v, j, p) {
        return Some(j);
    }
    assert(find_from(v@, p@, j + 1) == -1);
    None
}

fn record_of(t: &Vec<char>, bars: &Vec<char>) -> (r: Commit)
    requires
        bars@ == "|||"@,
    ensures
        commit_view(r) == log_record(t@),
{
    proof {
        reveal_strlit("|||");
    }
    match find_after(t, bars, 0) {
        Some(f1) => {
            assert(f1 + 3 <= t@.len());
            assert(f1 + 3 <= t.len());
            match find_after(t, bars, f1 + 3) {
                Some(f2) => {
                    assert(f2 + 3 <= t.len());
                    assert(t@.subrange(f2 + 3, t@.len() as int) =~= t@.skip(f2 + 3));
                    Commit {
                        hash: string_of(t, 0, f1),
                        subject: string_of(t, f1 + 3, f2),
                        body: string_of(t, f2 + 3, t.len()),
                    }
                },
                None => Commit { hash: string_of(t, 0, f1), subject: String::new(), body: String::new() },
            }
        },
        None => Commit { hash: String::new(), subject: String::new(), body: String::new() },
    }
}

/// The commits of log output, one per record, as `log_record` reads each.
pub fn parse_log(output: &str) -> (r: Vec<Commit>)
    ensures
        r@.len() == records_of(output@).len(),
        forall|k: int| 0 <= k < r@.len() ==> commit_view(#[trigger] r@[k]) == log_record(records_of(output@)[k]),
{
    let s = chars_of(output);
    let mut sep: Vec<char> = Vec::new();
    sep.push('\u{1e}');
    assert(sep@ =~= separator());
    let bars = chars_of("|||");
    let b = split_bounds(&s, &sep);
    let ghost ps = pieces_from(s@, separator(), 0);
    let mut r: Vec<Commit> = Vec::new();
    let mut k: usize = 0;
    while k < b.len()
        invariant
            k <= b@.len(),
            b@.len() == ps.len(),
            bars@ == "|||"@,
            s@ == output@,
            ps == pieces_from(output@, separator(), 0),
            forall|j: int| 0 <= j < b@.len() ==> (#[trigger] b@[j]).0 <= b@[j].1 <= s@.len()
                && s@.subrange(b@[j].0 as int, b@[j].1 as int) == ps[j],
            r@.len() == log_records(ps, k as int).len(),
            forall|j: int| 0 <= j < r@.len() ==> commit_view(#[trigger] r@[j]) == log_record(log_records(ps, k as int)[j]),
        decreases b@.len() - k,
    {
        let (lo, hi) = b[k];
        let start = scan(&s, lo, Class::Newline);
        proof {
            lemma_span(s@, lo as int, Class::Newline);
            lemma_span_shift(s@, lo as int, hi as int, Class::Newline);
        }
        let start = if start > hi { hi } else { start };
        let ghost piece = ps[k as int];
        assert(record_text(piece) =~= s@.subrange(start as int, hi as int));
        let ghost before = log_records(ps, k as int);
        if start < hi {
            let mut rec: Vec<char> = Vec::new();
            let mut i: usize = start;
            while i < hi
                invariant
                    start <= i <= hi <= s@.len(),
                    rec@ == s@.subrange(start as int, i as int),
                decreases hi - i,
            {
                rec.push(s[i]);
                i = i + 1;
                assert(rec@ =~= s@.subrange(start as int, i as int));
            }
            r.push(record_of(&rec, &bars));
            assert(log_records(ps, k + 1) == before.push(record_text(piece)));
        } else {
            assert(log_records(ps, k + 1) == before);
        }
        k = k + 1;
    }
    r
}

/// The run of class-`c` characters at `lo` in `s`, counted within the piece
/// `s[lo..hi]`.
proof fn lemma_span_shift(s: Seq<char>, lo: int, hi: int, c: Class)
    requires
        0 <= lo <= hi <= s.len(),
    ensures
        span(s.subrange(lo, hi), 0, c) == (if span(s, lo, c) > hi { hi } else { span(s, lo, c) }) - lo,
    decreases hi - lo,
{
    let p = s.subrange(lo, hi);
    if lo < hi && crate::text::in_class(s[lo], c) {
        lemma_span_shift(s, lo + 1, hi, c);
        assert(s.subrange(lo + 1, hi) =~= p.skip(1));
        lemma_span_tail(p, c);
    } else {
        crate::text::lemma_span(s, lo, c);
    }
}

/// Dropping a leading class-`c` character shortens its run by one.
proof fn lemma_span_tail(p: Seq<char>, c: Class)
    requires
        p.len() > 0,
        crate::text::in_class(p[0], c),
    ensures
        span(p, 0, c) == span(p.skip(1), 0, c) + 1,
{
    lemma_span_from(p, 1, c);
}

proof fn lemma_span_from(p: Seq<char>, i: int, c: Class)
    requires
        1 <= i <= p.len(),
    ensures
        span(p, i, c) == span(p.skip(1), i - 1, c) + 1,
    decreases p.len() - i,
{
    if i < p.len() && crate::text::in_class(p[i], c) {
        lemma_span_from(p, i + 1, c);
    }
}

} // verus!
