//! What bumping a version file computes: where the file is, and its new
//! text (or new version field) given the version to release.
use vstd::prelude::*;
use vstd::string::StringExecFns;
use crate::text::{
    Class, span, scan, lemma_span, occurs_at, matches_at, chars_of, string_of, push_range,
    push_decimal, decimal, parse_decimal, all_digits, digits_value, replace_all, replace_seq, same,
};

verus! {

/// Why a version file could not be bumped.
#[derive(Debug, Clone, Copy, PartialEq, Eq)]
pub enum BumpError {
    /// The text holds no version.
    NoVersion,
    /// The build metadata to increment is not a number below `u32::MAX`.
    InvalidBuildNumber,
    /// The ecosystem is declared but not supported.
    Unsupported,
    /// The pre-release has no second identifier to use as build number.
    InvalidPrerelease,
    /// The project file sets no `MARKETING_VERSION`.
    NoMarketingVersion,
    /// The project file sets no `CURRENT_PROJECT_VERSION`.
    NoProjectVersion,
}

/// The path of `file` under the directory `path`, where `<root>` stands for
/// nothing.
pub open spec fn joined_path(path: Seq<char>, file: Seq<char>) -> Seq<char> {
    let p = replace_all(path, "<root>"@, Seq::empty());
    if p.len() == 0 { file } else { p + "/"@ + file }
}

pub fn parse_path(path: &String, file: String) -> (r: String)
    ensures
        r@ == joined_path(path@, file@),
{
    let nothing: Vec<char> = Vec::new();
    let p = replace_seq(&chars_of(path.as_str()), &chars_of("<root>"), &nothing);
    assert(nothing@ =~= Seq::<char>::empty());
    if p.as_str().is_empty() {
        file
    } else {
        let mut r = p;
        r.append("/");
        r.append(file.as_str());
        r
    }
}

// ---------------------------------------------------------------------------
// The version pattern: `<d>.<d>.<d>`, then optionally `-` and dot-separated
// identifiers, then optionally `+` and dot-separated identifiers; `<d>` is a
// run of ASCII digits and identifiers are runs of ASCII letters, digits and
// `-`. The leftmost match is taken, each part as long as it goes.

/// The end of the dot-separated identifiers that continue at `e`.
pub open spec fn dotted_end(s: Seq<char>, e: int) -> int
    decreases s.len() - e,
{
    let n = span(s, e + 1, Class::Ident);
    if 0 <= e < s.len() && s[e] == '.' && e + 1 < n <= s.len() {
        dotted_end(s, n)
    } else {
        e
    }
}

/// The end of the dot-separated identifiers starting at `i` (`i` if none).
pub open spec fn idents_end(s: Seq<char>, i: int) -> int {
    let e = span(s, i, Class::Ident);
    if e > i { dotted_end(s, e) } else { i }
}

/// The match at `i`: bounds of the numbers, of the pre-release (empty when
/// absent) and of the build metadata (empty when absent).
pub open spec fn version_at(s: Seq<char>, i: int) -> Option<(int, int, int, int, int, int)> {
    let a = span(s, i, Class::Digit);
    let b = span(s, a + 1, Class::Digit);
    let c = span(s, b + 1, Class::Digit);
    if 0 <= i && a > i && a < s.len() && s[a] == '.' && b > a + 1 && b < s.len() && s[b] == '.' && c > b + 1 {
        let pe = idents_end(s, c + 1);
        let (plo, phi) = if c < s.len() && s[c] == '-' && pe > c + 1 { (c + 1, pe) } else { (c, c) };
        let next = if phi > plo { phi } else { c };
        let be = idents_end(s, next + 1);
        let (blo, bhi) = if next < s.len() && s[next] == '+' && be > next + 1 { (next + 1, be) } else { (next, next) };
        Some((i, c, plo, phi, blo, bhi))
    } else {
        None
    }
}

/// Where the whole match at `i` ends.
pub open spec fn match_end(m: (int, int, int, int, int, int)) -> int {
    if m.5 > m.4 { m.5 } else if m.3 > m.2 { m.3 } else { m.1 }
}

/// The leftmost match from `i` on.
pub open spec fn version_from(s: Seq<char>, i: int) -> Option<(int, int, int, int, int, int)>
    decreases s.len() + 1 - i,
{
    if i < 0 || i > s.len() {
        None
    } else if version_at(s, i) is Some {
        version_at(s, i)
    } else {
        version_from(s, i + 1)
    }
}

proof fn lemma_dotted_end(s: Seq<char>, e: int)
    requires
        0 <= e <= s.len(),
    ensures
        e <= dotted_end(s, e) <= s.len(),
    decreases s.len() - e,
{
    let n = span(s, e + 1, Class::Ident);
    if e < s.len() && s[e] == '.' && n > e + 1 {
        lemma_span(s, e + 1, Class::Ident);
        lemma_dotted_end(s, n);
    }
}

fn find_dotted_end(s: &Vec<char>, e: usize) -> (r: usize)
    requires
        e <= s@.len(),
    ensures
        r == dotted_end(s@, e as int),
        e <= r <= s@.len(),
{
    let mut k: usize = e;
    proof { lemma_dotted_end(s@, e as int); }
    loop
        invariant
            e <= k <= s@.len(),
            dotted_end(s@, e as int) == dotted_end(s@, k as int),
        decreases s@.len() - k,
    {
        if k < s.len() && s[k] == '.' {
            let n = scan(s, k + 1, Class::Ident);
            proof { lemma_span(s@, k + 1, Class::Ident); }
            if n > k + 1 {
                k = n;
                continue;
            }
        }
        return k;
    }
}

fn find_idents_end(s: &Vec<char>, i: usize) -> (r: usize)
    requires
        i <= s@.len(),
    ensures
        r == idents_end(s@, i as int),
        i <= r <= s@.len(),
{
    let e = scan(s, i, Class::Ident);
    proof { lemma_span(s@, i as int, Class::Ident); }
    if e > i { find_dotted_end(s, e) } else { i }
}

fn match_version_at(s: &Vec<char>, i: usize) -> (r: Option<(usize, usize, usize, usize, usize, usize)>)
    requires
        i <= s@.len(),
    ensures
        match r {
            Some(m) => version_at(s@, i as int) == Some((m.0 as int, m.1 as int, m.2 as int, m.3 as int, m.4 as int, m.5 as int))
                && m.0 <= m.1 <= s@.len() && m.2 <= m.3 <= s@.len() && m.4 <= m.5 <= s@.len()
                && m.1 <= match_end((m.0 as int, m.1 as int, m.2 as int, m.3 as int, m.4 as int, m.5 as int)) <= s@.len(),
            None => version_at(s@, i as int) is None,
        },
{
    let a = scan(s, i, Class::Digit);
    proof { lemma_span(s@, i as int, Class::Digit); }
    if !(a > i && a < s.len() && s[a] == '.') {
        return None;
    }
    let b = scan(s, a + 1, Class::Digit);
    proof { lemma_span(s@, a + 1, Class::Digit); }
    if !(b > a + 1 && b < s.len() && s[b] == '.') {
        return None;
    }
    let c = scan(s, b + 1, Class::Digit);
    proof { lemma_span(s@, b + 1, Class::Digit); }
    if !(c > b + 1) {
        return None;
    }
    let (plo, phi) = if c < s.len() && s[c] == '-' {
        let pe = find_idents_end(s, c + 1);
        if pe > c + 1 { (c + 1, pe) } else { (c, c) }
    } else {
        (c, c)
    };
    proof {
        if !(c < s@.len() && s@[c as int] == '-') {
            assert(plo == c);
        }
    }
    let next = if phi > plo { phi } else { c };
    let (blo, bhi) = if next < s.len() && s[next] == '+' {
        let be = find_idents_end(s, next + 1);
        if be > next + 1 { (next + 1, be) } else { (next, next) }
    } else {
        (next, next)
    };
    Some((i, c, plo, phi, blo, bhi))
}

fn find_version(s: &Vec<char>) -> (r: Option<(usize, usize, usize, usize, usize, usize)>)
    ensures
        match r {
            Some(m) => version_from(s@, 0) == Some((m.0 as int, m.1 as int, m.2 as int, m.3 as int, m.4 as int, m.5 as int))
                && m.0 <= m.1 <= s@.len() && m.2 <= m.3 <= s@.len() && m.4 <= m.5 <= s@.len()
                && m.1 <= match_end((m.0 as int, m.1 as int, m.2 as int, m.3 as int, m.4 as int, m.5 as int)) <= s@.len(),
            None => version_from(s@, 0) is None,
        },
{
    let mut i: usize = 0;
    while i < s.len()
        invariant
            i <= s@.len(),
            version_from(s@, 0) == version_from(s@, i as int),
        decreases s@.len() - i,
    {
        match match_version_at(s, i) {
            Some(m) => {
                return Some(m);
            },
            None => {},
        }
        i = i + 1;
    }
    match match_version_at(s, i) {
        Some(m) => Some(m),
        None => {
            assert(version_from(s@, i + 1) is None);
            None
        },
    }
}

/// The version to write: `version`, followed, when a build number is kept,
/// by `+` and the found build number plus one (`+1` when there is none).
pub open spec fn final_version(version: Seq<char>, build: Seq<char>, build_metadata: bool) -> Result<Seq<char>, BumpError> {
    if !build_metadata {
        Ok(version)
    } else if build.len() == 0 {
        Ok(version + "+1"@)
    } else if all_digits(build) && digits_value(build) < u32::MAX {
        Ok(version + "+"@ + decimal((digits_value(build) + 1) as nat))
    } else {
        Err(BumpError::InvalidBuildNumber)
    }
}

fn make_final_version(version: &String, s: &Vec<char>, blo: usize, bhi: usize, build_metadata: bool) -> (r: Result<String, BumpError>)
    requires
        blo <= bhi <= s@.len(),
    ensures
        match final_version(version@, s@.subrange(blo as int, bhi as int), build_metadata) {
            Ok(t) => r matches Ok(x) && x@ == t,
            Err(e) => r == Err::<String, BumpError>(e),
        },
{
    if !build_metadata {
        return Ok(version.clone());
    }
    let mut out = version.clone();
    if blo == bhi {
        out.append("+1");
        return Ok(out);
    }
    match parse_decimal(s, blo, bhi) {
        Some(n) => {
            if n >= 4294967295 {
                return Err(BumpError::InvalidBuildNumber);
            }
            out.append("+");
            push_decimal(&mut out, n + 1);
            Ok(out)
        },
        None => Err(BumpError::InvalidBuildNumber),
    }
}

/// The new text of a version file: its first version replaced by
/// `final_version`.
pub open spec fn bumped_text(version: Seq<char>, contents: Seq<char>, build_metadata: bool) -> Result<Seq<char>, BumpError> {
    match version_from(contents, 0) {
        None => Err(BumpError::NoVersion),
        Some(m) => match final_version(version, contents.subrange(m.4, m.5), build_metadata) {
            Ok(v) => Ok(contents.take(m.0) + v + contents.skip(match_end(m))),
            Err(e) => Err(e),
        },
    }
}

fn bump_text(version: &String, contents: &String, build_metadata: bool) -> (r: Result<String, BumpError>)
    ensures
        match bumped_text(version@, contents@, build_metadata) {
            Ok(t) => r matches Ok(x) && x@ == t,
            Err(e) => r == Err::<String, BumpError>(e),
        },
{
    let s = chars_of(contents.as_str());
    match find_version(&s) {
        None => Err(BumpError::NoVersion),
        Some(m) => {
            let ghost mm = (m.0 as int, m.1 as int, m.2 as int, m.3 as int, m.4 as int, m.5 as int);
            let end = if m.5 > m.4 { m.5 } else if m.3 > m.2 { m.3 } else { m.1 };
            assert(end == match_end(mm));
            match make_final_version(version, &s, m.4, m.5, build_metadata) {
                Ok(v) => {
                    let mut out = String::new();
                    push_range(&mut out, &s, 0, m.0);
                    out.append(v.as_str());
                    push_range(&mut out, &s, end, s.len());
                    assert(out@ =~= contents@.take(m.0 as int) + v@ + contents@.skip(end as int));
                    Ok(out)
                },
                Err(e) => Err(e),
            }
        },
    }
}

/// The new text of a `Cargo.toml` whose text is `contents`.
pub fn bump_cargo(version: &String, contents: &String, build_metadata: &bool) -> (r: Result<String, BumpError>)
    ensures
        match bumped_text(version@, contents@, *build_metadata) {
            Ok(t) => r matches Ok(x) && x@ == t,
            Err(e) => r == Err::<String, BumpError>(e),
        },
{
    bump_text(version, contents, *build_metadata)
}

/// The new text of a `pubspec.yaml` whose text is `contents`.
pub fn bump_pub(version: &String, contents: &String, build_metadata: &bool) -> (r: Result<String, BumpError>)
    ensures
        match bumped_text(version@, contents@, *build_metadata) {
            Ok(t) => r matches Ok(x) && x@ == t,
            Err(e) => r == Err::<String, BumpError>(e),
        },
{
    bump_text(version, contents, *build_metadata)
}

/// The new `version` field of a `package.json` whose field reads `current`.
pub open spec fn bumped_field(version: Seq<char>, current: Seq<char>, build_metadata: bool) -> Result<Seq<char>, BumpError> {
    match version_from(current, 0) {
        None => Err(BumpError::NoVersion),
        Some(m) => final_version(version, current.subrange(m.4, m.5), build_metadata),
    }
}

pub fn bump_npm(version: &String, current: &String, build_metadata: &bool) -> (r: Result<String, BumpError>)
    ensures
        match bumped_field(version@, current@, *build_metadata) {
            Ok(t) => r matches Ok(x) && x@ == t,
            Err(e) => r == Err::<String, BumpError>(e),
        },
{
    let s = chars_of(current.as_str());
    match find_version(&s) {
        None => Err(BumpError::NoVersion),
        Some(m) => make_final_version(version, &s, m.4, m.5, *build_metadata),
    }
}

/// The position of the last `;` in `s[lo..hi]`, or -1.
pub open spec fn last_semicolon(s: Seq<char>, lo: int, hi: int) -> int
    decreases hi - lo,
{
    if hi <= lo || hi > s.len() || lo < 0 {
        -1
    } else if s[hi - 1] == ';' {
        hi - 1
    } else {
        last_semicolon(s, lo, hi - 1)
    }
}

/// The end of an assignment `<key>...;` at `i`: the key, then anything up
/// to the last `;` of the line.
pub open spec fn assignment_at(s: Seq<char>, i: int, key: Seq<char>) -> Option<int> {
    let lo = i + key.len();
    let j = last_semicolon(s, lo, span(s, lo, Class::NotNewline));
    if occurs_at(s, i, key) && j >= 0 {
        Some(j + 1)
    } else {
        None
    }
}

/// The leftmost assignment of `key` from `i` on, as (start, end).
pub open spec fn assignment_from(s: Seq<char>, i: int, key: Seq<char>) -> Option<(int, int)>
    decreases s.len() + 1 - i,
{
    if i < 0 || i > s.len() {
        None
    } else if assignment_at(s, i, key) is Some {
        Some((i, assignment_at(s, i, key)->0))
    } else {
        assignment_from(s, i + 1, key)
    }
}

/// `s` with every copy of the text of its first `key` assignment replaced by
/// `key`, `value` and `;`.
pub open spec fn set_assignment(s: Seq<char>, key: Seq<char>, value: Seq<char>) -> Option<Seq<char>> {
    match assignment_from(s, 0, key) {
        Some((a, b)) => Some(replace_all(s, s.subrange(a, b), key + value + ";"@)),
        None => None,
    }
}

proof fn lemma_last_semicolon(s: Seq<char>, lo: int, hi: int)
    requires
        0 <= lo,
        hi <= s.len(),
    ensures
        last_semicolon(s, lo, hi) == -1 || (lo <= last_semicolon(s, lo, hi) < hi),
    decreases hi - lo,
{
    if lo < hi && s[hi - 1] != ';' {
        lemma_last_semicolon(s, lo, hi - 1);
    }
}

fn find_assignment(s: &Vec<char>, key: &Vec<char>) -> (r: Option<(usize, usize)>)
    ensures
        match r {
            Some((a, b)) => assignment_from(s@, 0, key@) == Some((a as int, b as int)) && a <= b <= s@.len(),
            None => assignment_from(s@, 0, key@) is None,
        },
{
    let mut i: usize = 0;
    while i <= s.len()
        invariant
            i <= s@.len() + 1,
            assignment_from(s@, 0, key@) == assignment_from(s@, i as int, key@),
        decreases s@.len() + 1 - i,
    {
        if matches_at(s, i, key) {
            let lo = i + key.len();
            let le = scan(s, lo, Class::NotNewline);
            proof {
                lemma_span(s@, lo as int, Class::NotNewline);
            }
            let mut j: usize = le;
            while j > lo && s[j - 1] != ';'
                invariant
                    lo <= j <= le <= s@.len(),
                    last_semicolon(s@, lo as int, le as int) == last_semicolon(s@, lo as int, j as int),
                decreases j,
            {
                j = j - 1;
            }
            if j > lo {
                return Some((i, j));
            }
        }
        if i == s.len() {
            assert(assignment_from(s@, i + 1, key@) is None);
            return None;
        }
        i = i + 1;
    }
    None
}

/// Replaces the first `key` assignment of `s`, wherever its text occurs.
fn set_key(s: &Vec<char>, key: &str, value: &Vec<char>) -> (r: Option<String>)
    ensures
        match set_assignment(s@, key@, value@) {
            Some(t) => r matches Some(x) && x@ == t,
            None => r is None,
        },
{
    let k = chars_of(key);
    match find_assignment(s, &k) {
        Some((a, b)) => {
            let mut old_text: Vec<char> = Vec::new();
            let mut i: usize = a;
            while i < b
                invariant
                    a <= i <= b <= s@.len(),
                    old_text@ == s@.subrange(a as int, i as int),
                decreases b - i,
            {
                old_text.push(s[i]);
                i = i + 1;
                assert(old_text@ =~= s@.subrange(a as int, i as int));
            }
            let mut new_text = k.clone();
            let mut j: usize = 0;
            while j < value.len()
                invariant
                    j <= value@.len(),
                    new_text@ == k@ + value@.take(j as int),
                decreases value@.len() - j,
            {
                new_text.push(value[j]);
                j = j + 1;
                assert(new_text@ =~= k@ + value@.take(j as int));
            }
            new_text.push(';');
            proof {
                reveal_strlit(";");
                assert(new_text@ =~= key@ + value@ + ";"@);
            }
            Some(replace_seq(s, &old_text, &new_text))
        },
        None => None,
    }
}

/// The build number that App Store Connect takes for a pre-release: `5.0`
/// for none, else a code for its track (alpha 1, beta 2, rc 3, other 4),
/// `.`, and its second identifier.
pub open spec fn project_version(pre: Seq<char>) -> Option<Seq<char>> {
    let ids = crate::version::identifiers(pre);
    if pre.len() == 0 {
        Some("5.0"@)
    } else if ids.len() < 2 {
        None
    } else {
        let code = if ids[0] == "alpha"@ {
            "1"@
        } else if ids[0] == "beta"@ {
            "2"@
        } else if ids[0] == "rc"@ {
            "3"@
        } else {
            "4"@
        };
        Some(code + "."@ + ids[1])
    }
}

/// The new text of an Xcode project file for `version`: its marketing
/// version set to the version's numbers, its project version to
/// `project_version` of its pre-release.
pub open spec fn bumped_project(version: Seq<char>, contents: Seq<char>) -> Result<Seq<char>, BumpError> {
    match version_from(version, 0) {
        None => Err(BumpError::NoVersion),
        Some(m) => match project_version(version.subrange(m.2, m.3)) {
            None => Err(BumpError::InvalidPrerelease),
            Some(pv) => match set_assignment(contents, "MARKETING_VERSION = "@, version.subrange(m.0, m.1)) {
                None => Err(BumpError::NoMarketingVersion),
                Some(c1) => match set_assignment(c1, "CURRENT_PROJECT_VERSION = "@, pv) {
                    None => Err(BumpError::NoProjectVersion),
                    Some(c2) => Ok(c2),
                },
            },
        },
    }
}

/// The project version of the pre-release `v[lo..hi]`.
fn make_project_version(v: &Vec<char>, lo: usize, hi: usize) -> (r: Option<Vec<char>>)
    requires
        lo <= hi <= v@.len(),
    ensures
        match project_version(v@.subrange(lo as int, hi as int)) {
            Some(t) => r matches Some(x) && x@ == t,
            None => r is None,
        },
{
    let ghost pre = v@.subrange(lo as int, hi as int);
    if lo == hi {
        return Some(chars_of("5.0"));
    }
    let mut p: Vec<char> = Vec::new();
    let mut i: usize = lo;
    while i < hi
        invariant
            lo <= i <= hi <= v@.len(),
            p@ == v@.subrange(lo as int, i as int),
        decreases hi - i,
    {
        p.push(v[i]);
        i = i + 1;
        assert(p@ =~= v@.subrange(lo as int, i as int));
    }
    assert(p@ == pre);
    let e = scan(&p, 0, Class::NotDot);
    proof { lemma_span(p@, 0, Class::NotDot); }
    if e >= p.len() {
        assert(crate::version::identifiers(pre).len() == 1);
        return None;
    }
    let e2 = scan(&p, e + 1, Class::NotDot);
    proof {
        lemma_span(p@, e + 1, Class::NotDot);
        crate::version::lemma_identifiers_head(pre);
    }
    let first = string_of(&p, 0, e);
    let fc = chars_of(first.as_str());
    assert(fc@ =~= crate::version::identifiers(pre)[0]) by {
        assert(p@.subrange(0, e as int) =~= p@.take(e as int));
    }
    let mut out = if same(&fc, &chars_of("alpha")) {
        chars_of("1")
    } else if same(&fc, &chars_of("beta")) {
        chars_of("2")
    } else if same(&fc, &chars_of("rc")) {
        chars_of("3")
    } else {
        chars_of("4")
    };
    let ghost code = out@;
    out.push('.');
    proof {
        reveal_strlit(".");
    }
    assert(out@ =~= code + "."@ + p@.subrange(e + 1, e + 1));
    let mut k: usize = e + 1;
    while k < e2
        invariant
            e + 1 <= k <= e2 <= p@.len(),
            out@ == code + "."@ + p@.subrange(e + 1, k as int),
        decreases e2 - k,
    {
        out.push(p[k]);
        k = k + 1;
        assert(out@ =~= code + "."@ + p@.subrange(e + 1, k as int));
    }
    proof {
        reveal_strlit(".");
    }
    Some(out)
}

/// The new text of the Xcode project file whose text is `contents`, for
/// `version`.
pub fn bump_ios(version: &String, contents: &String) -> (r: Result<String, BumpError>)
    ensures
        match bumped_project(version@, contents@) {
            Ok(t) => r matches Ok(x) && x@ == t,
            Err(e) => r == Err::<String, BumpError>(e),
        },
{
    let v = chars_of(version.as_str());
    let m = match find_version(&v) {
        Some(m) => m,
        None => {
            return Err(BumpError::NoVersion);
        },
    };
    let pv = match make_project_version(&v, m.2, m.3) {
        Some(p) => p,
        None => {
            return Err(BumpError::InvalidPrerelease);
        },
    };
    let mut marketing: Vec<char> = Vec::new();
    let mut i: usize = m.0;
    while i < m.1
        invariant
            m.0 <= i <= m.1 <= v@.len(),
            marketing@ == v@.subrange(m.0 as int, i as int),
        decreases m.1 - i,
    {
        marketing.push(v[i]);
        i = i + 1;
        assert(marketing@ =~= v@.subrange(m.0 as int, i as int));
    }
    let s = chars_of(contents.as_str());
    let c1 = match set_key(&s, "MARKETING_VERSION = ", &marketing) {
        Some(c) => c,
        None => {
            return Err(BumpError::NoMarketingVersion);
        },
    };
    let c1v = chars_of(c1.as_str());
    match set_key(&c1v, "CURRENT_PROJECT_VERSION = ", &pv) {
        Some(c) => Ok(c),
        None => Err(BumpError::NoProjectVersion),
    }
}

/// The project file of an Xcode project whose path, without a trailing
/// `/`, is `file_path`.
pub fn xcode_project_path(file_path: &String) -> (r: String)
    ensures
        r@ == file_path@.take(crate::text::rspan(file_path@, file_path@.len() as int, Class::Slash))
            + ".xcodeproj/project.pbxproj"@,
{
    let v = chars_of(file_path.as_str());
    let e = crate::text::rscan(&v, v.len(), Class::Slash);
    let mut r = string_of(&v, 0, e);
    r.append(".xcodeproj/project.pbxproj");
    assert(v@.subrange(0, e as int) =~= v@.take(e as int));
    r
}

/// Android version files are not supported.
pub fn bump_android(version: &String, contents: &String) -> (r: Result<String, BumpError>)
    ensures
        r == Err::<String, BumpError>(BumpError::Unsupported),
{
    Err(BumpError::Unsupported)
}

} // verus!
