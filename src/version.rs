//! Semantic versions as plain values, their text, their precedence, and the
//! release markers (tags) built from them.
use vstd::prelude::*;
use vstd::string::StringExecFns;
use crate::text::{
    Class, span, lemma_span, lemma_span_skip, all_digits, digits_value, decimal, push_decimal, chars_of, contains, contains_seq,
};

verus! {

/// A semantic version: `major.minor.patch`, an optional pre-release
/// identifier and optional build metadata (both empty when absent).
#[derive(Debug, Clone)]
pub struct Version {
    pub major: u64,
    pub minor: u64,
    pub patch: u64,
    pub pre: String,
    pub build: String,
}

/// The text of a version: `1.2.3`, `1.2.3-rc.1`, `1.2.3-rc.1+7`.
pub open spec fn version_text(v: Version) -> Seq<char> {
    decimal(v.major as nat) + "."@ + decimal(v.minor as nat) + "."@ + decimal(v.patch as nat)
        + (if v.pre@.len() > 0 { "-"@ + v.pre@ } else { Seq::empty() })
        + (if v.build@.len() > 0 { "+"@ + v.build@ } else { Seq::empty() })
}

/// What the semver crate parses `s` into: major, minor, patch, pre-release
/// and build metadata, or `None` when it rejects `s`.
pub uninterp spec fn semver_parse(s: Seq<char>) -> Option<(u64, u64, u64, Seq<char>, Seq<char>)>;

/// Whether the semver crate accepts `s` as a version.
pub open spec fn semver_accepts(s: Seq<char>) -> bool {
    semver_parse(s) is Some
}

pub open spec fn fields(v: Version) -> (u64, u64, u64, Seq<char>, Seq<char>) {
    (v.major, v.minor, v.patch, v.pre@, v.build@)
}

/// Whether the semver crate accepts `s` as a pre-release identifier.
pub uninterp spec fn semver_prerelease_accepts(s: Seq<char>) -> bool;

/// Relies on `semver::Version::parse`: it accepts or rejects the text, and
/// what it accepts it keeps verbatim, so the parsed version displays as the
/// input (numbers have no leading zeros; pre-release and build are slices of
/// the input).
#[verifier::external_body]
fn parse_semver(s: &str) -> (r: Option<Version>)
    ensures
        match r {
            Some(v) => semver_parse(s@) == Some(fields(v)),
            None => semver_parse(s@) is None,
        },
        r matches Some(v) ==> version_text(v) == s@,
{
    match semver::Version::parse(s) {
        Ok(v) => Some(Version {
            major: v.major,
            minor: v.minor,
            patch: v.patch,
            pre: v.pre.as_str().to_owned(),
            build: v.build.as_str().to_owned(),
        }),
        Err(_) => None,
    }
}

/// Relies on `semver::Prerelease::new`: whether the text is a valid
/// pre-release identifier.
#[verifier::external_body]
pub(crate) fn prerelease_ok(s: &str) -> (r: bool)
    ensures
        r == semver_prerelease_accepts(s@),
{
    semver::Prerelease::new(s).is_ok()
}

impl Version {
    pub fn new(major: u64, minor: u64, patch: u64) -> (r: Version)
        ensures
            r.major == major && r.minor == minor && r.patch == patch,
            r.pre@.len() == 0 && r.build@.len() == 0,
    {
        Version { major, minor, patch, pre: String::new(), build: String::new() }
    }

    /// Parses a version as the semver crate does.
    pub fn parse(s: &str) -> (r: Option<Version>)
        ensures
            match r {
                Some(v) => semver_parse(s@) == Some(fields(v)),
                None => semver_parse(s@) is None,
            },
            r matches Some(v) ==> version_text(v) == s@,
    {
        parse_semver(s)
    }

    pub fn copy(&self) -> (r: Version)
        ensures
            r.major == self.major && r.minor == self.minor && r.patch == self.patch,
            r.pre@ == self.pre@ && r.build@ == self.build@,
    {
        Version { major: self.major, minor: self.minor, patch: self.patch, pre: self.pre.clone(), build: self.build.clone() }
    }

    /// Appends the text of this version to `out`.
    pub fn push_text(&self, out: &mut String)
        ensures
            final(out)@ == old(out)@ + version_text(*self),
    {
        push_decimal(out, self.major);
        out.append(".");
        push_decimal(out, self.minor);
        out.append(".");
        push_decimal(out, self.patch);
        if !self.pre.as_str().is_empty() {
            out.append("-");
            out.append(self.pre.as_str());
        }
        if !self.build.as_str().is_empty() {
            out.append("+");
            out.append(self.build.as_str());
        }
        assert(final(out)@ =~= old(out)@ + version_text(*self));
    }

    pub fn to_text(&self) -> (r: String)
        ensures
            r@ == version_text(*self),
    {
        let mut r = String::new();
        self.push_text(&mut r);
        assert(r@ =~= version_text(*self));
        r
    }
}

// ---------------------------------------------------------------------------
// Precedence, as Semantic Versioning 2.0.0 defines it (build metadata plays
// no part).

/// The dot-separated identifiers of a pre-release.
pub open spec fn identifiers(s: Seq<char>) -> Seq<Seq<char>>
    decreases s.len(),
{
    let e = span(s, 0, Class::NotDot);
    if 0 <= e < s.len() {
        seq![s.take(e)] + identifiers(s.skip(e + 1))
    } else {
        seq![s]
    }
}

pub open spec fn numeric(a: Seq<char>) -> bool {
    a.len() > 0 && all_digits(a)
}

/// ASCII order of two identifiers.
pub open spec fn lex_lt(a: Seq<char>, b: Seq<char>) -> bool
    decreases a.len(),
{
    if b.len() == 0 {
        false
    } else if a.len() == 0 {
        true
    } else if a[0] != b[0] {
        (a[0] as u32) < (b[0] as u32)
    } else {
        lex_lt(a.skip(1), b.skip(1))
    }
}

/// Identifier order: numeric ones numerically and below alphanumeric ones,
/// which compare in ASCII order.
pub open spec fn ident_lt(a: Seq<char>, b: Seq<char>) -> bool {
    if numeric(a) && numeric(b) {
        digits_value(a) < digits_value(b)
    } else if numeric(a) {
        true
    } else if numeric(b) {
        false
    } else {
        lex_lt(a, b)
    }
}

/// Order of identifier lists: the first difference decides, and a list that
/// is a prefix of another comes first.
pub open spec fn idents_lt(xs: Seq<Seq<char>>, ys: Seq<Seq<char>>) -> bool
    decreases xs.len(),
{
    if ys.len() == 0 {
        false
    } else if xs.len() == 0 {
        true
    } else if ident_lt(xs[0], ys[0]) {
        true
    } else if ident_lt(ys[0], xs[0]) {
        false
    } else {
        idents_lt(xs.skip(1), ys.skip(1))
    }
}

/// Pre-release order: a version without one comes after any with one.
pub open spec fn pre_lt(a: Seq<char>, b: Seq<char>) -> bool {
    if a.len() == 0 {
        false
    } else if b.len() == 0 {
        true
    } else {
        idents_lt(identifiers(a), identifiers(b))
    }
}

/// Numbers and pre-release of a version.
pub open spec fn version_parts(v: Version) -> (int, int, int, Seq<char>) {
    (v.major as int, v.minor as int, v.patch as int, v.pre@)
}

/// Whether the version with parts `a` has lower precedence than the one
/// with parts `b`.
pub open spec fn parts_lt(a: (int, int, int, Seq<char>), b: (int, int, int, Seq<char>)) -> bool {
    if a.0 != b.0 {
        a.0 < b.0
    } else if a.1 != b.1 {
        a.1 < b.1
    } else if a.2 != b.2 {
        a.2 < b.2
    } else {
        pre_lt(a.3, b.3)
    }
}

/// The identifiers of a pre-release start with its first identifier and,
/// when it has one, its second.
pub proof fn lemma_identifiers_head(pre: Seq<char>)
    requires
        crate::package::second_ident(pre) is Some,
    ensures
        identifiers(pre).len() >= 2,
        identifiers(pre)[0] == crate::package::first_ident(pre),
        identifiers(pre)[1] == crate::package::second_ident(pre)->0,
{
    let e = span(pre, 0, Class::NotDot);
    lemma_span(pre, 0, Class::NotDot);
    let rest = pre.skip(e + 1);
    assert(identifiers(pre) == seq![pre.take(e)] + identifiers(rest));
    lemma_span_skip(pre, e + 1, 0, Class::NotDot);
    lemma_span(pre, e + 1, Class::NotDot);
    let e2 = span(rest, 0, Class::NotDot);
    assert(e2 == span(pre, e + 1, Class::NotDot) - (e + 1));
    if 0 <= e2 < rest.len() {
        assert(identifiers(rest)[0] == rest.take(e2));
    } else {
        assert(identifiers(rest)[0] == rest);
    }
    assert(rest.take(e2) =~= pre.subrange(e + 1, span(pre, e + 1, Class::NotDot)));
}

// ---------------------------------------------------------------------------

/// A release marker: a version under a tag prefix, the commit it points to
/// (empty until looked up, and for a synthesized one), and whether it is a
/// synthesized first release.
#[derive(Debug)]
pub struct ReleaseInfo {
    pub version: Version,
    pub prefix: String,
    pub head: String,
    pub initial: bool,
}

pub open spec fn tag_text(r: ReleaseInfo) -> Seq<char> {
    r.prefix@ + version_text(r.version)
}

/// `tag` without its leading `prefix`, when it starts with it.
pub open spec fn strip_prefix(tag: Seq<char>, prefix: Seq<char>) -> Option<Seq<char>> {
    if prefix.len() <= tag.len() && tag.take(prefix.len() as int) == prefix {
        Some(tag.skip(prefix.len() as int))
    } else {
        None
    }
}

impl ReleaseInfo {
    /// The release marker named `tag` under `prefix`: `None` unless `tag`
    /// starts with `prefix` and the rest is a version.
    pub fn new(tag: &str, prefix: &str, initial: bool) -> (r: Option<Self>)
        ensures
            match strip_prefix(tag@, prefix@) {
                Some(rest) => match r {
                    Some(info) => semver_parse(rest) == Some(fields(info.version)) && version_text(info.version) == rest
                        && info.prefix@ == prefix@ && info.head@.len() == 0 && info.initial == initial,
                    None => semver_parse(rest) is None,
                },
                None => r is None,
            },
    {
        let t = chars_of(tag);
        let p = chars_of(prefix);
        if p.len() > t.len() || !crate::text::matches_at(&t, 0, &p) {
            proof {
                if p@.len() <= t@.len() && t@.take(p@.len() as int) == p@ {
                    assert(t@.subrange(0, p@.len() as int) =~= t@.take(p@.len() as int));
                }
            }
            return None;
        }
        assert(t@.take(p@.len() as int) =~= t@.subrange(0, p@.len() as int));
        let rest = crate::text::string_of(&t, p.len(), t.len());
        assert(rest@ =~= t@.skip(p@.len() as int));
        match Version::parse(rest.as_str()) {
            Some(version) => Some(ReleaseInfo { version, prefix: prefix.to_owned(), head: String::new(), initial }),
            None => None,
        }
    }

    /// The synthesized first release: `1.0.0`, or `1.0.0-<pre_id>.0` when a
    /// pre-release identifier is asked for.
    pub fn seed(pre_id: &str, prefix: &String) -> (r: Self)
        ensures
            r.version.major == 1 && r.version.minor == 0 && r.version.patch == 0,
            r.version.pre@ == (if pre_id@.len() == 0 { Seq::empty() } else { pre_id@ + ".0"@ }),
            r.version.build@.len() == 0,
            r.prefix@ == prefix@,
            r.head@.len() == 0,
            r.initial,
    {
        let mut pre = String::new();
        if !pre_id.is_empty() {
            pre.append(pre_id);
            pre.append(".0");
        }
        ReleaseInfo { version: Version { major: 1, minor: 0, patch: 0, pre, build: String::new() }, prefix: prefix.clone(), head: String::new(), initial: true }
    }

    pub fn copy(&self) -> (r: Self)
        ensures
            r.version.major == self.version.major && r.version.minor == self.version.minor
                && r.version.patch == self.version.patch,
            r.version.pre@ == self.version.pre@ && r.version.build@ == self.version.build@,
            r.prefix@ == self.prefix@ && r.head@ == self.head@ && r.initial == self.initial,
    {
        ReleaseInfo { version: self.version.copy(), prefix: self.prefix.clone(), head: self.head.clone(), initial: self.initial }
    }

    /// The tag text: the prefix followed by the version.
    pub fn tag(&self) -> (r: String)
        ensures
            r@ == tag_text(*self),
    {
        let mut r = self.prefix.clone();
        self.version.push_text(&mut r);
        r
    }

    pub fn update_head(&mut self, head: &str)
        ensures
            final(self).head@ == head@,
            final(self).version == old(self).version,
            final(self).prefix == old(self).prefix,
            final(self).initial == old(self).initial,
    {
        self.head = head.to_owned();
    }
}

/// Whether the tag named `t` is a release under `prefix`.
pub open spec fn is_release_tag(t: Seq<char>, prefix: Seq<char>) -> bool {
    strip_prefix(t, prefix) matches Some(rest) && semver_parse(rest) is Some
}

/// The tags among `names[..n]` that are releases under `prefix`, in order.
pub open spec fn release_names(names: Seq<Seq<char>>, prefix: Seq<char>, n: int) -> Seq<Seq<char>>
    decreases n,
{
    if n <= 0 || n > names.len() {
        Seq::empty()
    } else if is_release_tag(names[n - 1], prefix) {
        release_names(names, prefix, n - 1).push(names[n - 1])
    } else {
        release_names(names, prefix, n - 1)
    }
}

pub open spec fn tag_texts(rs: Seq<ReleaseInfo>) -> Seq<Seq<char>> {
    rs.map_values(|r: ReleaseInfo| tag_text(r))
}

/// The release markers of the tags `names` under `prefix`, in the order of
/// `names`: the tags that start with `prefix` followed by a version.
pub fn release_tags(names: &Vec<String>, prefix: &str) -> (r: Vec<ReleaseInfo>)
    ensures
        tag_texts(r@) == release_names(crate::changelog::names(names@), prefix@, names@.len() as int),
        forall|k: int| 0 <= k < r@.len() ==> (#[trigger] r@[k]).prefix@ == prefix@ && !r@[k].initial
            && r@[k].head@.len() == 0,
{
    let ghost ns = crate::changelog::names(names@);
    let mut r: Vec<ReleaseInfo> = Vec::new();
    let mut i: usize = 0;
    while i < names.len()
        invariant
            i <= names@.len(),
            ns == crate::changelog::names(names@),
            tag_texts(r@) == release_names(ns, prefix@, i as int),
            forall|k: int| 0 <= k < r@.len() ==> (#[trigger] r@[k]).prefix@ == prefix@ && !r@[k].initial
                && r@[k].head@.len() == 0,
        decreases names@.len() - i,
    {
        match ReleaseInfo::new(names[i].as_str(), prefix, false) {
            Some(info) => {
                proof {
                    let rest = strip_prefix(names@[i as int]@, prefix@)->0;
                    assert(tag_text(info) =~= names@[i as int]@) by {
                        assert(names@[i as int]@ =~= names@[i as int]@.take(prefix@.len() as int) + rest);
                    }
                }
                r.push(info);
            },
            None => {},
        }
        i = i + 1;
        assert(tag_texts(r@) =~= release_names(ns, prefix@, i as int));
    }
    r
}

// ---------------------------------------------------------------------------
// Ordering release markers by precedence.

proof fn lemma_lex_asym(a: Seq<char>, b: Seq<char>)
    ensures
        !(lex_lt(a, b) && lex_lt(b, a)),
    decreases a.len(),
{
    if a.len() > 0 && b.len() > 0 && a[0] == b[0] {
        lemma_lex_asym(a.skip(1), b.skip(1));
    }
}

proof fn lemma_ident_asym(a: Seq<char>, b: Seq<char>)
    ensures
        !(ident_lt(a, b) && ident_lt(b, a)),
{
    lemma_lex_asym(a, b);
}

proof fn lemma_idents_asym(xs: Seq<Seq<char>>, ys: Seq<Seq<char>>)
    ensures
        !(idents_lt(xs, ys) && idents_lt(ys, xs)),
    decreases xs.len(),
{
    if xs.len() > 0 && ys.len() > 0 {
        lemma_ident_asym(xs[0], ys[0]);
        lemma_idents_asym(xs.skip(1), ys.skip(1));
    }
}

/// Precedence is asymmetric: no version is both below and above another.
pub proof fn lemma_parts_asym(a: (int, int, int, Seq<char>), b: (int, int, int, Seq<char>))
    ensures
        !(parts_lt(a, b) && parts_lt(b, a)),
{
    if a.3.len() > 0 && b.3.len() > 0 {
        lemma_idents_asym(identifiers(a.3), identifiers(b.3));
    }
}

proof fn lemma_step_order(pa: int, pb: int, da: int, db: int)
    requires
        0 <= da <= 9,
        0 <= db <= 9,
        pa < pb,
    ensures
        pa * 10 + da < pb * 10 + db,
{
    assert(pa * 10 + 10 <= pb * 10) by (nonlinear_arith)
        requires pa < pb;
}

/// Whether the value of the digits `a` is below that of the digits `b`,
/// whatever their lengths.
fn numeric_less(a: &Vec<char>, b: &Vec<char>) -> (r: bool)
    requires
        all_digits(a@),
        all_digits(b@),
    ensures
        r == (digits_value(a@) < digits_value(b@)),
{
    let la = a.len();
    let lb = b.len();
    let n = if la > lb { la } else { lb };
    let oa = n - la;
    let ob = n - lb;
    let mut state: i8 = 0;
    let ghost mut pa: int = 0;
    let ghost mut pb: int = 0;
    let mut i: usize = 0;
    while i < n
        invariant
            i <= n,
            n == la + oa,
            n == lb + ob,
            la == a@.len(),
            lb == b@.len(),
            all_digits(a@),
            all_digits(b@),
            pa == (if i <= oa { 0 } else { digits_value(a@.take(i - oa)) as int }),
            pb == (if i <= ob { 0 } else { digits_value(b@.take(i - ob)) as int }),
            state == 0 ==> pa == pb,
            state < 0 ==> pa < pb,
            state > 0 ==> pa > pb,
        decreases n - i,
    {
        let da: u32 = if i < oa { 0 } else { a[i - oa] as u32 - '0' as u32 };
        let db: u32 = if i < ob { 0 } else { b[i - ob] as u32 - '0' as u32 };
        proof {
            if i >= oa {
                let k = i - oa;
                assert(a@.take(k + 1).drop_last() =~= a@.take(k));
                assert(a@.take(k + 1).last() == a@[k]);
                assert(crate::text::is_ascii_digit(a@[k]));
                assert(digits_value(a@.take(k + 1)) == digits_value(a@.take(k)) * 10 + da);
                if i == oa {
                    assert(digits_value(a@.take(0)) == 0);
                }
            }
            if i >= ob {
                let k = i - ob;
                assert(b@.take(k + 1).drop_last() =~= b@.take(k));
                assert(b@.take(k + 1).last() == b@[k]);
                assert(crate::text::is_ascii_digit(b@[k]));
                assert(digits_value(b@.take(k + 1)) == digits_value(b@.take(k)) * 10 + db);
                if i == ob {
                    assert(digits_value(b@.take(0)) == 0);
                }
            }
            if state < 0 {
                lemma_step_order(pa, pb, da as int, db as int);
            } else if state > 0 {
                lemma_step_order(pb, pa, db as int, da as int);
            }
            pa = pa * 10 + da;
            pb = pb * 10 + db;
        }
        if state == 0 {
            if da < db {
                state = -1;
            } else if da > db {
                state = 1;
            }
        }
        i = i + 1;
    }
    proof {
        assert(a@.take(la as int) =~= a@);
        assert(b@.take(lb as int) =~= b@);
    }
    state < 0
}

fn lex_less(a: &Vec<char>, b: &Vec<char>) -> (r: bool)
    ensures
        r == lex_lt(a@, b@),
{
    let mut i: usize = 0;
    assert(a@.skip(0) =~= a@ && b@.skip(0) =~= b@);
    while i < a.len() && i < b.len() && a[i] == b[i]
        invariant
            i <= a@.len(),
            i <= b@.len(),
            lex_lt(a@, b@) == lex_lt(a@.skip(i as int), b@.skip(i as int)),
        decreases a@.len() - i,
    {
        assert(a@.skip(i as int).skip(1) =~= a@.skip(i + 1));
        assert(b@.skip(i as int).skip(1) =~= b@.skip(i + 1));
        i = i + 1;
    }
    if i >= b.len() {
        false
    } else if i >= a.len() {
        true
    } else {
        (a[i] as u32) < (b[i] as u32)
    }
}

fn is_numeric(a: &Vec<char>) -> (r: bool)
    ensures
        r == numeric(a@),
{
    if a.len() == 0 {
        return false;
    }
    let mut i: usize = 0;
    while i < a.len()
        invariant
            i <= a@.len(),
            forall|j: int| 0 <= j < i ==> crate::text::is_ascii_digit(#[trigger] a@[j]),
        decreases a@.len() - i,
    {
        if !('0' <= a[i] && a[i] <= '9') {
            return false;
        }
        i = i + 1;
    }
    true
}

fn ident_less(a: &Vec<char>, b: &Vec<char>) -> (r: bool)
    ensures
        r == ident_lt(a@, b@),
{
    let na = is_numeric(a);
    let nb = is_numeric(b);
    if na && nb {
        numeric_less(a, b)
    } else if na {
        true
    } else if nb {
        false
    } else {
        lex_less(a, b)
    }
}

pub open spec fn char_seqs(v: Seq<Vec<char>>) -> Seq<Seq<char>> {
    v.map_values(|x: Vec<char>| x@)
}

/// The identifiers of the pre-release `s`.
fn split_identifiers(s: &Vec<char>) -> (r: Vec<Vec<char>>)
    ensures
        char_seqs(r@) == identifiers(s@),
{
    let mut r: Vec<Vec<char>> = Vec::new();
    let mut cur: usize = 0;
    assert(s@.skip(0) =~= s@);
    assert(char_seqs(r@) =~= Seq::<Seq<char>>::empty());
    loop
        invariant
            cur <= s@.len(),
            identifiers(s@) == char_seqs(r@) + identifiers(s@.skip(cur as int)),
        decreases s@.len() - cur,
    {
        let e = crate::text::scan(s, cur, Class::NotDot);
        proof {
            lemma_span(s@, cur as int, Class::NotDot);
            lemma_span_skip(s@, cur as int, 0, Class::NotDot);
        }
        let ghost rest = s@.skip(cur as int);
        let mut piece: Vec<char> = Vec::new();
        let mut i: usize = cur;
        while i < e
            invariant
                cur <= i <= e <= s@.len(),
                piece@ == s@.subrange(cur as int, i as int),
            decreases e - i,
        {
            piece.push(s[i]);
            i = i + 1;
            assert(piece@ =~= s@.subrange(cur as int, i as int));
        }
        let ghost before = r@;
        r.push(piece);
        assert(char_seqs(r@) =~= char_seqs(before).push(piece@));
        if e >= s.len() {
            assert(identifiers(rest) == seq![rest]);
            assert(rest =~= piece@);
            assert(identifiers(s@) =~= char_seqs(r@));
            return r;
        }
        assert(rest.take(e - cur) =~= piece@);
        assert(rest.skip(e - cur + 1) =~= s@.skip(e + 1));
        assert(identifiers(s@) =~= char_seqs(r@) + identifiers(s@.skip(e + 1)));
        cur = e + 1;
    }
}

fn pre_less(a: &String, b: &String) -> (r: bool)
    ensures
        r == pre_lt(a@, b@),
{
    if a.as_str().is_empty() {
        return false;
    }
    if b.as_str().is_empty() {
        return true;
    }
    let xs = split_identifiers(&chars_of(a.as_str()));
    let ys = split_identifiers(&chars_of(b.as_str()));
    let ghost xv = char_seqs(xs@);
    let ghost yv = char_seqs(ys@);
    let mut i: usize = 0;
    assert(xv.skip(0) =~= xv && yv.skip(0) =~= yv);
    loop
        invariant
            xv == char_seqs(xs@),
            yv == char_seqs(ys@),
            xv == identifiers(a@),
            yv == identifiers(b@),
            a@.len() > 0,
            b@.len() > 0,
            i <= xs@.len(),
            i <= ys@.len(),
            idents_lt(xv, yv) == idents_lt(xv.skip(i as int), yv.skip(i as int)),
        decreases xs@.len() - i,
    {
        if i >= ys.len() {
            assert(yv.skip(i as int).len() == 0);
            return false;
        }
        if i >= xs.len() {
            assert(xv.skip(i as int).len() == 0);
            return true;
        }
        assert(xv.skip(i as int).len() > 0 && yv.skip(i as int).len() > 0);
        assert(xv.skip(i as int)[0] == xs@[i as int]@);
        assert(yv.skip(i as int)[0] == ys@[i as int]@);
        if ident_less(&xs[i], &ys[i]) {
            return true;
        }
        if ident_less(&ys[i], &xs[i]) {
            return false;
        }
        assert(xv.skip(i as int).skip(1) =~= xv.skip(i + 1));
        assert(yv.skip(i as int).skip(1) =~= yv.skip(i + 1));
        i = i + 1;
    }
}

/// Whether `a` has lower precedence than `b`.
pub fn precedes(a: &Version, b: &Version) -> (r: bool)
    ensures
        r == parts_lt(version_parts(*a), version_parts(*b)),
{
    if a.major != b.major {
        a.major < b.major
    } else if a.minor != b.minor {
        a.minor < b.minor
    } else if a.patch != b.patch {
        a.patch < b.patch
    } else {
        pre_less(&a.pre, &b.pre)
    }
}

/// Whether each marker of `rs` has precedence no lower than the next one.
pub open spec fn descending(rs: Seq<ReleaseInfo>) -> bool {
    forall|i: int| 0 <= i < rs.len() - 1
        ==> !parts_lt(version_parts(#[trigger] rs[i].version), version_parts(rs[i + 1].version))
}

/// The markers of `tags` in order of precedence, highest first.
pub fn sort_tags(tags: Vec<ReleaseInfo>) -> (r: Vec<ReleaseInfo>)
    ensures
        r@.to_multiset() == tags@.to_multiset(),
        descending(r@),
{
    broadcast use vstd::seq_lib::group_to_multiset_ensures;
    let ghost all = tags@;
    let mut rest = tags;
    let mut r: Vec<ReleaseInfo> = Vec::new();
    while rest.len() > 0
        invariant
            r@.to_multiset().add(rest@.to_multiset()) == all.to_multiset(),
            descending(r@),
        decreases rest@.len(),
    {
        let ghost before_rest = rest@;
        let x = rest.pop().unwrap();
        assert(before_rest =~= rest@.push(x));
        proof {
            rest@.to_multiset_ensures();
        }
        let mut p: usize = 0;
        while p < r.len() && precedes(&x.version, &r[p].version)
            invariant
                p <= r@.len(),
                forall|j: int| 0 <= j < p ==> parts_lt(version_parts(x.version), version_parts(#[trigger] r@[j].version)),
            decreases r@.len() - p,
        {
            p = p + 1;
        }
        let ghost before = r@;
        r.insert(p, x);
        proof {
            assert(r@ == before.insert(p as int, x));
            assert(r@.remove(p as int) =~= before);
            assert(r@[p as int] == x);
            assert(r@.contains(x));
            r@.to_multiset_ensures();
            before.to_multiset_ensures();
            assert(r@.to_multiset().count(x) > 0);
            assert(r@.to_multiset() =~= before.to_multiset().insert(x));
            assert forall|i: int| 0 <= i < r@.len() - 1 implies
                !parts_lt(version_parts(#[trigger] r@[i].version), version_parts(r@[i + 1].version)) by {
                if i + 1 < p {
                    assert(r@[i] == before[i] && r@[i + 1] == before[i + 1]);
                } else if i + 1 == p {
                    lemma_parts_asym(version_parts(x.version), version_parts(before[i].version));
                } else if i == p {
                } else {
                    assert(r@[i] == before[i - 1] && r@[i + 1] == before[i]);
                }
            }
        }
    }
    r
}

/// Whether a release marker can stand as the last release when resolving
/// with `pre_id`: it is on a pre-release track that contains `pre_id`, or it
/// is not a pre-release at all.
pub open spec fn eligible(r: ReleaseInfo, pre_id: Seq<char>) -> bool {
    (pre_id.len() > 0 && contains(r.version.pre@, pre_id)) || r.version.pre@.len() == 0
}

/// The index of the first eligible marker of `tags`, if any.
pub open spec fn selected(tags: Seq<ReleaseInfo>, pre_id: Seq<char>) -> Option<int> {
    if exists|i: int| 0 <= i < tags.len() && eligible(tags[i], pre_id) {
        Some(choose|i: int| 0 <= i < tags.len() && eligible(tags[i], pre_id)
            && forall|j: int| 0 <= j < i ==> !eligible(tags[j], pre_id))
    } else {
        None
    }
}

/// The first eligible marker of `tags`, walked in order.
pub fn select_release(tags: &Vec<ReleaseInfo>, pre_id: &str) -> (r: Option<usize>)
    ensures
        match r {
            Some(i) => i < tags@.len() && eligible(tags@[i as int], pre_id@)
                && forall|j: int| 0 <= j < i ==> !eligible(#[trigger] tags@[j], pre_id@),
            None => forall|j: int| 0 <= j < tags@.len() ==> !eligible(#[trigger] tags@[j], pre_id@),
        },
{
    let p = chars_of(pre_id);
    let mut i: usize = 0;
    while i < tags.len()
        invariant
            i <= tags@.len(),
            p@ == pre_id@,
            forall|j: int| 0 <= j < i ==> !eligible(#[trigger] tags@[j], pre_id@),
        decreases tags@.len() - i,
    {
        let pre = chars_of(tags[i].version.pre.as_str());
        if (p.len() > 0 && contains_seq(&pre, &p)) || pre.len() == 0 {
            return Some(i);
        }
        i = i + 1;
    }
    None
}

} // verus!
