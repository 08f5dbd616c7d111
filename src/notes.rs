//! Release-notes rendering: classified commits grouped into sections in the
//! configured order, and within a section by scope.
use vstd::prelude::*;
use vstd::string::StringExecFns;
use crate::changelog::{ChangelogCommit, Entry, entries, names};
use crate::ctx::ReleaseType;

verus! {

/// The section types of `es`, each once, in order of first appearance.
pub open spec fn section_types(es: Seq<Entry>) -> Seq<Seq<char>>
    decreases es.len(),
{
    if es.len() == 0 {
        Seq::empty()
    } else {
        let d = section_types(es.drop_last());
        if d.contains(es.last().section_type) {
            d
        } else {
            d.push(es.last().section_type)
        }
    }
}

/// The scopes of the entries of section `t`, each once, in order of first
/// appearance.
pub open spec fn section_scopes(es: Seq<Entry>, t: Seq<char>) -> Seq<Seq<char>>
    decreases es.len(),
{
    if es.len() == 0 {
        Seq::empty()
    } else {
        let d = section_scopes(es.drop_last(), t);
        if es.last().section_type != t || d.contains(es.last().scope) {
            d
        } else {
            d.push(es.last().scope)
        }
    }
}

/// Whether rule `j` is the first rule for its commit type.
pub open spec fn first_rule(rules: Seq<ReleaseType>, j: int) -> bool {
    forall|i: int| 0 <= i < j ==> rules[i].commit_type@ != rules[j].commit_type@
}

pub open spec fn configured(rules: Seq<ReleaseType>, t: Seq<char>) -> bool {
    exists|j: int| 0 <= j < rules.len() && rules[j].commit_type@ == t
}

/// The sections of the configured types present in `ds`, in rule order,
/// each with the title of its first rule.
pub open spec fn configured_sections(rules: Seq<ReleaseType>, n: int, ds: Seq<Seq<char>>) -> Seq<(Seq<char>, Seq<char>)>
    decreases n,
{
    if n <= 0 || n > rules.len() {
        Seq::empty()
    } else {
        let prev = configured_sections(rules, n - 1, ds);
        let r = rules[n - 1];
        if first_rule(rules, n - 1) && ds.contains(r.commit_type@) {
            prev.push((r.commit_type@, r.section@))
        } else {
            prev
        }
    }
}

/// The sections of the types in `ds[..n]` that no rule configures, in the
/// order of `ds`, each titled by its type.
pub open spec fn unconfigured_sections(rules: Seq<ReleaseType>, ds: Seq<Seq<char>>, n: int) -> Seq<(Seq<char>, Seq<char>)>
    decreases n,
{
    if n <= 0 || n > ds.len() {
        Seq::empty()
    } else {
        let prev = unconfigured_sections(rules, ds, n - 1);
        if configured(rules, ds[n - 1]) {
            prev
        } else {
            prev.push((ds[n - 1], ds[n - 1]))
        }
    }
}

/// The sections of the notes, as (type, title): first the types that no
/// rule configures, in order of first appearance, then the configured ones in
/// rule order.
pub open spec fn sections(rules: Seq<ReleaseType>, es: Seq<Entry>) -> Seq<(Seq<char>, Seq<char>)> {
    let ds = section_types(es);
    unconfigured_sections(rules, ds, ds.len() as int) + configured_sections(rules, rules.len() as int, ds)
}

pub open spec fn commit_line(e: Entry, scoped: bool, url: Seq<char>) -> Seq<char> {
    (if scoped { "  - "@ } else { "- "@ }) + e.desc + " (["@ + e.hash + "]("@ + url + "/commit/"@ + e.hash
        + "))\r\n"@
}

/// The lines of the entries of section `t` and scope `sc` among `es[..n]`.
pub open spec fn scope_lines(es: Seq<Entry>, n: int, t: Seq<char>, sc: Seq<char>, url: Seq<char>) -> Seq<char>
    decreases n,
{
    if n <= 0 || n > es.len() {
        Seq::empty()
    } else {
        let prev = scope_lines(es, n - 1, t, sc, url);
        let e = es[n - 1];
        if e.section_type == t && e.scope == sc {
            prev + commit_line(e, sc.len() > 0, url)
        } else {
            prev
        }
    }
}

pub open spec fn scope_block(es: Seq<Entry>, t: Seq<char>, sc: Seq<char>, url: Seq<char>) -> Seq<char> {
    (if sc.len() > 0 { "\r\n- **"@ + sc + ":**\r\n"@ } else { Seq::empty() })
        + scope_lines(es, es.len() as int, t, sc, url)
}

/// The blocks of the first `n` scopes of section `t`.
pub open spec fn scope_blocks(es: Seq<Entry>, t: Seq<char>, scs: Seq<Seq<char>>, n: int, url: Seq<char>) -> Seq<char>
    decreases n,
{
    if n <= 0 || n > scs.len() {
        Seq::empty()
    } else {
        scope_blocks(es, t, scs, n - 1, url) + scope_block(es, t, scs[n - 1], url)
    }
}

pub open spec fn section_text(es: Seq<Entry>, t: Seq<char>, title: Seq<char>, url: Seq<char>) -> Seq<char> {
    let scs = section_scopes(es, t);
    "\r\n### "@ + title + "\r\n"@ + scope_blocks(es, t, scs, scs.len() as int, url)
}

pub open spec fn sections_text(es: Seq<Entry>, ss: Seq<(Seq<char>, Seq<char>)>, n: int, url: Seq<char>) -> Seq<char>
    decreases n,
{
    if n <= 0 || n > ss.len() {
        Seq::empty()
    } else {
        sections_text(es, ss, n - 1, url) + section_text(es, ss[n - 1].0, ss[n - 1].1, url)
    }
}

pub open spec fn header(next: Seq<char>, last: Seq<char>, url: Seq<char>) -> Seq<char> {
    if last.len() == 0 {
        "## "@ + next + "\r\n\r\n"@
    } else {
        "## ["@ + next + "]("@ + url + "/compare/"@ + last + "..."@ + next + ")\r\n\r\n"@
    }
}

/// The release notes for `es`.
pub open spec fn notes_text(
    es: Seq<Entry>,
    next: Seq<char>,
    last: Seq<char>,
    rules: Seq<ReleaseType>,
    url: Seq<char>,
    date: Seq<char>,
) -> Seq<char> {
    let ss = sections(rules, es);
    header(next, last, url) + "###### _"@ + date + "_\r\n"@ + sections_text(es, ss, ss.len() as int, url)
}

pub open spec fn pairs(v: Seq<(String, String)>) -> Seq<(Seq<char>, Seq<char>)> {
    v.map_values(|p: (String, String)| (p.0@, p.1@))
}

// ---------------------------------------------------------------------------

pub(crate) fn contains_string(v: &Vec<String>, s: &String) -> (r: bool)
    ensures
        r == names(v@).contains(s@),
{
    let ghost vv = names(v@);
    let mut i: usize = 0;
    while i < v.len()
        invariant
            i <= v@.len(),
            vv == names(v@),
            forall|j: int| 0 <= j < i ==> vv[j] != s@,
        decreases v@.len() - i,
    {
        if v[i] == *s {
            assert(vv[i as int] == s@);
            return true;
        }
        i = i + 1;
    }
    false
}

fn collect_section_types(commits: &Vec<ChangelogCommit>) -> (r: Vec<String>)
    ensures
        names(r@) == section_types(entries(commits@)),
{
    let ghost es = entries(commits@);
    let mut r: Vec<String> = Vec::new();
    let mut i: usize = 0;
    while i < commits.len()
        invariant
            i <= commits@.len(),
            es == entries(commits@),
            names(r@) == section_types(es.take(i as int)),
        decreases commits@.len() - i,
    {
        assert(es.take(i + 1).drop_last() =~= es.take(i as int));
        if !contains_string(&r, &commits[i].section_type) {
            r.push(commits[i].section_type.clone());
            assert(names(r@) =~= section_types(es.take(i as int)).push(es[i as int].section_type));
        }
        i = i + 1;
    }
    assert(es.take(i as int) =~= es);
    r
}

fn collect_scopes(commits: &Vec<ChangelogCommit>, t: &String) -> (r: Vec<String>)
    ensures
        names(r@) == section_scopes(entries(commits@), t@),
{
    let ghost es = entries(commits@);
    let mut r: Vec<String> = Vec::new();
    let mut i: usize = 0;
    while i < commits.len()
        invariant
            i <= commits@.len(),
            es == entries(commits@),
            names(r@) == section_scopes(es.take(i as int), t@),
        decreases commits@.len() - i,
    {
        assert(es.take(i + 1).drop_last() =~= es.take(i as int));
        if commits[i].section_type == *t && !contains_string(&r, &commits[i].scope) {
            r.push(commits[i].scope.clone());
            assert(names(r@) =~= section_scopes(es.take(i as int), t@).push(es[i as int].scope));
        }
        i = i + 1;
    }
    assert(es.take(i as int) =~= es);
    r
}

/// The index of the first rule for commit type `t`.
fn rule_index(rules: &Vec<ReleaseType>, t: &String) -> (r: Option<usize>)
    ensures
        match r {
            Some(j) => j < rules@.len() && rules@[j as int].commit_type@ == t@ && first_rule(rules@, j as int),
            None => !configured(rules@, t@),
        },
{
    let mut j: usize = 0;
    while j < rules.len()
        invariant
            j <= rules@.len(),
            forall|i: int| 0 <= i < j ==> rules@[i].commit_type@ != t@,
        decreases rules@.len() - j,
    {
        if rules[j].commit_type == *t {
            return Some(j);
        }
        j = j + 1;
    }
    None
}

/// The (type, title) pairs of the sections, as `sections` states them.
fn order_sections(rules: &Vec<ReleaseType>, commits: &Vec<ChangelogCommit>) -> (r: Vec<(String, String)>)
    ensures
        pairs(r@) == sections(rules@, entries(commits@)),
{
    let ds = collect_section_types(commits);
    let ghost dv = names(ds@);
    let mut r: Vec<(String, String)> = Vec::new();
    let mut i: usize = 0;
    while i < ds.len()
        invariant
            i <= ds@.len(),
            dv == names(ds@),
            dv == section_types(entries(commits@)),
            pairs(r@) == unconfigured_sections(rules@, dv, i as int),
        decreases ds@.len() - i,
    {
        if rule_index(rules, &ds[i]).is_none() {
            r.push((ds[i].clone(), ds[i].clone()));
            assert(pairs(r@) =~= unconfigured_sections(rules@, dv, i as int).push((dv[i as int], dv[i as int])));
        }
        i = i + 1;
    }
    let ghost un = unconfigured_sections(rules@, dv, dv.len() as int);
    let mut j: usize = 0;
    while j < rules.len()
        invariant
            j <= rules@.len(),
            dv == names(ds@),
            dv == section_types(entries(commits@)),
            pairs(r@) == un + configured_sections(rules@, j as int, dv),
        decreases rules@.len() - j,
    {
        let first = match rule_index(rules, &rules[j].commit_type) {
            Some(k) => k == j,
            None => false,
        };
        if first && contains_string(&ds, &rules[j].commit_type) {
            let ghost before = r@;
            let pair = (rules[j].commit_type.clone(), rules[j].section.clone());
            assert(pair.0@ == rules@[j as int].commit_type@ && pair.1@ == rules@[j as int].section@);
            r.push(pair);
            assert(r@ == before.push(pair));
            assert(pairs(r@) =~= pairs(before).push((pair.0@, pair.1@)));
            assert(pairs(r@) =~= un + configured_sections(rules@, j as int, dv).push((rules@[j as int].commit_type@, rules@[j as int].section@)));
        }
        j = j + 1;
    }
    r
}

fn push_commit_line(out: &mut String, c: &ChangelogCommit, scoped: bool, url: &str)
    ensures
        final(out)@ == old(out)@ + commit_line(c@, scoped, url@),
{
    if scoped {
        out.append("  - ");
    } else {
        out.append("- ");
    }
    out.append(c.desc.as_str());
    out.append(" ([");
    out.append(c.hash.as_str());
    out.append("](");
    out.append(url);
    out.append("/commit/");
    out.append(c.hash.as_str());
    out.append("))\r\n");
    assert(final(out)@ =~= old(out)@ + commit_line(c@, scoped, url@));
}

fn push_scope_block(out: &mut String, commits: &Vec<ChangelogCommit>, t: &String, sc: &String, url: &str)
    ensures
        final(out)@ == old(out)@ + scope_block(entries(commits@), t@, sc@, url@),
{
    let ghost es = entries(commits@);
    let ghost start = out@;
    let scoped = !sc.as_str().is_empty();
    proof {
        assert(scoped == (sc@.len() > 0));
    }
    if scoped {
        out.append("\r\n- **");
        out.append(sc.as_str());
        out.append(":**\r\n");
    }
    let ghost head = out@;
    assert(head == start + (if sc@.len() > 0 { "\r\n- **"@ + sc@ + ":**\r\n"@ } else { Seq::empty() }));
    let mut i: usize = 0;
    while i < commits.len()
        invariant
            i <= commits@.len(),
            es == entries(commits@),
            out@ == head + scope_lines(es, i as int, t@, sc@, url@),
            scoped == (sc@.len() > 0),
        decreases commits@.len() - i,
    {
        if commits[i].section_type == *t && commits[i].scope == *sc {
            push_commit_line(out, &commits[i], scoped, url);
        }
        i = i + 1;
    }
    assert(out@ =~= start + scope_block(es, t@, sc@, url@));
}

fn push_section(out: &mut String, commits: &Vec<ChangelogCommit>, t: &String, title: &String, url: &str)
    ensures
        final(out)@ == old(out)@ + section_text(entries(commits@), t@, title@, url@),
{
    let ghost es = entries(commits@);
    let ghost start = out@;
    out.append("\r\n### ");
    out.append(title.as_str());
    out.append("\r\n");
    let ghost head = out@;
    let scs = collect_scopes(commits, t);
    let ghost sv = names(scs@);
    let mut i: usize = 0;
    while i < scs.len()
        invariant
            i <= scs@.len(),
            es == entries(commits@),
            sv == names(scs@),
            sv == section_scopes(es, t@),
            out@ == head + scope_blocks(es, t@, sv, i as int, url@),
        decreases scs@.len() - i,
    {
        push_scope_block(out, commits, t, &scs[i], url);
        i = i + 1;
        assert(out@ =~= head + scope_blocks(es, t@, sv, i as int, url@));
    }
    assert(out@ =~= start + section_text(es, t@, title@, url@));
}

/// Renders the release notes of `commits` for `next`, compared with `last`
/// (empty for a first release), dated `date`.
pub fn render_notes(
    commits: &Vec<ChangelogCommit>,
    next: &String,
    last: &String,
    release_types: &Vec<ReleaseType>,
    origin_url: &str,
    date: &str,
) -> (r: String)
    ensures
        r@ == notes_text(entries(commits@), next@, last@, release_types@, origin_url@, date@),
{
    let ghost es = entries(commits@);
    let mut out = String::new();
    if last.as_str().is_empty() {
        out.append("## ");
        out.append(next.as_str());
        out.append("\r\n\r\n");
    } else {
        out.append("## [");
        out.append(next.as_str());
        out.append("](");
        out.append(origin_url);
        out.append("/compare/");
        out.append(last.as_str());
        out.append("...");
        out.append(next.as_str());
        out.append(")\r\n\r\n");
    }
    out.append("###### _");
    out.append(date);
    out.append("_\r\n");
    let ghost head = out@;
    assert(head =~= header(next@, last@, origin_url@) + "###### _"@ + date@ + "_\r\n"@);
    let ss = order_sections(release_types, commits);
    let ghost sv = pairs(ss@);
    let mut i: usize = 0;
    while i < ss.len()
        invariant
            i <= ss@.len(),
            es == entries(commits@),
            sv == pairs(ss@),
            sv == sections(release_types@, es),
            out@ == head + sections_text(es, sv, i as int, origin_url@),
        decreases ss@.len() - i,
    {
        push_section(&mut out, commits, &ss[i].0, &ss[i].1, origin_url);
        i = i + 1;
        assert(out@ =~= head + sections_text(es, sv, i as int, origin_url@));
    }
    out
}

} // verus!
