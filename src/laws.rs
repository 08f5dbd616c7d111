//! Laws of the release computation, proved over the spec functions that state
//! what the executable functions do.
use vstd::prelude::*;
use crate::changelog::{classify_commit, Entry};
use crate::ctx::{ReleaseType, merged_rules, rules_error, rule_error, reserved, default_rules};
use crate::git::{Commit, commit_view};
use crate::version::ReleaseInfo;
use crate::package::{
    Bump, bump_of, resolved, load_outcome, parts_text, ResolveError, next_numbers, next_prerelease, first_ident, second_ident, numeric_counter,
};
use crate::text::{Class, span, in_class, decimal, lemma_decimal, digits_value, lemma_span};
use crate::version::{Version, lemma_identifiers_head, identifiers, ident_lt, idents_lt, lex_lt, numeric, pre_lt, parts_lt, version_parts};

verus! {

/// Classification depends on nothing but the configured types and the
/// commit's hash, subject and body: classifying the same record twice gives
/// the same entry, or drops it both times.
pub proof fn classification_is_deterministic(types: Seq<String>, a: Commit, b: Commit)
    requires
        commit_view(a) == commit_view(b),
    ensures
        classify_commit(types, a) == classify_commit(types, b),
{
}

proof fn lemma_merged_shape(rs: Seq<ReleaseType>, n: int)
    ensures
        merged_rules(rs, n).len() >= 3,
        merged_rules(rs, n)[0].0 == "feat"@ && merged_rules(rs, n)[0].1 == "minor"@,
        merged_rules(rs, n)[1].0 == "fix"@ && merged_rules(rs, n)[1].1 == "patch"@,
        merged_rules(rs, n)[2].0 == "revert"@ && merged_rules(rs, n)[2].1 == "patch"@,
        forall|i: int| 3 <= i < merged_rules(rs, n).len() ==> !reserved(#[trigger] merged_rules(rs, n)[i].0),
    decreases n,
{
    if 0 < n <= rs.len() {
        lemma_merged_shape(rs, n - 1);
        let m = merged_rules(rs, n - 1);
        let r = rs[n - 1];
        if !reserved(r.commit_type@) {
            assert forall|i: int| 3 <= i < merged_rules(rs, n).len() implies !reserved(#[trigger] merged_rules(rs, n)[i].0) by {
                if i < m.len() {
                    assert(merged_rules(rs, n)[i] == m[i]);
                }
            }
        }
    } else {
        assert(merged_rules(rs, n) == default_rules());
        reveal_strlit("feat");
        reveal_strlit("fix");
        reveal_strlit("revert");
    }
}

/// Whatever rules are configured, the rules in force map `feat` to a minor
/// bump and `fix` and `revert` to a patch bump: they come first, and no later
/// rule names them again.
pub proof fn reserved_types_keep_their_bumps(input: Seq<ReleaseType>)
    requires
        rules_error(input, input.len() as int) is None,
    ensures
        ({
            let m = merged_rules(input, input.len() as int);
            &&& m[0].0 == "feat"@ && m[0].1 == "minor"@
            &&& m[1].0 == "fix"@ && m[1].1 == "patch"@
            &&& m[2].0 == "revert"@ && m[2].1 == "patch"@
            &&& forall|i: int| 0 <= i < m.len() && (#[trigger] m[i]).0 == "feat"@ ==> m[i].1 == "minor"@
            &&& forall|i: int| 0 <= i < m.len() && (#[trigger] m[i]).0 == "fix"@ ==> m[i].1 == "patch"@
            &&& forall|i: int| 0 <= i < m.len() && (#[trigger] m[i]).0 == "revert"@ ==> m[i].1 == "patch"@
        }),
{
    lemma_merged_shape(input, input.len() as int);
    let m = merged_rules(input, input.len() as int);
    reveal_strlit("feat");
    reveal_strlit("fix");
    reveal_strlit("revert");
    assert forall|i: int| 0 <= i < m.len() && (#[trigger] m[i]).0 == "fix"@ implies m[i].1 == "patch"@ by {
        if i >= 3 {
            assert(!reserved(m[i].0));
        } else if i == 0 {
            assert(m[0].0.len() != "fix"@.len());
        } else if i == 2 {
            assert(m[2].0.len() != "fix"@.len());
        }
    }
    assert forall|i: int| 0 <= i < m.len() && (#[trigger] m[i]).0 == "feat"@ implies m[i].1 == "minor"@ by {
        if i >= 3 {
            assert(!reserved(m[i].0));
        } else if i == 1 {
            assert(m[1].0.len() != "feat"@.len());
        } else if i == 2 {
            assert(m[2].0.len() != "feat"@.len());
        }
    }
    assert forall|i: int| 0 <= i < m.len() && (#[trigger] m[i]).0 == "revert"@ implies m[i].1 == "patch"@ by {
        if i >= 3 {
            assert(!reserved(m[i].0));
        } else if i == 0 {
            assert(m[0].0.len() != "revert"@.len());
        } else if i == 1 {
            assert(m[1].0.len() != "revert"@.len());
        }
    }
}

proof fn lemma_error_found(rs: Seq<ReleaseType>, i: int, n: int)
    requires
        0 <= i < n <= rs.len(),
        rule_error(rs[i]) is Some,
    ensures
        rules_error(rs, n) is Some,
    decreases n,
{
    if n - 1 > i {
        lemma_error_found(rs, i, n - 1);
    }
}

/// A configuration that gives `feat`, `fix` or `revert` a bump is refused.
pub proof fn reserved_type_bump_is_refused(input: Seq<ReleaseType>, i: int)
    requires
        0 <= i < input.len(),
        reserved(input[i].commit_type@),
        input[i].bump@.len() > 0,
    ensures
        rules_error(input, input.len() as int) is Some,
{
    lemma_error_found(input, i, input.len() as int);
}

/// A commit set with a breaking change calls for a major bump, whatever the
/// types of the other commits.
pub proof fn breaking_change_dominates(es: Seq<Entry>, rules: Seq<ReleaseType>, i: int)
    requires
        0 <= i < es.len(),
        es[i].breaking.len() > 0,
    ensures
        bump_of(es, rules) == Bump::Major,
{
}

/// With a breaking change among the relevant commits, a package whose last
/// release is stable and real moves to the next major version, `x.0.0`,
/// whatever the other commits' types. Left out is a major number that cannot
/// grow, where resolution fails instead.
pub proof fn breaking_change_bumps_major(
    es: Seq<Entry>,
    last: ReleaseInfo,
    prefix: Seq<char>,
    rules: Seq<ReleaseType>,
    i: int,
)
    requires
        0 <= i < es.len(),
        es[i].breaking.len() > 0,
        !last.initial,
        last.version.pre@.len() == 0,
        last.version.major < u64::MAX,
    ensures
        load_outcome(es, last, prefix, rules, Seq::empty()) == Ok::<Option<Seq<char>>, ResolveError>(
            Some(prefix + parts_text((last.version.major + 1, 0, 0, Seq::empty()))),
        ),
{
    assert(bump_of(es, rules) == Bump::Major);
}

// ---------------------------------------------------------------------------

proof fn lemma_lex_irreflexive(a: Seq<char>)
    ensures
        !lex_lt(a, a),
    decreases a.len(),
{
    if a.len() > 0 {
        lemma_lex_irreflexive(a.skip(1));
    }
}

proof fn lemma_ident_irreflexive(a: Seq<char>)
    ensures
        !ident_lt(a, a),
{
    lemma_lex_irreflexive(a);
}

/// A run of class-`c` characters followed by one outside the class ends there.
proof fn lemma_span_prefix(s: Seq<char>, i: int, e: int, c: Class)
    requires
        0 <= i <= e < s.len(),
        forall|j: int| i <= j < e ==> in_class(#[trigger] s[j], c),
        !in_class(s[e], c),
    ensures
        span(s, i, c) == e,
    decreases e - i,
{
    if i < e {
        lemma_span_prefix(s, i + 1, e, c);
    }
}

/// A run of class-`c` characters that reaches the end.
proof fn lemma_span_all(s: Seq<char>, i: int, c: Class)
    requires
        0 <= i <= s.len(),
        forall|j: int| i <= j < s.len() ==> in_class(#[trigger] s[j], c),
    ensures
        span(s, i, c) == s.len(),
    decreases s.len() - i,
{
    if i < s.len() {
        lemma_span_all(s, i + 1, c);
    }
}

/// The identifiers of `p.<digits>`, for `p` without dots.
proof fn lemma_identifiers_counter(p: Seq<char>, n: nat)
    requires
        forall|j: int| 0 <= j < p.len() ==> (#[trigger] p[j]) != '.',
    ensures
        identifiers(p + "."@ + decimal(n)) == seq![p, decimal(n)],
{
    reveal_strlit(".");
    let d = decimal(n);
    let s = p + "."@ + d;
    lemma_decimal(n);
    assert(s[p.len() as int] == '.');
    assert forall|j: int| 0 <= j < p.len() implies in_class(#[trigger] s[j], Class::NotDot) by {
        assert(s[j] == p[j]);
    }
    lemma_span_prefix(s, 0, p.len() as int, Class::NotDot);
    assert(s.take(p.len() as int) =~= p);
    assert(s.skip(p.len() as int + 1) =~= d);
    assert forall|j: int| 0 <= j < d.len() implies in_class(#[trigger] d[j], Class::NotDot) by {
        assert(crate::text::is_ascii_digit(d[j]));
    }
    lemma_span_all(d, 0, Class::NotDot);
    assert(identifiers(d) == seq![d]);
    assert(identifiers(s) =~= seq![p] + identifiers(d));
}

/// Whether `a` has lower precedence than `b`, as (major, minor, patch,
/// pre-release).
proof fn lemma_counter_order(last_pre: Seq<char>, pre_id: Seq<char>)
    requires
        last_pre.len() > 0,
        first_ident(last_pre) == pre_id,
        second_ident(last_pre) matches Some(c) && numeric_counter(c) && c.len() > 0,
    ensures
        next_prerelease(last_pre, pre_id) matches Some(p) && pre_lt(last_pre, p),
{
    let c = second_ident(last_pre)->0;
    let n = (digits_value(c) + 1) as nat;
    let p = pre_id + "."@ + decimal(n);
    lemma_span(last_pre, 0, Class::NotDot);
    assert forall|j: int| 0 <= j < pre_id.len() implies (#[trigger] pre_id[j]) != '.' by {
        assert(pre_id[j] == last_pre[j]);
        assert(in_class(last_pre[j], Class::NotDot));
    }
    lemma_identifiers_counter(pre_id, n);
    lemma_identifiers_head(last_pre);
    lemma_decimal(n);
    let xs = identifiers(last_pre);
    let ys = identifiers(p);
    assert(p.len() > 0);
    lemma_ident_irreflexive(pre_id);
    assert(numeric(c) && numeric(decimal(n)));
    assert(ident_lt(xs[1], ys[1]));
    assert(xs.skip(1)[0] == xs[1]);
    assert(ys.skip(1)[0] == ys[1]);
    assert(idents_lt(xs.skip(1), ys.skip(1)));
    assert(idents_lt(xs, ys));
}

/// Every resolution from a real last release yields a version of higher
/// precedence than it. Left out are the inputs where this cannot hold: a
/// switch to a pre-release track that sorts below the current one, and a
/// counter that is empty.
pub proof fn next_version_is_higher(last: Version, b: Bump, pre_id: Seq<char>)
    requires
        resolved(last, b, pre_id) is Ok,
        last.pre@.len() > 0 && pre_id.len() > 0 && first_ident(last.pre@) != pre_id
            ==> pre_lt(last.pre@, pre_id + ".0"@),
        last.pre@.len() > 0 && pre_id.len() > 0 && first_ident(last.pre@) == pre_id
            ==> (second_ident(last.pre@) matches Some(c) && c.len() > 0),
    ensures
        parts_lt(version_parts(last), resolved(last, b, pre_id)->Ok_0),
{
    let r = resolved(last, b, pre_id)->Ok_0;
    if last.pre@.len() > 0 && pre_id.len() > 0 && first_ident(last.pre@) == pre_id {
        lemma_counter_order(last.pre@, pre_id);
    }
}

/// On the requested track the next pre-release keeps the version numbers
/// and the identifier and adds one to the counter, and resolving again adds
/// one more: `2.0.0-beta.3` gives `2.0.0-beta.4`, then `2.0.0-beta.5`.
pub proof fn prerelease_continues(last: Version, b: Bump, pre_id: Seq<char>, n: nat)
    requires
        pre_id.len() > 0,
        forall|j: int| 0 <= j < pre_id.len() ==> (#[trigger] pre_id[j]) != '.',
        last.pre@ == pre_id + "."@ + decimal(n),
        n + 2 < u64::MAX,
    ensures
        next_numbers(last, b) == (last.major as int, last.minor as int, last.patch as int),
        next_prerelease(last.pre@, pre_id) == Some(pre_id + "."@ + decimal(n + 1)),
        next_prerelease(pre_id + "."@ + decimal(n + 1), pre_id) == Some(pre_id + "."@ + decimal(n + 2)),
{
    lemma_continue_once(pre_id, n);
    lemma_continue_once(pre_id, n + 1);
}

proof fn lemma_continue_once(pre_id: Seq<char>, n: nat)
    requires
        pre_id.len() > 0,
        forall|j: int| 0 <= j < pre_id.len() ==> (#[trigger] pre_id[j]) != '.',
        n + 1 < u64::MAX,
    ensures
        next_prerelease(pre_id + "."@ + decimal(n), pre_id) == Some(pre_id + "."@ + decimal(n + 1)),
{
    reveal_strlit(".");
    let s = pre_id + "."@ + decimal(n);
    lemma_identifiers_counter(pre_id, n);
    lemma_decimal(n);
    assert(s[pre_id.len() as int] == '.');
    assert forall|j: int| 0 <= j < pre_id.len() implies in_class(#[trigger] s[j], Class::NotDot) by {
        assert(s[j] == pre_id[j]);
    }
    lemma_span_prefix(s, 0, pre_id.len() as int, Class::NotDot);
    assert(first_ident(s) =~= pre_id);
    let d = decimal(n);
    assert forall|j: int| pre_id.len() + 1 <= j < s.len() implies in_class(#[trigger] s[j], Class::NotDot) by {
        assert(s[j] == d[j - pre_id.len() - 1]);
        assert(crate::text::is_ascii_digit(d[j - pre_id.len() - 1]));
    }
    lemma_span_all(s, pre_id.len() as int + 1, Class::NotDot);
    assert(second_ident(s) == Some(d)) by {
        assert(s.subrange(pre_id.len() as int + 1, s.len() as int) =~= d);
    }
}

/// Switching to another track starts it at `.0` and keeps the version
/// numbers: `2.0.0-alpha.2` asked for `beta` gives `2.0.0-beta.0`.
pub proof fn prerelease_switch_restarts(last: Version, b: Bump, pre_id: Seq<char>)
    requires
        last.pre@.len() > 0,
        first_ident(last.pre@) != pre_id,
    ensures
        next_numbers(last, b) == (last.major as int, last.minor as int, last.patch as int),
        next_prerelease(last.pre@, pre_id) == Some(pre_id + ".0"@),
{
}

} // verus!
