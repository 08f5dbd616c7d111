//! Character-level helpers shared by the parsers and renderers.
use vstd::prelude::*;

verus! {

/// Whether `c` is a Unicode word character (Alphabetic, Join_Control,
/// Decimal_Number, Mark or Connector_Punctuation), the class that `\w`
/// denotes in commit-message patterns.
pub uninterp spec fn word_char(c: char) -> bool;

/// Relies on `regex_syntax::is_word_character`: it answers, for one
/// character, whether it is a Unicode word character. The crate is built with
/// its default `unicode-perl` feature, so the call does not panic.
#[verifier::external_body]
fn is_word_character(c: char) -> (r: bool)
    ensures
        r == word_char(c),
{
    regex_syntax::is_word_character(c)
}

/// Relies on `String::push`: appends one character at the end.
#[verifier::external_body]
pub(crate) fn push_char(s: &mut String, c: char)
    ensures
        final(s)@ == old(s)@.push(c),
{
    s.push(c)
}

/// The characters of `s`, in order.
pub fn chars_of(s: &str) -> (r: Vec<char>)
    ensures
        r@ == s@,
{
    let mut r: Vec<char> = Vec::new();
    for c in it: s.chars()
        invariant
            r@ == it.seq().take(it.index() as int),
    {
        r.push(c);
    }
    r
}

/// Appends `v[lo..hi]` to `s`.
pub fn push_range(s: &mut String, v: &Vec<char>, lo: usize, hi: usize)
    requires
        lo <= hi <= v@.len(),
    ensures
        final(s)@ == old(s)@ + v@.subrange(lo as int, hi as int),
{
    let mut i: usize = lo;
    while i < hi
        invariant
            lo <= i <= hi <= v@.len(),
            s@ == old(s)@ + v@.subrange(lo as int, i as int),
        decreases hi - i,
    {
        push_char(s, v[i]);
        i = i + 1;
        assert(v@.subrange(lo as int, i as int) =~= v@.subrange(lo as int, i - 1) .push(v@[i - 1]));
    }
}

/// A string holding `v[lo..hi]`.
pub fn string_of(v: &Vec<char>, lo: usize, hi: usize) -> (r: String)
    requires
        lo <= hi <= v@.len(),
    ensures
        r@ == v@.subrange(lo as int, hi as int),
{
    let mut r = String::new();
    push_range(&mut r, v, lo, hi);
    assert(r@ =~= v@.subrange(lo as int, hi as int));
    r
}

/// A character class that a parser scans runs of.
#[derive(Clone, Copy, PartialEq, Eq, Debug)]
pub enum Class {
    /// Word characters.
    Word,
    /// Word characters, `-` and `.`: what a commit scope may hold.
    Scope,
    /// Word characters and spaces: what a commit description may hold.
    Desc,
    /// Word characters, `,`, `-` and `_`: what an owner or repository name may hold.
    Name,
    /// Word characters, `.` and `@`: what a remote host may hold.
    Host,
    /// ASCII decimal digits.
    Digit,
    /// ASCII letters, digits and `-`: what a version identifier may hold.
    Ident,
    /// Anything but `.`.
    NotDot,
    /// Anything but a line feed.
    NotNewline,
    /// The double quote.
    Quote,
    /// The slash.
    Slash,
    /// The line feed.
    Newline,
}

pub open spec fn is_ascii_digit(c: char) -> bool {
    '0' <= c && c <= '9'
}

pub open spec fn is_ident_char(c: char) -> bool {
    ('0' <= c && c <= '9') || ('a' <= c && c <= 'z') || ('A' <= c && c <= 'Z') || c == '-'
}

pub open spec fn in_class(c: char, k: Class) -> bool {
    match k {
        Class::Word => word_char(c),
        Class::Scope => word_char(c) || c == '-' || c == '.',
        Class::Desc => word_char(c) || c == ' ',
        Class::Name => word_char(c) || c == ',' || c == '-' || c == '_',
        Class::Host => word_char(c) || c == '.' || c == '@',
        Class::Digit => is_ascii_digit(c),
        Class::Ident => is_ident_char(c),
        Class::NotDot => c != '.',
        Class::NotNewline => c != '\n',
        Class::Quote => c == '"',
        Class::Slash => c == '/',
        Class::Newline => c == '\n',
    }
}

fn class_has(c: char, k: Class) -> (r: bool)
    ensures
        r == in_class(c, k),
{
    match k {
        Class::Word => is_word_character(c),
        Class::Scope => is_word_character(c) || c == '-' || c == '.',
        Class::Desc => is_word_character(c) || c == ' ',
        Class::Name => is_word_character(c) || c == ',' || c == '-' || c == '_',
        Class::Host => is_word_character(c) || c == '.' || c == '@',
        Class::Digit => '0' <= c && c <= '9',
        Class::Ident => ('0' <= c && c <= '9') || ('a' <= c && c <= 'z') || ('A' <= c && c <= 'Z')
            || c == '-',
        Class::NotDot => c != '.',
        Class::NotNewline => c != '\n',
        Class::Quote => c == '"',
        Class::Slash => c == '/',
        Class::Newline => c == '\n',
    }
}

/// The end of the longest run of class-`k` characters of `s` that starts at `i`.
pub open spec fn span(s: Seq<char>, i: int, k: Class) -> int
    decreases s.len() - i,
{
    if 0 <= i < s.len() && in_class(s[i], k) {
        span(s, i + 1, k)
    } else {
        i
    }
}

pub proof fn lemma_span(s: Seq<char>, i: int, k: Class)
    requires
        0 <= i <= s.len(),
    ensures
        i <= span(s, i, k) <= s.len(),
        forall|j: int| i <= j < span(s, i, k) ==> in_class(#[trigger] s[j], k),
        span(s, i, k) < s.len() ==> !in_class(s[span(s, i, k)], k),
    decreases s.len() - i,
{
    if i < s.len() && in_class(s[i], k) {
        lemma_span(s, i + 1, k);
    }
}

/// Runs of a class in a suffix are the runs of the whole, shifted.
pub proof fn lemma_span_skip(s: Seq<char>, k: int, i: int, c: Class)
    requires
        0 <= k <= s.len(),
        0 <= i <= s.len() - k,
    ensures
        span(s.skip(k), i, c) == span(s, i + k, c) - k,
    decreases s.len() - k - i,
{
    if i < s.len() - k && in_class(s[i + k], c) {
        lemma_span_skip(s, k, i + 1, c);
    }
}

/// Where the run of class-`k` characters of `s` that starts at `i` ends.
pub fn scan(s: &Vec<char>, i: usize, k: Class) -> (r: usize)
    requires
        i <= s@.len(),
    ensures
        r == span(s@, i as int, k),
{
    proof {
        lemma_span(s@, i as int, k);
    }
    let mut j: usize = i;
    while j < s.len() && class_has(s[j], k)
        invariant
            i <= j <= s@.len(),
            span(s@, i as int, k) == span(s@, j as int, k),
        decreases s@.len() - j,
    {
        j = j + 1;
    }
    j
}

/// The start of the longest run of class-`k` characters of `s` that ends at `hi`.
pub open spec fn rspan(s: Seq<char>, hi: int, k: Class) -> int
    decreases hi,
{
    if 0 < hi <= s.len() && in_class(s[hi - 1], k) {
        rspan(s, hi - 1, k)
    } else {
        hi
    }
}

/// Where the run of class-`k` characters of `s` that ends at `hi` starts.
pub fn rscan(s: &Vec<char>, hi: usize, k: Class) -> (r: usize)
    requires
        hi <= s@.len(),
    ensures
        r == rspan(s@, hi as int, k),
        r <= hi,
{
    let mut j: usize = hi;
    while j > 0 && class_has(s[j - 1], k)
        invariant
            j <= hi <= s@.len(),
            rspan(s@, hi as int, k) == rspan(s@, j as int, k),
        decreases j,
    {
        j = j - 1;
    }
    j
}

/// Whether `p` occurs in `s` at position `i`.
pub open spec fn occurs_at(s: Seq<char>, i: int, p: Seq<char>) -> bool {
    0 <= i && i + p.len() <= s.len() && s.subrange(i, i + p.len()) == p
}

pub fn matches_at(s: &Vec<char>, i: usize, p: &Vec<char>) -> (r: bool)
    ensures
        r == occurs_at(s@, i as int, p@),
{
    if i > s.len() || p.len() > s.len() - i {
        return false;
    }
    let mut j: usize = 0;
    while j < p.len()
        invariant
            i + p@.len() <= s@.len(),
            j <= p@.len(),
            forall|t: int| 0 <= t < j ==> s@[i + t] == p@[t],
        decreases p@.len() - j,
    {
        assert(i + j < s.len());
        if s[i + j] != p[j] {
            assert(s@.subrange(i as int, i + p@.len())[j as int] != p@[j as int]);
            return false;
        }
        j = j + 1;
    }
    assert(s@.subrange(i as int, i + p@.len()) =~= p@);
    true
}

/// The first position from `i` on where `p` occurs in `s`, or -1.
pub open spec fn find_from(s: Seq<char>, p: Seq<char>, i: int) -> int
    decreases s.len() + 1 - i,
{
    if i < 0 || i > s.len() {
        -1
    } else if occurs_at(s, i, p) {
        i
    } else {
        find_from(s, p, i + 1)
    }
}

/// The pieces of `s[i..]` between occurrences of the non-empty `sep`, as
/// `str::split` yields them.
pub open spec fn pieces_from(s: Seq<char>, sep: Seq<char>, i: int) -> Seq<Seq<char>>
    decreases s.len() + 1 - i,
{
    let f = find_from(s, sep, i);
    if sep.len() > 0 && 0 <= i <= f && occurs_at(s, f, sep) {
        seq![s.subrange(i, f)] + pieces_from(s, sep, f + sep.len())
    } else {
        seq![s.subrange(i, s.len() as int)]
    }
}

proof fn lemma_find_from(s: Seq<char>, p: Seq<char>, i: int)
    requires
        0 <= i <= s.len(),
    ensures
        find_from(s, p, i) == -1 || (i <= find_from(s, p, i) && occurs_at(s, find_from(s, p, i), p)),
    decreases s.len() + 1 - i,
{
    if !occurs_at(s, i, p) {
        if i < s.len() {
            lemma_find_from(s, p, i + 1);
        } else {
            assert(find_from(s, p, i + 1) == -1);
        }
    }
}

/// The bounds of the pieces of `v` between occurrences of `sep`, as
/// `pieces_from(v, sep, 0)` states them.
pub fn split_bounds(v: &Vec<char>, sep: &Vec<char>) -> (r: Vec<(usize, usize)>)
    requires
        sep@.len() > 0,
    ensures
        r@.len() == pieces_from(v@, sep@, 0).len(),
        forall|k: int| 0 <= k < r@.len() ==> (#[trigger] r@[k]).0 <= r@[k].1 <= v@.len()
            && v@.subrange(r@[k].0 as int, r@[k].1 as int) == pieces_from(v@, sep@, 0)[k],
{
    let mut r: Vec<(usize, usize)> = Vec::new();
    let mut cur: usize = 0;
    let ghost mut done: Seq<Seq<char>> = Seq::empty();
    loop
        invariant
            cur <= v@.len(),
            sep@.len() > 0,
            pieces_from(v@, sep@, 0) == done + pieces_from(v@, sep@, cur as int),
            r@.len() == done.len(),
            forall|k: int| 0 <= k < r@.len() ==> (#[trigger] r@[k]).0 <= r@[k].1 <= v@.len()
                && v@.subrange(r@[k].0 as int, r@[k].1 as int) == done[k],
        decreases v@.len() + 1 - cur,
    {
        let mut j: usize = cur;
        while j < v.len() && !matches_at(v, j, sep)
            invariant
                cur <= j <= v@.len(),
                find_from(v@, sep@, cur as int) == find_from(v@, sep@, j as int),
            decreases v@.len() - j,
        {
            j = j + 1;
        }
        let hit = j < v.len();
        proof {
            lemma_find_from(v@, sep@, cur as int);
        }
        if hit {
            assert(find_from(v@, sep@, j as int) == j);
            r.push((cur, j));
            proof {
                done = done.push(v@.subrange(cur as int, j as int));
            }
            assert(pieces_from(v@, sep@, 0) =~= done + pieces_from(v@, sep@, (j + sep@.len()) as int));
            cur = j + sep.len();
        } else {
            assert(!occurs_at(v@, j as int, sep@));
            assert(find_from(v@, sep@, j as int + 1) == -1);
            assert(find_from(v@, sep@, j as int) == -1);
            r.push((cur, v.len()));
            proof {
                done = done.push(v@.subrange(cur as int, v@.len() as int));
            }
            assert(done =~= pieces_from(v@, sep@, 0));
            return r;
        }
    }
}

/// Whether `p` occurs anywhere in `s`.
pub open spec fn contains(s: Seq<char>, p: Seq<char>) -> bool {
    exists|i: int| occurs_at(s, i, p)
}

pub fn contains_seq(s: &Vec<char>, p: &Vec<char>) -> (r: bool)
    ensures
        r == contains(s@, p@),
{
    if p.len() == 0 {
        assert(occurs_at(s@, 0, p@)) by {
            assert(s@.subrange(0, 0) =~= p@);
        }
        return true;
    }
    let mut i: usize = 0;
    while i < s.len()
        invariant
            i <= s@.len(),
            forall|t: int| 0 <= t < i ==> !occurs_at(s@, t, p@),
        decreases s@.len() - i,
    {
        if matches_at(s, i, p) {
            return true;
        }
        i = i + 1;
    }
    false
}

/// Whether two character sequences are equal.
pub fn same(a: &Vec<char>, b: &Vec<char>) -> (r: bool)
    ensures
        r == (a@ == b@),
{
    if a.len() != b.len() {
        return false;
    }
    let r = matches_at(a, 0, b);
    assert(a@ =~= a@.subrange(0, b@.len() as int));
    r
}

/// The decimal digit for `d`.
pub open spec fn digit(d: nat) -> char {
    if d == 0 { '0' }
    else if d == 1 { '1' }
    else if d == 2 { '2' }
    else if d == 3 { '3' }
    else if d == 4 { '4' }
    else if d == 5 { '5' }
    else if d == 6 { '6' }
    else if d == 7 { '7' }
    else if d == 8 { '8' }
    else { '9' }
}

/// The value of the decimal digit `c`.
pub open spec fn digit_value(c: char) -> nat {
    (c as u32 - '0' as u32) as nat
}

/// The decimal numeral of `n`, without leading zeros.
pub open spec fn decimal(n: nat) -> Seq<char>
    decreases n,
{
    if n < 10 {
        seq![digit(n)]
    } else {
        decimal(n / 10).push(digit(n % 10))
    }
}

/// The value of a sequence of decimal digits.
pub open spec fn digits_value(s: Seq<char>) -> nat
    decreases s.len(),
{
    if s.len() == 0 {
        0
    } else {
        digits_value(s.drop_last()) * 10 + digit_value(s.last())
    }
}

pub open spec fn all_digits(s: Seq<char>) -> bool {
    forall|i: int| 0 <= i < s.len() ==> is_ascii_digit(#[trigger] s[i])
}

pub proof fn lemma_decimal(n: nat)
    ensures
        all_digits(decimal(n)),
        decimal(n).len() > 0,
        digits_value(decimal(n)) == n,
    decreases n,
{
    if n >= 10 {
        lemma_decimal(n / 10);
        lemma_digit((n % 10) as nat);
        assert(decimal(n).drop_last() =~= decimal(n / 10));
        assert(n == (n / 10) * 10 + n % 10);
        assert(decimal(n).last() == digit((n % 10) as nat));
        assert(digits_value(decimal(n)) == digits_value(decimal(n / 10)) * 10 + digit_value(digit((n % 10) as nat)));
        assert forall|i: int| 0 <= i < decimal(n).len() implies is_ascii_digit(#[trigger] decimal(n)[i]) by {
            if i < decimal(n / 10).len() {
                assert(decimal(n)[i] == decimal(n / 10)[i]);
            }
        }
    } else {
        lemma_digit(n);
        assert(decimal(n).drop_last() =~= Seq::<char>::empty());
        assert(decimal(n)[0] == digit(n));
        assert(digits_value(decimal(n)) == digits_value(Seq::<char>::empty()) * 10 + digit_value(digit(n)));
    }
}

proof fn lemma_digit(d: nat)
    requires
        d < 10,
    ensures
        is_ascii_digit(digit(d)),
        digit_value(digit(d)) == d,
{
}

fn digit_char(d: u64) -> (c: char)
    requires
        d < 10,
    ensures
        c == digit(d as nat),
{
    if d == 0 { '0' }
    else if d == 1 { '1' }
    else if d == 2 { '2' }
    else if d == 3 { '3' }
    else if d == 4 { '4' }
    else if d == 5 { '5' }
    else if d == 6 { '6' }
    else if d == 7 { '7' }
    else if d == 8 { '8' }
    else { '9' }
}

/// Appends the decimal numeral of `n` to `s`.
pub fn push_decimal(s: &mut String, n: u64)
    ensures
        final(s)@ == old(s)@ + decimal(n as nat),
    decreases n,
{
    if n < 10 {
        push_char(s, digit_char(n));
        assert(old(s)@.push(digit(n as nat)) =~= old(s)@ + decimal(n as nat));
    } else {
        push_decimal(s, n / 10);
        push_char(s, digit_char(n % 10));
        assert(old(s)@ + decimal((n / 10) as nat) + seq![digit((n % 10) as nat)]
            =~= old(s)@ + decimal(n as nat));
    }
}

/// The value of the decimal numeral `v[lo..hi]`, if every character there is
/// an ASCII digit and the value fits in 64 bits.
pub fn parse_decimal(v: &Vec<char>, lo: usize, hi: usize) -> (r: Option<u64>)
    requires
        lo <= hi <= v@.len(),
    ensures
        r is Some <==> all_digits(v@.subrange(lo as int, hi as int))
            && digits_value(v@.subrange(lo as int, hi as int)) <= u64::MAX,
        r matches Some(n) ==> n == digits_value(v@.subrange(lo as int, hi as int)),
{
    let mut acc: u64 = 0;
    let mut i: usize = lo;
    while i < hi
        invariant
            lo <= i <= hi <= v@.len(),
            all_digits(v@.subrange(lo as int, i as int)),
            acc == digits_value(v@.subrange(lo as int, i as int)),
        decreases hi - i,
    {
        let c = v[i];
        let ghost pre = v@.subrange(lo as int, i as int);
        let ghost next = v@.subrange(lo as int, i + 1);
        assert(next.drop_last() =~= pre);
        if !('0' <= c && c <= '9') {
            assert(!is_ascii_digit(next[next.len() - 1]));
            proof { lemma_no_digits_past(v@, lo as int, i as int, hi as int); }
            return None;
        }
        let d = (c as u32 - '0' as u32) as u64;
        if acc > (u64::MAX - d) / 10 {
            proof { lemma_value_too_big(v@, lo as int, i as int, hi as int, acc as nat, d as nat); }
            return None;
        }
        acc = acc * 10 + d;
        i = i + 1;
    }
    Some(acc)
}

proof fn lemma_no_digits_past(v: Seq<char>, lo: int, i: int, hi: int)
    requires
        0 <= lo <= i,
        i < hi,
        hi <= v.len(),
        !is_ascii_digit(v[i]),
    ensures
        !all_digits(v.subrange(lo, hi)),
{
    assert(v.subrange(lo, hi)[i - lo] == v[i]);
}

/// Digits past a prefix whose value already overflows keep the value too big.
proof fn lemma_value_too_big(v: Seq<char>, lo: int, i: int, hi: int, acc: nat, d: nat)
    requires
        0 <= lo <= i,
        i < hi,
        hi <= v.len(),
        acc == digits_value(v.subrange(lo, i)),
        d == digit_value(v[i]),
        acc > (u64::MAX - d) / 10,
        d < 10,
    ensures
        !(all_digits(v.subrange(lo, hi)) && digits_value(v.subrange(lo, hi)) <= u64::MAX),
    decreases hi - i,
{
    assert(v.subrange(lo, i + 1).drop_last() =~= v.subrange(lo, i));
    assert(acc * 10 + d > u64::MAX) by (nonlinear_arith)
        requires acc > (u64::MAX - d) / 10, d < 10;
    if all_digits(v.subrange(lo, hi)) {
        lemma_value_grows(v, lo, i + 1, hi);
    }
}

/// Appending digits never lowers the value of a numeral.
proof fn lemma_value_grows(v: Seq<char>, lo: int, i: int, hi: int)
    requires
        0 <= lo <= i,
        i <= hi,
        hi <= v.len(),
        all_digits(v.subrange(lo, hi)),
    ensures
        digits_value(v.subrange(lo, i)) <= digits_value(v.subrange(lo, hi)),
    decreases hi - i,
{
    if i < hi {
        lemma_value_grows(v, lo, i + 1, hi);
        assert(v.subrange(lo, i + 1).drop_last() =~= v.subrange(lo, i));
        let a = digits_value(v.subrange(lo, i));
        assert(a <= a * 10 + digit_value(v[i])) by (nonlinear_arith);
    }
}

/// `s` with every non-overlapping occurrence of `from`, scanned left to right,
/// replaced by `to`.
pub open spec fn replace_all(s: Seq<char>, from: Seq<char>, to: Seq<char>) -> Seq<char>
    decreases s.len(),
{
    if s.len() == 0 || from.len() == 0 {
        s
    } else if occurs_at(s, 0, from) {
        to + replace_all(s.skip(from.len() as int), from, to)
    } else {
        seq![s[0]] + replace_all(s.skip(1), from, to)
    }
}

/// `v` with every non-overlapping occurrence of `from` replaced by `to`, as
/// `str::replace` does.
pub fn replace_seq(v: &Vec<char>, from: &Vec<char>, to: &Vec<char>) -> (r: String)
    ensures
        r@ == replace_all(v@, from@, to@),
{
    let mut r = String::new();
    let mut i: usize = 0;
    if from.len() == 0 {
        push_range(&mut r, v, 0, v.len());
        assert(v@.subrange(0, v@.len() as int) =~= v@);
        return r;
    }
    assert(v@.skip(0) =~= v@);
    while i < v.len()
        invariant
            i <= v@.len(),
            from@.len() > 0,
            r@ + replace_all(v@.skip(i as int), from@, to@) == replace_all(v@, from@, to@),
        decreases v@.len() - i,
    {
        let ghost rest = v@.skip(i as int);
        if matches_at(v, i, from) {
            assert(occurs_at(rest, 0, from@)) by {
                assert(rest.subrange(0, from@.len() as int) =~= v@.subrange(i as int, i + from@.len()));
            }
            assert(rest.skip(from@.len() as int) =~= v@.skip(i + from@.len()));
            push_range(&mut r, to, 0, to.len());
            assert(to@.subrange(0, to@.len() as int) =~= to@);
            i = i + from.len();
        } else {
            assert(!occurs_at(rest, 0, from@)) by {
                if occurs_at(rest, 0, from@) {
                    assert(rest.subrange(0, from@.len() as int) =~= v@.subrange(i as int, i + from@.len()));
                }
            }
            assert(rest.skip(1) =~= v@.skip(i + 1));
            push_char(&mut r, v[i]);
            i = i + 1;
        }
        assert(r@ + replace_all(v@.skip(i as int), from@, to@) =~= replace_all(v@, from@, to@));
    }
    assert(v@.skip(i as int).len() == 0);
    assert(r@ =~= r@ + replace_all(v@.skip(i as int), from@, to@));
    r
}

} // verus!
