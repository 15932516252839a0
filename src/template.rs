//! Substitution of `{name}` placeholders in message templates.
use vstd::prelude::*;
use vstd::string::*;

verus! {

/// `s` with every occurrence of the non-empty `pat` replaced by `rep`,
/// scanning left to right, occurrences not overlapping.
pub open spec fn replace_all(s: Seq<char>, pat: Seq<char>, rep: Seq<char>) -> Seq<char>
    decreases s.len(),
{
    if s.len() == 0 || pat.len() == 0 {
        s
    } else if pat.len() <= s.len() && s.subrange(0, pat.len() as int) == pat {
        rep + replace_all(s.subrange(pat.len() as int, s.len() as int), pat, rep)
    } else {
        seq![s[0]] + replace_all(s.subrange(1, s.len() as int), pat, rep)
    }
}

/// The placeholder token of a parameter: its name in braces.
pub open spec fn token(name: Seq<char>) -> Seq<char> {
    seq!['{'] + name + seq!['}']
}

/// `template` after each `(name, value)` parameter, in order, has replaced
/// every `{name}` with `value`.
pub open spec fn substitute(template: Seq<char>, params: Seq<(Seq<char>, Seq<char>)>) -> Seq<char>
    decreases params.len(),
{
    if params.len() == 0 {
        template
    } else {
        let p = params.last();
        replace_all(substitute(template, params.drop_last()), token(p.0), p.1)
    }
}

/// Whether `pat` occurs in `s` starting at `at`.
fn occurs_at(s: &str, n: usize, at: usize, pat: &str, m: usize) -> (r: bool)
    requires
        n == s@.len(),
        m == pat@.len(),
        at <= n,
    ensures
        r == (at + m <= n && s@.subrange(at as int, at + m) == pat@),
{
    if m > n - at {
        return false;
    }
    let mut k: usize = 0;
    while k < m
        invariant
            at + m <= n,
            n == s@.len(),
            m == pat@.len(),
            k <= m,
            forall|j: int| 0 <= j < k ==> s@[at + j] == pat@[j],
        decreases m - k,
    {
        if s.get_char(at + k) != pat.get_char(k) {
            assert(s@.subrange(at as int, at + m)[k as int] != pat@[k as int]);
            return false;
        }
        k += 1;
    }
    assert(s@.subrange(at as int, at + m) =~= pat@);
    true
}

/// Replaces every occurrence of `pat` in `s` with `rep`, left to right.
pub fn replace(s: &str, pat: &str, rep: &str) -> (r: String)
    requires
        pat@.len() > 0,
    ensures
        r@ == replace_all(s@, pat@, rep@),
{
    let n = s.unicode_len();
    let m = pat.unicode_len();
    let mut out = String::new();
    let mut i: usize = 0;
    assert(s@.subrange(0, n as int) =~= s@);
    assert(out@ + s@ =~= s@);
    while i < n
        invariant
            n == s@.len(),
            m == pat@.len(),
            m > 0,
            i <= n,
            out@ + replace_all(s@.subrange(i as int, n as int), pat@, rep@) == replace_all(s@, pat@, rep@),
        decreases n - i,
    {
        let ghost rest = s@.subrange(i as int, n as int);
        if occurs_at(s, n, i, pat, m) {
            assert(rest.subrange(0, m as int) =~= s@.subrange(i as int, i + m));
            assert(rest.subrange(m as int, rest.len() as int) =~= s@.subrange(i + m, n as int));
            let ghost prev = out@;
            out.append(rep);
            assert(out@ + replace_all(s@.subrange(i + m, n as int), pat@, rep@) =~= prev + replace_all(rest, pat@, rep@));
            i = i + m;
        } else {
            assert(m <= rest.len() ==> rest.subrange(0, m as int) =~= s@.subrange(i as int, i + m));
            assert(rest.subrange(1, rest.len() as int) =~= s@.subrange(i + 1, n as int));
            let c = s.substring_char(i, i + 1);
            assert(c@ =~= seq![rest[0]]);
            let ghost prev = out@;
            out.append(c);
            assert(out@ + replace_all(s@.subrange(i + 1, n as int), pat@, rep@) =~= prev + replace_all(rest, pat@, rep@));
            i = i + 1;
        }
    }
    assert(s@.subrange(n as int, n as int) =~= Seq::<char>::empty());
    assert(out@ + Seq::<char>::empty() =~= out@);
    out
}

} // verus!
