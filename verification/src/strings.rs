//! Character-level string predicates the classifier needs, as spec
//! functions, together with thin trusted wrappers around the std string
//! functions that decide them at run time.

use vstd::prelude::*;

verus! {

/// `pre` is a prefix of `s`.
pub open spec fn seq_is_prefix(pre: Seq<char>, s: Seq<char>) -> bool {
    pre.len() <= s.len() && s.subrange(0, pre.len() as int) == pre
}

/// `suf` is a suffix of `s`.
pub open spec fn seq_is_suffix(suf: Seq<char>, s: Seq<char>) -> bool {
    suf.len() <= s.len() && s.subrange(s.len() - suf.len(), s.len() as int) == suf
}

/// `sub` occurs contiguously somewhere in `s`.
pub open spec fn seq_contains_sub(sub: Seq<char>, s: Seq<char>) -> bool {
    exists|i: int| 0 <= i && i + sub.len() <= s.len() && #[trigger] s.subrange(i, i + sub.len())
        == sub
}

/// `s` with its leading run of `c` removed.
pub open spec fn drop_leading(s: Seq<char>, c: char) -> Seq<char>
    decreases s.len(),
{
    if s.len() > 0 && s[0] == c {
        drop_leading(s.drop_first(), c)
    } else {
        s
    }
}

/// `s` with its trailing run of `c` removed.
pub open spec fn drop_trailing(s: Seq<char>, c: char) -> Seq<char>
    decreases s.len(),
{
    if s.len() > 0 && s.last() == c {
        drop_trailing(s.drop_last(), c)
    } else {
        s
    }
}

/// `s` with both its leading and its trailing run of `c` removed.
pub open spec fn trim_char(s: Seq<char>, c: char) -> Seq<char> {
    drop_trailing(drop_leading(s, c), c)
}

/// `l` holds a string whose characters are `s`.
pub open spec fn str_list_contains(l: Seq<Seq<char>>, s: Seq<char>) -> bool {
    exists|i: int| 0 <= i < l.len() && #[trigger] l[i] == s
}

/// Whether one of the strings of `v` has exactly the characters of `s`.
pub fn string_vec_contains(v: &Vec<String>, s: &String) -> (r: bool)
    ensures
        r == str_list_contains(v.deep_view(), s@),
{
    let mut k: usize = 0;
    while k < v.len()
        invariant
            k <= v.len(),
            forall|i: int| 0 <= i < k ==> v.deep_view()[i] != s@,
        decreases v.len() - k,
    {
        if v[k] == *s {
            assert(v.deep_view()[k as int] == s@);
            return true;
        }
        assert(v.deep_view()[k as int] != s@);
        k += 1;
    }
    false
}

/// `s` with every repeated occurrence of the prefix `p` removed.
pub open spec fn drop_leading_seq(s: Seq<char>, p: Seq<char>) -> Seq<char>
    decreases s.len(),
{
    if p.len() > 0 && seq_is_prefix(p, s) {
        drop_leading_seq(s.skip(p.len() as int), p)
    } else {
        s
    }
}

/// `s` with every repeated occurrence of the suffix `p` removed.
pub open spec fn drop_trailing_seq(s: Seq<char>, p: Seq<char>) -> Seq<char>
    decreases s.len(),
{
    if p.len() > 0 && seq_is_suffix(p, s) {
        drop_trailing_seq(s.take(s.len() - p.len()), p)
    } else {
        s
    }
}

/// `s` with its leading and trailing runs of the string `p` removed.
pub open spec fn trim_seq(s: Seq<char>, p: Seq<char>) -> Seq<char> {
    drop_trailing_seq(drop_leading_seq(s, p), p)
}

/// Relies on str::trim_start_matches with a nonempty string pattern: it
/// repeatedly removes that prefix and nothing else.
#[verifier::external_body]
pub fn str_trim_prefixes(s: &str, p: &str) -> (r: String)
    requires
        p@.len() > 0,
    ensures
        r@ == drop_leading_seq(s@, p@),
{
    s.trim_start_matches(p).to_string()
}

/// Relies on str::trim_end_matches with a nonempty string pattern: it
/// repeatedly removes that suffix and nothing else.
#[verifier::external_body]
pub fn str_trim_suffixes(s: &str, p: &str) -> (r: String)
    requires
        p@.len() > 0,
    ensures
        r@ == drop_trailing_seq(s@, p@),
{
    s.trim_end_matches(p).to_string()
}

/// Relies on str's equality: two string slices are equal exactly when
/// their characters are.
#[verifier::external_body]
pub fn str_eq(a: &str, b: &str) -> (r: bool)
    ensures
        r == (a@ == b@),
{
    a == b
}

/// Relies on str::starts_with: true exactly when the argument's characters
/// begin with the pattern's characters.
#[verifier::external_body]
pub fn str_starts_with(s: &str, pre: &str) -> (r: bool)
    ensures
        r == seq_is_prefix(pre@, s@),
{
    s.starts_with(pre)
}

/// Relies on str::ends_with: true exactly when the argument's characters
/// end with the pattern's characters.
#[verifier::external_body]
pub fn str_ends_with(s: &str, suf: &str) -> (r: bool)
    ensures
        r == seq_is_suffix(suf@, s@),
{
    s.ends_with(suf)
}

/// Relies on str::contains: true exactly when the pattern's characters
/// occur contiguously in the argument.
#[verifier::external_body]
pub fn str_contains(s: &str, sub: &str) -> (r: bool)
    ensures
        r == seq_contains_sub(sub@, s@),
{
    s.contains(sub)
}

/// Relies on str::trim_matches with a char pattern: it removes every
/// leading and trailing occurrence of that character and nothing else.
#[verifier::external_body]
pub fn str_trim_char(s: &str, c: char) -> (r: String)
    ensures
        r@ == trim_char(s@, c),
{
    s.trim_matches(c).to_string()
}

} // verus!
