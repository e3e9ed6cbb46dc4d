//! Character-level string helpers.
//!
//! Everything the resolver needs from strings — equality, prefix tests,
//! searching for a separator, membership in a list, and rendering integers
//! in decimal — is implemented here over `Seq<char>` views.

use vstd::prelude::*;

verus! {

/// The wildcard token a buildpack uses to declare universal stack
/// compatibility.
pub open spec fn wildcard() -> Seq<char> {
    seq!['*']
}

/// Whether `p` is a prefix of `s`.
pub open spec fn starts_with_s(s: Seq<char>, p: Seq<char>) -> bool {
    p.len() <= s.len() && s.take(p.len() as int) == p
}

/// The index of the first occurrence of `c` in `s`, if any.
pub open spec fn index_of_first(s: Seq<char>, c: char) -> Option<int>
    decreases s.len(),
{
    if s.len() == 0 {
        None
    } else if s[0] == c {
        Some(0int)
    } else {
        match index_of_first(s.drop_first(), c) {
            Some(i) => Some(i + 1),
            None => None,
        }
    }
}

/// `index_of_first` finds exactly the first occurrence: a hit is in range,
/// holds `c`, and nothing before it does; a miss means `c` never occurs.
pub proof fn lemma_index_of_first(s: Seq<char>, c: char)
    ensures
        match index_of_first(s, c) {
            Some(i) => 0 <= i < s.len() && s[i] == c && forall|j: int| 0 <= j < i ==> s[j] != c,
            None => forall|j: int| 0 <= j < s.len() ==> s[j] != c,
        },
    decreases s.len(),
{
    if s.len() > 0 && s[0] != c {
        lemma_index_of_first(s.drop_first(), c);
        assert(forall|j: int| 1 <= j < s.len() ==> s[j] == s.drop_first()[j - 1]);
    }
}

/// String equality, decided character by character.
pub fn str_eq(a: &str, b: &str) -> (r: bool)
    ensures
        r == (a@ == b@),
{
    let alen = a.unicode_len();
    let blen = b.unicode_len();
    if alen != blen {
        return false;
    }
    let mut i: usize = 0;
    while i < alen
        invariant
            alen == a@.len(),
            alen == b@.len(),
            i <= alen,
            forall|j: int| 0 <= j < i ==> a@[j] == b@[j],
        decreases alen - i,
    {
        if a.get_char(i) != b.get_char(i) {
            return false;
        }
        i = i + 1;
    }
    proof {
        assert(a@ =~= b@);
    }
    true
}

/// Prefix test, decided character by character.
pub fn str_starts_with(s: &str, p: &str) -> (r: bool)
    ensures
        r == starts_with_s(s@, p@),
{
    let slen = s.unicode_len();
    let plen = p.unicode_len();
    if plen > slen {
        return false;
    }
    let mut i: usize = 0;
    while i < plen
        invariant
            slen == s@.len(),
            plen == p@.len(),
            plen <= slen,
            i <= plen,
            forall|j: int| 0 <= j < i ==> s@[j] == p@[j],
        decreases plen - i,
    {
        if s.get_char(i) != p.get_char(i) {
            proof {
                assert(s@.take(p@.len() as int)[i as int] != p@[i as int]);
            }
            return false;
        }
        i = i + 1;
    }
    proof {
        assert(s@.take(p@.len() as int) =~= p@);
    }
    true
}

/// The index of the first occurrence of `c` in `s`, if any.
pub fn find_char(s: &str, c: char) -> (r: Option<usize>)
    ensures
        match r {
            Some(i) => Some(i as int) == index_of_first(s@, c),
            None => index_of_first(s@, c) is None,
        },
{
    proof {
        lemma_index_of_first(s@, c);
    }
    let len = s.unicode_len();
    let mut i: usize = 0;
    while i < len
        invariant
            len == s@.len(),
            i <= len,
            forall|j: int| 0 <= j < i ==> s@[j] != c,
        decreases len - i,
    {
        if s.get_char(i) == c {
            proof {
                lemma_first_occurrence_is_index_of_first(s@, c, i as int);
            }
            return Some(i);
        }
        i = i + 1;
    }
    None
}

/// A position that holds `c`, with nothing before it holding `c`, is what
/// `index_of_first` returns.
pub proof fn lemma_first_occurrence_is_index_of_first(s: Seq<char>, c: char, i: int)
    requires
        0 <= i < s.len(),
        s[i] == c,
        forall|j: int| 0 <= j < i ==> s[j] != c,
    ensures
        index_of_first(s, c) == Some(i),
    decreases s.len(),
{
    if i > 0 {
        lemma_first_occurrence_is_index_of_first(s.drop_first(), c, i - 1);
    }
}

/// Whether one of the strings in `ss` is exactly `t`.
pub open spec fn seq_has_string(ss: Seq<Seq<char>>, t: Seq<char>) -> bool {
    exists|i: int| 0 <= i < ss.len() && ss[i] == t
}

/// Membership of `s` in the list `v`, decided by character comparison.
pub fn list_contains_str(v: &Vec<String>, s: &str) -> (r: bool)
    ensures
        r == seq_has_string(v.deep_view(), s@),
{
    let mut i: usize = 0;
    while i < v.len()
        invariant
            i <= v.len(),
            v.deep_view().len() == v.len(),
            forall|j: int| 0 <= j < i ==> v.deep_view()[j] != s@,
        decreases v.len() - i,
    {
        assert(v.deep_view()[i as int] == v[i as int]@);
        if str_eq(v[i].as_str(), s) {
            return true;
        }
        i = i + 1;
    }
    false
}

/// Whether `s` is the wildcard token.
pub fn is_wildcard_str(s: &str) -> (r: bool)
    ensures
        r == (s@ == wildcard()),
{
    if s.unicode_len() != 1 {
        proof {
            assert(wildcard().len() == 1);
        }
        return false;
    }
    let c = s.get_char(0);
    proof {
        if c == '*' {
            assert(s@ =~= wildcard());
        } else {
            assert(s@ != wildcard());
        }
    }
    c == '*'
}

/// Whether the stack list `ss` declares universal compatibility.
pub open spec fn has_wildcard(ss: Seq<Seq<char>>) -> bool {
    seq_has_string(ss, wildcard())
}

/// Whether one of the strings in `v` is the wildcard token.
pub fn list_has_wildcard(v: &Vec<String>) -> (r: bool)
    ensures
        r == has_wildcard(v.deep_view()),
{
    let mut i: usize = 0;
    while i < v.len()
        invariant
            i <= v.len(),
            v.deep_view().len() == v.len(),
            forall|j: int| 0 <= j < i ==> v.deep_view()[j] != wildcard(),
        decreases v.len() - i,
    {
        assert(v.deep_view()[i as int] == v[i as int]@);
        if is_wildcard_str(v[i].as_str()) {
            return true;
        }
        i = i + 1;
    }
    false
}

/// The decimal digit character for `d`.
pub open spec fn digit_char(d: int) -> char {
    if d == 0 {
        '0'
    } else if d == 1 {
        '1'
    } else if d == 2 {
        '2'
    } else if d == 3 {
        '3'
    } else if d == 4 {
        '4'
    } else if d == 5 {
        '5'
    } else if d == 6 {
        '6'
    } else if d == 7 {
        '7'
    } else if d == 8 {
        '8'
    } else {
        '9'
    }
}

/// The decimal rendering of the non-negative integer `n`.
pub open spec fn dec_u(n: int) -> Seq<char>
    decreases n,
{
    if n < 10 {
        seq![digit_char(n)]
    } else {
        dec_u(n / 10) + seq![digit_char(n % 10)]
    }
}

/// The decimal rendering of `n`, with a leading minus sign when negative.
pub open spec fn dec_i(n: int) -> Seq<char> {
    if n < 0 {
        seq!['-'] + dec_u(-n)
    } else {
        dec_u(n)
    }
}

/// The single-character string for the decimal digit `d`.
fn digit_str(d: u64) -> (r: &'static str)
    requires
        d < 10,
    ensures
        r@ == seq![digit_char(d as int)],
{
    proof {
        reveal_strlit("0");
        reveal_strlit("1");
        reveal_strlit("2");
        reveal_strlit("3");
        reveal_strlit("4");
        reveal_strlit("5");
        reveal_strlit("6");
        reveal_strlit("7");
        reveal_strlit("8");
        reveal_strlit("9");
    }
    let r: &'static str = if d == 0 {
        "0"
    } else if d == 1 {
        "1"
    } else if d == 2 {
        "2"
    } else if d == 3 {
        "3"
    } else if d == 4 {
        "4"
    } else if d == 5 {
        "5"
    } else if d == 6 {
        "6"
    } else if d == 7 {
        "7"
    } else if d == 8 {
        "8"
    } else {
        "9"
    };
    proof {
        assert(r@ =~= seq![digit_char(d as int)]);
    }
    r
}

/// Appends the decimal rendering of `n` to `out`.
fn push_decimal(n: u64, out: &mut String)
    ensures
        final(out)@ == old(out)@ + dec_u(n as int),
    decreases n,
{
    if n >= 10 {
        push_decimal(n / 10, out);
    }
    out.append(digit_str(n % 10));
}

/// Renders `n` in decimal.
pub fn u64_to_string(n: u64) -> (r: String)
    ensures
        r@ == dec_u(n as int),
{
    let mut out = String::new();
    push_decimal(n, &mut out);
    proof {
        assert(out@ =~= dec_u(n as int));
    }
    out
}

/// Renders `n` in decimal, with a leading minus sign when negative.
pub fn i64_to_string(n: i64) -> (r: String)
    ensures
        r@ == dec_i(n as int),
{
    proof {
        reveal_strlit("-");
    }
    if n >= 0 {
        u64_to_string(n as u64)
    } else {
        let mag: u64 = if n == i64::MIN {
            9223372036854775808u64
        } else {
            (-n) as u64
        };
        assert(mag as int == -(n as int));
        let mut out = String::from_str("-");
        assert(out@ =~= seq!['-']);
        push_decimal(mag, &mut out);
        out
    }
}

} // verus!
