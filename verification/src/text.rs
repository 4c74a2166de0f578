//! Character classes and small text utilities shared by the parser and the
//! code generator: whitespace trimming, first-occurrence search, and decimal
//! rendering of numbers.

use vstd::prelude::*;
use vstd::string::StrSliceExecFns;

verus! {

/// The whitespace characters trimmed from destination and function tokens.
/// This library trims exactly the ASCII whitespace characters.
pub open spec fn is_space(c: char) -> bool {
    c == ' ' || c == '\t' || c == '\r' || c == '\n' || c == '\u{b}' || c == '\u{c}'
}

pub open spec fn is_ascii_letter(c: char) -> bool {
    ('a' <= c && c <= 'z') || ('A' <= c && c <= 'Z')
}

pub fn space_char(c: char) -> (b: bool)
    ensures
        b == is_space(c),
{
    c == ' ' || c == '\t' || c == '\r' || c == '\n' || c == '\u{b}' || c == '\u{c}'
}

pub fn ascii_letter_char(c: char) -> (b: bool)
    ensures
        b == is_ascii_letter(c),
{
    ('a' <= c && c <= 'z') || ('A' <= c && c <= 'Z')
}

/// Relies on `String::push`: appends the given `char` to the end of the string.
#[verifier::external_body]
pub fn push_char(s: &mut String, c: char)
    ensures
        final(s)@ == old(s)@ + seq![c],
{
    s.push(c)
}

/// Index of the first occurrence of `d` in `s`, or `s.len()` if `d` does not
/// occur.
pub open spec fn find_from(s: Seq<char>, d: char) -> int
    decreases s.len(),
{
    if s.len() == 0 {
        0
    } else if s[0] == d {
        0
    } else {
        1 + find_from(s.skip(1), d)
    }
}

pub proof fn lemma_find_from(s: Seq<char>, d: char)
    ensures
        0 <= find_from(s, d) <= s.len(),
        find_from(s, d) < s.len() ==> s[find_from(s, d)] == d,
        forall|k: int| 0 <= k < find_from(s, d) ==> s[k] != d,
    decreases s.len(),
{
    if s.len() != 0 && s[0] != d {
        lemma_find_from(s.skip(1), d);
        assert forall|k: int| 0 <= k < find_from(s, d) implies s[k] != d by {
            if k > 0 {
                assert(s.skip(1)[k - 1] == s[k]);
            }
        }
    }
}

pub fn find_char(s: &str, d: char) -> (i: usize)
    ensures
        i == find_from(s@, d),
{
    proof {
        lemma_find_from(s@, d);
    }
    let n = s.unicode_len();
    let mut i: usize = 0;
    while i < n
        invariant
            0 <= i <= n,
            n == s@.len(),
            forall|k: int| 0 <= k < i ==> s@[k] != d,
            0 <= find_from(s@, d) <= s@.len(),
            find_from(s@, d) < s@.len() ==> s@[find_from(s@, d)] == d,
            forall|k: int| 0 <= k < find_from(s@, d) ==> s@[k] != d,
        decreases n - i,
    {
        if s.get_char(i) == d {
            return i;
        }
        i = i + 1;
    }
    i
}

/// `s` with leading space characters removed.
pub open spec fn trim_start(s: Seq<char>) -> Seq<char>
    decreases s.len(),
{
    if s.len() > 0 && is_space(s[0]) {
        trim_start(s.skip(1))
    } else {
        s
    }
}

/// `s` with trailing space characters removed.
pub open spec fn trim_end(s: Seq<char>) -> Seq<char>
    decreases s.len(),
{
    if s.len() > 0 && is_space(s[s.len() - 1]) {
        trim_end(s.take(s.len() - 1))
    } else {
        s
    }
}

/// `s` with surrounding space characters removed.
pub open spec fn trim_spec(s: Seq<char>) -> Seq<char> {
    trim_end(trim_start(s))
}

pub fn trim_str<'a>(s: &'a str) -> (r: &'a str)
    ensures
        r@ == trim_spec(s@),
{
    let mut t: &str = s;
    while t.unicode_len() > 0 && space_char(t.get_char(0))
        invariant
            trim_start(t@) == trim_start(s@),
        decreases t@.len(),
    {
        let n = t.unicode_len();
        let t2 = t.substring_char(1, n);
        proof {
            assert(t2@ =~= t@.skip(1));
        }
        t = t2;
    }
    assert(t@ == trim_start(s@));
    while t.unicode_len() > 0 && space_char(t.get_char(t.unicode_len() - 1))
        invariant
            trim_end(t@) == trim_end(trim_start(s@)),
        decreases t@.len(),
    {
        let n = t.unicode_len();
        let t2 = t.substring_char(0, n - 1);
        proof {
            assert(t2@ =~= t@.take(t@.len() - 1));
        }
        t = t2;
    }
    t
}

/// The decimal digit character for `d`, which must lie below ten.
pub open spec fn dec_digit(d: int) -> char {
    if d == 0 {
        '0'
    } else if d == 1 {
        '1'
    } else if d == 2 {
        '2'
    } else if d == 3 {
        '3'
    } else if d == 4 {
        '4'
    } else if d == 5 {
        '5'
    } else if d == 6 {
        '6'
    } else if d == 7 {
        '7'
    } else if d == 8 {
        '8'
    } else {
        '9'
    }
}

/// The ordinary decimal rendering of `n`, most significant digit first.
pub open spec fn dec_str(n: nat) -> Seq<char>
    decreases n,
{
    if n < 10 {
        seq![dec_digit(n as int)]
    } else {
        dec_str(n / 10) + seq![dec_digit((n % 10) as int)]
    }
}

fn dec_digit_char(d: usize) -> (c: char)
    requires
        d < 10,
    ensures
        c == dec_digit(d as int),
{
    match d {
        0 => '0',
        1 => '1',
        2 => '2',
        3 => '3',
        4 => '4',
        5 => '5',
        6 => '6',
        7 => '7',
        8 => '8',
        _ => '9',
    }
}

pub fn usize_to_string(n: usize) -> (r: String)
    ensures
        r@ == dec_str(n as nat),
    decreases n,
{
    if n < 10 {
        let mut r = String::new();
        push_char(&mut r, dec_digit_char(n));
        proof {
            assert(r@ =~= dec_str(n as nat));
        }
        r
    } else {
        let mut r = usize_to_string(n / 10);
        push_char(&mut r, dec_digit_char(n % 10));
        r
    }
}

} // verus!
