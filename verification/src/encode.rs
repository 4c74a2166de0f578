//! The identifier encoder: maps an arbitrary variable name from the script
//! onto a C identifier that is safe to emit.
//!
//! An ASCII letter is copied verbatim; any other character becomes `_`, the
//! hexadecimal digits of its code point with the least significant nibble
//! first (so the digits stand in reverse of the usual positional order, and a
//! code point of zero contributes no digits at all), and a closing `_`. The
//! reversed digit order is kept deliberately: it is the encoding the scripts
//! already depend on, and [`lemma_encode_injective`] shows that it is
//! collision-free, so nothing is gained by normalizing it.

use vstd::prelude::*;
use vstd::string::StrSliceExecFns;
use vstd::string::StringExecFns;
use crate::text::is_ascii_letter;
use crate::text::ascii_letter_char;
use crate::text::push_char;

verus! {

/// The hexadecimal digit character for `d`, which must lie below sixteen.
pub open spec fn hex_digit(d: int) -> char {
    if d == 0 {
        '0'
    } else if d == 1 {
        '1'
    } else if d == 2 {
        '2'
    } else if d == 3 {
        '3'
    } else if d == 4 {
        '4'
    } else if d == 5 {
        '5'
    } else if d == 6 {
        '6'
    } else if d == 7 {
        '7'
    } else if d == 8 {
        '8'
    } else if d == 9 {
        '9'
    } else if d == 10 {
        'A'
    } else if d == 11 {
        'B'
    } else if d == 12 {
        'C'
    } else if d == 13 {
        'D'
    } else if d == 14 {
        'E'
    } else {
        'F'
    }
}

/// The hexadecimal digits of `n`, least significant nibble first, with no
/// digits at all for zero.
pub open spec fn rev_hex(n: nat) -> Seq<char>
    decreases n,
{
    if n == 0 {
        Seq::empty()
    } else {
        seq![hex_digit((n % 16) as int)] + rev_hex(n / 16)
    }
}

/// The encoding of one script character: a letter stands for itself, anything
/// else becomes `_`, its code point's reversed hex digits, and `_`.
pub open spec fn encode_char(c: char) -> Seq<char> {
    if is_ascii_letter(c) {
        seq![c]
    } else {
        seq!['_'] + rev_hex((c as u32) as nat) + seq!['_']
    }
}

pub open spec fn encode_chars(s: Seq<char>) -> Seq<char>
    decreases s.len(),
{
    if s.len() == 0 {
        Seq::empty()
    } else {
        encode_char(s[0]) + encode_chars(s.skip(1))
    }
}

/// The full encoding of a variable name: the prefix `var_` followed by the
/// encoding of each character in order.
pub open spec fn encode_name(s: Seq<char>) -> Seq<char> {
    seq!['v', 'a', 'r', '_'] + encode_chars(s)
}

proof fn lemma_encode_chars_snoc(t: Seq<char>, c: char)
    ensures
        encode_chars(t.push(c)) == encode_chars(t) + encode_char(c),
    decreases t.len(),
{
    if t.len() == 0 {
        assert(t.push(c)[0] == c);
        assert(t.push(c).skip(1) =~= Seq::<char>::empty());
        assert(encode_chars(t.push(c)) == encode_char(c) + encode_chars(Seq::<char>::empty()));
        assert(encode_chars(Seq::<char>::empty()) == Seq::<char>::empty());
        assert(encode_chars(t) == Seq::<char>::empty());
        assert(encode_chars(t.push(c)) =~= encode_chars(t) + encode_char(c));
    } else {
        assert(t.push(c).skip(1) =~= t.skip(1).push(c));
        lemma_encode_chars_snoc(t.skip(1), c);
        assert(encode_chars(t.push(c)) =~= encode_chars(t) + encode_char(c));
    }
}

fn hex_digit_char(d: u32) -> (c: char)
    requires
        d < 16,
    ensures
        c == hex_digit(d as int),
{
    match d {
        0 => '0',
        1 => '1',
        2 => '2',
        3 => '3',
        4 => '4',
        5 => '5',
        6 => '6',
        7 => '7',
        8 => '8',
        9 => '9',
        10 => 'A',
        11 => 'B',
        12 => 'C',
        13 => 'D',
        14 => 'E',
        _ => 'F',
    }
}

/// Encode a raw variable name as a safe C identifier.
pub fn encode_var(s: &str) -> (r: String)
    ensures
        r@ == encode_name(s@),
{
    let mut r = String::from_str("var_");
    proof {
        reveal_strlit("var_");
        assert(r@ =~= seq!['v', 'a', 'r', '_']);
    }
    let n = s.unicode_len();
    let mut i: usize = 0;
    while i < n
        invariant
            0 <= i <= n,
            n == s@.len(),
            r@ == seq!['v', 'a', 'r', '_'] + encode_chars(s@.take(i as int)),
        decreases n - i,
    {
        let c = s.get_char(i);
        if ascii_letter_char(c) {
            push_char(&mut r, c);
        } else {
            push_char(&mut r, '_');
            let mut hex: u32 = c as u32;
            let ghost base = r@;
            while hex != 0
                invariant
                    r@ + rev_hex(hex as nat) == base + rev_hex((c as u32) as nat),
                decreases hex,
            {
                let low = hex & 15;
                assert(low == hex as nat % 16 && hex / 16 == hex as nat / 16 && low < 16)
                    by (bit_vector)
                    requires low == hex & 15;
                push_char(&mut r, hex_digit_char(low));
                proof {
                    assert(rev_hex(hex as nat) =~= seq![hex_digit((hex as nat % 16) as int)]
                        + rev_hex(hex as nat / 16));
                }
                hex = hex / 16;
            }
            push_char(&mut r, '_');
            proof {
                assert(r@ =~= base + rev_hex((c as u32) as nat) + seq!['_']);
            }
        }
        proof {
            lemma_encode_chars_snoc(s@.take(i as int), s@[i as int]);
            assert(s@.take(i as int).push(s@[i as int]) =~= s@.take(i + 1));
            assert(r@ =~= seq!['v', 'a', 'r', '_'] + encode_chars(s@.take(i + 1)));
        }
        i = i + 1;
    }
    proof {
        assert(s@.take(n as int) =~= s@);
    }
    r
}

/// For a name made of ASCII letters alone, the encoding is just the name with
/// the prefix `var_` in front.
pub proof fn lemma_encode_ascii_letters(name: Seq<char>)
    requires
        forall|i: int| 0 <= i < name.len() ==> is_ascii_letter(name[i]),
    ensures
        encode_name(name) == seq!['v', 'a', 'r', '_'] + name,
{
    lemma_encode_letters_chars(name);
}

proof fn lemma_encode_letters_chars(name: Seq<char>)
    requires
        forall|i: int| 0 <= i < name.len() ==> is_ascii_letter(name[i]),
    ensures
        encode_chars(name) == name,
    decreases name.len(),
{
    if name.len() > 0 {
        assert(forall|i: int| 0 <= i < name.skip(1).len() ==> is_ascii_letter(
            #[trigger] name.skip(1)[i],
        )) by {
            assert(forall|i: int| 0 <= i < name.skip(1).len() ==> name.skip(1)[i] == name[i + 1]);
        }
        lemma_encode_letters_chars(name.skip(1));
        assert(encode_chars(name) =~= name);
    }
}

proof fn lemma_concat_cancel_left(u: Seq<char>, x: Seq<char>, y: Seq<char>)
    requires
        u + x == u + y,
    ensures
        x == y,
{
    assert((u + x).len() == u.len() + x.len());
    assert((u + y).len() == u.len() + y.len());
    assert(x.len() == y.len());
    assert forall|i: int| 0 <= i < x.len() implies x[i] == y[i] by {
        assert((u + x)[u.len() + i] == x[i]);
        assert((u + y)[u.len() + i] == y[i]);
    }
    assert(x =~= y);
}

/// Two texts free of `sep`, each followed by `sep` and a remainder, can only
/// concatenate to the same sequence part for part.
proof fn lemma_sep_split(u: Seq<char>, x: Seq<char>, v: Seq<char>, y: Seq<char>, sep: char)
    requires
        u + seq![sep] + x == v + seq![sep] + y,
        forall|i: int| 0 <= i < u.len() ==> u[i] != sep,
        forall|i: int| 0 <= i < v.len() ==> v[i] != sep,
    ensures
        u == v,
        x == y,
{
    let l = u + seq![sep] + x;
    let r = v + seq![sep] + y;
    assert(l.len() == u.len() + 1 + x.len());
    assert(r.len() == v.len() + 1 + y.len());
    if u.len() < v.len() {
        assert(l[u.len() as int] == sep);
        assert(r[u.len() as int] == v[u.len() as int]);
        assert(false);
    }
    if v.len() < u.len() {
        assert(r[v.len() as int] == sep);
        assert(l[v.len() as int] == u[v.len() as int]);
        assert(false);
    }
    assert forall|i: int| 0 <= i < u.len() implies u[i] == v[i] by {
        assert(l[i] == u[i]);
        assert(r[i] == v[i]);
    }
    assert(u =~= v);
    assert(x.len() == y.len());
    assert forall|i: int| 0 <= i < x.len() implies x[i] == y[i] by {
        assert(l[u.len() + 1 + i] == x[i]);
        assert(r[v.len() + 1 + i] == y[i]);
    }
    assert(x =~= y);
}

proof fn lemma_rev_hex_no_underscore(n: nat)
    ensures
        forall|i: int| 0 <= i < rev_hex(n).len() ==> rev_hex(n)[i] != '_',
    decreases n,
{
    if n != 0 {
        lemma_rev_hex_no_underscore(n / 16);
        assert forall|i: int| 0 <= i < rev_hex(n).len() implies rev_hex(n)[i] != '_' by {
            if i == 0 {
                assert(rev_hex(n)[0] == hex_digit((n % 16) as int));
            } else {
                assert(rev_hex(n)[i] == rev_hex(n / 16)[i - 1]);
            }
        }
    }
}

proof fn lemma_rev_hex_injective(m: nat, n: nat)
    requires
        rev_hex(m) == rev_hex(n),
    ensures
        m == n,
    decreases m,
{
    if m == 0 && n == 0 {
    } else if m == 0 {
        assert(rev_hex(n).len() >= 1);
        assert(false);
    } else if n == 0 {
        assert(rev_hex(m).len() >= 1);
        assert(false);
    } else {
        assert(rev_hex(m)[0] == hex_digit((m % 16) as int));
        assert(rev_hex(n)[0] == hex_digit((n % 16) as int));
        assert(m % 16 == n % 16);
        lemma_concat_cancel_left(
            seq![hex_digit((m % 16) as int)],
            rev_hex(m / 16),
            rev_hex(n / 16),
        );
        lemma_rev_hex_injective(m / 16, n / 16);
    }
}

proof fn lemma_encode_chars_injective(a: Seq<char>, b: Seq<char>)
    requires
        encode_chars(a) == encode_chars(b),
    ensures
        a == b,
    decreases a.len(),
{
    if a.len() == 0 && b.len() == 0 {
        assert(a =~= b);
    } else if a.len() == 0 {
        assert(encode_chars(b).len() >= encode_char(b[0]).len());
        assert(false);
    } else if b.len() == 0 {
        assert(encode_chars(a).len() >= encode_char(a[0]).len());
        assert(false);
    } else {
        let ca = a[0];
        let cb = b[0];
        assert(encode_chars(a)[0] == encode_char(ca)[0]);
        assert(encode_chars(b)[0] == encode_char(cb)[0]);
        if is_ascii_letter(ca) && is_ascii_letter(cb) {
            assert(encode_char(ca)[0] == ca && encode_char(cb)[0] == cb);
            assert(ca == cb);
            lemma_concat_cancel_left(seq![ca], encode_chars(a.skip(1)), encode_chars(b.skip(1)));
            lemma_encode_chars_injective(a.skip(1), b.skip(1));
            assert(a.skip(1).len() == b.skip(1).len());
            assert(a.len() == b.len());
            assert forall|i: int| 0 <= i < a.len() implies a[i] == b[i] by {
                if i > 0 {
                    assert(a.skip(1)[i - 1] == a[i]);
                    assert(b.skip(1)[i - 1] == b[i]);
                }
            }
            assert(a =~= b);
        } else if !is_ascii_letter(ca) && !is_ascii_letter(cb) {
            let na = (ca as u32) as nat;
            let nb = (cb as u32) as nat;
            assert(encode_chars(a) =~= seq!['_'] + (rev_hex(na) + seq!['_'] + encode_chars(
                a.skip(1),
            )));
            assert(encode_chars(b) =~= seq!['_'] + (rev_hex(nb) + seq!['_'] + encode_chars(
                b.skip(1),
            )));
            lemma_concat_cancel_left(
                seq!['_'],
                rev_hex(na) + seq!['_'] + encode_chars(a.skip(1)),
                rev_hex(nb) + seq!['_'] + encode_chars(b.skip(1)),
            );
            lemma_rev_hex_no_underscore(na);
            lemma_rev_hex_no_underscore(nb);
            lemma_sep_split(
                rev_hex(na),
                encode_chars(a.skip(1)),
                rev_hex(nb),
                encode_chars(b.skip(1)),
                '_',
            );
            lemma_rev_hex_injective(na, nb);
            assert(ca as u32 == cb as u32);
            vstd::utf8::char_u32_cast(ca, ca as u32);
            vstd::utf8::char_u32_cast(cb, cb as u32);
            assert(ca == cb);
            lemma_encode_chars_injective(a.skip(1), b.skip(1));
            assert(a.skip(1).len() == b.skip(1).len());
            assert(a.len() == b.len());
            assert forall|i: int| 0 <= i < a.len() implies a[i] == b[i] by {
                if i > 0 {
                    assert(a.skip(1)[i - 1] == a[i]);
                    assert(b.skip(1)[i - 1] == b[i]);
                }
            }
            assert(a =~= b);
        } else {
            if is_ascii_letter(ca) {
                assert(encode_char(ca)[0] == ca);
                assert(encode_char(cb)[0] == '_');
                assert(false);
            } else {
                assert(encode_char(ca)[0] == '_');
                assert(encode_char(cb)[0] == cb);
                assert(false);
            }
        }
    }
}

/// The encoding never collides: distinct variable names, over the whole
/// range of characters a script can contain, have distinct encodings.
pub proof fn lemma_encode_injective(a: Seq<char>, b: Seq<char>)
    requires
        encode_name(a) == encode_name(b),
    ensures
        a == b,
{
    lemma_concat_cancel_left(seq!['v', 'a', 'r', '_'], encode_chars(a), encode_chars(b));
    lemma_encode_chars_injective(a, b);
}

} // verus!
