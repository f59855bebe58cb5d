//! Base-10 ASCII numerals: the grammar, their value, and the canonical
//! numeral of a number.

use vstd::prelude::*;
use vstd::utf8::is_ascii_chars;

verus! {

pub open spec fn is_digit(c: char) -> bool {
    '0' <= c && c <= '9'
}

pub open spec fn digit_value(c: char) -> nat {
    (c as nat - '0' as nat) as nat
}

pub open spec fn digit_char(d: nat) -> char {
    (d + '0' as nat) as char
}

/// A non-empty string of ASCII digits, with no sign and no exponent.
pub open spec fn is_decimal(s: Seq<char>) -> bool {
    s.len() > 0 && forall|i: int| 0 <= i < s.len() ==> is_digit(#[trigger] s[i])
}

/// The number that a string of digits denotes, most significant digit first.
pub open spec fn decimal_value(s: Seq<char>) -> nat
    decreases s.len(),
{
    if s.len() == 0 {
        0
    } else {
        decimal_value(s.drop_last()) * 10 + digit_value(s.last())
    }
}

/// The numeral of `n` without leading zeros ("0" for zero).
pub open spec fn decimal_string(n: nat) -> Seq<char>
    decreases n,
{
    if n < 10 {
        seq![digit_char(n)]
    } else {
        decimal_string(n / 10).push(digit_char(n % 10))
    }
}

/// A numeral in canonical form: no leading zero unless it is "0" itself.
pub open spec fn is_canonical_decimal(s: Seq<char>) -> bool {
    is_decimal(s) && (s.len() == 1 || s[0] != '0')
}

/// The number that a sequence of bytes denotes, most significant byte first.
pub open spec fn be_value(b: Seq<u8>) -> nat
    decreases b.len(),
{
    if b.len() == 0 {
        0
    } else {
        be_value(b.drop_last()) * 256 + b.last() as nat
    }
}

proof fn lemma_digit_round_trip(d: nat)
    requires
        d < 10,
    ensures
        is_digit(digit_char(d)),
        digit_value(digit_char(d)) == d,
        d > 0 ==> digit_char(d) != '0',
{
}

proof fn lemma_char_round_trip(c: char)
    requires
        is_digit(c),
    ensures
        digit_value(c) < 10,
        digit_char(digit_value(c)) == c,
{
}

/// The canonical numeral of `n` is a canonical numeral, and denotes `n`.
pub proof fn lemma_decimal_string_value(n: nat)
    ensures
        is_canonical_decimal(decimal_string(n)),
        decimal_value(decimal_string(n)) == n,
        n > 0 ==> decimal_string(n)[0] != '0',
    decreases n,
{
    if n < 10 {
        lemma_digit_round_trip(n);
        let s = decimal_string(n);
        assert(s.drop_last() =~= seq![]);
        assert(decimal_value(s.drop_last()) == 0);
    } else {
        lemma_decimal_string_value(n / 10);
        lemma_digit_round_trip(n % 10);
        let t = decimal_string(n / 10);
        let s = decimal_string(n);
        assert(s == t.push(digit_char(n % 10)));
        assert(s.drop_last() =~= t);
        assert(s[0] == t[0]);
        assert forall|i: int| 0 <= i < s.len() implies is_digit(#[trigger] s[i]) by {
            if i < t.len() {
                assert(s[i] == t[i]);
            }
        }
    }
}

proof fn lemma_zero_value_all_zero(s: Seq<char>)
    requires
        is_decimal(s),
        decimal_value(s) == 0,
    ensures
        s[0] == '0',
    decreases s.len(),
{
    let d = s.last();
    assert(is_digit(s[s.len() - 1]));
    lemma_char_round_trip(d);
    if s.len() > 1 {
        let t = s.drop_last();
        assert forall|i: int| 0 <= i < t.len() implies is_digit(#[trigger] t[i]) by {
            assert(t[i] == s[i]);
        }
        lemma_zero_value_all_zero(t);
        assert(t[0] == s[0]);
    } else {
        assert(s.drop_last() =~= seq![]);
        assert(digit_value(d) == 0);
    }
}

/// A canonical numeral is the canonical numeral of the number it denotes.
pub proof fn lemma_canonical_decimal_round_trip(s: Seq<char>)
    requires
        is_canonical_decimal(s),
    ensures
        decimal_string(decimal_value(s)) == s,
    decreases s.len(),
{
    let c = s.last();
    assert(is_digit(s[s.len() - 1]));
    lemma_char_round_trip(c);
    let t = s.drop_last();
    if s.len() == 1 {
        assert(t =~= seq![]);
        assert(decimal_value(s) == digit_value(c));
        assert(decimal_string(digit_value(c)) =~= s);
    } else {
        assert forall|i: int| 0 <= i < t.len() implies is_digit(#[trigger] t[i]) by {
            assert(t[i] == s[i]);
        }
        assert(t[0] == s[0]);
        lemma_canonical_decimal_round_trip(t);
        if decimal_value(t) == 0 {
            lemma_zero_value_all_zero(t);
        }
        let v = decimal_value(s);
        assert(v == decimal_value(t) * 10 + digit_value(c));
        assert(v / 10 == decimal_value(t) && v % 10 == digit_value(c));
        assert(decimal_string(v) == decimal_string(v / 10).push(digit_char(v % 10)));
        assert(decimal_string(v) =~= s);
    }
}

/// Reading a numeral modulo `m` and writing the result back: a canonical
/// numeral below `m` comes back unchanged, and reading what was written gives
/// the same residue as the first reading.
pub proof fn lemma_decimal_round_trip(s: Seq<char>, m: nat)
    requires
        is_decimal(s),
        m > 0,
    ensures
        is_canonical_decimal(s) && decimal_value(s) < m ==> decimal_string(decimal_value(s) % m)
            == s,
        is_decimal(decimal_string(decimal_value(s) % m)),
        decimal_value(decimal_string(decimal_value(s) % m)) % m == decimal_value(s) % m,
{
    let v = decimal_value(s) % m;
    lemma_decimal_string_value(v);
    vstd::arithmetic::div_mod::lemma_mod_twice(decimal_value(s) as int, m as int);
    if is_canonical_decimal(s) && decimal_value(s) < m {
        vstd::arithmetic::div_mod::lemma_small_mod(decimal_value(s), m);
        lemma_canonical_decimal_round_trip(s);
    }
}

/// Decides the numeral grammar on a string slice.
pub fn is_decimal_str(s: &str) -> (r: bool)
    ensures
        r == is_decimal(s@),
{
    if !s.is_ascii() {
        proof {
            if is_decimal(s@) {
                assert(is_ascii_chars(s@)) by {
                    assert forall|i: int| 0 <= i < s@.len() implies '\0' <= #[trigger] s@[i]
                        <= '\u{7f}' by {
                        assert(is_digit(s@[i]));
                    }
                }
            }
        }
        return false;
    }
    proof {
        broadcast use vstd::string::is_ascii_spec_bytes;

    }
    let b = s.as_bytes();
    assert(b@ =~= Seq::new(s@.len(), |i| s@[i] as u8));
    if b.len() == 0 {
        return false;
    }
    let mut i: usize = 0;
    while i < b.len()
        invariant
            b@ =~= Seq::new(s@.len(), |i| s@[i] as u8),
            is_ascii_chars(s@),
            i <= b@.len(),
            forall|j: int| 0 <= j < i ==> is_digit(#[trigger] s@[j]),
        decreases b@.len() - i,
    {
        let c = b[i];
        assert(c == s@[i as int] as u8);
        assert('\0' <= s@[i as int] <= '\u{7f}');
        if c < 48 || c > 57 {
            assert(!is_digit(s@[i as int]));
            return false;
        }
        assert(is_digit(s@[i as int]));
        i = i + 1;
    }
    true
}

} // verus!
