//! Decimal numerals and the tokens that may stand in a fact.
use vstd::prelude::*;
use vstd::string::*;

verus! {

/// The character of a decimal digit.
pub open spec fn digit_char(d: int) -> char {
    if d == 0 {
        '0'
    } else if d == 1 {
        '1'
    } else if d == 2 {
        '2'
    } else if d == 3 {
        '3'
    } else if d == 4 {
        '4'
    } else if d == 5 {
        '5'
    } else if d == 6 {
        '6'
    } else if d == 7 {
        '7'
    } else if d == 8 {
        '8'
    } else {
        '9'
    }
}

/// The decimal numeral of a natural number, without leading zeros.
pub open spec fn decimal_digits(n: nat) -> Seq<char>
    decreases n,
{
    if n < 10 {
        seq![digit_char(n as int)]
    } else {
        decimal_digits(n / 10).push(digit_char((n % 10) as int))
    }
}

/// The decimal numeral of an integer, with a leading minus sign where it is
/// negative.
pub open spec fn decimal(i: int) -> Seq<char> {
    if i < 0 {
        seq!['-'] + decimal_digits((-i) as nat)
    } else {
        decimal_digits(i as nat)
    }
}

pub open spec fn is_lowercase(c: char) -> bool {
    'a' <= c <= 'z'
}

pub open spec fn is_digit(c: char) -> bool {
    '0' <= c <= '9'
}

/// A character that may follow the first letter of a constant.
pub open spec fn is_constant_tail(c: char) -> bool {
    is_lowercase(c) || ('A' <= c <= 'Z') || is_digit(c) || c == '_' || c == '\''
}

/// Whether `s` is a constant with its first letter at position `k`:
/// underscores before `k`, a lowercase letter at `k`, and after it letters,
/// digits, underscores and apostrophes.
pub open spec fn is_constant_at(s: Seq<char>, k: int) -> bool {
    &&& 0 <= k < s.len()
    &&& forall|i: int| 0 <= i < k ==> s[i] == '_'
    &&& is_lowercase(s[k])
    &&& forall|i: int| k < i < s.len() ==> is_constant_tail(#[trigger] s[i])
}

/// Whether `s` is a symbolic constant of the solver's language: any number
/// of underscores, a lowercase letter, then letters, digits, underscores
/// and apostrophes.
pub open spec fn is_constant(s: Seq<char>) -> bool {
    exists|k: int| is_constant_at(s, k)
}

/// The one-character string of a decimal digit.
fn digit_str(d: u32) -> (r: &'static str)
    requires
        d < 10,
    ensures
        r@ == seq![digit_char(d as int)],
{
    proof {
        reveal_strlit("0");
        reveal_strlit("1");
        reveal_strlit("2");
        reveal_strlit("3");
        reveal_strlit("4");
        reveal_strlit("5");
        reveal_strlit("6");
        reveal_strlit("7");
        reveal_strlit("8");
        reveal_strlit("9");
    }
    let r = if d == 0 {
        "0"
    } else if d == 1 {
        "1"
    } else if d == 2 {
        "2"
    } else if d == 3 {
        "3"
    } else if d == 4 {
        "4"
    } else if d == 5 {
        "5"
    } else if d == 6 {
        "6"
    } else if d == 7 {
        "7"
    } else if d == 8 {
        "8"
    } else {
        "9"
    };
    assert(r@ =~= seq![digit_char(d as int)]);
    r
}

/// Appends the decimal numeral of `n` to `out`.
pub fn push_decimal_digits(out: &mut String, n: u32)
    ensures
        final(out)@ == old(out)@ + decimal_digits(n as nat),
    decreases n,
{
    if n >= 10 {
        push_decimal_digits(out, n / 10);
    }
    out.append(digit_str(n % 10));
    assert(out@ =~= old(out)@ + decimal_digits(n as nat));
}

/// The decimal numeral of `n`, with a minus sign where it is negative.
pub fn decimal_of_i32(n: i32) -> (s: String)
    ensures
        s@ == decimal(n as int),
{
    let mut s = String::new();
    if n < 0 {
        proof {
            reveal_strlit("-");
        }
        s.append("-");
        assert(s@ =~= seq!['-']);
        let magnitude: u32 = (-(n as i64)) as u32;
        push_decimal_digits(&mut s, magnitude);
    } else {
        push_decimal_digits(&mut s, n as u32);
    }
    assert(s@ =~= decimal(n as int));
    s
}

/// Whether `s` is a symbolic constant of the solver's language.
pub fn check_constant(s: &str) -> (ok: bool)
    ensures
        ok == is_constant(s@),
{
    let len: usize = s.unicode_len();
    let mut k: usize = 0;
    while k < len && s.get_char(k) == '_'
        invariant
            k <= len,
            len == s@.len(),
            forall|i: int| 0 <= i < k ==> s@[i] == '_',
        decreases len - k,
    {
        k = k + 1;
    }
    if k >= len {
        assert(!is_constant(s@)) by {
            if is_constant(s@) {
                let w = choose|w: int| is_constant_at(s@, w);
                assert(s@[w] == '_');
            }
        }
        return false;
    }
    let first: char = s.get_char(k);
    if !(first >= 'a' && first <= 'z') {
        assert(!is_constant(s@)) by {
            if is_constant(s@) {
                let w = choose|w: int| is_constant_at(s@, w);
                if w < k {
                    assert(s@[w] == '_');
                } else if w > k {
                    assert(s@[k as int] == '_');
                }
            }
        }
        return false;
    }
    let mut i: usize = k + 1;
    while i < len
        invariant
            k < i <= len,
            len == s@.len(),
            forall|j: int| k < j < i ==> is_constant_tail(#[trigger] s@[j]),
            forall|j: int| 0 <= j < k ==> s@[j] == '_',
            is_lowercase(s@[k as int]),
        decreases len - i,
    {
        let c: char = s.get_char(i);
        let tail: bool = (c >= 'a' && c <= 'z') || (c >= 'A' && c <= 'Z') || (c >= '0' && c
            <= '9') || c == '_' || c == '\'';
        if !tail {
            assert(!is_constant(s@)) by {
                if is_constant(s@) {
                    let w = choose|w: int| is_constant_at(s@, w);
                    if w < k {
                        assert(s@[w] == '_');
                    } else if w > k {
                        assert(s@[k as int] == '_');
                    } else {
                        assert(is_constant_tail(s@[i as int]));
                    }
                }
            }
            return false;
        }
        i = i + 1;
    }
    assert(is_constant_at(s@, k as int));
    true
}

/// The digit that a character stands for; zero for any other character.
pub open spec fn char_digit(c: char) -> int {
    if c == '1' {
        1
    } else if c == '2' {
        2
    } else if c == '3' {
        3
    } else if c == '4' {
        4
    } else if c == '5' {
        5
    } else if c == '6' {
        6
    } else if c == '7' {
        7
    } else if c == '8' {
        8
    } else if c == '9' {
        9
    } else {
        0
    }
}

/// The number that a decimal numeral stands for.
pub open spec fn numeral_value(s: Seq<char>) -> int
    decreases s.len(),
{
    if s.len() == 0 {
        0
    } else {
        numeral_value(s.drop_last()) * 10 + char_digit(s.last())
    }
}

/// A decimal numeral stands for the number it was written of.
pub proof fn lemma_numeral_value_of_decimal(n: nat)
    ensures
        numeral_value(decimal_digits(n)) == n,
    decreases n,
{
    if n < 10 {
        let s = decimal_digits(n);
        assert(s.drop_last() =~= Seq::<char>::empty());
        assert(numeral_value(s.drop_last()) == 0);
    } else {
        lemma_numeral_value_of_decimal(n / 10);
        let s = decimal_digits(n);
        assert(s.drop_last() =~= decimal_digits(n / 10));
        assert(s.last() == digit_char((n % 10) as int));
    }
}

/// Different numbers have different decimal numerals.
pub proof fn lemma_decimal_digits_differ(a: nat, b: nat)
    ensures
        decimal_digits(a) == decimal_digits(b) <==> a == b,
{
    lemma_numeral_value_of_decimal(a);
    lemma_numeral_value_of_decimal(b);
}

/// A decimal numeral is made of digits, and of at least one.
pub proof fn lemma_decimal_digits_are_digits(n: nat)
    ensures
        decimal_digits(n).len() >= 1,
        forall|i: int| 0 <= i < decimal_digits(n).len() ==> is_digit(#[trigger] decimal_digits(n)[i]),
    decreases n,
{
    if n >= 10 {
        lemma_decimal_digits_are_digits(n / 10);
    }
}

/// A constant followed by the numeral of a natural number is a constant.
pub proof fn lemma_constant_with_numeral(s: Seq<char>, n: nat)
    requires
        is_constant(s),
    ensures
        is_constant(s + decimal_digits(n)),
{
    let k = choose|k: int| is_constant_at(s, k);
    let t = s + decimal_digits(n);
    lemma_decimal_digits_are_digits(n);
    assert forall|i: int| k < i < t.len() implies is_constant_tail(#[trigger] t[i]) by {
        if i < s.len() {
            assert(t[i] == s[i]);
        } else {
            assert(t[i] == decimal_digits(n)[i - s.len()]);
        }
    }
    assert forall|i: int| 0 <= i < k implies t[i] == '_' by {
        assert(t[i] == s[i]);
    }
    assert(t[k] == s[k]);
    assert(is_constant_at(t, k));
}

} // verus!
