//! Numbers as text: in decimal and in hexadecimal, without leading zeros.

use vstd::prelude::*;

verus! {

/// The character for the digit `d`: `0` to `9`, then `a` to `f`.
pub open spec fn spec_digit(d: int) -> char {
    if d == 0 {
        '0'
    } else if d == 1 {
        '1'
    } else if d == 2 {
        '2'
    } else if d == 3 {
        '3'
    } else if d == 4 {
        '4'
    } else if d == 5 {
        '5'
    } else if d == 6 {
        '6'
    } else if d == 7 {
        '7'
    } else if d == 8 {
        '8'
    } else if d == 9 {
        '9'
    } else if d == 10 {
        'a'
    } else if d == 11 {
        'b'
    } else if d == 12 {
        'c'
    } else if d == 13 {
        'd'
    } else if d == 14 {
        'e'
    } else {
        'f'
    }
}

/// The number `n` in decimal, without leading zeros.
pub open spec fn spec_decimal(n: nat) -> Seq<char>
    decreases n,
{
    if n < 10 {
        seq![spec_digit(n as int)]
    } else {
        spec_decimal(n / 10) + seq![spec_digit((n % 10) as int)]
    }
}

/// The number `n` in hexadecimal, with small letters and without leading
/// zeros.
pub open spec fn spec_hex(n: nat) -> Seq<char>
    decreases n,
{
    if n < 16 {
        seq![spec_digit(n as int)]
    } else {
        spec_hex(n / 16) + seq![spec_digit((n % 16) as int)]
    }
}

/// The last character of a number in decimal is the digit of its ones,
/// and a number of more than one digit has more than one character.
pub proof fn lemma_decimal_shape(n: nat)
    ensures
        spec_decimal(n).len() >= 1,
        n >= 10 ==> spec_decimal(n).len() >= 2,
        spec_decimal(n).last() == spec_digit((n % 10) as int),
    decreases n,
{
    if n >= 10 {
        lemma_decimal_shape(n / 10);
    }
}

/// Different numbers differ in decimal.
pub proof fn lemma_decimal_injective(m: nat, n: nat)
    requires
        spec_decimal(m) == spec_decimal(n),
    ensures
        m == n,
    decreases m,
{
    lemma_decimal_shape(m);
    lemma_decimal_shape(n);
    assert(m % 10 == n % 10);
    if m >= 10 {
        assert(spec_decimal(m).drop_last() =~= spec_decimal(m / 10));
        assert(spec_decimal(n).drop_last() =~= spec_decimal(n / 10));
        lemma_decimal_injective(m / 10, n / 10);
    }
}

/// The last character of a number in hexadecimal is the digit of its
/// ones, and a number of more than one digit has more than one character.
pub proof fn lemma_hex_shape(n: nat)
    ensures
        spec_hex(n).len() >= 1,
        n >= 16 ==> spec_hex(n).len() >= 2,
        spec_hex(n).last() == spec_digit((n % 16) as int),
    decreases n,
{
    if n >= 16 {
        lemma_hex_shape(n / 16);
    }
}

/// Different numbers differ in hexadecimal.
pub proof fn lemma_hex_injective(m: nat, n: nat)
    requires
        spec_hex(m) == spec_hex(n),
    ensures
        m == n,
    decreases m,
{
    lemma_hex_shape(m);
    lemma_hex_shape(n);
    assert(m % 16 == n % 16);
    if m >= 16 {
        assert(spec_hex(m).drop_last() =~= spec_hex(m / 16));
        assert(spec_hex(n).drop_last() =~= spec_hex(n / 16));
        lemma_hex_injective(m / 16, n / 16);
    }
}

/// The digit `d` as text.
fn digit_text(d: usize) -> (text: &'static str)
    requires
        d < 16,
    ensures
        text@ == seq![spec_digit(d as int)],
{
    proof {
        reveal_strlit("0");
        reveal_strlit("1");
        reveal_strlit("2");
        reveal_strlit("3");
        reveal_strlit("4");
        reveal_strlit("5");
        reveal_strlit("6");
        reveal_strlit("7");
        reveal_strlit("8");
        reveal_strlit("9");
        reveal_strlit("a");
        reveal_strlit("b");
        reveal_strlit("c");
        reveal_strlit("d");
        reveal_strlit("e");
        reveal_strlit("f");
    }
    let text = if d == 0 {
        "0"
    } else if d == 1 {
        "1"
    } else if d == 2 {
        "2"
    } else if d == 3 {
        "3"
    } else if d == 4 {
        "4"
    } else if d == 5 {
        "5"
    } else if d == 6 {
        "6"
    } else if d == 7 {
        "7"
    } else if d == 8 {
        "8"
    } else if d == 9 {
        "9"
    } else if d == 10 {
        "a"
    } else if d == 11 {
        "b"
    } else if d == 12 {
        "c"
    } else if d == 13 {
        "d"
    } else if d == 14 {
        "e"
    } else {
        "f"
    };
    assert(text@ =~= seq![spec_digit(d as int)]);
    text
}

/// The number `n` in decimal.
pub fn decimal_text(n: usize) -> (text: String)
    ensures
        text@ == spec_decimal(n as nat),
    decreases n,
{
    if n < 10 {
        String::from_str(digit_text(n))
    } else {
        let mut text = decimal_text(n / 10);
        text.append(digit_text(n % 10));
        text
    }
}

/// The number `n` in hexadecimal, with small letters.
pub fn hex_text(n: usize) -> (text: String)
    ensures
        text@ == spec_hex(n as nat),
    decreases n,
{
    if n < 16 {
        String::from_str(digit_text(n))
    } else {
        let mut text = hex_text(n / 16);
        text.append(digit_text(n % 16));
        text
    }
}

/// A truth value as text: `true` or `false`.
pub open spec fn spec_truth(b: bool) -> Seq<char> {
    if b {
        "true"@
    } else {
        "false"@
    }
}

/// A truth value as text.
pub fn truth_text(b: bool) -> (text: &'static str)
    ensures
        text@ == spec_truth(b),
{
    if b {
        "true"
    } else {
        "false"
    }
}

} // verus!
