//! Numbers written out in strings.

use vstd::arithmetic::power::{lemma_pow_positive, pow};
use vstd::prelude::*;
use vstd::string::StringExecFns;

verus! {

/// The character of a digit below 16, upper case from ten on.
pub open spec fn digit_char(digit: nat) -> char {
    if digit < 10 {
        ('0' as nat + digit) as char
    } else {
        ('A' as nat + digit - 10) as char
    }
}

/// `value` in the given base, most significant digit first and without
/// leading zeros.
pub open spec fn digits(value: nat, base: nat) -> Seq<char>
    decreases value,
{
    if value < base || base < 2 {
        seq![digit_char(value)]
    } else {
        proof {
            vstd::arithmetic::div_mod::lemma_div_decreases(value as int, base as int);
        }
        digits(value / base, base).push(digit_char(value % base))
    }
}

/// `value` in decimal.
pub open spec fn decimal(value: nat) -> Seq<char> {
    digits(value, 10)
}

/// `value` in upper-case hexadecimal.
pub open spec fn upper_hex(value: nat) -> Seq<char> {
    digits(value, 16)
}

/// The number that a string of digits in the given base spells.
pub open spec fn digits_value(text: Seq<char>, base: nat) -> nat
    decreases text.len(),
{
    if text.len() == 0 {
        0
    } else {
        digits_value(text.drop_last(), base) * base + digit_value(text.last())
    }
}

/// The value of a digit character.
pub open spec fn digit_value(c: char) -> nat {
    if c <= '9' {
        (c as nat - '0' as nat) as nat
    } else {
        (c as nat - 'A' as nat + 10) as nat
    }
}

/// A number can be read back from its digits.
pub proof fn law_digits_round_trip(value: nat, base: nat)
    requires
        2 <= base <= 16,
    ensures
        digits_value(digits(value, base), base) == value,
    decreases value,
{
    if value < base {
        assert(digits(value, base).drop_last() =~= Seq::<char>::empty());
        assert(digits_value(Seq::<char>::empty(), base) == 0);
        assert(digit_value(digit_char(value)) == value);
        vstd::arithmetic::mul::lemma_mul_basics(base as int);
    } else {
        vstd::arithmetic::div_mod::lemma_div_decreases(value as int, base as int);
        vstd::arithmetic::div_mod::lemma_fundamental_div_mod(value as int, base as int);
        vstd::arithmetic::div_mod::lemma_mod_bound(value as int, base as int);
        vstd::arithmetic::mul::lemma_mul_is_commutative(base as int, value as int / base as int);
        law_digits_round_trip(value / base, base);
        assert(digits(value, base).drop_last() =~= digits(value / base, base));
        assert(digit_value(digit_char(value % base)) == value % base);
    }
}

/// The digit with place `k`, counted from the last one, is that of the number
/// in this base, in the characters `0`-`9` and `A`-`F`.
pub proof fn law_digits_have_their_places(value: nat, base: nat, k: nat)
    requires
        2 <= base <= 16,
        k < digits(value, base).len(),
    ensures
        ({
            let digit = value as int / pow(base as int, k) % base as int;
            let text = digits(value, base);
            text[text.len() - 1 - k] as int == if digit < 10 {
                48 + digit
            } else {
                55 + digit
            }
        }),
    decreases value,
{
    let text = digits(value, base);
    if k == 0 {
        reveal(pow);
        vstd::arithmetic::div_mod::lemma_mod_bound(value as int, base as int);
        if value < base {
            vstd::arithmetic::div_mod::lemma_small_mod(value, base);
        }
    } else {
        vstd::arithmetic::div_mod::lemma_div_decreases(value as int, base as int);
        let less = (k - 1) as nat;
        law_digits_have_their_places(value / base, base, less);
        assert(pow(base as int, k) == base * pow(base as int, less)) by {
            reveal(pow);
        }
        lemma_pow_positive(base as int, less);
        vstd::arithmetic::div_mod::lemma_div_denominator(
            value as int,
            base as int,
            pow(base as int, less),
        );
    }
}

/// There is always a digit, and no zero in front of others: a number has more
/// digits than `k` only where it reaches the power `k` of the base.
pub proof fn law_digits_have_no_leading_zero(value: nat, base: nat, k: nat)
    requires
        2 <= base <= 16,
    ensures
        digits(value, base).len() > 0,
        k > 0 ==> (digits(value, base).len() > k <==> value >= pow(base as int, k)),
    decreases value,
{
    if k > 0 {
        let less = (k - 1) as nat;
        assert(pow(base as int, k) == base * pow(base as int, less)) by {
            reveal(pow);
        }
        lemma_pow_positive(base as int, less);
        let p = pow(base as int, less);
        if value < base {
            assert(base * p >= base) by (nonlinear_arith)
                requires
                    p >= 1,
                    base >= 2,
            ;
        } else {
            vstd::arithmetic::div_mod::lemma_div_decreases(value as int, base as int);
            vstd::arithmetic::div_mod::lemma_fundamental_div_mod(value as int, base as int);
            vstd::arithmetic::div_mod::lemma_mod_bound(value as int, base as int);
            let q = value as int / base as int;
            let r = value as int % base as int;
            assert(value >= base * p <==> q >= p) by (nonlinear_arith)
                requires
                    value == base * q + r,
                    0 <= r < base,
                    base >= 2,
            ;
            law_digits_have_no_leading_zero(value / base, base, less);
            if less == 0 {
                reveal(pow);
                assert(p == 1);
            }
        }
    }
}

/// The one-character string of a digit below 16.
fn digit_str(digit: u8) -> (text: &'static str)
    requires
        digit < 16,
    ensures
        text@ == seq![digit_char(digit as nat)],
{
    proof {
        reveal_strlit("0");
        reveal_strlit("1");
        reveal_strlit("2");
        reveal_strlit("3");
        reveal_strlit("4");
        reveal_strlit("5");
        reveal_strlit("6");
        reveal_strlit("7");
        reveal_strlit("8");
        reveal_strlit("9");
        reveal_strlit("A");
        reveal_strlit("B");
        reveal_strlit("C");
        reveal_strlit("D");
        reveal_strlit("E");
        reveal_strlit("F");
    }
    let text = match digit {
        0 => "0",
        1 => "1",
        2 => "2",
        3 => "3",
        4 => "4",
        5 => "5",
        6 => "6",
        7 => "7",
        8 => "8",
        9 => "9",
        10 => "A",
        11 => "B",
        12 => "C",
        13 => "D",
        14 => "E",
        _ => "F",
    };
    assert(text@ =~= seq![digit_char(digit as nat)]);
    text
}

/// Append `value` to `out` in the given base.
fn append_digits(out: &mut String, value: u64, base: u64)
    requires
        2 <= base <= 16,
    ensures
        final(out)@ == old(out)@ + digits(value as nat, base as nat),
    decreases value,
{
    if value >= base {
        proof {
            vstd::arithmetic::div_mod::lemma_div_decreases(value as int, base as int);
            vstd::arithmetic::div_mod::lemma_mod_bound(value as int, base as int);
        }
        append_digits(out, value / base, base);
        out.append(digit_str((value % base) as u8));
    } else {
        out.append(digit_str(value as u8));
    }
    assert(out@ =~= old(out)@ + digits(value as nat, base as nat));
}

/// Append `value` to `out` in decimal.
pub fn append_decimal(out: &mut String, value: u64)
    ensures
        final(out)@ == old(out)@ + decimal(value as nat),
{
    append_digits(out, value, 10);
}

/// Append `value` to `out` in upper-case hexadecimal.
pub fn append_upper_hex(out: &mut String, value: u64)
    ensures
        final(out)@ == old(out)@ + upper_hex(value as nat),
{
    append_digits(out, value, 16);
}

} // verus!
