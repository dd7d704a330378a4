//! Decimal arithmetic shared by the suffix rules and the notification text.

use vstd::prelude::*;
use vstd::string::StringExecFns;

verus! {

/// Ten to the power `e`.
pub open spec fn pow10(e: nat) -> nat
    decreases e,
{
    if e == 0 {
        1
    } else {
        10 * pow10((e - 1) as nat)
    }
}

/// Number of decimal digits needed to write `v`; zero takes one digit.
pub open spec fn digit_count(v: nat) -> nat
    decreases v,
{
    if v < 10 {
        1
    } else {
        1 + digit_count(v / 10)
    }
}

/// Powers of ten are positive and grow with the exponent.
pub proof fn lemma_pow10_increases(a: nat, b: nat)
    requires
        a <= b,
    ensures
        0 < pow10(a) <= pow10(b),
    decreases b,
{
    if b == 0 {
    } else if a == b {
        lemma_pow10_increases((a - 1) as nat, (b - 1) as nat);
    } else {
        lemma_pow10_increases(a, (b - 1) as nat);
    }
}

/// A number lies between the two powers of ten that its digit count names:
/// `10^(d-1) <= v < 10^d`, the lower bound for every `v` but zero.
pub proof fn lemma_digit_count_bounds(v: nat)
    ensures
        v < pow10(digit_count(v)),
        v > 0 ==> pow10((digit_count(v) - 1) as nat) <= v,
    decreases v,
{
    if v < 10 {
        assert(pow10(1) == 10) by {
            reveal_with_fuel(pow10, 2);
        }
        assert(pow10(0) == 1);
    } else {
        lemma_digit_count_bounds(v / 10);
        let d: nat = digit_count(v / 10);
        assert(digit_count(v) == d + 1);
        assert(pow10(d + 1) == 10 * pow10(d));
        assert(v < 10 * pow10(d)) by (nonlinear_arith)
            requires
                v / 10 < pow10(d),
        ;
        assert(pow10(d) == 10 * pow10((d - 1) as nat));
        assert(pow10(d) <= v) by (nonlinear_arith)
            requires
                pow10((d - 1) as nat) <= v / 10,
                pow10(d) == 10 * pow10((d - 1) as nat),
        ;
    }
}

/// The digit count is the only exponent whose power of ten brackets `v`.
pub proof fn lemma_digit_count_unique(v: nat, d: nat)
    requires
        v > 0,
        d > 0,
        pow10((d - 1) as nat) <= v < pow10(d),
    ensures
        digit_count(v) == d,
{
    lemma_digit_count_bounds(v);
    let c: nat = digit_count(v);
    if c < d {
        lemma_pow10_increases(c, (d - 1) as nat);
    } else if c > d {
        lemma_pow10_increases(d, (c - 1) as nat);
    }
}

/// The character that stands for the digit `d`.
pub open spec fn digit_char(d: nat) -> char {
    if d == 0 {
        '0'
    } else if d == 1 {
        '1'
    } else if d == 2 {
        '2'
    } else if d == 3 {
        '3'
    } else if d == 4 {
        '4'
    } else if d == 5 {
        '5'
    } else if d == 6 {
        '6'
    } else if d == 7 {
        '7'
    } else if d == 8 {
        '8'
    } else {
        '9'
    }
}

/// `v` written in decimal, without leading zeros.
pub open spec fn decimal_text(v: nat) -> Seq<char>
    decreases v,
{
    if v < 10 {
        seq![digit_char(v)]
    } else {
        decimal_text(v / 10).push(digit_char(v % 10))
    }
}

/// The text of one digit.
fn digit_text(d: u64) -> (text: &'static str)
    requires
        d < 10,
    ensures
        text@ == seq![digit_char(d as nat)],
{
    proof {
        reveal_strlit("0");
        reveal_strlit("1");
        reveal_strlit("2");
        reveal_strlit("3");
        reveal_strlit("4");
        reveal_strlit("5");
        reveal_strlit("6");
        reveal_strlit("7");
        reveal_strlit("8");
        reveal_strlit("9");
    }
    let text: &'static str = if d == 0 {
        "0"
    } else if d == 1 {
        "1"
    } else if d == 2 {
        "2"
    } else if d == 3 {
        "3"
    } else if d == 4 {
        "4"
    } else if d == 5 {
        "5"
    } else if d == 6 {
        "6"
    } else if d == 7 {
        "7"
    } else if d == 8 {
        "8"
    } else {
        "9"
    };
    assert(text@ =~= seq![digit_char(d as nat)]);
    text
}

/// Appends `v` in decimal.
pub fn append_decimal(out: &mut String, v: u64)
    ensures
        final(out)@ == old(out)@ + decimal_text(v as nat),
    decreases v,
{
    if v >= 10 {
        append_decimal(out, v / 10);
    }
    out.append(digit_text(v % 10));
    assert(out@ =~= old(out)@ + decimal_text(v as nat));
}

} // verus!
