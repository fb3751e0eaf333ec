//! Numbers written as text.

use vstd::prelude::*;

verus! {

/// Appends one character with `String::push` of std. The contract claims that
/// the string afterwards is the string before with the character at its end;
/// this is not proved.
#[verifier::external_body]
pub(crate) fn append_char(text: &mut String, c: char)
    ensures
        final(text)@ == old(text)@.push(c),
{
    text.push(c);
}

/// The character that writes the digit `digit`, with capital letters from ten on.
pub open spec fn digit_char(digit: nat) -> char {
    if digit == 0 {
        '0'
    } else if digit == 1 {
        '1'
    } else if digit == 2 {
        '2'
    } else if digit == 3 {
        '3'
    } else if digit == 4 {
        '4'
    } else if digit == 5 {
        '5'
    } else if digit == 6 {
        '6'
    } else if digit == 7 {
        '7'
    } else if digit == 8 {
        '8'
    } else if digit == 9 {
        '9'
    } else if digit == 10 {
        'A'
    } else if digit == 11 {
        'B'
    } else if digit == 12 {
        'C'
    } else if digit == 13 {
        'D'
    } else if digit == 14 {
        'E'
    } else {
        'F'
    }
}

/// `value` written in base `base`, most significant digit first, without
/// leading zeros; zero is written as one digit.
pub open spec fn digits(value: nat, base: nat) -> Seq<char>
    recommends
        2 <= base <= 16,
    decreases value,
{
    if value < base || base < 2 {
        seq![digit_char(value)]
    } else {
        proof {
            lemma_quotient_is_less(value, base);
        }
        digits(value / base, base).push(digit_char(value % base))
    }
}

/// Dividing by two or more makes a number that is not zero smaller.
pub proof fn lemma_quotient_is_less(value: nat, base: nat)
    requires
        base >= 2,
        value >= base,
    ensures
        value / base < value,
{
    assert(value / base < value) by (nonlinear_arith)
        requires
            base >= 2,
            value >= base,
    ;
}

fn digit(value: u32) -> (c: char)
    requires
        value < 16,
    ensures
        c == digit_char(value as nat),
{
    if value == 0 {
        '0'
    } else if value == 1 {
        '1'
    } else if value == 2 {
        '2'
    } else if value == 3 {
        '3'
    } else if value == 4 {
        '4'
    } else if value == 5 {
        '5'
    } else if value == 6 {
        '6'
    } else if value == 7 {
        '7'
    } else if value == 8 {
        '8'
    } else if value == 9 {
        '9'
    } else if value == 10 {
        'A'
    } else if value == 11 {
        'B'
    } else if value == 12 {
        'C'
    } else if value == 13 {
        'D'
    } else if value == 14 {
        'E'
    } else {
        'F'
    }
}

/// Appends `value` to `text`, written in base `base`.
pub(crate) fn append_number(text: &mut String, value: u32, base: u32)
    requires
        2 <= base <= 16,
    ensures
        final(text)@ == old(text)@ + digits(value as nat, base as nat),
    decreases value,
{
    if value >= base {
        proof {
            lemma_quotient_is_less(value as nat, base as nat);
        }
        append_number(text, value / base, base);
    }
    append_char(text, digit(value % base));
    proof {
        let v = value as nat;
        let b = base as nat;
        let last = digit_char(v % b);
        if value >= base {
            let front = digits(v / b, b);
            assert(digits(v, b) == front.push(last));
            assert(old(text)@ + front.push(last) =~= (old(text)@ + front).push(last));
        } else {
            assert(v % b == v) by (nonlinear_arith)
                requires
                    v < b,
            ;
            assert(digits(v, b) == seq![last]);
            assert(old(text)@ + seq![last] =~= old(text)@.push(last));
        }
    }
}

} // verus!
