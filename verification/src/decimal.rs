//! Numbers written in decimal digits.

use vstd::arithmetic::power;
use vstd::prelude::*;
use vstd::string::*;

verus! {

/// The digit that stands for `d`, from 0 to 9.
pub open spec fn digit(d: int) -> char {
    (48 + d) as char
}

/// Whether `c` is one of the digits 0 to 9.
pub open spec fn is_digit(c: char) -> bool {
    '0' <= c <= '9'
}

/// Whether every character of `s` is a digit.
pub open spec fn all_digits(s: Seq<char>) -> bool {
    forall|i: int| 0 <= i < s.len() ==> is_digit(#[trigger] s[i])
}

/// `n` in decimal digits, without leading zeros.
pub open spec fn decimal(n: nat) -> Seq<char>
    decreases n,
{
    if n < 10 {
        seq![digit(n as int)]
    } else {
        decimal(n / 10).push(digit((n % 10) as int))
    }
}

/// `n` in decimal digits, with a minus sign in front if it is negative.
pub open spec fn signed_decimal(n: int) -> Seq<char> {
    if n < 0 {
        seq!['-'] + decimal((-n) as nat)
    } else {
        decimal(n as nat)
    }
}

/// `k` zeros.
pub open spec fn zeros(k: nat) -> Seq<char> {
    Seq::new(k, |i: int| '0')
}

/// `n` in decimal digits, with zeros in front as far as `width` characters need them.
pub open spec fn padded(n: nat, width: nat) -> Seq<char> {
    if decimal(n).len() < width {
        zeros((width - decimal(n).len()) as nat) + decimal(n)
    } else {
        decimal(n)
    }
}

/// Ten to the power of `k`.
pub open spec fn power_of_ten(k: nat) -> nat
    decreases k,
{
    if k == 0 {
        1
    } else {
        10 * power_of_ten((k - 1) as nat)
    }
}

/// The number that a sequence of digits stands for.
pub open spec fn value(s: Seq<char>) -> int
    decreases s.len(),
{
    if s.len() == 0 {
        0
    } else {
        10 * value(s.drop_last()) + (s.last() as int - 48)
    }
}

/// The last digit of a padded number, and what stands before it.
pub proof fn lemma_padded_step(n: nat, width: nat)
    ensures
        n < 10 && width <= 1 ==> padded(n, width) == seq![digit(n as int)],
        n >= 10 || width > 1 ==> padded(n, width) == padded(
            n / 10,
            if width > 0 {
                (width - 1) as nat
            } else {
                0
            },
        ).push(digit((n % 10) as int)),
{
    let shorter: nat = if width > 0 {
        (width - 1) as nat
    } else {
        0
    };
    if n >= 10 {
        assert(padded(n, width) =~= padded(n / 10, shorter).push(digit((n % 10) as int)));
    } else if width > 1 {
        assert(padded(0, shorter) =~= zeros(shorter));
        assert(padded(n, width) =~= padded(0, shorter).push(digit(n as int)));
    }
}

proof fn lemma_digit(d: int)
    requires
        0 <= d < 10,
    ensures
        is_digit(digit(d)),
        digit(d) as int - 48 == d,
{
}

/// A padded number consists of digits, at least one, and stands for the number.
pub proof fn lemma_padded_value(n: nat, width: nat)
    ensures
        padded(n, width).len() >= 1,
        all_digits(padded(n, width)),
        value(padded(n, width)) == n,
    decreases n, width,
{
    lemma_padded_step(n, width);
    lemma_digit((n % 10) as int);
    reveal_with_fuel(value, 2);
    if n >= 10 || width > 1 {
        let shorter: nat = if width > 0 {
            (width - 1) as nat
        } else {
            0
        };
        lemma_padded_value(n / 10, shorter);
        let front = padded(n / 10, shorter);
        assert(padded(n, width).drop_last() =~= front);
        assert(padded(n, width).last() == digit((n % 10) as int));
    } else {
        assert(padded(n, width).drop_last() =~= Seq::<char>::empty());
    }
}

/// A padded number is as long as the width exactly if it has no more digits than that.
pub proof fn lemma_padded_len(n: nat, width: nat)
    requires
        1 <= width,
    ensures
        padded(n, width).len() >= width,
        padded(n, width).len() == width <==> n < power_of_ten(width),
    decreases width,
{
    lemma_padded_step(n, width);
    reveal_with_fuel(power_of_ten, 2);
    if width > 1 {
        lemma_padded_len(n / 10, (width - 1) as nat);
    } else if n >= 10 {
        lemma_padded_value(n / 10, 0);
    }
}

/// Two numbers that are written alike are equal.
pub proof fn lemma_padded_injective(a: nat, b: nat, width: nat)
    requires
        padded(a, width) == padded(b, width),
    ensures
        a == b,
{
    lemma_padded_value(a, width);
    lemma_padded_value(b, width);
}

/// The digit that stands for `d`.
fn digit_text(d: u64) -> (text: &'static str)
    requires
        d < 10,
    ensures
        text@ == seq![digit(d as int)],
{
    proof {
        reveal_strlit("0");
        reveal_strlit("1");
        reveal_strlit("2");
        reveal_strlit("3");
        reveal_strlit("4");
        reveal_strlit("5");
        reveal_strlit("6");
        reveal_strlit("7");
        reveal_strlit("8");
        reveal_strlit("9");
    }
    match d {
        0 => "0",
        1 => "1",
        2 => "2",
        3 => "3",
        4 => "4",
        5 => "5",
        6 => "6",
        7 => "7",
        8 => "8",
        _ => "9",
    }
}

/// Appends `n` in decimal digits, padded with zeros to `width` characters.
pub(crate) fn append_padded(out: &mut String, n: u64, width: u64)
    ensures
        final(out)@ == old(out)@ + padded(n as nat, width as nat),
    decreases n, width,
{
    proof {
        lemma_padded_step(n as nat, width as nat);
    }
    let shorter: u64 = if width > 0 {
        width - 1
    } else {
        0
    };
    if n >= 10 || width > 1 {
        append_padded(out, n / 10, shorter);
    }
    out.append(digit_text(n % 10));
    proof {
        let front = if n >= 10 || width > 1 {
            padded((n / 10) as nat, shorter as nat)
        } else {
            Seq::<char>::empty()
        };
        assert(out@ =~= old(out)@ + front.push(digit((n % 10) as int)));
        assert(front.push(digit((n % 10) as int)) =~= padded(n as nat, width as nat));
    }
}

/// Appends `n` in decimal digits.
pub(crate) fn append_decimal(out: &mut String, n: u64)
    ensures
        final(out)@ == old(out)@ + decimal(n as nat),
{
    append_padded(out, n, 0);
}

/// Appends `n` in decimal digits, with a minus sign in front if it is negative.
pub(crate) fn append_signed(out: &mut String, n: i32)
    ensures
        final(out)@ == old(out)@ + signed_decimal(n as int),
{
    if n < 0 {
        proof {
            reveal_strlit("-");
        }
        out.append("-");
        append_decimal(out, (-(n as i64)) as u64);
        assert(out@ =~= old(out)@ + signed_decimal(n as int));
    } else {
        append_decimal(out, n as u64);
    }
}

proof fn lemma_next_power(e: nat)
    ensures
        power::pow(10, e + 1) == 10 * power::pow(10, e),
{
    reveal(power::pow);
}

/// A padded number reads as the number: the digit in each place is the one
/// that the place value gives, there are as many digits as the width asks for
/// and the number needs, and no more.
pub proof fn law_padded_reads_as_the_number(n: nat, width: nat)
    ensures
        ({
            let s = padded(n, width);
            &&& 1 <= s.len()
            &&& width <= s.len()
            &&& forall|i: int|
                0 <= i < s.len() ==> #[trigger] s[i] as int == 48 + (n as int / power::pow(
                    10,
                    (s.len() - 1 - i) as nat,
                )) % 10
            &&& n < power::pow(10, s.len())
            &&& 1 < s.len() && width < s.len() ==> power::pow(10, (s.len() - 1) as nat) <= n
        }),
    decreases n, width,
{
    let s = padded(n, width);
    lemma_padded_step(n, width);
    lemma_digit((n % 10) as int);
    power::lemma_pow0(10);
    power::lemma_pow1(10);
    if n >= 10 || width > 1 {
        let shorter: nat = if width > 0 {
            (width - 1) as nat
        } else {
            0
        };
        let front = padded(n / 10, shorter);
        law_padded_reads_as_the_number(n / 10, shorter);
        let last = s.len() - 1;
        assert(front.len() == last);
        assert forall|i: int| 0 <= i < s.len() implies #[trigger] s[i] as int == 48 + (n as int
            / power::pow(10, (s.len() - 1 - i) as nat)) % 10 by {
            if i < last {
                let e = (last - 1 - i) as nat;
                assert(s[i] == front[i]);
                power::lemma_pow_positive(10, e);
                vstd::arithmetic::div_mod::lemma_div_denominator(n as int, 10, power::pow(10, e));
                lemma_next_power(e);
            }
        }
        lemma_next_power(last as nat);
        if 1 < s.len() && width < s.len() {
            if 1 < front.len() {
                lemma_next_power((last - 1) as nat);
            }
        }
    }
}

/// A number without padding reads as the number, and has no leading zero.
pub proof fn law_decimal_reads_as_the_number(n: nat)
    ensures
        ({
            let s = decimal(n);
            &&& 1 <= s.len()
            &&& forall|i: int|
                0 <= i < s.len() ==> #[trigger] s[i] as int == 48 + (n as int / power::pow(
                    10,
                    (s.len() - 1 - i) as nat,
                )) % 10
            &&& n < power::pow(10, s.len())
            &&& 1 < s.len() ==> power::pow(10, (s.len() - 1) as nat) <= n
        }),
{
    law_padded_reads_as_the_number(n, 0);
}

/// A signed number is a minus sign, if it is negative, and then the number
/// without its sign.
pub proof fn law_signed_decimal_reads_as_the_number(n: int)
    ensures
        0 <= n ==> signed_decimal(n) == decimal(n as nat),
        n < 0 ==> signed_decimal(n).len() == decimal((-n) as nat).len() + 1,
        n < 0 ==> signed_decimal(n)[0] == '-',
        n < 0 ==> signed_decimal(n).skip(1) == decimal((-n) as nat),
{
    if n < 0 {
        assert(signed_decimal(n).skip(1) =~= decimal((-n) as nat));
    }
}

/// A number below 100 in two digits: the tens, then the ones.
pub proof fn lemma_two_digits(n: nat)
    requires
        n < 100,
    ensures
        padded(n, 2).len() == 2,
        padded(n, 2)[0] as int == 48 + n / 10,
        padded(n, 2)[1] as int == 48 + n % 10,
{
    lemma_padded_step(n, 2);
    lemma_padded_step(n / 10, 1);
    lemma_digit((n / 10) as int);
    lemma_digit((n % 10) as int);
}

} // verus!
