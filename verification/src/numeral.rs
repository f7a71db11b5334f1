use crate::power;
use vstd::prelude::*;

verus! {

/// A decimal digit.
pub open spec fn is_digit(c: char) -> bool {
    '0' <= c <= '9'
}

/// The number that a decimal digit stands for.
pub open spec fn digit_value(c: char) -> nat {
    (c as nat - '0' as nat) as nat
}

/// The digit that stands for a number below ten.
pub open spec fn digit_char(value: nat) -> char {
    (value + '0' as nat) as char
}

pub open spec fn all_digits(s: Seq<char>) -> bool {
    forall|i: int| 0 <= i < s.len() ==> is_digit(#[trigger] s[i])
}

/// The number that a sequence of digits stands for; zero for the empty sequence.
pub open spec fn numeral_value(s: Seq<char>) -> nat
    decreases s.len(),
{
    if s.len() == 0 {
        0
    } else {
        numeral_value(s.drop_last()) * 10 + digit_value(s.last())
    }
}

/// The digits of a number, without leading zeros; a single zero for zero.
pub open spec fn numeral(n: nat) -> Seq<char>
    decreases n,
{
    if n < 10 {
        seq![digit_char(n)]
    } else {
        numeral(n / 10).push(digit_char(n % 10))
    }
}

/// Reading the digits of a number gives the number back.
pub proof fn lemma_numeral_value(n: nat)
    ensures
        numeral_value(numeral(n)) == n,
        all_digits(numeral(n)),
        numeral(n).len() > 0,
        n > 0 ==> numeral(n)[0] != '0',
        power::pow10((numeral(n).len() - 1) as nat) <= n || n == 0 && numeral(n).len() == 1,
        n < power::pow10(numeral(n).len()),
    decreases n,
{
    reveal_with_fuel(numeral_value, 2);
    reveal_with_fuel(power::pow10, 2);
    if n < 10 {
        assert(numeral(n).drop_last() =~= Seq::<char>::empty());
    } else {
        lemma_numeral_value(n / 10);
        assert(numeral(n).drop_last() =~= numeral(n / 10));
    }
}

/// A digit sequence stands for a number below ten to the power of its length, and its value is at
/// least the place value of its first digit that is not zero.
pub proof fn lemma_numeral_bounds(s: Seq<char>, zeros: nat)
    requires
        all_digits(s),
        zeros <= s.len(),
        forall|i: int| 0 <= i < zeros ==> s[i] == '0',
    ensures
        numeral_value(s) < power::pow10((s.len() - zeros) as nat),
        zeros < s.len() && s[zeros as int] != '0' ==> numeral_value(s) >= power::pow10(
            (s.len() - zeros - 1) as nat,
        ),
        zeros == s.len() ==> numeral_value(s) == 0,
    decreases s.len(),
{
    reveal_with_fuel(power::pow10, 2);
    if s.len() > 0 {
        let front = s.drop_last();
        assert(is_digit(s.last()));
        assert(forall|i: int| 0 <= i < front.len() ==> front[i] == s[i]);
        if zeros == s.len() {
            lemma_numeral_bounds(front, (zeros - 1) as nat);
            assert(s.last() == '0');
        } else {
            lemma_numeral_bounds(front, zeros);
        }
    }
}

} // verus!
