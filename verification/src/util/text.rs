//! Numbers as text.

use vstd::prelude::*;
use vstd::string::*;

verus! {

/// The digit that stands for `value`, which is less than 16.
pub open spec fn digit(value: nat) -> char {
    if value < 10 {
        ('0' as int + value) as char
    } else {
        ('a' as int + value - 10) as char
    }
}

/// The digits of a number in the given base, from the most significant one to the least.
pub open spec fn digits(number: nat, base: nat) -> Seq<char>
    decreases number,
{
    if number < base || base < 2 {
        seq![digit(number)]
    } else {
        proof {
            assert(number / base < number) by (nonlinear_arith)
                requires
                    2 <= base <= number,
            ;
        }
        digits(number / base, base).push(digit(number % base))
    }
}

fn digit_text(value: u32) -> (text: &'static str)
    requires
        value < 16,
    ensures
        text@ == seq![digit(value as nat)],
{
    proof {
        reveal_strlit("0");
        reveal_strlit("1");
        reveal_strlit("2");
        reveal_strlit("3");
        reveal_strlit("4");
        reveal_strlit("5");
        reveal_strlit("6");
        reveal_strlit("7");
        reveal_strlit("8");
        reveal_strlit("9");
        reveal_strlit("a");
        reveal_strlit("b");
        reveal_strlit("c");
        reveal_strlit("d");
        reveal_strlit("e");
        reveal_strlit("f");
    }
    match value {
        0 => "0",
        1 => "1",
        2 => "2",
        3 => "3",
        4 => "4",
        5 => "5",
        6 => "6",
        7 => "7",
        8 => "8",
        9 => "9",
        10 => "a",
        11 => "b",
        12 => "c",
        13 => "d",
        14 => "e",
        _ => "f",
    }
}

/// Appends the digits of a number in the given base.
pub fn append_number(text: &mut String, number: u32, base: u32)
    requires
        2 <= base <= 16,
    ensures
        final(text)@ == old(text)@ + digits(number as nat, base as nat),
    decreases number,
{
    if number >= base {
        proof {
            assert(number / base < number) by (nonlinear_arith)
                requires
                    2 <= base <= number,
            ;
        }
        append_number(text, number / base, base);
    }
    proof {
        assert(number % base < base) by (nonlinear_arith)
            requires
                2 <= base,
        ;
        if number < base {
            assert(number % base == number) by (nonlinear_arith)
                requires
                    number < base,
            ;
        }
    }
    text.append(digit_text(number % base));
    assert(text@ =~= old(text)@ + digits(number as nat, base as nat));
}

/// The value that a digit stands for.
pub open spec fn digit_value(digit: char) -> int {
    if '0' <= digit <= '9' {
        digit as int - '0' as int
    } else {
        digit as int - 'a' as int + 10
    }
}

/// The number that is read off digits in the given base.
pub open spec fn value_of(digits: Seq<char>, base: nat) -> int
    decreases digits.len(),
{
    if digits.len() == 0 {
        0
    } else {
        value_of(digits.drop_last(), base) * base + digit_value(digits.last())
    }
}

/// The digits of a number give that number back, each of them is a digit of the base, and there is
/// none too many.
pub proof fn law_digits_give_the_number_back(number: nat, base: nat)
    requires
        2 <= base <= 16,
    ensures
        value_of(digits(number, base), base) == number,
        digits(number, base).len() > 0,
        digits(number, base)[0] == '0' ==> digits(number, base).len() == 1,
        forall|i: int|
            0 <= i < digits(number, base).len() ==> {
                let digit = #[trigger] digits(number, base)[i];
                &&& '0' <= digit <= '9' || 'a' <= digit <= 'f'
                &&& digit_value(digit) < base
            },
    decreases number,
{
    let all = digits(number, base);
    if number < base {
        assert(all.drop_last() =~= Seq::<char>::empty());
        assert(value_of(all.drop_last(), base) == 0);
        assert(0 * base == 0);
        assert(number == 0 || all[0] != '0');
    } else {
        assert(number / base < number && number / base >= 1) by (nonlinear_arith)
            requires
                2 <= base <= number,
        ;
        law_digits_give_the_number_back(number / base, base);
        let rest = digits(number / base, base);
        assert(all.drop_last() =~= rest);
        assert(number as int % base as int >= 0 && (number % base) < base) by (nonlinear_arith)
            requires
                2 <= base,
        ;
        vstd::arithmetic::div_mod::lemma_fundamental_div_mod(number as int, base as int);
        assert((number / base) * base == base * (number / base)) by (nonlinear_arith);
        assert(all[0] == rest[0]);
        assert(rest[0] != '0') by {
            if rest[0] == '0' {
                assert(rest.len() == 1);
                assert(rest.drop_last() =~= Seq::<char>::empty());
                assert(value_of(rest.drop_last(), base) == 0);
                assert(0 * base == 0);
                assert(value_of(rest, base) == 0);
            }
        }
        assert forall|i: int| 0 <= i < all.len() implies {
            let digit = #[trigger] all[i];
            &&& '0' <= digit <= '9' || 'a' <= digit <= 'f'
            &&& digit_value(digit) < base
        } by {
            if i < rest.len() {
                assert(all[i] == rest[i]);
            }
        }
    }
}

} // verus!
