//! Unsigned decimal numbers in text.

use vstd::prelude::*;

verus! {

/// Whether `c` is one of the ten ASCII digits.
pub open spec fn is_digit(c: char) -> bool {
    '0' <= c <= '9'
}

/// The number that `digits` stand for, the most significant first.
pub open spec fn digits_value(digits: Seq<char>) -> nat
    decreases digits.len(),
{
    if digits.len() == 0 {
        0
    } else {
        (10 * digits_value(digits.drop_last()) + (digits.last() as int - '0' as int)) as nat
    }
}

/// The digits of a number without a sign in front.
pub open spec fn unsigned_part(text: Seq<char>) -> Seq<char> {
    if text.len() > 0 && text[0] == '+' {
        text.skip(1)
    } else {
        text
    }
}

/// The number that `text` stands for: at least one digit and nothing else, but
/// for a plus sign in front.
pub open spec fn decimal_value(text: Seq<char>) -> Option<nat> {
    let digits = unsigned_part(text);
    if digits.len() > 0 && (forall|i: int| 0 <= i < digits.len() ==> is_digit(#[trigger] digits[i])) {
        Some(digits_value(digits))
    } else {
        None
    }
}

/// The number that `text` stands for, or zero if it stands for none or for one
/// above `max`.
pub open spec fn value_or_zero(text: Seq<char>, max: nat) -> nat {
    match decimal_value(text) {
        Some(value) => if value <= max {
            value
        } else {
            0
        },
        None => 0,
    }
}

/// More digits never make a number smaller.
proof fn lemma_digits_value_grows(digits: Seq<char>, n: int)
    requires
        0 <= n <= digits.len(),
        forall|i: int| 0 <= i < digits.len() ==> is_digit(#[trigger] digits[i]),
    ensures
        digits_value(digits.take(n)) <= digits_value(digits),
    decreases digits.len(),
{
    if n < digits.len() {
        lemma_digits_value_grows(digits.drop_last(), n);
        assert(digits.drop_last().take(n) =~= digits.take(n));
        assert(is_digit(digits.last()));
    } else {
        assert(digits.take(n) =~= digits);
    }
}

/// Reads the number that `text` stands for. Returns zero if it stands for none
/// or for one above `max`.
pub fn parse_or_zero(text: &Vec<char>, max: u128) -> (value: u128)
    ensures
        value == value_or_zero(text@, max as nat),
{
    let ghost digits = unsigned_part(text@);
    let start: usize = if text.len() > 0 && text[0] == '+' {
        1
    } else {
        0
    };
    if start == text.len() {
        return 0;
    }
    let mut value: u128 = 0;
    for i in start..text.len()
        invariant
            start <= text.len(),
            digits.len() == text.len() - start,
            forall|j: int| 0 <= j < digits.len() ==> digits[j] == #[trigger] text@[j + start],
            digits == unsigned_part(text@),
            forall|j: int| 0 <= j < i - start ==> is_digit(#[trigger] digits[j]),
            value == digits_value(digits.take(i - start)),
            value <= max,
    {
        let c: char = text[i];
        let ghost before = digits.take(i - start);
        let ghost after = digits.take(i - start + 1);
        proof {
            assert(digits[i - start] == text@[i as int]);
            assert(after.drop_last() =~= before);
            assert(after.last() == c);
        }
        if c < '0' || c > '9' {
            assert(!is_digit(digits[i - start]));
            return 0;
        }
        let digit: u128 = (c as u32 - '0' as u32) as u128;
        if digit > max || value > (max - digit) / 10 {
            proof {
                assert(digits_value(after) > max);
                if forall|j: int| 0 <= j < digits.len() ==> is_digit(#[trigger] digits[j]) {
                    lemma_digits_value_grows(digits, i - start + 1);
                }
            }
            return 0;
        }
        value = value * 10 + digit;
    }
    assert(digits.take(digits.len() as int) =~= digits);
    value
}

/// The ASCII digit for a number below ten.
pub open spec fn digit_char(digit: nat) -> char {
    ('0' as int + digit) as char
}

/// The digits of a number, the most significant first and without leading
/// zeros.
pub open spec fn decimal_digits(number: nat) -> Seq<char>
    decreases number,
{
    if number < 10 {
        seq![digit_char(number)]
    } else {
        decimal_digits(number / 10).push(digit_char(number % 10))
    }
}

/// A number that is written out in digits is read back as it was.
pub proof fn law_decimal_digits_are_read_back(number: nat)
    ensures
        decimal_value(decimal_digits(number)) == Some(number),
        forall|i: int|
            0 <= i < decimal_digits(number).len() ==> is_digit(
                #[trigger] decimal_digits(number)[i],
            ),
    decreases number,
{
    let digits = decimal_digits(number);
    if number < 10 {
        assert(digits.drop_last() =~= Seq::<char>::empty());
        assert(digits_value(digits.drop_last()) == 0);
    } else {
        law_decimal_digits_are_read_back(number / 10);
        let front = decimal_digits(number / 10);
        assert(digits.drop_last() =~= front);
        assert(is_digit(front[0]));
        assert(unsigned_part(front) == front);
        assert(digits[0] == front[0]);
    }
    assert(is_digit(digits[0]));
    assert(unsigned_part(digits) == digits);
}

/// A text stands for a number if and only if it is made of ASCII digits, at
/// least one of them, but for one plus sign in front.
pub proof fn law_numbers_are_digits(text: Seq<char>)
    ensures
        decimal_value(text) is Some <==> {
            ||| text.len() > 0 && forall|i: int|
                0 <= i < text.len() ==> 48 <= (#[trigger] text[i]) as int <= 57
            ||| text.len() > 1 && text[0] == '+' && forall|i: int|
                1 <= i < text.len() ==> 48 <= (#[trigger] text[i]) as int <= 57
        },
{
    let digits = unsigned_part(text);
    if text.len() > 0 && text[0] == '+' {
        assert(!(48 <= text[0] as int <= 57));
        assert forall|i: int| 0 <= i < digits.len() implies digits[i] == #[trigger] text[i + 1] by {
        }
        if decimal_value(text) is Some {
            assert forall|i: int| 1 <= i < text.len() implies 48 <= (#[trigger] text[i]) as int
                <= 57 by {
                assert(is_digit(digits[i - 1]));
            }
        }
        if forall|i: int| 1 <= i < text.len() ==> 48 <= (#[trigger] text[i]) as int <= 57 {
            assert forall|i: int| 0 <= i < digits.len() implies is_digit(#[trigger] digits[i]) by {
                assert(48 <= text[i + 1] as int <= 57);
            }
        }
    } else {
        assert(digits == text);
        if decimal_value(text) is Some {
            assert forall|i: int| 0 <= i < text.len() implies 48 <= (#[trigger] text[i]) as int
                <= 57 by {
                assert(is_digit(digits[i]));
            }
        }
        if forall|i: int| 0 <= i < text.len() ==> 48 <= (#[trigger] text[i]) as int <= 57 {
            assert forall|i: int| 0 <= i < digits.len() implies is_digit(#[trigger] digits[i]) by {
                assert(48 <= text[i] as int <= 57);
            }
        }
    }
}

/// A plus sign in front of digits changes nothing.
pub proof fn law_plus_sign_changes_nothing(digits: Seq<char>)
    requires
        digits.len() > 0,
        digits[0] != '+',
    ensures
        decimal_value(seq!['+'] + digits) == decimal_value(digits),
{
    assert((seq!['+'] + digits).skip(1) =~= digits);
}

/// A digit behind a number multiplies it by ten and adds the worth of the digit.
/// A single digit has its own worth.
pub proof fn law_digits_have_place_values(number: Seq<char>, digit: char)
    requires
        48 <= digit as int <= 57,
    ensures
        decimal_value(seq![digit]) == Some((digit as int - 48) as nat),
        decimal_value(number) matches Some(value) ==> decimal_value(number.push(digit)) == Some(
            (10 * value + (digit as int - 48)) as nat,
        ),
{
    let single = seq![digit];
    assert(unsigned_part(single) == single);
    assert(is_digit(single[0]));
    assert(single.drop_last() =~= Seq::<char>::empty());
    assert(digits_value(single.drop_last()) == 0);
    if decimal_value(number) is Some {
        let front = unsigned_part(number);
        let longer = number.push(digit);
        assert(unsigned_part(longer) =~= front.push(digit));
        assert(front.push(digit).drop_last() =~= front);
        assert forall|i: int| 0 <= i < front.push(digit).len() implies is_digit(
            #[trigger] front.push(digit)[i],
        ) by {
            if i < front.len() {
                assert(is_digit(front[i]));
            }
        }
    }
}

/// A number up to the limit is kept, and everything else counts as zero.
pub proof fn law_only_numbers_in_range_count(text: Seq<char>, max: nat)
    ensures
        decimal_value(text) is None ==> value_or_zero(text, max) == 0,
        decimal_value(text) matches Some(value) ==> {
            &&& value <= max ==> value_or_zero(text, max) == value
            &&& value > max ==> value_or_zero(text, max) == 0
        },
{
}

} // verus!
