//! Unsigned decimal numerals: reading them, as they appear on a command
//! line, and writing them.

use vstd::prelude::*;

verus! {

/// Why a piece of text is not a number that can be used.
#[derive(Clone, Copy, Debug, PartialEq, Eq, Structural)]
pub enum NumberError {
    /// The text is empty.
    Empty,
    /// A character that is no decimal digit was met, or there is no digit at all.
    InvalidDigit,
    /// The digits read so far already stand for more than the largest value allowed.
    TooLarge,
    /// The number is zero where a positive one is needed.
    Zero,
}

/// `c` is one of the ten decimal digits.
pub open spec fn is_digit(c: char) -> bool {
    '0' <= c <= '9'
}

/// The value of a decimal digit.
pub open spec fn digit_value(c: char) -> nat
    recommends
        is_digit(c),
{
    (c as nat - '0' as nat) as nat
}

/// Every character of `digits` is a decimal digit.
pub open spec fn all_digits(digits: Seq<char>) -> bool {
    forall|i: int| 0 <= i < digits.len() ==> is_digit(#[trigger] digits[i])
}

/// The number that a string of decimal digits stands for, most significant
/// digit first. The empty string stands for zero.
pub open spec fn decimal_value(digits: Seq<char>) -> nat
    decreases digits.len(),
{
    if digits.len() == 0 {
        0
    } else {
        10 * decimal_value(digits.drop_last()) + digit_value(digits.last())
    }
}

/// `digits` holds digits only and stands for a number of at most `max`.
pub open spec fn reads_within(digits: Seq<char>, max: nat) -> bool {
    all_digits(digits) && decimal_value(digits) <= max
}

/// The digits of a numeral: the text without the plus sign it may begin with.
pub open spec fn numeral_digits(text: Seq<char>) -> Seq<char> {
    if text.len() > 0 && text[0] == '+' {
        text.drop_first()
    } else {
        text
    }
}

/// Reading `digits` from the left meets a character that is no digit while
/// the digits before it still stand for a number of at most `max`.
pub open spec fn stops_at_non_digit(digits: Seq<char>, max: nat) -> bool {
    exists|i: int|
        0 <= i < digits.len() && !is_digit(digits[i]) && reads_within(
            #[trigger] digits.take(i),
            max,
        )
}

/// What a piece of text means as an unsigned decimal number of at most `max`.
///
/// A numeral is an optional plus sign followed by at least one decimal digit
/// and nothing else; leading zeros are allowed. Text that is no such numeral,
/// or whose number is above `max`, has no value. The text is read from the
/// left, and the error names what is met first: a character that is no
/// digit, or a digit with which the number outgrows `max`.
pub open spec fn parse_unsigned(text: Seq<char>, max: nat) -> Result<nat, NumberError> {
    let digits = numeral_digits(text);
    if text.len() == 0 {
        Err(NumberError::Empty)
    } else if digits.len() == 0 {
        Err(NumberError::InvalidDigit)
    } else if reads_within(digits, max) {
        Ok(decimal_value(digits))
    } else if stops_at_non_digit(digits, max) {
        Err(NumberError::InvalidDigit)
    } else {
        Err(NumberError::TooLarge)
    }
}

/// A longer prefix of a digit string never stands for a smaller number.
pub proof fn lemma_value_grows(digits: Seq<char>, shorter: int, longer: int)
    requires
        0 <= shorter <= longer <= digits.len(),
    ensures
        decimal_value(digits.take(shorter)) <= decimal_value(digits.take(longer)),
    decreases longer - shorter,
{
    if shorter < longer {
        lemma_value_grows(digits, shorter, longer - 1);
        assert(digits.take(longer).drop_last() =~= digits.take(longer - 1));
    }
}

/// Reads `text` as an unsigned decimal number of at most `max`.
pub fn read_unsigned(text: &str, max: u64) -> (number: Result<u64, NumberError>)
    ensures
        match number {
            Ok(value) => parse_unsigned(text@, max as nat) == Ok::<nat, NumberError>(
                value as nat,
            ),
            Err(error) => parse_unsigned(text@, max as nat) == Err::<nat, NumberError>(error),
        },
{
    let ghost digits = numeral_digits(text@);
    let ghost signed = text@.len() > 0 && text@[0] == '+';
    let ghost mut read: int = 0;
    let mut value: u64 = 0;
    let mut at_start = true;
    let mut any_digit = false;
    for c in it: text.chars()
        invariant
            it.seq() == text@,
            digits == numeral_digits(text@),
            signed == (text@.len() > 0 && text@[0] == '+'),
            at_start == (it.index() == 0),
            any_digit == (read > 0),
            0 <= read <= digits.len(),
            it.index() == (if signed && !at_start { read + 1 } else { read }),
            reads_within(digits.take(read), max as nat),
            value == decimal_value(digits.take(read)),
    {
        if at_start && c == '+' {
            at_start = false;
        } else if '0' <= c && c <= '9' {
            let digit: u128 = (c as u32 - '0' as u32) as u128;
            let next: u128 = 10 * (value as u128) + digit;
            proof {
                assert(digits.take(read + 1).drop_last() =~= digits.take(read));
            }
            if next > max as u128 {
                proof {
                    assert forall|i: int|
                        0 <= i < digits.len() && !is_digit(
                            digits[i],
                        ) implies !reads_within(#[trigger] digits.take(i), max as nat) by {
                        if i < read {
                            assert(digits.take(read)[i] == digits[i]);
                        } else {
                            lemma_value_grows(digits, read + 1, i);
                        }
                    }
                    lemma_value_grows(digits, read + 1, digits.len() as int);
                    assert(digits.take(digits.len() as int) =~= digits);
                }
                return Err(NumberError::TooLarge);
            }
            value = next as u64;
            at_start = false;
            any_digit = true;
            proof {
                assert(all_digits(digits.take(read + 1))) by {
                    assert(forall|i: int|
                        0 <= i < read ==> digits.take(read + 1)[i] == digits.take(read)[i]);
                }
                read = read + 1;
            }
        } else {
            return Err(NumberError::InvalidDigit);
        }
    }
    assert(digits.take(read) =~= digits);
    if at_start {
        Err(NumberError::Empty)
    } else if !any_digit {
        Err(NumberError::InvalidDigit)
    } else {
        Ok(value)
    }
}

/// The character that stands for a digit's value.
pub open spec fn digit_char(value: nat) -> char
    recommends
        value < 10,
{
    ('0' as nat + value) as char
}

/// The decimal numeral of a number: its digits, most significant first,
/// with no sign and no leading zero.
pub open spec fn decimal_digits(value: nat) -> Seq<char>
    decreases value,
{
    if value < 10 {
        seq![digit_char(value)]
    } else {
        decimal_digits(value / 10).push(digit_char(value % 10))
    }
}

/// The text of one digit.
fn digit_text(value: u64) -> (text: &'static str)
    requires
        value < 10,
    ensures
        text@ == seq![digit_char(value as nat)],
{
    proof {
        reveal_strlit("0");
        reveal_strlit("1");
        reveal_strlit("2");
        reveal_strlit("3");
        reveal_strlit("4");
        reveal_strlit("5");
        reveal_strlit("6");
        reveal_strlit("7");
        reveal_strlit("8");
        reveal_strlit("9");
    }
    let text = if value == 0 {
        "0"
    } else if value == 1 {
        "1"
    } else if value == 2 {
        "2"
    } else if value == 3 {
        "3"
    } else if value == 4 {
        "4"
    } else if value == 5 {
        "5"
    } else if value == 6 {
        "6"
    } else if value == 7 {
        "7"
    } else if value == 8 {
        "8"
    } else {
        "9"
    };
    text
}

/// Writes the decimal numeral of `value` at the end of `out`.
pub fn write_decimal(value: u64, out: &mut String)
    ensures
        final(out)@ == old(out)@ + decimal_digits(value as nat),
    decreases value,
{
    if value >= 10 {
        write_decimal(value / 10, out);
    }
    out.append(digit_text(value % 10));
    proof {
        if value >= 10 {
            assert(old(out)@ + decimal_digits(value as nat / 10) + seq![
                digit_char(value as nat % 10),
            ] =~= old(out)@ + decimal_digits(value as nat));
        }
    }
}

/// A numeral reads back as its number: what `write_decimal` writes for a
/// number of at most `max` is read by `read_unsigned` as that number.
pub proof fn lemma_numeral_reads_back(value: nat, max: nat)
    requires
        value <= max,
    ensures
        parse_unsigned(decimal_digits(value), max) == Ok::<nat, NumberError>(value),
        decimal_digits(value).len() > 0,
        all_digits(decimal_digits(value)),
        decimal_value(decimal_digits(value)) == value,
    decreases value,
{
    let digits = decimal_digits(value);
    if value < 10 {
        assert(decimal_value(digits.drop_last()) == 0);
    } else {
        lemma_numeral_reads_back(value / 10, max);
        assert(digits.drop_last() =~= decimal_digits(value / 10));
    }
}

} // verus!
