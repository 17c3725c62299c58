//! Decimal and hexadecimal rendering of numbers in diagnostics.

use vstd::prelude::*;

verus! {

/// The character of a hexadecimal digit, in lower case.
pub open spec fn digit_char(digit: int) -> char {
    if digit < 10 {
        ('0' as int + digit) as char
    } else {
        ('a' as int + (digit - 10)) as char
    }
}

/// The decimal digits of a number without leading zeros.
pub open spec fn decimal(value: nat) -> Seq<char>
    decreases value,
{
    if value < 10 {
        seq![digit_char(value as int)]
    } else {
        decimal(value / 10).push(digit_char((value % 10) as int))
    }
}

/// A byte as `0x` and two lower-case hexadecimal digits.
pub open spec fn hex_byte(value: u8) -> Seq<char> {
    seq!['0', 'x', digit_char((value / 16) as int), digit_char((value % 16) as int)]
}

fn digit_text(digit: u8) -> (text: &'static str)
    requires
        digit < 16,
    ensures
        text@ == seq![digit_char(digit as int)],
{
    proof {
        reveal_strlit("0");
        reveal_strlit("1");
        reveal_strlit("2");
        reveal_strlit("3");
        reveal_strlit("4");
        reveal_strlit("5");
        reveal_strlit("6");
        reveal_strlit("7");
        reveal_strlit("8");
        reveal_strlit("9");
        reveal_strlit("a");
        reveal_strlit("b");
        reveal_strlit("c");
        reveal_strlit("d");
        reveal_strlit("e");
        reveal_strlit("f");
    }
    let text = match digit {
        0 => "0",
        1 => "1",
        2 => "2",
        3 => "3",
        4 => "4",
        5 => "5",
        6 => "6",
        7 => "7",
        8 => "8",
        9 => "9",
        10 => "a",
        11 => "b",
        12 => "c",
        13 => "d",
        14 => "e",
        _ => "f",
    };
    assert(text@ =~= seq![digit_char(digit as int)]);
    text
}

pub(crate) fn append_decimal(text: &mut String, value: u64)
    ensures
        final(text)@ == old(text)@ + decimal(value as nat),
    decreases value,
{
    if value < 10 {
        text.append(digit_text(value as u8));
    } else {
        append_decimal(text, value / 10);
        text.append(digit_text((value % 10) as u8));
        assert(text@ =~= old(text)@ + decimal(value as nat));
    }
}

pub(crate) fn append_hex_byte(text: &mut String, value: u8)
    ensures
        final(text)@ == old(text)@ + hex_byte(value),
{
    proof {
        reveal_strlit("0x");
    }
    text.append("0x");
    text.append(digit_text(value / 16));
    text.append(digit_text(value % 16));
    assert(text@ =~= old(text)@ + hex_byte(value));
}

/// The number that decimal digits stand for.
pub open spec fn number_of(digits: Seq<char>) -> int
    decreases digits.len(),
{
    if digits.len() == 0 {
        0
    } else {
        10 * number_of(digits.drop_last()) + (digits.last() as int - '0' as int)
    }
}

/// A number in decimal has only the digits from zero to nine, stands for that
/// number, and starts with a zero only where it is zero.
pub proof fn lemma_decimal_digits(value: nat)
    ensures
        decimal(value).len() >= 1,
        forall|i: int|
            0 <= i < decimal(value).len() ==> '0' <= #[trigger] decimal(value)[i] && decimal(
                value,
            )[i] <= '9',
        number_of(decimal(value)) == value,
        decimal(value)[0] == '0' ==> value == 0,
    decreases value,
{
    if value >= 10 {
        lemma_decimal_digits(value / 10);
        assert(decimal(value).drop_last() =~= decimal(value / 10));
    } else {
        assert(decimal(value).drop_last() =~= seq![]);
        assert(number_of(decimal(value).drop_last()) == 0);
    }
}

/// A byte in hexadecimal is written with its two digits, the upper one first.
pub proof fn lemma_hexadecimal_byte(value: u8)
    ensures
        hex_byte(value).len() == 4,
        hex_byte(value)[0] == '0' && hex_byte(value)[1] == 'x',
        hex_byte(value)[2] as int == if value < 160 {
            48 + value / 16
        } else {
            87 + value / 16
        },
        hex_byte(value)[3] as int == if value % 16 < 10 {
            48 + value % 16
        } else {
            87 + value % 16
        },
{
}

} // verus!
