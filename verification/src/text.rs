//! Numbers and padded fields as text.

use vstd::prelude::*;
use vstd::string::StrSliceExecFns;
use vstd::string::StringExecFns;
use crate::usage::CpuUsage;
use crate::usage::Usage;

verus! {

/// `String::push` appends the given character to the end of the string and
/// leaves the characters before it as they were.
pub assume_specification[ String::push ](text: &mut String, ch: char)
    ensures
        final(text)@ == old(text)@.push(ch),
;

/// The character that stands for a digit from zero to nine.
pub open spec fn digit_char(digit: nat) -> char {
    if digit == 0 {
        '0'
    } else if digit == 1 {
        '1'
    } else if digit == 2 {
        '2'
    } else if digit == 3 {
        '3'
    } else if digit == 4 {
        '4'
    } else if digit == 5 {
        '5'
    } else if digit == 6 {
        '6'
    } else if digit == 7 {
        '7'
    } else if digit == 8 {
        '8'
    } else {
        '9'
    }
}

/// A number in decimal digits, without leading zeros.
pub open spec fn decimal(n: nat) -> Seq<char>
    decreases n,
{
    if n < 10 {
        seq![digit_char(n)]
    } else {
        decimal(n / 10).push(digit_char(n % 10))
    }
}

/// As many spaces as `count` says.
pub open spec fn spaces(count: nat) -> Seq<char> {
    Seq::new(count, |i: int| ' ')
}

/// How many spaces a text needs to fill a field of `width` characters.
pub open spec fn padding(text: Seq<char>, width: nat) -> nat {
    if text.len() < width {
        (width - text.len()) as nat
    } else {
        0
    }
}

/// The text at the left of a field of `width` characters, filled up with
/// spaces. A text that is longer than the field stands as it is.
pub open spec fn left_justified(text: Seq<char>, width: nat) -> Seq<char> {
    text + spaces(padding(text, width))
}

/// The text at the right of a field of `width` characters, filled up with
/// spaces. A text that is longer than the field stands as it is.
pub open spec fn right_justified(text: Seq<char>, width: nat) -> Seq<char> {
    spaces(padding(text, width)) + text
}

/// How many millionths of a percent make one hundredth of a percent.
pub const UNITS_PER_HUNDREDTH: u128 = 10_000;

/// An amount in hundredths of a percent, rounded to the nearest; half a
/// hundredth rounds up.
pub open spec fn hundredths(millionths: nat) -> nat {
    if 2 * (millionths % UNITS_PER_HUNDREDTH as nat) >= UNITS_PER_HUNDREDTH {
        millionths / UNITS_PER_HUNDREDTH as nat + 1
    } else {
        millionths / UNITS_PER_HUNDREDTH as nat
    }
}

/// A usage as text: the percentage with two decimal places, or `NaN`.
pub open spec fn usage_text(usage: Usage) -> Seq<char> {
    match usage {
        Usage::NotANumber => "NaN"@,
        Usage::Millionths(m) => {
            let h = hundredths(m);
            decimal(h / 100).push('.').push(digit_char((h / 10) % 10)).push(digit_char(h % 10))
        },
    }
}

/// The character of a digit.
fn digit(d: u8) -> (ch: char)
    requires
        d < 10,
    ensures
        ch == digit_char(d as nat),
{
    if d == 0 {
        '0'
    } else if d == 1 {
        '1'
    } else if d == 2 {
        '2'
    } else if d == 3 {
        '3'
    } else if d == 4 {
        '4'
    } else if d == 5 {
        '5'
    } else if d == 6 {
        '6'
    } else if d == 7 {
        '7'
    } else if d == 8 {
        '8'
    } else {
        '9'
    }
}

/// Appends a number in decimal digits.
pub fn push_decimal(text: &mut String, n: u128)
    ensures
        final(text)@ == old(text)@ + decimal(n as nat),
    decreases n,
{
    if n >= 10 {
        push_decimal(text, n / 10);
    }
    text.push(digit((n % 10) as u8));
}

/// Appends spaces.
pub fn push_spaces(text: &mut String, count: usize)
    ensures
        final(text)@ == old(text)@ + spaces(count as nat),
{
    let ghost start = text@;
    for i in 0..count
        invariant
            text@ == start + spaces(i as nat),
    {
        text.push(' ');
    }
}

/// A number in decimal digits.
pub fn decimal_text(n: u128) -> (text: String)
    ensures
        text@ == decimal(n as nat),
{
    let mut text = String::new();
    push_decimal(&mut text, n);
    text
}

/// A usage as text.
pub fn usage_to_text(usage: CpuUsage) -> (text: String)
    ensures
        text@ == usage_text(usage@),
{
    match usage {
        CpuUsage::NotANumber => String::from_str("NaN"),
        CpuUsage::Millionths(m) => {
            let whole = m / UNITS_PER_HUNDREDTH;
            let h = if 2 * (m % UNITS_PER_HUNDREDTH) >= UNITS_PER_HUNDREDTH {
                whole + 1
            } else {
                whole
            };
            let mut text = String::new();
            push_decimal(&mut text, h / 100);
            text.push('.');
            text.push(digit(((h / 10) % 10) as u8));
            text.push(digit((h % 10) as u8));
            text
        },
    }
}

/// Appends a text at the left of a field of `width` characters.
pub fn push_left_justified(line: &mut String, text: &str, width: usize)
    ensures
        final(line)@ == old(line)@ + left_justified(text@, width as nat),
{
    let length = text.unicode_len();
    line.append(text);
    if length < width {
        push_spaces(line, width - length);
    }
    assert(line@ =~= old(line)@ + left_justified(text@, width as nat));
}

/// Appends a text at the right of a field of `width` characters.
pub fn push_right_justified(line: &mut String, text: &str, width: usize)
    ensures
        final(line)@ == old(line)@ + right_justified(text@, width as nat),
{
    let length = text.unicode_len();
    if length < width {
        push_spaces(line, width - length);
    }
    line.append(text);
    assert(line@ =~= old(line)@ + right_justified(text@, width as nat));
}

} // verus!
