//! Reading a number out of what the player typed.

use vstd::prelude::*;

verus! {

/// Whether `c` is a numeric character, as `char::is_numeric` tells it: a
/// character of one of Unicode's three categories of numbers.
pub uninterp spec fn is_numeric(c: char) -> bool;

/// `char::is_numeric`: whether a character is in one of Unicode's
/// categories of numbers. The answer depends on the character alone, and
/// is known here only by its name.
pub assume_specification[ char::is_numeric ](c: char) -> (numeric: bool)
    ensures
        numeric == is_numeric(c),
;

/// Whether `c` is one of the ten digits `0` to `9`.
pub open spec fn is_digit(c: char) -> bool {
    '0' <= c <= '9'
}

/// The number that a string of digits writes. A character that is no
/// digit makes the sum meaningless, and where the string is empty the
/// number is `0`.
pub open spec fn decimal_value(digits: Seq<char>) -> int
    decreases digits.len(),
{
    if digits.len() == 0 {
        0
    } else {
        decimal_value(digits.drop_last()) * 10 + (digits.last() as int - '0' as int)
    }
}

/// What a string reads as: the number it writes, where it is made of
/// digits alone, at least one of them, and the number fits a `u32`.
pub open spec fn decimal_u32(s: Seq<char>) -> Option<u32> {
    if s.len() > 0 && (forall|i: int| 0 <= i < s.len() ==> is_digit(s[i])) && decimal_value(s)
        <= u32::MAX {
        Some(decimal_value(s) as u32)
    } else {
        None
    }
}

/// The numeric characters of `s`, in their order.
pub open spec fn numeric_part(s: Seq<char>) -> Seq<char> {
    s.filter(|c: char| is_numeric(c))
}

/// The numeric characters of `answer`, in their order: every character
/// that `char::is_numeric` does not accept is dropped.
pub fn numeric_chars(answer: &str) -> (kept: Vec<char>)
    ensures
        kept@ == numeric_part(answer@),
{
    let len = answer.unicode_len();
    let mut kept: Vec<char> = Vec::new();
    let ghost pred = |c: char| is_numeric(c);
    let mut i: usize = 0;
    while i < len
        invariant
            0 <= i <= len,
            len == answer@.len(),
            pred == (|c: char| is_numeric(c)),
            kept@ == answer@.take(i as int).filter(pred),
        decreases len - i,
    {
        let c = answer.get_char(i);
        proof {
            assert(answer@.take(i + 1) =~= answer@.take(i as int).push(c));
            answer@.take(i as int).lemma_filter_push(c, pred);
        }
        if c.is_numeric() {
            kept.push(c);
        }
        i += 1;
    }
    assert(answer@.take(len as int) =~= answer@);
    kept
}

/// The number that a string of characters writes in decimal: there is
/// one where the string is made of digits alone, at least one of them, and
/// the number fits a `u32`.
pub fn read_decimal(digits: &Vec<char>) -> (number: Option<u32>)
    ensures
        number == decimal_u32(digits@),
{
    let mut value: u32 = 0;
    let mut fits = true;
    let mut i: usize = 0;
    while i < digits.len()
        invariant
            0 <= i <= digits@.len(),
            forall|k: int| 0 <= k < i ==> is_digit(digits@[k]),
            fits ==> decimal_value(digits@.take(i as int)) == value,
            !fits ==> decimal_value(digits@.take(i as int)) > u32::MAX,
        decreases digits@.len() - i,
    {
        let c = digits[i];
        if !(c >= '0' && c <= '9') {
            return None;
        }
        proof {
            assert(digits@.take(i + 1).drop_last() =~= digits@.take(i as int));
        }
        let digit: u32 = c as u32 - '0' as u32;
        if fits {
            if value > (u32::MAX - digit) / 10 {
                fits = false;
            } else {
                value = value * 10 + digit;
            }
        }
        i += 1;
    }
    assert(digits@.take(digits@.len() as int) =~= digits@);
    if digits.len() > 0 && fits {
        Some(value)
    } else {
        None
    }
}

/// The number that the player typed: every character of the answer that
/// is not numeric is passed over, and what is left is read as a decimal
/// number. There is none where nothing is left, where a numeric character
/// is left that is no digit, or where the number does not fit a `u32`.
pub fn parse_count(answer: &str) -> (count: Option<u32>)
    ensures
        count == decimal_u32(numeric_part(answer@)),
{
    let kept = numeric_chars(answer);
    read_decimal(&kept)
}

} // verus!
