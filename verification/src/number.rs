//! Decoding the lexeme of a number literal into its digits.

use vstd::prelude::*;
use crate::chars::{char_is_digit, is_digit, run_end, CharClass};
use crate::token::{Decimal, DecimalView};

verus! {

/// The value of the digit `c`; zero for a character that is no digit.
pub open spec fn digit_value(c: char) -> u8 {
    if is_digit(c) {
        (c as int - '0' as int) as u8
    } else {
        0
    }
}

/// The values of the characters of `text`, taken as digits.
pub open spec fn digit_values(text: Seq<char>) -> Seq<u8> {
    Seq::new(text.len(), |i: int| digit_value(text[i]))
}

/// The number that the lexeme `text` of a number literal denotes: the digits
/// of its leading run of digits, and the digits behind the character that ends
/// that run, which in a number literal is its decimal point.
pub open spec fn decimal_of(text: Seq<char>) -> DecimalView {
    let point = run_end(text, 0, CharClass::Digit);
    DecimalView {
        whole: digit_values(text.subrange(0, point)),
        fraction: if point < text.len() {
            digit_values(text.subrange(point + 1, text.len() as int))
        } else {
            Seq::empty()
        },
    }
}

/// Executable [`digit_value`].
pub fn digit_of(c: char) -> (value: u8)
    ensures
        value == digit_value(c),
{
    if char_is_digit(c) {
        (c as u32 - '0' as u32) as u8
    } else {
        0
    }
}

/// The digit values of the characters of `chars` from `from` up to `to`.
pub fn digits_from(chars: &Vec<char>, from: usize, to: usize) -> (digits: Vec<u8>)
    requires
        from <= to <= chars.len(),
    ensures
        digits@ == digit_values(chars@.subrange(from as int, to as int)),
{
    let mut digits: Vec<u8> = Vec::new();
    let mut i: usize = from;
    while i < to
        invariant
            from <= i <= to <= chars.len(),
            digits@ == digit_values(chars@.subrange(from as int, i as int)),
        decreases to - i,
    {
        digits.push(digit_of(chars[i]));
        i = i + 1;
        assert(digits@ =~= digit_values(chars@.subrange(from as int, i as int)));
    }
    digits
}

/// Decodes the lexeme that `chars` holds from `from` up to `to`.
pub fn decimal_from(chars: &Vec<char>, from: usize, to: usize) -> (decimal: Decimal)
    requires
        from <= to <= chars.len(),
    ensures
        decimal@ == decimal_of(chars@.subrange(from as int, to as int)),
{
    let ghost text = chars@.subrange(from as int, to as int);
    let mut point: usize = from;
    while point < to && char_is_digit(chars[point])
        invariant
            from <= point <= to <= chars.len(),
            text == chars@.subrange(from as int, to as int),
            run_end(text, point - from, CharClass::Digit) == run_end(text, 0, CharClass::Digit),
        decreases to - point,
    {
        point = point + 1;
    }
    let whole = digits_from(chars, from, point);
    let fraction = if point < to {
        digits_from(chars, point + 1, to)
    } else {
        Vec::new()
    };
    proof {
        assert(text.subrange(0, point - from) =~= chars@.subrange(from as int, point as int));
        if point < to {
            assert(text.subrange(point - from + 1, text.len() as int) =~= chars@.subrange(
                point + 1,
                to as int,
            ));
        }
    }
    Decimal { whole, fraction }
}

} // verus!
