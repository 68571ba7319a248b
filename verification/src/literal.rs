//! From the text of a number node to its value.

use vstd::prelude::*;
use crate::error::BuildError;
use crate::text::chars_of;

verus! {

/// The value of a character as a digit: `0` to `9` stand for themselves, the
/// letters of either case for 10 to 35. Every other character gets 36, which
/// is a digit of no base.
pub open spec fn digit(c: char) -> int {
    if '0' <= c <= '9' {
        c as int - '0' as int
    } else if 'a' <= c <= 'z' {
        c as int - 'a' as int + 10
    } else if 'A' <= c <= 'Z' {
        c as int - 'A' as int + 10
    } else {
        36
    }
}

/// Whether `c` is a digit of base `radix`.
pub open spec fn is_digit(c: char, radix: int) -> bool {
    digit(c) < radix
}

/// Whether `digits` is a digit sequence of base `radix`: at least one
/// character, and digits of that base only.
pub open spec fn is_number(digits: Seq<char>, radix: int) -> bool {
    &&& digits.len() > 0
    &&& forall|i: int| 0 <= i < digits.len() ==> is_digit(#[trigger] digits[i], radix)
}

/// The number that `digits` writes in base `radix`, most significant digit
/// first.
pub open spec fn digits_value(digits: Seq<char>, radix: int) -> int
    decreases digits.len(),
{
    if digits.len() == 0 {
        0
    } else {
        digits_value(digits.drop_last(), radix) * radix + digit(digits.last())
    }
}

/// The integer that `text` writes in base `radix`: a digit sequence, which
/// one `+` or `-` may precede. `None` if `text` is not of that form.
pub open spec fn integer_of(text: Seq<char>, radix: int) -> Option<int> {
    let signed = text.len() > 0 && (text[0] == '+' || text[0] == '-');
    let digits = if signed { text.drop_first() } else { text };
    if !is_number(digits, radix) {
        None
    } else if signed && text[0] == '-' {
        Some(-digits_value(digits, radix))
    } else {
        Some(digits_value(digits, radix))
    }
}

/// Whether `text` begins with `0` and then `mark`.
pub open spec fn has_base_prefix(text: Seq<char>, mark: char) -> bool {
    text.len() >= 2 && text[0] == '0' && text[1] == mark
}

/// The value of an integer literal. After `0b` the rest is read in base 2,
/// after `0x` in base 16; any other text is read whole in base 10. A text
/// that is no integer of its base is malformed; an integer that 16 signed
/// bits cannot hold is out of range.
pub open spec fn literal_value(text: Seq<char>) -> Result<i16, BuildError> {
    let integer = if has_base_prefix(text, 'b') {
        integer_of(text.skip(2), 2)
    } else if has_base_prefix(text, 'x') {
        integer_of(text.skip(2), 16)
    } else {
        integer_of(text, 10)
    };
    match integer {
        None => Err(BuildError::LiteralMalformed),
        Some(value) => if i16::MIN <= value <= i16::MAX {
            Ok(value as i16)
        } else {
            Err(BuildError::LiteralOutOfRange)
        },
    }
}

/// The value of `c` as a digit.
pub(crate) fn digit_of(c: char) -> (d: u32)
    ensures
        d == digit(c),
{
    if '0' <= c && c <= '9' {
        c as u32 - '0' as u32
    } else if 'a' <= c && c <= 'z' {
        c as u32 - 'a' as u32 + 10
    } else if 'A' <= c && c <= 'Z' {
        c as u32 - 'A' as u32 + 10
    } else {
        36
    }
}

/// No digit sequence is worth less than zero.
proof fn value_not_negative(digits: Seq<char>, radix: int)
    requires
        radix >= 1,
    ensures
        digits_value(digits, radix) >= 0,
    decreases digits.len(),
{
    if digits.len() > 0 {
        value_not_negative(digits.drop_last(), radix);
        let shorter = digits_value(digits.drop_last(), radix);
        assert(shorter * radix >= 0) by (nonlinear_arith)
            requires
                shorter >= 0,
                radix >= 1,
        ;
    }
}

/// What `chars`, from `start` on, writes in base `radix`, if that is a digit
/// sequence: its value where it is at most 32768, and 32769 for any greater.
fn magnitude(chars: &Vec<char>, start: usize, radix: u32) -> (m: Option<u32>)
    requires
        start <= chars.len(),
        2 <= radix <= 36,
    ensures
        m is Some <==> is_number(chars@.skip(start as int), radix as int),
        match m {
            Some(m) => {
                let value = digits_value(chars@.skip(start as int), radix as int);
                m == if value <= 32768 { value } else { 32769 }
            },
            None => true,
        },
{
    let ghost digits = chars@.skip(start as int);
    if start == chars.len() {
        return None;
    }
    let mut value: u32 = 0;
    let mut i: usize = start;
    while i < chars.len()
        invariant
            start <= i <= chars.len(),
            2 <= radix <= 36,
            digits == chars@.skip(start as int),
            forall|j: int| 0 <= j < i - start ==> is_digit(#[trigger] digits[j], radix as int),
            value <= 32769,
            value == if digits_value(digits.take(i - start), radix as int) <= 32768 {
                digits_value(digits.take(i - start), radix as int)
            } else {
                32769
            },
        decreases chars.len() - i,
    {
        let d = digit_of(chars[i]);
        if d >= radix {
            assert(!is_digit(digits[i - start], radix as int));
            return None;
        }
        proof {
            let longer = digits.take(i - start + 1);
            assert(longer.drop_last() =~= digits.take(i - start));
            assert(longer.last() == chars[i as int]);
            let shorter = digits_value(digits.take(i - start), radix as int);
            value_not_negative(digits.take(i - start), radix as int);
            if shorter > 32768 {
                assert(shorter * radix >= shorter) by (nonlinear_arith)
                    requires
                        shorter >= 0,
                        radix >= 1,
                ;
            }
        }
        if value > 32768 {
            value = 32769;
        } else {
            assert(value * radix <= 32768 * 36) by (nonlinear_arith)
                requires
                    value <= 32768,
                    radix <= 36,
            ;
            let next = value * radix + d;
            value = if next > 32768 { 32769 } else { next };
        }
        i = i + 1;
    }
    assert(digits.take(i - start) =~= digits);
    Some(value)
}

/// The integer that `chars`, from `start` on, writes in base `radix`, as a
/// literal's value.
fn resolve(chars: &Vec<char>, start: usize, radix: u32) -> (r: Result<i16, BuildError>)
    requires
        start <= chars.len(),
        2 <= radix <= 36,
    ensures
        r == match integer_of(chars@.skip(start as int), radix as int) {
            None => Err(BuildError::LiteralMalformed),
            Some(value) => if i16::MIN <= value <= i16::MAX {
                Ok(value as i16)
            } else {
                Err(BuildError::LiteralOutOfRange)
            },
        },
{
    let ghost text = chars@.skip(start as int);
    let signed = start < chars.len() && (chars[start] == '+' || chars[start] == '-');
    let negative = signed && chars[start] == '-';
    let first = if signed { start + 1 } else { start };
    proof {
        if signed {
            assert(text.drop_first() =~= chars@.skip(first as int));
        }
        value_not_negative(chars@.skip(first as int), radix as int);
    }
    match magnitude(chars, first, radix) {
        None => Err(BuildError::LiteralMalformed),
        Some(m) => {
            if negative {
                if m <= 32768 {
                    Ok((-(m as i32)) as i16)
                } else {
                    Err(BuildError::LiteralOutOfRange)
                }
            } else if m <= 32767 {
                Ok(m as i16)
            } else {
                Err(BuildError::LiteralOutOfRange)
            }
        },
    }
}

/// Resolves the text of an integer literal.
pub fn convert_str_to_int(val: &str) -> (r: Result<i16, BuildError>)
    ensures
        r == literal_value(val@),
{
    let chars = chars_of(val);
    if chars.len() >= 2 && chars[0] == '0' && chars[1] == 'b' {
        resolve(&chars, 2, 2)
    } else if chars.len() >= 2 && chars[0] == '0' && chars[1] == 'x' {
        resolve(&chars, 2, 16)
    } else {
        assert(chars@.skip(0) =~= chars@);
        resolve(&chars, 0, 10)
    }
}

/// The mark that follows `0` in the prefix of a base.
pub open spec fn base_mark(radix: int) -> char {
    if radix == 2 {
        'b'
    } else {
        'x'
    }
}

/// A literal of digits alone, behind the prefix of base 2 or 16, is worth
/// what the digits write in that base, provided 16 signed bits hold it; a
/// greater one is out of range.
pub proof fn prefixed_literal_value(digits: Seq<char>, radix: int)
    requires
        radix == 2 || radix == 16,
        is_number(digits, radix),
    ensures
        literal_value(seq!['0', base_mark(radix)] + digits) == if digits_value(digits, radix)
            <= i16::MAX {
            Ok::<i16, BuildError>(digits_value(digits, radix) as i16)
        } else {
            Err(BuildError::LiteralOutOfRange)
        },
{
    let text = seq!['0', base_mark(radix)] + digits;
    assert(text.skip(2) =~= digits);
    assert(is_digit(digits[0], radix));
    value_not_negative(digits, radix);
}

/// A literal of decimal digits alone is worth what the digits write,
/// provided 16 signed bits hold it; a greater one is out of range.
pub proof fn decimal_literal_value(digits: Seq<char>)
    requires
        is_number(digits, 10),
    ensures
        literal_value(digits) == if digits_value(digits, 10) <= i16::MAX {
            Ok::<i16, BuildError>(digits_value(digits, 10) as i16)
        } else {
            Err(BuildError::LiteralOutOfRange)
        },
{
    assert(is_digit(digits[0], 10));
    if digits.len() >= 2 {
        assert(is_digit(digits[1], 10));
    }
    value_not_negative(digits, 10);
}

} // verus!
