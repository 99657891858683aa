//! Decoding of the numbers that a header gives: decimal and hexadecimal digits
//! to a value of eight bits.

use vstd::prelude::*;
use crate::error::ParseError;

verus! {

/// The base in which the digits of a number are written.
#[derive(Clone, Copy, Debug, PartialEq, Eq, Structural)]
pub enum Radix {
    Decimal,
    Hexadecimal,
}

impl Radix {
    /// The number of distinct digits: ten or sixteen.
    pub open spec fn base(self) -> int {
        match self {
            Radix::Decimal => 10,
            Radix::Hexadecimal => 16,
        }
    }
}

/// The value of `c` as a digit, whatever the base: `0` to `9`, then `A` to `F`
/// in either case for ten to fifteen. `None` for any other character.
pub open spec fn digit_value(c: char) -> Option<int> {
    let code = c as u32 as int;
    if 0x30 <= code <= 0x39 {
        Some(code - 0x30)
    } else if 0x41 <= code <= 0x46 {
        Some(code - 0x41 + 10)
    } else if 0x61 <= code <= 0x66 {
        Some(code - 0x61 + 10)
    } else {
        None
    }
}

/// Whether `c` is a digit of the base `radix`.
pub open spec fn is_digit(c: char, radix: Radix) -> bool {
    match digit_value(c) {
        Some(d) => d < radix.base(),
        None => false,
    }
}

/// Whether `digits` is one digit or more of the base `radix`, and nothing else.
pub open spec fn is_number(digits: Seq<char>, radix: Radix) -> bool {
    &&& digits.len() > 0
    &&& forall|i: int| 0 <= i < digits.len() ==> is_digit(#[trigger] digits[i], radix)
}

/// The number that `digits` denote in the base `radix`, most significant digit
/// first.
pub open spec fn number_value(digits: Seq<char>, radix: Radix) -> int
    decreases digits.len(),
{
    if digits.len() == 0 {
        0
    } else {
        number_value(digits.drop_last(), radix) * radix.base() + digit_value(
            digits.last(),
        ).unwrap()
    }
}

/// What decoding `digits` gives: their value where they are a number that fits
/// in eight bits, and otherwise the reason why not.
pub open spec fn decode_u8(digits: Seq<char>, radix: Radix) -> Result<u8, ParseError> {
    if !is_number(digits, radix) {
        Err(ParseError::MalformedDefinition)
    } else if number_value(digits, radix) > u8::MAX {
        Err(ParseError::NumericOverflow)
    } else {
        Ok(number_value(digits, radix) as u8)
    }
}

/// The value of a number is never negative, and grows with every digit added.
pub proof fn lemma_number_value_grows(digits: Seq<char>, radix: Radix)
    requires
        is_number(digits, radix),
    ensures
        0 <= number_value(digits.drop_last(), radix) <= number_value(digits, radix),
    decreases digits.len(),
{
    let head = digits.drop_last();
    if head.len() > 0 {
        assert forall|i: int| 0 <= i < head.len() implies is_digit(#[trigger] head[i], radix) by {
            assert(head[i] == digits[i]);
        }
        lemma_number_value_grows(head, radix);
    }
    let v = number_value(head, radix);
    assert(is_digit(digits[digits.len() - 1], radix));
    assert(0 <= v);
    assert(v * radix.base() >= v) by (nonlinear_arith)
        requires
            0 <= v,
            radix.base() >= 1,
    ;
}

/// The value of the digit `c` in the base `radix`, if it is one.
pub fn digit_of(c: char, radix: Radix) -> (r: Option<u32>)
    ensures
        r is Some <==> is_digit(c, radix),
        r matches Some(d) ==> digit_value(c) == Some(d as int),
{
    let code: u32 = c as u32;
    let value: u32 = if 0x30 <= code && code <= 0x39 {
        code - 0x30
    } else if 0x41 <= code && code <= 0x46 {
        code - 0x41 + 10
    } else if 0x61 <= code && code <= 0x66 {
        code - 0x61 + 10
    } else {
        return None;
    };
    let base: u32 = match radix {
        Radix::Decimal => 10,
        Radix::Hexadecimal => 16,
    };
    if value < base {
        Some(value)
    } else {
        None
    }
}

/// Decodes `digits`, written in the base `radix`, to a value of eight bits.
///
/// Leading zeros do not count towards the size of the number. Digits that are
/// no number at all are reported before a number that is too large.
pub fn parse_u8(digits: &str, radix: Radix) -> (r: Result<u8, ParseError>)
    ensures
        r == decode_u8(digits@, radix),
{
    let n = digits.unicode_len();
    if n == 0 {
        return Err(ParseError::MalformedDefinition);
    }
    let base: u32 = match radix {
        Radix::Decimal => 10,
        Radix::Hexadecimal => 16,
    };
    let mut value: u32 = 0;
    let mut fits = true;
    let mut i: usize = 0;
    while i < n
        invariant
            i <= n,
            n == digits@.len(),
            base == radix.base(),
            is_number(digits@.take(i as int), radix) || i == 0,
            fits ==> value == number_value(digits@.take(i as int), radix) && value <= u8::MAX,
            !fits ==> number_value(digits@.take(i as int), radix) > u8::MAX,
        decreases n - i,
    {
        let ghost before = digits@.take(i as int);
        let ghost after = digits@.take(i + 1);
        proof {
            assert(after.drop_last() =~= before);
            assert(after.last() == digits@[i as int]);
        }
        match digit_of(digits.get_char(i), radix) {
            None => {
                assert(!is_digit(digits@[i as int], radix));
                return Err(ParseError::MalformedDefinition);
            },
            Some(d) => {
                proof {
                    assert forall|k: int| 0 <= k < after.len() implies is_digit(
                        #[trigger] after[k],
                        radix,
                    ) by {
                        if k < i {
                            assert(before[k] == after[k]);
                        }
                    }
                    lemma_number_value_grows(after, radix);
                }
                if fits {
                    let next: u32 = value * base + d;
                    if next > 255 {
                        fits = false;
                    } else {
                        value = next;
                    }
                }
            },
        }
        i += 1;
    }
    proof {
        assert(digits@.take(n as int) =~= digits@);
    }
    if fits {
        Ok(value as u8)
    } else {
        Err(ParseError::NumericOverflow)
    }
}

} // verus!
