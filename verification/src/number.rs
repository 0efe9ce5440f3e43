//! Decimal numbers, written and read.
use vstd::prelude::*;

use crate::text::to_chars;

verus! {

/// The digit for a number below ten.
pub open spec fn digit_char(d: int) -> char {
    ('0' as int + d) as char
}

/// `n` in decimal, without leading zeros.
pub open spec fn decimal_of(n: nat) -> Seq<char>
    decreases n,
{
    if n < 10 {
        seq![digit_char(n as int)]
    } else {
        decimal_of(n / 10).push(digit_char(n as int % 10))
    }
}

/// Writes `n` in decimal.
pub fn decimal(n: u64) -> (out: String)
    ensures
        out@ == decimal_of(n as nat),
    decreases n,
{
    let mut out = if n < 10 {
        String::new()
    } else {
        decimal(n / 10)
    };
    let digit: u8 = 48 + (n % 10) as u8;
    out.push(digit as char);
    assert(n < 10 ==> out@ == seq![digit_char(n as int)]);
    out
}

/// Why a text is not a number of 64 bits.
#[derive(Debug, Clone, Copy, PartialEq, Eq, Structural)]
pub enum NumberError {
    /// There is nothing to read.
    Empty,
    /// A character that has no place in a number.
    InvalidDigit,
    /// The number is too large.
    PosOverflow,
    /// The number is too small.
    NegOverflow,
}

/// What a run of digits stands for, read from left to right: the first
/// character that is no digit, or that takes the value out of range, decides
/// which error it is.
pub open spec fn digits_value(s: Seq<char>, negative: bool) -> Result<int, NumberError>
    decreases s.len(),
{
    if s.len() == 0 {
        Ok(0)
    } else {
        match digits_value(s.drop_last(), negative) {
            Err(e) => Err(e),
            Ok(v) => {
                let d = s.last() as int - '0' as int;
                let w = if negative {
                    v * 10 - d
                } else {
                    v * 10 + d
                };
                if !(0 <= d < 10) {
                    Err(NumberError::InvalidDigit)
                } else if w > i64::MAX {
                    Err(NumberError::PosOverflow)
                } else if w < i64::MIN {
                    Err(NumberError::NegOverflow)
                } else {
                    Ok(w)
                }
            },
        }
    }
}

/// What `s` stands for as a decimal number with an optional sign.
pub open spec fn number_value(s: Seq<char>) -> Result<int, NumberError> {
    if s.len() == 0 {
        Err(NumberError::Empty)
    } else if s[0] == '+' || s[0] == '-' {
        if s.len() == 1 {
            Err(NumberError::InvalidDigit)
        } else {
            digits_value(s.skip(1), s[0] == '-')
        }
    } else {
        digits_value(s, false)
    }
}

/// An error among the first digits is the error of the whole run.
proof fn lemma_digits_error(s: Seq<char>, negative: bool, n: int)
    requires
        0 <= n <= s.len(),
        digits_value(s.take(n), negative) is Err,
    ensures
        digits_value(s, negative) == digits_value(s.take(n), negative),
    decreases s.len(),
{
    if n == s.len() {
        assert(s.take(n) == s);
    } else {
        assert(s.drop_last().take(n) == s.take(n));
        lemma_digits_error(s.drop_last(), negative, n);
    }
}

/// Reads `s` as a decimal number.
pub fn parse_number(s: &str) -> (res: Result<i64, NumberError>)
    ensures
        match res {
            Ok(v) => number_value(s@) == Ok::<int, NumberError>(v as int),
            Err(e) => number_value(s@) == Err::<int, NumberError>(e),
        },
{
    let chars = to_chars(s);
    let len: usize = chars.len();
    if len == 0 {
        return Err(NumberError::Empty);
    }
    let signed = chars[0] == '+' || chars[0] == '-';
    if signed && len == 1 {
        return Err(NumberError::InvalidDigit);
    }
    let negative = chars[0] == '-';
    let start: usize = if signed {
        1
    } else {
        0
    };
    let ghost digits = s@.skip(start as int);
    assert(!signed ==> digits == s@);
    let mut i: usize = start;
    let mut value: i64 = 0;
    assert(digits.take(0) == Seq::<char>::empty());
    while i < len
        invariant
            chars@ == s@,
            len == chars@.len(),
            start <= i <= len,
            digits == s@.skip(start as int),
            number_value(s@) == digits_value(digits, negative),
            digits_value(digits.take(i - start), negative) == Ok::<int, NumberError>(value as int),
        decreases len - i,
    {
        let c = chars[i];
        let ghost upto = digits.take(i - start + 1);
        proof {
            assert(upto.drop_last() == digits.take(i - start));
            assert(upto.last() == c);
            if digits_value(upto, negative) is Err {
                lemma_digits_error(digits, negative, i - start + 1);
            }
        }
        if c < '0' || '9' < c {
            return Err(NumberError::InvalidDigit);
        }
        let digit: i128 = (c as u32 - '0' as u32) as i128;
        let wide: i128 = if negative {
            value as i128 * 10 - digit
        } else {
            value as i128 * 10 + digit
        };
        if wide > i64::MAX as i128 {
            return Err(NumberError::PosOverflow);
        }
        if wide < i64::MIN as i128 {
            return Err(NumberError::NegOverflow);
        }
        value = wide as i64;
        i += 1;
    }
    assert(digits.take(i - start) == digits);
    Ok(value)
}

} // verus!
