//! The configured length of the server secret.

use crate::ascii::lemma_ascii_bytes;
use vstd::prelude::*;
use vstd::string::*;

verus! {

/// The least length of the server secret in bytes.
pub const MIN_SECRET_LEN: usize = 32;

/// The greatest length of the server secret that is recommended.
pub const RECOMMENDED_MAX_SECRET_LEN: usize = 4096;

/// Why the configured length is refused.
#[derive(Clone, Copy, Debug, PartialEq, Eq, Structural)]
pub enum ConfigError {
    /// Not one or more decimal digits, with or without a `+` in front.
    NotDecimal,
    /// A number that no `usize` holds.
    TooLarge,
    /// A number under `MIN_SECRET_LEN`.
    TooShort,
}

/// A decimal digit.
pub open spec fn is_digit(c: char) -> bool {
    '0' <= c <= '9'
}

/// The number that a sequence of decimal digits stands for.
pub open spec fn digits_value(digits: Seq<char>) -> nat
    decreases digits.len(),
{
    if digits.len() == 0 {
        0
    } else {
        (10 * digits_value(digits.drop_last()) + (digits.last() as nat - '0' as nat)) as nat
    }
}

/// The digits of a number's text: the text without the `+` it may start with.
pub open spec fn digits_of(text: Seq<char>) -> Seq<char> {
    if text.len() > 0 && text[0] == '+' {
        text.drop_first()
    } else {
        text
    }
}

/// `text` is a decimal number: one or more digits, with or without a `+` in
/// front, and nothing else.
pub open spec fn is_decimal(text: Seq<char>) -> bool {
    &&& digits_of(text).len() > 0
    &&& forall|i: int| 0 <= i < digits_of(text).len() ==> is_digit(#[trigger] digits_of(text)[i])
}

/// The secret length that `text` configures, or why it configures none.
pub open spec fn secret_length_of(text: Seq<char>) -> Result<usize, ConfigError> {
    if !is_decimal(text) {
        Err(ConfigError::NotDecimal)
    } else if digits_value(digits_of(text)) > usize::MAX {
        Err(ConfigError::TooLarge)
    } else if digits_value(digits_of(text)) < MIN_SECRET_LEN {
        Err(ConfigError::TooShort)
    } else {
        Ok(digits_value(digits_of(text)) as usize)
    }
}

/// Leading digits of a number stand for no more than the whole number.
proof fn lemma_prefix_value(digits: Seq<char>, n: int)
    requires
        0 <= n <= digits.len(),
        forall|i: int| 0 <= i < digits.len() ==> is_digit(#[trigger] digits[i]),
    ensures
        digits_value(digits.take(n)) <= digits_value(digits),
    decreases digits.len() - n,
{
    if n == digits.len() {
        assert(digits.take(n) =~= digits);
    } else {
        let longer = digits.take(n + 1);
        assert(longer.drop_last() =~= digits.take(n));
        assert(is_digit(digits[n]));
        assert(longer.last() == digits[n]);
        lemma_prefix_value(digits, n + 1);
    }
}

/// Reads the configured length of the server secret: a decimal number of at
/// least `MIN_SECRET_LEN`.
pub fn parse_secret_length(text: &str) -> (length: Result<usize, ConfigError>)
    ensures
        length == secret_length_of(text@),
{
    let ghost digits = digits_of(text@);
    if !text.is_ascii() {
        proof {
            if is_decimal(text@) {
                assert forall|i: int| 0 <= i < text@.len() implies '\0' <= #[trigger] text@[i]
                    <= '\u{7f}' by {
                    if text@[0] == '+' {
                        if i > 0 {
                            assert(is_digit(digits[i - 1]));
                        }
                    } else {
                        assert(is_digit(digits[i]));
                    }
                }
            }
        }
        return Err(ConfigError::NotDecimal);
    }
    let bytes = text.as_bytes();
    proof {
        lemma_ascii_bytes(text);
    }
    let len = bytes.len();
    let start: usize = if len > 0 && bytes[0] == 0x2b {
        1
    } else {
        0
    };
    assert(digits =~= text@.subrange(start as int, len as int));
    if start == len {
        return Err(ConfigError::NotDecimal);
    }
    let mut at: usize = start;
    while at < len
        invariant
            start <= at <= len,
            len == text@.len(),
            bytes@.len() == len,
            digits == digits_of(text@),
            digits == text@.subrange(start as int, len as int),
            text.is_ascii(),
            bytes@ == text.spec_bytes(),
            forall|i: int| 0 <= i < at - start ==> is_digit(#[trigger] digits[i]),
        decreases len - at,
    {
        let byte = bytes[at];
        proof {
            lemma_ascii_bytes(text);
        }
        if byte < 0x30 || byte > 0x39 {
            assert(!is_digit(digits[at - start]));
            return Err(ConfigError::NotDecimal);
        }
        assert(is_digit(digits[at - start]));
        at += 1;
    }
    let mut value: usize = 0;
    let mut at: usize = start;
    assert(digits.take(0) =~= Seq::<char>::empty());
    while at < len
        invariant
            start <= at <= len,
            len == text@.len(),
            bytes@.len() == len,
            digits == digits_of(text@),
            digits == text@.subrange(start as int, len as int),
            text.is_ascii(),
            bytes@ == text.spec_bytes(),
            forall|i: int| 0 <= i < digits.len() ==> is_digit(#[trigger] digits[i]),
            value == digits_value(digits.take(at - start)),
        decreases len - at,
    {
        proof {
            lemma_ascii_bytes(text);
            assert(is_digit(digits[at - start]));
        }
        let digit = (bytes[at] - 0x30) as usize;
        proof {
            let longer = digits.take(at - start + 1);
            assert(longer.drop_last() =~= digits.take(at - start));
            assert(is_digit(digits[at - start]));
            assert(longer.last() == digits[at - start]);
            assert(digits_value(longer) == 10 * value + digit);
            lemma_prefix_value(digits, at - start + 1);
        }
        let next = match value.checked_mul(10) {
            Some(tens) => tens.checked_add(digit),
            None => None,
        };
        value = match next {
            Some(next) => next,
            None => {
                return Err(ConfigError::TooLarge);
            },
        };
        at += 1;
    }
    assert(digits.take(len - start) =~= digits);
    if value < MIN_SECRET_LEN {
        return Err(ConfigError::TooShort);
    }
    Ok(value)
}

} // verus!
