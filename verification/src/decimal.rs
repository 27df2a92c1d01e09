//! Unsigned decimal numerals: an optional `+` sign followed by one or more
//! ASCII digits, and nothing else.

use vstd::prelude::*;
use vstd::string::is_ascii_spec_bytes;

verus! {

/// Whether `c` is one of the ASCII digits `0` to `9`.
pub open spec fn is_digit(c: char) -> bool {
    '0' <= c <= '9'
}

/// The number that the digit `c` stands for.
pub open spec fn digit_value(c: char) -> nat {
    (c as int - '0' as int) as nat
}

/// Whether every character of `s` is a digit.
pub open spec fn all_digits(s: Seq<char>) -> bool {
    forall|i: int| 0 <= i < s.len() ==> is_digit(#[trigger] s[i])
}

/// The number that the digit string `s` denotes in base ten, most significant
/// digit first. The empty string denotes zero.
pub open spec fn decimal_value(s: Seq<char>) -> nat
    decreases s.len(),
{
    if s.len() == 0 {
        0
    } else {
        10 * decimal_value(s.drop_last()) + digit_value(s.last())
    }
}

/// The digits of a numeral: what follows one leading `+`, or all of `s` if it has none.
pub open spec fn unsigned_digits(s: Seq<char>) -> Seq<char> {
    if s.len() > 0 && s[0] == '+' {
        s.subrange(1, s.len() as int)
    } else {
        s
    }
}

/// The number that `s` denotes, if `s` is a numeral whose value is at most `max`.
pub open spec fn parse_unsigned(s: Seq<char>, max: nat) -> Option<nat> {
    let digits = unsigned_digits(s);
    if digits.len() > 0 && all_digits(digits) && decimal_value(digits) <= max {
        Some(decimal_value(digits))
    } else {
        None
    }
}

/// A digit string denotes at least as much as each of its prefixes.
pub proof fn lemma_decimal_value_prefix(s: Seq<char>, k: int)
    requires
        0 <= k <= s.len(),
    ensures
        decimal_value(s.take(k)) <= decimal_value(s),
    decreases s.len(),
{
    if k == s.len() {
        assert(s.take(k) =~= s);
    } else {
        assert(s.drop_last().take(k) =~= s.take(k));
        lemma_decimal_value_prefix(s.drop_last(), k);
    }
}

/// Appending one character to a digit string multiplies its value by ten and adds the digit.
pub proof fn lemma_decimal_value_step(s: Seq<char>, k: int)
    requires
        0 <= k < s.len(),
    ensures
        decimal_value(s.take(k + 1)) == 10 * decimal_value(s.take(k)) + digit_value(s[k]),
{
    assert(s.take(k + 1).drop_last() =~= s.take(k));
}

/// An ASCII character and the byte that encodes it are the same number.
proof fn lemma_ascii_char_as_byte(c: char)
    requires
        c <= '\u{7f}',
    ensures
        c as u8 as int == c as int,
{
    let code = c as u32;
    assert(code as u8 == code) by (bit_vector)
        requires
            code < 128,
    ;
}

/// Reads `text` as an unsigned decimal numeral that fits in 64 bits.
pub fn parse_u64(text: &str) -> (parsed: Option<u64>)
    ensures
        match parsed {
            Some(v) => parse_unsigned(text@, u64::MAX as nat) == Some(v as nat),
            None => parse_unsigned(text@, u64::MAX as nat) is None,
        },
{
    if !text.is_ascii() {
        proof {
            let s = text@;
            let i = choose|i: int| 0 <= i < s.len() && !('\0' <= #[trigger] s[i] <= '\u{7f}');
            if s[0] == '+' {
                assert(i >= 1);
                assert(unsigned_digits(s)[i - 1] == s[i]);
            }
            assert(!all_digits(unsigned_digits(s)));
        }
        return None;
    }
    let bytes = text.as_bytes();
    let n = bytes.len();
    proof {
        is_ascii_spec_bytes(text);
        assert forall|j: int| 0 <= j < n implies bytes@[j] as int == #[trigger] text@[j] as int by {
            lemma_ascii_char_as_byte(text@[j]);
        }
    }
    let start: usize = if n > 0 && bytes[0] == 43u8 {
        1
    } else {
        0
    };
    let ghost digits = unsigned_digits(text@);
    assert(digits =~= text@.subrange(start as int, n as int));
    if start == n {
        return None;
    }
    let mut value: u64 = 0;
    let mut i: usize = start;
    assert(digits.take(0) =~= Seq::<char>::empty());
    while i < n
        invariant
            start <= i <= n,
            n == bytes@.len(),
            n == text@.len(),
            digits == text@.subrange(start as int, n as int),
            digits == unsigned_digits(text@),
            forall|j: int| 0 <= j < n ==> bytes@[j] as int == #[trigger] text@[j] as int,
            all_digits(digits.take(i - start)),
            value == decimal_value(digits.take(i - start)),
        decreases n - i,
    {
        let b = bytes[i];
        let ghost k = i - start;
        assert(digits[k] == text@[i as int]);
        if b < 48u8 || b > 57u8 {
            assert(!is_digit(digits[k]));
            return None;
        }
        assert(is_digit(digits[k]));
        let digit = (b - 48u8) as u64;
        assert(digit == digit_value(digits[k]));
        proof {
            lemma_decimal_value_step(digits, k);
            lemma_decimal_value_prefix(digits, k + 1);
        }
        let scaled = match value.checked_mul(10) {
            Some(scaled) => scaled,
            None => {
                return None;
            },
        };
        value = match scaled.checked_add(digit) {
            Some(sum) => sum,
            None => {
                return None;
            },
        };
        assert forall|j: int| 0 <= j < k + 1 implies is_digit(#[trigger] digits.take(k + 1)[j]) by {
            if j < k {
                assert(digits.take(k + 1)[j] == digits.take(k)[j]);
            }
        }
        i += 1;
    }
    assert(digits.take(n - start) =~= digits);
    Some(value)
}

/// Reads `text` as an unsigned decimal numeral that fits in a `usize`.
pub fn parse_usize(text: &str) -> (parsed: Option<usize>)
    ensures
        match parsed {
            Some(v) => parse_unsigned(text@, usize::MAX as nat) == Some(v as nat),
            None => parse_unsigned(text@, usize::MAX as nat) is None,
        },
{
    match parse_u64(text) {
        Some(v) => {
            if v <= usize::MAX as u64 {
                Some(v as usize)
            } else {
                None
            }
        },
        None => None,
    }
}

} // verus!
