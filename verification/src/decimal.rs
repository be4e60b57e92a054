//! Decimal notation for unsigned integers: writing a number as text, and
//! reading one back from the bytes of a request.

use crate::ascii::{DIGIT_0, DIGIT_9, PLUS};
use vstd::prelude::*;

verus! {

/// The character that stands for the digit `d`, for `d` from 0 to 9.
pub open spec fn digit_char(d: int) -> char {
    (DIGIT_0 + d) as u8 as char
}

/// The decimal notation of `n`: the digit of its units, behind the notation
/// of its tens where it has any.
pub open spec fn decimal_text(n: nat) -> Seq<char>
    decreases n,
{
    if n < 10 {
        seq![digit_char(n as int)]
    } else {
        decimal_text(n / 10).push(digit_char((n % 10) as int))
    }
}

/// The one-character text of a single digit.
fn digit_str(d: u64) -> (s: &'static str)
    requires
        d < 10,
    ensures
        s@ == seq![digit_char(d as int)],
{
    proof {
        reveal_strlit("0");
        reveal_strlit("1");
        reveal_strlit("2");
        reveal_strlit("3");
        reveal_strlit("4");
        reveal_strlit("5");
        reveal_strlit("6");
        reveal_strlit("7");
        reveal_strlit("8");
        reveal_strlit("9");
    }
    let s = match d {
        0 => "0",
        1 => "1",
        2 => "2",
        3 => "3",
        4 => "4",
        5 => "5",
        6 => "6",
        7 => "7",
        8 => "8",
        _ => "9",
    };
    assert(s@ =~= seq![digit_char(d as int)]);
    s
}

/// Writes `n` in decimal notation.
pub fn decimal_string(n: u64) -> (s: String)
    ensures
        s@ == decimal_text(n as nat),
{
    let mut out = String::from_str(digit_str(n % 10));
    let mut rest: u64 = n / 10;
    while rest != 0
        invariant
            decimal_text(n as nat) == if rest == 0 {
                out@
            } else {
                decimal_text(rest as nat) + out@
            },
        decreases rest,
    {
        let mut head = String::from_str(digit_str(rest % 10));
        head.append(out.as_str());
        proof {
            let d = seq![digit_char((rest % 10) as int)];
            assert(head@ == d + out@);
            if rest >= 10 {
                assert(decimal_text(rest as nat) + out@ =~= decimal_text((rest / 10) as nat) + head@);
            }
        }
        out = head;
        rest = rest / 10;
    }
    out
}

/// `b` is one of the ASCII digits `0` to `9`.
pub open spec fn is_digit(b: u8) -> bool {
    DIGIT_0 <= b <= DIGIT_9
}

/// The number that a run of ASCII digits denotes, read from the left; the
/// empty run denotes zero.
pub open spec fn digits_value(s: Seq<u8>) -> nat
    decreases s.len(),
{
    if s.len() == 0 {
        0
    } else {
        digits_value(s.drop_last()) * 10 + (s.last() - DIGIT_0) as nat
    }
}

/// `s` is a numeral: an optional `+`, then one digit or more.
pub open spec fn is_numeral(s: Seq<u8>) -> bool {
    let digits = numeral_digits(s);
    digits.len() > 0 && forall|i: int| 0 <= i < digits.len() ==> is_digit(#[trigger] digits[i])
}

/// The digits of a numeral: all of it but the leading `+`, if it has one.
pub open spec fn numeral_digits(s: Seq<u8>) -> Seq<u8> {
    if s.len() > 0 && s[0] == PLUS {
        s.skip(1)
    } else {
        s
    }
}

/// What a value reads as: the number that it denotes, if it is a numeral and
/// the number fits in 64 bits.
pub open spec fn number_of(s: Seq<u8>) -> Option<u64> {
    if is_numeral(s) && digits_value(numeral_digits(s)) <= u64::MAX {
        Some(digits_value(numeral_digits(s)) as u64)
    } else {
        None
    }
}

/// A run of digits denotes at least what any of its prefixes denotes.
proof fn digits_value_grows(s: Seq<u8>, k: int)
    requires
        0 <= k <= s.len(),
        forall|i: int| 0 <= i < s.len() ==> is_digit(#[trigger] s[i]),
    ensures
        digits_value(s.take(k)) <= digits_value(s),
    decreases s.len() - k,
{
    if k == s.len() {
        assert(s.take(k) =~= s);
    } else {
        digits_value_grows(s, k + 1);
        assert(s.take(k + 1).drop_last() =~= s.take(k));
    }
}

/// Reads a number in decimal notation. Leading zeros are accepted, a
/// leading `+` too; anything else but digits is not, nor a number beyond
/// `u64::MAX`.
pub fn read_number(s: &[u8]) -> (r: Option<u64>)
    ensures
        r == number_of(s@),
{
    let len = s.len();
    let start: usize = if len > 0 && s[0] == PLUS {
        1
    } else {
        0
    };
    if start == len {
        return None;
    }
    let ghost digits = numeral_digits(s@);
    assert(digits =~= s@.skip(start as int));
    let mut value: u64 = 0;
    let mut i: usize = start;
    while i < len
        invariant
            start <= i <= len,
            len == s@.len(),
            digits == s@.skip(start as int),
            digits == numeral_digits(s@),
            forall|j: int| 0 <= j < i - start ==> is_digit(#[trigger] digits[j]),
            value == digits_value(digits.take(i - start)),
        decreases len - i,
    {
        let b: u8 = s[i];
        if b < DIGIT_0 || b > DIGIT_9 {
            assert(digits[i - start] == b);
            return None;
        }
        let d: u64 = (b - DIGIT_0) as u64;
        proof {
            assert(digits.take(i - start + 1).drop_last() =~= digits.take(i - start));
            assert(digits.take(i - start + 1).last() == b);
        }
        if value > (u64::MAX - d) / 10 {
            proof {
                if is_numeral(s@) {
                    digits_value_grows(digits, i - start + 1);
                }
            }
            return None;
        }
        value = value * 10 + d;
        i = i + 1;
    }
    assert(digits.take(i - start) =~= digits);
    Some(value)
}

/// The bytes of a text, one for each character; it is meant for ASCII text.
pub open spec fn ascii_bytes(text: Seq<char>) -> Seq<u8> {
    text.map_values(|c: char| c as u8)
}

/// The decimal notation of a number is a run of digits, and not an empty one.
pub proof fn decimal_text_digits(n: u64)
    ensures
        decimal_text(n as nat).len() > 0,
        forall|i: int|
            0 <= i < ascii_bytes(decimal_text(n as nat)).len() ==> is_digit(
                #[trigger] ascii_bytes(decimal_text(n as nat))[i],
            ),
{
    decimal_text_denotes(n as nat);
}

/// The decimal notation of a number is a run of digits that denotes it.
proof fn decimal_text_denotes(n: nat)
    ensures
        decimal_text(n).len() > 0,
        forall|i: int|
            0 <= i < decimal_text(n).len() ==> is_digit(#[trigger] ascii_bytes(decimal_text(n))[i]),
        digits_value(ascii_bytes(decimal_text(n))) == n,
    decreases n,
{
    let bytes = ascii_bytes(decimal_text(n));
    if n < 10 {
        assert(bytes.drop_last() =~= Seq::<u8>::empty());
        assert(bytes.last() == DIGIT_0 + n);
        assert(digits_value(bytes.drop_last()) == 0);
    } else {
        let front = ascii_bytes(decimal_text(n / 10));
        decimal_text_denotes(n / 10);
        assert(bytes.drop_last() =~= front);
        assert(bytes.last() == DIGIT_0 + n % 10);
        assert forall|i: int| 0 <= i < bytes.len() implies is_digit(#[trigger] bytes[i]) by {
            if i < front.len() {
                assert(bytes[i] == front[i]);
            }
        }
    }
}

/// What `decimal_string` writes, `read_number` reads back as the same number.
pub proof fn decimal_text_reads_back(n: u64)
    ensures
        number_of(ascii_bytes(decimal_text(n as nat))) == Some(n),
{
    let bytes = ascii_bytes(decimal_text(n as nat));
    decimal_text_denotes(n as nat);
    assert(is_digit(bytes[0]));
    assert(numeral_digits(bytes) == bytes);
}

} // verus!
