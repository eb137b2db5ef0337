//! Numbers in decimal: written, padded and read back.

use crate::text::chars_of;
use vstd::prelude::*;
use vstd::string::*;

verus! {

/// The character of a decimal digit.
pub open spec fn digit(d: int) -> char {
    (48 + d) as char
}

pub open spec fn is_digit(c: char) -> bool {
    48 <= c as int <= 57
}

/// A number in decimal, without leading zeros.
pub open spec fn decimal(n: nat) -> Seq<char>
    decreases n,
{
    if n < 10 {
        seq![digit(n as int)]
    } else {
        decimal(n / 10).push(digit((n % 10) as int))
    }
}

/// A number in decimal, with leading zeros up to a width.
pub open spec fn padded(n: nat, width: nat) -> Seq<char> {
    if decimal(n).len() >= width {
        decimal(n)
    } else {
        Seq::new((width - decimal(n).len()) as nat, |i: int| '0') + decimal(n)
    }
}

/// A signed number in decimal.
pub open spec fn signed_decimal(n: int) -> Seq<char> {
    if n < 0 {
        seq!['-'] + decimal((-n) as nat)
    } else {
        decimal(n as nat)
    }
}

pub open spec fn all_digits(s: Seq<char>) -> bool {
    forall|i: int| 0 <= i < s.len() ==> is_digit(#[trigger] s[i])
}

/// The number that a sequence of digits stands for.
pub open spec fn value(s: Seq<char>) -> nat
    decreases s.len(),
{
    if s.len() == 0 {
        0
    } else {
        (10 * value(s.drop_last()) + (s.last() as int - 48)) as nat
    }
}

/// An unsigned number as text may give it: an optional plus sign and at least one digit.
pub open spec fn unsigned_of(s: Seq<char>, max: nat) -> Option<nat> {
    let digits = if s.len() > 0 && s[0] == '+' {
        s.skip(1)
    } else {
        s
    };
    if digits.len() > 0 && all_digits(digits) && value(digits) <= max {
        Some(value(digits))
    } else {
        None
    }
}

/// Reading back a written number gives the number.
pub proof fn lemma_value_of_decimal(n: nat)
    ensures
        decimal(n).len() >= 1,
        all_digits(decimal(n)),
        value(decimal(n)) == n,
    decreases n,
{
    if n >= 10 {
        lemma_value_of_decimal(n / 10);
        assert(decimal(n).drop_last() =~= decimal(n / 10));
    } else {
        assert(decimal(n).drop_last() =~= Seq::<char>::empty());
        assert(value(Seq::<char>::empty()) == 0);
    }
}

/// Different numbers are written differently.
pub proof fn lemma_decimal_injective(a: nat, b: nat)
    requires
        decimal(a) == decimal(b),
    ensures
        a == b,
{
    lemma_value_of_decimal(a);
    lemma_value_of_decimal(b);
}

/// How many digits a small number has.
pub proof fn lemma_decimal_len(n: nat)
    ensures
        n < 10 ==> decimal(n).len() == 1,
        10 <= n < 100 ==> decimal(n).len() == 2,
        100 <= n < 1000 ==> decimal(n).len() == 3,
        1000 <= n < 10000 ==> decimal(n).len() == 4,
        n >= 10000 ==> decimal(n).len() >= 5,
    decreases n,
{
    if n >= 10 {
        lemma_decimal_len(n / 10);
    }
}

proof fn lemma_value_bound(s: Seq<char>, i: int)
    requires
        all_digits(s),
        0 <= i <= s.len(),
    ensures
        value(s.take(i)) <= value(s),
    decreases s.len() - i,
{
    if i < s.len() {
        assert(s.take(i + 1).drop_last() =~= s.take(i));
        assert(s.take(i + 1).last() == s[i]);
        lemma_value_bound(s, i + 1);
    } else {
        assert(s.take(i) =~= s);
    }
}

fn digit_char(d: u8) -> (r: char)
    requires
        d < 10,
    ensures
        r == digit(d as int),
{
    (48 + d) as char
}

/// Appends a number in decimal.
pub fn push_decimal(out: &mut String, n: u64)
    ensures
        final(out)@ == old(out)@ + decimal(n as nat),
    decreases n,
{
    if n < 10 {
        out.push(digit_char(n as u8));
        assert(out@ =~= old(out)@ + decimal(n as nat));
    } else {
        push_decimal(out, n / 10);
        out.push(digit_char((n % 10) as u8));
        assert(out@ =~= old(out)@ + decimal(n as nat));
    }
}

/// A number in decimal.
pub fn decimal_text(n: u64) -> (r: String)
    ensures
        r@ == decimal(n as nat),
{
    let mut out = String::new();
    push_decimal(&mut out, n);
    assert(out@ =~= decimal(n as nat));
    out
}

/// Appends a signed number in decimal.
pub fn push_signed(out: &mut String, n: i64)
    ensures
        final(out)@ == old(out)@ + signed_decimal(n as int),
{
    if n < 0 {
        out.push('-');
        let magnitude: u64 = if n == i64::MIN {
            9_223_372_036_854_775_808
        } else {
            (-n) as u64
        };
        push_decimal(out, magnitude);
        assert(out@ =~= old(out)@ + signed_decimal(n as int));
    } else {
        push_decimal(out, n as u64);
    }
}

/// Appends a number in decimal, with leading zeros up to a width.
pub fn push_padded(out: &mut String, n: u64, width: usize)
    ensures
        final(out)@ == old(out)@ + padded(n as nat, width as nat),
{
    let shown = decimal_text(n);
    let len: usize = shown.as_str().unicode_len();
    let mut i: usize = len;
    while i < width
        invariant
            len == decimal(n as nat).len(),
            len <= i,
            i <= width || i == len,
            out@ == old(out)@ + Seq::new((i - len) as nat, |j: int| '0'),
        decreases width - i,
    {
        out.push('0');
        i = i + 1;
        assert(Seq::new((i - len) as nat, |j: int| '0') =~= Seq::new((i - 1 - len) as nat, |j: int| '0').push('0'));
        assert(out@ =~= old(out)@ + Seq::new((i - len) as nat, |j: int| '0'));
    }
    out.append(shown.as_str());
    assert(out@ =~= old(out)@ + padded(n as nat, width as nat));
}

/// Reads an unsigned number of at most `max`: an optional plus sign and at least one digit.
pub fn parse_unsigned(s: &str, max: u64) -> (r: Option<u64>)
    ensures
        match r {
            Some(n) => unsigned_of(s@, max as nat) == Some(n as nat),
            None => unsigned_of(s@, max as nat) is None,
        },
{
    let chars = chars_of(s);
    let start: usize = if chars.len() > 0 && chars[0] == '+' {
        1
    } else {
        0
    };
    let ghost digits = s@.skip(start as int);
    assert(start == 0 ==> digits =~= s@);
    if chars.len() == start {
        return None;
    }
    let mut total: u64 = 0;
    let mut i: usize = start;
    while i < chars.len()
        invariant
            chars@ == s@,
            start <= i <= chars@.len(),
            start <= 1,
            start == 1 <==> s@.len() > 0 && s@[0] == '+',
            s@.len() > start,
            digits == s@.skip(start as int),
            start == 0 ==> digits == s@,
            forall|j: int| 0 <= j < i - start ==> is_digit(#[trigger] digits[j]),
            total == value(digits.take(i - start)),
            total <= max,
        decreases chars.len() - i,
    {
        let c = chars[i];
        assert(digits[i - start] == c);
        if !('0' <= c && c <= '9') {
            return None;
        }
        let d: u64 = (c as u64) - 48;
        proof {
            assert(digits.take(i + 1 - start).drop_last() =~= digits.take(i - start));
            assert(digits.take(i + 1 - start).last() == c);
            if all_digits(digits) {
                lemma_value_bound(digits, i + 1 - start);
            }
        }
        if total > (u64::MAX - d) / 10 {
            return None;
        }
        total = total * 10 + d;
        if total > max {
            return None;
        }
        i = i + 1;
    }
    assert(digits.take(i - start) =~= digits);
    Some(total)
}

/// Why a text is not a number.
#[derive(Debug, Clone, Copy, PartialEq, Eq, Structural)]
pub enum NumberError {
    Empty,
    InvalidDigit,
    TooLarge,
}

/// What is wrong with some digits, from left to right: the first character that is no digit, or that makes
/// the number exceed `max`.
pub open spec fn digits_error(s: Seq<char>, max: nat) -> Option<NumberError>
    decreases s.len(),
{
    if s.len() == 0 {
        None
    } else {
        match digits_error(s.drop_last(), max) {
            Some(e) => Some(e),
            None => if !is_digit(s.last()) {
                Some(NumberError::InvalidDigit)
            } else if value(s) > max {
                Some(NumberError::TooLarge)
            } else {
                None
            },
        }
    }
}

/// Why a text is not an unsigned number of at most `max`.
pub open spec fn number_error_of(s: Seq<char>, max: nat) -> Option<NumberError> {
    if s.len() == 0 {
        Some(NumberError::Empty)
    } else if s[0] == '+' {
        if s.len() == 1 {
            Some(NumberError::InvalidDigit)
        } else {
            digits_error(s.skip(1), max)
        }
    } else {
        digits_error(s, max)
    }
}

/// A text has an error exactly if it is no number.
pub proof fn law_errors_tell_numbers_apart(s: Seq<char>, max: nat)
    ensures
        number_error_of(s, max) is None <==> unsigned_of(s, max) is Some,
{
    let digits = if s.len() > 0 && s[0] == '+' {
        s.skip(1)
    } else {
        s
    };
    lemma_digits_error(digits, max);
}

proof fn lemma_digits_error(s: Seq<char>, max: nat)
    ensures
        digits_error(s, max) is None <==> all_digits(s) && (s.len() > 0 ==> value(s) <= max),
    decreases s.len(),
{
    if s.len() > 0 {
        let front = s.drop_last();
        lemma_digits_error(front, max);
        if all_digits(s) {
            assert forall|i: int| 0 <= i < front.len() implies is_digit(#[trigger] front[i]) by {
                assert(front[i] == s[i]);
            }
            assert(is_digit(s.last()));
            assert(value(front) <= value(s));
        }
        if all_digits(front) && is_digit(s.last()) {
            assert forall|i: int| 0 <= i < s.len() implies is_digit(#[trigger] s[i]) by {
                if i < front.len() {
                    assert(front[i] == s[i]);
                }
            }
        }
    }
}

/// Why a text is not an unsigned number of at most `max`; nothing if it is one.
pub fn number_error(s: &str, max: u64) -> (r: Option<NumberError>)
    ensures
        r == number_error_of(s@, max as nat),
{
    let chars = chars_of(s);
    if chars.len() == 0 {
        return Some(NumberError::Empty);
    }
    let start: usize = if chars[0] == '+' {
        1
    } else {
        0
    };
    if start == 1 && chars.len() == 1 {
        return Some(NumberError::InvalidDigit);
    }
    let ghost digits = s@.skip(start as int);
    assert(start == 0 ==> digits =~= s@);
    let mut total: u64 = 0;
    let mut i: usize = start;
    while i < chars.len()
        invariant
            chars@ == s@,
            start <= i <= chars@.len(),
            start <= 1,
            digits == s@.skip(start as int),
            number_error_of(s@, max as nat) == digits_error(digits, max as nat),
            digits_error(digits.take(i - start), max as nat) is None,
            total == value(digits.take(i - start)),
            total <= max,
        decreases chars.len() - i,
    {
        let c = chars[i];
        assert(digits[i - start] == c);
        assert(digits.take(i + 1 - start).drop_last() =~= digits.take(i - start));
        assert(digits.take(i + 1 - start).last() == c);
        if !('0' <= c && c <= '9') {
            proof {
                lemma_error_stays(digits, i + 1 - start, max as nat);
            }
            return Some(NumberError::InvalidDigit);
        }
        let d: u64 = (c as u64) - 48;
        if total > (u64::MAX - d) / 10 || total * 10 + d > max {
            proof {
                lemma_error_stays(digits, i + 1 - start, max as nat);
            }
            return Some(NumberError::TooLarge);
        }
        total = total * 10 + d;
        i = i + 1;
    }
    assert(digits.take(i - start) =~= digits);
    None
}

/// The error of a beginning is the error of the whole.
proof fn lemma_error_stays(s: Seq<char>, n: int, max: nat)
    requires
        0 <= n <= s.len(),
        digits_error(s.take(n), max) is Some,
    ensures
        digits_error(s, max) == digits_error(s.take(n), max),
    decreases s.len(),
{
    if n < s.len() {
        assert(s.drop_last().take(n) =~= s.take(n));
        lemma_error_stays(s.drop_last(), n, max);
    } else {
        assert(s.take(n) =~= s);
    }
}

impl NumberError {
    pub open spec fn text(self) -> Seq<char> {
        match self {
            NumberError::Empty => "cannot parse integer from empty string"@,
            NumberError::InvalidDigit => "invalid digit found in string"@,
            NumberError::TooLarge => "number too large to fit in target type"@,
        }
    }

    /// The error in words.
    pub fn message(&self) -> (r: &'static str)
        ensures
            r@ == self.text(),
    {
        match self {
            NumberError::Empty => "cannot parse integer from empty string",
            NumberError::InvalidDigit => "invalid digit found in string",
            NumberError::TooLarge => "number too large to fit in target type",
        }
    }
}

} // verus!
