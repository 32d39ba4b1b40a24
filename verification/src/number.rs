//! Numbers as text.

use crate::text::chars_of;
use vstd::prelude::*;

verus! {

/// The decimal digit `d`.
pub open spec fn digit(d: nat) -> char {
    (48 + d) as char
}

/// `n` in decimal, without leading zeros.
pub open spec fn decimal(n: nat) -> Seq<char>
    decreases n,
{
    if n < 10 {
        seq![digit(n)]
    } else {
        decimal(n / 10).push(digit(n % 10))
    }
}

/// Writes `n` in decimal.
pub fn to_decimal(n: u128) -> (r: String)
    ensures
        r@ == decimal(n as nat),
    decreases n,
{
    if n < 10 {
        let mut out = String::new();
        out.push((48u8 + n as u8) as char);
        assert(out@ =~= decimal(n as nat));
        out
    } else {
        let mut out = to_decimal(n / 10);
        out.push((48u8 + (n % 10) as u8) as char);
        out
    }
}

/// Ten to the power of `n`.
pub open spec fn pow10(n: nat) -> nat
    decreases n,
{
    if n == 0 {
        1
    } else {
        10 * pow10((n - 1) as nat)
    }
}

/// A number below ten to the power of `digits` has at most that many digits.
pub proof fn lemma_decimal_len(n: nat, digits: nat)
    requires
        digits >= 1,
        n < pow10(digits),
    ensures
        1 <= decimal(n).len() <= digits,
    decreases digits,
{
    if n >= 10 {
        if digits == 1 {
            assert(pow10(0) == 1);
        }
        lemma_decimal_len(n / 10, (digits - 1) as nat);
    }
}

/// A `usize` has at most twenty digits.
pub proof fn lemma_usize_len(n: usize)
    ensures
        1 <= decimal(n as nat).len() <= 20,
{
    assert(pow10(20) == 100_000_000_000_000_000_000) by {
        reveal_with_fuel(pow10, 21);
    }
    lemma_decimal_len(n as nat, 20);
}

/// The hexadecimal digit `d`, small letters.
pub open spec fn hex_digit(d: nat) -> char {
    if d < 10 {
        (48 + d) as char
    } else {
        (87 + d) as char
    }
}

/// The last `width` hexadecimal digits of `n`.
pub open spec fn hex(n: nat, width: nat) -> Seq<char>
    decreases width,
{
    if width == 0 {
        Seq::empty()
    } else {
        hex(n / 16, (width - 1) as nat).push(hex_digit(n % 16))
    }
}

/// Writes the last `width` hexadecimal digits of `n`.
pub fn to_hex(n: u64, width: u8) -> (r: String)
    ensures
        r@ == hex(n as nat, width as nat),
    decreases width,
{
    if width == 0 {
        String::new()
    } else {
        let mut out = to_hex(n / 16, width - 1);
        let d = (n % 16) as u8;
        if d < 10 {
            out.push((48u8 + d) as char);
        } else {
            out.push((87u8 + d) as char);
        }
        out
    }
}

/// Whether `c` is a hexadecimal digit with a small letter.
pub open spec fn is_hex(c: char) -> bool {
    '0' <= c <= '9' || 'a' <= c <= 'f'
}

/// Hexadecimal digits come out, as many as asked for.
pub proof fn lemma_hex(n: nat, width: nat)
    ensures
        hex(n, width).len() == width,
        forall|i: int| 0 <= i < width ==> is_hex(#[trigger] hex(n, width)[i]),
    decreases width,
{
    if width > 0 {
        lemma_hex(n / 16, (width - 1) as nat);
    }
}

/// Why a text is no number.
#[derive(Clone, Copy, Debug, PartialEq, Eq, Structural)]
pub enum NumberError {
    Empty,
    InvalidDigit,
    TooLarge,
}

impl NumberError {
    /// The error in words.
    pub open spec fn text(self) -> Seq<char> {
        match self {
            NumberError::Empty => "cannot parse integer from empty string"@,
            NumberError::InvalidDigit => "invalid digit found in string"@,
            NumberError::TooLarge => "number too large to fit in target type"@,
        }
    }

    /// The error in words.
    pub fn message(&self) -> (r: String)
        ensures
            r@ == self.text(),
    {
        match self {
            NumberError::Empty => "cannot parse integer from empty string".to_owned(),
            NumberError::InvalidDigit => "invalid digit found in string".to_owned(),
            NumberError::TooLarge => "number too large to fit in target type".to_owned(),
        }
    }
}

/// What the digits `s` amount to, read from the left: the first character that
/// is no digit, or that takes the number over `max`, is what is reported.
pub open spec fn digits_value(s: Seq<char>, max: nat) -> Result<nat, NumberError>
    decreases s.len(),
{
    if s.len() == 0 {
        Ok(0)
    } else {
        match digits_value(s.drop_last(), max) {
            Err(e) => Err(e),
            Ok(v) => if !('0' <= s.last() <= '9') {
                Err(NumberError::InvalidDigit)
            } else if v * 10 + (s.last() as nat - 48) > max {
                Err(NumberError::TooLarge)
            } else {
                Ok((v * 10 + (s.last() as nat - 48)) as nat)
            },
        }
    }
}

/// The number that `s` stands for: digits, after one `+` at most, up to `max`.
pub open spec fn number(s: Seq<char>, max: nat) -> Result<nat, NumberError> {
    if s.len() == 0 {
        Err(NumberError::Empty)
    } else if s == seq!['+'] {
        Err(NumberError::InvalidDigit)
    } else if s[0] == '+' {
        digits_value(s.skip(1), max)
    } else {
        digits_value(s, max)
    }
}

proof fn lemma_digits_error_sticks(s: Seq<char>, i: int, max: nat)
    requires
        0 <= i <= s.len(),
        digits_value(s.take(i), max) is Err,
    ensures
        digits_value(s, max) == digits_value(s.take(i), max),
    decreases s.len() - i,
{
    if i < s.len() {
        assert(s.take(i + 1).drop_last() =~= s.take(i));
        lemma_digits_error_sticks(s, i + 1, max);
    } else {
        assert(s.take(i) =~= s);
    }
}

fn read_digits(v: &Vec<char>, from: usize, max: u64) -> (r: Result<u64, NumberError>)
    requires
        from <= v@.len(),
    ensures
        match r {
            Ok(n) => digits_value(v@.skip(from as int), max as nat) == Ok::<nat, NumberError>(
                n as nat,
            ),
            Err(e) => digits_value(v@.skip(from as int), max as nat) == Err::<nat, NumberError>(e),
        },
{
    let ghost s = v@.skip(from as int);
    let n = v.len();
    let mut value: u64 = 0;
    let mut i: usize = from;
    assert(s.take(0) =~= Seq::<char>::empty());
    while i < n
        invariant
            from <= i <= n,
            n == v@.len(),
            s == v@.skip(from as int),
            digits_value(s.take(i - from), max as nat) == Ok::<nat, NumberError>(value as nat),
            value <= max,
        decreases n - i,
    {
        let c = v[i];
        proof {
            let t = s.take(i - from + 1);
            assert(t.drop_last() =~= s.take(i - from));
            assert(t.last() == c);
            if digits_value(t, max as nat) is Err {
                lemma_digits_error_sticks(s, i - from + 1, max as nat);
            }
        }
        if !('0' <= c && c <= '9') {
            return Err(NumberError::InvalidDigit);
        }
        let d: u8 = c as u8 - 48u8;
        let next: u128 = value as u128 * 10 + d as u128;
        if next > max as u128 {
            return Err(NumberError::TooLarge);
        }
        value = next as u64;
        i += 1;
    }
    assert(s.take(i - from) =~= s);
    Ok(value)
}

/// Reads `s` as a number up to `max`.
pub fn parse_number(s: &str, max: u64) -> (r: Result<u64, NumberError>)
    ensures
        match r {
            Ok(n) => number(s@, max as nat) == Ok::<nat, NumberError>(n as nat),
            Err(e) => number(s@, max as nat) == Err::<nat, NumberError>(e),
        },
        r matches Ok(n) ==> n <= max,
{
    let v = chars_of(s);
    if v.len() == 0 {
        return Err(NumberError::Empty);
    }
    if v[0] == '+' {
        if v.len() == 1 {
            assert(s@ =~= seq!['+']);
            return Err(NumberError::InvalidDigit);
        }
        return read_digits(&v, 1, max);
    }
    assert(v@.skip(0) =~= v@);
    read_digits(&v, 0, max)
}

} // verus!
