//! Numerals: numbers written out in decimal and hexadecimal, and hexadecimal
//! text read back.
use vstd::prelude::*;

use crate::text::chars_of;

verus! {

/// The numeral digit of value `d`, with upper case letters from ten on.
pub open spec fn digit(d: nat) -> char {
    if d < 10 {
        (0x30 + d) as char
    } else {
        (0x41 + d - 10) as char
    }
}

/// `n` written in `radix`, without leading zeros; zero is one digit.
pub open spec fn numeral(n: nat, radix: nat) -> Seq<char>
    decreases n,
{
    if n < radix || radix < 2 {
        seq![digit(n)]
    } else {
        proof {
            assert(n / radix < n) by (nonlinear_arith)
                requires
                    n >= radix,
                    radix >= 2,
            ;
        }
        numeral(n / radix, radix).push(digit(n % radix))
    }
}

/// The value of a hexadecimal digit in either letter case.
pub open spec fn digit_value(c: char) -> Option<nat> {
    if '0' <= c <= '9' {
        Some((c as nat - 0x30) as nat)
    } else if 'a' <= c <= 'f' {
        Some((c as nat - 0x61 + 10) as nat)
    } else if 'A' <= c <= 'F' {
        Some((c as nat - 0x41 + 10) as nat)
    } else {
        None
    }
}

/// The number that a sequence of hexadecimal digits stands for.
pub open spec fn hex_value(s: Seq<char>) -> nat
    decreases s.len(),
{
    if s.len() == 0 {
        0
    } else {
        hex_value(s.drop_last()) * 16 + digit_value(s.last()).unwrap_or(0)
    }
}

/// How many hexadecimal digits `s` starts with.
pub open spec fn digit_run(s: Seq<char>) -> nat
    decreases s.len(),
{
    if s.len() > 0 && digit_value(s[0]) is Some {
        1 + digit_run(s.skip(1))
    } else {
        0
    }
}

/// Why a text is not a hexadecimal number of 64 bits.
#[derive(Clone, Copy, Debug, PartialEq, Eq, Structural)]
pub enum HexError {
    /// There is no text.
    Empty,
    /// A character stands where a digit is due, or there are no digits after
    /// a plus sign.
    InvalidDigit,
    /// The digits up to the first other character stand for more than 64 bits
    /// hold.
    Overflow,
}

/// What follows one leading plus sign.
pub open spec fn unsigned_part(s: Seq<char>) -> Seq<char> {
    if s.len() > 0 && s[0] == '+' {
        s.skip(1)
    } else {
        s
    }
}

/// The reading of `s` as an unsigned hexadecimal number with an optional plus
/// sign.
pub open spec fn hex_reading(s: Seq<char>) -> Result<u64, HexError> {
    let digits = unsigned_part(s);
    let run = digit_run(digits);
    let value = hex_value(digits.take(run as int));
    if s.len() == 0 {
        Err(HexError::Empty)
    } else if digits.len() == 0 {
        Err(HexError::InvalidDigit)
    } else if value > u64::MAX {
        Err(HexError::Overflow)
    } else if run < digits.len() {
        Err(HexError::InvalidDigit)
    } else {
        Ok(value as u64)
    }
}

impl HexError {
    /// The wording of the error.
    pub open spec fn wording(self) -> Seq<char> {
        match self {
            HexError::Empty => "cannot parse integer from empty string"@,
            HexError::InvalidDigit => "invalid digit found in string"@,
            HexError::Overflow => "number too large to fit in target type"@,
        }
    }

    /// The wording of the error.
    pub fn message(&self) -> (r: String)
        ensures
            r@ == self.wording(),
    {
        match self {
            HexError::Empty => "cannot parse integer from empty string".to_owned(),
            HexError::InvalidDigit => "invalid digit found in string".to_owned(),
            HexError::Overflow => "number too large to fit in target type".to_owned(),
        }
    }
}

/// `n` written in `radix`.
fn render(n: u64, radix: u64) -> (r: String)
    requires
        radix == 10 || radix == 16,
    ensures
        r@ == numeral(n as nat, radix as nat),
    decreases n,
{
    let d: u8 = (n % radix) as u8;
    let c: char = if d < 10 { (0x30 + d) as char } else { (0x41 + (d - 10)) as char };
    let mut out: String = if n < radix { String::new() } else { render(n / radix, radix) };
    out.push(c);
    out
}

/// `n` in decimal.
pub fn decimal(n: u64) -> (r: String)
    ensures
        r@ == numeral(n as nat, 10),
{
    render(n, 10)
}

/// `n` in hexadecimal, with upper case letters.
pub fn hexadecimal(n: u64) -> (r: String)
    ensures
        r@ == numeral(n as nat, 16),
{
    render(n, 16)
}

/// The value of a hexadecimal digit in either letter case.
fn digit_of(c: char) -> (r: Option<u64>)
    ensures
        match r {
            Some(d) => digit_value(c) == Some(d as nat) && d < 16,
            None => digit_value(c) is None,
        },
{
    let code: u32 = c as u32;
    if '0' <= c && c <= '9' {
        Some((code - 0x30) as u64)
    } else if 'a' <= c && c <= 'f' {
        Some((code - 0x61 + 10) as u64)
    } else if 'A' <= c && c <= 'F' {
        Some((code - 0x41 + 10) as u64)
    } else {
        None
    }
}

/// A longer run of digits stands for no smaller number.
proof fn hex_value_grows(s: Seq<char>, i: int, j: int)
    requires
        0 <= i <= j <= s.len(),
    ensures
        hex_value(s.take(i)) <= hex_value(s.take(j)),
    decreases j - i,
{
    if i < j {
        assert(s.take(j).drop_last() == s.take(j - 1));
        hex_value_grows(s, i, j - 1);
    }
}

/// When the first `n` characters are digits, the run is `n` longer than that
/// of the rest.
proof fn digit_run_extends(s: Seq<char>, n: int)
    requires
        0 <= n <= s.len(),
        forall|k: int| 0 <= k < n ==> digit_value(#[trigger] s[k]) is Some,
    ensures
        digit_run(s) == n + digit_run(s.skip(n)),
        digit_run(s.skip(n)) <= s.len() - n,
    decreases n, s.len(),
{
    if n == 0 {
        assert(s.skip(0) == s);
        if s.len() > 0 && digit_value(s[0]) is Some {
            digit_run_extends(s.skip(1), 0);
            assert(s.skip(1).skip(0) == s.skip(1));
        }
    } else {
        let rest = s.skip(1);
        assert forall|k: int| 0 <= k < n - 1 implies digit_value(#[trigger] rest[k]) is Some by {
            assert(rest[k] == s[k + 1]);
        }
        digit_run_extends(rest, n - 1);
        assert(rest.skip(n - 1) == s.skip(n));
    }
}

/// Reads `s` as an unsigned hexadecimal number of 64 bits with an optional
/// plus sign.
pub fn parse_hex(s: &str) -> (r: Result<u64, HexError>)
    ensures
        r == hex_reading(s@),
{
    let v: Vec<char> = chars_of(s);
    let n: usize = v.len();
    if n == 0 {
        return Err(HexError::Empty);
    }
    let from: usize = if v[0] == '+' { 1 } else { 0 };
    let ghost digits = unsigned_part(s@);
    assert(digits == v@.skip(from as int)) by {
        assert(v@.skip(0) == v@);
    }
    if from == n {
        return Err(HexError::InvalidDigit);
    }
    let mut value: u64 = 0;
    let mut i: usize = from;
    assert(digits.take(0) == Seq::<char>::empty());
    while i < n
        invariant
            from <= i <= n,
            n == v@.len(),
            n > from,
            v@ == s@,
            digits == unsigned_part(s@),
            digits == v@.skip(from as int),
            forall|k: int| 0 <= k < i - from ==> digit_value(#[trigger] digits[k]) is Some,
            value == hex_value(digits.take(i - from)),
        decreases n - i,
    {
        let ghost at: int = i - from;
        proof {
            digit_run_extends(digits, at);
            assert(digits[at] == v@[i as int]);
            assert(digits.skip(at)[0] == digits[at]);
        }
        match digit_of(v[i]) {
            None => {
                return Err(HexError::InvalidDigit);
            },
            Some(d) => {
                proof {
                    digit_run_extends(digits, at + 1);
                    assert(digits.take(at + 1).drop_last() == digits.take(at));
                    hex_value_grows(digits, at + 1, digit_run(digits) as int);
                }
                if value > (u64::MAX - d) / 16 {
                    return Err(HexError::Overflow);
                }
                value = value * 16 + d;
            },
        }
        i += 1;
    }
    proof {
        digit_run_extends(digits, n - from);
    }
    Ok(value)
}

} // verus!
