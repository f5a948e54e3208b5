//! What holds of numerals: how a number is written digit by digit, and how the
//! reading of a text follows from one character to the next.
use vstd::prelude::*;

use crate::numeral::{digit, digit_run, digit_value, hex_reading, hex_value, numeral, HexError};
use crate::numeral::unsigned_part;

verus! {

/// A number below ten is written as the character that many code points after
/// `0`; any other as its tenth part followed by its last digit.
pub proof fn decimal_by_digit(n: nat)
    ensures
        n < 10 ==> numeral(n, 10).len() == 1 && numeral(n, 10)[0] as int == 48 + n,
        n >= 10 ==> {
            &&& numeral(n, 10).len() == numeral(n / 10, 10).len() + 1
            &&& numeral(n, 10).drop_last() == numeral(n / 10, 10)
            &&& numeral(n, 10).last() as int == 48 + n % 10
        },
{
    if n >= 10 {
        assert(numeral(n, 10).drop_last() =~= numeral(n / 10, 10));
    }
}

/// The code point of a hexadecimal digit in upper case.
proof fn upper_digit_code(d: nat)
    requires
        d < 16,
    ensures
        digit(d) as int == (if d < 10 {
            48 + d
        } else {
            55 + d
        }),
{
}

/// A number below sixteen is written as one of the characters `0` to `9` and `A`
/// to `F`; any other as its sixteenth part followed by its last digit.
pub proof fn hexadecimal_by_digit(n: nat)
    ensures
        n < 16 ==> numeral(n, 16).len() == 1 && numeral(n, 16)[0] as int == (if n < 10 {
            48 + n
        } else {
            55 + n
        }),
        n >= 16 ==> {
            &&& numeral(n, 16).len() == numeral(n / 16, 16).len() + 1
            &&& numeral(n, 16).drop_last() == numeral(n / 16, 16)
            &&& numeral(n, 16).last() as int == (if n % 16 < 10 {
                48 + n % 16
            } else {
                55 + n % 16
            })
        },
{
    upper_digit_code(n % 16);
    if n >= 16 {
        assert(numeral(n, 16).drop_last() =~= numeral(n / 16, 16));
    } else {
        upper_digit_code(n);
    }
}

/// The hexadecimal digits by their code points, in either letter case.
pub proof fn digit_values_by_code(c: char)
    ensures
        48 <= c as int <= 57 ==> digit_value(c) == Some((c as int - 48) as nat),
        65 <= c as int <= 70 ==> digit_value(c) == Some((c as int - 55) as nat),
        97 <= c as int <= 102 ==> digit_value(c) == Some((c as int - 87) as nat),
        !(48 <= c as int <= 57) && !(65 <= c as int <= 70) && !(97 <= c as int <= 102)
            ==> digit_value(c) is None,
{
}

/// A run of digits goes on with the next character only if it covers the text so
/// far and the character is a digit.
proof fn digit_run_of_longer(s: Seq<char>, c: char)
    ensures
        digit_run(s) <= s.len(),
        digit_run(s.push(c)) == (if digit_run(s) == s.len() && digit_value(c) is Some {
            s.len() + 1
        } else {
            digit_run(s)
        }),
    decreases s.len(),
{
    if s.len() == 0 {
        assert(s.push(c) =~= seq![c]);
        assert(s.push(c).skip(1) =~= Seq::<char>::empty());
        reveal_with_fuel(digit_run, 2);
    } else {
        assert(s.push(c)[0] == s[0]);
        assert(s.push(c).skip(1) =~= s.skip(1).push(c));
        digit_run_of_longer(s.skip(1), c);
    }
}

/// The parts of a text and of the text with one more character.
proof fn parts_of_longer(s: Seq<char>, c: char)
    requires
        s.len() > 0,
    ensures
        unsigned_part(s.push(c)) == unsigned_part(s).push(c),
        ({
            let u = unsigned_part(s);
            let run = digit_run(u) as int;
            &&& run <= u.len()
            &&& digit_run(u.push(c)) == (if run == u.len() && digit_value(c) is Some {
                (run + 1) as nat
            } else {
                run as nat
            })
            &&& u.push(c).take(run) == u.take(run)
            &&& run == u.len() && digit_value(c) is Some ==> hex_value(
                u.push(c).take(run + 1),
            ) == hex_value(u.take(run)) * 16 + digit_value(c)->0
        }),
{
    let u = unsigned_part(s);
    if s[0] == '+' {
        assert(s.push(c).skip(1) =~= s.skip(1).push(c));
    }
    digit_run_of_longer(u, c);
    let run = digit_run(u) as int;
    assert(u.push(c).take(run) =~= u.take(run));
    if run == u.len() && digit_value(c) is Some {
        assert(u.push(c).take(run + 1) =~= u.push(c));
        assert(u.push(c).drop_last() =~= u);
        assert(u.take(run) =~= u);
    }
}

/// A single digit reads as its value, and nothing else of one character reads, nor
/// do two plus signs.
pub proof fn reading_one_character(c: char)
    ensures
        hex_reading(Seq::empty()) == Err::<u64, HexError>(HexError::Empty),
        match digit_value(c) {
            Some(d) => d < 16 && hex_reading(seq![c]) == Ok::<u64, HexError>(d as u64),
            None => hex_reading(seq![c]) == Err::<u64, HexError>(HexError::InvalidDigit),
        },
        hex_reading(seq!['+', '+']) == Err::<u64, HexError>(HexError::InvalidDigit),
{
    let two = seq!['+', '+'];
    assert(two.skip(1) =~= seq!['+']);
    assert(seq!['+'].take(0) =~= Seq::<char>::empty());
    let s = seq![c];
    let none = Seq::<char>::empty();
    reveal_with_fuel(digit_run, 2);
    reveal_with_fuel(hex_value, 2);
    assert(s.skip(1) =~= none);
    assert(s.take(1) =~= s);
    assert(s.take(0) =~= none);
    assert(s.drop_last() =~= none);
}

/// A further digit multiplies by sixteen and adds its value, unless the number is
/// then more than 64 bits hold; any other further character is no digit.
pub proof fn reading_one_more_character(s: Seq<char>, c: char, v: u64)
    requires
        hex_reading(s) == Ok::<u64, HexError>(v),
    ensures
        match digit_value(c) {
            Some(d) => hex_reading(s.push(c)) == (if v * 16 + d <= u64::MAX {
                Ok::<u64, HexError>((v * 16 + d) as u64)
            } else {
                Err(HexError::Overflow)
            }),
            None => hex_reading(s.push(c)) == Err::<u64, HexError>(HexError::InvalidDigit),
        },
{
    parts_of_longer(s, c);
}

/// Once a text does not read, it does not read with more characters either, and
/// for the same reason; but for the empty text and a lone plus sign.
pub proof fn errors_stay(s: Seq<char>, c: char, e: HexError)
    requires
        s.len() > 0,
        s != seq!['+'],
        hex_reading(s) == Err::<u64, HexError>(e),
    ensures
        hex_reading(s.push(c)) == Err::<u64, HexError>(e),
{
    parts_of_longer(s, c);
    let u = unsigned_part(s);
    if u.len() == 0 {
        assert(s =~= seq!['+']);
    }
    if digit_run(u) == u.len() && digit_value(c) is Some {
        assert(hex_value(u.take(u.len() as int)) > u64::MAX);
    }
}

/// One plus sign before a text that has none changes nothing.
pub proof fn plus_sign_is_optional(s: Seq<char>)
    requires
        s.len() > 0,
        s[0] != '+',
    ensures
        hex_reading(seq!['+'] + s) == hex_reading(s),
{
    assert((seq!['+'] + s).skip(1) =~= s);
}

/// The errors in words.
pub proof fn errors_in_words()
    ensures
        HexError::Empty.wording() == "cannot parse integer from empty string"@,
        HexError::InvalidDigit.wording() == "invalid digit found in string"@,
        HexError::Overflow.wording() == "number too large to fit in target type"@,
{
}

} // verus!
