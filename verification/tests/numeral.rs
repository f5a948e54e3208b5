use fantom::numeral::{decimal, hexadecimal, parse_hex, HexError};

const NUMBERS: [u64; 9] = [0, 9, 10, 15, 16, 255, 0x1A2B3C, u64::MAX - 1, u64::MAX];

#[test]
fn numbers_are_written_like_the_standard_library_does() {
    for n in NUMBERS {
        assert_eq!(decimal(n), n.to_string());
        assert_eq!(hexadecimal(n), format!("{:X}", n));
    }
}

#[test]
fn written_numbers_read_back() {
    for n in NUMBERS {
        assert_eq!(parse_hex(&hexadecimal(n)), Ok(n));
    }
}

#[test]
fn hexadecimal_reading_agrees_with_the_standard_library() {
    let texts = [
        "", "+", "-", "0", "00", "7f", "7F", "+1a", "-1", "+-1", "++1", "1+", "g", "1g", "0x1", " 1", "1 ", "1_0",
        "FFFFFFFFFFFFFFFF", "10000000000000000", "FFFFFFFFFFFFFFFFF", "FFFFFFFFFFFFFFFFG", "FFFFFFFFFFFFFFFFFG",
        "00000000000000000000000001", "\u{661}", "\u{ff21}", "1\u{e9}",
    ];
    for t in texts {
        match (parse_hex(t), u64::from_str_radix(t, 16)) {
            (Ok(a), Ok(b)) => assert_eq!(a, b),
            (Err(a), Err(b)) => assert_eq!(a.message(), b.to_string(), "{:?}", t),
            (a, b) => panic!("{:?}: {:?} {:?}", t, a, b),
        }
    }
}

#[test]
fn every_hexadecimal_error_occurs() {
    assert_eq!(parse_hex(""), Err(HexError::Empty));
    assert_eq!(parse_hex("+"), Err(HexError::InvalidDigit));
    assert_eq!(parse_hex("12x"), Err(HexError::InvalidDigit));
    assert_eq!(parse_hex("10000000000000000"), Err(HexError::Overflow));
    assert_eq!(parse_hex("10000000000000000x"), Err(HexError::Overflow));
}
