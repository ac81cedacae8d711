use newbbs::number::{decimal, decimal_signed, parse_signed, parse_unsigned};

#[test]
fn numbers_are_read_back_as_written() {
    for n in [0, 1, 9, 10, 255, 65_535, u64::MAX] {
        assert_eq!(decimal(n), n.to_string());
        assert_eq!(parse_unsigned(&decimal(n), u64::MAX), Some(n));
    }
    for n in [0, -1, 42, i64::MIN, i64::MAX] {
        assert_eq!(decimal_signed(n), n.to_string());
        assert_eq!(parse_signed(&decimal_signed(n)), Some(n));
    }
}

#[test]
fn what_is_no_number() {
    for text in ["", "+", "-", "1a", " 1", "--1", "9223372036854775808"] {
        assert_eq!(parse_signed(text), text.parse::<i64>().ok(), "{text:?}");
    }
    for text in ["", "+5", "-5", "256", "00255", "1.0"] {
        assert_eq!(parse_unsigned(text, 255), text.parse::<u8>().ok().map(u64::from), "{text:?}");
    }
}
