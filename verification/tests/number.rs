use mononoke::number::{
    format_i32, parse_nonzero_u32, parse_number, parse_u16, parse_u64, parse_usize, NumberError,
};
use std::num::NonZeroU32;

fn texts() -> Vec<&'static str> {
    vec![
        "", "+", "-", "0", "+0", "-0", "00", "7", "+7", "007", "12", " 12", "12 ", "1_000", "0x10",
        "+-3", "++3", "65535", "65536", "4294967295", "4294967296", "18446744073709551615",
        "18446744073709551616", "18446744073709551615x", "99999999999999999999x", "9x9", "é",
        "\u{0661}", "1é",
    ]
}

#[test]
fn agrees_with_the_standard_library() {
    for text in texts() {
        match (parse_u64(text), text.parse::<u64>()) {
            (Ok(a), Ok(b)) => assert_eq!(a, b),
            (Err(e), Err(f)) => assert_eq!(e.message(), f.to_string()),
            (a, b) => panic!("{:?}: {:?} and {:?}", text, a, b),
        }
        match (parse_usize(text), text.parse::<usize>()) {
            (Ok(a), Ok(b)) => assert_eq!(a, b),
            (Err(e), Err(f)) => assert_eq!(e.message(), f.to_string()),
            (a, b) => panic!("{:?}: {:?} and {:?}", text, a, b),
        }
        match (parse_u16(text), text.parse::<u16>()) {
            (Ok(a), Ok(b)) => assert_eq!(a, b),
            (Err(e), Err(f)) => assert_eq!(e.message(), f.to_string()),
            (a, b) => panic!("{:?}: {:?} and {:?}", text, a, b),
        }
        match (parse_nonzero_u32(text), text.parse::<NonZeroU32>()) {
            (Ok(a), Ok(b)) => assert_eq!(a, b.get()),
            (Err(e), Err(f)) => assert_eq!(e.message(), f.to_string()),
            (a, b) => panic!("{:?}: {:?} and {:?}", text, a, b),
        }
    }
}

#[test]
fn each_error_has_its_text() {
    assert_eq!(parse_u64(""), Err(NumberError::Empty));
    assert_eq!(parse_u64("+"), Err(NumberError::InvalidDigit));
    assert_eq!(parse_u64("1x"), Err(NumberError::InvalidDigit));
    assert_eq!(parse_u16("65536"), Err(NumberError::PosOverflow));
    assert_eq!(parse_nonzero_u32("0"), Err(NumberError::Zero));
}

#[test]
fn the_first_bad_place_decides() {
    assert_eq!(parse_number("999x", 99), Err(NumberError::PosOverflow));
    assert_eq!(parse_number("99x9", 99), Err(NumberError::InvalidDigit));
    assert_eq!(parse_number("99", 99), Ok(99));
    assert_eq!(parse_number("+0042", 99), Ok(42));
}

#[test]
fn numbers_are_written_as_the_standard_library_does() {
    for n in [0, 1, 9, 10, 11, 99, 100, 33188, -1, -9, -10, -33188, i32::MAX, i32::MIN] {
        assert_eq!(format_i32(n), n.to_string());
    }
}

#[test]
fn a_written_number_reads_back() {
    for n in [0, 7, 10, 4096, i32::MAX] {
        assert_eq!(parse_u64(&format_i32(n)), Ok(n as u64));
    }
}
