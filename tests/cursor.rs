use calseg::cursor::{to_ascii_byte, Cursor, ParseError, Slice};

#[test]
fn reads_utf8_digits() {
    let mut cursor = Cursor::new(b"2024-x");
    assert_eq!(cursor.pos(), 0);
    assert_eq!(cursor.peek(), Ok(Some(b'0')));
    assert_eq!(cursor.next_digit(), Ok(Some(2)));
    assert_eq!(cursor.next_digit(), Ok(Some(0)));
    assert_eq!(cursor.next_digit(), Ok(Some(2)));
    assert_eq!(cursor.next_digit(), Ok(Some(4)));
    assert_eq!(cursor.check(|b| b == b'-'), Ok(Some(true)));
    cursor.advance_if(true);
    assert_eq!(cursor.current(), Ok(Some(b'x')));
    assert_eq!(cursor.next_digit(), Ok(None));
    assert_eq!(cursor.check(|b| b == b'-'), Ok(None));
    assert_eq!(cursor.check_or(true, |_| false), Ok(true));
    assert_eq!(
        cursor.next_digit(),
        Err(ParseError::AbruptEnd { location: "digit" })
    );
}

#[test]
fn utf16_must_be_ascii() {
    let units = [0x31u16, 0x3A9, 0x32];
    let mut cursor = Cursor::from_utf16(&units);
    assert_eq!(cursor.next(), Ok(Some(b'1')));
    assert_eq!(cursor.next(), Err(ParseError::Utf16NonAsciiChar));
    assert_eq!(cursor.next_or(ParseError::InvalidEnd), Ok(b'2'));
    assert_eq!(cursor.close(), Ok(()));
    assert_eq!(to_ascii_byte(0), Err(ParseError::Utf16NonAsciiChar));
    assert_eq!(to_ascii_byte(0x7F), Err(ParseError::Utf16NonAsciiChar));
    assert_eq!(to_ascii_byte(0x41), Ok(b'A'));
}

#[test]
fn slices_and_close() {
    let mut cursor = Cursor::new(b"abcdef");
    assert_eq!(cursor.slice(1, 3), Some(Slice::Utf8(b"bc")));
    assert_eq!(cursor.slice(3, 7), None);
    assert_eq!(cursor.slice(4, 2), None);
    assert_eq!(cursor.close(), Err(ParseError::InvalidEnd));
    cursor.advance_n(6);
    assert_eq!(cursor.close(), Ok(()));
    assert_eq!(cursor.peek_n(0), Ok(None));
    let units = [0x61u16, 0x62];
    let cursor = Cursor::from_utf16(&units);
    assert_eq!(cursor.slice(0, 2), Some(Slice::Utf16(&units)));
}
