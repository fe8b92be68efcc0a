use srec::cursor::{read_bytes, read_chars, read_hex, read_slice};
use srec::error::DecodeError;
use srec::hex::{hex_digit, parse_hex};

#[test]
fn hex_digit_values() {
    assert_eq!(hex_digit(b'0'), Some(0));
    assert_eq!(hex_digit(b'9'), Some(9));
    assert_eq!(hex_digit(b'A'), Some(10));
    assert_eq!(hex_digit(b'F'), Some(15));
    assert_eq!(hex_digit(b'a'), Some(10));
    assert_eq!(hex_digit(b'f'), Some(15));
}

#[test]
fn hex_digit_refuses_neighbours_of_the_digit_ranges() {
    for b in [b'/', b':', b'@', b'G', b'`', b'g', b' ', b'+', b'-', 0u8, 0xFFu8] {
        assert_eq!(hex_digit(b), None);
    }
}

#[test]
fn hex_digit_agrees_with_char_to_digit_on_every_byte() {
    for b in 0..=255u8 {
        let expected = if b.is_ascii() { (b as char).to_digit(16).map(|d| d as u8) } else { None };
        assert_eq!(hex_digit(b), expected);
    }
}

#[test]
fn parse_hex_exact_values() {
    assert_eq!(parse_hex(b"0"), Ok(0));
    assert_eq!(parse_hex(b"00"), Ok(0));
    assert_eq!(parse_hex(b"1F"), Ok(0x1F));
    assert_eq!(parse_hex(b"1234"), Ok(0x1234));
    assert_eq!(parse_hex(b"abcdef"), Ok(0xABCDEF));
    assert_eq!(parse_hex(b"AbCdEf01"), Ok(0xABCDEF01));
    assert_eq!(parse_hex(b"FFFFFFFF"), Ok(u32::MAX));
    assert_eq!(parse_hex(b"0000000FF"), Ok(0xFF));
}

#[test]
fn parse_hex_refuses_what_is_not_a_number() {
    assert_eq!(parse_hex(b""), Err(DecodeError::Format));
    assert_eq!(parse_hex(b"G0"), Err(DecodeError::Format));
    assert_eq!(parse_hex(b"0G"), Err(DecodeError::Format));
    assert_eq!(parse_hex(b"+F"), Err(DecodeError::Format));
    assert_eq!(parse_hex(b"-F"), Err(DecodeError::Format));
    assert_eq!(parse_hex(b" F"), Err(DecodeError::Format));
    assert_eq!(parse_hex(b"0x"), Err(DecodeError::Format));
    assert_eq!(parse_hex(&[0xC3, 0xA9]), Err(DecodeError::Format));
}

#[test]
fn parse_hex_refuses_more_than_32_bits() {
    assert_eq!(parse_hex(b"100000000"), Err(DecodeError::Format));
    assert_eq!(parse_hex(b"FFFFFFFFF"), Err(DecodeError::Format));
    assert_eq!(parse_hex(b"FFFFFFFF0Z"), Err(DecodeError::Format));
}

#[test]
fn read_chars_with_and_without_advance() {
    let buffer = b"S1051234";
    let mut pos = 0usize;
    assert_eq!(read_chars(buffer, &mut pos, 2, true), Ok(String::from("S1")));
    assert_eq!(pos, 2);
    assert_eq!(read_chars(buffer, &mut pos, 2, false), Ok(String::from("05")));
    assert_eq!(pos, 2);
    assert_eq!(read_chars(buffer, &mut pos, 6, true), Ok(String::from("051234")));
    assert_eq!(pos, 8);
    assert_eq!(read_chars(buffer, &mut pos, 0, true), Ok(String::new()));
    assert_eq!(pos, 8);
}

#[test]
fn read_chars_replaces_what_is_no_utf8() {
    let buffer = [0x53u8, 0xFF];
    let mut pos = 0usize;
    let text = read_chars(&buffer, &mut pos, 2, true).unwrap();
    assert_eq!(text, "S\u{FFFD}");
    assert_eq!(text.chars().count(), 2);
    assert_eq!(text.len(), 4);
    assert_eq!(pos, 2);
}

#[test]
fn read_chars_replaces_a_sequence_that_is_cut() {
    let buffer = [0x31u8, 0xC3, 0x32, 0xE2, 0x82];
    let mut pos = 0usize;
    assert_eq!(read_chars(&buffer, &mut pos, 3, true), Ok(String::from("1\u{FFFD}2")));
    assert_eq!(pos, 3);
    assert_eq!(read_chars(&buffer, &mut pos, 2, true), Ok(String::from("\u{FFFD}")));
    assert_eq!(pos, 5);
}

#[test]
fn read_chars_keeps_valid_utf8() {
    let buffer = [0xC3u8, 0xA9, 0x41];
    let mut pos = 0usize;
    assert_eq!(read_chars(&buffer, &mut pos, 3, true), Ok(String::from("\u{E9}A")));
    assert_eq!(pos, 3);
}

#[test]
fn read_chars_reads_every_ascii_byte_as_itself() {
    let buffer: Vec<u8> = (0u8..0x80).collect();
    let mut pos = 0usize;
    let text = read_chars(&buffer, &mut pos, 128, true).unwrap();
    assert_eq!(pos, 128);
    let expected: String = (0u8..0x80).map(|b| b as char).collect();
    assert_eq!(text, expected);
}

#[test]
fn read_chars_past_the_end_is_a_bounds_error() {
    let buffer = b"S105";
    let mut pos = 3usize;
    assert_eq!(read_chars(buffer, &mut pos, 2, true), Err(DecodeError::Bounds));
    assert_eq!(pos, 3);
    let mut pos = 5usize;
    assert_eq!(read_chars(buffer, &mut pos, 0, true), Err(DecodeError::Bounds));
    assert_eq!(pos, 5);
    let mut pos = 1usize;
    assert_eq!(read_chars(buffer, &mut pos, usize::MAX, true), Err(DecodeError::Bounds));
    assert_eq!(pos, 1);
    let mut pos = usize::MAX;
    assert_eq!(read_chars(buffer, &mut pos, usize::MAX, false), Err(DecodeError::Bounds));
}

#[test]
fn read_slice_with_and_without_advance() {
    let buffer = b"S1051234";
    let mut pos = 0usize;
    assert_eq!(read_slice(buffer, &mut pos, 2, true), Ok(&b"S1"[..]));
    assert_eq!(pos, 2);
    assert_eq!(read_slice(buffer, &mut pos, 2, false), Ok(&b"05"[..]));
    assert_eq!(pos, 2);
    assert_eq!(read_slice(buffer, &mut pos, 6, true), Ok(&b"051234"[..]));
    assert_eq!(pos, 8);
    assert_eq!(read_slice(buffer, &mut pos, 0, true), Ok(&b""[..]));
    assert_eq!(pos, 8);
}

#[test]
fn read_slice_hands_out_bytes_as_they_are() {
    let buffer = [0xFFu8, b'\n', 0x00, b'z'];
    let mut pos = 0usize;
    assert_eq!(read_slice(&buffer, &mut pos, 4, true), Ok(&buffer[..]));
}

#[test]
fn read_slice_past_the_end_is_a_bounds_error() {
    let buffer = b"S105";
    let mut pos = 3usize;
    assert_eq!(read_slice(buffer, &mut pos, 2, true), Err(DecodeError::Bounds));
    assert_eq!(pos, 3);
    let mut pos = 5usize;
    assert_eq!(read_slice(buffer, &mut pos, 0, true), Err(DecodeError::Bounds));
    assert_eq!(pos, 5);
    let mut pos = 1usize;
    assert_eq!(read_slice(buffer, &mut pos, usize::MAX, true), Err(DecodeError::Bounds));
    assert_eq!(pos, 1);
}

#[test]
fn read_hex_at_each_width() {
    let buffer = b"12345678";
    let mut pos = 0usize;
    assert_eq!(read_hex(buffer, &mut pos, 4, false), Ok(0x1234));
    assert_eq!(read_hex(buffer, &mut pos, 6, false), Ok(0x123456));
    assert_eq!(read_hex(buffer, &mut pos, 8, false), Ok(0x12345678));
    assert_eq!(pos, 0);
    assert_eq!(read_hex(buffer, &mut pos, 2, true), Ok(0x12));
    assert_eq!(pos, 2);
    assert_eq!(read_hex(buffer, &mut pos, 8, true), Err(DecodeError::Bounds));
    assert_eq!(pos, 2);
}

#[test]
fn read_hex_leaves_the_cursor_on_a_malformed_field() {
    let buffer = b"12G4";
    let mut pos = 0usize;
    assert_eq!(read_hex(buffer, &mut pos, 4, true), Err(DecodeError::Format));
    assert_eq!(pos, 0);
    assert_eq!(read_hex(buffer, &mut pos, 0, true), Err(DecodeError::Format));
    assert_eq!(pos, 0);
}

#[test]
fn read_bytes_gives_exactly_the_bytes_asked_for() {
    let buffer = b"0001ABcdEFff";
    for len in 0..=6usize {
        let mut pos = 0usize;
        let mem = read_bytes(buffer, &mut pos, len).unwrap();
        assert_eq!(mem.len(), len);
        assert_eq!(pos, 2 * len);
        assert_eq!(mem, [0x00u8, 0x01, 0xAB, 0xCD, 0xEF, 0xFF][..len].to_vec());
    }
}

#[test]
fn read_bytes_starts_at_the_cursor() {
    let buffer = b"S1051234ABCD3C";
    let mut pos = 8usize;
    assert_eq!(read_bytes(buffer, &mut pos, 2), Ok(vec![0xAB, 0xCD]));
    assert_eq!(pos, 12);
    assert_eq!(read_bytes(buffer, &mut pos, 1), Ok(vec![0x3C]));
    assert_eq!(pos, 14);
    assert_eq!(read_bytes(buffer, &mut pos, 0), Ok(vec![]));
    assert_eq!(pos, 14);
}

#[test]
fn read_bytes_past_the_end_is_a_bounds_error() {
    let buffer = b"ABCD";
    let mut pos = 0usize;
    assert_eq!(read_bytes(buffer, &mut pos, 3), Err(DecodeError::Bounds));
    assert_eq!(pos, 0);
    let odd = b"ABC";
    assert_eq!(read_bytes(odd, &mut pos, 2), Err(DecodeError::Bounds));
    assert_eq!(pos, 0);
    assert_eq!(read_bytes(buffer, &mut pos, usize::MAX), Err(DecodeError::Bounds));
    let mut beyond = 5usize;
    assert_eq!(read_bytes(buffer, &mut beyond, 0), Err(DecodeError::Bounds));
    assert_eq!(beyond, 5);
}

#[test]
fn read_bytes_meets_a_malformed_pair_before_the_end() {
    let buffer = b"ABxD";
    let mut pos = 0usize;
    assert_eq!(read_bytes(buffer, &mut pos, 3), Err(DecodeError::Format));
    assert_eq!(pos, 0);
    assert_eq!(read_bytes(buffer, &mut pos, 2), Err(DecodeError::Format));
    assert_eq!(read_bytes(buffer, &mut pos, 1), Ok(vec![0xAB]));
    assert_eq!(pos, 2);
}

#[test]
fn read_bytes_does_not_look_at_a_pair_that_is_cut() {
    let buffer = b"ABx";
    let mut pos = 0usize;
    assert_eq!(read_bytes(buffer, &mut pos, 2), Err(DecodeError::Bounds));
}
