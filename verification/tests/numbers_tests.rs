use scarlet_youtube::numbers::{
    hex_char_value, hex_digit, json_hex_digit, parse_hex_u16, parse_hex_usize, parse_u16,
    parse_u8, parse_usize, push_decimal, read_u16,
};

#[test]
fn decimal_parsing() {
    assert_eq!(parse_usize("0"), Some(0));
    assert_eq!(parse_usize("00123"), Some(123));
    assert_eq!(parse_usize(""), None);
    assert_eq!(parse_usize("12a"), None);
    assert_eq!(parse_usize("+1"), None);
    assert_eq!(parse_usize(&usize::MAX.to_string()), Some(usize::MAX));
    assert_eq!(parse_usize("99999999999999999999999"), None);
    assert_eq!(parse_u16("65535"), Some(65535));
    assert_eq!(parse_u16("65536"), None);
    assert_eq!(parse_u8("255"), Some(255));
    assert_eq!(parse_u8("256"), None);
}

#[test]
fn hex_parsing() {
    assert_eq!(parse_hex_usize("fF"), Some(255));
    assert_eq!(parse_hex_usize(""), None);
    assert_eq!(parse_hex_usize("g"), None);
    assert_eq!(parse_hex_usize("ffffffffffffffffff"), None);
    assert_eq!(parse_hex_u16(&['0', '0', 'e', '9']), Some(0xe9));
    assert_eq!(parse_hex_u16(&['0', '0', 'e']), None);
    assert_eq!(parse_hex_u16(&['0', '0', 'e', 'x']), None);
    assert_eq!(hex_char_value('B'), Some(11));
    assert_eq!(hex_char_value('z'), None);
    assert_eq!(hex_digit(b'a'), Some(10));
    assert_eq!(hex_digit(b'9'), Some(9));
    assert_eq!(hex_digit(b'G'), None);
}

#[test]
fn digits_out() {
    assert_eq!(json_hex_digit(0), '0');
    assert_eq!(json_hex_digit(11), 'b');
    assert_eq!(json_hex_digit(16), '0');
    let mut s = String::from("n=");
    push_decimal(&mut s, 0);
    push_decimal(&mut s, 4096);
    assert_eq!(s, "n=04096");
}

#[test]
fn big_endian_reads() {
    assert_eq!(read_u16(&[0x59, 0x54, 1], 0), Some(0x5954));
    assert_eq!(read_u16(&[0x59, 0x54, 1], 1), Some(0x5401));
    assert_eq!(read_u16(&[0x59, 0x54, 1], 2), None);
}
