use riscmon::hex::{hex_digit, parse_hex_u8_token, parse_hex_usize, push_hex_digits, trim_hex};

#[test]
fn parses_plain_and_prefixed_hex() {
    assert_eq!(parse_hex_usize(b"80000000"), Some(0x8000_0000));
    assert_eq!(parse_hex_usize(b"0x1F"), Some(0x1f));
    assert_eq!(parse_hex_usize(b"  0XaB \t"), Some(0xab));
    assert_eq!(parse_hex_usize(b"0"), Some(0));
}

#[test]
fn rejects_empty_and_malformed_hex() {
    assert_eq!(parse_hex_usize(b""), None);
    assert_eq!(parse_hex_usize(b"   "), None);
    assert_eq!(parse_hex_usize(b"0x"), None);
    assert_eq!(parse_hex_usize(b"0x0x5"), None);
    assert_eq!(parse_hex_usize(b"+5"), None);
    assert_eq!(parse_hex_usize(b"-5"), None);
    assert_eq!(parse_hex_usize(b"12g4"), None);
    assert_eq!(parse_hex_usize(b"1 2"), None);
}

#[test]
fn rejects_hex_wider_than_a_pointer() {
    let max = format!("{:x}", usize::MAX);
    assert_eq!(parse_hex_usize(max.as_bytes()), Some(usize::MAX));
    let over = format!("1{}", max);
    assert_eq!(parse_hex_usize(over.as_bytes()), None);
    let over_bad = format!("1{}z", max);
    assert_eq!(parse_hex_usize(over_bad.as_bytes()), None);
    let padded = format!("0000{}", max);
    assert_eq!(parse_hex_usize(padded.as_bytes()), Some(usize::MAX));
}

#[test]
fn byte_tokens_need_exactly_two_digits() {
    assert_eq!(parse_hex_u8_token(b"48"), Some(0x48));
    assert_eq!(parse_hex_u8_token(b"0xfF"), Some(0xff));
    assert_eq!(parse_hex_u8_token(b"0a"), Some(0x0a));
    assert_eq!(parse_hex_u8_token(b"a"), None);
    assert_eq!(parse_hex_u8_token(b"123"), None);
    assert_eq!(parse_hex_u8_token(b"+f"), None);
    assert_eq!(parse_hex_u8_token(b"zz"), None);
}

#[test]
fn trim_hex_strips_space_and_prefix() {
    assert_eq!(trim_hex(b"  0x12 "), (4, 6));
    assert_eq!(trim_hex(b"ab"), (0, 2));
    assert_eq!(trim_hex(b"   "), (3, 3));
}

#[test]
fn nibbles_become_lowercase_digits() {
    assert_eq!(hex_digit(0), b'0');
    assert_eq!(hex_digit(9), b'9');
    assert_eq!(hex_digit(10), b'a');
    assert_eq!(hex_digit(15), b'f');
    let mut out = Vec::new();
    push_hex_digits(&mut out, 0x8000_00ab, 8);
    assert_eq!(out, b"800000ab".to_vec());
}
