use audioviz::colors::{parse_hex_color, ColoredChar, FromHex, HexColorError};

#[test]
fn colored_char_new_keeps_fields() {
    let cc = ColoredChar::new('k', (1, 2, 3));
    assert_eq!(cc.c, 'k');
    assert_eq!(cc.color, (1, 2, 3));
}

#[test]
fn colored_char_equality_compares_char_and_color() {
    assert!(ColoredChar::new('a', (1, 2, 3)) == ColoredChar::new('a', (1, 2, 3)));
    assert!(ColoredChar::new('a', (1, 2, 3)) != ColoredChar::new('b', (1, 2, 3)));
    assert!(ColoredChar::new('a', (1, 2, 3)) != ColoredChar::new('a', (1, 2, 4)));
}

#[test]
fn colored_char_to_string_uses_rgb_codes() {
    let cc = ColoredChar::new('A', (255, 0, 0));
    assert_eq!(cc.to_string((0, 0, 0)), "\x1b[48;2;0;0;0;38;2;255;0;0mA\x1b[0m");
    let block = ColoredChar::new('\u{2588}', (10, 200, 7));
    assert_eq!(block.to_string((1, 22, 133)), "\x1b[48;2;1;22;133;38;2;10;200;7m\u{2588}\x1b[0m");
}

#[test]
fn hex_color_parses() {
    assert_eq!(<(u8, u8, u8)>::from_hex_string("0xff8000".to_string()), Ok((255, 128, 0)));
    assert_eq!(<(u8, u8, u8)>::from_hex_string("0x0A0b1C".to_string()), Ok((10, 11, 28)));
    assert_eq!(parse_hex_color("0x000000"), Ok((0, 0, 0)));
}

#[test]
fn hex_color_without_prefix_is_rejected() {
    assert_eq!(parse_hex_color("ff8000"), Err(HexColorError::MissingPrefix));
    assert_eq!(parse_hex_color(""), Err(HexColorError::MissingPrefix));
    assert_eq!(
        <(u8, u8, u8)>::from_hex_string("#ff8000".to_string()),
        Err("Invalid Hex String: Did not start with 0x.".to_string())
    );
}

#[test]
fn hex_color_of_wrong_length_is_rejected() {
    assert_eq!(parse_hex_color("0xfff"), Err(HexColorError::InvalidLength));
    assert_eq!(parse_hex_color("0x"), Err(HexColorError::InvalidLength));
    assert_eq!(
        <(u8, u8, u8)>::from_hex_string("0xff80000".to_string()),
        Err("Invalid Hex String: Invalid length".to_string())
    );
}

#[test]
fn hex_color_with_bad_digit_is_rejected() {
    assert_eq!(parse_hex_color("0xff80g0"), Err(HexColorError::InvalidDigit));
    assert_eq!(
        <(u8, u8, u8)>::from_hex_string("0x12 456".to_string()),
        Err("Invalid Hex".to_string())
    );
}

#[test]
fn hex_color_length_counts_bytes() {
    // "é" is two bytes: seven bytes follow the prefix.
    assert_eq!(parse_hex_color("0xé12345"), Err(HexColorError::InvalidLength));
    // Six bytes, one of them not a hex digit.
    assert_eq!(parse_hex_color("0xé1234"), Err(HexColorError::InvalidDigit));
    // Three two-byte characters make six bytes, none a hex digit.
    assert_eq!(parse_hex_color("0xééé"), Err(HexColorError::InvalidDigit));
}

#[test]
fn colored_char_to_ansi_is_the_utf8_of_to_string() {
    let cc = ColoredChar::new('\u{2588}', (3, 2, 1));
    let bytes = cc.to_ansi((0, 0, 0));
    assert_eq!(bytes, cc.to_string((0, 0, 0)).into_bytes());
    assert_eq!(&bytes[..4], b"\x1b[48");
}
