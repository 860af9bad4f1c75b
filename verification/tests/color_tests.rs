use darken::color::{parse_color, color_to_hex, RgbColor, InvalidColor};

#[test]
fn parses_plain_hex() {
    let c = parse_color("2e3440").unwrap();
    assert_eq!(c, RgbColor { red: 0x2e, green: 0x34, blue: 0x40 });
}

#[test]
fn parses_leading_hash() {
    let c = parse_color("#FFFFFF").unwrap();
    assert_eq!(c, RgbColor { red: 255, green: 255, blue: 255 });
}

#[test]
fn parses_mixed_case() {
    let c = parse_color("#AbCdEf").unwrap();
    assert_eq!(c, RgbColor { red: 0xab, green: 0xcd, blue: 0xef });
}

#[test]
fn rejects_wrong_length() {
    assert_eq!(parse_color("fff"), Err(InvalidColor));
    assert_eq!(parse_color("#fffffff"), Err(InvalidColor));
    assert_eq!(parse_color(""), Err(InvalidColor));
    assert_eq!(parse_color("#"), Err(InvalidColor));
}

#[test]
fn rejects_non_hex_digits() {
    assert_eq!(parse_color("12345g"), Err(InvalidColor));
    assert_eq!(parse_color("#zzzzzz"), Err(InvalidColor));
    assert_eq!(parse_color("12 456"), Err(InvalidColor));
}

#[test]
fn hex_round_trips() {
    for s in ["000000", "ffffff", "202020", "0a1b2c", "#8fbcbb"] {
        let c = parse_color(s).unwrap();
        let h = color_to_hex(&c);
        assert_eq!(parse_color(h.as_str()).unwrap(), c);
    }
}

#[test]
fn encodes_lowercase_six_digits() {
    let c = RgbColor { red: 0xab, green: 0x00, blue: 0x1f };
    assert_eq!(color_to_hex(&c), "ab001f");
}
