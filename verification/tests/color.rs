use flake_8::color::parse_hex_color;

#[test]
fn parses_six_digit_colors() {
    assert_eq!(parse_hex_color(b"#FF0000"), Some((0xFF, 0x00, 0x00)));
    assert_eq!(parse_hex_color(b"#00FF00"), Some((0x00, 0xFF, 0x00)));
    assert_eq!(parse_hex_color(b"#123ABC"), Some((0x12, 0x3A, 0xBC)));
    assert_eq!(parse_hex_color(b"#abcdef"), Some((0xAB, 0xCD, 0xEF)));
}

#[test]
fn parses_short_values() {
    // Shorter strings are the low bits of the value.
    assert_eq!(parse_hex_color(b"#F00"), Some((0x00, 0x0F, 0x00)));
    assert_eq!(parse_hex_color(b"#1"), Some((0x00, 0x00, 0x01)));
}

#[test]
fn parses_eight_digit_values_by_their_low_bits() {
    assert_eq!(parse_hex_color(b"#FF123456"), Some((0x12, 0x34, 0x56)));
    assert_eq!(parse_hex_color(b"#00000001"), Some((0x00, 0x00, 0x01)));
}

#[test]
fn leading_zeros_are_fine_beyond_eight_digits() {
    assert_eq!(parse_hex_color(b"#000000000A"), Some((0x00, 0x00, 0x0A)));
}

#[test]
fn rejects_missing_prefix() {
    assert_eq!(parse_hex_color(b"FF0000"), None);
    assert_eq!(parse_hex_color(b""), None);
    assert_eq!(parse_hex_color(b"#"), None);
}

#[test]
fn rejects_non_hex_digits() {
    assert_eq!(parse_hex_color(b"#FF00GG"), None);
    assert_eq!(parse_hex_color(b"# F0000"), None);
}

#[test]
fn rejects_values_beyond_32_bits() {
    assert_eq!(parse_hex_color(b"#100000000"), None);
    assert_eq!(parse_hex_color(b"#FFFFFFFFF"), None);
}
