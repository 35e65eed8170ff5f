use tedge_write::errors::WriteError;
use tedge_write::modes::parse_mode;

#[test]
fn parses_common_modes() {
    assert_eq!(parse_mode("640").unwrap(), 0o640);
    assert_eq!(parse_mode("0755").unwrap(), 0o755);
    assert_eq!(parse_mode("600").unwrap(), 0o600);
    assert_eq!(parse_mode("0").unwrap(), 0);
}

#[test]
fn parses_leading_plus_and_zeros() {
    assert_eq!(parse_mode("+7").unwrap(), 7);
    assert_eq!(parse_mode("000000000000755").unwrap(), 0o755);
}

#[test]
fn rejects_empty_and_sign_only() {
    assert_eq!(parse_mode("").unwrap_err(), WriteError::InvalidMode);
    assert_eq!(parse_mode("+").unwrap_err(), WriteError::InvalidMode);
}

#[test]
fn rejects_non_octal() {
    assert_eq!(parse_mode("8").unwrap_err(), WriteError::InvalidMode);
    assert_eq!(parse_mode("abc").unwrap_err(), WriteError::InvalidMode);
    assert_eq!(parse_mode("64o").unwrap_err(), WriteError::InvalidMode);
    assert_eq!(parse_mode("-640").unwrap_err(), WriteError::InvalidMode);
    assert_eq!(parse_mode(" 640").unwrap_err(), WriteError::InvalidMode);
}

#[test]
fn rejects_overflow() {
    // 13 octal digits exceed 32 bits
    assert_eq!(parse_mode("7777777777777").unwrap_err(), WriteError::InvalidMode);
}

#[test]
fn largest_value_fits() {
    // 037777777777 is u32::MAX
    assert_eq!(parse_mode("37777777777").unwrap(), u32::MAX);
    assert_eq!(parse_mode("40000000000").unwrap_err(), WriteError::InvalidMode);
}

#[test]
fn agrees_with_octal_radix_parse() {
    for s in ["640", "0755", "+7", "", "8", "abc", "37777777777", "40000000000", "-0"] {
        let expected = u32::from_str_radix(s, 8).ok();
        assert_eq!(parse_mode(s).ok(), expected, "mode string {s:?}");
    }
}
