use waterfurnace_symphony::text::{parse_u8, starts_with, str_eq, strip_prefix, u8_to_decimal};

#[test]
fn decimal_notation_of_bytes() {
    assert_eq!(u8_to_decimal(0), "0");
    assert_eq!(u8_to_decimal(7), "7");
    assert_eq!(u8_to_decimal(42), "42");
    assert_eq!(u8_to_decimal(100), "100");
    assert_eq!(u8_to_decimal(255), "255");
    for n in 0..=255u8 {
        assert_eq!(u8_to_decimal(n), format!("{}", n));
    }
}

#[test]
fn parse_u8_agrees_with_std() {
    let cases = ["0", "1", "12", "255", "256", "007", "+5", "+", "", "-1", "1a", " 1", "99999", "+0", "00000000000000000042"];
    for c in cases.iter() {
        assert_eq!(parse_u8(c), c.parse::<u8>().ok(), "input {:?}", c);
    }
}

#[test]
fn prefixes_and_equality() {
    assert!(starts_with("/account/login?x", "/account/login"));
    assert!(!starts_with("/account", "/account/login"));
    assert_eq!(strip_prefix("z12", "z"), Some("12"));
    assert_eq!(strip_prefix("y12", "z"), None);
    assert!(str_eq("sessionid", "sessionid"));
    assert!(!str_eq("sessionid", "sessionId"));
}
