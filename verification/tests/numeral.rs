use fuel_debugger::numeral::{parse_decimal, parse_int};
use fuel_debugger::text::same_text;

/// The same reading with std: the radix from the prefix, the separators
/// dropped, the rest handed to `from_str_radix`.
fn by_std(s: &str) -> Option<usize> {
    let (s, radix) = if let Some(stripped) = s.strip_prefix("0x") {
        (stripped, 16)
    } else {
        (s, 10)
    };
    let s = s.replace('_', "");
    usize::from_str_radix(&s, radix).ok()
}

#[test]
fn parse_int_reads_decimal_and_hex() {
    assert_eq!(parse_int("0"), Some(0));
    assert_eq!(parse_int("42"), Some(42));
    assert_eq!(parse_int("0x10"), Some(16));
    assert_eq!(parse_int("1_000"), Some(1000));
    assert_eq!(parse_int("0xff_ff"), Some(0xffff));
    assert_eq!(parse_int("0xFF"), Some(255));
    assert_eq!(parse_int("007"), Some(7));
}

#[test]
fn parse_int_rejects_what_is_no_number() {
    assert_eq!(parse_int(""), None);
    assert_eq!(parse_int("0x"), None);
    assert_eq!(parse_int("12a"), None);
    assert_eq!(parse_int("_"), None);
    assert_eq!(parse_int("-1"), None);
    assert_eq!(parse_int("0X10"), None);
    assert_eq!(parse_int("1 2"), None);
    assert_eq!(parse_int("+"), None);
    assert_eq!(parse_int("٣"), None);
}

#[test]
fn parse_int_takes_a_leading_plus() {
    assert_eq!(parse_int("+5"), Some(5));
    assert_eq!(parse_int("0x+5"), Some(5));
    assert_eq!(parse_int("_+_5"), Some(5));
    assert_eq!(parse_int("++5"), None);
    assert_eq!(parse_int("5+"), None);
}

#[test]
fn parse_int_stops_at_the_largest_value() {
    let max = usize::MAX;
    assert_eq!(parse_int(&format!("{}", max)), Some(max));
    assert_eq!(parse_int(&format!("0x{:x}", max)), Some(max));
    assert_eq!(parse_int(&format!("{}0", max)), None);
    assert_eq!(parse_int("0x1_0000_0000_0000_0000"), None);
    assert_eq!(parse_int("18446744073709551616"), None);
    assert_eq!(parse_int("99999999999999999999999999999999"), None);
}

#[test]
fn parse_int_agrees_with_std() {
    let inputs = [
        "", "0", "1", "9", "10", "0x", "0x0", "0xg", "0xabcdef", "0xABCDEF", "1__2", "_1_", "0x_1",
        "0_x1", "+1", "-1", "+", "+_", "0x+", "0x-1", "1.5", " 1", "1 ", "१", "0b11", "z",
        "18446744073709551615", "18446744073709551616", "0xffffffffffffffff", "0x10000000000000000",
        "000000000000000000000000001", "0x00000000000000000000000001", "1e3", "0x1e3", "x10",
    ];
    for input in inputs {
        assert_eq!(parse_int(input), by_std(input), "input {:?}", input);
    }
}

#[test]
fn parse_decimal_agrees_with_std() {
    let inputs = [
        "", "0", "12", "+12", "-12", "1_2", "0x12", "18446744073709551615", "18446744073709551616",
        "00012", " 12", "12 ", "a", "+", "++1",
    ];
    for input in inputs {
        assert_eq!(parse_decimal(input), input.parse::<u64>().ok(), "input {:?}", input);
    }
}

#[test]
fn same_text_compares_characters() {
    assert!(same_text("", ""));
    assert!(same_text("off", "off"));
    assert!(!same_text("off", "of"));
    assert!(!same_text("off", "ofF"));
    assert!(same_text("ärger", "ärger"));
    assert!(!same_text("a", ""));
}
