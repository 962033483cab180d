use twodo_backend::text::{json_escape, money_text_of, u64_text};

#[test]
fn decimal_rendering() {
    assert_eq!(u64_text(0), "0");
    assert_eq!(u64_text(7), "7");
    assert_eq!(u64_text(10), "10");
    assert_eq!(u64_text(90210), "90210");
    assert_eq!(u64_text(u64::MAX), "18446744073709551615");
}

#[test]
fn money_rendering() {
    assert_eq!(money_text_of(1_000), "10.00");
    assert_eq!(money_text_of(5), "0.05");
    assert_eq!(money_text_of(12_345), "123.45");
    assert_eq!(money_text_of(0), "0.00");
    assert_eq!(money_text_of(99), "0.99");
}

#[test]
fn json_escaping() {
    assert_eq!(json_escape("plain"), "plain");
    assert_eq!(json_escape("say \"hi\""), "say \\\"hi\\\"");
    assert_eq!(json_escape("back\\slash"), "back\\\\slash");
    assert_eq!(json_escape("line\nbreak"), "line\\u000abreak");
    assert_eq!(json_escape("tab\there"), "tab\\u0009here");
}
