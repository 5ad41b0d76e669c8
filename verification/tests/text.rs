use swift_gen::config::RendererConfig;
use swift_gen::text::{push_decimal, rounded_quotient};

fn decimal_of(n: u128) -> String {
    let mut out = String::new();
    push_decimal(&mut out, n);
    out
}

#[test]
fn decimal_notation_of_small_and_large_numbers() {
    assert_eq!(decimal_of(0), "0");
    assert_eq!(decimal_of(7), "7");
    assert_eq!(decimal_of(10), "10");
    assert_eq!(decimal_of(1234567890), "1234567890");
    assert_eq!(decimal_of(u128::MAX), "340282366920938463463374607431768211455");
}

#[test]
fn decimal_notation_is_appended() {
    let mut out = String::from("ColorSets[");
    push_decimal(&mut out, 42);
    assert_eq!(out, "ColorSets[42");
}

#[test]
fn quotient_rounds_to_nearest_and_ties_to_even() {
    assert_eq!(rounded_quotient(0, 255), 0);
    assert_eq!(rounded_quotient(128000, 255), 502);
    assert_eq!(rounded_quotient(1000, 255), 4);
    assert_eq!(rounded_quotient(5, 2), 2);
    assert_eq!(rounded_quotient(7, 2), 4);
    assert_eq!(rounded_quotient(9, 4), 2);
    assert_eq!(rounded_quotient(11, 4), 3);
    assert_eq!(rounded_quotient(u64::MAX, 1), u64::MAX);
    assert_eq!(rounded_quotient(u64::MAX, 2), 1u64 << 63);
    assert_eq!(rounded_quotient(u64::MAX, u64::MAX), 1);
}

#[test]
fn indent_is_tab_size_spaces_per_level() {
    let config = RendererConfig { tab_size: 2 };
    assert_eq!(config.indent(0), "");
    assert_eq!(config.indent(1), "  ");
    assert_eq!(config.indent(3), "      ");
    assert_eq!(RendererConfig { tab_size: 4 }.indent(2), "        ");
    assert_eq!(RendererConfig { tab_size: 0 }.indent(5), "");
}
