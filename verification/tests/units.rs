use bcachefs_top::units::{multiplier, UnitParser};

#[test]
fn parse_fraction_with_unit() {
    assert_eq!(UnitParser::parse("12.5 MiB"), Some(13107200));
}

#[test]
fn parse_plain_integer() {
    assert_eq!(UnitParser::parse("1024"), Some(1024));
}

#[test]
fn parse_without_digits_is_none() {
    assert_eq!(UnitParser::parse("not a number"), None);
    assert_eq!(UnitParser::parse(""), None);
    assert_eq!(UnitParser::parse("MiB"), None);
    assert_eq!(UnitParser::parse(" . "), None);
}

#[test]
fn parse_since_mount_lines() {
    assert_eq!(UnitParser::parse("1.00 MiB since mount"), Some(1048576));
    assert_eq!(UnitParser::parse("512 KiB since mount"), Some(524288));
    assert_eq!(UnitParser::parse("since mount:                     3.2 GiB"), Some(3435973836));
}

#[test]
fn parse_every_unit() {
    assert_eq!(UnitParser::parse("1 KiB"), Some(1u128 << 10));
    assert_eq!(UnitParser::parse("1 MiB"), Some(1u128 << 20));
    assert_eq!(UnitParser::parse("1 GiB"), Some(1u128 << 30));
    assert_eq!(UnitParser::parse("1 TiB"), Some(1u128 << 40));
    assert_eq!(UnitParser::parse("1 PiB"), Some(1u128 << 50));
    assert_eq!(UnitParser::parse("1 EiB"), Some(1u128 << 60));
    assert_eq!(UnitParser::parse("1 ZiB"), Some(1u128 << 70));
    assert_eq!(UnitParser::parse("1 YiB"), Some(1208925819614629174706176));
}

#[test]
fn multiplier_is_power_of_1024() {
    assert_eq!(multiplier(0), 1);
    assert_eq!(multiplier(1), 1024);
    assert_eq!(multiplier(2), 1048576);
    assert_eq!(multiplier(8), 1u128 << 80);
}

#[test]
fn parse_rounds_down_with_unit() {
    assert_eq!(UnitParser::parse("1.5 KiB"), Some(1536));
    assert_eq!(UnitParser::parse("0.001 KiB"), Some(1));
    assert_eq!(UnitParser::parse("0.0009 KiB"), Some(0));
    assert_eq!(UnitParser::parse("0.0009765625 KiB"), Some(1));
    assert_eq!(UnitParser::parse("1.75 EiB"), Some(2017612633061982208));
    assert_eq!(UnitParser::parse("0.9999 KiB"), Some(1023));
}

#[test]
fn parse_long_fraction_is_exact() {
    assert_eq!(
        UnitParser::parse("0.33333333333333333333333333333333333333333333333333 KiB"),
        Some(341)
    );
    assert_eq!(
        UnitParser::parse("0.00000000000000000000000000000000000000000000000001 YiB"),
        Some(0)
    );
    assert_eq!(
        UnitParser::parse("2.50000000000000000000000000000000000000000000000000 MiB"),
        Some(2621440)
    );
}

#[test]
fn parse_rounds_to_nearest_without_unit() {
    assert_eq!(UnitParser::parse("0.5"), Some(1));
    assert_eq!(UnitParser::parse("0.4"), Some(0));
    assert_eq!(UnitParser::parse("0.49999"), Some(0));
    assert_eq!(UnitParser::parse("2.5"), Some(3));
    assert_eq!(UnitParser::parse("7"), Some(7));
    assert_eq!(UnitParser::parse("7.0"), Some(7));
}

#[test]
fn parse_takes_first_number() {
    assert_eq!(UnitParser::parse("abc 42 def 7"), Some(42));
    assert_eq!(UnitParser::parse("-3"), Some(3));
    assert_eq!(UnitParser::parse("12."), Some(12));
    assert_eq!(UnitParser::parse(".5"), Some(5));
    assert_eq!(UnitParser::parse("1.2.3 KiB"), Some(1));
}

#[test]
fn parse_unit_forms() {
    assert_eq!(UnitParser::parse("5KiB"), Some(5120));
    assert_eq!(UnitParser::parse("5  \tMiB"), Some(5242880));
    assert_eq!(UnitParser::parse("5 kib"), Some(5));
    assert_eq!(UnitParser::parse("5 Ki"), Some(5));
    assert_eq!(UnitParser::parse("5 KB"), Some(5));
    assert_eq!(UnitParser::parse("5\nKiB"), Some(5));
    assert_eq!(UnitParser::parse("5 XiB"), Some(5));
}

#[test]
fn parse_saturates() {
    assert_eq!(
        UnitParser::parse("340282366920938463463374607431768211455"),
        Some(u128::MAX)
    );
    assert_eq!(
        UnitParser::parse("340282366920938463463374607431768211454"),
        Some(u128::MAX - 1)
    );
    assert_eq!(
        UnitParser::parse("340282366920938463463374607431768211456"),
        Some(u128::MAX)
    );
    assert_eq!(
        UnitParser::parse("999999999999999999999999999999999999999999"),
        Some(u128::MAX)
    );
    assert_eq!(UnitParser::parse("300000000000000 YiB"), Some(u128::MAX));
    assert_eq!(
        UnitParser::parse("340282366920938463463374607431768211455.5"),
        Some(u128::MAX)
    );
    assert_eq!(UnitParser::parse("281474976710655 YiB"), Some(281474976710655u128 << 80));
    assert_eq!(UnitParser::parse("281474976710655.999999 YiB"), Some(340282366920938463462165681612153582281));
}

#[test]
fn parse_bytes_reads_what_is_not_text() {
    assert_eq!(UnitParser::parse_bytes(&[0xff, 0xfe, b'8', b' ', b'K', b'i', b'B']), Some(8192));
    assert_eq!(UnitParser::parse_bytes(&[0xff, 0xfe]), None);
}

#[test]
fn parse_beyond_ascii() {
    assert_eq!(UnitParser::parse("größe 3 KiB"), Some(3072));
}
