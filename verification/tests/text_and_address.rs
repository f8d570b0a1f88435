use sharklet::address::{parse_address, Address};
use sharklet::text::{format_u64, parse_u32, parse_u32_or, parse_u64, parse_u64_or, push_u64, str_equal};
use std::str::FromStr;

#[test]
fn format_u64_matches_display() {
    for n in [0u64, 7, 10, 99, 100, 12345, 1_000_000, u64::MAX] {
        assert_eq!(format_u64(n), n.to_string());
    }
}

#[test]
fn push_u64_appends() {
    let mut s = String::from("blocks ");
    push_u64(&mut s, 42);
    assert_eq!(s, "blocks 42");
}

#[test]
fn parse_u64_follows_from_str() {
    let cases = [
        "", "+", "-", "-1", "0", "+0", "42", "+42", "007", "12a", " 1", "1 ",
        "18446744073709551615", "18446744073709551616", "99999999999999999999999",
    ];
    for c in cases {
        assert_eq!(parse_u64(c), c.parse::<u64>().ok(), "input {:?}", c);
    }
    assert_eq!(parse_u64("+42"), Some(42));
    assert_eq!(parse_u64("18446744073709551615"), Some(u64::MAX));
    assert_eq!(parse_u64("18446744073709551616"), None);
}

#[test]
fn parse_u32_follows_from_str() {
    for c in ["4294967295", "4294967296", "3", "+3", "x"] {
        assert_eq!(parse_u32(c), c.parse::<u32>().ok(), "input {:?}", c);
    }
}

#[test]
fn integer_settings_fall_back_to_default() {
    assert_eq!(parse_u64_or(None, 80002), 80002);
    assert_eq!(parse_u64_or(Some("137"), 80002), 137);
    assert_eq!(parse_u64_or(Some("polygon"), 80002), 80002);
    assert_eq!(parse_u32_or(Some("5"), 3), 5);
    assert_eq!(parse_u32_or(Some("-5"), 3), 3);
    assert_eq!(parse_u32_or(None, 3), 3);
}

#[test]
fn str_equal_compares_characters() {
    assert!(str_equal("quickswap", "quickswap"));
    assert!(!str_equal("quickswap", "sushiswap"));
    assert!(!str_equal("quick", "quickswap"));
    assert!(str_equal("", ""));
}

fn bytes_of(s: &str) -> [u8; 20] {
    ethers::types::Address::from_str(s).unwrap().0
}

#[test]
fn parse_address_reads_hex() {
    let a = parse_address("0xAB594600376Ec9fD91F8e885dADF0CE036862dE0").unwrap();
    assert_eq!(a.bytes[0], 0xab);
    assert_eq!(a.bytes[19], 0xe0);
    let b = parse_address("ab594600376ec9fd91f8e885dadf0ce036862de0").unwrap();
    assert_eq!(a.bytes, b.bytes);
}

#[test]
fn parse_address_agrees_with_client() {
    let cases = [
        "0xAB594600376Ec9fD91F8e885dADF0CE036862dE0",
        "AB594600376Ec9fD91F8e885dADF0CE036862dE0",
        "0x AB59 4600 376E c9fD 91F8 e885 dADF 0CE0 3686 2dE0",
        "0xAB594600376Ec9fD91F8e885dADF0CE036862dE0\n",
        "0XAB594600376Ec9fD91F8e885dADF0CE036862dE0",
        " 0xAB594600376Ec9fD91F8e885dADF0CE036862dE0",
        "0xAB594600376Ec9fD91F8e885dADF0CE036862dE",
        "0xAB594600376Ec9fD91F8e885dADF0CE036862dE00",
        "0xAB594600376Ec9fD91F8e885dADF0CE036862dEg",
        "0x0x594600376Ec9fD91F8e885dADF0CE036862dE0",
        "",
        "0x",
    ];
    for c in cases {
        let ours = parse_address(c).map(|a| a.bytes);
        let theirs = ethers::types::Address::from_str(c).ok().map(|a| a.0);
        assert_eq!(ours, theirs, "input {:?}", c);
    }
}

#[test]
fn zero_address() {
    assert!(Address::zero().is_zero());
    let a = Address { bytes: bytes_of("0x0000000000000000000000000000000000000001") };
    assert!(!a.is_zero());
    assert!(a.same_as(&a));
    assert!(!a.same_as(&Address::zero()));
}

#[test]
fn format_then_parse_roundtrip() {
    for n in [0u64, 1, 9, 10, 4_294_967_296, u64::MAX - 1, u64::MAX] {
        assert_eq!(parse_u64(&format_u64(n)), Some(n));
    }
}
