use grid_game::addr::{dest_2, dest_2_v6, key_2, key_2_v6, parse_octet, parse_octets, Day2Params};

fn params(from: &str, key: Option<&str>, to: Option<&str>) -> Day2Params {
    Day2Params {
        from: from.to_string(),
        key: key.map(|s| s.to_string()),
        to: to.map(|s| s.to_string()),
    }
}

#[test]
fn parse_octet_accepts_plain_and_signed_decimals() {
    assert_eq!(parse_octet(&"0".chars().collect()), Some(0));
    assert_eq!(parse_octet(&"255".chars().collect()), Some(255));
    assert_eq!(parse_octet(&"+17".chars().collect()), Some(17));
    assert_eq!(parse_octet(&"007".chars().collect()), Some(7));
}

#[test]
fn parse_octet_rejects_malformed_input() {
    assert_eq!(parse_octet(&"".chars().collect()), None);
    assert_eq!(parse_octet(&"+".chars().collect()), None);
    assert_eq!(parse_octet(&"256".chars().collect()), None);
    assert_eq!(parse_octet(&"1a".chars().collect()), None);
    assert_eq!(parse_octet(&"-1".chars().collect()), None);
    assert_eq!(parse_octet(&"1 ".chars().collect()), None);
    assert_eq!(parse_octet(&"99999999999999999999".chars().collect()), None);
}

#[test]
fn parse_octets_splits_on_dots() {
    assert_eq!(parse_octets("10.0.0.1"), Some(vec![10, 0, 0, 1]));
    assert_eq!(parse_octets("7"), Some(vec![7]));
    assert_eq!(parse_octets(""), None);
    assert_eq!(parse_octets("1..2"), None);
    assert_eq!(parse_octets("1.2."), None);
    assert_eq!(parse_octets(".1.2"), None);
    assert_eq!(parse_octets("1.256.2"), None);
}

#[test]
fn dest_adds_octets_with_wraparound() {
    let r = dest_2(&params("10.0.0.0", Some("1.2.3.255"), None));
    assert_eq!(r, Some("11.2.3.255".to_string()));
    let wrap = dest_2(&params("255.255.255.255", Some("1.2.3.4"), None));
    assert_eq!(wrap, Some("0.1.2.3".to_string()));
}

#[test]
fn dest_requires_a_key_of_sufficient_length() {
    assert_eq!(dest_2(&params("1.2.3.4", None, None)), None);
    assert_eq!(dest_2(&params("1.2.3.4", Some("1.2.3"), None)), None);
    // A longer key is fine: its extra octets are ignored.
    assert_eq!(dest_2(&params("1.2", Some("3.4.5"), None)), Some("4.6".to_string()));
    assert_eq!(dest_2(&params("1.x.3.4", Some("0.0.0.0"), None)), None);
    assert_eq!(dest_2(&params("1.2.3.4", Some("0.300.0.0"), None)), None);
}

#[test]
fn key_recovers_the_difference_with_wraparound() {
    let r = key_2(&params("10.0.0.0", None, Some("11.2.3.255")));
    assert_eq!(r, Some("1.2.3.255".to_string()));
    let wrap = key_2(&params("255.255.255.255", None, Some("0.1.2.3")));
    assert_eq!(wrap, Some("1.2.3.4".to_string()));
    assert_eq!(key_2(&params("1.2.3.4", None, None)), None);
    assert_eq!(key_2(&params("1.2.3.4", None, Some("1.2"))), None);
}

#[test]
fn key_then_dest_round_trips() {
    let from = "192.168.1.44";
    let to = "10.23.200.3";
    let key = key_2(&params(from, None, Some(to))).unwrap();
    let dest = dest_2(&params(from, Some(key.as_str()), None)).unwrap();
    assert_eq!(dest, to);
}

#[test]
fn renders_parsed_octets_canonically() {
    // Leading zeros and plus signs vanish in the rendering.
    let r = dest_2(&params("+5.007", Some("0.0"), None));
    assert_eq!(r, Some("5.7".to_string()));
}

#[test]
fn v6_xor_combines_and_round_trips() {
    assert_eq!(dest_2_v6(5, 3), 6);
    assert_eq!(key_2_v6(5, 6), 3);
    let from: u128 = 0xfe80_0000_0000_0000_0000_0000_0000_0001;
    let key: u128 = 0x0123_4567_89ab_cdef_0123_4567_89ab_cdef;
    let to = dest_2_v6(from, key);
    assert_eq!(key_2_v6(from, to), key);
    assert_eq!(dest_2_v6(from, 0), from);
}
