use ddns_bridge::ipv4::parse_ipv4;

#[test]
fn parses_dotted_quads() {
    assert_eq!(parse_ipv4("93.184.216.34"), Some((93, 184, 216, 34)));
    assert_eq!(parse_ipv4("0.0.0.0"), Some((0, 0, 0, 0)));
    assert_eq!(parse_ipv4("255.255.255.255"), Some((255, 255, 255, 255)));
    assert_eq!(parse_ipv4("1.2.3.4"), Some((1, 2, 3, 4)));
    assert_eq!(parse_ipv4("10.0.200.9"), Some((10, 0, 200, 9)));
}

#[test]
fn rejects_empty_and_truncated_text() {
    assert_eq!(parse_ipv4(""), None);
    assert_eq!(parse_ipv4("1"), None);
    assert_eq!(parse_ipv4("1.2.3"), None);
    assert_eq!(parse_ipv4("1.2.3."), None);
    assert_eq!(parse_ipv4(".1.2.3.4"), None);
}

#[test]
fn rejects_extra_text() {
    assert_eq!(parse_ipv4("1.2.3.4.5"), None);
    assert_eq!(parse_ipv4("1.2.3.4 "), None);
    assert_eq!(parse_ipv4("1.2.3.4x"), None);
    assert_eq!(parse_ipv4("1234.2.3.4"), None);
}

#[test]
fn rejects_out_of_range_octets() {
    assert_eq!(parse_ipv4("256.1.1.1"), None);
    assert_eq!(parse_ipv4("1.1.1.999"), None);
}

#[test]
fn rejects_leading_zeros() {
    assert_eq!(parse_ipv4("01.2.3.4"), None);
    assert_eq!(parse_ipv4("1.2.3.007"), None);
    assert_eq!(parse_ipv4("00.0.0.0"), None);
}

#[test]
fn rejects_non_digits() {
    assert_eq!(parse_ipv4("a.b.c.d"), None);
    assert_eq!(parse_ipv4("1..2.3"), None);
    assert_eq!(parse_ipv4("localhost"), None);
}
