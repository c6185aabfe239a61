use lan_scan::dec::{dec_string_i32, dec_string_u32};
use lan_scan::subnet::{build_interface, calculate_network_address, format_ipv4, parse_ipv4};

#[test]
fn network_address_of_typical_lan() {
    assert_eq!(calculate_network_address("192.168.1.37", 24), Some("192.168.1.0".to_string()));
}

#[test]
fn network_address_full_prefix() {
    assert_eq!(calculate_network_address("10.0.0.1", 32), Some("10.0.0.1".to_string()));
}

#[test]
fn network_address_rejects_bad_ip() {
    assert_eq!(calculate_network_address("not-an-ip", 24), None);
}

#[test]
fn network_address_zero_prefix() {
    assert_eq!(calculate_network_address("10.1.2.3", 0), Some("0.0.0.0".to_string()));
}

#[test]
fn network_address_mid_octet_prefix() {
    assert_eq!(calculate_network_address("192.168.1.37", 28), Some("192.168.1.32".to_string()));
}

#[test]
fn parse_ipv4_accepts_dotted_quad() {
    assert_eq!(parse_ipv4("10.0.0.5"), Some((10, 0, 0, 5)));
    assert_eq!(parse_ipv4("255.255.255.255"), Some((255, 255, 255, 255)));
    assert_eq!(parse_ipv4("0.0.0.0"), Some((0, 0, 0, 0)));
}

#[test]
fn parse_ipv4_rejects_malformed() {
    assert_eq!(parse_ipv4("10.0.0.256"), None);
    assert_eq!(parse_ipv4("10.0.0"), None);
    assert_eq!(parse_ipv4("1.2.3.4.5"), None);
    assert_eq!(parse_ipv4("01.2.3.4"), None);
    assert_eq!(parse_ipv4("1..2.3"), None);
    assert_eq!(parse_ipv4(""), None);
    assert_eq!(parse_ipv4("1.2.3.4 "), None);
    assert_eq!(parse_ipv4("a.b.c.d"), None);
}

#[test]
fn format_ipv4_prints_octets() {
    assert_eq!(format_ipv4(255, 0, 10, 1), "255.0.10.1".to_string());
}

#[test]
fn decimal_strings() {
    assert_eq!(dec_string_u32(0), "0".to_string());
    assert_eq!(dec_string_u32(4294967295), "4294967295".to_string());
    assert_eq!(dec_string_i32(-1), "-1".to_string());
    assert_eq!(dec_string_i32(-2147483648), "-2147483648".to_string());
    assert_eq!(dec_string_i32(137), "137".to_string());
}

#[test]
fn interface_record_holds_network_address() {
    let r = build_interface(
        "eth0".to_string(),
        "192.168.0.5".to_string(),
        "255.255.255.0".to_string(),
        24,
    );
    assert_eq!(r.name, "eth0");
    assert_eq!(r.ip_address, "192.168.0.5");
    assert_eq!(r.netmask, "255.255.255.0");
    assert_eq!(r.cidr, "24");
    assert_eq!(r.network_address, "192.168.0.0");
}

#[test]
fn interface_record_blank_on_bad_ip() {
    let r = build_interface("lo".to_string(), "bogus".to_string(), "".to_string(), 8);
    assert_eq!(r.network_address, "");
    assert_eq!(r.cidr, "8");
}
