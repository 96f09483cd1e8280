use pscan::cli::utils::{valid_interface, valid_target_ip};
use pscan::net::{parse_ipv4, Interface, IpAddr, Ipv4Addr};

const TARGET_ERR: &str =
    "Error parsing the target ip: invalid IPv4 address syntax. Please input a correct IPv4 address.";

#[test]
fn dotted_quads() {
    assert_eq!(parse_ipv4("192.168.0.1"), Some(Ipv4Addr::new(192, 168, 0, 1)));
    assert_eq!(parse_ipv4("0.0.0.0"), Some(Ipv4Addr(0)));
    assert_eq!(parse_ipv4("255.255.255.255"), Some(Ipv4Addr(0xffff_ffff)));
    assert_eq!(parse_ipv4("10.0.0.2"), Some(Ipv4Addr(0x0a00_0002)));
}

#[test]
fn malformed_quads() {
    for text in [
        "", "1.2.3", "1.2.3.4.5", "256.1.1.1", "01.2.3.4", "1.2.3.00", "1..2.3", ".1.2.3", "1.2.3.",
        "1.2.3.4 ", " 1.2.3.4", "1.2.3.a", "1234.1.1.1", "1.2.3.+4", "::1",
    ] {
        assert_eq!(parse_ipv4(text), None, "{:?}", text);
    }
}

#[test]
fn quads_agree_with_std() {
    for text in ["127.0.0.1", "1.2.3.04", "8.8.8.8", "300.1.1.1", "1.2.3", "0.0.0.0", "1.02.3.4", "9.9.9.9."] {
        let theirs = text.parse::<pnet::util::core_net::Ipv4Addr>().ok().map(|a| Ipv4Addr(u32::from(a)));
        assert_eq!(parse_ipv4(text), theirs, "{:?}", text);
    }
}

#[test]
fn octets_round_trip() {
    let a = Ipv4Addr::new(172, 16, 5, 9);
    assert_eq!(a.octets(), [172, 16, 5, 9]);
    assert_eq!(a.0, 0xac10_0509);
}

#[test]
fn target_ip() {
    assert_eq!(valid_target_ip("127.0.0.1"), Ok(Ipv4Addr::new(127, 0, 0, 1)));
    assert_eq!(valid_target_ip("localhost"), Err(TARGET_ERR.to_string()));
    assert_eq!(valid_target_ip("1.2.3.4.5"), Err(TARGET_ERR.to_string()));
}

fn iface(name: &str, last: u8) -> Interface {
    Interface { name: name.to_string(), mac: None, ips: vec![IpAddr::V4(Ipv4Addr::new(10, 0, 0, last))] }
}

#[test]
fn interface_found() {
    let found = valid_interface("eth0", vec![iface("lo", 1), iface("eth0", 2), iface("eth0", 3)]).unwrap();
    assert_eq!(found.name, "eth0");
    assert_eq!(found.ips, vec![IpAddr::V4(Ipv4Addr::new(10, 0, 0, 2))]);
}

#[test]
fn interface_missing() {
    let r = valid_interface("wlan0", vec![iface("lo", 1), iface("eth0", 2)]);
    assert_eq!(r.unwrap_err(), "No such interface: wlan0");
    assert_eq!(valid_interface("eth", vec![]).unwrap_err(), "No such interface: eth");
}

#[test]
fn addresses_read_back() {
    for v in [0u32, 1, 0x0a00_0002, 0x7f00_0001, 0xc0a8_0001, 0xffff_ffff, 0x0100_00ff, 0x6464_6464] {
        let a = Ipv4Addr(v);
        let shown = pnet::util::core_net::Ipv4Addr::from(v).to_string();
        assert_eq!(a.to_text(), shown);
        assert_eq!(valid_target_ip(&shown), Ok(a));
    }
}
