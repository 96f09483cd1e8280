use pscan::cli::utils::{interface_line, interface_lines};
use pscan::net::{mac_string, Interface, IpAddr, Ipv4Addr};

#[test]
fn loopback_line() {
    let lo = Interface {
        name: "lo".to_string(),
        mac: None,
        ips: vec![IpAddr::V4(Ipv4Addr::new(127, 0, 0, 1))],
    };
    assert_eq!(
        interface_line(&lo),
        "- Interface name: lo | Interface MAC: 00:00:00:00:00:00 | Interface IPs: 127.0.0.1"
    );
}

#[test]
fn several_addresses_and_ipv6() {
    let v6: u128 = 0xfe80_0000_0000_0000_021a_2bff_fe3c_4d5e;
    let eth = Interface {
        name: "eth0".to_string(),
        mac: Some([0x00, 0x1a, 0x2b, 0xff, 0x0a, 0x5e]),
        ips: vec![IpAddr::V4(Ipv4Addr::new(192, 168, 1, 5)), IpAddr::V6(v6), IpAddr::V6(1)],
    };
    assert_eq!(
        interface_line(&eth),
        "- Interface name: eth0 | Interface MAC: 00:1a:2b:ff:0a:5e | Interface IPs: 192.168.1.5, fe80::21a:2bff:fe3c:4d5e, ::1"
    );
}

#[test]
fn no_addresses() {
    let i = Interface { name: "dummy0".to_string(), mac: Some([1, 2, 3, 4, 5, 6]), ips: vec![] };
    assert_eq!(interface_line(&i), "- Interface name: dummy0 | Interface MAC: 01:02:03:04:05:06 | Interface IPs: ");
}

#[test]
fn addresses_shown_as_std_shows_them() {
    for v in [0u128, 1, 0x2001_0db8_0000_0000_0000_0000_0000_0001, u128::MAX] {
        let i = Interface { name: "x".to_string(), mac: None, ips: vec![IpAddr::V6(v)] };
        let shown = pnet::util::core_net::Ipv6Addr::from(v).to_string();
        assert!(interface_line(&i).ends_with(&format!("IPs: {}", shown)));
    }
}

#[test]
fn macs_shown_as_pnet_shows_them() {
    let m = [0xde, 0xad, 0xbe, 0xef, 0x00, 0x42];
    let theirs = format!("{:?}", pnet::util::MacAddr::new(m[0], m[1], m[2], m[3], m[4], m[5]));
    assert_eq!(mac_string(Some(m)), theirs);
    assert_eq!(mac_string(None), format!("{:?}", pnet::util::MacAddr::zero()));
}

#[test]
fn one_line_per_interface() {
    let list = vec![
        Interface { name: "a".to_string(), mac: None, ips: vec![] },
        Interface { name: "b".to_string(), mac: None, ips: vec![IpAddr::V4(Ipv4Addr(0))] },
    ];
    let lines = interface_lines(&list);
    assert_eq!(lines.len(), 2);
    assert_eq!(lines[0], interface_line(&list[0]));
    assert_eq!(lines[1], "- Interface name: b | Interface MAC: 00:00:00:00:00:00 | Interface IPs: 0.0.0.0");
}
