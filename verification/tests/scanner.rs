use pscan::cli::utils::IntOrRange;
use pscan::cli::{init, Cli, Command, ScannerArgs};
use pscan::net::{Interface, IpAddr, Ipv4Addr};
use pscan::scanner::{open_port_report, Probe, Scanner};

fn eth0() -> Interface {
    Interface {
        name: "eth0".to_string(),
        mac: Some([0, 0x1a, 0x2b, 0x3c, 0x4d, 0x5e]),
        ips: vec![IpAddr::V4(Ipv4Addr::new(192, 168, 1, 5)), IpAddr::V6(1)],
    }
}

fn args(port: IntOrRange, decoy: Option<Vec<&str>>) -> ScannerArgs {
    ScannerArgs {
        target: Ipv4Addr::new(192, 168, 1, 1),
        port,
        interface: eth0(),
        decoy: decoy.map(|d| d.into_iter().map(|s| s.to_string()).collect()),
    }
}

#[test]
fn single_port_plan() {
    let s = Scanner::new(args(IntOrRange::Int(22), None));
    assert_eq!(s.ports, vec![22]);
    assert_eq!(s.target, Ipv4Addr::new(192, 168, 1, 1));
    assert_eq!(s.source_ips, vec![Ipv4Addr::new(192, 168, 1, 5)]);
}

#[test]
fn range_includes_its_end() {
    let s = Scanner::new(args(IntOrRange::Range(20, 25), None));
    assert_eq!(s.ports, vec![20, 21, 22, 23, 24, 25]);
    let s = Scanner::new(args(IntOrRange::Range(65534, 65535), None));
    assert_eq!(s.ports, vec![65534, 65535]);
    let s = Scanner::new(args(IntOrRange::Range(1, 65535), None));
    assert_eq!(s.ports.len(), 65535);
    assert_eq!(s.ports[65534], 65535);
}

#[test]
fn decoys_then_real_source() {
    let s = Scanner::new(args(IntOrRange::Int(80), Some(vec!["10.0.0.7", "10.0.0.8"])));
    assert_eq!(
        s.source_ips,
        vec![Ipv4Addr::new(10, 0, 0, 7), Ipv4Addr::new(10, 0, 0, 8), Ipv4Addr::new(192, 168, 1, 5)]
    );
}

#[test]
fn real_source_not_repeated() {
    let s = Scanner::new(args(IntOrRange::Int(80), Some(vec!["192.168.1.5", "10.0.0.8"])));
    assert_eq!(s.source_ips, vec![Ipv4Addr::new(192, 168, 1, 5), Ipv4Addr::new(10, 0, 0, 8)]);
    let s = Scanner::new(args(IntOrRange::Int(80), Some(vec![])));
    assert_eq!(s.source_ips, vec![Ipv4Addr::new(192, 168, 1, 5)]);
}

#[test]
fn probes_port_by_port_each_source() {
    let s = Scanner::new(args(IntOrRange::Range(1, 2), Some(vec!["10.0.0.7"])));
    let t = Ipv4Addr::new(192, 168, 1, 1);
    let d = Ipv4Addr::new(10, 0, 0, 7);
    let r = Ipv4Addr::new(192, 168, 1, 5);
    assert_eq!(
        s.probes(),
        vec![
            Probe { target: t, source: d, port: 1 },
            Probe { target: t, source: r, port: 1 },
            Probe { target: t, source: d, port: 2 },
            Probe { target: t, source: r, port: 2 },
        ]
    );
}

#[test]
fn init_lists_interfaces() {
    let c = Cli { scanner_args: None, interfaces: true };
    assert!(matches!(init(c), Command::ListInterfaces));
}

#[test]
fn init_plans_scan() {
    let c = Cli { scanner_args: Some(args(IntOrRange::Range(5, 6), None)), interfaces: false };
    match init(c) {
        Command::Scan(s) => {
            assert_eq!(s.ports, vec![5, 6]);
            assert_eq!(s.source_ips, vec![Ipv4Addr::new(192, 168, 1, 5)]);
        },
        Command::ListInterfaces => panic!("expected a scan"),
    }
}

#[test]
fn accepted_selections_give_nonzero_ports() {
    for text in ["1", "80", "1-3", "65535-65535", "+9"] {
        let p = IntOrRange::from_str(text).unwrap();
        let s = Scanner::new(args(p, None));
        assert!(!s.ports.is_empty(), "{}", text);
        assert!(s.ports.iter().all(|&q| q != 0), "{}", text);
    }
}

#[test]
fn reports_only_open_ports() {
    let ip = Ipv4Addr::new(192, 168, 1, 1);
    assert_eq!(open_port_report((true, ip, 80)), Some("Open port: 192.168.1.1:80".to_string()));
    assert_eq!(open_port_report((true, Ipv4Addr(0), 65535)), Some("Open port: 0.0.0.0:65535".to_string()));
    assert_eq!(open_port_report((false, ip, 80)), None);
}
