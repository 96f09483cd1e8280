use pnet::packet::ipv4::Ipv4Packet;
use pnet::packet::tcp::TcpPacket;
use pnet::packet::Packet;
use pscan::net::Ipv4Addr;
use pscan::scanner::receiver::handle_packet;

fn reply(from: [u8; 4], protocol: u8, flags: u8, src_port: u16) -> Vec<u8> {
    let mut b = vec![0u8; 40];
    b[0] = 0x45;
    b[2] = 0;
    b[3] = 40;
    b[8] = 64;
    b[9] = protocol;
    b[12..16].copy_from_slice(&from);
    b[16..20].copy_from_slice(&[10, 0, 0, 1]);
    b[20..22].copy_from_slice(&src_port.to_be_bytes());
    b[22..24].copy_from_slice(&4242u16.to_be_bytes());
    b[32] = 0x50;
    b[33] = flags;
    b
}

fn target() -> Ipv4Addr {
    Ipv4Addr::new(10, 0, 0, 2)
}

#[test]
fn syn_ack_from_target_is_open() {
    assert_eq!(handle_packet(&reply([10, 0, 0, 2], 6, 0x12, 80), target()), (true, 80));
}

#[test]
fn reset_from_target_is_closed() {
    assert_eq!(handle_packet(&reply([10, 0, 0, 2], 6, 0x14, 81), target()), (false, 81));
    // SYN+ACK with another flag set is not an acceptance either
    assert_eq!(handle_packet(&reply([10, 0, 0, 2], 6, 0x1a, 82), target()), (false, 82));
}

#[test]
fn other_hosts_ignored() {
    assert_eq!(handle_packet(&reply([10, 0, 0, 3], 6, 0x12, 80), target()), (false, 0));
}

#[test]
fn non_tcp_ignored() {
    assert_eq!(handle_packet(&reply([10, 0, 0, 2], 17, 0x12, 80), target()), (false, 0));
}

#[test]
fn short_segments_ignored() {
    let mut b = reply([10, 0, 0, 2], 6, 0x12, 80);
    b[3] = 39; // total length leaves 19 bytes of TCP
    assert_eq!(handle_packet(&b, target()), (false, 0));
    let b = reply([10, 0, 0, 2], 6, 0x12, 80);
    assert_eq!(handle_packet(&b[..39], target()), (false, 0));
    assert_eq!(handle_packet(&b[..20], target()), (false, 0));
}

#[test]
fn options_shift_the_segment() {
    // header length 6 words: four bytes of options before the TCP header
    let mut b = vec![0u8; 44];
    b[0] = 0x46;
    b[3] = 44;
    b[9] = 6;
    b[12..16].copy_from_slice(&[10, 0, 0, 2]);
    b[24..26].copy_from_slice(&443u16.to_be_bytes());
    b[37] = 0x12;
    assert_eq!(handle_packet(&b, target()), (true, 443));
}

#[test]
fn agrees_with_pnet_reading() {
    let mut b = reply([10, 0, 0, 2], 6, 0x12, 8080);
    b[0] = 0x47;
    b[3] = 60;
    b.resize(60, 0);
    let p = Ipv4Packet::new(&b).unwrap();
    let tcp = TcpPacket::new(p.payload());
    let expected = match tcp {
        Some(t) => (t.get_flags() == 0x12, t.get_source()),
        None => (false, 0),
    };
    assert_eq!(handle_packet(&b, target()), expected);
}
