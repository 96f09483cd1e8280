use pnet::packet::ipv4::Ipv4Packet;
use pnet::packet::tcp::TcpPacket;
use pscan::net::Ipv4Addr;
use pscan::scanner::packet::{create_packet, set_u16_be, set_u32_be, write_syn_fields, write_syn_probe, PROBE_LEN};
use pscan::scanner::receiver::handle_packet;

fn target() -> Ipv4Addr {
    Ipv4Addr::new(10, 0, 0, 2)
}

fn source() -> Ipv4Addr {
    Ipv4Addr::new(10, 0, 0, 1)
}

#[test]
fn big_endian_writes() {
    let mut b = vec![0u8; 6];
    set_u16_be(&mut b, 1, 0xabcd);
    assert_eq!(b, vec![0, 0xab, 0xcd, 0, 0, 0]);
    set_u32_be(&mut b, 2, 0x0102_0304);
    assert_eq!(b, vec![0, 0xab, 0x01, 0x02, 0x03, 0x04]);
}

#[test]
fn syn_fields_layout() {
    let mut b = vec![0u8; 40];
    write_syn_fields(&mut b, 80, target(), source(), 4242);
    let expected: Vec<u8> = vec![
        0x45, 0, 0, 40, 0, 0, 0, 0, 64, 6, 0, 0, 10, 0, 0, 1, 10, 0, 0, 2, // IPv4
        0x10, 0x92, 0, 80, 0, 0, 0xa9, 0x0a, 0, 0, 0, 0, 0x50, 0x02, 0xfa, 0xf0, 0, 0, 0, 0, // TCP
    ];
    assert_eq!(b, expected);
}

#[test]
fn syn_fields_keep_untouched_bytes() {
    let mut b = vec![0xffu8; 44];
    write_syn_fields(&mut b, 443, target(), source(), 1);
    assert_eq!(b[0], 0x45);
    assert_eq!(b[1], 0xff);
    assert_eq!(&b[4..8], &[0xff; 4]);
    assert_eq!(&b[10..12], &[0xff; 2]);
    assert_eq!(&b[28..32], &[0xff; 4]);
    assert_eq!(b[32], 0x5f);
    assert_eq!(&b[36..44], &[0xff; 8]);
}

#[test]
fn probe_checksums() {
    let mut b = vec![0u8; 40];
    write_syn_probe(&mut b, 80, target(), source(), 4242);
    // one's complement sums worked out by hand
    assert_eq!(&b[10..12], &[0x66, 0xce]);
    assert_eq!(&b[36..38], &[0xe7, 0x02]);
    // and as pnet computes them
    let ip = Ipv4Packet::new(&b).unwrap();
    assert_eq!(pnet::packet::ipv4::checksum(&ip), 0x66ce);
    let tcp = TcpPacket::new(&b[20..40]).unwrap();
    let (s, t) = (pnet::util::core_net::Ipv4Addr::new(10, 0, 0, 1), pnet::util::core_net::Ipv4Addr::new(10, 0, 0, 2));
    assert_eq!(pnet::packet::tcp::ipv4_checksum(&tcp, &s, &t), 0xe702);
}

#[test]
fn created_packet_is_a_syn_probe() {
    let mut b = vec![0u8; PROBE_LEN];
    create_packet(8080, target(), source(), &mut b);
    let src_port = u16::from_be_bytes([b[20], b[21]]);
    let mut expected = vec![0u8; PROBE_LEN];
    write_syn_probe(&mut expected, 8080, target(), source(), src_port);
    assert_eq!(b, expected);
    let ip = Ipv4Packet::new(&b).unwrap();
    assert_eq!(ip.get_destination(), pnet::util::core_net::Ipv4Addr::new(10, 0, 0, 2));
    assert_eq!(ip.get_source(), pnet::util::core_net::Ipv4Addr::new(10, 0, 0, 1));
    assert_eq!(ip.get_total_length(), 40);
    assert_eq!(ip.get_checksum(), pnet::packet::ipv4::checksum(&ip));
    let tcp = TcpPacket::new(&b[20..]).unwrap();
    assert_eq!(tcp.get_destination(), 8080);
    assert_eq!(tcp.get_flags(), pnet::packet::tcp::TcpFlags::SYN);
    assert_eq!(tcp.get_window(), 64240);
    assert_eq!(tcp.get_sequence(), 43274);
    assert_eq!(tcp.get_data_offset(), 5);
}

#[test]
fn probe_never_read_as_open() {
    let mut b = vec![0u8; PROBE_LEN];
    write_syn_probe(&mut b, 22, target(), source(), 5555);
    assert_eq!(handle_packet(&b, source()), (false, 5555));
    assert_eq!(handle_packet(&b, target()), (false, 0));
}

fn ones_complement_fold(mut sum: u32) -> u32 {
    while sum >> 16 != 0 {
        sum = (sum >> 16) + (sum & 0xffff);
    }
    sum
}

fn word_total(bytes: &[u8]) -> u32 {
    bytes.chunks(2).map(|w| u32::from(u16::from_be_bytes([w[0], w[1]]))).sum()
}

#[test]
fn probe_checksums_verify() {
    for (port, src_port) in [(80u16, 4242u16), (1, 0), (65535, 65535), (8080, 31337)] {
        let mut b = vec![0u8; PROBE_LEN];
        write_syn_probe(&mut b, port, target(), source(), src_port);
        assert_eq!(ones_complement_fold(word_total(&b[0..20])), 0xffff);
        let pseudo = 0x0a00 + 0x0001 + 0x0a00 + 0x0002 + 6 + 20;
        assert_eq!(ones_complement_fold(pseudo + word_total(&b[20..40])), 0xffff);
    }
}
