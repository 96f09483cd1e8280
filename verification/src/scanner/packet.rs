//! Construction of the raw IPv4/TCP SYN probe.
//!
//! The probe is 40 bytes: a 20-byte IPv4 header without options followed by a
//! 20-byte TCP header without options or payload. Header fields are written
//! byte by byte at the offsets the two RFCs fix; the two checksums are computed
//! by `pnet` (and stated here exactly), and the TCP source port is drawn by
//! `rand`.

use vstd::prelude::*;
use crate::net::{octets_of, Ipv4Addr};
use crate::scanner::checksum::{
    be_word, checksum_of_sum, fold_carries, lemma_sum_with_checksum, lemma_word_sum_frame, lemma_word_sum_split,
    word_sum,
};

verus! {

/// Length of an IPv4 header without options.
pub const IPV4_HEADER_LEN: usize = 20;
/// Length of a TCP header without options.
pub const TCP_HEADER_LEN: usize = 20;
/// Length of a whole probe: IPv4 header followed by the TCP header.
pub const PROBE_LEN: usize = 40;
/// Time to live given to every probe.
pub const PROBE_TTL: u8 = 64;
/// IP protocol number of TCP.
pub const PROTOCOL_TCP: u8 = 6;
/// TCP window advertised by every probe.
pub const PROBE_WINDOW: u16 = 64240;
/// TCP sequence number carried by every probe.
pub const PROBE_SEQUENCE: u32 = 43274;
/// The TCP SYN flag bit.
pub const TCP_FLAG_SYN: u8 = 0b0000_0010;
/// The TCP ACK flag bit.
pub const TCP_FLAG_ACK: u8 = 0b0001_0000;

/// `s` with the big-endian encoding of `v` at `off` and `off + 1`.
pub open spec fn put_u16(s: Seq<u8>, off: int, v: u16) -> Seq<u8> {
    s.update(off, (v / 0x100) as u8).update(off + 1, (v % 0x100) as u8)
}

/// `s` with the big-endian encoding of `v` at `off .. off + 4`.
pub open spec fn put_u32(s: Seq<u8>, off: int, v: u32) -> Seq<u8> {
    put_u16(put_u16(s, off, (v / 0x1_0000) as u16), off + 2, (v % 0x1_0000) as u16)
}

/// The big-endian 16-bit value at `off` of `s`.
pub open spec fn get_u16(s: Seq<u8>, off: int) -> u16 {
    (s[off] * 0x100 + s[off + 1]) as u16
}

/// The big-endian 32-bit value at `off .. off + 4` of `s`.
pub open spec fn get_u32(s: Seq<u8>, off: int) -> u32 {
    (get_u16(s, off) * 0x1_0000 + get_u16(s, off + 2)) as u32
}

/// Byte `k` (0 or 1) of the big-endian encoding of `v`.
pub open spec fn be16_byte(v: u16, k: int) -> u8 {
    if k == 0 { (v / 0x100) as u8 } else { (v % 0x100) as u8 }
}

/// Byte `k` (0 to 3) of the big-endian encoding of `v`.
pub open spec fn be32_byte(v: u32, k: int) -> u8 {
    if k < 2 { be16_byte((v / 0x1_0000) as u16, k) } else { be16_byte((v % 0x1_0000) as u16, k - 2) }
}

/// The bytes of `b` once every header field of a SYN probe from `source`
/// to `target:port` with TCP source port `src_port` is written, before the
/// checksums are: byte by byte, which field each byte belongs to. Bytes of
/// no field (type of service, identification, fragment, both checksums, the
/// acknowledgement number, the reserved bits, the urgent pointer, anything
/// past the 40th byte) keep their value from `b`.
pub open spec fn syn_fields(
    b: Seq<u8>,
    port: u16,
    target: Ipv4Addr,
    source: Ipv4Addr,
    src_port: u16,
) -> Seq<u8> {
    Seq::new(
        b.len(),
        |i: int|
            if i == 0 {
                0x45u8  // version 4, header length 5 words
            } else if 2 <= i < 4 {
                be16_byte(PROBE_LEN as u16, i - 2)  // total length

            } else if i == 8 {
                PROBE_TTL
            } else if i == 9 {
                PROTOCOL_TCP
            } else if 12 <= i < 16 {
                be32_byte(source.0, i - 12)
            } else if 16 <= i < 20 {
                be32_byte(target.0, i - 16)
            } else if 20 <= i < 22 {
                be16_byte(src_port, i - 20)  // TCP source port

            } else if 22 <= i < 24 {
                be16_byte(port, i - 22)  // TCP destination port

            } else if 24 <= i < 28 {
                be32_byte(PROBE_SEQUENCE, i - 24)
            } else if i == 32 {
                (0x50 + b[32] % 0x10) as u8  // data offset 5 words, reserved bits kept

            } else if i == 33 {
                TCP_FLAG_SYN
            } else if 34 <= i < 36 {
                be16_byte(PROBE_WINDOW, i - 34)
            } else {
                b[i]
            },
    )
}

/// What `pnet::packet::ipv4::checksum` computes on a 20-byte IPv4 header:
/// the checksum of the sum of its ten words, the checksum word (number 5)
/// left out.
pub open spec fn ipv4_header_checksum_spec(header: Seq<u8>) -> u16 {
    checksum_of_sum(word_sum(header, 10, 5))
}

/// The sum of the words of the TCP pseudo-header for a segment of `len`
/// bytes from `source` to `destination`: both addresses as two words each,
/// the protocol number and the length.
pub open spec fn tcp_pseudo_header_sum(source: u32, destination: u32, len: nat) -> nat {
    (source / 0x1_0000 + source % 0x1_0000 + destination / 0x1_0000 + destination % 0x1_0000
        + PROTOCOL_TCP + len) as nat
}

/// What `pnet::packet::tcp::ipv4_checksum` computes on a 20-byte TCP segment
/// from `source` to `destination`: the checksum of the pseudo-header sum
/// plus the segment's ten words, the checksum word (number 8) left out.
pub open spec fn tcp_ipv4_checksum_spec(segment: Seq<u8>, source: u32, destination: u32) -> u16 {
    checksum_of_sum(tcp_pseudo_header_sum(source, destination, segment.len()) + word_sum(segment, 10, 8))
}

/// The probe written into `b`: the header fields of `syn_fields`, with the
/// TCP checksum of bytes 20..40 at 36 and the IPv4 header checksum of bytes
/// 0..20 at 10.
pub open spec fn syn_probe(
    b: Seq<u8>,
    port: u16,
    target: Ipv4Addr,
    source: Ipv4Addr,
    src_port: u16,
) -> Seq<u8> {
    let f = syn_fields(b, port, target, source, src_port);
    let t = put_u16(f, 36, tcp_ipv4_checksum_spec(f.subrange(20, 40), source.0, target.0));
    put_u16(t, 10, ipv4_header_checksum_spec(f.subrange(0, 20)))
}

/// Trusted: `pnet::packet::ipv4::checksum` on the IPv4 packet that `header`
/// (exactly one option-less header) holds. pnet clamps the header length to
/// the 20 bytes given, sums their big-endian words except word 5 in a `u32`,
/// folds the carries back in and returns the complement
/// (`pnet_packet::util::checksum`); the contract states exactly that.
#[verifier::external_body]
fn ipv4_header_checksum(header: &[u8]) -> (r: u16)
    requires
        header@.len() == IPV4_HEADER_LEN,
    ensures
        r == ipv4_header_checksum_spec(header@),
{
    pnet::packet::ipv4::checksum(&pnet::packet::ipv4::Ipv4Packet::new(header).unwrap())
}

/// Trusted: `pnet::packet::tcp::ipv4_checksum` on the 20-byte TCP packet that
/// `segment` holds, with the two addresses given as 32-bit values. pnet adds
/// the address words, the protocol number (6) and the length to the
/// segment's big-endian words except word 8, in a `u32`, folds the carries
/// back in and returns the complement (`pnet_packet::util::ipv4_checksum`);
/// the contract states exactly that. Only 20-byte segments are admitted:
/// on long segments pnet's `u32` sum can overflow.
#[verifier::external_body]
fn tcp_ipv4_checksum(segment: &[u8], source: u32, destination: u32) -> (r: u16)
    requires
        segment@.len() == TCP_HEADER_LEN,
    ensures
        r == tcp_ipv4_checksum_spec(segment@, source, destination),
{
    let packet = pnet::packet::tcp::TcpPacket::new(segment).unwrap();
    pnet::packet::tcp::ipv4_checksum(&packet, &source.into(), &destination.into())
}

/// Trusted: `rand::random::<u16>()`. Nothing is stated of the value: any
/// `u16` may come back.
#[verifier::external_body]
fn random_port() -> u16 {
    rand::random::<u16>()
}

/// Writes `value` big-endian at `offset` and `offset + 1` of `buf`.
pub fn set_u16_be(buf: &mut Vec<u8>, offset: usize, value: u16)
    requires
        offset + 2 <= old(buf).len(),
    ensures
        final(buf)@ == put_u16(old(buf)@, offset as int, value),
{
    buf[offset] = (value / 0x100) as u8;
    buf[offset + 1] = (value % 0x100) as u8;
}

/// Writes `value` big-endian at `offset .. offset + 4` of `buf`.
pub fn set_u32_be(buf: &mut Vec<u8>, offset: usize, value: u32)
    requires
        offset + 4 <= old(buf).len(),
    ensures
        final(buf)@ == put_u32(old(buf)@, offset as int, value),
{
    set_u16_be(buf, offset, (value / 0x1_0000) as u16);
    set_u16_be(buf, offset + 2, (value % 0x1_0000) as u16);
}

/// Writes every header field of a SYN probe from `source` to `target:port`
/// with TCP source port `src_port` into `buf`, leaving both checksum fields
/// as they were.
pub fn write_syn_fields(
    buf: &mut Vec<u8>,
    port: u16,
    target: Ipv4Addr,
    source: Ipv4Addr,
    src_port: u16,
)
    requires
        old(buf)@.len() >= PROBE_LEN,
    ensures
        final(buf)@ == syn_fields(old(buf)@, port, target, source, src_port),
{
    buf[0] = 0x45;
    set_u32_be(buf, 16, target.0);
    set_u32_be(buf, 12, source.0);
    set_u16_be(buf, 2, PROBE_LEN as u16);
    buf[8] = PROBE_TTL;
    buf[9] = PROTOCOL_TCP;
    buf[33] = TCP_FLAG_SYN;
    set_u16_be(buf, 34, PROBE_WINDOW);
    let reserved = buf[32] % 0x10;
    buf[32] = 0x50 + reserved;
    set_u16_be(buf, 22, port);
    set_u16_be(buf, 20, src_port);
    set_u32_be(buf, 24, PROBE_SEQUENCE);
}

/// A copy of `buf[from .. to]`.
fn copy_range(buf: &Vec<u8>, from: usize, to: usize) -> (r: Vec<u8>)
    requires
        from <= to <= buf@.len(),
    ensures
        r@ == buf@.subrange(from as int, to as int),
{
    let mut r: Vec<u8> = Vec::new();
    let mut i: usize = from;
    while i < to
        invariant
            from <= i <= to <= buf@.len(),
            r@ == buf@.subrange(from as int, i as int),
        decreases to - i,
    {
        r.push(buf[i]);
        i = i + 1;
        assert(r@ =~= buf@.subrange(from as int, i as int));
    }
    r
}

/// Writes the SYN probe from `source` to `target:port`, with TCP source port
/// `src_port`, into the first 40 bytes of `buf`: the header fields, then the
/// TCP checksum, then the IPv4 header checksum.
pub fn write_syn_probe(
    buf: &mut Vec<u8>,
    port: u16,
    target: Ipv4Addr,
    source: Ipv4Addr,
    src_port: u16,
)
    requires
        old(buf)@.len() >= PROBE_LEN,
    ensures
        final(buf)@ == syn_probe(old(buf)@, port, target, source, src_port),
{
    write_syn_fields(buf, port, target, source, src_port);
    let ghost f = buf@;
    let segment = copy_range(buf, IPV4_HEADER_LEN, PROBE_LEN);
    let tcp_sum = tcp_ipv4_checksum(segment.as_slice(), source.0, target.0);
    set_u16_be(buf, 36, tcp_sum);
    let header = copy_range(buf, 0, IPV4_HEADER_LEN);
    assert(header@ =~= f.subrange(0, 20));
    let ip_sum = ipv4_header_checksum(header.as_slice());
    set_u16_be(buf, 10, ip_sum);
}

/// Builds in `buf` a raw IPv4 packet carrying a TCP SYN segment from
/// `source` to `target:port`, for a stealth SYN scan. The TCP source port is
/// random; everything else is fixed by the arguments and by the bytes that
/// `buf` held before.
pub fn create_packet(port: u16, target: Ipv4Addr, source: Ipv4Addr, buf: &mut Vec<u8>)
    requires
        old(buf)@.len() >= PROBE_LEN,
    ensures
        exists|src_port: u16| final(buf)@ == syn_probe(old(buf)@, port, target, source, src_port),
{
    let src_port = random_port();
    write_syn_probe(buf, port, target, source, src_port);
}

/// Every probe carries, whatever it is built from: version 4 with a 5-word
/// header, total length 40, TTL 64, protocol TCP, the source and target
/// addresses most significant octet first, the TCP source and destination
/// ports, sequence number 43274, data offset 5 words, the SYN flag alone and a
/// window of 64240; and every byte outside the header fields and the two
/// checksums keeps its value.
pub proof fn lemma_probe_layout(
    b: Seq<u8>,
    port: u16,
    target: Ipv4Addr,
    source: Ipv4Addr,
    src_port: u16,
)
    requires
        b.len() >= PROBE_LEN,
    ensures
        syn_probe(b, port, target, source, src_port).len() == b.len(),
        syn_probe(b, port, target, source, src_port)[0] == 0x45u8,
        syn_probe(b, port, target, source, src_port)[2] == 0u8,
        syn_probe(b, port, target, source, src_port)[3] == 40u8,
        syn_probe(b, port, target, source, src_port)[8] == 64u8,
        syn_probe(b, port, target, source, src_port)[9] == 6u8,
        forall|k: int|
            0 <= k < 4 ==> #[trigger] syn_probe(b, port, target, source, src_port)[12 + k] == octets_of(
                source.0,
            )[k] && syn_probe(b, port, target, source, src_port)[16 + k] == octets_of(target.0)[k],
        syn_probe(b, port, target, source, src_port)[20] * 256 + syn_probe(b, port, target, source, src_port)[21]
            == src_port,
        syn_probe(b, port, target, source, src_port)[22] * 256 + syn_probe(b, port, target, source, src_port)[23]
            == port,
        syn_probe(b, port, target, source, src_port)[24] == 0u8,
        syn_probe(b, port, target, source, src_port)[25] == 0u8,
        syn_probe(b, port, target, source, src_port)[26] == 0xa9u8,
        syn_probe(b, port, target, source, src_port)[27] == 0x0au8,
        syn_probe(b, port, target, source, src_port)[32] / 16 == 5,
        syn_probe(b, port, target, source, src_port)[32] % 16 == b[32] % 16,
        syn_probe(b, port, target, source, src_port)[33] == 0x02u8,
        syn_probe(b, port, target, source, src_port)[34] == 0xfau8,
        syn_probe(b, port, target, source, src_port)[35] == 0xf0u8,
        forall|i: int|
            0 <= i < b.len() && (i == 1 || 4 <= i < 8 || 28 <= i < 32 || 38 <= i) ==> #[trigger] syn_probe(
                b,
                port,
                target,
                source,
                src_port,
            )[i] == b[i],
{
    let f = syn_fields(b, port, target, source, src_port);
    let p = syn_probe(b, port, target, source, src_port);
    assert(forall|i: int| 0 <= i < b.len() && i != 10 && i != 11 && i != 36 && i != 37 ==> p[i] == f[i]);
    assert forall|k: int| 0 <= k < 4 implies #[trigger] p[12 + k] == octets_of(source.0)[k] && p[16 + k]
        == octets_of(target.0)[k] by {
        lemma_be32_octets(source.0, k);
        lemma_be32_octets(target.0, k);
    }
}

/// The big-endian bytes of a 32-bit value are its octets.
proof fn lemma_be32_octets(v: u32, k: int)
    requires
        0 <= k < 4,
    ensures
        be32_byte(v, k) == octets_of(v)[k],
{
    assert((v / 0x1_0000) / 0x100 == v / 0x100_0000) by (bit_vector);
    assert((v / 0x1_0000) % 0x100 == (v / 0x1_0000) % 0x100) by (bit_vector);
    assert((v % 0x1_0000) / 0x100 == (v / 0x100) % 0x100) by (bit_vector);
    assert((v % 0x1_0000) % 0x100 == v % 0x100) by (bit_vector);
}

/// The checksums of a probe are valid on the network: recomputing either one
/// over the finished packet gives the value stored in it, and the words of
/// the IPv4 header, and those of the TCP pseudo-header and segment, checksum
/// included, add up to all ones.
pub proof fn lemma_probe_checksums_valid(
    b: Seq<u8>,
    port: u16,
    target: Ipv4Addr,
    source: Ipv4Addr,
    src_port: u16,
)
    requires
        b.len() >= PROBE_LEN,
    ensures
        ipv4_header_checksum_spec(syn_probe(b, port, target, source, src_port).subrange(0, 20))
            == get_u16(syn_probe(b, port, target, source, src_port), 10),
        tcp_ipv4_checksum_spec(syn_probe(b, port, target, source, src_port).subrange(20, 40), source.0, target.0)
            == get_u16(syn_probe(b, port, target, source, src_port), 36),
        fold_carries(word_sum(syn_probe(b, port, target, source, src_port).subrange(0, 20), 10, -1)) == 0xffff,
        fold_carries(
            tcp_pseudo_header_sum(source.0, target.0, 20) + word_sum(
                syn_probe(b, port, target, source, src_port).subrange(20, 40),
                10,
                -1,
            ),
        ) == 0xffff,
{
    let f = syn_fields(b, port, target, source, src_port);
    let tcp_sum = tcp_ipv4_checksum_spec(f.subrange(20, 40), source.0, target.0);
    let ip_sum = ipv4_header_checksum_spec(f.subrange(0, 20));
    let t = put_u16(f, 36, tcp_sum);
    let p = put_u16(t, 10, ip_sum);
    assert(p == syn_probe(b, port, target, source, src_port));
    // the IPv4 header
    let h = p.subrange(0, 20);
    let hf = f.subrange(0, 20);
    assert forall|w: int| 0 <= w < 10 && w != 5 implies be_word(h, w) == be_word(hf, w) by {
        assert(h[2 * w] == hf[2 * w] && h[2 * w + 1] == hf[2 * w + 1]);
    }
    lemma_word_sum_frame(h, hf, 10, 5);
    assert(be_word(h, 5) == ip_sum as nat);
    lemma_word_sum_split(h, 10, 5);
    lemma_sum_with_checksum(word_sum(hf, 10, 5));
    // the TCP segment
    let g = p.subrange(20, 40);
    let gf = f.subrange(20, 40);
    assert forall|w: int| 0 <= w < 10 && w != 8 implies be_word(g, w) == be_word(gf, w) by {
        assert(g[2 * w] == gf[2 * w] && g[2 * w + 1] == gf[2 * w + 1]);
    }
    lemma_word_sum_frame(g, gf, 10, 8);
    assert(be_word(g, 8) == tcp_sum as nat);
    lemma_word_sum_split(g, 10, 8);
    lemma_sum_with_checksum(tcp_pseudo_header_sum(source.0, target.0, 20) + word_sum(gf, 10, 8));
}

} // verus!
