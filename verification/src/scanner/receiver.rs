//! Reading the replies: which captured IPv4 packets say that a port is open.

use vstd::prelude::*;
use crate::net::Ipv4Addr;
use crate::scanner::packet::{
    be16_byte, be32_byte, get_u16, get_u32, ipv4_header_checksum_spec, put_u16, syn_fields, syn_probe,
    tcp_ipv4_checksum_spec, PROBE_LEN, PROTOCOL_TCP, TCP_FLAG_ACK, TCP_FLAG_SYN,
};

verus! {

/// The TCP flags byte of a reply that accepts a connection: SYN and ACK set,
/// nothing else.
pub open spec fn syn_ack() -> u8 {
    (TCP_FLAG_SYN + TCP_FLAG_ACK) as u8
}

/// The header length in bytes that the IHL field of `p` announces.
pub open spec fn ipv4_header_len(p: Seq<u8>) -> int {
    (p[0] % 0x10) * 4
}

/// Where the payload of the IPv4 packet `p` starts: after the fixed 20-byte
/// header and whatever options the header length announces.
pub open spec fn ipv4_payload_start(p: Seq<u8>) -> int {
    if ipv4_header_len(p) > 20 { ipv4_header_len(p) } else { 20 }
}

/// The payload of the IPv4 packet `p`: the bytes after the header, as many as
/// the total length field announces beyond the header length, cut short at
/// the end of the captured bytes.
pub open spec fn ipv4_payload(p: Seq<u8>) -> Seq<u8> {
    let start = ipv4_payload_start(p);
    let total = get_u16(p, 2) as int;
    let len = if total > ipv4_header_len(p) { total - ipv4_header_len(p) } else { 0 };
    let end = if start + len < p.len() { start + len } else { p.len() as int };
    if p.len() <= start { Seq::empty() } else { p.subrange(start, end) }
}

/// The source address of the IPv4 packet `p`.
pub open spec fn ipv4_source(p: Seq<u8>) -> u32 {
    get_u32(p, 12)
}

/// The verdict on a captured IPv4 packet `p` while scanning `target`:
/// `(true, port)` when `p` comes from `target`, carries TCP, and the segment
/// has exactly SYN and ACK set, `port` being its source port; `(false, port)`
/// for any other TCP segment from `target`; `(false, 0)` when the packet
/// comes from elsewhere, is not TCP, or is too short to hold a TCP header.
pub open spec fn reply_verdict(p: Seq<u8>, target: Ipv4Addr) -> (bool, u16) {
    if ipv4_source(p) != target.0 {
        (false, 0)
    } else if p[9] != PROTOCOL_TCP {
        (false, 0)
    } else if ipv4_payload(p).len() < 20 {
        (false, 0)
    } else {
        (ipv4_payload(p)[13] == syn_ack(), get_u16(ipv4_payload(p), 0))
    }
}

/// Analyses a raw IPv4 packet captured while scanning `target`.
///
/// Returns whether the packet says a port is open (a SYN+ACK reply from
/// `target`) and the port it concerns, its TCP source port; packets that are
/// irrelevant give `(false, 0)`.
pub fn handle_packet(packet: &[u8], target: Ipv4Addr) -> (r: (bool, u16))
    requires
        packet@.len() >= 20,
    ensures
        r == reply_verdict(packet@, target),
{
    let p = packet;
    let source: u32 = (p[12] as u32) * 0x100_0000 + (p[13] as u32) * 0x1_0000
        + (p[14] as u32) * 0x100 + (p[15] as u32);
    assert(source == ipv4_source(p@));
    if source != target.0 {
        return (false, 0);
    }
    if p[9] != PROTOCOL_TCP {
        return (false, 0);
    }
    let len = p.len();
    let header_len: usize = ((p[0] % 0x10) as usize) * 4;
    let start: usize = if header_len > 20 { header_len } else { 20 };
    let total: usize = (p[2] as usize) * 0x100 + (p[3] as usize);
    let payload_len: usize = if total > header_len { total - header_len } else { 0 };
    let end: usize = if start + payload_len < len { start + payload_len } else { len };
    proof {
        let q = ipv4_payload(p@);
        assert(start == ipv4_payload_start(p@));
        if len <= start {
            assert(q.len() == 0);
        } else {
            assert(q =~= p@.subrange(start as int, end as int));
        }
    }
    if len <= start || end - start < 20 {
        return (false, 0);
    }
    let flags = p[start + 13];
    let port: u16 = ((p[start] as u32) * 0x100 + (p[start + 1] as u32)) as u16;
    (flags == TCP_FLAG_SYN + TCP_FLAG_ACK, port)
}

/// The verdict on a captured packet, in terms of its bytes. Let `hl` be the
/// header length the IHL field announces, `start` the end of the header (at
/// least 20 bytes) and `total` the total length field. A packet that comes
/// from `target` (bytes 12..16), carries TCP (byte 9 is 6), announces at
/// least 20 bytes of payload and holds them, is reported by the flags byte of
/// its TCP header (open exactly when it is SYN+ACK, `0x12`) and the TCP
/// source port, whatever options or data follow the first 20 bytes; any other
/// packet gives `(false, 0)`.
pub proof fn lemma_verdict_by_bytes(p: Seq<u8>, target: Ipv4Addr)
    requires
        p.len() >= 20,
    ensures
        ({
            let hl = (p[0] % 16) * 4;
            let start = if hl > 20 { hl } else { 20 };
            let total = p[2] * 256 + p[3];
            let from_target = p[12] * 0x100_0000 + p[13] * 0x1_0000 + p[14] * 0x100 + p[15] == target.0;
            let holds_tcp_header = start + 20 <= p.len() && total >= hl + 20;
            &&& (from_target && p[9] == 6 && holds_tcp_header) ==> reply_verdict(p, target) == (
                p[start + 13] == 0x12u8,
                (p[start] * 256 + p[start + 1]) as u16,
            )
            &&& !(from_target && p[9] == 6 && holds_tcp_header) ==> reply_verdict(p, target) == (false, 0u16)
        }),
{
    let q = ipv4_payload(p);
    let start = ipv4_payload_start(p);
    if start + 20 <= p.len() && get_u16(p, 2) >= ipv4_header_len(p) + 20 {
        assert(q.len() >= 20);
        assert(q[13] == p[start + 13] && q[0] == p[start] && q[1] == p[start + 1]);
    }
}

/// Reading back the big-endian bytes of a 16-bit value gives the value.
proof fn lemma_read_be16(s: Seq<u8>, off: int, v: u16)
    requires
        0 <= off,
        off + 2 <= s.len(),
        s[off] == be16_byte(v, 0),
        s[off + 1] == be16_byte(v, 1),
    ensures
        get_u16(s, off) == v,
{
}

/// Reading back the big-endian bytes of a 32-bit value gives the value.
proof fn lemma_read_be32(s: Seq<u8>, off: int, v: u32)
    requires
        0 <= off,
        off + 4 <= s.len(),
        forall|k: int| 0 <= k < 4 ==> s[off + k] == #[trigger] be32_byte(v, k),
    ensures
        get_u32(s, off) == v,
{
    assert(s[off] == be32_byte(v, 0) && s[off + 1] == be32_byte(v, 1));
    assert(s[off + 2] == be32_byte(v, 2) && s[off + 3] == be32_byte(v, 3));
    lemma_read_be16(s, off, (v / 0x1_0000) as u16);
    lemma_read_be16(s, off + 2, (v % 0x1_0000) as u16);
}

/// A SYN probe read back the way replies are read: it goes from `source` to
/// `target`, carries TCP, its payload is exactly its TCP header (bytes 20..40),
/// whose ports are `src_port` and `port` and whose flags are SYN alone. So
/// no probe is ever taken for a reply that opens a port, whatever address is
/// being scanned.
pub proof fn lemma_probe_reads_back(
    b: Seq<u8>,
    port: u16,
    target: Ipv4Addr,
    source: Ipv4Addr,
    src_port: u16,
    scanned: Ipv4Addr,
)
    requires
        b.len() >= PROBE_LEN,
    ensures
        syn_probe(b, port, target, source, src_port).len() == b.len(),
        ipv4_source(syn_probe(b, port, target, source, src_port)) == source.0,
        get_u32(syn_probe(b, port, target, source, src_port), 16) == target.0,
        syn_probe(b, port, target, source, src_port)[9] == PROTOCOL_TCP,
        ipv4_payload(syn_probe(b, port, target, source, src_port))
            == syn_probe(b, port, target, source, src_port).subrange(20, 40),
        get_u16(ipv4_payload(syn_probe(b, port, target, source, src_port)), 0) == src_port,
        get_u16(ipv4_payload(syn_probe(b, port, target, source, src_port)), 2) == port,
        ipv4_payload(syn_probe(b, port, target, source, src_port))[13] == TCP_FLAG_SYN,
        !reply_verdict(syn_probe(b, port, target, source, src_port), scanned).0,
{
    let f = syn_fields(b, port, target, source, src_port);
    let t = put_u16(f, 36, tcp_ipv4_checksum_spec(f.subrange(20, 40), source.0, target.0));
    let p = put_u16(t, 10, ipv4_header_checksum_spec(f.subrange(0, 20)));
    assert(p == syn_probe(b, port, target, source, src_port));
    // outside the two checksum fields the probe holds the header fields
    assert(forall|i: int| 0 <= i < b.len() && i != 10 && i != 11 && i != 36 && i != 37 ==> p[i] == f[i]);
    assert(p[0] == 0x45u8);
    lemma_read_be16(p, 2, PROBE_LEN as u16);
    assert(ipv4_payload(p) =~= p.subrange(20, 40));
    lemma_read_be32(p, 12, source.0);
    lemma_read_be32(p, 16, target.0);
    let q = ipv4_payload(p);
    lemma_read_be16(q, 0, src_port);
    lemma_read_be16(q, 2, port);
    assert(q[13] == p[33]);
}

} // verus!
