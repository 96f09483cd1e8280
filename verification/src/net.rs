//! Addresses and network interfaces as plain values.

use vstd::prelude::*;
use vstd::arithmetic::div_mod::lemma_fundamental_div_mod_converse;
use crate::text::{
    chars_of, decimal_string, decimal_text, digits_value, find_char, hex_byte_text, is_digit, lemma_decimal_text,
    push_hex_byte,
};

verus! {

/// An IPv4 address, held as its 32-bit big-endian value
/// (`a.b.c.d` is `a * 2^24 + b * 2^16 + c * 2^8 + d`).
#[derive(Clone, Copy, Debug, PartialEq, Eq, Structural)]
pub struct Ipv4Addr(pub u32);

/// The four octets of a 32-bit address value, most significant first.
pub open spec fn octets_of(a: u32) -> Seq<u8> {
    seq![
        (a / 0x100_0000) as u8,
        ((a / 0x1_0000) % 0x100) as u8,
        ((a / 0x100) % 0x100) as u8,
        (a % 0x100) as u8,
    ]
}

/// The address value whose octets are `a.b.c.d`.
pub open spec fn addr_of_octets(a: u8, b: u8, c: u8, d: u8) -> u32 {
    (a * 0x100_0000 + b * 0x1_0000 + c * 0x100 + d) as u32
}

/// The octets of `a.b.c.d` are `a`, `b`, `c`, `d`.
pub proof fn lemma_octets_of_addr(a: u8, b: u8, c: u8, d: u8)
    ensures
        octets_of(addr_of_octets(a, b, c, d)) == seq![a, b, c, d],
{
    let v = a * 0x100_0000 + b * 0x1_0000 + c * 0x100 + d;
    assert(v == addr_of_octets(a, b, c, d));
    lemma_fundamental_div_mod_converse(v, 0x100_0000, a as int, b * 0x1_0000 + c * 0x100 + d);
    lemma_fundamental_div_mod_converse(v, 0x1_0000, a * 0x100 + b, c * 0x100 + d);
    lemma_fundamental_div_mod_converse(a * 0x100 + b, 0x100, a as int, b as int);
    lemma_fundamental_div_mod_converse(v, 0x100, a * 0x1_0000 + b * 0x100 + c, d as int);
    lemma_fundamental_div_mod_converse(a * 0x1_0000 + b * 0x100 + c, 0x100, a * 0x100 + b, c as int);
    assert(octets_of(addr_of_octets(a, b, c, d)) =~= seq![a, b, c, d]);
}

impl Ipv4Addr {
    /// Builds the address `a.b.c.d`.
    pub fn new(a: u8, b: u8, c: u8, d: u8) -> (r: Ipv4Addr)
        ensures
            r.0 == addr_of_octets(a, b, c, d),
            octets_of(r.0) == seq![a, b, c, d],
    {
        let v: u32 = (a as u32) * 0x100_0000 + (b as u32) * 0x1_0000 + (c as u32) * 0x100 + (d as u32);
        proof {
            lemma_octets_of_addr(a, b, c, d);
        }
        Ipv4Addr(v)
    }

    /// The octets of the address, most significant first.
    pub fn octets(&self) -> (r: [u8; 4])
        ensures
            r@ == octets_of(self.0),
    {
        let v = self.0;
        let r: [u8; 4] = [
            (v / 0x100_0000) as u8,
            ((v / 0x1_0000) % 0x100) as u8,
            ((v / 0x100) % 0x100) as u8,
            (v % 0x100) as u8,
        ];
        assert(r@ =~= octets_of(v));
        r
    }
}

/// The octet that the text `t` spells in a dotted-quad address: one to
/// three decimal digits, without a leading zero unless the octet is `0`
/// alone, with a value of at most 255.
pub open spec fn octet_of_text(t: Seq<char>) -> Option<u8> {
    if 1 <= t.len() <= 3 && (forall|i: int| 0 <= i < t.len() ==> is_digit(#[trigger] t[i]))
        && (t.len() == 1 || t[0] != '0') && digits_value(t) <= 255 {
        Some(digits_value(t) as u8)
    } else {
        None
    }
}

/// `s` has exactly three dots, at `i < j < k`.
pub open spec fn dots_at(s: Seq<char>, i: int, j: int, k: int) -> bool {
    &&& 0 <= i < j < k < s.len()
    &&& s[i] == '.' && s[j] == '.' && s[k] == '.'
    &&& forall|m: int| 0 <= m < s.len() && s[m] == '.' ==> m == i || m == j || m == k
}

/// The address that the dotted-quad text `s` spells (`a.b.c.d`, four octets
/// as `octet_of_text` reads them, separated by single dots, nothing else), or
/// `None`.
pub open spec fn ipv4_of_text(s: Seq<char>) -> Option<Ipv4Addr> {
    if exists|i: int, j: int, k: int| dots_at(s, i, j, k) {
        let (i, j, k) = choose|i: int, j: int, k: int| dots_at(s, i, j, k);
        match (
            octet_of_text(s.subrange(0, i)),
            octet_of_text(s.subrange(i + 1, j)),
            octet_of_text(s.subrange(j + 1, k)),
            octet_of_text(s.subrange(k + 1, s.len() as int)),
        ) {
            (Some(a), Some(b), Some(c), Some(d)) => Some(Ipv4Addr(addr_of_octets(a, b, c, d))),
            _ => None,
        }
    } else {
        None
    }
}

/// Reads `c[from .. to]` as one octet of a dotted-quad address.
fn parse_octet(c: &Vec<char>, from: usize, to: usize) -> (r: Option<u8>)
    requires
        from <= to <= c@.len(),
    ensures
        r == octet_of_text(c@.subrange(from as int, to as int)),
{
    let ghost t = c@.subrange(from as int, to as int);
    if to - from < 1 || to - from > 3 {
        return None;
    }
    if to - from > 1 && c[from] == '0' {
        return None;
    }
    let mut value: u32 = 0;
    let mut i: usize = from;
    while i < to
        invariant
            from <= i <= to <= c@.len(),
            to - from <= 3,
            t == c@.subrange(from as int, to as int),
            forall|m: int| 0 <= m < i - from ==> is_digit(#[trigger] t[m]),
            value == digits_value(t.subrange(0, i - from)),
            i - from == 0 ==> value == 0,
            i - from == 1 ==> value < 10,
            i - from == 2 ==> value < 100,
            i - from == 3 ==> value < 1000,
        decreases to - i,
    {
        let ch = c[i];
        if !('0' <= ch && ch <= '9') {
            assert(!is_digit(t[i - from]));
            return None;
        }
        let d: u32 = (ch as u32) - ('0' as u32);
        assert(t.subrange(0, i + 1 - from).drop_last() =~= t.subrange(0, i - from));
        value = value * 10 + d;
        i = i + 1;
    }
    assert(t.subrange(0, to - from) =~= t);
    if value > 255 {
        return None;
    }
    Some(value as u8)
}

/// A string with three dots at `i < j < k` has them nowhere else.
proof fn lemma_dots_unique(s: Seq<char>, i: int, j: int, k: int, i2: int, j2: int, k2: int)
    requires
        dots_at(s, i, j, k),
        dots_at(s, i2, j2, k2),
    ensures
        i == i2 && j == j2 && k == k2,
{
    assert(s[i2] == '.' && s[j2] == '.' && s[k2] == '.');
    assert(s[i] == '.' && s[j] == '.' && s[k] == '.');
}

/// Parses a dotted-quad IPv4 address such as `192.168.0.1`.
pub fn parse_ipv4(s: &str) -> (r: Option<Ipv4Addr>)
    ensures
        r == ipv4_of_text(s@),
{
    let c = chars_of(s);
    let n = c.len();
    let d0 = find_char(&c, 0, '.');
    if d0 == n {
        assert forall|i: int, j: int, k: int| !dots_at(c@, i, j, k) by {
            if dots_at(c@, i, j, k) {
                assert(c@.subrange(0, n as int)[i] == c@[i]);
            }
        }
        return None;
    }
    let d1 = find_char(&c, d0 + 1, '.');
    if d1 == n {
        assert forall|i: int, j: int, k: int| !dots_at(c@, i, j, k) by {
            if dots_at(c@, i, j, k) {
                if j < d0 {
                    assert(c@.subrange(0, d0 as int)[j] == c@[j]);
                } else if j > d0 {
                    assert(c@.subrange(d0 + 1, n as int)[j - d0 - 1] == c@[j]);
                } else {
                    assert(c@.subrange(d0 + 1, n as int)[k - d0 - 1] == c@[k]);
                }
            }
        }
        return None;
    }
    let d2 = find_char(&c, d1 + 1, '.');
    if d2 == n {
        assert forall|i: int, j: int, k: int| !dots_at(c@, i, j, k) by {
            if dots_at(c@, i, j, k) {
                if k < d0 {
                    assert(c@.subrange(0, d0 as int)[k] == c@[k]);
                } else if d0 < k && k < d1 {
                    assert(c@.subrange(d0 + 1, d1 as int)[k - d0 - 1] == c@[k]);
                } else if k > d1 {
                    assert(c@.subrange(d1 + 1, n as int)[k - d1 - 1] == c@[k]);
                } else if j < d0 {
                    assert(c@.subrange(0, d0 as int)[j] == c@[j]);
                } else if d0 < j && j < d1 {
                    assert(c@.subrange(d0 + 1, d1 as int)[j - d0 - 1] == c@[j]);
                } else if i < d0 {
                    assert(c@.subrange(0, d0 as int)[i] == c@[i]);
                } else {
                    assert(c@.subrange(d0 + 1, d1 as int)[i - d0 - 1] == c@[i]);
                }
            }
        }
        return None;
    }
    let d3 = find_char(&c, d2 + 1, '.');
    if d3 < n {
        assert forall|i: int, j: int, k: int| !dots_at(c@, i, j, k) by {
            if dots_at(c@, i, j, k) {
                assert(c@[d0 as int] == '.' && c@[d1 as int] == '.' && c@[d2 as int] == '.'
                    && c@[d3 as int] == '.');
            }
        }
        return None;
    }
    assert forall|m: int| 0 <= m < n && c@[m] == '.' implies m == d0 || m == d1 || m == d2 by {
        if m < d0 {
            assert(c@.subrange(0, d0 as int)[m] == c@[m]);
        } else if d0 < m && m < d1 {
            assert(c@.subrange(d0 + 1, d1 as int)[m - d0 - 1] == c@[m]);
        } else if d1 < m && m < d2 {
            assert(c@.subrange(d1 + 1, d2 as int)[m - d1 - 1] == c@[m]);
        } else if d2 < m && m < d3 {
            assert(c@.subrange(d2 + 1, d3 as int)[m - d2 - 1] == c@[m]);
        }
    }
    assert(dots_at(c@, d0 as int, d1 as int, d2 as int));
    proof {
        let (i, j, k) = choose|i: int, j: int, k: int| dots_at(c@, i, j, k);
        lemma_dots_unique(c@, d0 as int, d1 as int, d2 as int, i, j, k);
    }
    let a = parse_octet(&c, 0, d0);
    let b = parse_octet(&c, d0 + 1, d1);
    let cc = parse_octet(&c, d1 + 1, d2);
    let d = parse_octet(&c, d2 + 1, n);
    match (a, b, cc, d) {
        (Some(a), Some(b), Some(cc), Some(d)) => Some(Ipv4Addr::new(a, b, cc, d)),
        _ => None,
    }
}

/// The dotted-quad text of `a`, each octet in decimal without leading
/// zeros, as Rust's `Ipv4Addr` displays it.
pub open spec fn dotted_text(a: Ipv4Addr) -> Seq<char> {
    decimal_text(octets_of(a.0)[0] as nat) + seq!['.'] + decimal_text(octets_of(a.0)[1] as nat) + seq!['.']
        + decimal_text(octets_of(a.0)[2] as nat) + seq!['.'] + decimal_text(octets_of(a.0)[3] as nat)
}

/// An address is the value of its octets.
pub proof fn lemma_addr_of_own_octets(v: u32)
    ensures
        addr_of_octets(octets_of(v)[0], octets_of(v)[1], octets_of(v)[2], octets_of(v)[3]) == v,
{
    assert((v / 0x100_0000) * 0x100_0000 + ((v / 0x1_0000) % 0x100) * 0x1_0000 + ((v / 0x100) % 0x100) * 0x100
        + v % 0x100 == v) by (bit_vector);
    assert(v / 0x100_0000 < 0x100) by (bit_vector);
}

/// The decimal text of an octet reads back as that octet.
proof fn lemma_octet_text(o: u8)
    ensures
        octet_of_text(decimal_text(o as nat)) == Some(o),
        forall|i: int| 0 <= i < decimal_text(o as nat).len() ==> #[trigger] decimal_text(o as nat)[i] != '.',
{
    lemma_decimal_text(o as nat);
    let t = decimal_text(o as nat);
    assert forall|i: int| 0 <= i < t.len() implies #[trigger] t[i] != '.' by {
        assert(is_digit(t[i]));
    }
}

/// Every address, written as `to_string` writes it, is read back as that
/// address.
pub proof fn lemma_address_text_round_trip(a: Ipv4Addr)
    ensures
        ipv4_of_text(dotted_text(a)) == Some(a),
{
    let o = octets_of(a.0);
    let t0 = decimal_text(o[0] as nat);
    let t1 = decimal_text(o[1] as nat);
    let t2 = decimal_text(o[2] as nat);
    let t3 = decimal_text(o[3] as nat);
    lemma_octet_text(o[0]);
    lemma_octet_text(o[1]);
    lemma_octet_text(o[2]);
    lemma_octet_text(o[3]);
    let s = dotted_text(a);
    let i = t0.len() as int;
    let j = i + 1 + t1.len();
    let k = j + 1 + t2.len();
    assert(s =~= t0 + seq!['.'] + t1 + seq!['.'] + t2 + seq!['.'] + t3);
    assert(s.subrange(0, i) =~= t0);
    assert(s.subrange(i + 1, j) =~= t1);
    assert(s.subrange(j + 1, k) =~= t2);
    assert(s.subrange(k + 1, s.len() as int) =~= t3);
    assert forall|m: int| 0 <= m < s.len() && s[m] == '.' implies m == i || m == j || m == k by {
        if m < i {
            assert(s[m] == t0[m]);
        } else if i < m < j {
            assert(s[m] == t1[m - i - 1]);
        } else if j < m < k {
            assert(s[m] == t2[m - j - 1]);
        } else if k < m {
            assert(s[m] == t3[m - k - 1]);
        }
    }
    assert(dots_at(s, i, j, k));
    let (i2, j2, k2) = choose|i2: int, j2: int, k2: int| dots_at(s, i2, j2, k2);
    lemma_dots_unique(s, i, j, k, i2, j2, k2);
    lemma_addr_of_own_octets(a.0);
}

impl Ipv4Addr {
    /// The dotted-quad text of the address, as `to_string` writes it.
    pub fn to_text(&self) -> (r: String)
        ensures
            r@ == dotted_text(*self),
    {
        let o = self.octets();
        proof {
            reveal_strlit(".");
        }
        let mut r = decimal_string(o[0] as u32);
        r.append(".");
        r.append(decimal_string(o[1] as u32).as_str());
        r.append(".");
        r.append(decimal_string(o[2] as u32).as_str());
        r.append(".");
        r.append(decimal_string(o[3] as u32).as_str());
        r
    }
}

/// An IP address as a network interface reports it.
#[derive(Clone, Copy, Debug, PartialEq, Eq, Structural)]
pub enum IpAddr {
    /// An IPv4 address.
    V4(Ipv4Addr),
    /// An IPv6 address, as its 128-bit value.
    V6(u128),
}

/// A name for the text that std's `Display` gives the IPv6 address whose
/// 128-bit value is `v` (the RFC 5952 form, with the longest run of zero
/// groups shortened to `::`).
pub uninterp spec fn ipv6_text_of(v: u128) -> Seq<char>;

/// Trusted: `to_string` of the `Ipv6Addr` whose value is `v` (std's type,
/// as pnet re-exports it). Its result is only named, as `ipv6_text_of(v)`.
#[verifier::external_body]
fn ipv6_text(v: u128) -> (r: String)
    ensures
        r@ == ipv6_text_of(v),
{
    pnet::util::core_net::Ipv6Addr::from(v).to_string()
}

/// The text of an address: dotted-quad for IPv4, std's form for IPv6.
pub open spec fn ip_text(a: IpAddr) -> Seq<char> {
    match a {
        IpAddr::V4(x) => dotted_text(x),
        IpAddr::V6(v) => ipv6_text_of(v),
    }
}

impl IpAddr {
    /// The text of the address: dotted-quad for IPv4, std's form for IPv6.
    pub fn to_text(&self) -> (r: String)
        ensures
            r@ == ip_text(*self),
    {
        match self {
            IpAddr::V4(x) => x.to_text(),
            IpAddr::V6(v) => ipv6_text(*v),
        }
    }
}

/// The bytes of a hardware address, all zeros when there is none.
pub open spec fn mac_bytes(mac: Option<[u8; 6]>) -> Seq<u8> {
    match mac {
        Some(m) => m@,
        None => seq![0u8, 0u8, 0u8, 0u8, 0u8, 0u8],
    }
}

/// The text of a six-byte hardware address: each byte as two lowercase
/// hexadecimal digits, separated by colons (`00:1a:2b:3c:4d:5e`).
pub open spec fn mac_text(m: Seq<u8>) -> Seq<char> {
    hex_byte_text(m[0]) + seq![':'] + hex_byte_text(m[1]) + seq![':'] + hex_byte_text(m[2]) + seq![':']
        + hex_byte_text(m[3]) + seq![':'] + hex_byte_text(m[4]) + seq![':'] + hex_byte_text(m[5])
}

/// The text of a hardware address is 17 characters: for each byte, the
/// lowercase hexadecimal digit of its high nibble, then of its low nibble
/// (a nibble `d` shown as `'0' + d` below 10 and as `'a' + (d - 10)` from 10
/// to 15), the bytes separated by colons.
pub proof fn lemma_mac_text_digits(m: Seq<u8>)
    requires
        m.len() == 6,
    ensures
        mac_text(m).len() == 17,
        forall|k: int|
            0 <= k < 6 ==> (#[trigger] mac_text(m)[3 * k]) as int == (if m[k] / 16 < 10 {
                48 + m[k] / 16
            } else {
                97 + m[k] / 16 - 10
            }) && mac_text(m)[3 * k + 1] as int == (if m[k] % 16 < 10 {
                48 + m[k] % 16
            } else {
                97 + m[k] % 16 - 10
            }),
        forall|k: int| 0 <= k < 5 ==> #[trigger] mac_text(m)[3 * k + 2] == ':',
{
    let t = mac_text(m);
    assert forall|k: int| 0 <= k < 6 implies (#[trigger] t[3 * k]) == hex_byte_text(m[k])[0] && t[3 * k + 1]
        == hex_byte_text(m[k])[1] by {
        if k == 0 {
        } else if k == 1 {
        } else if k == 2 {
        } else if k == 3 {
        } else if k == 4 {
        } else {
        }
    }
}

/// The text of a hardware address, all zeros when there is none.
pub fn mac_string(mac: Option<[u8; 6]>) -> (r: String)
    ensures
        r@ == mac_text(mac_bytes(mac)),
{
    let m: [u8; 6] = match mac {
        Some(m) => m,
        None => [0u8, 0u8, 0u8, 0u8, 0u8, 0u8],
    };
    assert(m@ =~= mac_bytes(mac));
    proof {
        reveal_strlit(":");
    }
    let mut r = String::new();
    push_hex_byte(&mut r, m[0]);
    r.append(":");
    push_hex_byte(&mut r, m[1]);
    r.append(":");
    push_hex_byte(&mut r, m[2]);
    r.append(":");
    push_hex_byte(&mut r, m[3]);
    r.append(":");
    push_hex_byte(&mut r, m[4]);
    r.append(":");
    push_hex_byte(&mut r, m[5]);
    assert(r@ =~= mac_text(m@));
    r
}

/// A network interface of the machine: its name, its hardware address when
/// it has one, and the addresses assigned to it, in the order the system
/// lists them.
#[derive(Clone, Debug)]
pub struct Interface {
    pub name: String,
    pub mac: Option<[u8; 6]>,
    pub ips: Vec<IpAddr>,
}

} // verus!
