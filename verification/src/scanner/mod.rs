//! The scan: which probes go out, how they are built and how replies are read.
//!
//! A `Scanner` is the plan of a scan: the target, the source addresses the
//! probes rotate through (the real one and any decoys) and the ports. The
//! sockets, threads and channels that carry the plan out are not part of it.

pub mod checksum;
pub mod packet;
pub mod receiver;

use vstd::prelude::*;
use vstd::arithmetic::div_mod::lemma_fundamental_div_mod_converse;
use crate::cli::ScannerArgs;
use crate::cli::utils::{port_spec_of, IntOrRange, PortSpecError};
use crate::net::{dotted_text, ipv4_of_text, parse_ipv4, IpAddr, Interface, Ipv4Addr};
use crate::text::{decimal_string, decimal_text};

verus! {

/// The plan of a scan.
pub struct Scanner {
    /// The address to scan.
    pub target: Ipv4Addr,
    /// The source addresses the probes are sent from, in rotation: the
    /// decoys and the real address of the interface.
    pub source_ips: Vec<Ipv4Addr>,
    /// The ports to scan, in order.
    pub ports: Vec<u16>,
}

/// The pause between two probes, in milliseconds, to avoid congestion and
/// lower the chance of triggering an intrusion detection system.
pub const PROBE_INTERVAL_MS: u64 = 500;

/// One SYN probe to send: from `source` to `target:port`.
#[derive(Clone, Copy, Debug, PartialEq, Eq, Structural)]
pub struct Probe {
    pub target: Ipv4Addr,
    pub source: Ipv4Addr,
    pub port: u16,
}

/// The ports a selection stands for: the single port, or every port from
/// the start of the range to its end, both included, in increasing order.
pub open spec fn ports_of(p: IntOrRange) -> Seq<u16> {
    match p {
        IntOrRange::Int(v) => seq![v],
        IntOrRange::Range(start, end) => Seq::new(
            if start <= end { (end - start + 1) as nat } else { 0 },
            |i: int| (start + i) as u16,
        ),
    }
}

/// The decoy addresses, read from their texts.
pub open spec fn decoy_addrs(decoys: Seq<String>) -> Seq<Ipv4Addr> {
    decoys.map_values(|d: String| ipv4_of_text(d@).unwrap())
}

/// The real source address: the first address of the interface.
pub open spec fn real_source(interface: Interface) -> Ipv4Addr {
    interface.ips@[0]->V4_0
}

/// The source addresses of a scan: the real one alone without decoys;
/// with decoys, the decoys in their order, followed by the real address
/// unless it is one of them.
pub open spec fn source_ips_of(args: ScannerArgs) -> Seq<Ipv4Addr> {
    match args.decoy {
        None => seq![real_source(args.interface)],
        Some(d) => if decoy_addrs(d@).contains(real_source(args.interface)) {
            decoy_addrs(d@)
        } else {
            decoy_addrs(d@).push(real_source(args.interface))
        },
    }
}

/// The arguments a scan can be planned from: the interface has an address
/// and its first is IPv4, and every decoy is a dotted-quad IPv4 address.
pub open spec fn scanner_args_ok(args: ScannerArgs) -> bool {
    &&& args.interface.ips@.len() > 0
    &&& args.interface.ips@[0] is V4
    &&& args.decoy matches Some(d) ==> forall|i: int|
        0 <= i < d@.len() ==> (#[trigger] ipv4_of_text(d@[i]@)) is Some
}

/// `s` is the plan that `args` describe.
pub open spec fn planned_from(s: Scanner, args: ScannerArgs) -> bool {
    &&& s.target == args.target
    &&& s.ports@ == ports_of(args.port)
    &&& s.source_ips@ == source_ips_of(args)
}

/// Every probe of a scan, in the order they are sent: for each port in
/// turn, one probe from each source address in turn.
pub open spec fn probe_schedule(target: Ipv4Addr, ports: Seq<u16>, sources: Seq<Ipv4Addr>) -> Seq<Probe> {
    Seq::new(
        ports.len() * sources.len(),
        |k: int| Probe { target, source: sources[k % sources.len() as int], port: ports[k / sources.len() as int] },
    )
}

/// The ports of a selection, as a vector.
fn port_list(p: IntOrRange) -> (r: Vec<u16>)
    ensures
        r@ == ports_of(p),
{
    match p {
        IntOrRange::Int(v) => {
            let mut r: Vec<u16> = Vec::new();
            r.push(v);
            assert(r@ =~= seq![v]);
            r
        },
        IntOrRange::Range(start, end) => {
            let mut r: Vec<u16> = Vec::new();
            if start > end {
                assert(r@ =~= ports_of(p));
                return r;
            }
            let mut q: u32 = start as u32;
            while q <= end as u32
                invariant
                    start <= end,
                    start as u32 <= q <= end as u32 + 1,
                    r@ == Seq::new((q - start) as nat, |i: int| (start + i) as u16),
                decreases end as u32 + 1 - q,
            {
                r.push(q as u16);
                q = q + 1;
                assert(r@ =~= Seq::new((q - start) as nat, |i: int| (start + i) as u16));
            }
            assert(r@ =~= ports_of(p));
            r
        },
    }
}

/// Whether `addr` is in `v`.
fn contains_addr(v: &Vec<Ipv4Addr>, addr: Ipv4Addr) -> (r: bool)
    ensures
        r == v@.contains(addr),
{
    let n = v.len();
    let mut i: usize = 0;
    while i < n
        invariant
            n == v@.len(),
            i <= n,
            forall|j: int| 0 <= j < i ==> v@[j] != addr,
        decreases n - i,
    {
        if v[i] == addr {
            assert(v@[i as int] == addr);
            return true;
        }
        i = i + 1;
    }
    false
}

/// The decoy addresses read from their texts.
fn parse_decoys(decoys: &Vec<String>) -> (r: Vec<Ipv4Addr>)
    requires
        forall|i: int| 0 <= i < decoys@.len() ==> (#[trigger] ipv4_of_text(decoys@[i]@)) is Some,
    ensures
        r@ == decoy_addrs(decoys@),
{
    let n = decoys.len();
    let mut r: Vec<Ipv4Addr> = Vec::new();
    let mut i: usize = 0;
    while i < n
        invariant
            n == decoys@.len(),
            i <= n,
            forall|j: int| 0 <= j < decoys@.len() ==> (#[trigger] ipv4_of_text(decoys@[j]@)) is Some,
            r@ == decoy_addrs(decoys@).take(i as int),
        decreases n - i,
    {
        let a = parse_ipv4(decoys[i].as_str());
        assert(ipv4_of_text(decoys@[i as int]@) is Some);
        r.push(a.unwrap());
        i = i + 1;
        assert(r@ =~= decoy_addrs(decoys@).take(i as int));
    }
    assert(decoy_addrs(decoys@).take(n as int) =~= decoy_addrs(decoys@));
    r
}

impl Scanner {
    /// Plans a scan from its arguments: the ports of the selection, the
    /// target, and the source addresses (the decoys, with the interface's
    /// real address added when it is not among them, so that replies come
    /// back to this machine).
    pub fn new(args: ScannerArgs) -> (s: Scanner)
        requires
            scanner_args_ok(args),
        ensures
            planned_from(s, args),
            s.source_ips@.contains(real_source(args.interface)),
    {
        let ports = port_list(args.port);
        let src = match args.interface.ips[0] {
            IpAddr::V4(ip) => ip,
            IpAddr::V6(_) => {
                assert(false);
                args.target
            },
        };
        let source_ips = match &args.decoy {
            Some(d) => {
                let mut v = parse_decoys(d);
                if !contains_addr(&v, src) {
                    v.push(src);
                    assert(v@.last() == src);
                    assert(v@.contains(src));
                }
                v
            },
            None => {
                let mut v: Vec<Ipv4Addr> = Vec::new();
                v.push(src);
                assert(v@ =~= seq![src]);
                assert(v@[0] == src);
                v
            },
        };
        Scanner { target: args.target, source_ips, ports }
    }

    /// Every probe of the scan, in the order they are sent: for each port in
    /// turn, one probe from each source address in turn.
    pub fn probes(&self) -> (r: Vec<Probe>)
        requires
            self.ports@.len() * self.source_ips@.len() <= usize::MAX,
        ensures
            r@ == probe_schedule(self.target, self.ports@, self.source_ips@),
    {
        let np = self.ports.len();
        let ns = self.source_ips.len();
        let ghost sched = probe_schedule(self.target, self.ports@, self.source_ips@);
        let mut r: Vec<Probe> = Vec::new();
        let mut i: usize = 0;
        while i < np
            invariant
                np == self.ports@.len(),
                ns == self.source_ips@.len(),
                np * ns <= usize::MAX,
                i <= np,
                sched == probe_schedule(self.target, self.ports@, self.source_ips@),
                r@ == sched.take(i * ns),
            decreases np - i,
        {
            let mut j: usize = 0;
            while j < ns
                invariant
                    np == self.ports@.len(),
                    ns == self.source_ips@.len(),
                    np * ns <= usize::MAX,
                    i < np,
                    j <= ns,
                    sched == probe_schedule(self.target, self.ports@, self.source_ips@),
                    r@ == sched.take(i * ns + j),
                decreases ns - j,
            {
                proof {
                    lemma_flat_index(i as int, j as int, np as int, ns as int);
                }
                r.push(Probe { target: self.target, source: self.source_ips[j], port: self.ports[i] });
                assert(r@ =~= sched.take(i * ns + j + 1));
                j = j + 1;
            }
            assert(i * ns + ns == (i + 1) * ns) by (nonlinear_arith);
            i = i + 1;
        }
        assert(sched.take(np * ns) =~= sched);
        r
    }
}

/// Position `i * ns + j` of a row-major `np` by `ns` layout is row `i`,
/// column `j`, and lies inside the layout.
proof fn lemma_flat_index(i: int, j: int, np: int, ns: int)
    requires
        0 <= i < np,
        0 <= j < ns,
    ensures
        (i * ns + j) / ns == i,
        (i * ns + j) % ns == j,
        0 <= i * ns + j < np * ns,
{
    lemma_fundamental_div_mod_converse(i * ns + j, ns, i, j);
    assert(i * ns + j < np * ns) by (nonlinear_arith)
        requires
            i < np,
            j < ns,
            0 <= i,
            0 <= j,
    {
    }
    assert(0 <= i * ns) by (nonlinear_arith)
        requires
            0 <= i,
            0 <= ns,
    {
    }
}

/// The line that reports a reply, when it says a port is open: the reply
/// `(open, address, port)` gives `Open port: address:port` when `open`,
/// nothing otherwise.
pub fn open_port_report(result: (bool, Ipv4Addr, u16)) -> (r: Option<String>)
    ensures
        result.0 ==> r is Some && r->Some_0@ == "Open port: "@ + dotted_text(result.1) + ":"@ + decimal_text(
            result.2 as nat,
        ),
        !result.0 ==> r is None,
{
    let (open, ip, port) = result;
    if !open {
        return None;
    }
    let mut line = String::from_str("Open port: ");
    line.append(ip.to_text().as_str());
    line.append(":");
    line.append(decimal_string(port as u32).as_str());
    Some(line)
}

/// With decoys, the source addresses are the decoys, in their order,
/// followed by at most one more address: the real one, added exactly when no
/// decoy is the real address. So the real address is always a source, and it
/// appears as often as among the decoys, or once when it is not among them.
pub proof fn lemma_sources_with_decoys(args: ScannerArgs, d: Vec<String>)
    requires
        args.decoy == Some(d),
    ensures
        source_ips_of(args).subrange(0, d@.len() as int) == decoy_addrs(d@),
        (exists|i: int| 0 <= i < d@.len() && decoy_addrs(d@)[i] == real_source(args.interface))
            ==> source_ips_of(args).len() == d@.len(),
        (forall|i: int| 0 <= i < d@.len() ==> decoy_addrs(d@)[i] != real_source(args.interface))
            ==> source_ips_of(args).len() == d@.len() + 1 && source_ips_of(args)[d@.len() as int]
            == real_source(args.interface),
        source_ips_of(args).contains(real_source(args.interface)),
{
    let v = decoy_addrs(d@);
    let src = real_source(args.interface);
    if exists|i: int| 0 <= i < d@.len() && v[i] == src {
        let i = choose|i: int| 0 <= i < d@.len() && v[i] == src;
        assert(v.contains(src));
        assert(source_ips_of(args).subrange(0, d@.len() as int) =~= v);
    } else {
        assert(!v.contains(src));
        assert(source_ips_of(args).subrange(0, d@.len() as int) =~= v);
        assert(source_ips_of(args)[d@.len() as int] == src);
    }
}

/// A range selection stands for exactly the ports from its start to its end,
/// both included, once each, in increasing order.
pub proof fn lemma_range_ports(start: u16, end: u16)
    requires
        start <= end,
    ensures
        ports_of(IntOrRange::Range(start, end)).len() == end - start + 1,
        ports_of(IntOrRange::Range(start, end))[0] == start,
        ports_of(IntOrRange::Range(start, end)).last() == end,
        forall|i: int, j: int|
            0 <= i < j < ports_of(IntOrRange::Range(start, end)).len() ==> #[trigger] ports_of(
                IntOrRange::Range(start, end),
            )[i] < #[trigger] ports_of(IntOrRange::Range(start, end))[j],
        forall|p: u16| start <= p <= end ==> #[trigger] ports_of(IntOrRange::Range(start, end)).contains(p),
{
    let ps = ports_of(IntOrRange::Range(start, end));
    assert forall|p: u16| start <= p <= end implies #[trigger] ps.contains(p) by {
        assert(ps[p - start] == p);
    }
}

/// Every port is probed from every source address exactly once: the probe at
/// position `i * sources.len() + j` goes to port `ports[i]` from source
/// `sources[j]`, and there are no others.
pub proof fn lemma_schedule_pairs(target: Ipv4Addr, ports: Seq<u16>, sources: Seq<Ipv4Addr>, i: int, j: int)
    requires
        0 <= i < ports.len(),
        0 <= j < sources.len(),
    ensures
        probe_schedule(target, ports, sources).len() == ports.len() * sources.len(),
        0 <= i * sources.len() + j < ports.len() * sources.len(),
        probe_schedule(target, ports, sources)[i * sources.len() + j]
            == (Probe { target, source: sources[j], port: ports[i] }),
{
    lemma_flat_index(i, j, ports.len() as int, sources.len() as int);
}

/// A port selection accepted from the command line never asks for port 0
/// and always names at least one port.
pub proof fn lemma_accepted_ports(text: Seq<char>, p: IntOrRange)
    requires
        port_spec_of(text) == Ok::<IntOrRange, PortSpecError>(p),
    ensures
        ports_of(p).len() >= 1,
        forall|i: int| 0 <= i < ports_of(p).len() ==> #[trigger] ports_of(p)[i] != 0,
{
}

} // verus!
