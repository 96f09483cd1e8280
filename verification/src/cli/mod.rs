//! The command line: what the user asked for and what the program does with it.

pub mod utils;

use vstd::prelude::*;
use crate::cli::utils::IntOrRange;
use crate::net::{Interface, Ipv4Addr};
use crate::scanner::{planned_from, scanner_args_ok, Scanner};

verus! {

/// The arguments of a scan: target, ports, interface and optional decoys.
pub struct ScannerArgs {
    /// The target IPv4 address to scan.
    pub target: Ipv4Addr,
    /// The port or range of ports to scan.
    pub port: IntOrRange,
    /// The network interface to send from.
    pub interface: Interface,
    /// Decoy source addresses, as the user wrote them.
    pub decoy: Option<Vec<String>>,
}

/// What the user asked for on the command line.
pub struct Cli {
    /// The scan to run, when one was asked for.
    pub scanner_args: Option<ScannerArgs>,
    /// Whether to list the network interfaces and stop.
    pub interfaces: bool,
}

/// What the program does next.
pub enum Command {
    /// Print the machine's network interfaces.
    ListInterfaces,
    /// Run the planned scan.
    Scan(Scanner),
}

/// Routes the parsed command line: listing the interfaces when that was
/// asked for, else planning the scan from its arguments (which the argument
/// parser guarantees are present whenever the listing was not asked for).
pub fn init(c: Cli) -> (r: Command)
    requires
        c.interfaces || (c.scanner_args matches Some(a) && scanner_args_ok(a)),
    ensures
        c.interfaces ==> r is ListInterfaces,
        !c.interfaces ==> (r matches Command::Scan(s) && planned_from(s, c.scanner_args->Some_0)),
{
    if c.interfaces {
        return Command::ListInterfaces;
    }
    match c.scanner_args {
        Some(args) => Command::Scan(Scanner::new(args)),
        None => {
            assert(false);
            Command::ListInterfaces
        },
    }
}

} // verus!
