# pscan

A SYN port scanner. The library (`src/`) holds what the scanner decides and
what it shows, with contracts proved by Verus:

- `cli::utils`: reading the port selection (`80`, `1-443`), the target
  address and the interface name, with the exact messages shown on refusal;
- `net`: IPv4 addresses and network interfaces as plain values, and the
  dotted-quad grammar;
- `scanner`: the scan plan (ports, source addresses with decoys, the order of
  the probes), `scanner::packet` (the 40-byte IPv4/TCP SYN probe) and
  `scanner::receiver` (which captured packets report an open port),
  `scanner::checksum` (the Internet checksum, and why the probe's checksums verify);
- `cli::init`: what the program does with the parsed command line;
- the text shown to the user: the interface listing (`cli::utils::interface_lines`)
  and the `Open port:` lines (`scanner::open_port_report`).

`app/` is the program around it: clap, the raw sockets of `pnet`, the sender
and receiver threads, and the printing of the lines the library builds.
