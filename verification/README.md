# accelerator

A low-latency WAN accelerator for online games. The client picks out a game's
traffic, answers its TCP data segments with immediate local ACKs, rewrites the
addresses to a virtual tunnel address and sends every packet over two UDP paths
at once ("GameTunnel"); a gateway on a VPS drops the duplicate copies and
forwards the packets through a TUN device, and replicates the return traffic
back over both paths.

## Layout

- `src/` is the verified library (Verus). Each module states its behaviour as
  contracts over mathematical models and proves them:
  `protocol` (the 12-byte tunnel header), `deduplicator` (the 1024-packet
  sliding window), `checksum` (RFC 1071 checksums), `tunnel_nat` (address
  translation), `fastconnect` (local ACK synthesis), `intercept` (split
  tunnelling), `config` and `watcher` (game profiles and processes), `gateway`
  (the decisions of both tunnel ends), `registry` (TCP/IP tuning and its
  undoing), `settings`, `dashboard` (the control API) and `diagnostics`
  (end-to-end test traffic). Laws that span several calls, such as "a packet
  sent on both paths is delivered once" or "restoring puts every tuned
  registry value back", are public proof functions next to the code they are
  about.
- `app/` is the program around it: sockets, the TUN device, timers, files, the
  HTTP dashboard and the command line (`client`, `server`, `gui`,
  `mock-game`, `test-tunnel`).
- `tests/` exercises the library on concrete values.

## What is not included

The Windows-only I/O is not here: packet capture and injection through
WinDivert, the process snapshot and the IP Helper socket tables, the DSCP
socket option, and the registry. On other systems the program behaves as the
accelerator does there: packet capture stands by, the process scan reports a
fixed stand-in, and registry tuning changes nothing. What these Windows paths
decide is in the library nonetheless (`intercept::route_outbound`, the owner
table readers and `matching_pids` in `watcher`, `registry::tuning_plan` and
`restore_plan`), verified and tested, for a Windows front end to call.
