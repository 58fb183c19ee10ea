//! Verified core of a low-latency game traffic accelerator.
//!
//! Game packets are carried over a UDP tunnel ("GameTunnel") on two paths at
//! once; each datagram starts with a 12-byte header (`protocol`). The receiving
//! end drops the copies it has already seen (`deduplicator`). The client
//! rewrites addresses to and from the tunnel's virtual address (`tunnel_nat`)
//! and recomputes Internet checksums (`checksum`), answers TCP data segments
//! with local ACKs (`fastconnect`), and picks out the game's traffic
//! (`intercept`, `config`, `watcher`). The decisions of both tunnel ends are
//! in `gateway`; sockets, devices and timers are left to the caller. The
//! desktop dashboard's API is routed in `dashboard`, and `diagnostics` builds
//! the traffic that checks a gateway end to end.
use vstd::prelude::*;

pub mod bytes;
pub mod checksum;
pub mod config;
pub mod dashboard;
pub mod deduplicator;
pub mod diagnostics;
pub mod fastconnect;
pub mod gateway;
pub mod intercept;
pub mod tunnel_nat;
pub mod protocol;
pub mod registry;
pub mod settings;
pub mod text;
pub mod watcher;

verus! {

} // verus!
