//! Deterministic network-diagram engine: the logic behind the simulated
//! protocols, the timeline documents, and the text and image encodings.
use vstd::prelude::*;

pub mod dh;
pub mod dialup;
pub mod dns;
pub mod encapsulation;
pub mod igp;
pub mod ipbits;
pub mod kitty;
pub mod anycast;
pub mod assets;
pub mod arp;
pub mod bandwidth;
pub mod bgp;
pub mod certchain;
pub mod checksum;
pub mod compact;
pub mod cli;
pub mod modem;
pub mod msgjourney;
pub mod linkclick;
pub mod mtu;
pub mod quic;
pub mod rank;
pub mod natsim;
pub mod netsim;
pub mod raster;
pub mod routerhop;
pub mod schedule;
pub mod story;
pub mod switchlearn;
pub mod tcp_handshake;
pub mod tcpsim;
pub mod tcpvsudp;
pub mod telegraph;
pub mod text;
pub mod tlshandshake;
pub mod timeline;
pub mod typography;
pub mod vpn;
pub mod wdm;

verus! {

} // verus!
