//! A DHCP protocol engine: the BOOTP/DHCP wire-format codec, the server
//! allocation engine with its lease storage, and the client negotiation
//! state machine.
//!
//! The transport (UDP sockets on ports 67 and 68), the ARP conflict probe
//! and all other I/O live outside this crate; the engines here consume and
//! produce plain values and are verified.

pub mod codec;
pub mod lease;
pub mod storage;
pub mod server;
pub mod client;
