//! Hostname resolution for a private overlay network.
//!
//! Peers on the overlay resolve each other by short hostnames. The crate
//! holds the logic of that service: a hostname table mapping names to IPv4
//! addresses, a minimal DNS responder that answers single-question A-record
//! queries from the table, and a gossip codec through which peers announce
//! their own hostname/address facts to one another. Socket loops and
//! process glue live outside the library and hand it plain byte buffers.

pub mod addr;
pub mod bytes;
pub mod table;
pub mod simple_dns;
pub mod p2p;
pub mod dns;
