//! A SOCKS5 client: what it sends to a proxy, and what it makes of the answers.
//!
//! [`stream`] holds connections and listeners, [`datagram`] holds datagram clients, and
//! [`handshake`] the exchange that opens either. [`reply`] and [`wire`] read and write the messages
//! and the addresses in them. No part of the library touches a socket: sockets are type
//! parameters, and bytes go in and out as values.
pub mod addr;
pub mod bytes;
pub mod datagram;
pub mod error;
pub mod handshake;
pub mod reply;
pub mod stream;
pub mod wire;

pub use crate::addr::{SocketAddr, SocketAddrV4, SocketAddrV6, TargetAddr};
pub use crate::datagram::Socks5Datagram;
pub use crate::error::{Error, ErrorKind, Fault};
pub use crate::handshake::{Handshake, Step, MAX_HEADER_LEN};
pub use crate::stream::{Socks5Listener, Socks5Stream};
pub use crate::wire::MAX_ADDR_LEN;
