//! Platform-independent building blocks for networking code.
//!
//! The crate models Internet addresses — IPv4, IPv6 and their socket
//! (address + port) variants — with exact textual parsing, canonical
//! rendering and classification, together with small capability traits
//! that let libraries stay generic over the I/O and name-resolution
//! stack they run on.

pub mod io;
pub mod net;
