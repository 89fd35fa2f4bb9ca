//! Discovery of the host's local IP address and of its network interfaces.
//!
//! Each operating system family exposes its own kernel structures: Netlink
//! messages on Linux, the `getifaddrs` list on BSD-like systems, the adapter
//! table on Windows. The code that talks to the kernel hands the records it
//! reads to this library, which decodes them, filters them by address family,
//! and picks the primary address.
use vstd::prelude::*;

pub mod adapters;
pub mod addr;
pub mod error;
pub mod ifaddrs;
pub mod ifname;
pub mod netlink;
pub mod platform;

pub use adapters::LinkedListIter;
pub use addr::{IpAddr, SockAddr};
pub use error::Error;
pub use ifaddrs::AfInetInfo;
pub use ifname::parse_ifname;
pub use platform::{strategy_for, Strategy};

verus! {

} // verus!
