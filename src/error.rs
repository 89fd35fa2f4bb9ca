use vstd::prelude::*;

verus! {

/// The ways a query for the local address or the interface list can fail.
#[derive(Debug, PartialEq, Eq)]
pub enum Error {
    /// No address in the interface list or routing table qualifies.
    LocalIpAddressNotFound,
    /// The platform query failed; the text carries what the system reported.
    StrategyError(String),
    /// No strategy exists for the named operating system.
    PlatformNotSupported(String),
    /// An interface name could not be decoded as text.
    InvalidInterfaceName(String),
}

} // verus!
