//! The choice of strategy by operating system.
use vstd::prelude::*;

use crate::error::Error;

verus! {

/// How the interfaces of a system are queried.
#[derive(Debug, Clone, Copy, PartialEq, Eq, Structural)]
pub enum Strategy {
    /// A Netlink routing socket (Linux).
    Netlink,
    /// The `getifaddrs` list (BSD-like systems, Android, iOS).
    GetIfAddrs,
    /// The adapter and routing tables of the IP helper API (Windows).
    AdapterTable,
}

/// The systems that expose the `getifaddrs` list.
pub open spec fn is_getifaddrs_os(os: Seq<char>) -> bool {
    os == "freebsd"@ || os == "openbsd"@ || os == "netbsd"@ || os == "dragonfly"@ || os
        == "macos"@ || os == "android"@ || os == "ios"@
}

/// The strategy for the named operating system (as Rust names them), or
/// `PlatformNotSupported` carrying that name.
pub fn strategy_for(os: &str) -> (r: Result<Strategy, Error>)
    ensures
        os@ == "linux"@ ==> r == Ok::<Strategy, Error>(Strategy::Netlink),
        is_getifaddrs_os(os@) ==> r == Ok::<Strategy, Error>(Strategy::GetIfAddrs),
        os@ == "windows"@ ==> r == Ok::<Strategy, Error>(Strategy::AdapterTable),
        !(os@ == "linux"@ || is_getifaddrs_os(os@) || os@ == "windows"@) ==> (r matches Err(
            Error::PlatformNotSupported(name),
        ) && name@ == os@),
{
    proof {
        reveal_strlit("linux");
        reveal_strlit("windows");
        reveal_strlit("freebsd");
        reveal_strlit("openbsd");
        reveal_strlit("netbsd");
        reveal_strlit("dragonfly");
        reveal_strlit("macos");
        reveal_strlit("android");
        reveal_strlit("ios");
        assert("linux"@[0] == 'l');
        assert("windows"@[0] == 'w');
        assert("freebsd"@[0] == 'f');
        assert("openbsd"@[0] == 'o');
        assert("netbsd"@[0] == 'n');
        assert("dragonfly"@[0] == 'd');
        assert("macos"@[0] == 'm');
        assert("android"@[0] == 'a');
        assert("ios"@[0] == 'i');
    }
    let name = os.to_owned();
    if name == String::from_str("linux") {
        Ok(Strategy::Netlink)
    } else if name == String::from_str("windows") {
        Ok(Strategy::AdapterTable)
    } else if name == String::from_str("freebsd") || name == String::from_str("openbsd")
        || name == String::from_str("netbsd") || name == String::from_str("dragonfly") || name
        == String::from_str("macos") || name == String::from_str("android") || name
        == String::from_str("ios") {
        Ok(Strategy::GetIfAddrs)
    } else {
        Err(Error::PlatformNotSupported(name))
    }
}

} // verus!
