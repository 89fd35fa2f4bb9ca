use local_ip_address::{strategy_for, Error, Strategy};

#[test]
fn supported_platforms() {
    assert_eq!(strategy_for("linux"), Ok(Strategy::Netlink));
    assert_eq!(strategy_for("windows"), Ok(Strategy::AdapterTable));
    for os in ["freebsd", "openbsd", "netbsd", "dragonfly", "macos", "android", "ios"] {
        assert_eq!(strategy_for(os), Ok(Strategy::GetIfAddrs));
    }
}

#[test]
fn unsupported_platform_carries_its_name() {
    assert_eq!(
        strategy_for("plan9"),
        Err(Error::PlatformNotSupported(String::from("plan9")))
    );
    assert_eq!(strategy_for(""), Err(Error::PlatformNotSupported(String::new())));
}
