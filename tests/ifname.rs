use local_ip_address::ifname::{ifa_name, parse_ifname};
use local_ip_address::Error;

#[test]
fn parse_ifname_without_nul() {
    let expected = "hello, world";
    let bytes = [104, 101, 108, 108, 111, 44, 32, 119, 111, 114, 108, 100];
    let res = parse_ifname(&bytes);
    assert!(res.is_ok());
    assert_eq!(res.unwrap(), expected);
}

#[test]
fn parse_ifname_with_nul() {
    let expected = "hello, world";
    let bytes = [104, 101, 108, 108, 111, 44, 32, 119, 111, 114, 108, 100, 0];
    let res = parse_ifname(&bytes);
    assert!(res.is_ok());
    assert_eq!(res.unwrap(), expected);
}

#[test]
fn parse_ifname_only_nul() {
    let expected = "";
    let bytes = [0u8];
    let res = parse_ifname(&bytes);
    assert!(res.is_ok());
    assert_eq!(res.unwrap(), expected);
}

#[test]
fn parse_ifname_eth0_plain_and_terminated() {
    assert_eq!(parse_ifname(b"eth0").unwrap(), "eth0");
    assert_eq!(parse_ifname(b"eth0\0").unwrap(), "eth0");
}

#[test]
fn parse_ifname_strips_only_one_nul() {
    // a second nul before the terminator is rejected, not stripped
    assert!(matches!(
        parse_ifname(b"eth0\0\0"),
        Err(Error::InvalidInterfaceName(_))
    ));
}

#[test]
fn parse_ifname_inner_nul_is_rejected() {
    assert!(matches!(
        parse_ifname(b"et\0h0\0"),
        Err(Error::InvalidInterfaceName(_))
    ));
}

#[test]
fn parse_ifname_nul_inside_unterminated_is_kept() {
    assert_eq!(parse_ifname(b"a\0b").unwrap(), "a\u{0}b");
}

#[test]
fn parse_ifname_empty() {
    assert_eq!(parse_ifname(b"").unwrap(), "");
}

#[test]
fn parse_ifname_rejects_invalid_utf8() {
    assert!(matches!(
        parse_ifname(&[0x65, 0xff, 0x30]),
        Err(Error::InvalidInterfaceName(_))
    ));
    assert!(matches!(
        parse_ifname(&[0x65, 0xff, 0x30, 0]),
        Err(Error::InvalidInterfaceName(_))
    ));
    assert!(matches!(parse_ifname(&[0xff]), Err(Error::InvalidInterfaceName(_))));
}

#[test]
fn parse_ifname_decodes_multibyte_utf8() {
    assert_eq!(parse_ifname("wlan\u{e9}".as_bytes()).unwrap(), "wlan\u{e9}");
}

#[test]
fn ifa_name_accepts_utf8() {
    assert_eq!(ifa_name(b"en0").unwrap(), "en0");
}

#[test]
fn ifa_name_rejects_invalid_utf8() {
    assert!(matches!(
        ifa_name(&[0x65, 0xff]),
        Err(Error::InvalidInterfaceName(_))
    ));
}
