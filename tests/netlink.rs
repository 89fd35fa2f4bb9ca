use local_ip_address::netlink::{
    address_local, interfaces_from_addresses, link_names, route_probe, route_source, NlBody,
    NlPayload, NlResponse, RtAttr, AF_INET, AF_INET6, IFA_ADDRESS, IFA_LABEL, IFA_LOCAL,
    IFLA_IFNAME, RTA_DST, RTA_PREFSRC, RTM_NEWADDR, RTM_NEWLINK, RTM_NEWROUTE,
};
use local_ip_address::{Error, IpAddr};

const ENETUNREACH: i32 = 101;

fn attr(rta_type: u16, payload: &[u8]) -> RtAttr {
    RtAttr { rta_type, payload: payload.to_vec() }
}

fn msg(nl_type: u16, family: u8, scope: u8, index: i32, attrs: Vec<RtAttr>) -> NlResponse {
    NlResponse::Message {
        nl_type,
        payload: NlPayload::Body(NlBody { family, scope, index, attrs }),
    }
}

fn empty() -> NlResponse {
    NlResponse::Message { nl_type: 3, payload: NlPayload::Empty }
}

fn v6_bytes(x: u128) -> Vec<u8> {
    x.to_be_bytes().to_vec()
}

#[test]
fn route_prefsrc_ipv4() {
    let rs = vec![msg(
        RTM_NEWROUTE,
        AF_INET,
        0,
        0,
        vec![attr(RTA_DST, &[192, 0, 2, 0]), attr(RTA_PREFSRC, &[192, 168, 1, 10])],
    )];
    assert_eq!(
        route_source(AF_INET, &rs, ENETUNREACH),
        Ok(Some(IpAddr::V4(0xc0a8_010a)))
    );
}

#[test]
fn route_prefsrc_ipv6() {
    let a = 0xfd00_0000_0000_0000_0000_0000_0000_0042u128;
    let rs = vec![msg(RTM_NEWROUTE, AF_INET6, 0, 0, vec![attr(RTA_PREFSRC, &v6_bytes(a))])];
    assert_eq!(route_source(AF_INET6, &rs, ENETUNREACH), Ok(Some(IpAddr::V6(a))));
}

#[test]
fn route_unreachable_is_not_found() {
    let rs = vec![NlResponse::Failure { errno: Some(-101), text: String::from("unreachable") }];
    assert_eq!(
        route_source(AF_INET, &rs, ENETUNREACH),
        Err(Error::LocalIpAddressNotFound)
    );
}

#[test]
fn route_other_failure_is_strategy_error() {
    let rs = vec![NlResponse::Failure { errno: Some(-1), text: String::from("denied") }];
    assert!(matches!(
        route_source(AF_INET, &rs, ENETUNREACH),
        Err(Error::StrategyError(_))
    ));
    let rs = vec![NlResponse::Failure { errno: None, text: String::from("broken") }];
    assert!(matches!(
        route_source(AF_INET, &rs, ENETUNREACH),
        Err(Error::StrategyError(_))
    ));
}

#[test]
fn route_skips_empty_and_non_universe() {
    let rs = vec![
        empty(),
        msg(RTM_NEWROUTE, AF_INET, 253, 0, vec![attr(RTA_PREFSRC, &[127, 0, 0, 1])]),
        msg(RTM_NEWROUTE, AF_INET, 0, 0, vec![attr(RTA_PREFSRC, &[10, 0, 0, 7])]),
    ];
    assert_eq!(
        route_source(AF_INET, &rs, ENETUNREACH),
        Ok(Some(IpAddr::V4(0x0a00_0007)))
    );
}

#[test]
fn route_without_prefsrc_is_none() {
    let rs = vec![msg(RTM_NEWROUTE, AF_INET, 0, 0, vec![attr(RTA_DST, &[192, 0, 2, 0])])];
    assert_eq!(route_source(AF_INET, &rs, ENETUNREACH), Ok(None));
    assert_eq!(route_source(AF_INET, &Vec::new(), ENETUNREACH), Ok(None));
}

#[test]
fn route_wrong_type_family_or_payload_fails() {
    let rs = vec![msg(RTM_NEWADDR, AF_INET, 0, 0, vec![])];
    assert!(matches!(route_source(AF_INET, &rs, ENETUNREACH), Err(Error::StrategyError(_))));
    let rs = vec![msg(RTM_NEWROUTE, AF_INET6, 0, 0, vec![])];
    assert!(matches!(route_source(AF_INET, &rs, ENETUNREACH), Err(Error::StrategyError(_))));
    let rs = vec![msg(RTM_NEWROUTE, AF_INET, 0, 0, vec![attr(RTA_PREFSRC, &[1, 2])])];
    assert!(matches!(route_source(AF_INET, &rs, ENETUNREACH), Err(Error::StrategyError(_))));
    let rs = vec![NlResponse::Message { nl_type: RTM_NEWROUTE, payload: NlPayload::Ack }];
    assert!(matches!(route_source(AF_INET, &rs, ENETUNREACH), Err(Error::StrategyError(_))));
}

#[test]
fn route_first_decision_wins() {
    let rs = vec![
        msg(RTM_NEWROUTE, AF_INET, 0, 0, vec![attr(RTA_PREFSRC, &[10, 0, 0, 1])]),
        NlResponse::Failure { errno: None, text: String::from("late") },
    ];
    assert_eq!(
        route_source(AF_INET, &rs, ENETUNREACH),
        Ok(Some(IpAddr::V4(0x0a00_0001)))
    );
}

#[test]
fn address_local_finds_local_attribute() {
    let rs = vec![
        msg(RTM_NEWADDR, AF_INET, 254, 1, vec![attr(IFA_LOCAL, &[127, 0, 0, 1])]),
        msg(
            RTM_NEWADDR,
            AF_INET,
            0,
            2,
            vec![attr(IFA_ADDRESS, &[10, 0, 0, 9]), attr(IFA_LOCAL, &[172, 16, 0, 5])],
        ),
    ];
    assert_eq!(address_local(AF_INET, &rs), Ok(IpAddr::V4(0xac10_0005)));
}

#[test]
fn address_local_none_is_not_found() {
    let rs = vec![msg(RTM_NEWADDR, AF_INET, 0, 2, vec![attr(IFA_ADDRESS, &[10, 0, 0, 9])])];
    assert_eq!(address_local(AF_INET, &rs), Err(Error::LocalIpAddressNotFound));
    assert_eq!(address_local(AF_INET, &Vec::new()), Err(Error::LocalIpAddressNotFound));
}

#[test]
fn address_local_failure_is_strategy_error() {
    let rs = vec![NlResponse::Failure { errno: Some(-101), text: String::from("x") }];
    assert!(matches!(address_local(AF_INET, &rs), Err(Error::StrategyError(_))));
}

#[test]
fn link_table_from_dump() {
    let rs = vec![
        msg(RTM_NEWLINK, 0, 0, 1, vec![attr(IFLA_IFNAME, b"lo\0")]),
        empty(),
        msg(RTM_NEWLINK, 0, 0, 2, vec![attr(7, &[1]), attr(IFLA_IFNAME, b"eth0\0")]),
        msg(RTM_NEWLINK, 0, 0, 3, vec![]),
    ];
    let t = link_names(&rs).unwrap();
    assert_eq!(t, vec![(1, String::from("lo")), (2, String::from("eth0"))]);
}

#[test]
fn link_table_errors() {
    let rs = vec![msg(RTM_NEWADDR, 0, 0, 1, vec![])];
    assert!(matches!(link_names(&rs), Err(Error::StrategyError(_))));
    let rs = vec![msg(RTM_NEWLINK, 0, 0, 1, vec![attr(IFLA_IFNAME, b"e\0th0\0")])];
    assert!(matches!(link_names(&rs), Err(Error::InvalidInterfaceName(_))));
}

#[test]
fn addresses_joined_with_names() {
    let names = vec![(1, String::from("lo")), (2, String::from("eth0"))];
    let v6 = 0xfe80_0000_0000_0000_0000_0000_0000_0001u128;
    let rs = vec![
        msg(RTM_NEWADDR, AF_INET, 254, 1, vec![attr(IFA_ADDRESS, &[127, 0, 0, 1])]),
        msg(
            RTM_NEWADDR,
            AF_INET,
            0,
            2,
            vec![attr(IFA_LABEL, b"eth0:1\0"), attr(IFA_ADDRESS, &[10, 0, 0, 2])],
        ),
        msg(RTM_NEWADDR, AF_INET6, 253, 2, vec![attr(IFA_ADDRESS, &v6_bytes(v6))]),
        msg(RTM_NEWADDR, AF_INET, 0, 9, vec![attr(IFA_ADDRESS, &[10, 9, 9, 9])]),
        msg(RTM_NEWADDR, AF_INET, 0, 2, vec![]),
    ];
    let list = interfaces_from_addresses(&names, &rs).unwrap();
    assert_eq!(
        list,
        vec![
            (String::from("lo"), IpAddr::V4(0x7f00_0001)),
            (String::from("eth0:1"), IpAddr::V4(0x0a00_0002)),
            (String::from("eth0"), IpAddr::V6(v6)),
        ]
    );
}

#[test]
fn addresses_prefer_local_over_address() {
    let names = vec![(5, String::from("ppp0"))];
    let rs = vec![
        msg(
            RTM_NEWADDR,
            AF_INET,
            0,
            5,
            vec![attr(IFA_ADDRESS, &[10, 64, 0, 1]), attr(IFA_LOCAL, &[10, 64, 0, 2])],
        ),
        msg(
            RTM_NEWADDR,
            AF_INET,
            0,
            5,
            vec![attr(IFA_LOCAL, &[10, 64, 0, 3]), attr(IFA_ADDRESS, &[10, 64, 0, 4])],
        ),
    ];
    let list = interfaces_from_addresses(&names, &rs).unwrap();
    assert_eq!(
        list,
        vec![
            (String::from("ppp0"), IpAddr::V4(0x0a40_0002)),
            (String::from("ppp0"), IpAddr::V4(0x0a40_0003)),
        ]
    );
}

#[test]
fn addresses_later_name_for_index_wins() {
    let names = vec![(3, String::from("old")), (3, String::from("new"))];
    let rs = vec![msg(RTM_NEWADDR, AF_INET, 0, 3, vec![attr(IFA_ADDRESS, &[1, 2, 3, 4])])];
    let list = interfaces_from_addresses(&names, &rs).unwrap();
    assert_eq!(list, vec![(String::from("new"), IpAddr::V4(0x0102_0304))]);
}

#[test]
fn addresses_errors() {
    let names = vec![(1, String::from("lo"))];
    let rs = vec![msg(RTM_NEWADDR, 7, 0, 1, vec![])];
    assert!(matches!(interfaces_from_addresses(&names, &rs), Err(Error::StrategyError(_))));
    let rs = vec![msg(RTM_NEWADDR, AF_INET6, 0, 1, vec![attr(IFA_LOCAL, &[1, 2, 3, 4])])];
    assert!(matches!(interfaces_from_addresses(&names, &rs), Err(Error::StrategyError(_))));
    let rs = vec![msg(RTM_NEWADDR, AF_INET, 0, 1, vec![attr(IFA_LABEL, b"a\0b\0")])];
    assert!(matches!(
        interfaces_from_addresses(&names, &rs),
        Err(Error::InvalidInterfaceName(_))
    ));
    let rs = vec![NlResponse::Failure { errno: None, text: String::from("x") }];
    assert!(matches!(interfaces_from_addresses(&names, &rs), Err(Error::StrategyError(_))));
}

#[test]
fn probe_destinations() {
    assert_eq!(route_probe(AF_INET).unwrap(), vec![192, 0, 2, 0]);
    assert_eq!(route_probe(AF_INET6).unwrap(), v6_bytes(0x2001_0db8 << 96));
    assert!(matches!(route_probe(0), Err(Error::StrategyError(_))));
}
