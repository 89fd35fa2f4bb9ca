use local_ip_address::adapters::{
    adapter_table_error, buffer_step, default_route_indices, list_afinet_netifas,
    list_local_ip_addresses, route_table_unavailable, select_first_of_family, Adapter, BufferStep,
    ForwardRow, ERROR_ADDRESS_NOT_ASSOCIATED, ERROR_BUFFER_OVERFLOW, ERROR_INSUFFICIENT_BUFFER,
    ERROR_NOT_SUPPORTED, ERROR_NO_DATA, ERROR_SUCCESS, IF_TYPE_SOFTWARE_LOOPBACK,
    MAX_BUFFER_ATTEMPTS,
};
use local_ip_address::{Error, IpAddr, LinkedListIter, SockAddr};

fn name(s: &str) -> Vec<u16> {
    s.encode_utf16().collect()
}

fn inet(octets: [u8; 4]) -> Option<SockAddr> {
    Some(SockAddr::Inet { s_addr: u32::from_le_bytes(octets) })
}

fn adapters() -> Vec<Adapter> {
    let mut o = [0u8; 16];
    o[0] = 0xfe;
    o[1] = 0x80;
    o[15] = 7;
    vec![
        Adapter {
            if_index: 1,
            if_type: IF_TYPE_SOFTWARE_LOOPBACK,
            friendly_name: name("Loopback Pseudo-Interface 1"),
            unicast: vec![inet([127, 0, 0, 1])],
        },
        Adapter {
            if_index: 12,
            if_type: 6,
            friendly_name: name("Ethernet"),
            unicast: vec![Some(SockAddr::Inet6 { s6_addr: o }), None, inet([192, 168, 0, 20])],
        },
        Adapter { if_index: 14, if_type: 71, friendly_name: name("Wi-Fi"), unicast: vec![inet([10, 0, 0, 3])] },
    ]
}

#[test]
fn default_routes_are_rows_to_zero() {
    let rows = vec![
        ForwardRow { dest: 0, if_index: 12 },
        ForwardRow { dest: 0x0000_a8c0, if_index: 12 },
        ForwardRow { dest: 0, if_index: 14 },
    ];
    assert_eq!(default_route_indices(&rows), vec![12, 14]);
}

#[test]
fn local_addresses_of_default_route_adapters() {
    let got = list_local_ip_addresses(Some(&vec![12]), adapters(), true);
    assert_eq!(
        got,
        vec![IpAddr::V6((0xfe80u128 << 112) | 7), IpAddr::V4(0xc0a8_0014)]
    );
    assert_eq!(select_first_of_family(&got, false), Ok(IpAddr::V4(0xc0a8_0014)));
    assert_eq!(select_first_of_family(&got, true), Ok(IpAddr::V6((0xfe80u128 << 112) | 7)));
}

#[test]
fn no_default_route_is_not_found() {
    let got = list_local_ip_addresses(Some(&Vec::new()), adapters(), true);
    assert!(got.is_empty());
    assert_eq!(select_first_of_family(&got, false), Err(Error::LocalIpAddressNotFound));
}

#[test]
fn without_routing_table_loopback_is_skipped() {
    let got = list_local_ip_addresses(None, adapters(), true);
    assert_eq!(
        got,
        vec![
            IpAddr::V6((0xfe80u128 << 112) | 7),
            IpAddr::V4(0xc0a8_0014),
            IpAddr::V4(0x0a00_0003),
        ]
    );
    assert_eq!(select_first_of_family(&got, false), Ok(IpAddr::V4(0xc0a8_0014)));
}

#[test]
fn listing_names_every_address() {
    let got = list_afinet_netifas(adapters(), true).unwrap();
    assert_eq!(
        got,
        vec![
            (String::from("Loopback Pseudo-Interface 1"), IpAddr::V4(0x7f00_0001)),
            (String::from("Ethernet"), IpAddr::V6((0xfe80u128 << 112) | 7)),
            (String::from("Ethernet"), IpAddr::V4(0xc0a8_0014)),
            (String::from("Wi-Fi"), IpAddr::V4(0x0a00_0003)),
        ]
    );
}

#[test]
fn listing_rejects_unpaired_surrogates() {
    let a = Adapter { if_index: 2, if_type: 6, friendly_name: vec![0x45, 0xd800], unicast: vec![inet([1, 1, 1, 1])] };
    assert!(matches!(
        list_afinet_netifas(vec![a], true),
        Err(Error::InvalidInterfaceName(_))
    ));
}

#[test]
fn listing_decodes_surrogate_pairs() {
    let a = Adapter {
        if_index: 2,
        if_type: 6,
        friendly_name: "net\u{1F310}".encode_utf16().collect(),
        unicast: vec![inet([1, 1, 1, 1])],
    };
    let got = list_afinet_netifas(vec![a], true).unwrap();
    assert_eq!(got, vec![(String::from("net\u{1F310}"), IpAddr::V4(0x0101_0101))]);
}

#[test]
fn listing_ignores_name_of_adapter_without_addresses() {
    let a = Adapter { if_index: 3, if_type: 6, friendly_name: vec![0xdc00], unicast: vec![None] };
    assert_eq!(list_afinet_netifas(vec![a], true).unwrap(), Vec::new());
}

#[test]
fn buffer_retries_are_bounded() {
    assert!(matches!(buffer_step(ERROR_SUCCESS, ERROR_BUFFER_OVERFLOW, 0), BufferStep::Done));
    assert!(matches!(buffer_step(ERROR_BUFFER_OVERFLOW, ERROR_BUFFER_OVERFLOW, 0), BufferStep::Grow));
    assert!(matches!(
        buffer_step(ERROR_BUFFER_OVERFLOW, ERROR_BUFFER_OVERFLOW, MAX_BUFFER_ATTEMPTS - 1),
        BufferStep::Fail
    ));
    assert!(matches!(
        buffer_step(ERROR_INSUFFICIENT_BUFFER, ERROR_BUFFER_OVERFLOW, 0),
        BufferStep::Fail
    ));
    assert!(matches!(
        buffer_step(ERROR_INSUFFICIENT_BUFFER, ERROR_INSUFFICIENT_BUFFER, 2),
        BufferStep::Grow
    ));
}

#[test]
fn table_error_mapping() {
    assert!(route_table_unavailable(ERROR_NO_DATA));
    assert!(route_table_unavailable(ERROR_NOT_SUPPORTED));
    assert!(!route_table_unavailable(5));
    assert_eq!(
        adapter_table_error(ERROR_ADDRESS_NOT_ASSOCIATED, String::from("m")),
        Error::LocalIpAddressNotFound
    );
    assert_eq!(adapter_table_error(ERROR_NO_DATA, String::from("m")), Error::LocalIpAddressNotFound);
    assert_eq!(
        adapter_table_error(ERROR_NOT_SUPPORTED, String::from("m")),
        Error::StrategyError(String::from("m"))
    );
}

#[test]
fn linked_list_iter_walks_from_head() {
    let mut it = LinkedListIter::new(vec![1u32, 2, 3]);
    assert_eq!(it.next(), Some(1));
    assert_eq!(it.next(), Some(2));
    assert_eq!(it.next(), Some(3));
    assert_eq!(it.next(), None);
    assert_eq!(it.next(), None);
}
