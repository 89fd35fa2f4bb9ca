//! Decoding of the interface-address list that BSD-like systems return from
//! `getifaddrs`, and the choice of the primary address from it. The caller
//! walks the kernel's list and hands over one record per node.
use vstd::prelude::*;
use vstd::utf8::{decode_utf8, valid_utf8};

use crate::addr::{
    ip_from_sockaddr, lemma_s_addr_octets, load_u32, s_addr_to_ipv4, spec_ip_from_sockaddr,
    u32_of_octets, IpAddr, SockAddr,
};
use crate::error::Error;
use crate::ifname::ifa_name;

verus! {

/// One node of the interface-address list.
pub struct IfAddrRecord {
    /// The interface name: the bytes before its nul terminator.
    pub name: Vec<u8>,
    /// The interface flags.
    pub flags: u32,
    /// The node's address; `None` where the node has none.
    pub addr: Option<SockAddr>,
}

/// An address of an interface, with the interface's name and whether it is
/// the loopback interface.
pub struct AfInetInfo {
    pub addr: IpAddr,
    pub iname: String,
    pub is_loopback: bool,
}

/// The view of an interface address: address, name, loopback.
pub type InfoView = (IpAddr, Seq<char>, bool);

pub open spec fn info_view(v: Seq<AfInetInfo>) -> Seq<InfoView> {
    v.map_values(|i: AfInetInfo| (i.addr, i.iname@, i.is_loopback))
}

/// What one node yields: nothing for a node without an IPv4 or IPv6 address,
/// an error (`Err(())`) for a name that is not UTF-8.
pub open spec fn record_info(r: IfAddrRecord, loopback_flag: u32, little_endian: bool) -> Result<
    Option<InfoView>,
    (),
> {
    match r.addr {
        None => Ok(None),
        Some(sa) => match spec_ip_from_sockaddr(sa, little_endian) {
            None => Ok(None),
            Some(ip) => if valid_utf8(r.name@) {
                Ok(Some((ip, decode_utf8(r.name@), r.flags & loopback_flag != 0)))
            } else {
                Err(())
            },
        },
    }
}

/// The interface addresses of a run of nodes, in list order, or `Err(())`
/// where a name fails to decode.
pub open spec fn records_info(rs: Seq<IfAddrRecord>, loopback_flag: u32, little_endian: bool) -> Result<
    Seq<InfoView>,
    (),
>
    decreases rs.len(),
{
    if rs.len() == 0 {
        Ok(Seq::empty())
    } else {
        match records_info(rs.drop_last(), loopback_flag, little_endian) {
            Err(()) => Err(()),
            Ok(t) => match record_info(rs.last(), loopback_flag, little_endian) {
                Err(()) => Err(()),
                Ok(None) => Ok(t),
                Ok(Some(e)) => Ok(t.push(e)),
            },
        }
    }
}

proof fn lemma_records_info_fails(
    rs: Seq<IfAddrRecord>,
    loopback_flag: u32,
    little_endian: bool,
    n: int,
)
    requires
        0 <= n <= rs.len(),
        records_info(rs.subrange(0, n), loopback_flag, little_endian) is Err,
    ensures
        records_info(rs, loopback_flag, little_endian) is Err,
    decreases rs.len() - n,
{
    if n < rs.len() {
        assert(rs.subrange(0, n + 1).drop_last() =~= rs.subrange(0, n));
        lemma_records_info_fails(rs, loopback_flag, little_endian, n + 1);
    } else {
        assert(rs.subrange(0, n) =~= rs);
    }
}

/// Decodes the nodes of the interface-address list into interface
/// addresses, in list order. Nodes without an address, or with an address of
/// another family, are skipped; an IPv4 address is decoded for the CPU's
/// byte order; a node is on the loopback interface when its flags hold a bit
/// of `loopback_flag`. A name that is not UTF-8 fails the whole decoding.
pub fn list_afinet_netifas_info(
    records: &Vec<IfAddrRecord>,
    loopback_flag: u32,
    little_endian: bool,
) -> (r: Result<Vec<AfInetInfo>, Error>)
    ensures
        match records_info(records@, loopback_flag, little_endian) {
            Ok(t) => r matches Ok(v) && info_view(v@) == t,
            Err(()) => r matches Err(Error::InvalidInterfaceName(_)),
        },
{
    let ghost rs = records@;
    let mut out: Vec<AfInetInfo> = Vec::new();
    let mut i: usize = 0;
    let n = records.len();
    assert(rs.subrange(0, 0) =~= Seq::<IfAddrRecord>::empty());
    assert(info_view(out@) =~= Seq::empty());
    while i < n
        invariant
            n == rs.len(),
            i <= n,
            rs == records@,
            records_info(rs.subrange(0, i as int), loopback_flag, little_endian) == Ok::<
                Seq<InfoView>,
                (),
            >(info_view(out@)),
        decreases n - i,
    {
        assert(rs.subrange(0, i + 1).drop_last() =~= rs.subrange(0, i as int));
        assert(rs.subrange(0, i + 1).last() == rs[i as int]);
        let ip = match &records[i].addr {
            None => None,
            Some(sa) => ip_from_sockaddr(sa, little_endian),
        };
        if let Some(ip) = ip {
            let flags = records[i].flags;
            match ifa_name(records[i].name.as_slice()) {
                Ok(iname) => {
                    let ghost before = out@;
                    let info = AfInetInfo { addr: ip, iname, is_loopback: flags & loopback_flag != 0 };
                    let ghost e = (info.addr, info.iname@, info.is_loopback);
                    out.push(info);
                    assert(info_view(out@) =~= info_view(before).push(e));
                },
                Err(e) => {
                    proof {
                        lemma_records_info_fails(rs, loopback_flag, little_endian, i + 1);
                    }
                    return Err(e);
                },
            }
        }
        i = i + 1;
    }
    assert(rs.subrange(0, n as int) =~= rs);
    Ok(out)
}

/// The interface list as (name, address) pairs, in the same order.
pub fn list_afinet_netifas(infos: &Vec<AfInetInfo>) -> (r: Vec<(String, IpAddr)>)
    ensures
        r@.len() == infos@.len(),
        forall|i: int|
            0 <= i < infos@.len() ==> r@[i].0@ == infos@[i].iname@ && r@[i].1 == infos@[i].addr,
{
    let mut out: Vec<(String, IpAddr)> = Vec::new();
    let mut i: usize = 0;
    while i < infos.len()
        invariant
            i <= infos@.len(),
            out@.len() == i,
            forall|j: int|
                0 <= j < i ==> out@[j].0@ == infos@[j].iname@ && out@[j].1 == infos@[j].addr,
        decreases infos@.len() - i,
    {
        out.push((infos[i].iname.clone(), infos[i].addr));
        i = i + 1;
    }
    out
}

/// Whether an address belongs to the requested family.
pub open spec fn of_family(a: IpAddr, v6: bool) -> bool {
    if v6 {
        a is V6
    } else {
        a is V4
    }
}

/// The first address, in list order, that is not on the loopback interface
/// and is of the requested family.
pub open spec fn first_non_loopback(t: Seq<InfoView>, v6: bool) -> Option<IpAddr>
    decreases t.len(),
{
    if t.len() == 0 {
        None
    } else if !t[0].2 && of_family(t[0].0, v6) {
        Some(t[0].0)
    } else {
        first_non_loopback(t.drop_first(), v6)
    }
}

/// Picks the local address: the first non-loopback address of the requested
/// family (IPv6 where `v6`, else IPv4), or `LocalIpAddressNotFound`.
pub fn select_local_ip(infos: &Vec<AfInetInfo>, v6: bool) -> (r: Result<IpAddr, Error>)
    ensures
        match first_non_loopback(info_view(infos@), v6) {
            Some(a) => r == Ok::<IpAddr, Error>(a),
            None => r matches Err(Error::LocalIpAddressNotFound),
        },
{
    let ghost t = info_view(infos@);
    let mut i: usize = 0;
    assert(t.subrange(0, t.len() as int) =~= t);
    while i < infos.len()
        invariant
            i <= infos@.len(),
            t == info_view(infos@),
            first_non_loopback(t, v6) == first_non_loopback(t.subrange(i as int, t.len() as int), v6),
        decreases infos@.len() - i,
    {
        assert(t.subrange(i as int, t.len() as int).drop_first() =~= t.subrange(i + 1, t.len() as int));
        let a = infos[i].addr;
        let fam = if v6 {
            a.is_ipv6()
        } else {
            a.is_ipv4()
        };
        if !infos[i].is_loopback && fam {
            return Ok(a);
        }
        i = i + 1;
    }
    Err(Error::LocalIpAddressNotFound)
}

/// Where the interface list holds an IPv4 address off the loopback
/// interface, the local address chosen when no family is asked for is an
/// IPv4 address.
pub proof fn lemma_selects_ipv4(t: Seq<InfoView>)
    requires
        exists|i: int| 0 <= i < t.len() && !t[i].2 && t[i].0 is V4,
    ensures
        first_non_loopback(t, false) matches Some(a) && a is V4,
    decreases t.len(),
{
    if !(!t[0].2 && t[0].0 is V4) {
        let i = choose|i: int| 0 <= i < t.len() && !t[i].2 && t[i].0 is V4;
        assert(i > 0);
        assert(t.drop_first()[i - 1] == t[i]);
        lemma_selects_ipv4(t.drop_first());
    }
}

/// A node with an IPv4 or IPv6 address makes the decoded list non-empty,
/// whenever decoding succeeds.
pub proof fn lemma_listing_nonempty(
    rs: Seq<IfAddrRecord>,
    loopback_flag: u32,
    little_endian: bool,
    k: int,
)
    requires
        0 <= k < rs.len(),
        rs[k].addr matches Some(sa) && !(sa is Other),
        records_info(rs, loopback_flag, little_endian) is Ok,
    ensures
        records_info(rs, loopback_flag, little_endian) matches Ok(t) && t.len() >= 1,
    decreases rs.len(),
{
    if k < rs.len() - 1 {
        assert(rs.drop_last()[k] == rs[k]);
        lemma_listing_nonempty(rs.drop_last(), loopback_flag, little_endian, k);
    }
}

/// Where decoding succeeds, a node whose IPv4 socket address holds the
/// octets `b0 b1 b2 b3` in memory (so that the CPU loads the field as `x`)
/// yields an entry with the node's name and the address with exactly those
/// octets: the field with its bytes reversed once on a little-endian CPU, and
/// unchanged on a big-endian one.
pub proof fn lemma_decoded_ipv4(
    rs: Seq<IfAddrRecord>,
    loopback_flag: u32,
    little_endian: bool,
    k: int,
    x: u32,
    b0: u8,
    b1: u8,
    b2: u8,
    b3: u8,
)
    requires
        0 <= k < rs.len(),
        rs[k].addr == Some(SockAddr::Inet { s_addr: x }),
        x == load_u32(b0, b1, b2, b3, little_endian),
        records_info(rs, loopback_flag, little_endian) is Ok,
    ensures
        records_info(rs, loopback_flag, little_endian) matches Ok(t) && exists|j: int|
            0 <= j < t.len() && t[j].0 == IpAddr::V4(s_addr_to_ipv4(x, little_endian)) && t[j].0
                == IpAddr::V4(u32_of_octets(b0, b1, b2, b3)) && t[j].1 == decode_utf8(rs[k].name@),
    decreases rs.len(),
{
    lemma_s_addr_octets(b0, b1, b2, b3, little_endian);
    let t = records_info(rs, loopback_flag, little_endian)->Ok_0;
    if k == rs.len() - 1 {
        let pre = records_info(rs.drop_last(), loopback_flag, little_endian)->Ok_0;
        assert(t == pre.push((IpAddr::V4(s_addr_to_ipv4(x, little_endian)), decode_utf8(rs[k].name@), rs[k].flags & loopback_flag != 0)));
        assert(t[pre.len() as int].0 == IpAddr::V4(s_addr_to_ipv4(x, little_endian)));
    } else {
        assert(rs.drop_last()[k] == rs[k]);
        lemma_decoded_ipv4(rs.drop_last(), loopback_flag, little_endian, k, x, b0, b1, b2, b3);
        let pre = records_info(rs.drop_last(), loopback_flag, little_endian)->Ok_0;
        let j = choose|j: int|
            0 <= j < pre.len() && pre[j].0 == IpAddr::V4(s_addr_to_ipv4(x, little_endian))
                && pre[j].0 == IpAddr::V4(u32_of_octets(b0, b1, b2, b3)) && pre[j].1 == decode_utf8(
                rs[k].name@,
            );
        assert(t[j] == pre[j]);
    }
}

} // verus!
