//! Decisions of the Linux strategy, which talks to the kernel over a Netlink
//! routing socket. The caller sends the requests and hands each response over
//! as plain values; the functions here decide what the responses mean.
use vstd::prelude::*;

use crate::addr::{be_value, read_be, read_be_u32, IpAddr};
use crate::error::Error;
use crate::ifname::{parse_ifname, spec_parse_ifname};

verus! {

/// Address family of IPv4 on Linux.
pub const AF_INET: u8 = 2;

/// Address family of IPv6 on Linux.
pub const AF_INET6: u8 = 10;

/// Message type of a link description.
pub const RTM_NEWLINK: u16 = 16;

/// Message type of an address description.
pub const RTM_NEWADDR: u16 = 20;

/// Message type of a route description.
pub const RTM_NEWROUTE: u16 = 24;

/// The scope of an address or route that reaches beyond the host.
pub const RT_SCOPE_UNIVERSE: u8 = 0;

/// Route attribute: the destination.
pub const RTA_DST: u16 = 1;

/// Route attribute: the preferred source address.
pub const RTA_PREFSRC: u16 = 7;

/// Address attribute: the address (the peer's, on a point-to-point link).
pub const IFA_ADDRESS: u16 = 1;

/// Address attribute: the address assigned to the interface.
pub const IFA_LOCAL: u16 = 2;

/// Address attribute: the interface label of the address.
pub const IFA_LABEL: u16 = 3;

/// Link attribute: the interface name.
pub const IFLA_IFNAME: u16 = 3;

/// A typed attribute of a routing message.
pub struct RtAttr {
    pub rta_type: u16,
    pub payload: Vec<u8>,
}

/// The fixed header fields of a routing message that the decisions read,
/// with its attributes. `index` is the interface index of address and link
/// messages.
pub struct NlBody {
    pub family: u8,
    pub scope: u8,
    pub index: i32,
    pub attrs: Vec<RtAttr>,
}

/// The payload of a received message.
pub enum NlPayload {
    /// No payload.
    Empty,
    /// An acknowledgement, or anything else that is not a message body.
    Ack,
    /// The body of a link, address or route message.
    Body(NlBody),
}

/// One item read from the routing socket.
pub enum NlResponse {
    /// Reading failed. `errno` is the (negative) code of an error message
    /// sent by the kernel, when that is what arrived.
    Failure { errno: Option<i32>, text: String },
    /// A message with its type.
    Message { nl_type: u16, payload: NlPayload },
}

/// The kinds of failure, as the contracts speak of them.
pub enum Fault {
    NotFound,
    Strategy,
    Name,
}

pub open spec fn is_fault(e: Error, f: Fault) -> bool {
    match f {
        Fault::NotFound => e is LocalIpAddressNotFound,
        Fault::Strategy => e is StrategyError,
        Fault::Name => e is InvalidInterfaceName,
    }
}

/// What one response, or a run of them, decides in a search for one address.
pub enum Scan {
    /// Nothing yet: go on reading.
    Continue,
    /// The address is found.
    Found(IpAddr),
    /// The search ends with this failure.
    Fail(Fault),
}

pub open spec fn scan_result(s: Scan, r: Result<Option<IpAddr>, Error>) -> bool {
    match s {
        Scan::Continue => r == Ok::<Option<IpAddr>, Error>(None),
        Scan::Found(a) => r == Ok::<Option<IpAddr>, Error>(Some(a)),
        Scan::Fail(f) => r matches Err(e) && is_fault(e, f),
    }
}

/// The address an attribute payload holds for the given family: the first
/// four bytes, big-endian, for IPv4; the first sixteen otherwise.
pub open spec fn payload_ip(family: u8, p: Seq<u8>) -> Option<IpAddr> {
    if family == AF_INET {
        if p.len() >= 4 {
            Some(IpAddr::V4(be_value(p.subrange(0, 4)) as u32))
        } else {
            None
        }
    } else if p.len() >= 16 {
        Some(IpAddr::V6(be_value(p.subrange(0, 16)) as u128))
    } else {
        None
    }
}

fn decode_payload_ip(family: u8, p: &Vec<u8>) -> (r: Option<IpAddr>)
    ensures
        r == payload_ip(family, p@),
{
    if family == AF_INET {
        if p.len() >= 4 {
            Some(IpAddr::V4(read_be_u32(p.as_slice())))
        } else {
            None
        }
    } else if p.len() >= 16 {
        Some(IpAddr::V6(read_be(p.as_slice(), 16)))
    } else {
        None
    }
}

/// The first attribute of type `t`.
pub open spec fn first_attr(attrs: Seq<RtAttr>, t: u16) -> Option<RtAttr>
    decreases attrs.len(),
{
    if attrs.len() == 0 {
        None
    } else if attrs[0].rta_type == t {
        Some(attrs[0])
    } else {
        first_attr(attrs.drop_first(), t)
    }
}

fn find_attr(attrs: &Vec<RtAttr>, t: u16) -> (r: Option<usize>)
    ensures
        match r {
            Some(i) => i < attrs@.len() && first_attr(attrs@, t) == Some(attrs@[i as int]),
            None => first_attr(attrs@, t) is None,
        },
{
    let mut i: usize = 0;
    assert(attrs@.subrange(0, attrs@.len() as int) =~= attrs@);
    while i < attrs.len()
        invariant
            i <= attrs@.len(),
            first_attr(attrs@, t) == first_attr(attrs@.subrange(i as int, attrs@.len() as int), t),
        decreases attrs@.len() - i,
    {
        if attrs[i].rta_type == t {
            return Some(i);
        }
        assert(attrs@.subrange(i as int, attrs@.len() as int).drop_first() =~= attrs@.subrange(
            i + 1,
            attrs@.len() as int,
        ));
        i = i + 1;
    }
    None
}

/// What one response to the route lookup decides.
pub open spec fn route_step(family: u8, r: NlResponse, unreachable: i32) -> Scan {
    match r {
        NlResponse::Failure { errno, .. } => if errno == Some((-unreachable) as i32) && unreachable
            != i32::MIN {
            Scan::Fail(Fault::NotFound)
        } else {
            Scan::Fail(Fault::Strategy)
        },
        NlResponse::Message { nl_type, payload } => match payload {
            NlPayload::Empty => Scan::Continue,
            NlPayload::Ack => Scan::Fail(Fault::Strategy),
            NlPayload::Body(b) => if nl_type != RTM_NEWROUTE {
                Scan::Fail(Fault::Strategy)
            } else if b.scope != RT_SCOPE_UNIVERSE {
                Scan::Continue
            } else if b.family != family {
                Scan::Fail(Fault::Strategy)
            } else {
                match first_attr(b.attrs@, RTA_PREFSRC) {
                    None => Scan::Continue,
                    Some(a) => match payload_ip(family, a.payload@) {
                        Some(ip) => Scan::Found(ip),
                        None => Scan::Fail(Fault::Strategy),
                    },
                }
            },
        },
    }
}

/// The two searches for one address: the route lookup, and the address
/// request that serves as its fallback.
pub enum Lookup {
    Route { family: u8, unreachable: i32 },
    Local { family: u8 },
}

pub open spec fn lookup_step(q: Lookup, r: NlResponse) -> Scan {
    match q {
        Lookup::Route { family, unreachable } => route_step(family, r, unreachable),
        Lookup::Local { family } => local_step(family, r),
    }
}

/// The first decision among the responses, in the order they came.
pub open spec fn scan(q: Lookup, rs: Seq<NlResponse>) -> Scan
    decreases rs.len(),
{
    if rs.len() == 0 {
        Scan::Continue
    } else {
        match scan(q, rs.drop_last()) {
            Scan::Continue => lookup_step(q, rs.last()),
            s => s,
        }
    }
}

fn unexpected_type() -> (e: Error)
    ensures
        e is StrategyError,
{
    Error::StrategyError(String::from_str("the Netlink message type is not the expected one"))
}

fn missing_payload() -> (e: Error)
    ensures
        e is StrategyError,
{
    Error::StrategyError(String::from_str("the Netlink message carries no payload"))
}

fn bad_attribute() -> (e: Error)
    ensures
        e is StrategyError,
{
    Error::StrategyError(String::from_str("a Netlink attribute payload is malformed"))
}

fn bad_family() -> (e: Error)
    ensures
        e is StrategyError,
{
    Error::StrategyError(String::from_str("the Netlink message has an unexpected address family"))
}

fn read_failure(text: &String) -> (e: Error)
    ensures
        e is StrategyError,
{
    let mut msg = String::from_str("reading the Netlink socket failed: ");
    msg.append(text.as_str());
    Error::StrategyError(msg)
}

fn route_response(family: u8, r: &NlResponse, unreachable: i32) -> (out: Result<
    Option<IpAddr>,
    Error,
>)
    ensures
        scan_result(route_step(family, *r, unreachable), out),
{
    match r {
        NlResponse::Failure { errno, text } => {
            if let Some(e) = errno {
                if unreachable != i32::MIN && *e == -unreachable {
                    return Err(Error::LocalIpAddressNotFound);
                }
            }
            Err(read_failure(text))
        },
        NlResponse::Message { nl_type, payload } => match payload {
            NlPayload::Empty => Ok(None),
            NlPayload::Ack => Err(missing_payload()),
            NlPayload::Body(b) => {
                if *nl_type != RTM_NEWROUTE {
                    Err(unexpected_type())
                } else if b.scope != RT_SCOPE_UNIVERSE {
                    Ok(None)
                } else if b.family != family {
                    Err(bad_family())
                } else {
                    match find_attr(&b.attrs, RTA_PREFSRC) {
                        None => Ok(None),
                        Some(i) => match decode_payload_ip(family, &b.attrs[i].payload) {
                            Some(ip) => Ok(Some(ip)),
                            None => Err(bad_attribute()),
                        },
                    }
                }
            },
        },
    }
}

/// Reads the responses to a route lookup toward a probe destination
/// (`route_probe`) and returns the preferred source address the kernel
/// chose: `Ok(None)` where no response names one, `LocalIpAddressNotFound`
/// where the kernel reports the network unreachable (`unreachable` is the
/// platform's positive errno value for that), and a strategy failure for a
/// response that is not a well-formed route of the family.
pub fn route_source(family: u8, responses: &Vec<NlResponse>, unreachable: i32) -> (r: Result<
    Option<IpAddr>,
    Error,
>)
    ensures
        scan_result(scan((Lookup::Route { family, unreachable }), responses@), r),
{
    let ghost q = Lookup::Route { family, unreachable };
    let mut i: usize = 0;
    assert(responses@.subrange(0, 0) =~= Seq::<NlResponse>::empty());
    while i < responses.len()
        invariant
            i <= responses@.len(),
            q == (Lookup::Route { family, unreachable }),
            scan(q, responses@.subrange(0, i as int)) is Continue,
        decreases responses@.len() - i,
    {
        let out = route_response(family, &responses[i], unreachable);
        assert(responses@.subrange(0, i + 1).drop_last() =~= responses@.subrange(0, i as int));
        assert(scan(q, responses@.subrange(0, i + 1)) == lookup_step(q, responses@[i as int]));
        if !matches!(out, Ok(None)) {
            proof {
                lemma_scan_prefix_stops(q, responses@, i + 1);
            }
            return out;
        }
        i = i + 1;
    }
    assert(responses@.subrange(0, i as int) =~= responses@);
    Ok(None)
}

/// Once a prefix of the responses has decided, the whole run decides the same.
proof fn lemma_scan_prefix_stops(q: Lookup, rs: Seq<NlResponse>, n: int)
    requires
        0 <= n <= rs.len(),
        !(scan(q, rs.subrange(0, n)) is Continue),
    ensures
        scan(q, rs) == scan(q, rs.subrange(0, n)),
    decreases rs.len() - n,
{
    if n < rs.len() {
        assert(rs.subrange(0, n + 1).drop_last() =~= rs.subrange(0, n));
        lemma_scan_prefix_stops(q, rs, n + 1);
    } else {
        assert(rs.subrange(0, n) =~= rs);
    }
}

/// What one response to the address request of the fallback decides.
pub open spec fn local_step(family: u8, r: NlResponse) -> Scan {
    match r {
        NlResponse::Failure { .. } => Scan::Fail(Fault::Strategy),
        NlResponse::Message { nl_type, payload } => match payload {
            NlPayload::Empty => Scan::Continue,
            NlPayload::Ack => Scan::Fail(Fault::Strategy),
            NlPayload::Body(b) => if nl_type != RTM_NEWADDR {
                Scan::Fail(Fault::Strategy)
            } else if b.scope != RT_SCOPE_UNIVERSE {
                Scan::Continue
            } else if b.family != family {
                Scan::Fail(Fault::Strategy)
            } else {
                match first_attr(b.attrs@, IFA_LOCAL) {
                    None => Scan::Continue,
                    Some(a) => match payload_ip(family, a.payload@) {
                        Some(ip) => Scan::Found(ip),
                        None => Scan::Fail(Fault::Strategy),
                    },
                }
            },
        },
    }
}

fn local_response(family: u8, r: &NlResponse) -> (out: Result<Option<IpAddr>, Error>)
    ensures
        scan_result(local_step(family, *r), out),
{
    match r {
        NlResponse::Failure { text, .. } => Err(read_failure(text)),
        NlResponse::Message { nl_type, payload } => match payload {
            NlPayload::Empty => Ok(None),
            NlPayload::Ack => Err(missing_payload()),
            NlPayload::Body(b) => {
                if *nl_type != RTM_NEWADDR {
                    Err(unexpected_type())
                } else if b.scope != RT_SCOPE_UNIVERSE {
                    Ok(None)
                } else if b.family != family {
                    Err(bad_family())
                } else {
                    match find_attr(&b.attrs, IFA_LOCAL) {
                        None => Ok(None),
                        Some(i) => match decode_payload_ip(family, &b.attrs[i].payload) {
                            Some(ip) => Ok(Some(ip)),
                            None => Err(bad_attribute()),
                        },
                    }
                }
            },
        },
    }
}

/// Reads the responses to a request for the addresses of one family, the
/// fallback when the route lookup named no source, and returns the first
/// assigned address of universe scope; `LocalIpAddressNotFound` where there
/// is none, a strategy failure for a response that is not a well-formed
/// address message of the family.
pub fn address_local(family: u8, responses: &Vec<NlResponse>) -> (r: Result<IpAddr, Error>)
    ensures
        match scan((Lookup::Local { family }), responses@) {
            Scan::Continue => r matches Err(Error::LocalIpAddressNotFound),
            Scan::Found(a) => r == Ok::<IpAddr, Error>(a),
            Scan::Fail(f) => r matches Err(e) && is_fault(e, f),
        },
{
    let ghost q = Lookup::Local { family };
    let mut i: usize = 0;
    assert(responses@.subrange(0, 0) =~= Seq::<NlResponse>::empty());
    while i < responses.len()
        invariant
            i <= responses@.len(),
            q == (Lookup::Local { family }),
            scan(q, responses@.subrange(0, i as int)) is Continue,
        decreases responses@.len() - i,
    {
        let out = local_response(family, &responses[i]);
        assert(responses@.subrange(0, i + 1).drop_last() =~= responses@.subrange(0, i as int));
        assert(scan(q, responses@.subrange(0, i + 1)) == lookup_step(q, responses@[i as int]));
        match out {
            Ok(None) => {},
            Ok(Some(a)) => {
                proof {
                    lemma_scan_prefix_stops(q, responses@, i + 1);
                }
                return Ok(a);
            },
            Err(e) => {
                proof {
                    lemma_scan_prefix_stops(q, responses@, i + 1);
                }
                return Err(e);
            },
        }
        i = i + 1;
    }
    assert(responses@.subrange(0, i as int) =~= responses@);
    Err(Error::LocalIpAddressNotFound)
}

/// The view of an index-to-name table.
pub open spec fn names_view(v: Seq<(i32, String)>) -> Seq<(i32, Seq<char>)> {
    v.map_values(|p: (i32, String)| (p.0, p.1@))
}

/// The view of a list of named addresses.
pub open spec fn entries_view(v: Seq<(String, IpAddr)>) -> Seq<(Seq<char>, IpAddr)> {
    v.map_values(|p: (String, IpAddr)| (p.0@, p.1))
}

/// What one response to the link dump adds to the index-to-name table.
pub open spec fn link_step(r: NlResponse) -> Result<Option<(i32, Seq<char>)>, Fault> {
    match r {
        NlResponse::Failure { .. } => Err(Fault::Strategy),
        NlResponse::Message { nl_type, payload } => match payload {
            NlPayload::Empty => Ok(None),
            NlPayload::Ack => Err(Fault::Strategy),
            NlPayload::Body(b) => if nl_type != RTM_NEWLINK {
                Err(Fault::Strategy)
            } else {
                match first_attr(b.attrs@, IFLA_IFNAME) {
                    None => Ok(None),
                    Some(a) => match spec_parse_ifname(a.payload@) {
                        Some(t) => Ok(Some((b.index, t))),
                        None => Err(Fault::Name),
                    },
                }
            },
        },
    }
}

/// The index-to-name table that a run of link responses builds, or the first
/// failure among them.
pub open spec fn link_table(rs: Seq<NlResponse>) -> Result<Seq<(i32, Seq<char>)>, Fault>
    decreases rs.len(),
{
    if rs.len() == 0 {
        Ok(Seq::empty())
    } else {
        match link_table(rs.drop_last()) {
            Err(f) => Err(f),
            Ok(t) => match link_step(rs.last()) {
                Err(f) => Err(f),
                Ok(None) => Ok(t),
                Ok(Some(e)) => Ok(t.push(e)),
            },
        }
    }
}

proof fn lemma_link_table_fails(rs: Seq<NlResponse>, n: int)
    requires
        0 <= n <= rs.len(),
        link_table(rs.subrange(0, n)) is Err,
    ensures
        link_table(rs) == link_table(rs.subrange(0, n)),
    decreases rs.len() - n,
{
    if n < rs.len() {
        assert(rs.subrange(0, n + 1).drop_last() =~= rs.subrange(0, n));
        lemma_link_table_fails(rs, n + 1);
    } else {
        assert(rs.subrange(0, n) =~= rs);
    }
}

fn link_response(r: &NlResponse) -> (out: Result<Option<(i32, String)>, Error>)
    ensures
        match link_step(*r) {
            Ok(None) => out matches Ok(None),
            Ok(Some(e)) => out matches Ok(Some(p)) && p.0 == e.0 && p.1@ == e.1,
            Err(f) => out matches Err(e) && is_fault(e, f),
        },
{
    match r {
        NlResponse::Failure { text, .. } => Err(read_failure(text)),
        NlResponse::Message { nl_type, payload } => match payload {
            NlPayload::Empty => Ok(None),
            NlPayload::Ack => Err(missing_payload()),
            NlPayload::Body(b) => {
                if *nl_type != RTM_NEWLINK {
                    Err(unexpected_type())
                } else {
                    match find_attr(&b.attrs, IFLA_IFNAME) {
                        None => Ok(None),
                        Some(i) => match parse_ifname(b.attrs[i].payload.as_slice()) {
                            Ok(name) => Ok(Some((b.index, name))),
                            Err(e) => Err(e),
                        },
                    }
                }
            },
        },
    }
}

/// Reads the responses to a dump of all links into a table from interface
/// index to interface name, in the order the kernel listed them; fails on
/// the first response that is not a well-formed link message, or whose name
/// cannot be parsed.
pub fn link_names(responses: &Vec<NlResponse>) -> (r: Result<Vec<(i32, String)>, Error>)
    ensures
        match link_table(responses@) {
            Ok(t) => r matches Ok(v) && names_view(v@) == t,
            Err(f) => r matches Err(e) && is_fault(e, f),
        },
{
    let mut table: Vec<(i32, String)> = Vec::new();
    let mut i: usize = 0;
    assert(responses@.subrange(0, 0) =~= Seq::<NlResponse>::empty());
    assert(names_view(table@) =~= Seq::empty());
    while i < responses.len()
        invariant
            i <= responses@.len(),
            link_table(responses@.subrange(0, i as int)) == Ok::<
                Seq<(i32, Seq<char>)>,
                Fault,
            >(names_view(table@)),
        decreases responses@.len() - i,
    {
        let out = link_response(&responses[i]);
        assert(responses@.subrange(0, i + 1).drop_last() =~= responses@.subrange(0, i as int));
        assert(responses@.subrange(0, i + 1).last() == responses@[i as int]);
        match out {
            Ok(None) => {},
            Ok(Some(p)) => {
                let ghost before = table@;
                table.push(p);
                assert(names_view(table@) =~= names_view(before).push((p.0, p.1@)));
            },
            Err(e) => {
                proof {
                    lemma_link_table_fails(responses@, i + 1);
                }
                return Err(e);
            },
        }
        i = i + 1;
    }
    assert(responses@.subrange(0, i as int) =~= responses@);
    Ok(table)
}

/// The state kept while reading the attributes of an address message: the
/// address so far and the label so far.
pub type AttrState = (Option<IpAddr>, Option<Seq<char>>);

/// One attribute of an address message applied to the state. A label
/// replaces the label; the assigned (local) address replaces the address; a
/// plain address is taken only while no address is known.
pub open spec fn attr_apply(family: u8, st: AttrState, a: RtAttr) -> Result<AttrState, Fault> {
    if a.rta_type == IFA_LABEL {
        match spec_parse_ifname(a.payload@) {
            Some(t) => Ok((st.0, Some(t))),
            None => Err(Fault::Name),
        }
    } else if a.rta_type == IFA_ADDRESS {
        if st.0 is Some {
            Ok(st)
        } else {
            match payload_ip(family, a.payload@) {
                Some(ip) => Ok((Some(ip), st.1)),
                None => Err(Fault::Strategy),
            }
        }
    } else if a.rta_type == IFA_LOCAL {
        match payload_ip(family, a.payload@) {
            Some(ip) => Ok((Some(ip), st.1)),
            None => Err(Fault::Strategy),
        }
    } else {
        Ok(st)
    }
}

/// The state after reading all the attributes in order.
pub open spec fn attr_fold(family: u8, attrs: Seq<RtAttr>) -> Result<AttrState, Fault>
    decreases attrs.len(),
{
    if attrs.len() == 0 {
        Ok((None, None))
    } else {
        match attr_fold(family, attrs.drop_last()) {
            Err(f) => Err(f),
            Ok(st) => attr_apply(family, st, attrs.last()),
        }
    }
}

/// The name of the interface with the given index: the one entered last.
pub open spec fn name_for(names: Seq<(i32, Seq<char>)>, index: i32) -> Option<Seq<char>>
    decreases names.len(),
{
    if names.len() == 0 {
        None
    } else if names.last().0 == index {
        Some(names.last().1)
    } else {
        name_for(names.drop_last(), index)
    }
}

/// What one response to the address dump adds to the list: the address with
/// its label, or else with the name of its interface; nothing for a message
/// without an address or whose interface has no name.
pub open spec fn addr_step(names: Seq<(i32, Seq<char>)>, r: NlResponse) -> Result<
    Option<(Seq<char>, IpAddr)>,
    Fault,
> {
    match r {
        NlResponse::Failure { .. } => Err(Fault::Strategy),
        NlResponse::Message { nl_type, payload } => match payload {
            NlPayload::Empty => Ok(None),
            NlPayload::Ack => Err(Fault::Strategy),
            NlPayload::Body(b) => if nl_type != RTM_NEWADDR {
                Err(Fault::Strategy)
            } else if b.family != AF_INET && b.family != AF_INET6 {
                Err(Fault::Strategy)
            } else {
                match attr_fold(b.family, b.attrs@) {
                    Err(f) => Err(f),
                    Ok((None, _)) => Ok(None),
                    Ok((Some(ip), Some(label))) => Ok(Some((label, ip))),
                    Ok((Some(ip), None)) => match name_for(names, b.index) {
                        Some(n) => Ok(Some((n, ip))),
                        None => Ok(None),
                    },
                }
            },
        },
    }
}

/// The list of named addresses that a run of address responses builds, or
/// the first failure among them.
pub open spec fn addr_table(names: Seq<(i32, Seq<char>)>, rs: Seq<NlResponse>) -> Result<
    Seq<(Seq<char>, IpAddr)>,
    Fault,
>
    decreases rs.len(),
{
    if rs.len() == 0 {
        Ok(Seq::empty())
    } else {
        match addr_table(names, rs.drop_last()) {
            Err(f) => Err(f),
            Ok(t) => match addr_step(names, rs.last()) {
                Err(f) => Err(f),
                Ok(None) => Ok(t),
                Ok(Some(e)) => Ok(t.push(e)),
            },
        }
    }
}

proof fn lemma_addr_table_fails(names: Seq<(i32, Seq<char>)>, rs: Seq<NlResponse>, n: int)
    requires
        0 <= n <= rs.len(),
        addr_table(names, rs.subrange(0, n)) is Err,
    ensures
        addr_table(names, rs) == addr_table(names, rs.subrange(0, n)),
    decreases rs.len() - n,
{
    if n < rs.len() {
        assert(rs.subrange(0, n + 1).drop_last() =~= rs.subrange(0, n));
        lemma_addr_table_fails(names, rs, n + 1);
    } else {
        assert(rs.subrange(0, n) =~= rs);
    }
}

fn lookup_name(names: &Vec<(i32, String)>, index: i32) -> (r: Option<String>)
    ensures
        match name_for(names_view(names@), index) {
            Some(n) => r matches Some(s) && s@ == n,
            None => r is None,
        },
{
    let mut j: usize = names.len();
    assert(names_view(names@).subrange(0, j as int) =~= names_view(names@));
    while j > 0
        invariant
            j <= names@.len(),
            name_for(names_view(names@), index) == name_for(
                names_view(names@).subrange(0, j as int),
                index,
            ),
        decreases j,
    {
        let ghost pre = names_view(names@).subrange(0, j as int);
        assert(pre.drop_last() =~= names_view(names@).subrange(0, j - 1));
        if names[j - 1].0 == index {
            return Some(names[j - 1].1.clone());
        }
        j = j - 1;
    }
    None
}

fn addr_attrs(family: u8, attrs: &Vec<RtAttr>) -> (r: Result<(Option<IpAddr>, Option<String>), Error>)
    ensures
        match attr_fold(family, attrs@) {
            Ok(st) => r matches Ok(v) && v.0 == st.0 && (match st.1 {
                Some(l) => v.1 matches Some(s) && s@ == l,
                None => v.1 is None,
            }),
            Err(f) => r matches Err(e) && is_fault(e, f),
        },
{
    let mut ip: Option<IpAddr> = None;
    let mut label: Option<String> = None;
    let mut i: usize = 0;
    assert(attrs@.subrange(0, 0) =~= Seq::<RtAttr>::empty());
    while i < attrs.len()
        invariant
            i <= attrs@.len(),
            attr_fold(family, attrs@.subrange(0, i as int)) matches Ok(st) && st.0 == ip && (
            match st.1 {
                Some(l) => label matches Some(s) && s@ == l,
                None => label is None,
            }),
        decreases attrs@.len() - i,
    {
        assert(attrs@.subrange(0, i + 1).drop_last() =~= attrs@.subrange(0, i as int));
        assert(attrs@.subrange(0, i + 1).last() == attrs@[i as int]);
        let a = &attrs[i];
        if a.rta_type == IFA_LABEL {
            match parse_ifname(a.payload.as_slice()) {
                Ok(name) => {
                    label = Some(name);
                },
                Err(e) => {
                    proof {
                        lemma_attr_fold_fails(family, attrs@, i + 1);
                    }
                    return Err(e);
                },
            }
        } else if a.rta_type == IFA_ADDRESS {
            if ip.is_none() {
                match decode_payload_ip(family, &a.payload) {
                    Some(v) => {
                        ip = Some(v);
                    },
                    None => {
                        proof {
                            lemma_attr_fold_fails(family, attrs@, i + 1);
                        }
                        return Err(bad_attribute());
                    },
                }
            }
        } else if a.rta_type == IFA_LOCAL {
            match decode_payload_ip(family, &a.payload) {
                Some(v) => {
                    ip = Some(v);
                },
                None => {
                    proof {
                        lemma_attr_fold_fails(family, attrs@, i + 1);
                    }
                    return Err(bad_attribute());
                },
            }
        }
        i = i + 1;
    }
    assert(attrs@.subrange(0, i as int) =~= attrs@);
    Ok((ip, label))
}

proof fn lemma_attr_fold_fails(family: u8, attrs: Seq<RtAttr>, n: int)
    requires
        0 <= n <= attrs.len(),
        attr_fold(family, attrs.subrange(0, n)) is Err,
    ensures
        attr_fold(family, attrs) == attr_fold(family, attrs.subrange(0, n)),
    decreases attrs.len() - n,
{
    if n < attrs.len() {
        assert(attrs.subrange(0, n + 1).drop_last() =~= attrs.subrange(0, n));
        lemma_attr_fold_fails(family, attrs, n + 1);
    } else {
        assert(attrs.subrange(0, n) =~= attrs);
    }
}

fn addr_response(names: &Vec<(i32, String)>, r: &NlResponse) -> (out: Result<
    Option<(String, IpAddr)>,
    Error,
>)
    ensures
        match addr_step(names_view(names@), *r) {
            Ok(None) => out matches Ok(None),
            Ok(Some(e)) => out matches Ok(Some(p)) && p.0@ == e.0 && p.1 == e.1,
            Err(f) => out matches Err(e) && is_fault(e, f),
        },
{
    match r {
        NlResponse::Failure { text, .. } => Err(read_failure(text)),
        NlResponse::Message { nl_type, payload } => match payload {
            NlPayload::Empty => Ok(None),
            NlPayload::Ack => Err(missing_payload()),
            NlPayload::Body(b) => {
                if *nl_type != RTM_NEWADDR {
                    Err(unexpected_type())
                } else if b.family != AF_INET && b.family != AF_INET6 {
                    Err(bad_family())
                } else {
                    match addr_attrs(b.family, &b.attrs) {
                        Err(e) => Err(e),
                        Ok((None, _)) => Ok(None),
                        Ok((Some(ip), Some(label))) => Ok(Some((label, ip))),
                        Ok((Some(ip), None)) => match lookup_name(names, b.index) {
                            Some(n) => Ok(Some((n, ip))),
                            None => Ok(None),
                        },
                    }
                }
            },
        },
    }
}

/// Reads the responses to a dump of all addresses into the list of
/// interfaces, each address with its label or else with the name `names`
/// gives its interface index, in the order the kernel listed them. An
/// address message that names the assigned (local) address yields that one
/// over the plain address. Fails on the first response that is not a
/// well-formed IPv4 or IPv6 address message.
pub fn interfaces_from_addresses(names: &Vec<(i32, String)>, responses: &Vec<NlResponse>) -> (r:
    Result<Vec<(String, IpAddr)>, Error>)
    ensures
        match addr_table(names_view(names@), responses@) {
            Ok(t) => r matches Ok(v) && entries_view(v@) == t,
            Err(f) => r matches Err(e) && is_fault(e, f),
        },
{
    let ghost nv = names_view(names@);
    let mut list: Vec<(String, IpAddr)> = Vec::new();
    let mut i: usize = 0;
    assert(responses@.subrange(0, 0) =~= Seq::<NlResponse>::empty());
    assert(entries_view(list@) =~= Seq::empty());
    while i < responses.len()
        invariant
            i <= responses@.len(),
            nv == names_view(names@),
            addr_table(nv, responses@.subrange(0, i as int)) == Ok::<
                Seq<(Seq<char>, IpAddr)>,
                Fault,
            >(entries_view(list@)),
        decreases responses@.len() - i,
    {
        let out = addr_response(names, &responses[i]);
        assert(responses@.subrange(0, i + 1).drop_last() =~= responses@.subrange(0, i as int));
        assert(responses@.subrange(0, i + 1).last() == responses@[i as int]);
        match out {
            Ok(None) => {},
            Ok(Some(p)) => {
                let ghost before = list@;
                let ghost e = (p.0@, p.1);
                list.push(p);
                assert(entries_view(list@) =~= entries_view(before).push(e));
            },
            Err(e) => {
                proof {
                    lemma_addr_table_fails(nv, responses@, i + 1);
                }
                return Err(e);
            },
        }
        i = i + 1;
    }
    assert(responses@.subrange(0, i as int) =~= responses@);
    Ok(list)
}

/// The payload of the destination attribute of the route lookup: an address
/// of the documentation ranges (192.0.2.0 and 2001:db8::), which no real
/// network uses, so that the kernel answers with the source it would choose
/// for an arbitrary outside destination. Fails on any other family.
pub fn route_probe(family: u8) -> (r: Result<Vec<u8>, Error>)
    ensures
        family == AF_INET ==> (r matches Ok(v) && v@ == seq![192u8, 0u8, 2u8, 0u8]),
        family == AF_INET6 ==> (r matches Ok(v) && v@ == seq![0x20u8, 0x01u8, 0x0du8, 0xb8u8]
            + Seq::new(12, |i: int| 0u8)),
        family != AF_INET && family != AF_INET6 ==> (r matches Err(Error::StrategyError(_))),
{
    let mut v: Vec<u8> = Vec::new();
    if family == AF_INET {
        v.push(192);
        v.push(0);
        v.push(2);
        v.push(0);
        assert(v@ =~= seq![192u8, 0u8, 2u8, 0u8]);
        Ok(v)
    } else if family == AF_INET6 {
        v.push(0x20);
        v.push(0x01);
        v.push(0x0d);
        v.push(0xb8);
        let mut k: usize = 0;
        while k < 12
            invariant
                k <= 12,
                v@ == seq![0x20u8, 0x01u8, 0x0du8, 0xb8u8] + Seq::new(k as nat, |i: int| 0u8),
            decreases 12 - k,
        {
            v.push(0);
            k = k + 1;
            assert(v@ =~= seq![0x20u8, 0x01u8, 0x0du8, 0xb8u8] + Seq::new(k as nat, |i: int| 0u8));
        }
        Ok(v)
    } else {
        Err(bad_family())
    }
}

/// The response is an address message of an IPv4 or IPv6 interface whose
/// attributes decode and carry an address, and which has a label or the
/// index of a named interface.
pub open spec fn names_an_address(names: Seq<(i32, Seq<char>)>, r: NlResponse) -> bool {
    match r {
        NlResponse::Message { nl_type, payload: NlPayload::Body(b) } => nl_type == RTM_NEWADDR && (
        b.family == AF_INET || b.family == AF_INET6) && match attr_fold(b.family, b.attrs@) {
            Ok((Some(_), label)) => label is Some || name_for(names, b.index) is Some,
            _ => false,
        },
        _ => false,
    }
}

/// Where the address dump decodes, an address message of an IPv4 or IPv6
/// interface that carries an address, and a label or the index of a named
/// interface, makes the interface list non-empty.
pub proof fn lemma_addresses_nonempty(names: Seq<(i32, Seq<char>)>, rs: Seq<NlResponse>, k: int)
    requires
        0 <= k < rs.len(),
        names_an_address(names, rs[k]),
        addr_table(names, rs) is Ok,
    ensures
        addr_table(names, rs) matches Ok(t) && t.len() >= 1,
    decreases rs.len(),
{
    if k == rs.len() - 1 {
        assert(addr_step(names, rs.last()) is Ok);
        assert(addr_step(names, rs.last())->Ok_0 is Some);
    } else {
        assert(rs.drop_last()[k] == rs[k]);
        lemma_addresses_nonempty(names, rs.drop_last(), k);
    }
}

/// A search for an IPv4 address (route lookup or fallback) finds only IPv4
/// addresses.
pub proof fn lemma_ipv4_lookup_finds_ipv4(q: Lookup, rs: Seq<NlResponse>)
    requires
        match q {
            Lookup::Route { family, .. } => family == AF_INET,
            Lookup::Local { family } => family == AF_INET,
        },
    ensures
        scan(q, rs) matches Scan::Found(a) ==> a is V4,
    decreases rs.len(),
{
    if rs.len() > 0 {
        lemma_ipv4_lookup_finds_ipv4(q, rs.drop_last());
    }
}

} // verus!
