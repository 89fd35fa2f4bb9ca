//! Decisions of the Windows strategy, which reads the IPv4 routing table and
//! the adapter table. The caller makes the system calls and hands over their
//! rows and adapters as plain values.
use vstd::prelude::*;

use crate::addr::{ip_from_sockaddr, spec_ip_from_sockaddr, IpAddr, SockAddr};
use crate::error::Error;
use crate::ifname::{utf16_text_of, valid_utf16, wide_name};

verus! {

/// The call succeeded.
pub const ERROR_SUCCESS: u32 = 0;

/// The request is not supported.
pub const ERROR_NOT_SUPPORTED: u32 = 50;

/// The buffer for the adapter table is too small.
pub const ERROR_BUFFER_OVERFLOW: u32 = 111;

/// The buffer for the routing table is too small.
pub const ERROR_INSUFFICIENT_BUFFER: u32 = 122;

/// There is no data.
pub const ERROR_NO_DATA: u32 = 232;

/// No address is associated with a network endpoint.
pub const ERROR_ADDRESS_NOT_ASSOCIATED: u32 = 1228;

/// Interface type of the software loopback adapter.
pub const IF_TYPE_SOFTWARE_LOOPBACK: u32 = 24;

/// How many times a table is requested, with a buffer grown to the size the
/// system asked for, before the query gives up.
pub const MAX_BUFFER_ATTEMPTS: u32 = 4;

/// A singly linked list taken over as the sequence of its nodes, handed out
/// one at a time from the head.
pub struct LinkedListIter<T> {
    /// The nodes not yet handed out, the head last.
    rest: Vec<T>,
}

impl<T> View for LinkedListIter<T> {
    type V = Seq<T>;

    /// The nodes not yet handed out, from the head.
    closed spec fn view(&self) -> Seq<T> {
        Seq::new(self.rest@.len(), |i: int| self.rest@[self.rest@.len() - 1 - i])
    }
}

impl<T> LinkedListIter<T> {
    /// Takes over the nodes of a list, given from its head.
    pub fn new(nodes: Vec<T>) -> (r: Self)
        ensures
            r@ == nodes@,
    {
        let ghost all = nodes@;
        let mut nodes = nodes;
        let mut rest: Vec<T> = Vec::new();
        while nodes.len() > 0
            invariant
                nodes@.len() + rest@.len() == all.len(),
                forall|i: int| 0 <= i < nodes@.len() ==> nodes@[i] == all[i],
                forall|i: int|
                    0 <= i < rest@.len() ==> rest@[i] == all[all.len() - 1 - i],
            decreases nodes@.len(),
        {
            let x = nodes.pop().unwrap();
            rest.push(x);
        }
        let r = LinkedListIter { rest };
        assert(r@ =~= all);
        r
    }

    /// Hands out the next node, or `None` at the end of the list.
    pub fn next(&mut self) -> (r: Option<T>)
        ensures
            old(self)@.len() == 0 ==> r is None && final(self)@ == old(self)@,
            old(self)@.len() > 0 ==> r == Some(old(self)@[0]) && final(self)@ == old(
                self,
            )@.drop_first(),
    {
        let r = self.rest.pop();
        proof {
            if old(self)@.len() > 0 {
                assert(self@ =~= old(self)@.drop_first());
            } else {
                assert(self@ =~= old(self)@);
            }
        }
        r
    }
}

/// A row of the IPv4 routing table: destination and interface index.
pub struct ForwardRow {
    pub dest: u32,
    pub if_index: u32,
}

/// An adapter of the adapter table.
pub struct Adapter {
    pub if_index: u32,
    /// The interface type.
    pub if_type: u32,
    /// The display name, as the UTF-16 units before its nul terminator.
    pub friendly_name: Vec<u16>,
    /// The adapter's unicast addresses, in list order; `None` for an entry
    /// without a socket address.
    pub unicast: Vec<Option<SockAddr>>,
}

/// What to do after one request for a table.
pub enum BufferStep {
    /// The table is in the buffer.
    Done,
    /// Grow the buffer to the size the system asked for and request again.
    Grow,
    /// Give up with the code.
    Fail,
}

/// Decides after the `attempt`-th request (counting from 0) for a table,
/// whose call returned `code`; `overflow` is the code by which that call
/// asks for a larger buffer. The request is retried only while fewer than
/// `MAX_BUFFER_ATTEMPTS` requests have been made.
pub fn buffer_step(code: u32, overflow: u32, attempt: u32) -> (r: BufferStep)
    ensures
        code == ERROR_SUCCESS ==> r is Done,
        code != ERROR_SUCCESS && code == overflow && attempt + 1 < MAX_BUFFER_ATTEMPTS ==> r is Grow,
        code != ERROR_SUCCESS && !(code == overflow && attempt + 1 < MAX_BUFFER_ATTEMPTS)
            ==> r is Fail,
{
    if code == ERROR_SUCCESS {
        BufferStep::Done
    } else if code == overflow && attempt < MAX_BUFFER_ATTEMPTS - 1 {
        BufferStep::Grow
    } else {
        BufferStep::Fail
    }
}

/// Whether a failed request of the routing table means that no routing data
/// is to be had (no data, or not supported), so that the local address is
/// chosen without it; any other failure is a strategy failure.
pub fn route_table_unavailable(code: u32) -> (r: bool)
    ensures
        r == (code == ERROR_NO_DATA || code == ERROR_NOT_SUPPORTED),
{
    code == ERROR_NO_DATA || code == ERROR_NOT_SUPPORTED
}

/// The error for a failed request of the adapter table in the search for
/// the local address: no associated address or no data is no local address;
/// anything else is a strategy failure with `message`.
pub fn adapter_table_error(code: u32, message: String) -> (e: Error)
    ensures
        code == ERROR_ADDRESS_NOT_ASSOCIATED || code == ERROR_NO_DATA ==> e is LocalIpAddressNotFound,
        !(code == ERROR_ADDRESS_NOT_ASSOCIATED || code == ERROR_NO_DATA) ==> e
            == Error::StrategyError(message),
{
    if code == ERROR_ADDRESS_NOT_ASSOCIATED || code == ERROR_NO_DATA {
        Error::LocalIpAddressNotFound
    } else {
        Error::StrategyError(message)
    }
}

/// The interface indices of the default routes (destination 0.0.0.0), in
/// table order.
pub open spec fn default_indices(rows: Seq<ForwardRow>) -> Seq<u32>
    decreases rows.len(),
{
    if rows.len() == 0 {
        Seq::empty()
    } else if rows.last().dest == 0 {
        default_indices(rows.drop_last()).push(rows.last().if_index)
    } else {
        default_indices(rows.drop_last())
    }
}

/// The interface indices that carry a default route; there may be several
/// (wired and wireless, say).
pub fn default_route_indices(rows: &Vec<ForwardRow>) -> (r: Vec<u32>)
    ensures
        r@ == default_indices(rows@),
{
    let mut out: Vec<u32> = Vec::new();
    let mut i: usize = 0;
    assert(rows@.subrange(0, 0) =~= Seq::<ForwardRow>::empty());
    while i < rows.len()
        invariant
            i <= rows@.len(),
            out@ == default_indices(rows@.subrange(0, i as int)),
        decreases rows@.len() - i,
    {
        assert(rows@.subrange(0, i + 1).drop_last() =~= rows@.subrange(0, i as int));
        assert(rows@.subrange(0, i + 1).last() == rows@[i as int]);
        if rows[i].dest == 0 {
            out.push(rows[i].if_index);
        }
        i = i + 1;
    }
    assert(rows@.subrange(0, i as int) =~= rows@);
    out
}

/// The IP addresses among an adapter's unicast entries, in order.
pub open spec fn unicast_ips(us: Seq<Option<SockAddr>>, little_endian: bool) -> Seq<IpAddr>
    decreases us.len(),
{
    if us.len() == 0 {
        Seq::empty()
    } else {
        let rest = unicast_ips(us.drop_last(), little_endian);
        match us.last() {
            Some(sa) => match spec_ip_from_sockaddr(sa, little_endian) {
                Some(ip) => rest.push(ip),
                None => rest,
            },
            None => rest,
        }
    }
}

fn adapter_ips(a: &Adapter, little_endian: bool) -> (r: Vec<IpAddr>)
    ensures
        r@ == unicast_ips(a.unicast@, little_endian),
{
    let mut out: Vec<IpAddr> = Vec::new();
    let mut i: usize = 0;
    assert(a.unicast@.subrange(0, 0) =~= Seq::<Option<SockAddr>>::empty());
    while i < a.unicast.len()
        invariant
            i <= a.unicast@.len(),
            out@ == unicast_ips(a.unicast@.subrange(0, i as int), little_endian),
        decreases a.unicast@.len() - i,
    {
        assert(a.unicast@.subrange(0, i + 1).drop_last() =~= a.unicast@.subrange(0, i as int));
        assert(a.unicast@.subrange(0, i + 1).last() == a.unicast@[i as int]);
        if let Some(sa) = &a.unicast[i] {
            if let Some(ip) = ip_from_sockaddr(sa, little_endian) {
                out.push(ip);
            }
        }
        i = i + 1;
    }
    assert(a.unicast@.subrange(0, i as int) =~= a.unicast@);
    out
}

fn append_ips(out: &mut Vec<IpAddr>, ips: &Vec<IpAddr>)
    ensures
        final(out)@ == old(out)@ + ips@,
{
    let mut i: usize = 0;
    while i < ips.len()
        invariant
            i <= ips@.len(),
            out@ == old(out)@ + ips@.subrange(0, i as int),
        decreases ips@.len() - i,
    {
        out.push(ips[i]);
        i = i + 1;
        assert(out@ =~= old(out)@ + ips@.subrange(0, i as int));
    }
    assert(ips@.subrange(0, i as int) =~= ips@);
}

/// Whether an adapter's addresses are candidates for the local address:
/// where the default-route indices are known, those of an adapter that
/// carries a default route; where they are not, those of an adapter that is
/// not the loopback adapter.
pub open spec fn adapter_qualifies(indices: Option<Seq<u32>>, a: Adapter) -> bool {
    match indices {
        Some(ix) => ix.contains(a.if_index),
        None => a.if_type != IF_TYPE_SOFTWARE_LOOPBACK,
    }
}

/// The candidate addresses, adapter by adapter in table order.
pub open spec fn candidate_ips(
    indices: Option<Seq<u32>>,
    adapters: Seq<Adapter>,
    little_endian: bool,
) -> Seq<IpAddr>
    decreases adapters.len(),
{
    if adapters.len() == 0 {
        Seq::empty()
    } else {
        let rest = candidate_ips(indices, adapters.drop_first(), little_endian);
        if adapter_qualifies(indices, adapters[0]) {
            unicast_ips(adapters[0].unicast@, little_endian) + rest
        } else {
            rest
        }
    }
}

pub open spec fn indices_view(o: Option<&Vec<u32>>) -> Option<Seq<u32>> {
    match o {
        Some(v) => Some(v@),
        None => None,
    }
}

fn contains_index(indices: &Vec<u32>, x: u32) -> (r: bool)
    ensures
        r == indices@.contains(x),
{
    let mut i: usize = 0;
    while i < indices.len()
        invariant
            i <= indices@.len(),
            forall|j: int| 0 <= j < i ==> indices@[j] != x,
        decreases indices@.len() - i,
    {
        if indices[i] == x {
            assert(indices@[i as int] == x);
            return true;
        }
        i = i + 1;
    }
    false
}

/// The candidate addresses for the local address, in adapter order and,
/// within an adapter, in list order: those of the adapters whose interface
/// index carries a default route or, where the routing table could not be
/// had (`None`), those of the adapters other than the loopback adapter.
pub fn list_local_ip_addresses(
    default_indices: Option<&Vec<u32>>,
    adapters: Vec<Adapter>,
    little_endian: bool,
) -> (r: Vec<IpAddr>)
    ensures
        r@ == candidate_ips(indices_view(default_indices), adapters@, little_endian),
{
    let ghost ix = indices_view(default_indices);
    let ghost all = adapters@;
    let mut it = LinkedListIter::new(adapters);
    let mut out: Vec<IpAddr> = Vec::new();
    loop
        invariant
            ix == indices_view(default_indices),
            out@ + candidate_ips(ix, it@, little_endian) == candidate_ips(ix, all, little_endian),
        ensures
            out@ == candidate_ips(ix, all, little_endian),
        decreases it@.len(),
    {
        let ghost before = it@;
        match it.next() {
            None => {
                assert(out@ =~= out@ + candidate_ips(ix, it@, little_endian));
                break ;
            },
            Some(a) => {
                let ghost prev = out@;
                let qualifies = match default_indices {
                    Some(indices) => contains_index(indices, a.if_index),
                    None => a.if_type != IF_TYPE_SOFTWARE_LOOPBACK,
                };
                if qualifies {
                    let ips = adapter_ips(&a, little_endian);
                    append_ips(&mut out, &ips);
                    assert(prev + candidate_ips(ix, before, little_endian) =~= out@ + candidate_ips(
                        ix,
                        it@,
                        little_endian,
                    ));
                }
            },
        }
    }
    out
}

/// The first address of the requested family (IPv6 where `v6`, else IPv4).
pub open spec fn first_of_family(addrs: Seq<IpAddr>, v6: bool) -> Option<IpAddr>
    decreases addrs.len(),
{
    if addrs.len() == 0 {
        None
    } else if (if v6 {
        addrs[0] is V6
    } else {
        addrs[0] is V4
    }) {
        Some(addrs[0])
    } else {
        first_of_family(addrs.drop_first(), v6)
    }
}

/// Picks the local address among the default-route addresses: the first of
/// the requested family, or `LocalIpAddressNotFound`.
pub fn select_first_of_family(addrs: &Vec<IpAddr>, v6: bool) -> (r: Result<IpAddr, Error>)
    ensures
        match first_of_family(addrs@, v6) {
            Some(a) => r == Ok::<IpAddr, Error>(a),
            None => r matches Err(Error::LocalIpAddressNotFound),
        },
{
    let mut i: usize = 0;
    assert(addrs@.subrange(0, addrs@.len() as int) =~= addrs@);
    while i < addrs.len()
        invariant
            i <= addrs@.len(),
            first_of_family(addrs@, v6) == first_of_family(
                addrs@.subrange(i as int, addrs@.len() as int),
                v6,
            ),
        decreases addrs@.len() - i,
    {
        assert(addrs@.subrange(i as int, addrs@.len() as int).drop_first() =~= addrs@.subrange(
            i + 1,
            addrs@.len() as int,
        ));
        let a = addrs[i];
        let fam = if v6 {
            a.is_ipv6()
        } else {
            a.is_ipv4()
        };
        if fam {
            return Ok(a);
        }
        i = i + 1;
    }
    Err(Error::LocalIpAddressNotFound)
}

/// Each address paired with the name.
pub open spec fn with_name(name: Seq<char>, ips: Seq<IpAddr>) -> Seq<(Seq<char>, IpAddr)> {
    ips.map_values(|ip: IpAddr| (name, ip))
}

/// Every address of every adapter, named by the adapter's display name, in
/// adapter order and, within an adapter, in list order; `Err(())` where an
/// adapter that has addresses has a name that is not valid UTF-16.
pub open spec fn named_ips(adapters: Seq<Adapter>, little_endian: bool) -> Result<
    Seq<(Seq<char>, IpAddr)>,
    (),
>
    decreases adapters.len(),
{
    if adapters.len() == 0 {
        Ok(Seq::empty())
    } else {
        let ips = unicast_ips(adapters[0].unicast@, little_endian);
        let name = adapters[0].friendly_name@;
        match named_ips(adapters.drop_first(), little_endian) {
            Err(()) => Err(()),
            Ok(rest) => if ips.len() == 0 {
                Ok(rest)
            } else if valid_utf16(name) {
                Ok(with_name(utf16_text_of(name), ips) + rest)
            } else {
                Err(())
            },
        }
    }
}

/// `front` put before the list in `r`, if `r` holds one.
pub open spec fn prepend(front: Seq<(Seq<char>, IpAddr)>, r: Result<Seq<(Seq<char>, IpAddr)>, ()>) -> Result<
    Seq<(Seq<char>, IpAddr)>,
    (),
> {
    match r {
        Ok(t) => Ok(front + t),
        Err(()) => Err(()),
    }
}

pub open spec fn pairs_view(v: Seq<(String, IpAddr)>) -> Seq<(Seq<char>, IpAddr)> {
    v.map_values(|p: (String, IpAddr)| (p.0@, p.1))
}

/// The interface list: every address of every adapter with the adapter's
/// display name. An adapter with addresses whose name is not valid UTF-16
/// fails the whole list.
pub fn list_afinet_netifas(adapters: Vec<Adapter>, little_endian: bool) -> (r: Result<
    Vec<(String, IpAddr)>,
    Error,
>)
    ensures
        match named_ips(adapters@, little_endian) {
            Ok(t) => r matches Ok(v) && pairs_view(v@) == t,
            Err(()) => r matches Err(Error::InvalidInterfaceName(_)),
        },
{
    let ghost all = adapters@;
    let mut it = LinkedListIter::new(adapters);
    let mut out: Vec<(String, IpAddr)> = Vec::new();
    assert(pairs_view(out@) =~= Seq::empty());
    assert(prepend(pairs_view(out@), named_ips(all, little_endian)) =~= named_ips(
        all,
        little_endian,
    )) by {
        if let Ok(t) = named_ips(all, little_endian) {
            assert(pairs_view(out@) + t =~= t);
        }
    }
    loop
        invariant
            all == adapters@,
            prepend(pairs_view(out@), named_ips(it@, little_endian)) == named_ips(
                all,
                little_endian,
            ),
        ensures
            named_ips(all, little_endian) == Ok::<Seq<(Seq<char>, IpAddr)>, ()>(pairs_view(out@)),
        decreases it@.len(),
    {
        let ghost before = it@;
        match it.next() {
            None => {
                assert(pairs_view(out@) =~= pairs_view(out@) + Seq::<(Seq<char>, IpAddr)>::empty());
                break ;
            },
            Some(a) => {
                let ips = adapter_ips(&a, little_endian);
                if ips.len() > 0 {
                    let name = match wide_name(a.friendly_name.as_slice()) {
                        Ok(name) => name,
                        Err(e) => {
                            proof {
                                assert(before.drop_first() =~= it@);
                                assert(named_ips(before, little_endian) is Err);
                            }
                            return Err(e);
                        },
                    };
                    let ghost prev = pairs_view(out@);
                    let mut k: usize = 0;
                    assert(with_name(name@, ips@.subrange(0, 0)) =~= Seq::empty());
                    assert(prev + Seq::<(Seq<char>, IpAddr)>::empty() =~= prev);
                    while k < ips.len()
                        invariant
                            k <= ips@.len(),
                            pairs_view(out@) == prev + with_name(name@, ips@.subrange(0, k as int)),
                        decreases ips@.len() - k,
                    {
                        let ghost before_out = out@;
                        out.push((name.clone(), ips[k]));
                        assert(pairs_view(out@) =~= pairs_view(before_out).push(
                            (name@, ips@[k as int]),
                        ));
                        assert(with_name(name@, ips@.subrange(0, k + 1)) =~= with_name(
                            name@,
                            ips@.subrange(0, k as int),
                        ).push((name@, ips@[k as int])));
                        k = k + 1;
                    }
                    assert(ips@.subrange(0, k as int) =~= ips@);
                    proof {
                        if let Ok(rest) = named_ips(it@, little_endian) {
                            assert(prev + (with_name(name@, ips@) + rest) =~= pairs_view(out@)
                                + rest);
                        }
                    }
                }
            },
        }
    }
    Ok(out)
}

/// Where the adapter listing decodes, an adapter with an IPv4 or IPv6
/// address makes it non-empty.
pub proof fn lemma_listing_nonempty(adapters: Seq<Adapter>, little_endian: bool, k: int)
    requires
        0 <= k < adapters.len(),
        unicast_ips(adapters[k].unicast@, little_endian).len() > 0,
        named_ips(adapters, little_endian) is Ok,
    ensures
        named_ips(adapters, little_endian) matches Ok(t) && t.len() >= 1,
    decreases adapters.len(),
{
    if k > 0 {
        assert(adapters.drop_first()[k - 1] == adapters[k]);
        lemma_listing_nonempty(adapters.drop_first(), little_endian, k - 1);
    }
}

/// Where the candidate addresses include an IPv4 address, the local address
/// chosen when no family is asked for is an IPv4 address.
pub proof fn lemma_selects_ipv4(addrs: Seq<IpAddr>)
    requires
        exists|i: int| 0 <= i < addrs.len() && addrs[i] is V4,
    ensures
        first_of_family(addrs, false) matches Some(a) && a is V4,
    decreases addrs.len(),
{
    if !(addrs[0] is V4) {
        let i = choose|i: int| 0 <= i < addrs.len() && addrs[i] is V4;
        assert(addrs.drop_first()[i - 1] == addrs[i]);
        lemma_selects_ipv4(addrs.drop_first());
    }
}

} // verus!
