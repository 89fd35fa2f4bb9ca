use vstd::prelude::*;

verus! {

/// An IP address. An IPv4 address is held as the 32-bit value whose
/// big-endian bytes are its four octets; an IPv6 address as the 128-bit value
/// whose big-endian bytes are its sixteen octets.
#[derive(Debug, Clone, Copy, PartialEq, Eq, Structural)]
pub enum IpAddr {
    V4(u32),
    V6(u128),
}

impl IpAddr {
    pub fn is_ipv4(&self) -> (r: bool)
        ensures
            r == (self is V4),
    {
        match self {
            IpAddr::V4(_) => true,
            IpAddr::V6(_) => false,
        }
    }

    pub fn is_ipv6(&self) -> (r: bool)
        ensures
            r == (self is V6),
    {
        match self {
            IpAddr::V4(_) => false,
            IpAddr::V6(_) => true,
        }
    }
}

/// The unsigned number whose big-endian bytes are `b`.
pub open spec fn be_value(b: Seq<u8>) -> nat
    decreases b.len(),
{
    if b.len() == 0 {
        0
    } else {
        be_value(b.drop_last()) * 256 + b.last() as nat
    }
}

pub open spec fn pow256(n: nat) -> nat
    decreases n,
{
    if n == 0 {
        1
    } else {
        256 * pow256((n - 1) as nat)
    }
}

proof fn lemma_be_value_bound(b: Seq<u8>)
    ensures
        be_value(b) < pow256(b.len()),
    decreases b.len(),
{
    if b.len() > 0 {
        lemma_be_value_bound(b.drop_last());
        let v = be_value(b.drop_last());
        let p = pow256(b.drop_last().len());
        let x = b.last() as nat;
        assert(v * 256 + x < p * 256) by (nonlinear_arith)
            requires
                v < p,
                x < 256,
        ;
    }
}

proof fn lemma_pow256_mono(i: nat, j: nat)
    requires
        i <= j,
    ensures
        pow256(i) <= pow256(j),
    decreases j,
{
    if i < j {
        lemma_pow256_mono(i, (j - 1) as nat);
    }
}

/// Reads the first `n` bytes of `b` as a big-endian number.
pub fn read_be(b: &[u8], n: usize) -> (r: u128)
    requires
        n <= 16,
        n <= b@.len(),
    ensures
        r == be_value(b@.subrange(0, n as int)),
{
    let mut acc: u128 = 0;
    let mut i: usize = 0;
    assert(b@.subrange(0, 0) =~= Seq::<u8>::empty());
    while i < n
        invariant
            i <= n,
            n <= 16,
            n <= b@.len(),
            acc == be_value(b@.subrange(0, i as int)),
        decreases n - i,
    {
        proof {
            lemma_be_value_bound(b@.subrange(0, i as int));
            lemma_pow256_mono((i + 1) as nat, 16);
            reveal_with_fuel(pow256, 17);
            assert(pow256(16) == 0x1_0000_0000_0000_0000_0000_0000_0000_0000);
            let p = pow256(i as nat);
            let x = b@[i as int] as nat;
            assert((acc as nat) * 256 + x < p * 256) by (nonlinear_arith)
                requires
                    (acc as nat) < p,
                    x < 256,
            ;
            assert(b@.subrange(0, i + 1).drop_last() =~= b@.subrange(0, i as int));
        }
        acc = acc * 256 + b[i] as u128;
        i = i + 1;
    }
    acc
}

/// Reads the first four bytes of `b` as a big-endian 32-bit number.
pub fn read_be_u32(b: &[u8]) -> (r: u32)
    requires
        b@.len() >= 4,
    ensures
        r as nat == be_value(b@.subrange(0, 4)),
{
    let v = read_be(b, 4);
    proof {
        lemma_be_value_bound(b@.subrange(0, 4));
        reveal_with_fuel(pow256, 5);
    }
    v as u32
}

/// The 32-bit value whose big-endian bytes are `b0 b1 b2 b3`.
pub open spec fn u32_of_octets(b0: u8, b1: u8, b2: u8, b3: u8) -> u32 {
    ((b0 as u32) << 24u32) | ((b1 as u32) << 16u32) | ((b2 as u32) << 8u32) | (b3 as u32)
}

/// The value a CPU of the given byte order loads from the four bytes
/// `b0 b1 b2 b3` laid out in memory.
pub open spec fn load_u32(b0: u8, b1: u8, b2: u8, b3: u8, little_endian: bool) -> u32 {
    if little_endian {
        u32_of_octets(b3, b2, b1, b0)
    } else {
        u32_of_octets(b0, b1, b2, b3)
    }
}

/// `x` with its four bytes in reverse order.
pub open spec fn swap32(x: u32) -> u32 {
    ((x & 0xffu32) << 24u32) | (((x >> 8u32) & 0xffu32) << 16u32) | (((x >> 16u32) & 0xffu32)
        << 8u32) | (x >> 24u32)
}

/// The address held in a socket address's 32-bit field, which stores the
/// octets in network order: a little-endian CPU loads them reversed.
pub open spec fn s_addr_to_ipv4(s_addr: u32, little_endian: bool) -> u32 {
    if little_endian {
        swap32(s_addr)
    } else {
        s_addr
    }
}

/// Decodes the 32-bit address field of an IPv4 socket address into the
/// address value: the bytes are swapped once on a little-endian target and
/// kept on a big-endian one.
pub fn ipv4_from_s_addr(s_addr: u32, little_endian: bool) -> (r: u32)
    ensures
        r == s_addr_to_ipv4(s_addr, little_endian),
{
    if little_endian {
        ((s_addr & 0xff) << 24) | (((s_addr >> 8) & 0xff) << 16) | (((s_addr >> 16) & 0xff) << 8)
            | (s_addr >> 24)
    } else {
        s_addr
    }
}

/// Encodes an IPv4 address value into the 32-bit field of a socket address
/// as a CPU of the given byte order holds it.
pub fn ipv4_to_s_addr(addr: u32, little_endian: bool) -> (r: u32)
    ensures
        r == s_addr_to_ipv4(addr, little_endian),
{
    ipv4_from_s_addr(addr, little_endian)
}

/// Decoding the address field of a socket address whose memory holds the
/// octets `b0 b1 b2 b3` in network order gives the address with exactly those
/// octets, whatever the CPU's byte order: the big-endian number of the four
/// octets.
pub proof fn lemma_s_addr_octets(b0: u8, b1: u8, b2: u8, b3: u8, little_endian: bool)
    ensures
        s_addr_to_ipv4(load_u32(b0, b1, b2, b3, little_endian), little_endian) == u32_of_octets(
            b0,
            b1,
            b2,
            b3,
        ),
        u32_of_octets(b0, b1, b2, b3) as nat == be_value(seq![b0, b1, b2, b3]),
{
    assert(swap32(u32_of_octets(b3, b2, b1, b0)) == u32_of_octets(b0, b1, b2, b3))
        by (bit_vector);
    lemma_octets_be_value(b0, b1, b2, b3);
}

/// Encoding an address into a socket address field and decoding it again
/// gives the address back, and the other way round.
pub proof fn lemma_s_addr_round_trip(x: u32, little_endian: bool)
    ensures
        s_addr_to_ipv4(s_addr_to_ipv4(x, little_endian), little_endian) == x,
{
    assert(swap32(swap32(x)) == x) by (bit_vector);
}

/// The 32-bit value that `u32_of_octets` builds is the big-endian number of
/// the four octets.
proof fn lemma_octets_be_value(b0: u8, b1: u8, b2: u8, b3: u8)
    ensures
        u32_of_octets(b0, b1, b2, b3) as nat == be_value(seq![b0, b1, b2, b3]),
{
    let s = seq![b0, b1, b2, b3];
    reveal_with_fuel(be_value, 5);
    assert(s.drop_last() =~= seq![b0, b1, b2]);
    assert(s.drop_last().drop_last() =~= seq![b0, b1]);
    assert(s.drop_last().drop_last().drop_last() =~= seq![b0]);
    assert(s.drop_last().drop_last().drop_last().drop_last() =~= Seq::<u8>::empty());
    assert(u32_of_octets(b0, b1, b2, b3) == (((b0 as u32) * 256u32 + (b1 as u32)) * 256u32
        + (b2 as u32)) * 256u32 + (b3 as u32)) by (bit_vector);
}

/// The address an IPv6 socket address holds as sixteen octets in network order.
pub fn ipv6_from_octets(octets: &[u8; 16]) -> (r: u128)
    ensures
        r == be_value(octets@),
{
    let s = octets.as_slice();
    assert(s@.subrange(0, 16) =~= octets@);
    read_be(s, 16)
}

/// A socket address as the kernel reports it, by address family.
pub enum SockAddr {
    /// An IPv4 socket address: the address field as the CPU loads it.
    Inet { s_addr: u32 },
    /// An IPv6 socket address: its sixteen octets in network order.
    Inet6 { s6_addr: [u8; 16] },
    /// A socket address of any other family.
    Other,
}

pub open spec fn spec_ip_from_sockaddr(sa: SockAddr, little_endian: bool) -> Option<IpAddr> {
    match sa {
        SockAddr::Inet { s_addr } => Some(IpAddr::V4(s_addr_to_ipv4(s_addr, little_endian))),
        SockAddr::Inet6 { s6_addr } => Some(IpAddr::V6(be_value(s6_addr@) as u128)),
        SockAddr::Other => None,
    }
}

/// Converts a socket address to an IP address; `None` for a family other
/// than IPv4 and IPv6.
pub fn ip_from_sockaddr(sa: &SockAddr, little_endian: bool) -> (r: Option<IpAddr>)
    ensures
        r == spec_ip_from_sockaddr(*sa, little_endian),
{
    match sa {
        SockAddr::Inet { s_addr } => Some(IpAddr::V4(ipv4_from_s_addr(*s_addr, little_endian))),
        SockAddr::Inet6 { s6_addr } => Some(IpAddr::V6(ipv6_from_octets(s6_addr))),
        SockAddr::Other => None,
    }
}

} // verus!
