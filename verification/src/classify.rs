//! Endpoint classification: which addresses the monitor tracks, and
//! which direction a packet counts toward.
//!
//! An IPv4 address is carried as its 32-bit big-endian value.  With no
//! operator-supplied filter, the default policy tracks the RFC 1918
//! private ranges; a filter narrows tracking to one network.

use vstd::prelude::*;

verus! {

/// Highest octet of a dotted-quad address.
pub open spec fn octet0(addr: u32) -> int {
    addr as int / 0x100_0000
}

/// Second octet of a dotted-quad address.
pub open spec fn octet1(addr: u32) -> int {
    (addr as int / 0x1_0000) % 0x100
}

/// Whether `addr` lies in 10.0.0.0/8, 172.16.0.0/12 or 192.168.0.0/16.
pub open spec fn spec_is_rfc1918_private(addr: u32) -> bool {
    ||| octet0(addr) == 10
    ||| (octet0(addr) == 172 && 16 <= octet1(addr) <= 31)
    ||| (octet0(addr) == 192 && octet1(addr) == 168)
}

/// The address whose dotted-quad form is `a.b.c.d`.
pub fn ipv4_from_octets(a: u8, b: u8, c: u8, d: u8) -> (addr: u32)
    ensures
        addr == (a as int) * 0x100_0000 + (b as int) * 0x1_0000 + (c as int) * 0x100 + (d as int),
        octet0(addr) == a as int,
        octet1(addr) == b as int,
{
    let au = a as u32;
    let bu = b as u32;
    let cu = c as u32;
    let du = d as u32;
    let addr = (au << 24u32) | (bu << 16u32) | (cu << 8u32) | du;
    proof {
        assert(((au << 24u32) | (bu << 16u32) | (cu << 8u32) | du) == au * 0x100_0000 + bu
            * 0x1_0000 + cu * 0x100 + du) by (bit_vector)
            requires
                au < 0x100,
                bu < 0x100,
                cu < 0x100,
                du < 0x100,
        ;
    }
    addr
}

/// Whether `addr` lies in one of the RFC 1918 private ranges; the
/// default tracking policy when no filter is configured.
pub fn is_rfc1918_private(addr: u32) -> (r: bool)
    ensures
        r == spec_is_rfc1918_private(addr),
{
    let o0 = addr >> 24u32;
    let o1 = (addr >> 16u32) & 0xFF;
    proof {
        assert(addr >> 24u32 == addr / 0x100_0000) by (bit_vector);
        assert((addr >> 16u32) & 0xFF == (addr / 0x1_0000) % 0x100) by (bit_vector);
    }
    o0 == 10 || (o0 == 172 && 16 <= o1 && o1 <= 31) || (o0 == 192 && o1 == 168)
}

/// An operator-supplied IPv4 network, as network address plus prefix
/// length.
#[derive(Clone, Copy, Debug, PartialEq, Eq, Structural)]
pub struct Cidr {
    pub network: u32,
    pub prefix: u8,
}

/// The netmask a prefix length denotes.
pub open spec fn spec_mask(prefix: u8) -> u32 {
    if prefix == 0 {
        0u32
    } else {
        (0xFFFF_FFFFu32 << ((32 - prefix) as u32)) as u32
    }
}

impl Cidr {
    /// A prefix length fits in an IPv4 address.
    pub open spec fn wf(self) -> bool {
        self.prefix <= 32
    }

    /// Whether `addr` lies in this network.
    pub open spec fn spec_contains(self, addr: u32) -> bool {
        addr & spec_mask(self.prefix) == self.network & spec_mask(self.prefix)
    }

    /// The network `network/prefix`, or `None` for an impossible prefix
    /// length.
    pub fn new(network: u32, prefix: u8) -> (r: Option<Cidr>)
        ensures
            prefix <= 32 ==> (r matches Some(c) && c == (Cidr { network, prefix }) && c.wf()),
            prefix > 32 ==> r is None,
    {
        if prefix <= 32 {
            Some(Cidr { network, prefix })
        } else {
            None
        }
    }

    /// Whether `addr` lies in this network.
    pub fn contains(&self, addr: u32) -> (r: bool)
        requires
            self.wf(),
        ensures
            r == self.spec_contains(addr),
    {
        let mask: u32 = if self.prefix == 0 {
            0
        } else {
            0xFFFF_FFFFu32 << ((32 - self.prefix) as u32)
        };
        (addr & mask) == (self.network & mask)
    }
}

/// Tracking policy: the filter network when one is configured, the
/// RFC 1918 default otherwise.
pub open spec fn spec_should_track(addr: u32, filter: Option<Cidr>) -> bool {
    match filter {
        Some(net) => net.spec_contains(addr),
        None => spec_is_rfc1918_private(addr),
    }
}

/// Whether the monitor keeps per-endpoint counts for `addr`.
pub fn should_track_ip(addr: u32, filter: Option<Cidr>) -> (r: bool)
    requires
        filter matches Some(net) ==> net.wf(),
    ensures
        r == spec_should_track(addr, filter),
{
    match filter {
        Some(net) => net.contains(addr),
        None => is_rfc1918_private(addr),
    }
}

} // verus!
