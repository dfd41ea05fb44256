//! IPv4 and IPv6 addresses: construction, classification and ordering.
use vstd::prelude::*;

verus! {

/// An IPv4 address, held as its 32 bits with the first octet most significant.
#[derive(Clone, Copy, Debug, PartialEq, Eq, Hash, Structural)]
pub struct Ipv4Addr {
    pub bits: u32,
}

/// An IPv6 address, held as its 128 bits with the first segment most significant.
#[derive(Clone, Copy, Debug, PartialEq, Eq, Hash, Structural)]
pub struct Ipv6Addr {
    pub bits: u128,
}

/// An IPv4 or an IPv6 address.
#[derive(Clone, Copy, Debug, PartialEq, Eq, Hash, Structural)]
pub enum IpAddr {
    V4(Ipv4Addr),
    V6(Ipv6Addr),
}

impl Ipv4Addr {
    /// `0.0.0.0`.
    pub fn unspecified() -> (r: Ipv4Addr)
        ensures
            r.octets() == seq![0u8, 0u8, 0u8, 0u8],
    {
        Ipv4Addr::new(0, 0, 0, 0)
    }

    /// `127.0.0.1`.
    pub fn localhost() -> (r: Ipv4Addr)
        ensures
            r.octets() == seq![127u8, 0u8, 0u8, 1u8],
    {
        Ipv4Addr::new(127, 0, 0, 1)
    }

    /// `255.255.255.255`.
    pub fn broadcast() -> (r: Ipv4Addr)
        ensures
            r.octets() == seq![255u8, 255u8, 255u8, 255u8],
    {
        Ipv4Addr::new(255, 255, 255, 255)
    }

    /// The four octets, first octet first.
    pub open spec fn octets(self) -> Seq<u8> {
        seq![
            (self.bits >> 24u32) as u8,
            (self.bits >> 16u32) as u8,
            (self.bits >> 8u32) as u8,
            self.bits as u8,
        ]
    }

    /// The address `a.b.c.d`.
    pub fn new(a: u8, b: u8, c: u8, d: u8) -> (r: Ipv4Addr)
        ensures
            r.octets() == seq![a, b, c, d],
    {
        let bits: u32 = (a as u32) << 24u32 | (b as u32) << 16u32 | (c as u32) << 8u32 | (d as u32);
        assert((bits >> 24u32) as u8 == a && (bits >> 16u32) as u8 == b && (bits >> 8u32) as u8 == c
            && bits as u8 == d) by (bit_vector)
            requires
                bits == (a as u32) << 24u32 | (b as u32) << 16u32 | (c as u32) << 8u32 | (d as u32),
        ;
        Ipv4Addr { bits }
    }

    pub open spec fn spec_is_unspecified(self) -> bool {
        self.octets() == seq![0u8, 0u8, 0u8, 0u8]
    }

    pub open spec fn spec_is_loopback(self) -> bool {
        self.octets()[0] == 127
    }

    pub open spec fn spec_is_broadcast(self) -> bool {
        self.octets() == seq![255u8, 255u8, 255u8, 255u8]
    }

    pub open spec fn spec_is_multicast(self) -> bool {
        224 <= self.octets()[0] <= 239
    }

    /// `0.0.0.0`.
    pub fn is_unspecified(&self) -> (r: bool)
        ensures
            r == self.spec_is_unspecified(),
    {
        let bits = self.bits;
        assert(bits == 0 <==> ((bits >> 24u32) as u8 == 0 && (bits >> 16u32) as u8 == 0 && (bits
            >> 8u32) as u8 == 0 && bits as u8 == 0)) by (bit_vector);
        assert(self.octets() == seq![0u8, 0u8, 0u8, 0u8] <==> ((bits >> 24u32) as u8 == 0 && (bits
            >> 16u32) as u8 == 0 && (bits >> 8u32) as u8 == 0 && bits as u8 == 0)) by {
            if (bits >> 24u32) as u8 == 0 && (bits >> 16u32) as u8 == 0 && (bits >> 8u32) as u8 == 0
                && bits as u8 == 0 {
                assert(self.octets() =~= seq![0u8, 0u8, 0u8, 0u8]);
            }
        }
        bits == 0
    }

    /// An address in `127.0.0.0/8`.
    pub fn is_loopback(&self) -> (r: bool)
        ensures
            r == self.spec_is_loopback(),
    {
        (self.bits >> 24u32) as u8 == 127
    }

    /// `255.255.255.255`.
    pub fn is_broadcast(&self) -> (r: bool)
        ensures
            r == self.spec_is_broadcast(),
            r == (self.bits == 0xffff_ffff),
    {
        let bits = self.bits;
        assert(bits == 0xffff_ffff <==> ((bits >> 24u32) as u8 == 255 && (bits >> 16u32) as u8
            == 255 && (bits >> 8u32) as u8 == 255 && bits as u8 == 255)) by (bit_vector);
        assert(self.octets() == seq![255u8, 255u8, 255u8, 255u8] <==> ((bits >> 24u32) as u8 == 255
            && (bits >> 16u32) as u8 == 255 && (bits >> 8u32) as u8 == 255 && bits as u8 == 255))
            by {
            if (bits >> 24u32) as u8 == 255 && (bits >> 16u32) as u8 == 255 && (bits >> 8u32) as u8
                == 255 && bits as u8 == 255 {
                assert(self.octets() =~= seq![255u8, 255u8, 255u8, 255u8]);
            }
        }
        bits == 0xffff_ffff
    }

    /// An address in `224.0.0.0/4`.
    pub fn is_multicast(&self) -> (r: bool)
        ensures
            r == self.spec_is_multicast(),
    {
        let first = (self.bits >> 24u32) as u8;
        224 <= first && first <= 239
    }
}

impl Ipv6Addr {
    /// The eight 16-bit segments, first segment first.
    pub open spec fn segments(self) -> Seq<u16> {
        seq![
            (self.bits >> 112u128) as u16,
            (self.bits >> 96u128) as u16,
            (self.bits >> 80u128) as u16,
            (self.bits >> 64u128) as u16,
            (self.bits >> 48u128) as u16,
            (self.bits >> 32u128) as u16,
            (self.bits >> 16u128) as u16,
            self.bits as u16,
        ]
    }

    /// The address `a:b:c:d:e:f:g:h`.
    pub fn new(a: u16, b: u16, c: u16, d: u16, e: u16, f: u16, g: u16, h: u16) -> (r: Ipv6Addr)
        ensures
            r.segments() == seq![a, b, c, d, e, f, g, h],
    {
        let hi: u64 = (a as u64) << 48u64 | (b as u64) << 32u64 | (c as u64) << 16u64 | (d as u64);
        let lo: u64 = (e as u64) << 48u64 | (f as u64) << 32u64 | (g as u64) << 16u64 | (h as u64);
        assert((hi >> 48u64) as u16 == a && (hi >> 32u64) as u16 == b && (hi >> 16u64) as u16 == c
            && hi as u16 == d) by (bit_vector)
            requires
                hi == (a as u64) << 48u64 | (b as u64) << 32u64 | (c as u64) << 16u64 | (d as u64),
        ;
        assert((lo >> 48u64) as u16 == e && (lo >> 32u64) as u16 == f && (lo >> 16u64) as u16 == g
            && lo as u16 == h) by (bit_vector)
            requires
                lo == (e as u64) << 48u64 | (f as u64) << 32u64 | (g as u64) << 16u64 | (h as u64),
        ;
        let bits: u128 = (hi as u128) << 64u128 | (lo as u128);
        assert((bits >> 112u128) as u16 == (hi >> 48u64) as u16 && (bits >> 96u128) as u16 == (hi
            >> 32u64) as u16 && (bits >> 80u128) as u16 == (hi >> 16u64) as u16 && (bits
            >> 64u128) as u16 == hi as u16 && (bits >> 48u128) as u16 == (lo >> 48u64) as u16 && (
        bits >> 32u128) as u16 == (lo >> 32u64) as u16 && (bits >> 16u128) as u16 == (lo
            >> 16u64) as u16 && bits as u16 == lo as u16) by (bit_vector)
            requires
                bits == (hi as u128) << 64u128 | (lo as u128),
        ;
        Ipv6Addr { bits }
    }

    pub open spec fn spec_is_unspecified(self) -> bool {
        self.segments() == seq![0u16, 0u16, 0u16, 0u16, 0u16, 0u16, 0u16, 0u16]
    }

    pub open spec fn spec_is_loopback(self) -> bool {
        self.segments() == seq![0u16, 0u16, 0u16, 0u16, 0u16, 0u16, 0u16, 1u16]
    }

    proof fn lemma_bits_as_segments(self, v: u16)
        ensures
            self.bits == v as u128 <==> ((self.bits >> 112u128) as u16 == 0 && (self.bits
                >> 96u128) as u16 == 0 && (self.bits >> 80u128) as u16 == 0 && (self.bits
                >> 64u128) as u16 == 0 && (self.bits >> 48u128) as u16 == 0 && (self.bits
                >> 32u128) as u16 == 0 && (self.bits >> 16u128) as u16 == 0 && self.bits as u16
                == v),
    {
        let bits = self.bits;
        assert(bits == v as u128 <==> ((bits >> 112u128) as u16 == 0 && (bits >> 96u128) as u16
            == 0 && (bits >> 80u128) as u16 == 0 && (bits >> 64u128) as u16 == 0 && (bits
            >> 48u128) as u16 == 0 && (bits >> 32u128) as u16 == 0 && (bits >> 16u128) as u16 == 0
            && bits as u16 == v)) by (bit_vector);
        if (bits >> 112u128) as u16 == 0 && (bits >> 96u128) as u16 == 0 && (bits >> 80u128) as u16
            == 0 && (bits >> 64u128) as u16 == 0 && (bits >> 48u128) as u16 == 0 && (bits
            >> 32u128) as u16 == 0 && (bits >> 16u128) as u16 == 0 && bits as u16 == v {
        }
    }

    pub open spec fn spec_is_multicast(self) -> bool {
        self.segments()[0] & 0xff00 == 0xff00
    }

    /// `::`.
    pub fn is_unspecified(&self) -> (r: bool)
        ensures
            r == self.spec_is_unspecified(),
    {
        proof {
            self.lemma_bits_as_segments(0);
            if self.bits == 0 {
                assert(self.segments() =~= seq![0u16, 0u16, 0u16, 0u16, 0u16, 0u16, 0u16, 0u16]);
            }
            if self.spec_is_unspecified() {
                assert(self.segments()[7] == 0u16);
            }
        }
        self.bits == 0
    }

    /// `::1`.
    pub fn is_loopback(&self) -> (r: bool)
        ensures
            r == self.spec_is_loopback(),
    {
        proof {
            self.lemma_bits_as_segments(1);
            if self.bits == 1 {
                assert(self.segments() =~= seq![0u16, 0u16, 0u16, 0u16, 0u16, 0u16, 0u16, 1u16]);
            }
            if self.spec_is_loopback() {
                assert(self.segments()[7] == 1u16);
            }
        }
        self.bits == 1
    }

    /// An address in `ff00::/8`.
    pub fn is_multicast(&self) -> (r: bool)
        ensures
            r == self.spec_is_multicast(),
    {
        (self.bits >> 112u128) as u16 & 0xff00 == 0xff00
    }
}

impl IpAddr {
    pub open spec fn spec_is_unspecified(self) -> bool {
        match self {
            IpAddr::V4(a) => a.spec_is_unspecified(),
            IpAddr::V6(a) => a.spec_is_unspecified(),
        }
    }

    pub open spec fn spec_is_loopback(self) -> bool {
        match self {
            IpAddr::V4(a) => a.spec_is_loopback(),
            IpAddr::V6(a) => a.spec_is_loopback(),
        }
    }

    pub open spec fn spec_is_multicast(self) -> bool {
        match self {
            IpAddr::V4(a) => a.spec_is_multicast(),
            IpAddr::V6(a) => a.spec_is_multicast(),
        }
    }

    /// The unspecified address of its family.
    pub fn is_unspecified(&self) -> (r: bool)
        ensures
            r == self.spec_is_unspecified(),
    {
        match self {
            IpAddr::V4(a) => a.is_unspecified(),
            IpAddr::V6(a) => a.is_unspecified(),
        }
    }

    /// A loopback address of its family.
    pub fn is_loopback(&self) -> (r: bool)
        ensures
            r == self.spec_is_loopback(),
    {
        match self {
            IpAddr::V4(a) => a.is_loopback(),
            IpAddr::V6(a) => a.is_loopback(),
        }
    }

    /// A multicast address of its family.
    pub fn is_multicast(&self) -> (r: bool)
        ensures
            r == self.spec_is_multicast(),
    {
        match self {
            IpAddr::V4(a) => a.is_multicast(),
            IpAddr::V6(a) => a.is_multicast(),
        }
    }

    /// Whether `self` sorts before `other`: every IPv4 address before every IPv6
    /// address, and within a family by the numeric value of the bits.
    pub fn precedes(&self, other: &IpAddr) -> (r: bool)
        ensures
            r == addr_lt(*self, *other),
            r == match (*self, *other) {
                (IpAddr::V4(a), IpAddr::V4(b)) => a.bits < b.bits,
                (IpAddr::V4(_), IpAddr::V6(_)) => true,
                (IpAddr::V6(_), IpAddr::V4(_)) => false,
                (IpAddr::V6(a), IpAddr::V6(b)) => a.bits < b.bits,
            },
    {
        match (self, other) {
            (IpAddr::V4(a), IpAddr::V4(b)) => a.bits < b.bits,
            (IpAddr::V4(_), IpAddr::V6(_)) => true,
            (IpAddr::V6(_), IpAddr::V4(_)) => false,
            (IpAddr::V6(a), IpAddr::V6(b)) => a.bits < b.bits,
        }
    }
}

/// The order in which addresses are listed: IPv4 before IPv6, then by value.
pub open spec fn addr_lt(a: IpAddr, b: IpAddr) -> bool {
    match (a, b) {
        (IpAddr::V4(x), IpAddr::V4(y)) => x.bits < y.bits,
        (IpAddr::V4(_), IpAddr::V6(_)) => true,
        (IpAddr::V6(_), IpAddr::V4(_)) => false,
        (IpAddr::V6(x), IpAddr::V6(y)) => x.bits < y.bits,
    }
}

/// `addr_lt` is a strict total order.
pub proof fn lemma_addr_lt_strict_total(a: IpAddr, b: IpAddr, c: IpAddr)
    ensures
        !addr_lt(a, a),
        addr_lt(a, b) && addr_lt(b, c) ==> addr_lt(a, c),
        a != b ==> addr_lt(a, b) || addr_lt(b, a),
        addr_lt(a, b) ==> !addr_lt(b, a),
{
}

} // verus!
