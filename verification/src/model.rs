//! The abstract model of the registry: the registrations in the order they were
//! made, the rules by which a registration is refused, and what the lookups and
//! the hosts file give back.
use crate::addr::{addr_lt, IpAddr, Ipv4Addr};
use crate::names::is_localhost_name;
use crate::text::addr_text;
use vstd::prelude::*;

verus! {

/// Identifies a simulated host.
#[derive(Clone, Copy, Debug, PartialEq, Eq, Hash, Structural)]
pub struct HostId {
    pub raw: u32,
}

impl From<u32> for HostId {
    fn from(raw: u32) -> (r: HostId) {
        HostId { raw }
    }
}

impl vstd::std_specs::convert::FromSpecImpl<u32> for HostId {
    open spec fn obeys_from_spec() -> bool {
        true
    }

    open spec fn from_spec(raw: u32) -> HostId {
        HostId { raw }
    }
}

impl From<HostId> for u32 {
    fn from(id: HostId) -> (r: u32) {
        id.raw
    }
}

impl vstd::std_specs::convert::FromSpecImpl<HostId> for u32 {
    open spec fn obeys_from_spec() -> bool {
        true
    }

    open spec fn from_spec(id: HostId) -> u32 {
        id.raw
    }
}

/// One registration: a host, one of its addresses, and its name.
pub struct RecordView {
    pub id: HostId,
    pub addr: IpAddr,
    pub name: Seq<char>,
}

/// Why a registration is refused.
pub enum Refusal {
    BroadcastAddrInvalid,
    LoopbackAddrInvalid(IpAddr),
    MulticastAddrInvalid(IpAddr),
    UnspecifiedAddrInvalid,
    NameInvalid(Seq<char>),
    AddrExists(IpAddr),
    NameExists(Seq<char>),
}

/// `255.255.255.255`.
pub open spec fn is_v4_broadcast(addr: IpAddr) -> bool {
    match addr {
        IpAddr::V4(a) => a.spec_is_broadcast(),
        IpAddr::V6(_) => false,
    }
}

/// An address that no host may register.
pub open spec fn is_reserved_addr(addr: IpAddr) -> bool {
    addr.spec_is_unspecified() || addr.spec_is_loopback() || is_v4_broadcast(addr)
        || addr.spec_is_multicast()
}

/// Some registration holds the address.
pub open spec fn addr_taken(recs: Seq<RecordView>, addr: IpAddr) -> bool {
    exists|i: int| 0 <= i < recs.len() && (#[trigger] recs[i]).addr == addr
}

/// Some registration holds the name for another host.
pub open spec fn name_taken_by_other(recs: Seq<RecordView>, id: HostId, name: Seq<char>) -> bool {
    exists|i: int| 0 <= i < recs.len() && (#[trigger] recs[i]).name == name && recs[i].id != id
}

/// Why registering `addr` and `name` for `id` is refused, checked in this order;
/// `None` when it is accepted.
pub open spec fn refusal(recs: Seq<RecordView>, id: HostId, addr: IpAddr, name: Seq<char>) -> Option<
    Refusal,
> {
    if addr.spec_is_unspecified() {
        Some(Refusal::UnspecifiedAddrInvalid)
    } else if addr.spec_is_loopback() {
        Some(Refusal::LoopbackAddrInvalid(addr))
    } else if is_v4_broadcast(addr) {
        Some(Refusal::BroadcastAddrInvalid)
    } else if addr.spec_is_multicast() {
        Some(Refusal::MulticastAddrInvalid(addr))
    } else if is_localhost_name(name) {
        Some(Refusal::NameInvalid(name))
    } else if addr_taken(recs, addr) {
        Some(Refusal::AddrExists(addr))
    } else if name_taken_by_other(recs, id, name) {
        Some(Refusal::NameExists(name))
    } else {
        None
    }
}

/// What every registry holds: each address once, each name for one host only,
/// and no reserved address or `localhost` name.
pub open spec fn valid_records(recs: Seq<RecordView>) -> bool {
    &&& forall|i: int, j: int|
        0 <= i < recs.len() && 0 <= j < recs.len() && i != j ==> #[trigger] recs[i].addr
            != #[trigger] recs[j].addr
    &&& forall|i: int, j: int|
        0 <= i < recs.len() && 0 <= j < recs.len() && #[trigger] recs[i].name
            == #[trigger] recs[j].name ==> recs[i].id == recs[j].id
    &&& forall|i: int|
        0 <= i < recs.len() ==> !is_reserved_addr(#[trigger] recs[i].addr) && !is_localhost_name(
            recs[i].name,
        )
}

/// The registration that holds the address, if any.
pub open spec fn record_for_addr(recs: Seq<RecordView>, addr: IpAddr) -> Option<RecordView> {
    if addr_taken(recs, addr) {
        Some(recs[choose|i: int| 0 <= i < recs.len() && (#[trigger] recs[i]).addr == addr])
    } else {
        None
    }
}

/// The addresses registered under the name, in the order they were registered.
pub open spec fn addrs_named(recs: Seq<RecordView>, name: Seq<char>) -> Seq<IpAddr>
    decreases recs.len(),
{
    if recs.len() == 0 {
        seq![]
    } else if recs.last().name == name {
        addrs_named(recs.drop_last(), name).push(recs.last().addr)
    } else {
        addrs_named(recs.drop_last(), name)
    }
}

/// The first IPv4 address in the sequence.
pub open spec fn first_v4(s: Seq<IpAddr>) -> Option<Ipv4Addr>
    decreases s.len(),
{
    if s.len() == 0 {
        None
    } else {
        match s[0] {
            IpAddr::V4(a) => Some(a),
            IpAddr::V6(_) => first_v4(s.drop_first()),
        }
    }
}

/// The first IPv6 address in the sequence.
pub open spec fn first_v6(s: Seq<IpAddr>) -> Option<crate::addr::Ipv6Addr>
    decreases s.len(),
{
    if s.len() == 0 {
        None
    } else {
        match s[0] {
            IpAddr::V6(a) => Some(a),
            IpAddr::V4(_) => first_v6(s.drop_first()),
        }
    }
}

/// Each record comes before the next in address order.
pub open spec fn sorted_by_addr(s: Seq<RecordView>) -> bool {
    forall|i: int, j: int| 0 <= i < j < s.len() ==> addr_lt(#[trigger] s[i].addr, #[trigger] s[j].addr)
}

/// `listed` holds exactly the registrations of `recs`, in address order.
pub open spec fn is_sorted_arrangement(recs: Seq<RecordView>, listed: Seq<RecordView>) -> bool {
    &&& listed.len() == recs.len()
    &&& sorted_by_addr(listed)
    &&& forall|r: RecordView| #[trigger] listed.contains(r) <==> recs.contains(r)
}

/// The first two lines of every hosts file.
pub open spec fn hosts_header() -> Seq<char> {
    "127.0.0.1 localhost\n"@ + "::1 localhost\n"@
}

/// `<address> <name>` and a line feed.
pub open spec fn host_line(r: RecordView) -> Seq<char> {
    addr_text(r.addr) + seq![' '] + r.name + seq!['\n']
}

/// One line for each registration, in the order given.
pub open spec fn host_lines(s: Seq<RecordView>) -> Seq<char>
    decreases s.len(),
{
    if s.len() == 0 {
        seq![]
    } else {
        host_lines(s.drop_last()) + host_line(s.last())
    }
}

/// The hosts file that lists the registrations `listed`.
pub open spec fn hosts_text(listed: Seq<RecordView>) -> Seq<char> {
    hosts_header() + host_lines(listed)
}

/// The text that describes a refusal.
pub open spec fn refusal_message(r: Refusal) -> Seq<char> {
    match r {
        Refusal::BroadcastAddrInvalid => "broadcast address '"@ + addr_text(
            IpAddr::V4(Ipv4Addr { bits: 0xffff_ffff }),
        ) + "' is invalid in DNS"@,
        Refusal::LoopbackAddrInvalid(a) => "loopback address '"@ + addr_text(a) + "' is invalid in DNS"@,
        Refusal::MulticastAddrInvalid(a) => "multicast address '"@ + addr_text(a)
            + "' is invalid in DNS"@,
        Refusal::UnspecifiedAddrInvalid => "unspecified address '"@ + addr_text(
            IpAddr::V4(Ipv4Addr { bits: 0 }),
        ) + "' is invalid in DNS"@,
        Refusal::NameInvalid(n) => "name '"@ + n + "' is invalid in DNS"@,
        Refusal::NameExists(n) => "a DNS registration record already exists for name '"@ + n
            + "'"@,
        Refusal::AddrExists(a) => "a DNS registration record already exists for address '"@
            + addr_text(a) + "'"@,
    }
}

} // verus!
