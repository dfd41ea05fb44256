//! Laws of the registry, stated over the model.
use crate::addr::{addr_lt, lemma_addr_lt_strict_total, IpAddr, Ipv4Addr, Ipv6Addr};
use crate::model::{
    addr_taken, addrs_named, first_v4, first_v6, hosts_text, is_reserved_addr,
    is_sorted_arrangement, is_v4_broadcast, name_taken_by_other, record_for_addr, refusal,
    sorted_by_addr, valid_records, HostId, RecordView, Refusal,
};
use crate::names::{
    ascii_lower, has_ascii_whitespace, is_ascii_whitespace, is_localhost_name, localhost_bytes,
};
use crate::text::{dec_text, digit_char, hex_text};
use vstd::prelude::*;

verus! {

/// A registration that is accepted keeps the registry valid: every address
/// registered once, every name held by one host, no reserved address and no
/// `localhost` name.
pub proof fn lemma_accepted_registration_keeps_valid(
    recs: Seq<RecordView>,
    id: HostId,
    addr: IpAddr,
    name: Seq<char>,
)
    requires
        valid_records(recs),
        refusal(recs, id, addr, name) is None,
    ensures
        valid_records(recs.push(RecordView { id, addr, name })),
{
    let n = recs.len() as int;
    let s = recs.push(RecordView { id, addr, name });
    assert forall|i: int, j: int|
        0 <= i < s.len() && 0 <= j < s.len() && i != j implies #[trigger] s[i].addr
        != #[trigger] s[j].addr by {
        if i == n {
            assert(recs[j] == s[j]);
        } else if j == n {
            assert(recs[i] == s[i]);
        } else {
            assert(recs[i] == s[i] && recs[j] == s[j]);
        }
    }
    assert forall|i: int, j: int|
        0 <= i < s.len() && 0 <= j < s.len() && #[trigger] s[i].name == #[trigger] s[j].name implies s[i].id
        == s[j].id by {
        if i == n && j < n {
            assert(recs[j] == s[j]);
        } else if j == n && i < n {
            assert(recs[i] == s[i]);
        } else if i < n && j < n {
            assert(recs[i] == s[i] && recs[j] == s[j]);
        }
    }
    assert forall|i: int| 0 <= i < s.len() implies !is_reserved_addr(#[trigger] s[i].addr)
        && !is_localhost_name(s[i].name) by {
        if i < n {
            assert(recs[i] == s[i]);
        }
    }
}

/// Read after write: once a registration is accepted, the address leads to it,
/// the name lists its address after the ones it had, and every other address
/// and name answers as before.
pub proof fn lemma_lookup_after_registration(
    recs: Seq<RecordView>,
    id: HostId,
    addr: IpAddr,
    name: Seq<char>,
)
    requires
        valid_records(recs),
        refusal(recs, id, addr, name) is None,
    ensures
        ({
            let after = recs.push(RecordView { id, addr, name });
            &&& record_for_addr(after, addr) == Some(RecordView { id, addr, name })
            &&& addrs_named(after, name) == addrs_named(recs, name).push(addr)
            &&& forall|other: IpAddr|
                other != addr ==> #[trigger] record_for_addr(after, other) == record_for_addr(
                    recs,
                    other,
                )
            &&& forall|other: Seq<char>|
                other != name ==> #[trigger] addrs_named(after, other) == addrs_named(recs, other)
        }),
{
    let r = RecordView { id, addr, name };
    let after = recs.push(r);
    let n = recs.len() as int;
    assert(after.drop_last() =~= recs);
    assert(addr_taken(after, addr)) by {
        assert(after[n] == r);
    }
    let c = choose|i: int| 0 <= i < after.len() && (#[trigger] after[i]).addr == addr;
    if c < n {
        assert(recs[c] == after[c]);
        assert(addr_taken(recs, addr));
    }
    assert forall|other: IpAddr| other != addr implies #[trigger] record_for_addr(after, other)
        == record_for_addr(recs, other) by {
        if addr_taken(recs, other) {
            let i = choose|i: int| 0 <= i < recs.len() && (#[trigger] recs[i]).addr == other;
            assert(after[i] == recs[i]);
            assert(addr_taken(after, other));
            let c1 = choose|i: int| 0 <= i < after.len() && (#[trigger] after[i]).addr == other;
            let c2 = choose|i: int| 0 <= i < recs.len() && (#[trigger] recs[i]).addr == other;
            assert(c1 != n);
            assert(after[c1] == recs[c1]);
            assert(after[c2] == recs[c2]);
        } else {
            if addr_taken(after, other) {
                let i = choose|i: int| 0 <= i < after.len() && (#[trigger] after[i]).addr == other;
                assert(i != n);
                assert(recs[i] == after[i]);
            }
        }
    }
}

/// A host that holds a name may register a further vacant, unreserved address
/// under that name (an IPv6 address beside its IPv4 one, say).
pub proof fn lemma_owner_may_add_address(
    recs: Seq<RecordView>,
    i: int,
    addr: IpAddr,
)
    requires
        valid_records(recs),
        0 <= i < recs.len(),
        !is_reserved_addr(addr),
        !addr_taken(recs, addr),
    ensures
        refusal(recs, recs[i].id, addr, recs[i].name) is None,
{
    assert(!is_localhost_name(recs[i].name));
    assert forall|j: int| 0 <= j < recs.len() && (#[trigger] recs[j]).name == recs[i].name implies recs[j].id
        == recs[i].id by {
        let _ = recs[j].name;
        let _ = recs[i].name;
    }
}

/// Another host may not register any address under a name that a host holds.
pub proof fn lemma_other_host_refused_name(
    recs: Seq<RecordView>,
    i: int,
    id: HostId,
    addr: IpAddr,
)
    requires
        valid_records(recs),
        0 <= i < recs.len(),
        recs[i].id != id,
        !is_reserved_addr(addr),
        !addr_taken(recs, addr),
    ensures
        refusal(recs, id, addr, recs[i].name) == Some(Refusal::NameExists(recs[i].name)),
{
    assert(!is_localhost_name(recs[i].name));
    assert(name_taken_by_other(recs, id, recs[i].name));
}

/// Two sequences in address order with the same length and the same members
/// are equal.
pub proof fn lemma_sorted_same_members_equal(a: Seq<RecordView>, b: Seq<RecordView>)
    requires
        sorted_by_addr(a),
        sorted_by_addr(b),
        a.len() == b.len(),
        forall|r: RecordView| #[trigger] a.contains(r) <==> b.contains(r),
    ensures
        a == b,
    decreases a.len(),
{
    if a.len() == 0 {
        assert(a =~= b);
        return;
    }
    let n = a.len() - 1;
    let x = a[n];
    let y = b[n];
    assert(a.contains(x));
    assert(b.contains(y));
    assert(b.contains(x));
    assert(a.contains(y));
    let k = choose|k: int| 0 <= k < b.len() && b[k] == x;
    let m = choose|m: int| 0 <= m < a.len() && a[m] == y;
    if k < n {
        assert(addr_lt(b[k].addr, b[n].addr));
        if m < n {
            assert(addr_lt(a[m].addr, a[n].addr));
            lemma_addr_lt_strict_total(x.addr, y.addr, x.addr);
        } else {
            lemma_addr_lt_strict_total(x.addr, x.addr, x.addr);
        }
    }
    assert(x == y);
    let a1 = a.drop_last();
    let b1 = b.drop_last();
    assert forall|r: RecordView| #[trigger] a1.contains(r) <==> b1.contains(r) by {
        if a1.contains(r) {
            let i = choose|i: int| 0 <= i < a1.len() && a1[i] == r;
            assert(a[i] == r);
            assert(addr_lt(a[i].addr, a[n].addr));
            lemma_addr_lt_strict_total(r.addr, x.addr, x.addr);
            assert(a.contains(r));
            assert(b.contains(r));
            let j = choose|j: int| 0 <= j < b.len() && b[j] == r;
            assert(j != n);
            assert(b1[j] == r);
        }
        if b1.contains(r) {
            let i = choose|i: int| 0 <= i < b1.len() && b1[i] == r;
            assert(b[i] == r);
            assert(addr_lt(b[i].addr, b[n].addr));
            lemma_addr_lt_strict_total(r.addr, x.addr, x.addr);
            assert(b.contains(r));
            assert(a.contains(r));
            let j = choose|j: int| 0 <= j < a.len() && a[j] == r;
            assert(j != n);
            assert(a1[j] == r);
        }
    }
    lemma_sorted_same_members_equal(a1, b1);
    assert(a =~= b) by {
        assert forall|i: int| 0 <= i < a.len() implies a[i] == b[i] by {
            if i < n {
                assert(a1[i] == b1[i]);
            }
        }
    }
}

/// The hosts file depends only on which registrations were made, not on the
/// order in which they were made: any two address-ordered listings of the same
/// registrations are the same listing, and so give the same hosts file.
pub proof fn lemma_hosts_file_independent_of_order(
    first: Seq<RecordView>,
    second: Seq<RecordView>,
    listed_first: Seq<RecordView>,
    listed_second: Seq<RecordView>,
)
    requires
        first.len() == second.len(),
        forall|r: RecordView| #[trigger] first.contains(r) <==> second.contains(r),
        is_sorted_arrangement(first, listed_first),
        is_sorted_arrangement(second, listed_second),
    ensures
        listed_first == listed_second,
        hosts_text(listed_first) == hosts_text(listed_second),
{
    assert forall|r: RecordView| #[trigger] listed_first.contains(r) <==> listed_second.contains(r) by {
        assert(listed_first.contains(r) <==> first.contains(r));
        assert(listed_second.contains(r) <==> second.contains(r));
    }
    lemma_sorted_same_members_equal(listed_first, listed_second);
}


/// `first_v4` finds the earliest IPv4 address: it returns `a` exactly when some
/// position holds `V4(a)` and every earlier position holds an IPv6 address, and
/// `None` exactly when no position holds an IPv4 address.
pub proof fn lemma_first_v4_is_earliest(s: Seq<IpAddr>)
    ensures
        match first_v4(s) {
            Some(a) => exists|i: int|
                0 <= i < s.len() && s[i] == IpAddr::V4(a) && forall|j: int|
                    0 <= j < i ==> (#[trigger] s[j]) is V6,
            None => forall|i: int| 0 <= i < s.len() ==> (#[trigger] s[i]) is V6,
        },
    decreases s.len(),
{
    if s.len() > 0 {
        let t = s.drop_first();
        lemma_first_v4_is_earliest(t);
        match s[0] {
            IpAddr::V4(a) => {
                assert(s[0] == IpAddr::V4(a));
            },
            IpAddr::V6(_) => {
                match first_v4(t) {
                    Some(a) => {
                        let i = choose|i: int|
                            0 <= i < t.len() && t[i] == IpAddr::V4(a) && forall|j: int|
                                0 <= j < i ==> (#[trigger] t[j]) is V6;
                        assert(s[i + 1] == IpAddr::V4(a));
                        assert forall|j: int| 0 <= j < i + 1 implies (#[trigger] s[j]) is V6 by {
                            if j > 0 {
                                assert(s[j] == t[j - 1]);
                            }
                        }
                    },
                    None => {
                        assert forall|i: int| 0 <= i < s.len() implies (#[trigger] s[i]) is V6 by {
                            if i > 0 {
                                assert(s[i] == t[i - 1]);
                            }
                        }
                    },
                }
            },
        }
    }
}

/// `first_v6` finds the earliest IPv6 address: it returns `a` exactly when some
/// position holds `V6(a)` and every earlier position holds an IPv4 address, and
/// `None` exactly when no position holds an IPv6 address.
pub proof fn lemma_first_v6_is_earliest(s: Seq<IpAddr>)
    ensures
        match first_v6(s) {
            Some(a) => exists|i: int|
                0 <= i < s.len() && s[i] == IpAddr::V6(a) && forall|j: int|
                    0 <= j < i ==> (#[trigger] s[j]) is V4,
            None => forall|i: int| 0 <= i < s.len() ==> (#[trigger] s[i]) is V4,
        },
    decreases s.len(),
{
    if s.len() > 0 {
        let t = s.drop_first();
        lemma_first_v6_is_earliest(t);
        match s[0] {
            IpAddr::V6(a) => {
                assert(s[0] == IpAddr::V6(a));
            },
            IpAddr::V4(_) => {
                match first_v6(t) {
                    Some(a) => {
                        let i = choose|i: int|
                            0 <= i < t.len() && t[i] == IpAddr::V6(a) && forall|j: int|
                                0 <= j < i ==> (#[trigger] t[j]) is V4;
                        assert(s[i + 1] == IpAddr::V6(a));
                        assert forall|j: int| 0 <= j < i + 1 implies (#[trigger] s[j]) is V4 by {
                            if j > 0 {
                                assert(s[j] == t[j - 1]);
                            }
                        }
                    },
                    None => {
                        assert forall|i: int| 0 <= i < s.len() implies (#[trigger] s[i]) is V4 by {
                            if i > 0 {
                                assert(s[i] == t[i - 1]);
                            }
                        }
                    },
                }
            },
        }
    }
}

/// The addresses listed for a name are exactly those of the registrations under
/// that name, in registration order: the returned positions increase, each holds
/// a registration under the name with the listed address, and every
/// registration under the name is among them.
pub proof fn lemma_addrs_named_are_registrations_in_order(recs: Seq<RecordView>, name: Seq<char>) -> (idx: Seq<int>)
    ensures
        idx.len() == addrs_named(recs, name).len(),
        forall|k: int|
            0 <= k < idx.len() ==> 0 <= #[trigger] idx[k] < recs.len() && recs[idx[k]].name == name
                && addrs_named(recs, name)[k] == recs[idx[k]].addr,
        forall|k: int, l: int| 0 <= k < l < idx.len() ==> #[trigger] idx[k] < #[trigger] idx[l],
        forall|i: int| 0 <= i < recs.len() && (#[trigger] recs[i]).name == name ==> idx.contains(i),
    decreases recs.len(),
{
    if recs.len() == 0 {
        Seq::empty()
    } else {
        let n = recs.len() - 1;
        let front = recs.drop_last();
        let sub = lemma_addrs_named_are_registrations_in_order(front, name);
        assert forall|k: int| 0 <= k < sub.len() implies 0 <= #[trigger] sub[k] < recs.len()
            && recs[sub[k]].name == name by {
            assert(recs[sub[k]] == front[sub[k]]);
        }
        if recs.last().name == name {
            let idx = sub.push(n);
            assert forall|k: int|
                0 <= k < idx.len() implies 0 <= #[trigger] idx[k] < recs.len() && recs[idx[k]].name == name
                && addrs_named(recs, name)[k] == recs[idx[k]].addr by {
                if k < sub.len() {
                    assert(idx[k] == sub[k]);
                    assert(recs[sub[k]] == front[sub[k]]);
                }
            }
            assert forall|i: int| 0 <= i < recs.len() && (#[trigger] recs[i]).name == name implies idx.contains(i) by {
                if i < n {
                    assert(front[i] == recs[i]);
                    assert(sub.contains(i));
                    let k = choose|k: int| 0 <= k < sub.len() && sub[k] == i;
                    assert(idx[k] == i);
                } else {
                    assert(idx[sub.len() as int] == i);
                }
            }
            idx
        } else {
            assert forall|k: int|
                0 <= k < sub.len() implies 0 <= #[trigger] sub[k] < recs.len() && recs[sub[k]].name == name
                && addrs_named(recs, name)[k] == recs[sub[k]].addr by {
                assert(recs[sub[k]] == front[sub[k]]);
            }
            assert forall|i: int| 0 <= i < recs.len() && (#[trigger] recs[i]).name == name implies sub.contains(i) by {
                assert(i != n);
                assert(front[i] == recs[i]);
            }
            sub
        }
    }
}

/// A name that no registration holds has no addresses.
pub proof fn lemma_unregistered_name_has_no_addrs(recs: Seq<RecordView>, name: Seq<char>)
    requires
        forall|i: int| 0 <= i < recs.len() ==> (#[trigger] recs[i]).name != name,
    ensures
        addrs_named(recs, name) == Seq::<IpAddr>::empty(),
{
    let idx = lemma_addrs_named_are_registrations_in_order(recs, name);
    if idx.len() > 0 {
        let _ = idx[0];
        assert(recs[idx[0]].name == name);
    }
    assert(addrs_named(recs, name) =~= Seq::<IpAddr>::empty());
}

/// Addresses are ordered IPv4 before IPv6, and within a family by the numeric
/// value of their bits.
pub proof fn lemma_addr_order_is_numeric(x: Ipv4Addr, y: Ipv4Addr, u: Ipv6Addr, v: Ipv6Addr)
    ensures
        addr_lt(IpAddr::V4(x), IpAddr::V4(y)) <==> x.bits < y.bits,
        addr_lt(IpAddr::V6(u), IpAddr::V6(v)) <==> u.bits < v.bits,
        addr_lt(IpAddr::V4(x), IpAddr::V6(u)),
        !addr_lt(IpAddr::V6(u), IpAddr::V4(x)),
{
}

/// IPv4 addresses are ordered by their octets, first octet first.
pub proof fn lemma_ipv4_order_is_by_octets(x: Ipv4Addr, y: Ipv4Addr)
    ensures
        addr_lt(IpAddr::V4(x), IpAddr::V4(y)) <==> {
            let (a, b) = (x.octets(), y.octets());
            ||| a[0] < b[0]
            ||| a[0] == b[0] && a[1] < b[1]
            ||| a[0] == b[0] && a[1] == b[1] && a[2] < b[2]
            ||| a[0] == b[0] && a[1] == b[1] && a[2] == b[2] && a[3] < b[3]
        },
{
    let p = x.bits;
    let q = y.bits;
    assert(p < q <==> (((p >> 24u32) as u8) < (q >> 24u32) as u8 || ((p >> 24u32) as u8 == (q
        >> 24u32) as u8 && ((p >> 16u32) as u8) < (q >> 16u32) as u8) || ((p >> 24u32) as u8 == (q
        >> 24u32) as u8 && (p >> 16u32) as u8 == (q >> 16u32) as u8 && ((p >> 8u32) as u8) < (q
        >> 8u32) as u8) || ((p >> 24u32) as u8 == (q >> 24u32) as u8 && (p >> 16u32) as u8 == (q
        >> 16u32) as u8 && (p >> 8u32) as u8 == (q >> 8u32) as u8 && (p as u8) < q as u8)))
        by (bit_vector);
}

/// In the hosts file, IPv4 lines come before IPv6 lines, and within a family
/// the addresses increase numerically.
pub proof fn lemma_hosts_file_in_numeric_order(recs: Seq<RecordView>, listed: Seq<RecordView>, i: int, j: int)
    requires
        is_sorted_arrangement(recs, listed),
        0 <= i < j < listed.len(),
    ensures
        listed[i].addr is V6 ==> listed[j].addr is V6,
        listed[i].addr is V4 && listed[j].addr is V4 ==> listed[i].addr->V4_0.bits
            < listed[j].addr->V4_0.bits,
        listed[i].addr is V6 && listed[j].addr is V6 ==> listed[i].addr->V6_0.bits
            < listed[j].addr->V6_0.bits,
{
    assert(addr_lt(listed[i].addr, listed[j].addr));
    match (listed[i].addr, listed[j].addr) {
        (IpAddr::V4(x), IpAddr::V4(y)) => lemma_addr_order_is_numeric(x, y, Ipv6Addr { bits: 0 }, Ipv6Addr { bits: 0 }),
        (IpAddr::V6(x), IpAddr::V6(y)) => lemma_addr_order_is_numeric(Ipv4Addr { bits: 0 }, Ipv4Addr { bits: 0 }, x, y),
        (IpAddr::V6(u), IpAddr::V4(x)) => lemma_addr_order_is_numeric(x, x, u, u),
        _ => {},
    }
}

/// The reserved IPv4 addresses by value: `0.0.0.0`, `127.0.0.0/8`,
/// `255.255.255.255` and `224.0.0.0/4`.
pub proof fn lemma_ipv4_reserved_ranges(a: Ipv4Addr)
    ensures
        a.spec_is_unspecified() <==> a.bits == 0,
        a.spec_is_loopback() <==> 0x7f00_0000 <= a.bits <= 0x7fff_ffff,
        a.spec_is_broadcast() <==> a.bits == 0xffff_ffff,
        a.spec_is_multicast() <==> 0xe000_0000 <= a.bits <= 0xefff_ffff,
        is_v4_broadcast(IpAddr::V4(a)) <==> a.bits == 0xffff_ffff,
{
    let b = a.bits;
    assert(b == 0 <==> ((b >> 24u32) as u8 == 0 && (b >> 16u32) as u8 == 0 && (b >> 8u32) as u8 == 0
        && b as u8 == 0)) by (bit_vector);
    assert(b == 0xffff_ffff <==> ((b >> 24u32) as u8 == 255 && (b >> 16u32) as u8 == 255 && (b
        >> 8u32) as u8 == 255 && b as u8 == 255)) by (bit_vector);
    assert((0x7f00_0000 <= b <= 0x7fff_ffff) <==> (b >> 24u32) as u8 == 127) by (bit_vector);
    assert((0xe000_0000 <= b <= 0xefff_ffff) <==> (224 <= ((b >> 24u32) as u8) <= 239)) by (bit_vector);
    if (b >> 24u32) as u8 == 0 && (b >> 16u32) as u8 == 0 && (b >> 8u32) as u8 == 0 && b as u8 == 0 {
        assert(a.octets() =~= seq![0u8, 0u8, 0u8, 0u8]);
    }
    if (b >> 24u32) as u8 == 255 && (b >> 16u32) as u8 == 255 && (b >> 8u32) as u8 == 255 && b as u8
        == 255 {
        assert(a.octets() =~= seq![255u8, 255u8, 255u8, 255u8]);
    }
    if a.spec_is_unspecified() {
        assert(a.octets()[3] == 0u8);
    }
    if a.spec_is_broadcast() {
        assert(a.octets()[3] == 255u8);
    }
}

/// The reserved IPv6 addresses by value: `::`, `::1` and `ff00::/8`.
pub proof fn lemma_ipv6_reserved_ranges(a: Ipv6Addr)
    ensures
        a.spec_is_unspecified() <==> a.bits == 0,
        a.spec_is_loopback() <==> a.bits == 1,
        a.spec_is_multicast() <==> a.bits >= 0xff00_0000_0000_0000_0000_0000_0000_0000u128,
{
    let b = a.bits;
    assert(b == 0 <==> ((b >> 112u128) as u16 == 0 && (b >> 96u128) as u16 == 0 && (b >> 80u128) as u16
        == 0 && (b >> 64u128) as u16 == 0 && (b >> 48u128) as u16 == 0 && (b >> 32u128) as u16 == 0
        && (b >> 16u128) as u16 == 0 && b as u16 == 0)) by (bit_vector);
    assert(b == 1 <==> ((b >> 112u128) as u16 == 0 && (b >> 96u128) as u16 == 0 && (b >> 80u128) as u16
        == 0 && (b >> 64u128) as u16 == 0 && (b >> 48u128) as u16 == 0 && (b >> 32u128) as u16 == 0
        && (b >> 16u128) as u16 == 0 && b as u16 == 1)) by (bit_vector);
    assert((b >= 0xff00_0000_0000_0000_0000_0000_0000_0000u128) <==> ((b >> 112u128) as u16 & 0xff00
        == 0xff00)) by (bit_vector);
    if a.segments() =~= seq![0u16, 0u16, 0u16, 0u16, 0u16, 0u16, 0u16, 0u16] {
    }
    if b == 0 {
        assert(a.segments() =~= seq![0u16, 0u16, 0u16, 0u16, 0u16, 0u16, 0u16, 0u16]);
    }
    if b == 1 {
        assert(a.segments() =~= seq![0u16, 0u16, 0u16, 0u16, 0u16, 0u16, 0u16, 1u16]);
    }
    if a.spec_is_unspecified() {
        assert(a.segments()[7] == 0u16);
    }
    if a.spec_is_loopback() {
        assert(a.segments()[7] == 1u16);
    }
}

/// An empty registry accepts an IPv4 address exactly when it is none of
/// `0.0.0.0`, `127.0.0.0/8`, `255.255.255.255` and `224.0.0.0/4`, under any
/// name but `localhost`.
pub proof fn lemma_empty_registry_accepts_ipv4(id: HostId, a: Ipv4Addr, name: Seq<char>)
    ensures
        refusal(Seq::empty(), id, IpAddr::V4(a), name) is None <==> {
            &&& a.bits != 0
            &&& !(0x7f00_0000 <= a.bits <= 0x7fff_ffff)
            &&& a.bits != 0xffff_ffff
            &&& !(0xe000_0000 <= a.bits <= 0xefff_ffff)
            &&& !is_localhost_name(name)
        },
{
    lemma_ipv4_reserved_ranges(a);
}

/// An empty registry accepts an IPv6 address exactly when it is none of `::`,
/// `::1` and `ff00::/8`, under any name but `localhost`.
pub proof fn lemma_empty_registry_accepts_ipv6(id: HostId, a: Ipv6Addr, name: Seq<char>)
    ensures
        refusal(Seq::empty(), id, IpAddr::V6(a), name) is None <==> {
            &&& a.bits != 0
            &&& a.bits != 1
            &&& a.bits < 0xff00_0000_0000_0000_0000_0000_0000_0000u128
            &&& !is_localhost_name(name)
        },
{
    lemma_ipv6_reserved_ranges(a);
}

/// For an ASCII name, being `localhost` means nine characters that spell
/// `localhost`, each letter in either case.
pub proof fn lemma_localhost_ascii_names(n: Seq<char>)
    requires
        vstd::utf8::is_ascii_chars(n),
    ensures
        is_localhost_name(n) <==> {
            let lower = seq!['l', 'o', 'c', 'a', 'l', 'h', 'o', 's', 't'];
            let upper = seq!['L', 'O', 'C', 'A', 'L', 'H', 'O', 'S', 'T'];
            &&& n.len() == 9
            &&& forall|i: int| 0 <= i < 9 ==> #[trigger] n[i] == lower[i] || n[i] == upper[i]
        },
{
    let lower = seq!['l', 'o', 'c', 'a', 'l', 'h', 'o', 's', 't'];
    let upper = seq!['L', 'O', 'C', 'A', 'L', 'H', 'O', 'S', 'T'];
    let bytes = vstd::utf8::encode_utf8(n);
    vstd::utf8::is_ascii_chars_encode_utf8(n);
    vstd::utf8::is_ascii_chars_nat_bound(n);
    let t = localhost_bytes();
    assert forall|i: int| 0 <= i < n.len() && i < 9 implies (ascii_lower(bytes[i]) == ascii_lower(t[i])
        <==> (n[i] == lower[i] || n[i] == upper[i])) by {
        assert(n[i] as u8 == bytes[i]);
        assert((n[i] as nat) < 128);
    }
    if is_localhost_name(n) {
        assert forall|i: int| 0 <= i < 9 implies #[trigger] n[i] == lower[i] || n[i] == upper[i] by {
            assert(ascii_lower(bytes[i]) == ascii_lower(t[i]));
        }
    }
    if n.len() == 9 && forall|i: int| 0 <= i < 9 ==> #[trigger] n[i] == lower[i] || n[i] == upper[i] {
        assert forall|i: int| 0 <= i < bytes.len() implies ascii_lower(bytes[i]) == ascii_lower(t[i]) by {
            assert(n[i] == lower[i] || n[i] == upper[i]);
        }
    }
}

/// The value of a digit character: `0`-`9`, then lower-case `a`-`f`.
pub open spec fn digit_value(c: char) -> int {
    if '0' <= c <= '9' {
        c as int - '0' as int
    } else if 'a' <= c <= 'f' {
        c as int - 'a' as int + 10
    } else {
        -1
    }
}

/// The number that a string of digits denotes in the given base.
pub open spec fn digits_value(s: Seq<char>, base: int) -> int
    decreases s.len(),
{
    if s.len() == 0 {
        0
    } else {
        digits_value(s.drop_last(), base) * base + digit_value(s.last())
    }
}

/// `dec_text(v)` is the decimal numeral of `v`: decimal digits that denote
/// `v`, without a leading zero.
pub proof fn lemma_dec_text_is_decimal_numeral(v: nat)
    ensures
        digits_value(dec_text(v), 10) == v,
        dec_text(v).len() >= 1,
        forall|i: int| 0 <= i < dec_text(v).len() ==> '0' <= #[trigger] dec_text(v)[i] <= '9',
        dec_text(v).len() > 1 ==> dec_text(v)[0] != '0',
        v >= 10 ==> dec_text(v).len() > 1,
    decreases v,
{
    let d = v % 10;
    assert(((48 + d) as u8) as char as int == 48 + d);
    assert(digit_value(digit_char(d)) == d);
    assert(dec_text(v).last() == digit_char(d));
    assert(dec_text(v).drop_last().len() == 0 ==> digits_value(dec_text(v).drop_last(), 10) == 0);
    if v < 10 {
        assert(dec_text(v).drop_last() =~= Seq::<char>::empty());
    }
    if v >= 10 {
        assert(dec_text(v).drop_last() =~= dec_text(v / 10));
        assert(v == (v / 10) * 10 + d);
        lemma_dec_text_is_decimal_numeral(v / 10);
        let s = dec_text(v);
        assert(s.drop_last() =~= dec_text(v / 10));
        assert(s[0] == dec_text(v / 10)[0]);
        assert forall|i: int| 0 <= i < s.len() implies '0' <= #[trigger] s[i] <= '9' by {
            if i < s.len() - 1 {
                assert(s[i] == dec_text(v / 10)[i]);
            }
        }
        if v / 10 < 10 {
            assert(dec_text(v / 10) == seq![digit_char(v / 10)]);
            assert(((48 + v / 10) as u8) as char as int == 48 + v / 10);
            assert('0' as int == 48);
        }
    }
}

/// `hex_text(v)` is the lower-case hexadecimal numeral of `v`: digits `0`-`9`
/// and `a`-`f` that denote `v`, without a leading zero.
pub proof fn lemma_hex_text_is_hex_numeral(v: nat)
    ensures
        digits_value(hex_text(v), 16) == v,
        hex_text(v).len() >= 1,
        forall|i: int|
            0 <= i < hex_text(v).len() ==> ('0' <= #[trigger] hex_text(v)[i] <= '9' || 'a'
                <= hex_text(v)[i] <= 'f'),
        hex_text(v).len() > 1 ==> hex_text(v)[0] != '0',
        v >= 16 ==> hex_text(v).len() > 1,
    decreases v,
{
    let d = v % 16;
    if d < 10 {
        assert(((48 + d) as u8) as char as int == 48 + d);
    } else {
        assert(((87 + d) as u8) as char as int == 87 + d);
    }
    assert(digit_value(digit_char(d)) == d);
    assert(hex_text(v).last() == digit_char(d));
    assert(hex_text(v).drop_last().len() == 0 ==> digits_value(hex_text(v).drop_last(), 16) == 0);
    if v < 16 {
        assert(hex_text(v).drop_last() =~= Seq::<char>::empty());
    }
    if v >= 16 {
        assert(hex_text(v).drop_last() =~= hex_text(v / 16));
        assert(v == (v / 16) * 16 + d);
        lemma_hex_text_is_hex_numeral(v / 16);
        let s = hex_text(v);
        assert(s.drop_last() =~= hex_text(v / 16));
        assert(s[0] == hex_text(v / 16)[0]);
        assert forall|i: int| 0 <= i < s.len() implies ('0' <= #[trigger] s[i] <= '9' || 'a' <= s[i]
            <= 'f') by {
            if i < s.len() - 1 {
                assert(s[i] == hex_text(v / 16)[i]);
            }
        }
        if v / 16 < 16 {
            assert(hex_text(v / 16) == seq![digit_char(v / 16)]);
            assert('0' as int == 48);
            if v / 16 < 10 {
                assert(((48 + v / 16) as u8) as char as int == 48 + v / 16);
            } else {
                assert(((87 + v / 16) as u8) as char as int == 87 + v / 16);
            }
        }
    }
}

/// For an ASCII name, the whitespace that the hosts file cannot hold is exactly
/// a space, tab, line feed, form feed or carriage return.
pub proof fn lemma_whitespace_in_ascii_names(n: Seq<char>)
    requires
        vstd::utf8::is_ascii_chars(n),
    ensures
        has_ascii_whitespace(n) <==> exists|i: int|
            0 <= i < n.len() && (#[trigger] n[i] == ' ' || n[i] == '\t' || n[i] == '\n' || n[i]
                == '\x0C' || n[i] == '\r'),
{
    let bytes = vstd::utf8::encode_utf8(n);
    vstd::utf8::is_ascii_chars_encode_utf8(n);
    vstd::utf8::is_ascii_chars_nat_bound(n);
    assert forall|i: int| 0 <= i < n.len() implies (is_ascii_whitespace(bytes[i]) <==> (n[i] == ' '
        || n[i] == '\t' || n[i] == '\n' || n[i] == '\x0C' || n[i] == '\r')) by {
        assert(n[i] as u8 == bytes[i]);
        assert((n[i] as nat) < 128);
    }
    if has_ascii_whitespace(n) {
        let i = choose|i: int| 0 <= i < bytes.len() && is_ascii_whitespace(#[trigger] bytes[i]);
        assert(n[i] == ' ' || n[i] == '\t' || n[i] == '\n' || n[i] == '\x0C' || n[i] == '\r');
    }
    if exists|i: int|
        0 <= i < n.len() && (#[trigger] n[i] == ' ' || n[i] == '\t' || n[i] == '\n' || n[i] == '\x0C'
            || n[i] == '\r') {
        let i = choose|i: int|
            0 <= i < n.len() && (#[trigger] n[i] == ' ' || n[i] == '\t' || n[i] == '\n' || n[i]
                == '\x0C' || n[i] == '\r');
        assert(is_ascii_whitespace(bytes[i]));
    }
}

/// Looking up an address finds the registration that holds it, and nothing when
/// no registration holds it.
pub proof fn lemma_record_for_addr_finds_holder(recs: Seq<RecordView>, addr: IpAddr)
    ensures
        match record_for_addr(recs, addr) {
            Some(r) => r.addr == addr && recs.contains(r),
            None => forall|i: int| 0 <= i < recs.len() ==> (#[trigger] recs[i]).addr != addr,
        },
{
    if addr_taken(recs, addr) {
        let c = choose|i: int| 0 <= i < recs.len() && (#[trigger] recs[i]).addr == addr;
        assert(recs.contains(recs[c]));
    }
}

} // verus!
