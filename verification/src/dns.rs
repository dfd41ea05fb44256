//! The registry: a builder that takes registrations, and the finished registry
//! that answers lookups and holds the hosts file.
use crate::addr::{addr_lt, IpAddr, Ipv4Addr, Ipv6Addr};
use crate::model::{
    addr_taken, addrs_named, first_v4, first_v6, hosts_text, is_reserved_addr,
    is_sorted_arrangement, name_taken_by_other, record_for_addr, refusal, refusal_message,
    valid_records, HostId, RecordView, Refusal,
};
use crate::names::{
    has_ascii_whitespace, is_localhost_name, name_has_ascii_whitespace, name_is_localhost,
    names_equal,
};
use crate::text::{push_addr, push_char};
use std::collections::HashMap;
use vstd::prelude::*;

verus! {

broadcast use vstd::std_specs::hash::group_hash_axioms;

/// Why a registration was refused.
#[derive(Debug, PartialEq)]
pub enum RegistrationError {
    BroadcastAddrInvalid,
    LoopbackAddrInvalid(IpAddr),
    MulticastAddrInvalid(IpAddr),
    UnspecifiedAddrInvalid,
    NameInvalid(String),
    AddrExists(IpAddr),
    NameExists(String),
}

impl View for RegistrationError {
    type V = Refusal;

    open spec fn view(&self) -> Refusal {
        match self {
            RegistrationError::BroadcastAddrInvalid => Refusal::BroadcastAddrInvalid,
            RegistrationError::LoopbackAddrInvalid(a) => Refusal::LoopbackAddrInvalid(*a),
            RegistrationError::MulticastAddrInvalid(a) => Refusal::MulticastAddrInvalid(*a),
            RegistrationError::UnspecifiedAddrInvalid => Refusal::UnspecifiedAddrInvalid,
            RegistrationError::NameInvalid(n) => Refusal::NameInvalid(n@),
            RegistrationError::AddrExists(a) => Refusal::AddrExists(*a),
            RegistrationError::NameExists(n) => Refusal::NameExists(n@),
        }
    }
}

impl RegistrationError {
    /// The text that describes the refusal.
    pub fn message(&self) -> (r: String)
        ensures
            r@ == refusal_message(self@),
    {
        let mut out = String::new();
        match self {
            RegistrationError::BroadcastAddrInvalid => {
                out.append("broadcast address '");
                push_addr(&mut out, &IpAddr::V4(Ipv4Addr { bits: 0xffff_ffff }));
                out.append("' is invalid in DNS");
            },
            RegistrationError::LoopbackAddrInvalid(a) => {
                out.append("loopback address '");
                push_addr(&mut out, a);
                out.append("' is invalid in DNS");
            },
            RegistrationError::MulticastAddrInvalid(a) => {
                out.append("multicast address '");
                push_addr(&mut out, a);
                out.append("' is invalid in DNS");
            },
            RegistrationError::UnspecifiedAddrInvalid => {
                out.append("unspecified address '");
                push_addr(&mut out, &IpAddr::V4(Ipv4Addr { bits: 0 }));
                out.append("' is invalid in DNS");
            },
            RegistrationError::NameInvalid(n) => {
                out.append("name '");
                out.append(n.as_str());
                out.append("' is invalid in DNS");
            },
            RegistrationError::NameExists(n) => {
                out.append("a DNS registration record already exists for name '");
                out.append(n.as_str());
                out.append("'");
            },
            RegistrationError::AddrExists(a) => {
                out.append("a DNS registration record already exists for address '");
                push_addr(&mut out, a);
                out.append("'");
            },
        }
        assert(out@ =~= refusal_message(self@));
        out
    }
}

struct Record {
    id: HostId,
    addr: IpAddr,
    name: String,
}

impl Record {
    spec fn model(&self) -> RecordView {
        RecordView { id: self.id, addr: self.addr, name: self.name@ }
    }
}

/// The registrations in the order they were made, with an index from each
/// address to its registration.
struct Database {
    records: Vec<Record>,
    v4_index: HashMap<u32, usize>,
    v6_index: HashMap<u128, usize>,
}

impl Database {
    spec fn model(&self) -> Seq<RecordView> {
        self.records@.map_values(|r: Record| r.model())
    }

    spec fn indexed(&self) -> bool {
        &&& forall|k: u32| #[trigger]
            self.v4_index@.contains_key(k) ==> (self.v4_index@[k] as int) < self.records.len()
                && self.records@[self.v4_index@[k] as int].addr == IpAddr::V4(Ipv4Addr { bits: k })
        &&& forall|k: u128| #[trigger]
            self.v6_index@.contains_key(k) ==> (self.v6_index@[k] as int) < self.records.len()
                && self.records@[self.v6_index@[k] as int].addr == IpAddr::V6(Ipv6Addr { bits: k })
        &&& forall|i: int|
            0 <= i < self.records.len() ==> match #[trigger] self.records@[i].addr {
                IpAddr::V4(a) => self.v4_index@.contains_key(a.bits),
                IpAddr::V6(a) => self.v6_index@.contains_key(a.bits),
            }
    }

    spec fn wf(&self) -> bool {
        valid_records(self.model()) && self.indexed()
    }

    fn new() -> (db: Database)
        ensures
            db.wf(),
            db.model() == Seq::<RecordView>::empty(),
    {
        let db = Database { records: Vec::new(), v4_index: HashMap::new(), v6_index: HashMap::new() };
        assert(db.model() =~= Seq::<RecordView>::empty());
        db
    }

    /// The position of the registration that holds the address.
    fn find_addr(&self, addr: &IpAddr) -> (r: Option<usize>)
        requires
            self.wf(),
        ensures
            match r {
                Some(i) => i < self.records.len() && self.model()[i as int].addr == *addr,
                None => !addr_taken(self.model(), *addr),
            },
    {
        let found = match addr {
            IpAddr::V4(a) => match self.v4_index.get(&a.bits) {
                Some(i) => Some(*i),
                None => None,
            },
            IpAddr::V6(a) => match self.v6_index.get(&a.bits) {
                Some(i) => Some(*i),
                None => None,
            },
        };
        proof {
            if found.is_none() {
                assert forall|i: int| 0 <= i < self.model().len() implies (
                #[trigger] self.model()[i]).addr != *addr by {
                    assert(self.model()[i] == self.records@[i].model());
                    let _ = self.records@[i].addr;
                }
            }
        }
        found
    }

    /// Appends a registration that `refusal` accepts.
    fn insert(&mut self, rec: Record)
        requires
            old(self).wf(),
            refusal(old(self).model(), rec.id, rec.addr, rec.name@).is_none(),
        ensures
            final(self).wf(),
            final(self).model() == old(self).model().push(rec.model()),
    {
        let n = self.records.len();
        let addr = rec.addr;
        let ghost old_model = self.model();
        let ghost r = rec.model();
        self.records.push(rec);
        match addr {
            IpAddr::V4(a) => {
                self.v4_index.insert(a.bits, n);
            },
            IpAddr::V6(a) => {
                self.v6_index.insert(a.bits, n);
            },
        }
        assert(self.model() =~= old_model.push(r));
        proof {
            crate::laws::lemma_accepted_registration_keeps_valid(old_model, r.id, r.addr, r.name);
            assert forall|i: int| 0 <= i < self.records.len() implies match #[trigger] self.records@[i].addr {
                IpAddr::V4(a) => self.v4_index@.contains_key(a.bits),
                IpAddr::V6(a) => self.v6_index@.contains_key(a.bits),
            } by {
                if i < n {
                    assert(old(self).records@[i] == self.records@[i]);
                    let _ = old(self).records@[i].addr;
                }
            }
            assert forall|k: u32| #[trigger]
                self.v4_index@.contains_key(k) implies (self.v4_index@[k] as int) < self.records.len()
                && self.records@[self.v4_index@[k] as int].addr == IpAddr::V4(Ipv4Addr { bits: k }) by {
                if old(self).v4_index@.contains_key(k) {
                    let j = old(self).v4_index@[k] as int;
                    assert(old(self).records@[j] == self.records@[j]);
                }
            }
            assert forall|k: u128| #[trigger]
                self.v6_index@.contains_key(k) implies (self.v6_index@[k] as int) < self.records.len()
                && self.records@[self.v6_index@[k] as int].addr == IpAddr::V6(Ipv6Addr { bits: k }) by {
                if old(self).v6_index@.contains_key(k) {
                    let j = old(self).v6_index@[k] as int;
                    assert(old(self).records@[j] == self.records@[j]);
                }
            }
        }
    }
}

/// Collects registrations; `into_dns` turns it into a `Dns`.
pub struct DnsBuilder {
    db: Database,
}

impl View for DnsBuilder {
    type V = Seq<RecordView>;

    closed spec fn view(&self) -> Seq<RecordView> {
        self.db.model()
    }
}

impl DnsBuilder {
    #[verifier::type_invariant]
    spec fn inv(self) -> bool {
        self.db.wf()
    }

    /// A builder with no registrations.
    pub fn new() -> (b: DnsBuilder)
        ensures
            b@ == Seq::<RecordView>::empty(),
    {
        DnsBuilder { db: Database::new() }
    }

    /// Registers `name` and `addr` for host `id`. Reserved addresses, the name
    /// `localhost`, an address that is already registered, and a name that
    /// another host holds are refused; a host may register several addresses
    /// under one name.
    pub fn register(&mut self, id: HostId, addr: IpAddr, name: String) -> (r: Result<
        (),
        RegistrationError,
    >)
        ensures
            r is Ok <==> refusal(old(self)@, id, addr, name@) is None,
            r is Ok ==> final(self)@ == old(self)@.push(RecordView { id, addr, name: name@ }),
            r matches Err(e) ==> refusal(old(self)@, id, addr, name@) == Some(e@) && final(self)@
                == old(self)@,
            valid_records(final(self)@),
    {
        proof {
            use_type_invariant(&*self);
        }
        if addr.is_unspecified() {
            return Err(RegistrationError::UnspecifiedAddrInvalid);
        } else if addr.is_loopback() {
            return Err(RegistrationError::LoopbackAddrInvalid(addr));
        } else if match addr {
            IpAddr::V4(a) => a.is_broadcast(),
            IpAddr::V6(_) => false,
        } {
            return Err(RegistrationError::BroadcastAddrInvalid);
        } else if addr.is_multicast() {
            return Err(RegistrationError::MulticastAddrInvalid(addr));
        } else if name_is_localhost(name.as_str()) {
            return Err(RegistrationError::NameInvalid(name));
        }
        if self.db.find_addr(&addr).is_some() {
            return Err(RegistrationError::AddrExists(addr));
        }
        let mut i: usize = 0;
        while i < self.db.records.len()
            invariant
                self.db.wf(),
                self@ == old(self)@,
                !is_reserved_addr(addr),
                !is_localhost_name(name@),
                !addr_taken(self@, addr),
                i <= self.db.records.len(),
                forall|j: int|
                    0 <= j < i ==> !((#[trigger] self.db.model()[j]).name == name@ && self.db.model()[j].id
                        != id),
            decreases self.db.records.len() - i,
        {
            let rec = &self.db.records[i];
            if rec.name == name && rec.id != id {
                assert(self.db.model()[i as int] == rec.model());
                return Err(RegistrationError::NameExists(rec.name.clone()));
            }
            assert(self.db.model()[i as int] == rec.model());
            i = i + 1;
        }
        assert(!name_taken_by_other(self.db.model(), id, name@));
        let mut db = Database::new();
        std::mem::swap(&mut db, &mut self.db);
        db.insert(Record { id, addr, name });
        self.db = db;
        Ok(())
    }

    /// Whether no registered name holds an ASCII whitespace byte, which the
    /// hosts file cannot hold.
    pub fn names_fit_hosts_file(&self) -> (r: bool)
        ensures
            r == forall|i: int| 0 <= i < self@.len() ==> !has_ascii_whitespace(#[trigger] self@[i].name),
    {
        proof {
            use_type_invariant(self);
        }
        let mut i: usize = 0;
        while i < self.db.records.len()
            invariant
                self.db.wf(),
                i <= self.db.records.len(),
                forall|j: int| 0 <= j < i ==> !has_ascii_whitespace(#[trigger] self.db.model()[j].name),
            decreases self.db.records.len() - i,
        {
            assert(self.db.model()[i as int] == self.db.records@[i as int].model());
            if name_has_ascii_whitespace(self.db.records[i].name.as_str()) {
                assert(has_ascii_whitespace(self@[i as int].name));
                return false;
            }
            i = i + 1;
        }
        true
    }
}

impl Default for DnsBuilder {
    fn default() -> (b: DnsBuilder)
        ensures
            b@ == Seq::<RecordView>::empty(),
    {
        DnsBuilder::new()
    }
}

/// The positions of the registrations, ordered by address.
fn sorted_positions(records: &Vec<Record>) -> (order: Vec<usize>)
    requires
        forall|i: int, j: int|
            0 <= i < records.len() && 0 <= j < records.len() && i != j ==> #[trigger] records@[i].addr
                != #[trigger] records@[j].addr,
    ensures
        order.len() == records.len(),
        forall|k: int| 0 <= k < order.len() ==> order@[k] < records.len(),
        forall|j: usize| j < records.len() ==> #[trigger] order@.contains(j),
        forall|a: int, b: int|
            0 <= a < b < order.len() ==> addr_lt(
                #[trigger] records@[order@[a] as int].addr,
                #[trigger] records@[order@[b] as int].addr,
            ),
{
    let n = records.len();
    let mut order: Vec<usize> = Vec::new();
    let mut i: usize = 0;
    while i < n
        invariant
            n == records.len(),
            forall|x: int, y: int|
                0 <= x < records.len() && 0 <= y < records.len() && x != y ==> #[trigger] records@[x].addr
                    != #[trigger] records@[y].addr,
            i <= n,
            order.len() == i,
            forall|k: int| 0 <= k < order.len() ==> order@[k] < i,
            forall|j: usize| j < i ==> #[trigger] order@.contains(j),
            forall|a: int, b: int|
                0 <= a < b < order.len() ==> addr_lt(
                    #[trigger] records@[order@[a] as int].addr,
                    #[trigger] records@[order@[b] as int].addr,
                ),
        decreases n - i,
    {
        let mut p: usize = 0;
        while p < order.len() && records[order[p]].addr.precedes(&records[i].addr)
            invariant
                n == records.len(),
                i < n,
                p <= order.len(),
                forall|k: int| 0 <= k < order.len() ==> order@[k] < i,
                forall|q: int|
                    0 <= q < p ==> addr_lt(#[trigger] records@[order@[q] as int].addr, records@[i as int].addr),
            decreases order.len() - p,
        {
            p = p + 1;
        }
        let ghost old_order = order@;
        proof {
            if p < old_order.len() {
                let x = records@[old_order[p as int] as int].addr;
                let y = records@[i as int].addr;
                assert(x != y);
                crate::addr::lemma_addr_lt_strict_total(x, y, y);
                assert(addr_lt(y, x));
            }
        }
        order.insert(p, i);
        proof {
            assert forall|a: int, b: int| 0 <= a < b < order.len() implies addr_lt(
                #[trigger] records@[order@[a] as int].addr,
                #[trigger] records@[order@[b] as int].addr,
            ) by {
                let y = records@[i as int].addr;
                if a < p && b == p {
                } else if a == p && b > p {
                    let x = records@[old_order[p as int] as int].addr;
                    let z = records@[old_order[b - 1] as int].addr;
                    if b - 1 > p {
                        assert(addr_lt(x, z));
                    }
                    crate::addr::lemma_addr_lt_strict_total(y, x, z);
                } else if a < p && b > p {
                    assert(order@[a] == old_order[a]);
                    assert(order@[b] == old_order[b - 1]);
                } else if b < p {
                    assert(order@[a] == old_order[a]);
                    assert(order@[b] == old_order[b]);
                } else {
                    assert(order@[a] == old_order[a - 1]);
                    assert(order@[b] == old_order[b - 1]);
                }
            }
            assert forall|j: usize| j < i + 1 implies #[trigger] order@.contains(j) by {
                if j < i {
                    assert(old_order.contains(j));
                    let k = choose|k: int| 0 <= k < old_order.len() && old_order[k] == j;
                    if k < p {
                        assert(order@[k] == j);
                    } else {
                        assert(order@[k + 1] == j);
                    }
                } else {
                    assert(order@[p as int] == i);
                }
            }
        }
        i = i + 1;
    }
    order
}

/// The finished registry: answers lookups and holds the hosts file.
pub struct Dns {
    db: Database,
    hosts: String,
    listed: Ghost<Seq<RecordView>>,
}

impl View for Dns {
    type V = Seq<RecordView>;

    closed spec fn view(&self) -> Seq<RecordView> {
        self.db.model()
    }
}

impl DnsBuilder {
    /// Finishes the registry and writes its hosts file: the two `localhost`
    /// lines, then one line for each registration in address order.
    pub fn into_dns(self) -> (dns: Dns)
        requires
            forall|i: int| 0 <= i < self@.len() ==> !has_ascii_whitespace(#[trigger] self@[i].name),
        ensures
            dns@ == self@,
            is_sorted_arrangement(self@, dns.listed()),
            dns.hosts() == hosts_text(dns.listed()),
    {
        proof {
            use_type_invariant(&self);
        }
        let DnsBuilder { db } = self;
        let ghost recs = db.model();
        proof {
            assert forall|i: int, j: int|
                0 <= i < db.records.len() && 0 <= j < db.records.len() && i != j implies #[trigger] db.records@[i].addr
                != #[trigger] db.records@[j].addr by {
                assert(recs[i] == db.records@[i].model());
                assert(recs[j] == db.records@[j].model());
                assert(recs[i].addr != recs[j].addr);
            }
        }
        let order = sorted_positions(&db.records);
        let ghost listed = order@.map_values(|k: usize| recs[k as int]);
        let mut hosts = String::new();
        hosts.append("127.0.0.1 localhost\n");
        hosts.append("::1 localhost\n");
        assert(listed.take(0) =~= Seq::<RecordView>::empty());
        let mut k: usize = 0;
        while k < order.len()
            invariant
                db.wf(),
                recs == db.model(),
                listed == order@.map_values(|k: usize| recs[k as int]),
                forall|q: int| 0 <= q < order.len() ==> order@[q] < db.records.len(),
                k <= order.len(),
                hosts@ == hosts_text(listed.take(k as int)),
            decreases order.len() - k,
        {
            let rec = &db.records[order[k]];
            push_addr(&mut hosts, &rec.addr);
            push_char(&mut hosts, ' ');
            hosts.append(rec.name.as_str());
            push_char(&mut hosts, '\n');
            proof {
                let t = listed.take(k + 1);
                assert(t.drop_last() =~= listed.take(k as int));
                assert(t.last() == recs[order@[k as int] as int]);
                assert(recs[order@[k as int] as int] == rec.model());
                assert(hosts@ =~= hosts_text(t));
            }
            k = k + 1;
        }
        proof {
            assert(listed.take(order.len() as int) =~= listed);
            assert forall|r: RecordView| #[trigger] listed.contains(r) <==> recs.contains(r) by {
                if listed.contains(r) {
                    let q = choose|q: int| 0 <= q < listed.len() && listed[q] == r;
                    assert(recs[order@[q] as int] == r);
                }
                if recs.contains(r) {
                    let j = choose|j: int| 0 <= j < recs.len() && recs[j] == r;
                    assert(order@.contains(j as usize));
                    let q = choose|q: int| 0 <= q < order.len() && order@[q] == j as usize;
                    assert(listed[q] == r);
                }
            }
            assert forall|a: int, b: int| 0 <= a < b < listed.len() implies addr_lt(
                #[trigger] listed[a].addr,
                #[trigger] listed[b].addr,
            ) by {
                assert(listed[a] == db.records@[order@[a] as int].model());
                assert(listed[b] == db.records@[order@[b] as int].model());
            }
        }
        Dns { db, hosts, listed: Ghost(listed) }
    }
}

impl Dns {
    #[verifier::type_invariant]
    spec fn inv(self) -> bool {
        &&& self.db.wf()
        &&& is_sorted_arrangement(self.db.model(), self.listed@)
        &&& self.hosts@ == hosts_text(self.listed@)
    }

    /// The registrations in the order the hosts file lists them.
    pub closed spec fn listed(&self) -> Seq<RecordView> {
        self.listed@
    }

    /// The text of the hosts file.
    pub closed spec fn hosts(&self) -> Seq<char> {
        self.hosts@
    }

    /// The hosts file, in `/etc/hosts` format.
    pub fn hosts_file_contents(&self) -> (r: &str)
        ensures
            r@ == self.hosts(),
            r@ == hosts_text(self.listed()),
    {
        proof {
            use_type_invariant(self);
        }
        self.hosts.as_str()
    }

    /// The host that registered the address.
    pub fn addr_to_host_id(&self, addr: IpAddr) -> (r: Option<HostId>)
        ensures
            match r {
                Some(id) => record_for_addr(self@, addr) matches Some(rec) && id == rec.id,
                None => record_for_addr(self@, addr) is None,
            },
    {
        proof {
            use_type_invariant(self);
        }
        match self.db.find_addr(&addr) {
            Some(i) => {
                proof {
                    self.lemma_record_for_addr_at(i as int, addr);
                }
                Some(self.db.records[i].id)
            },
            None => None,
        }
    }

    /// The name registered with the address.
    pub fn addr_to_name(&self, addr: IpAddr) -> (r: Option<&str>)
        ensures
            match r {
                Some(s) => record_for_addr(self@, addr) matches Some(rec) && s@ == rec.name,
                None => record_for_addr(self@, addr) is None,
            },
    {
        proof {
            use_type_invariant(self);
        }
        match self.db.find_addr(&addr) {
            Some(i) => {
                proof {
                    self.lemma_record_for_addr_at(i as int, addr);
                }
                Some(self.db.records[i].name.as_str())
            },
            None => None,
        }
    }

    proof fn lemma_record_for_addr_at(&self, i: int, addr: IpAddr)
        requires
            self.db.wf(),
            0 <= i < self@.len(),
            self@[i].addr == addr,
        ensures
            record_for_addr(self@, addr) == Some(self.db.records@[i].model()),
    {
        let recs = self@;
        assert(addr_taken(recs, addr));
        let c = choose|c: int| 0 <= c < recs.len() && (#[trigger] recs[c]).addr == addr;
        assert(c == i);
    }

    /// All addresses registered under the name, in the order they were registered.
    pub fn name_to_addrs(&self, name: &str) -> (r: Vec<IpAddr>)
        ensures
            r@ == addrs_named(self@, name@),
            (forall|i: int| 0 <= i < self@.len() ==> (#[trigger] self@[i]).name != name@) ==> r@.len()
                == 0,
    {
        proof {
            if forall|i: int| 0 <= i < self@.len() ==> (#[trigger] self@[i]).name != name@ {
                crate::laws::lemma_unregistered_name_has_no_addrs(self@, name@);
            }
        }
        proof {
            use_type_invariant(self);
        }
        let ghost model = self.db.model();
        let mut out: Vec<IpAddr> = Vec::new();
        let mut i: usize = 0;
        assert(model.take(0) =~= Seq::<RecordView>::empty());
        while i < self.db.records.len()
            invariant
                model == self.db.model(),
                model.len() == self.db.records.len(),
                i <= self.db.records.len(),
                out@ == addrs_named(model.take(i as int), name@),
            decreases self.db.records.len() - i,
        {
            let ghost t = model.take(i + 1);
            assert(t.drop_last() =~= model.take(i as int));
            assert(model[i as int] == self.db.records@[i as int].model());
            assert(t.last() == self.db.records@[i as int].model());
            if names_equal(self.db.records[i].name.as_str(), name) {
                out.push(self.db.records[i].addr);
            }
            i = i + 1;
        }
        assert(model.take(self.db.records.len() as int) =~= model);
        out
    }

    /// The first IPv4 address registered for the name, if any.
    pub fn name_to_addr_v4(&self, name: &str) -> (r: Option<Ipv4Addr>)
        ensures
            r == first_v4(addrs_named(self@, name@)),
            match r {
                Some(a) => exists|i: int|
                    0 <= i < addrs_named(self@, name@).len() && addrs_named(self@, name@)[i]
                        == IpAddr::V4(a) && forall|j: int|
                        0 <= j < i ==> (#[trigger] addrs_named(self@, name@)[j]) is V6,
                None => forall|i: int|
                    0 <= i < addrs_named(self@, name@).len() ==> (
                    #[trigger] addrs_named(self@, name@)[i]) is V6,
            },
    {
        let addrs = self.name_to_addrs(name);
        let mut i: usize = 0;
        assert(addrs@.subrange(0, addrs@.len() as int) =~= addrs@);
        while i < addrs.len()
            invariant
                i <= addrs.len(),
                addrs@ == addrs_named(self@, name@),
                first_v4(addrs@) == first_v4(addrs@.subrange(i as int, addrs@.len() as int)),
            decreases addrs.len() - i,
        {
            let ghost rest = addrs@.subrange(i as int, addrs@.len() as int);
            assert(rest[0] == addrs@[i as int]);
            match addrs[i] {
                IpAddr::V4(a) => {
                    assert(rest.len() > 0);
                    assert(first_v4(rest) == Some(a));
                    proof {
                        crate::laws::lemma_first_v4_is_earliest(addrs@);
                    }
                    return Some(a);
                },
                IpAddr::V6(_) => {
                    assert(rest.drop_first() =~= addrs@.subrange(i + 1, addrs@.len() as int));
                },
            }
            i = i + 1;
        }
        proof {
            crate::laws::lemma_first_v4_is_earliest(addrs@);
        }
        None
    }

    /// The first IPv6 address registered for the name, if any.
    pub fn name_to_addr_v6(&self, name: &str) -> (r: Option<Ipv6Addr>)
        ensures
            r == first_v6(addrs_named(self@, name@)),
            match r {
                Some(a) => exists|i: int|
                    0 <= i < addrs_named(self@, name@).len() && addrs_named(self@, name@)[i]
                        == IpAddr::V6(a) && forall|j: int|
                        0 <= j < i ==> (#[trigger] addrs_named(self@, name@)[j]) is V4,
                None => forall|i: int|
                    0 <= i < addrs_named(self@, name@).len() ==> (
                    #[trigger] addrs_named(self@, name@)[i]) is V4,
            },
    {
        let addrs = self.name_to_addrs(name);
        let mut i: usize = 0;
        assert(addrs@.subrange(0, addrs@.len() as int) =~= addrs@);
        while i < addrs.len()
            invariant
                i <= addrs.len(),
                addrs@ == addrs_named(self@, name@),
                first_v6(addrs@) == first_v6(addrs@.subrange(i as int, addrs@.len() as int)),
            decreases addrs.len() - i,
        {
            let ghost rest = addrs@.subrange(i as int, addrs@.len() as int);
            assert(rest[0] == addrs@[i as int]);
            match addrs[i] {
                IpAddr::V6(a) => {
                    assert(rest.len() > 0);
                    assert(first_v6(rest) == Some(a));
                    proof {
                        crate::laws::lemma_first_v6_is_earliest(addrs@);
                    }
                    return Some(a);
                },
                IpAddr::V4(_) => {
                    assert(rest.drop_first() =~= addrs@.subrange(i + 1, addrs@.len() as int));
                },
            }
            i = i + 1;
        }
        proof {
            crate::laws::lemma_first_v6_is_earliest(addrs@);
        }
        None
    }
}

} // verus!
