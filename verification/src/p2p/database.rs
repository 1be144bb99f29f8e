//! The peer database: one record for each endpoint ever observed, in the
//! order in which the endpoints were first registered.

use vstd::prelude::*;

use crate::p2p::address::{Endpoint, PeerAddress};

verus! {

/// What is known of a peer's reachability.
#[derive(Debug, Clone, Copy, PartialEq, Eq, Structural)]
pub enum PeerStatus {
    NeverTried,
    ConnectedRecently,
    Unreachable,
    Banned,
}

/// One row of the peer database. Times are Unix seconds.
#[derive(Debug, Clone, Copy, PartialEq, Eq)]
pub struct PeerInfo {
    pub address: PeerAddress,
    pub last_seen: Option<u64>,
    pub last_connected: Option<u64>,
    pub status: PeerStatus,
    pub services: Option<u64>,
}

/// A row as a mathematical value.
pub ghost struct PeerRecord {
    pub address: Endpoint,
    pub last_seen: Option<u64>,
    pub last_connected: Option<u64>,
    pub status: PeerStatus,
    pub services: Option<u64>,
}

impl View for PeerInfo {
    type V = PeerRecord;

    open spec fn view(&self) -> PeerRecord {
        PeerRecord {
            address: self.address@,
            last_seen: self.last_seen,
            last_connected: self.last_connected,
            status: self.status,
            services: self.services,
        }
    }
}

impl DeepView for PeerInfo {
    type V = PeerRecord;

    open spec fn deep_view(&self) -> PeerRecord {
        self.view()
    }
}

/// The peer database.
#[derive(Debug)]
pub struct PeerDatabase {
    records: Vec<PeerInfo>,
}

/// Whether no endpoint has two records.
pub open spec fn distinct_addresses(records: Seq<PeerRecord>) -> bool {
    forall|i: int, j: int|
        0 <= i < j < records.len() ==> (#[trigger] records[i]).address != (
        #[trigger] records[j]).address
}

/// Whether `addr` has a record.
pub open spec fn known(records: Seq<PeerRecord>, addr: Endpoint) -> bool {
    exists|i: int| 0 <= i < records.len() && (#[trigger] records[i]).address == addr
}

/// The place of the record of `addr`, where it has one.
pub open spec fn index_of(records: Seq<PeerRecord>, addr: Endpoint) -> int {
    choose|i: int| 0 <= i < records.len() && (#[trigger] records[i]).address == addr
}

/// The record of `addr`, if it has one.
pub open spec fn lookup(records: Seq<PeerRecord>, addr: Endpoint) -> Option<PeerRecord> {
    if known(records, addr) {
        Some(records[index_of(records, addr)])
    } else {
        None
    }
}

/// The record that a first registration creates.
pub open spec fn first_record(addr: Endpoint, services: Option<u64>, now: u64) -> PeerRecord {
    PeerRecord {
        address: addr,
        last_seen: Some(now),
        last_connected: None,
        status: PeerStatus::NeverTried,
        services,
    }
}

/// A record after its peer was registered again: seen now, and with the new
/// services if any were given.
pub open spec fn refreshed(record: PeerRecord, services: Option<u64>, now: u64) -> PeerRecord {
    PeerRecord {
        last_seen: Some(now),
        services: if services is Some {
            services
        } else {
            record.services
        },
        ..record
    }
}

/// A record after its peer's status was set. Where the new status is
/// `ConnectedRecently` the peer was connected to, and so seen, at `now`:
/// both `last_connected` and `last_seen` are stamped. Any other status
/// leaves the stamps as they were.
pub open spec fn with_status(record: PeerRecord, status: PeerStatus, now: u64) -> PeerRecord {
    PeerRecord {
        status,
        last_connected: if status == PeerStatus::ConnectedRecently {
            Some(now)
        } else {
            record.last_connected
        },
        last_seen: if status == PeerStatus::ConnectedRecently {
            Some(now)
        } else {
            record.last_seen
        },
        ..record
    }
}

impl PeerRecord {
    /// The invariant of a record: where both stamps are set, the peer was
    /// not connected to after it was last seen.
    pub open spec fn stamps_ordered(self) -> bool {
        self.last_connected matches Some(connected) ==> (self.last_seen matches Some(seen)
            ==> connected <= seen)
    }

    /// Whether neither stamp is later than `now`.
    pub open spec fn stamped_until(self, now: u64) -> bool {
        &&& self.last_seen matches Some(seen) ==> seen <= now
        &&& self.last_connected matches Some(connected) ==> connected <= now
    }
}

/// Whether every record keeps its stamps in order, and none is stamped
/// later than `now`.
pub open spec fn well_stamped(records: Seq<PeerRecord>, now: u64) -> bool {
    forall|i: int|
        0 <= i < records.len() ==> (#[trigger] records[i]).stamps_ordered()
            && records[i].stamped_until(now)
}

/// The records after `addr` was registered at time `now`: its record
/// refreshed in place, or a first record added at the end.
pub open spec fn registered(
    records: Seq<PeerRecord>,
    addr: Endpoint,
    services: Option<u64>,
    now: u64,
) -> Seq<PeerRecord> {
    if known(records, addr) {
        let i = index_of(records, addr);
        records.update(i, refreshed(records[i], services, now))
    } else {
        records.push(first_record(addr, services, now))
    }
}

/// The records after each of `addrs` was registered at time `now`, in
/// order, with no services given.
pub open spec fn registered_all(records: Seq<PeerRecord>, addrs: Seq<Endpoint>, now: u64) -> Seq<
    PeerRecord,
>
    decreases addrs.len(),
{
    if addrs.len() == 0 {
        records
    } else {
        registered(registered_all(records, addrs.drop_last(), now), addrs.last(), None, now)
    }
}

/// The records after the status of `addr` was set at time `now`; unchanged
/// where `addr` has no record.
pub open spec fn status_updated(
    records: Seq<PeerRecord>,
    addr: Endpoint,
    status: PeerStatus,
    now: u64,
) -> Seq<PeerRecord> {
    if known(records, addr) {
        let i = index_of(records, addr);
        records.update(i, with_status(records[i], status, now))
    } else {
        records
    }
}

/// Records that are well stamped at one time are so at any later time.
pub proof fn lemma_well_stamped_later(records: Seq<PeerRecord>, now: u64, later: u64)
    requires
        well_stamped(records, now),
        now <= later,
    ensures
        well_stamped(records, later),
{
    assert forall|i: int| 0 <= i < records.len() implies (#[trigger] records[i]).stamps_ordered()
        && records[i].stamped_until(later) by {
        assert(records[i].stamped_until(now));
    }
}

/// Registering keeps the stamps in order, as long as the clock has not run
/// backwards: where no record is stamped later than `now`, every record
/// has `last_connected` at or before `last_seen` after a registration at
/// `now`.
pub proof fn lemma_registered_well_stamped(
    records: Seq<PeerRecord>,
    addr: Endpoint,
    services: Option<u64>,
    now: u64,
)
    requires
        well_stamped(records, now),
    ensures
        well_stamped(registered(records, addr, services, now), now),
{
    let after = registered(records, addr, services, now);
    assert forall|i: int| 0 <= i < after.len() implies (#[trigger] after[i]).stamps_ordered()
        && after[i].stamped_until(now) by {
        if i < records.len() {
            assert(records[i].stamps_ordered() && records[i].stamped_until(now));
        }
    }
}

/// Registering several endpoints keeps the stamps in order, as long as the
/// clock has not run backwards.
pub proof fn lemma_registered_all_well_stamped(
    records: Seq<PeerRecord>,
    addrs: Seq<Endpoint>,
    now: u64,
)
    requires
        well_stamped(records, now),
    ensures
        well_stamped(registered_all(records, addrs, now), now),
    decreases addrs.len(),
{
    if addrs.len() > 0 {
        lemma_registered_all_well_stamped(records, addrs.drop_last(), now);
        lemma_registered_well_stamped(
            registered_all(records, addrs.drop_last(), now),
            addrs.last(),
            None,
            now,
        );
    }
}

/// Setting a status keeps the stamps in order, whatever the time: a
/// connection stamps `last_seen` with `last_connected`. Where no record is
/// stamped later than `now`, none is after the update.
pub proof fn lemma_status_updated_well_stamped(
    records: Seq<PeerRecord>,
    addr: Endpoint,
    status: PeerStatus,
    now: u64,
)
    requires
        forall|i: int| 0 <= i < records.len() ==> (#[trigger] records[i]).stamps_ordered(),
    ensures
        forall|i: int|
            0 <= i < status_updated(records, addr, status, now).len() ==> (#[trigger] status_updated(
                records,
                addr,
                status,
                now,
            )[i]).stamps_ordered(),
        well_stamped(records, now) ==> well_stamped(
            status_updated(records, addr, status, now),
            now,
        ),
{
    let after = status_updated(records, addr, status, now);
    assert forall|i: int| 0 <= i < after.len() implies (#[trigger] after[i]).stamps_ordered() by {
        assert(records[i].stamps_ordered());
    }
    if well_stamped(records, now) {
        assert forall|i: int| 0 <= i < after.len() implies (#[trigger] after[i]).stamps_ordered()
            && after[i].stamped_until(now) by {
            assert(records[i].stamps_ordered() && records[i].stamped_until(now));
        }
    }
}

/// Where no endpoint has two records, the record of an endpoint is found at
/// one place only.
pub proof fn lemma_index_of_unique(records: Seq<PeerRecord>, i: int)
    requires
        distinct_addresses(records),
        0 <= i < records.len(),
    ensures
        known(records, records[i].address),
        index_of(records, records[i].address) == i,
{
    let addr = records[i].address;
    let k = index_of(records, addr);
    assert(records[k].address == addr);
    if k < i {
        assert(records[k].address != records[i].address);
    } else if i < k {
        assert(records[i].address != records[k].address);
    }
}

/// Registering keeps the records distinct, and leaves the registered
/// endpoint with a record that was seen at `now`.
pub proof fn lemma_registered(
    records: Seq<PeerRecord>,
    addr: Endpoint,
    services: Option<u64>,
    now: u64,
)
    requires
        distinct_addresses(records),
    ensures
        distinct_addresses(registered(records, addr, services, now)),
        known(registered(records, addr, services, now), addr),
        lookup(registered(records, addr, services, now), addr) matches Some(r) && r.last_seen
            == Some(now) && r.address == addr,
{
    let after = registered(records, addr, services, now);
    if known(records, addr) {
        let i = index_of(records, addr);
        assert(after[i].address == addr);
        assert forall|a: int, b: int| 0 <= a < b < after.len() implies (#[trigger] after[a]).address
            != (#[trigger] after[b]).address by {
            assert(after[a].address == records[a].address);
            assert(after[b].address == records[b].address);
        }
        lemma_index_of_unique(after, i);
    } else {
        let i = records.len() as int;
        assert(after[i].address == addr);
        assert forall|a: int, b: int| 0 <= a < b < after.len() implies (#[trigger] after[a]).address
            != (#[trigger] after[b]).address by {
            if b == i {
                assert(after[a] == records[a]);
            } else {
                assert(after[a] == records[a]);
                assert(after[b] == records[b]);
            }
        }
        lemma_index_of_unique(after, i);
    }
}

/// Services, once known, stay known: registering a peer again never leaves
/// its record without services where it had some.
pub proof fn lemma_services_kept(
    records: Seq<PeerRecord>,
    addr: Endpoint,
    services: Option<u64>,
    now: u64,
)
    requires
        distinct_addresses(records),
        lookup(records, addr) matches Some(r) && r.services is Some,
    ensures
        lookup(registered(records, addr, services, now), addr) matches Some(r)
            && r.services is Some,
{
    lemma_registered(records, addr, services, now);
    let i = index_of(records, addr);
    let after = registered(records, addr, services, now);
    assert(after[i].address == addr);
    lemma_index_of_unique(after, i);
}

/// Setting a status keeps the records distinct and their endpoints in
/// place.
pub proof fn lemma_status_updated(
    records: Seq<PeerRecord>,
    addr: Endpoint,
    status: PeerStatus,
    now: u64,
)
    requires
        distinct_addresses(records),
    ensures
        distinct_addresses(status_updated(records, addr, status, now)),
        status_updated(records, addr, status, now).len() == records.len(),
        forall|i: int|
            0 <= i < records.len() ==> (#[trigger] status_updated(
                records,
                addr,
                status,
                now,
            )[i]).address == records[i].address,
{
    let after = status_updated(records, addr, status, now);
    assert forall|a: int, b: int| 0 <= a < b < after.len() implies (#[trigger] after[a]).address
        != (#[trigger] after[b]).address by {
        assert(after[a].address == records[a].address);
        assert(after[b].address == records[b].address);
    }
}

/// The records after `record` was stored: in place of the record of the same
/// endpoint, or at the end where that endpoint had none.
pub open spec fn stored(records: Seq<PeerRecord>, record: PeerRecord) -> Seq<PeerRecord> {
    if known(records, record.address) {
        records.update(index_of(records, record.address), record)
    } else {
        records.push(record)
    }
}

/// Storing a record keeps the records distinct.
pub proof fn lemma_stored(records: Seq<PeerRecord>, record: PeerRecord)
    requires
        distinct_addresses(records),
    ensures
        distinct_addresses(stored(records, record)),
{
    let after = stored(records, record);
    if known(records, record.address) {
        let i = index_of(records, record.address);
        assert forall|a: int, b: int| 0 <= a < b < after.len() implies (#[trigger] after[a]).address
            != (#[trigger] after[b]).address by {
            assert(after[a].address == records[a].address);
            assert(after[b].address == records[b].address);
        }
    } else {
        let i = records.len() as int;
        assert forall|a: int, b: int| 0 <= a < b < after.len() implies (#[trigger] after[a]).address
            != (#[trigger] after[b]).address by {
            assert(after[a] == records[a]);
            if b != i {
                assert(after[b] == records[b]);
            }
        }
    }
}

/// The endpoints whose status is `ConnectedRecently`, in the order of their
/// records: the peers that may be handed out to others.
pub open spec fn reachable_addresses(records: Seq<PeerRecord>) -> Seq<Endpoint>
    decreases records.len(),
{
    if records.len() == 0 {
        Seq::empty()
    } else {
        let before = reachable_addresses(records.drop_last());
        if records.last().status == PeerStatus::ConnectedRecently {
            before.push(records.last().address)
        } else {
            before
        }
    }
}

/// Every reachable endpoint is that of a record with status
/// `ConnectedRecently`, and every such record's endpoint is among them.
pub proof fn lemma_reachable_members(records: Seq<PeerRecord>)
    ensures
        reachable_addresses(records).len() <= records.len(),
        forall|k: int|
            0 <= k < reachable_addresses(records).len() ==> exists|i: int|
                0 <= i < records.len() && (#[trigger] records[i]).address
                    == #[trigger] reachable_addresses(records)[k] && records[i].status
                    == PeerStatus::ConnectedRecently,
        forall|i: int|
            0 <= i < records.len() && (#[trigger] records[i]).status
                == PeerStatus::ConnectedRecently ==> exists|k: int|
                0 <= k < reachable_addresses(records).len() && #[trigger] reachable_addresses(
                    records,
                )[k] == records[i].address,
    decreases records.len(),
{
    if records.len() > 0 {
        let shorter = records.drop_last();
        let before = reachable_addresses(shorter);
        let all = reachable_addresses(records);
        let last = records.len() - 1;
        lemma_reachable_members(shorter);
        assert forall|k: int| 0 <= k < all.len() implies exists|i: int|
            0 <= i < records.len() && (#[trigger] records[i]).address == #[trigger] all[k]
                && records[i].status == PeerStatus::ConnectedRecently by {
            if k < before.len() {
                assert(all[k] == before[k]);
                let i = choose|i: int|
                    0 <= i < shorter.len() && (#[trigger] shorter[i]).address == before[k]
                        && shorter[i].status == PeerStatus::ConnectedRecently;
                assert(records[i] == shorter[i]);
            } else {
                assert(records[last].address == all[k]);
            }
        }
        assert forall|i: int|
            0 <= i < records.len() && (#[trigger] records[i]).status
                == PeerStatus::ConnectedRecently implies exists|k: int|
            0 <= k < all.len() && #[trigger] all[k] == records[i].address by {
            if i < last {
                assert(records[i] == shorter[i]);
                let k = choose|k: int|
                    0 <= k < before.len() && #[trigger] before[k] == shorter[i].address;
                assert(all[k] == before[k]);
            } else {
                assert(all[all.len() - 1] == records[i].address);
            }
        }
    }
}

/// Where no endpoint has two records, no endpoint is reachable twice.
pub proof fn lemma_reachable_distinct(records: Seq<PeerRecord>)
    requires
        distinct_addresses(records),
    ensures
        forall|a: int, b: int|
            0 <= a < b < reachable_addresses(records).len() ==> #[trigger] reachable_addresses(
                records,
            )[a] != #[trigger] reachable_addresses(records)[b],
    decreases records.len(),
{
    if records.len() > 0 {
        let shorter = records.drop_last();
        let before = reachable_addresses(shorter);
        let all = reachable_addresses(records);
        let last = records.len() - 1;
        assert forall|i: int, j: int| 0 <= i < j < shorter.len() implies (
        #[trigger] shorter[i]).address
            != (#[trigger] shorter[j]).address by {
            assert(shorter[i] == records[i]);
            assert(shorter[j] == records[j]);
        }
        lemma_reachable_distinct(shorter);
        lemma_reachable_members(shorter);
        assert forall|a: int, b: int| 0 <= a < b < all.len() implies #[trigger] all[a]
            != #[trigger] all[b] by {
            if b < before.len() {
                assert(all[a] == before[a]);
                assert(all[b] == before[b]);
            } else {
                assert(all[a] == before[a]);
                let i = choose|i: int|
                    0 <= i < shorter.len() && (#[trigger] shorter[i]).address == before[a]
                        && shorter[i].status == PeerStatus::ConnectedRecently;
                assert(records[i] == shorter[i]);
                assert(records[i].address != records[last].address);
            }
        }
    }
}

impl View for PeerDatabase {
    type V = Seq<PeerRecord>;

    closed spec fn view(&self) -> Seq<PeerRecord> {
        self.records.deep_view()
    }
}

impl PeerDatabase {
    #[verifier::type_invariant]
    spec fn distinct(self) -> bool {
        distinct_addresses(self.records.deep_view())
    }

    /// An empty database.
    pub fn new() -> (db: PeerDatabase)
        ensures
            db@ == Seq::<PeerRecord>::empty(),
    {
        let records: Vec<PeerInfo> = Vec::new();
        assert(records.deep_view() =~= Seq::<PeerRecord>::empty());
        PeerDatabase { records }
    }

    /// The records, in the order of first registration. No endpoint has two.
    pub fn records(&self) -> (records: &Vec<PeerInfo>)
        ensures
            records.deep_view() == self@,
            distinct_addresses(self@),
    {
        proof {
            use_type_invariant(self);
        }
        &self.records
    }

    /// A copy of the database as it stands.
    pub fn snapshot(&self) -> (copy: PeerDatabase)
        ensures
            copy@ == self@,
    {
        proof {
            use_type_invariant(self);
        }
        let n: usize = self.records.len();
        let mut records: Vec<PeerInfo> = Vec::new();
        let mut i: usize = 0;
        while i < n
            invariant
                i <= n,
                n == self.records@.len(),
                records@ == self.records@.take(i as int),
            decreases n - i,
        {
            records.push(self.records[i]);
            assert(self.records@.take(i as int).push(self.records@[i as int])
                =~= self.records@.take(i + 1));
            i += 1;
        }
        assert(self.records@.take(n as int) =~= self.records@);
        assert(records.deep_view() =~= self.records.deep_view());
        PeerDatabase { records }
    }

    /// Stores `record` as it is: in place of the record of the same
    /// endpoint, or at the end where that endpoint has none.
    pub fn insert_record(&mut self, record: PeerInfo)
        ensures
            final(self)@ == stored(old(self)@, record@),
    {
        proof {
            use_type_invariant(&*self);
            lemma_stored(self@, record@);
        }
        let found: Option<usize> = self.position(&record.address);
        let mut records: Vec<PeerInfo> = Vec::new();
        assert(records.deep_view() =~= Seq::<PeerRecord>::empty());
        core::mem::swap(&mut self.records, &mut records);
        let ghost before = records.deep_view();
        match found {
            Some(i) => {
                records.set(i, record);
                assert(records.deep_view() =~= before.update(i as int, record@));
            },
            None => {
                records.push(record);
                assert(records.deep_view() =~= before.push(record@));
            },
        }
        core::mem::swap(&mut self.records, &mut records);
    }

    /// The endpoints whose status is `ConnectedRecently`, in the order of
    /// their records.
    pub fn reachable(&self) -> (addresses: Vec<PeerAddress>)
        ensures
            addresses.deep_view() == reachable_addresses(self@),
            forall|a: int, b: int|
                0 <= a < b < addresses@.len() ==> (#[trigger] addresses@[a])@ != (
                #[trigger] addresses@[b])@,
    {
        proof {
            use_type_invariant(self);
            lemma_reachable_distinct(self@);
        }
        let n: usize = self.records.len();
        let mut addresses: Vec<PeerAddress> = Vec::new();
        let ghost all = self.records.deep_view();
        let mut i: usize = 0;
        assert(addresses.deep_view() =~= reachable_addresses(all.take(0)));
        while i < n
            invariant
                i <= n,
                n == self.records@.len(),
                all == self.records.deep_view(),
                addresses.deep_view() == reachable_addresses(all.take(i as int)),
            decreases n - i,
        {
            assert(all.take(i + 1).drop_last() =~= all.take(i as int));
            let record: PeerInfo = self.records[i];
            assert(all.take(i + 1).last() == record@);
            let ghost before = addresses.deep_view();
            match record.status {
                PeerStatus::ConnectedRecently => {
                    addresses.push(record.address);
                    assert(addresses.deep_view() =~= before.push(record.address@));
                },
                _ => {},
            }
            i += 1;
        }
        assert(all.take(n as int) =~= all);
        assert forall|a: int, b: int| 0 <= a < b < addresses@.len() implies (
        #[trigger] addresses@[a])@ != (#[trigger] addresses@[b])@ by {
            assert(addresses.deep_view()[a] == addresses@[a]@);
            assert(addresses.deep_view()[b] == addresses@[b]@);
        }
        addresses
    }

    /// The endpoints of all records, in the order of the records.
    pub fn addresses(&self) -> (addresses: Vec<PeerAddress>)
        ensures
            addresses.deep_view() == Seq::new(self@.len(), |i: int| self@[i].address),
    {
        let n: usize = self.records.len();
        let mut addresses: Vec<PeerAddress> = Vec::new();
        let mut i: usize = 0;
        while i < n
            invariant
                i <= n,
                n == self.records@.len(),
                addresses@.len() == i,
                forall|j: int|
                    0 <= j < i ==> (#[trigger] addresses@[j]) == self.records@[j].address,
            decreases n - i,
        {
            addresses.push(self.records[i].address);
            i += 1;
        }
        assert(addresses.deep_view() =~= Seq::new(self@.len(), |i: int| self@[i].address));
        addresses
    }

    /// The number of records.
    pub fn len(&self) -> (n: usize)
        ensures
            n == self@.len(),
    {
        self.records.len()
    }

    /// Where the record of `addr` stands, if it has one.
    fn position(&self, addr: &PeerAddress) -> (at: Option<usize>)
        ensures
            distinct_addresses(self@),
            at is Some <==> known(self@, addr@),
            at matches Some(i) ==> i < self@.len() && i == index_of(self@, addr@),
    {
        proof {
            use_type_invariant(self);
        }
        let n: usize = self.records.len();
        let ghost all = self.records.deep_view();
        let mut i: usize = 0;
        while i < n
            invariant
                i <= n,
                n == self.records@.len(),
                all == self.records.deep_view(),
                distinct_addresses(all),
                forall|j: int| 0 <= j < i ==> (#[trigger] all[j]).address != addr@,
            decreases n - i,
        {
            if self.records[i].address.same_as(addr) {
                proof {
                    assert(all[i as int].address == addr@);
                    lemma_index_of_unique(all, i as int);
                }
                return Some(i);
            }
            assert(all[i as int].address != addr@);
            i += 1;
        }
        None
    }

    /// The record of `addr`, if it has one.
    pub fn get(&self, addr: &PeerAddress) -> (record: Option<PeerInfo>)
        ensures
            record is Some <==> known(self@, addr@),
            record matches Some(r) ==> lookup(self@, addr@) == Some(r@),
    {
        match self.position(addr) {
            Some(i) => Some(self.records[i]),
            None => None,
        }
    }

    /// Registers `addr` as observed at time `now`. A first registration
    /// creates a record with status `NeverTried`; a later one refreshes
    /// `last_seen`, and overwrites `services` only with `Some`.
    pub fn register_peer(&mut self, addr: PeerAddress, services: Option<u64>, now: u64)
        ensures
            final(self)@ == registered(old(self)@, addr@, services, now),
    {
        proof {
            use_type_invariant(&*self);
            lemma_registered(self@, addr@, services, now);
        }
        let found: Option<usize> = self.position(&addr);
        let mut records: Vec<PeerInfo> = Vec::new();
        assert(records.deep_view() =~= Seq::<PeerRecord>::empty());
        core::mem::swap(&mut self.records, &mut records);
        let ghost before = records.deep_view();
        match found {
            Some(i) => {
                let record: PeerInfo = records[i];
                assert(record@ == before[i as int]);
                let kept: Option<u64> = match services {
                    Some(s) => Some(s),
                    None => record.services,
                };
                let renewed: PeerInfo = PeerInfo {
                    address: record.address,
                    last_seen: Some(now),
                    last_connected: record.last_connected,
                    status: record.status,
                    services: kept,
                };
                records.set(i, renewed);
                assert(records.deep_view() =~= before.update(i as int, renewed@));
            },
            None => {
                let created: PeerInfo = PeerInfo {
                    address: addr,
                    last_seen: Some(now),
                    last_connected: None,
                    status: PeerStatus::NeverTried,
                    services,
                };
                records.push(created);
                assert(records.deep_view() =~= before.push(created@));
            },
        }
        core::mem::swap(&mut self.records, &mut records);
    }

    /// Registers each of `addrs` as observed at time `now`, in order, with
    /// no services given.
    pub fn register_all(&mut self, addrs: &[PeerAddress], now: u64)
        ensures
            final(self)@ == registered_all(old(self)@, addrs.deep_view(), now),
    {
        let n: usize = addrs.len();
        let ghost all = addrs.deep_view();
        let mut i: usize = 0;
        while i < n
            invariant
                i <= n,
                n == addrs@.len(),
                all == addrs.deep_view(),
                self@ == registered_all(old(self)@, all.take(i as int), now),
            decreases n - i,
        {
            proof {
                assert(all.take(i + 1).drop_last() =~= all.take(i as int));
                assert(all.take(i + 1).last() == addrs@[i as int]@);
            }
            self.register_peer(addrs[i], None, now);
            i += 1;
        }
        assert(all.take(n as int) =~= all);
    }

    /// Sets the status of `addr` at time `now`; a change to
    /// `ConnectedRecently` stamps `last_connected` and, with it,
    /// `last_seen`. An endpoint without a record is left without one.
    pub fn update_status(&mut self, addr: PeerAddress, status: PeerStatus, now: u64)
        ensures
            final(self)@ == status_updated(old(self)@, addr@, status, now),
    {
        proof {
            use_type_invariant(&*self);
            lemma_status_updated(self@, addr@, status, now);
        }
        let found: Option<usize> = self.position(&addr);
        let mut records: Vec<PeerInfo> = Vec::new();
        assert(records.deep_view() =~= Seq::<PeerRecord>::empty());
        core::mem::swap(&mut self.records, &mut records);
        let ghost before = records.deep_view();
        match found {
            Some(i) => {
                let record: PeerInfo = records[i];
                assert(record@ == before[i as int]);
                let connected: Option<u64> = match status {
                    PeerStatus::ConnectedRecently => Some(now),
                    _ => record.last_connected,
                };
                let seen: Option<u64> = match status {
                    PeerStatus::ConnectedRecently => Some(now),
                    _ => record.last_seen,
                };
                let changed: PeerInfo = PeerInfo {
                    address: record.address,
                    last_seen: seen,
                    last_connected: connected,
                    status,
                    services: record.services,
                };
                records.set(i, changed);
                assert(records.deep_view() =~= before.update(i as int, changed@));
            },
            None => {},
        }
        core::mem::swap(&mut self.records, &mut records);
    }
}

impl Default for PeerDatabase {
    fn default() -> (db: PeerDatabase)
        ensures
            db@ == Seq::<PeerRecord>::empty(),
    {
        PeerDatabase::new()
    }
}

} // verus!
