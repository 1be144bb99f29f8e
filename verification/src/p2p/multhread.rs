//! The database actor's commands and the crawler's decisions.

use vstd::prelude::*;
use vstd::string::StringSliceAdditionalSpecFns;
use vstd::utf8::encode_utf8;

use crate::p2p::address::{Endpoint, PeerAddress};
use crate::p2p::database::{
    distinct_addresses, lemma_registered, lemma_registered_well_stamped, lemma_status_updated,
    lemma_status_updated_well_stamped, lemma_well_stamped_later, registered, status_updated,
    well_stamped, PeerDatabase, PeerRecord, PeerStatus,
};
use crate::p2p::frame::message_wire;
use crate::p2p::log::{Event, LogLevel, LogMessage};
use crate::p2p::p2p_client::{OutboundKind, OutboundMessage};

verus! {

/// How many peers one crawl probes at most.
pub const MAX_PROBES: usize = 4;

/// A change to the peer database, sent to the actor that owns it.
#[derive(Debug, Clone, Copy, PartialEq, Eq)]
pub enum DbCommand {
    UpdatePeerStatus(PeerAddress, PeerStatus),
    RegisterPeer(PeerAddress, Option<u64>),
}

/// A command as a mathematical value.
pub ghost enum DbChange {
    UpdatePeerStatus(Endpoint, PeerStatus),
    RegisterPeer(Endpoint, Option<u64>),
}

impl View for DbCommand {
    type V = DbChange;

    open spec fn view(&self) -> DbChange {
        match self {
            DbCommand::UpdatePeerStatus(addr, status) => DbChange::UpdatePeerStatus(addr@, *status),
            DbCommand::RegisterPeer(addr, services) => DbChange::RegisterPeer(addr@, *services),
        }
    }
}

/// A command and the time at which the actor received it, in Unix seconds.
#[derive(Debug, Clone, Copy, PartialEq, Eq)]
pub struct TimedCommand {
    pub command: DbCommand,
    pub at: u64,
}

impl View for TimedCommand {
    type V = (DbChange, u64);

    open spec fn view(&self) -> (DbChange, u64) {
        (self.command@, self.at)
    }
}

impl DeepView for TimedCommand {
    type V = (DbChange, u64);

    open spec fn deep_view(&self) -> (DbChange, u64) {
        self.view()
    }
}

/// The records after one command, received at time `now`.
pub open spec fn applied(records: Seq<PeerRecord>, change: DbChange, now: u64) -> Seq<PeerRecord> {
    match change {
        DbChange::UpdatePeerStatus(addr, status) => status_updated(records, addr, status, now),
        DbChange::RegisterPeer(addr, services) => registered(records, addr, services, now),
    }
}

/// The records after a sequence of commands, applied in the order in which
/// they were received.
pub open spec fn applied_all(records: Seq<PeerRecord>, changes: Seq<(DbChange, u64)>) -> Seq<
    PeerRecord,
>
    decreases changes.len(),
{
    if changes.len() == 0 {
        records
    } else {
        applied(applied_all(records, changes.drop_last()), changes.last().0, changes.last().1)
    }
}

/// The database after a sequence of commands is a function of the database
/// before and of the commands in the order received: what came first is
/// applied first, and what follows is applied to its result. No endpoint
/// gets two records on the way.
pub proof fn lemma_applied_in_order(
    records: Seq<PeerRecord>,
    first: Seq<(DbChange, u64)>,
    then: Seq<(DbChange, u64)>,
)
    requires
        distinct_addresses(records),
    ensures
        applied_all(records, first + then) == applied_all(applied_all(records, first), then),
        distinct_addresses(applied_all(records, first + then)),
    decreases then.len(),
{
    if then.len() == 0 {
        assert(first + then =~= first);
        lemma_applied_distinct(records, first);
    } else {
        assert((first + then).drop_last() =~= first + then.drop_last());
        assert((first + then).last() == then.last());
        lemma_applied_in_order(records, first, then.drop_last());
        let before = applied_all(records, first + then.drop_last());
        match then.last().0 {
            DbChange::UpdatePeerStatus(addr, status) => {
                lemma_status_updated(before, addr, status, then.last().1);
            },
            DbChange::RegisterPeer(addr, services) => {
                lemma_registered(before, addr, services, then.last().1);
            },
        }
    }
}

/// No sequence of commands gives an endpoint two records.
pub proof fn lemma_applied_distinct(records: Seq<PeerRecord>, changes: Seq<(DbChange, u64)>)
    requires
        distinct_addresses(records),
    ensures
        distinct_addresses(applied_all(records, changes)),
    decreases changes.len(),
{
    if changes.len() > 0 {
        lemma_applied_distinct(records, changes.drop_last());
        let before = applied_all(records, changes.drop_last());
        match changes.last().0 {
            DbChange::UpdatePeerStatus(addr, status) => {
                lemma_status_updated(before, addr, status, changes.last().1);
            },
            DbChange::RegisterPeer(addr, services) => {
                lemma_registered(before, addr, services, changes.last().1);
            },
        }
    }
}

/// Whether the commands were received in the order of their times, none
/// before `start`: the clock did not run backwards.
pub open spec fn times_ordered(changes: Seq<(DbChange, u64)>, start: u64) -> bool {
    &&& forall|i: int| 0 <= i < changes.len() ==> start <= (#[trigger] changes[i]).1
    &&& forall|i: int, j: int|
        0 <= i < j < changes.len() ==> (#[trigger] changes[i]).1 <= (#[trigger] changes[j]).1
}

/// The time of the last command, or `start` where there is none.
pub open spec fn end_time(changes: Seq<(DbChange, u64)>, start: u64) -> u64 {
    if changes.len() == 0 {
        start
    } else {
        changes.last().1
    }
}

/// The record invariant holds after every command: as long as the clock
/// does not run backwards, no sequence of commands leaves a record whose
/// `last_connected` is later than its `last_seen`.
pub proof fn lemma_applied_well_stamped(
    records: Seq<PeerRecord>,
    changes: Seq<(DbChange, u64)>,
    start: u64,
)
    requires
        well_stamped(records, start),
        times_ordered(changes, start),
    ensures
        well_stamped(applied_all(records, changes), end_time(changes, start)),
    decreases changes.len(),
{
    if changes.len() > 0 {
        let earlier = changes.drop_last();
        let now = changes.last().1;
        assert(times_ordered(earlier, start)) by {
            assert forall|i: int| 0 <= i < earlier.len() implies start <= (
            #[trigger] earlier[i]).1 by {
                assert(earlier[i] == changes[i]);
            }
            assert forall|i: int, j: int| 0 <= i < j < earlier.len() implies (
            #[trigger] earlier[i]).1 <= (#[trigger] earlier[j]).1 by {
                assert(earlier[i] == changes[i]);
                assert(earlier[j] == changes[j]);
            }
        }
        lemma_applied_well_stamped(records, earlier, start);
        let before = applied_all(records, earlier);
        assert(end_time(earlier, start) <= now) by {
            assert(start <= changes[changes.len() - 1].1);
            if earlier.len() > 0 {
                assert(earlier.last() == changes[changes.len() - 2]);
                assert(changes[changes.len() - 2].1 <= changes[changes.len() - 1].1);
            }
        }
        lemma_well_stamped_later(before, end_time(earlier, start), now);
        match changes.last().0 {
            DbChange::UpdatePeerStatus(addr, status) => {
                lemma_status_updated_well_stamped(before, addr, status, now);
            },
            DbChange::RegisterPeer(addr, services) => {
                lemma_registered_well_stamped(before, addr, services, now);
            },
        }
    }
}

/// Applies one command, received at time `now`.
pub fn apply_command(db: &mut PeerDatabase, command: &DbCommand, now: u64)
    ensures
        final(db)@ == applied(old(db)@, command@, now),
{
    match command {
        DbCommand::UpdatePeerStatus(addr, status) => {
            db.update_status(*addr, *status, now);
        },
        DbCommand::RegisterPeer(addr, services) => {
            db.register_peer(*addr, *services, now);
        },
    }
}

/// Applies commands in the order in which they were received.
pub fn apply_commands(db: &mut PeerDatabase, commands: &[TimedCommand])
    ensures
        final(db)@ == applied_all(old(db)@, commands.deep_view()),
{
    let n: usize = commands.len();
    let ghost all = commands.deep_view();
    let mut i: usize = 0;
    while i < n
        invariant
            i <= n,
            n == commands@.len(),
            all == commands.deep_view(),
            db@ == applied_all(old(db)@, all.take(i as int)),
        decreases n - i,
    {
        proof {
            assert(all.take(i + 1).drop_last() =~= all.take(i as int));
            assert(all.take(i + 1).last() == commands@[i as int]@);
        }
        apply_command(db, &commands[i].command, commands[i].at);
        i += 1;
    }
    assert(all.take(n as int) =~= all);
}

/// The peers that one crawl probes: the first four candidates, or all of
/// them if there are fewer.
pub fn crawl_targets(candidates: &[PeerAddress]) -> (targets: Vec<PeerAddress>)
    ensures
        targets.deep_view() == candidates.deep_view().take(
            if candidates@.len() <= MAX_PROBES {
                candidates@.len() as int
            } else {
                MAX_PROBES as int
            },
        ),
{
    let n: usize = if candidates.len() <= MAX_PROBES {
        candidates.len()
    } else {
        MAX_PROBES
    };
    let mut targets: Vec<PeerAddress> = Vec::new();
    let mut i: usize = 0;
    while i < n
        invariant
            i <= n,
            n <= candidates@.len(),
            targets@.len() == i,
            forall|j: int| 0 <= j < i ==> #[trigger] targets@[j] == candidates@[j],
        decreases n - i,
    {
        targets.push(candidates[i]);
        i += 1;
    }
    assert(targets.deep_view() =~= candidates.deep_view().take(n as int));
    targets
}

/// How the attempt to connect to a peer ended.
#[derive(Debug, Clone)]
pub enum ProbeOutcome {
    Connected,
    Failed(String),
}

/// What a probe does once its attempt to connect has ended.
#[derive(Debug)]
pub struct ProbePlan {
    /// The command to submit to the database actor.
    pub command: DbCommand,
    /// The event to publish.
    pub event: LogMessage,
    /// Whether the peer joins the live crawl set.
    pub reachable: bool,
    /// The framed message to write to the peer, if any.
    pub send: Option<Vec<u8>>,
}

/// Decides what a probe does once its attempt to connect to `addr` has
/// ended. A peer that was reached is marked `ConnectedRecently`, joins the
/// live crawl set and is sent a `getaddr` with an empty payload; one that
/// was not is marked `Unreachable`.
pub fn crawl_peer(addr: PeerAddress, outcome: ProbeOutcome) -> (plan: ProbePlan)
    ensures
        match outcome {
            ProbeOutcome::Connected => {
                &&& plan.command == DbCommand::UpdatePeerStatus(addr, PeerStatus::ConnectedRecently)
                &&& plan.event.level == LogLevel::Info
                &&& plan.event.event == Event::Connected(addr)
                &&& plan.reachable
                &&& plan.send matches Some(bytes) && bytes@ == message_wire(
                    encode_utf8("getaddr"@),
                    Seq::empty(),
                )
            },
            ProbeOutcome::Failed(reason) => {
                &&& plan.command == DbCommand::UpdatePeerStatus(addr, PeerStatus::Unreachable)
                &&& plan.event.level == LogLevel::Warn
                &&& plan.event.event == Event::FailedConnection(addr, reason)
                &&& !plan.reachable
                &&& plan.send is None
            },
        },
{
    match outcome {
        ProbeOutcome::Connected => {
            let message = OutboundMessage { kind: OutboundKind::GetAddr, payload: Vec::new() };
            ProbePlan {
                command: DbCommand::UpdatePeerStatus(addr, PeerStatus::ConnectedRecently),
                event: LogMessage::new(LogLevel::Info, Event::Connected(addr)),
                reachable: true,
                send: Some(message.to_bytes()),
            }
        },
        ProbeOutcome::Failed(reason) => ProbePlan {
            command: DbCommand::UpdatePeerStatus(addr, PeerStatus::Unreachable),
            event: LogMessage::new(LogLevel::Warn, Event::FailedConnection(addr, reason)),
            reachable: false,
            send: None,
        },
    }
}

/// The live crawl set: the endpoints that a crawl has reached.
#[derive(Debug)]
pub struct LiveCrawlSet {
    endpoints: Vec<PeerAddress>,
}

/// The set of the endpoints in a list.
pub open spec fn endpoint_set(endpoints: Seq<PeerAddress>) -> Set<Endpoint> {
    Set::new(
        |e: Endpoint| exists|i: int| 0 <= i < endpoints.len() && (#[trigger] endpoints[i])@ == e,
    )
}

/// Whether no endpoint is in the list twice.
pub open spec fn each_once(endpoints: Seq<PeerAddress>) -> bool {
    forall|a: int, b: int|
        0 <= a < b < endpoints.len() ==> (#[trigger] endpoints[a])@ != (#[trigger] endpoints[b])@
}

impl View for LiveCrawlSet {
    type V = Set<Endpoint>;

    closed spec fn view(&self) -> Set<Endpoint> {
        endpoint_set(self.endpoints@)
    }
}

impl LiveCrawlSet {
    #[verifier::type_invariant]
    spec fn listed_once(self) -> bool {
        each_once(self.endpoints@)
    }

    /// No endpoint reached yet.
    pub fn new() -> (set: LiveCrawlSet)
        ensures
            set@ == Set::<Endpoint>::empty(),
    {
        let set = LiveCrawlSet { endpoints: Vec::new() };
        assert(set@ =~= Set::<Endpoint>::empty());
        set
    }

    /// Whether `addr` was reached.
    pub fn contains(&self, addr: &PeerAddress) -> (found: bool)
        ensures
            found == self@.contains(addr@),
    {
        let n: usize = self.endpoints.len();
        let mut i: usize = 0;
        while i < n
            invariant
                i <= n,
                n == self.endpoints@.len(),
                forall|j: int| 0 <= j < i ==> (#[trigger] self.endpoints@[j])@ != addr@,
            decreases n - i,
        {
            if self.endpoints[i].same_as(addr) {
                return true;
            }
            i += 1;
        }
        false
    }

    /// Records `addr` as reached.
    pub fn insert(&mut self, addr: PeerAddress)
        ensures
            final(self)@ == old(self)@.insert(addr@),
    {
        if self.contains(&addr) {
            assert(self@ =~= self@.insert(addr@));
            return ;
        }
        proof {
            use_type_invariant(&*self);
        }
        let mut endpoints: Vec<PeerAddress> = Vec::new();
        core::mem::swap(&mut self.endpoints, &mut endpoints);
        let ghost before = endpoints@;
        assert forall|j: int| 0 <= j < before.len() implies (#[trigger] before[j])@ != addr@ by {
            if before[j]@ == addr@ {
                assert(endpoint_set(before).contains(addr@));
            }
        }
        endpoints.push(addr);
        proof {
            let after = endpoints@;
            assert forall|e: Endpoint| endpoint_set(after).contains(e) <==> endpoint_set(
                before,
            ).insert(addr@).contains(e) by {
                if endpoint_set(after).contains(e) {
                    let i = choose|i: int| 0 <= i < after.len() && (#[trigger] after[i])@ == e;
                    if i < before.len() {
                        assert(before[i]@ == e);
                    }
                }
                if endpoint_set(before).contains(e) {
                    let i = choose|i: int| 0 <= i < before.len() && (#[trigger] before[i])@ == e;
                    assert(after[i]@ == e);
                }
                if e == addr@ {
                    assert(after[before.len() as int]@ == e);
                }
            }
            assert(endpoint_set(after) =~= endpoint_set(before).insert(addr@));
            assert(each_once(after)) by {
                assert forall|a: int, b: int| 0 <= a < b < after.len() implies (
                #[trigger] after[a])@ != (#[trigger] after[b])@ by {
                    if b < before.len() {
                        assert(after[a] == before[a]);
                        assert(after[b] == before[b]);
                    } else {
                        assert(after[a] == before[a]);
                    }
                }
            }
        }
        core::mem::swap(&mut self.endpoints, &mut endpoints);
    }

    /// The endpoints reached, each once.
    pub fn endpoints(&self) -> (list: &Vec<PeerAddress>)
        ensures
            endpoint_set(list@) == self@,
            each_once(list@),
    {
        proof {
            use_type_invariant(self);
        }
        &self.endpoints
    }

    /// Takes note of how a probe ended: a peer that was reached joins the
    /// set.
    pub fn record(&mut self, addr: PeerAddress, plan: &ProbePlan)
        ensures
            final(self)@ == if plan.reachable {
                old(self)@.insert(addr@)
            } else {
                old(self)@
            },
    {
        if plan.reachable {
            self.insert(addr);
        }
    }
}

} // verus!
