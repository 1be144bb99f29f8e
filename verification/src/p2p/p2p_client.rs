//! The session state machine: what one connection to a peer has seen, and
//! what it answers to each message.

use vstd::prelude::*;
use vstd::string::StringSliceAdditionalSpecFns;
use vstd::utf8::is_ascii_chars_encode_utf8;

use crate::p2p::address::{Endpoint, PeerAddress};
use crate::p2p::database::{registered_all, PeerDatabase, PeerRecord};
use crate::p2p::frame::{decode_frame, decoded_frame, encode_message, message_wire, FrameError};
use crate::p2p::inv_policy::{inv_fold, inv_start, select_requests, SeenInventory};
use crate::p2p::inventory::InventoryItem;
use crate::p2p::log::{Event, LogLevel, LogMessage};
use crate::p2p::messageheader::trim_trailing_nuls;
use crate::p2p::text::{spec_utf8_lossy, str_eq};
use crate::p2p::utils::{
    build_getdata_payload, build_version_payload, inventory_payload, parse_addr_message,
    parse_inv_message, parsed_addresses, parsed_inventory, version_payload,
};

verus! {

/// How many frames a session handles before it ends of its own accord,
/// unless told otherwise.
pub const DEFAULT_MAX_MESSAGES: u64 = 500_000;

/// How long one attempt to connect may take, in seconds, unless told
/// otherwise.
pub const CONNECT_TIMEOUT_SECS: u64 = 10;

/// How long a read on an established connection may take, in seconds.
pub const READ_TIMEOUT_SECS: u64 = 30;

/// The pause after a read that found no data, in milliseconds.
pub const IDLE_PAUSE_MS: u64 = 100;

/// The pause after each turn of a session that has asked for addresses, in
/// milliseconds.
pub const READY_PAUSE_MS: u64 = 500;

/// The messages that this client sends.
#[derive(Debug, Clone, Copy, PartialEq, Eq, Structural)]
pub enum OutboundKind {
    Version,
    Verack,
    Pong,
    GetData,
    GetAddr,
}

impl OutboundKind {
    /// The command of the message.
    pub open spec fn name(self) -> Seq<char> {
        match self {
            OutboundKind::Version => "version"@,
            OutboundKind::Verack => "verack"@,
            OutboundKind::Pong => "pong"@,
            OutboundKind::GetData => "getdata"@,
            OutboundKind::GetAddr => "getaddr"@,
        }
    }

    /// The command of the message; it fits the header's 12-byte field.
    pub fn command(&self) -> (text: &'static str)
        ensures
            text@ == self.name(),
            text.spec_bytes().len() <= 12,
    {
        proof {
            reveal_strlit("version");
            reveal_strlit("verack");
            reveal_strlit("pong");
            reveal_strlit("getdata");
            reveal_strlit("getaddr");
            is_ascii_chars_encode_utf8(self.name());
        }
        match self {
            OutboundKind::Version => "version",
            OutboundKind::Verack => "verack",
            OutboundKind::Pong => "pong",
            OutboundKind::GetData => "getdata",
            OutboundKind::GetAddr => "getaddr",
        }
    }
}

/// A message to send: its kind and its payload.
#[derive(Debug)]
pub struct OutboundMessage {
    pub kind: OutboundKind,
    pub payload: Vec<u8>,
}

/// A message to send, as a mathematical value.
pub ghost struct Outbound {
    pub kind: OutboundKind,
    pub payload: Seq<u8>,
}

impl View for OutboundMessage {
    type V = Outbound;

    open spec fn view(&self) -> Outbound {
        Outbound { kind: self.kind, payload: self.payload@ }
    }
}

impl DeepView for OutboundMessage {
    type V = Outbound;

    open spec fn deep_view(&self) -> Outbound {
        self.view()
    }
}

impl Outbound {
    /// The message on the wire.
    pub open spec fn wire(self) -> Seq<u8> {
        message_wire(vstd::utf8::encode_utf8(self.kind.name()), self.payload)
    }
}

impl OutboundMessage {
    /// The framed message, ready to be written to the peer.
    pub fn to_bytes(&self) -> (bytes: Vec<u8>)
        ensures
            bytes@ == self@.wire(),
    {
        encode_message(self.kind.command(), self.payload.as_slice())
    }
}

/// The messages that this client tells apart when they arrive.
#[derive(Debug, Clone, Copy, PartialEq, Eq, Structural)]
pub enum InboundKind {
    Version,
    Verack,
    Ping,
    Pong,
    Inv,
    Addr,
    SendHeaders,
    SendCompact,
    FeeFilter,
    Alert,
    Unknown,
}

/// The kind of message that a command names.
pub open spec fn inbound_kind(command: Seq<char>) -> InboundKind {
    if command == "version"@ {
        InboundKind::Version
    } else if command == "verack"@ {
        InboundKind::Verack
    } else if command == "ping"@ {
        InboundKind::Ping
    } else if command == "pong"@ {
        InboundKind::Pong
    } else if command == "inv"@ {
        InboundKind::Inv
    } else if command == "addr"@ {
        InboundKind::Addr
    } else if command == "alert"@ {
        InboundKind::Alert
    } else if command == "sendheaders"@ {
        InboundKind::SendHeaders
    } else if command == "sendcmpct"@ {
        InboundKind::SendCompact
    } else if command == "feefilter"@ {
        InboundKind::FeeFilter
    } else {
        InboundKind::Unknown
    }
}

/// Tells the kind of an inbound message by its command.
pub fn classify(command: &str) -> (kind: InboundKind)
    ensures
        kind == inbound_kind(command@),
{
    if str_eq(command, "version") {
        InboundKind::Version
    } else if str_eq(command, "verack") {
        InboundKind::Verack
    } else if str_eq(command, "ping") {
        InboundKind::Ping
    } else if str_eq(command, "pong") {
        InboundKind::Pong
    } else if str_eq(command, "inv") {
        InboundKind::Inv
    } else if str_eq(command, "addr") {
        InboundKind::Addr
    } else if str_eq(command, "alert") {
        InboundKind::Alert
    } else if str_eq(command, "sendheaders") {
        InboundKind::SendHeaders
    } else if str_eq(command, "sendcmpct") {
        InboundKind::SendCompact
    } else if str_eq(command, "feefilter") {
        InboundKind::FeeFilter
    } else {
        InboundKind::Unknown
    }
}

/// The state of one session, as a mathematical value.
pub ghost struct SessionState {
    /// The peer that the session is connected to.
    pub peer: Option<Endpoint>,
    pub version_received: bool,
    pub verack_received: bool,
    pub handshake_complete: bool,
    pub getaddr_sent: bool,
    /// How many frames the session has handled.
    pub frames_processed: u64,
    /// After how many frames the session ends.
    pub max_messages: u64,
    /// The inventory hashes seen in this session.
    pub seen: Set<Seq<u8>>,
    /// The records of the peer database.
    pub peers: Seq<PeerRecord>,
}

impl SessionState {
    /// Whether the handshake is done and the one `getaddr` was sent.
    pub open spec fn is_ready(self) -> bool {
        self.version_received && self.verack_received && self.handshake_complete
            && self.getaddr_sent
    }

    /// Whether the session has handled as many frames as it may.
    pub open spec fn limit_reached(self) -> bool {
        self.frames_processed >= self.max_messages
    }
}

/// What a handler answers: at most one message, and whether the peer
/// database has to be written out.
pub ghost struct Reply {
    pub message: Option<Outbound>,
    pub persist: bool,
}

/// No message, nothing to write out.
pub open spec fn no_reply() -> Reply {
    Reply { message: None, persist: false }
}

/// One message, nothing to write out.
pub open spec fn reply_with(kind: OutboundKind, payload: Seq<u8>) -> Reply {
    Reply { message: Some(Outbound { kind, payload }), persist: false }
}

/// What an `inv` payload does to a session: the hashes seen afterwards, and
/// the `getdata` request, if anything is requested.
pub open spec fn inv_handled(s: SessionState, payload: Seq<u8>) -> (SessionState, Reply) {
    let done = inv_fold(inv_start(s.seen), parsed_inventory(payload));
    (
        SessionState { seen: done.seen, ..s },
        if done.batch.len() > 0 {
            reply_with(OutboundKind::GetData, inventory_payload(done.batch))
        } else {
            no_reply()
        },
    )
}

/// What one inbound message does to a session, and what the session
/// answers.
///
/// `version` latches its flag and is answered with `verack`; `verack`
/// latches its flag; `ping` with at least eight bytes is echoed as `pong`;
/// `inv` goes through the inventory policy; the endpoints of `addr` are
/// registered and the database is written out; every other message changes
/// nothing.
pub open spec fn handled(s: SessionState, command: Seq<char>, payload: Seq<u8>, now: u64) -> (
    SessionState,
    Reply,
) {
    match inbound_kind(command) {
        InboundKind::Version => (
            SessionState { version_received: true, ..s },
            reply_with(OutboundKind::Verack, Seq::empty()),
        ),
        InboundKind::Verack => (SessionState { verack_received: true, ..s }, no_reply()),
        InboundKind::Ping => (
            s,
            if payload.len() >= 8 {
                reply_with(OutboundKind::Pong, payload)
            } else {
                no_reply()
            },
        ),
        InboundKind::Inv => inv_handled(s, payload),
        InboundKind::Addr => (
            SessionState { peers: registered_all(s.peers, parsed_addresses(payload), now), ..s },
            Reply { message: None, persist: true },
        ),
        _ => (s, no_reply()),
    }
}

/// What one frame leads to: the session's new state, the messages to send,
/// in order, and whether the peer database has to be written out.
pub ghost struct Turn {
    pub state: SessionState,
    pub outbound: Seq<Outbound>,
    pub persist: bool,
}

/// The messages of a reply, as a sequence.
pub open spec fn reply_messages(reply: Reply) -> Seq<Outbound> {
    match reply.message {
        Some(m) => seq![m],
        None => Seq::empty(),
    }
}

/// What the session does with one frame, from its arrival to the end of the
/// turn: the message is handled; the handshake is complete once `version`
/// and `verack` have both arrived; a session whose handshake is complete
/// sends `getaddr` once.
pub open spec fn frame_handled(
    s: SessionState,
    command: Seq<char>,
    payload: Seq<u8>,
    now: u64,
) -> Turn {
    let (after, reply) = handled(s, command, payload, now);
    let complete = after.handshake_complete || (after.version_received && after.verack_received);
    let counted = SessionState {
        handshake_complete: complete,
        frames_processed: (s.frames_processed + 1) as u64,
        ..after
    };
    if complete && !after.getaddr_sent {
        Turn {
            state: SessionState { getaddr_sent: true, ..counted },
            outbound: reply_messages(reply).push(
                Outbound { kind: OutboundKind::GetAddr, payload: Seq::empty() },
            ),
            persist: reply.persist,
        }
    } else {
        Turn { state: counted, outbound: reply_messages(reply), persist: reply.persist }
    }
}

/// A session that has cleared its flags and left its peer. What it has seen
/// and the peer database stay.
pub open spec fn stopped(s: SessionState) -> SessionState {
    SessionState {
        peer: None,
        version_received: false,
        verack_received: false,
        handshake_complete: false,
        getaddr_sent: false,
        ..s
    }
}

/// Stopping is idempotent.
pub proof fn lemma_stop_idempotent(s: SessionState)
    ensures
        stopped(stopped(s)) == stopped(s),
{
}

/// A duplicate `version` or `verack` leaves a ready session ready, and sends
/// no second `getaddr`: `version` is answered with `verack` alone, `verack`
/// with nothing.
pub proof fn lemma_duplicate_handshake_keeps_ready(
    s: SessionState,
    command: Seq<char>,
    payload: Seq<u8>,
    now: u64,
)
    requires
        s.is_ready(),
        command == "version"@ || command == "verack"@,
    ensures
        ({
            let turn = frame_handled(s, command, payload, now);
            &&& turn.state == SessionState {
                frames_processed: (s.frames_processed + 1) as u64,
                ..s
            }
            &&& turn.state.is_ready()
            &&& forall|k: int|
                0 <= k < turn.outbound.len() ==> (#[trigger] turn.outbound[k]).kind
                    != OutboundKind::GetAddr
            &&& command == "version"@ ==> turn.outbound == seq![
                Outbound { kind: OutboundKind::Verack, payload: Seq::empty() },
            ]
            &&& command == "verack"@ ==> turn.outbound == Seq::<Outbound>::empty()
            &&& !turn.persist
        }),
{
    reveal_strlit("version");
    reveal_strlit("verack");
    let turn = frame_handled(s, command, payload, now);
    assert("verack"@.len() == 6);
    assert("version"@.len() == 7);
    if command == "version"@ {
        assert(inbound_kind(command) == InboundKind::Version);
        assert(handled(s, command, payload, now).0 == s);
        assert(turn.outbound =~= seq![
            Outbound { kind: OutboundKind::Verack, payload: Seq::empty() },
        ]);
    } else {
        assert(inbound_kind(command) == InboundKind::Verack);
        assert(handled(s, command, payload, now).0 == s);
        assert(turn.outbound =~= Seq::<Outbound>::empty());
    }
}

/// What a handler answers: at most one message, and whether the peer
/// database has to be written out.
#[derive(Debug)]
pub struct Reaction {
    pub reply: Option<OutboundMessage>,
    pub persist: bool,
}

impl View for Reaction {
    type V = Reply;

    open spec fn view(&self) -> Reply {
        Reply {
            message: match self.reply {
                Some(m) => Some(m@),
                None => None,
            },
            persist: self.persist,
        }
    }
}

/// What happened on the connection since the last turn.
#[derive(Debug)]
pub enum SessionEvent {
    /// The peer closed the connection, or the liveness probe failed.
    ConnectionLost,
    /// The read found no data.
    NoData,
    /// The read failed, or what was read is no valid frame.
    ReadFailed,
    /// A valid frame arrived.
    Frame { command: String, payload: Vec<u8> },
}

/// An event as a mathematical value.
pub ghost enum Occurrence {
    ConnectionLost,
    NoData,
    ReadFailed,
    Frame { command: Seq<char>, payload: Seq<u8> },
}

impl View for SessionEvent {
    type V = Occurrence;

    open spec fn view(&self) -> Occurrence {
        match self {
            SessionEvent::ConnectionLost => Occurrence::ConnectionLost,
            SessionEvent::NoData => Occurrence::NoData,
            SessionEvent::ReadFailed => Occurrence::ReadFailed,
            SessionEvent::Frame { command, payload } => Occurrence::Frame {
                command: command@,
                payload: payload@,
            },
        }
    }
}

/// What the read loop has to do after one turn: the messages to send, in
/// order; whether to write the peer database out; how long to pause, in
/// milliseconds; and whether the session ends here.
#[derive(Debug)]
pub struct SessionStep {
    pub outbound: Vec<OutboundMessage>,
    pub persist: bool,
    pub sleep_ms: u64,
    pub stop: bool,
}

/// One turn of the read loop, as a mathematical value.
pub ghost struct Step {
    pub state: SessionState,
    pub outbound: Seq<Outbound>,
    pub persist: bool,
    pub sleep_ms: u64,
    pub stop: bool,
}

impl SessionStep {
    /// What the step asks for, beside the session's new state.
    pub open spec fn matches_step(self, step: Step) -> bool {
        &&& self.outbound.deep_view() == step.outbound
        &&& self.persist == step.persist
        &&& self.sleep_ms == step.sleep_ms
        &&& self.stop == step.stop
    }
}

/// The pause that ends each turn of a session: longer once the session has
/// asked for addresses.
pub open spec fn ready_pause(s: SessionState) -> u64 {
    if s.handshake_complete && s.getaddr_sent {
        READY_PAUSE_MS
    } else {
        0
    }
}

/// A turn that ends the session and changes nothing.
pub open spec fn final_step(s: SessionState) -> Step {
    Step { state: s, outbound: Seq::empty(), persist: false, sleep_ms: 0, stop: true }
}

/// One turn of the read loop. A session that has handled as many frames as
/// it may ends; so does one whose connection is lost or whose read failed.
/// Without data the session pauses and goes on. A frame is handled, and the
/// session ends with it if it was the last that it may handle.
pub open spec fn stepped(s: SessionState, event: Occurrence, now: u64) -> Step {
    if s.limit_reached() {
        final_step(s)
    } else {
        match event {
            Occurrence::ConnectionLost => final_step(s),
            Occurrence::ReadFailed => final_step(s),
            Occurrence::NoData => Step {
                state: s,
                outbound: Seq::empty(),
                persist: false,
                sleep_ms: (IDLE_PAUSE_MS + ready_pause(s)) as u64,
                stop: false,
            },
            Occurrence::Frame { command, payload } => {
                let turn = frame_handled(s, command, payload, now);
                Step {
                    state: turn.state,
                    outbound: turn.outbound,
                    persist: turn.persist,
                    sleep_ms: ready_pause(turn.state),
                    stop: turn.state.limit_reached(),
                }
            },
        }
    }
}

/// A whole run of the read loop over what happens on the connection, each
/// event with its time: the turns are taken one after the other, until one
/// of them ends the session or nothing more happens. The result is the
/// session's last state and everything it sent, in order.
pub open spec fn session_run(s: SessionState, events: Seq<(Occurrence, u64)>) -> (
    SessionState,
    Seq<Outbound>,
)
    decreases events.len(),
{
    if events.len() == 0 {
        (s, Seq::empty())
    } else {
        let step = stepped(s, events[0].0, events[0].1);
        if step.stop {
            (step.state, step.outbound)
        } else {
            let rest = session_run(step.state, events.drop_first());
            (rest.0, step.outbound + rest.1)
        }
    }
}

/// How many of the messages are `getaddr`.
pub open spec fn getaddr_count(messages: Seq<Outbound>) -> nat
    decreases messages.len(),
{
    if messages.len() == 0 {
        0
    } else {
        getaddr_count(messages.drop_last()) + if messages.last().kind == OutboundKind::GetAddr {
            1nat
        } else {
            0nat
        }
    }
}

/// Whether an event is a frame of the given kind.
pub open spec fn is_frame_of(event: Occurrence, kind: InboundKind) -> bool {
    event is Frame && inbound_kind(event->command) == kind
}

/// Whether one of the events is a frame of the given kind.
pub open spec fn has_frame(events: Seq<(Occurrence, u64)>, kind: InboundKind) -> bool {
    exists|i: int| 0 <= i < events.len() && is_frame_of((#[trigger] events[i]).0, kind)
}

/// Whether every event is a frame.
pub open spec fn frames_only(events: Seq<(Occurrence, u64)>) -> bool {
    forall|i: int| 0 <= i < events.len() ==> (#[trigger] events[i]).0 is Frame
}

impl SessionState {
    /// Whether the flags agree: the handshake is complete, and the one
    /// `getaddr` was sent, exactly when `version` and `verack` have both
    /// arrived. A new session is so, and so is a stopped one.
    pub open spec fn flags_agree(self) -> bool {
        &&& self.handshake_complete == (self.version_received && self.verack_received)
        &&& self.getaddr_sent == self.handshake_complete
    }
}

/// The `getaddr` messages of two runs of messages add up.
pub proof fn lemma_getaddr_count_add(a: Seq<Outbound>, b: Seq<Outbound>)
    ensures
        getaddr_count(a + b) == getaddr_count(a) + getaddr_count(b),
    decreases b.len(),
{
    if b.len() == 0 {
        assert(a + b =~= a);
    } else {
        assert((a + b).drop_last() =~= a + b.drop_last());
        assert((a + b).last() == b.last());
        lemma_getaddr_count_add(a, b.drop_last());
    }
}

/// One turn sends `getaddr` exactly when it is the turn in which the flag
/// `getaddr_sent` goes up, and never more than once; no flag ever goes
/// down, and flags that agree still agree after the turn.
pub proof fn lemma_turn_sends_getaddr_once(s: SessionState, event: Occurrence, now: u64)
    ensures
        ({
            let step = stepped(s, event, now);
            &&& getaddr_count(step.outbound) == if !s.getaddr_sent && step.state.getaddr_sent {
                1nat
            } else {
                0nat
            }
            &&& s.getaddr_sent ==> step.state.getaddr_sent
            &&& s.version_received ==> step.state.version_received
            &&& s.verack_received ==> step.state.verack_received
            &&& s.flags_agree() ==> step.state.flags_agree()
            &&& step.state.max_messages == s.max_messages
        }),
{
    let step = stepped(s, event, now);
    let none = Seq::<Outbound>::empty();
    assert(getaddr_count(none) == 0);
    if !s.limit_reached() {
        match event {
            Occurrence::Frame { command, payload } => {
                let (after, reply) = handled(s, command, payload, now);
                let first = reply_messages(reply);
                assert(getaddr_count(first) == 0) by {
                    if first.len() > 0 {
                        assert(first.drop_last() =~= none);
                        assert(first.last().kind != OutboundKind::GetAddr);
                    }
                }
                let sent = Outbound { kind: OutboundKind::GetAddr, payload: Seq::empty() };
                assert(first.push(sent).drop_last() =~= first);
                assert(first.push(sent).last() == sent);
            },
            _ => {},
        }
    }
}

/// Over a whole run, a session sends `getaddr` at most once: exactly once
/// if the flag `getaddr_sent` goes up during the run, and not at all
/// otherwise. For a session whose flags agree at the start, as a new
/// session's do, they agree at the end: `getaddr` went out only if
/// `version` and `verack` had both arrived, and no sooner, since the first
/// part of a run is itself a run.
pub proof fn lemma_run_sends_getaddr_once(s: SessionState, events: Seq<(Occurrence, u64)>)
    ensures
        ({
            let (last, sent) = session_run(s, events);
            &&& getaddr_count(sent) == if !s.getaddr_sent && last.getaddr_sent {
                1nat
            } else {
                0nat
            }
            &&& s.getaddr_sent ==> last.getaddr_sent
            &&& s.flags_agree() ==> last.flags_agree()
        }),
    decreases events.len(),
{
    if events.len() > 0 {
        let step = stepped(s, events[0].0, events[0].1);
        lemma_turn_sends_getaddr_once(s, events[0].0, events[0].1);
        if !step.stop {
            let rest = session_run(step.state, events.drop_first());
            lemma_run_sends_getaddr_once(step.state, events.drop_first());
            lemma_getaddr_count_add(step.outbound, rest.1);
        }
    }
}

/// The handshake over a whole run. A session that starts with no flag up
/// and receives frames, fewer than would exhaust its frame limit, sends
/// exactly one `getaddr` if both a `version` and a `verack` frame are among
/// them, however often and in whatever order, and none otherwise.
pub proof fn lemma_handshake_over_run(s: SessionState, events: Seq<(Occurrence, u64)>)
    requires
        frames_only(events),
        s.frames_processed + events.len() <= s.max_messages,
        !s.version_received,
        !s.verack_received,
        !s.handshake_complete,
        !s.getaddr_sent,
    ensures
        ({
            let (last, sent) = session_run(s, events);
            let both = has_frame(events, InboundKind::Version) && has_frame(
                events,
                InboundKind::Verack,
            );
            &&& last.version_received == has_frame(events, InboundKind::Version)
            &&& last.verack_received == has_frame(events, InboundKind::Verack)
            &&& last.is_ready() == both
            &&& getaddr_count(sent) == if both {
                1nat
            } else {
                0nat
            }
        }),
{
    lemma_run_sends_getaddr_once(s, events);
    lemma_run_latches_flags(s, events);
}

/// Over a run of frames within the frame limit, `version_received` and
/// `verack_received` are up at the end exactly if they were up at the start
/// or such a frame is among the frames.
pub proof fn lemma_run_latches_flags(s: SessionState, events: Seq<(Occurrence, u64)>)
    requires
        frames_only(events),
        s.frames_processed + events.len() <= s.max_messages,
    ensures
        ({
            let (last, sent) = session_run(s, events);
            &&& last.version_received == (s.version_received || has_frame(
                events,
                InboundKind::Version,
            ))
            &&& last.verack_received == (s.verack_received || has_frame(
                events,
                InboundKind::Verack,
            ))
        }),
    decreases events.len(),
{
    if events.len() == 0 {
    } else {
        let step = stepped(s, events[0].0, events[0].1);
        let later = events.drop_first();
        assert(events[0].0 is Frame);
        assert(!s.limit_reached());
        let command = events[0].0->command;
        let kind = inbound_kind(command);
        assert(step.state.frames_processed == s.frames_processed + 1);
        assert(step.state.max_messages == s.max_messages);
        assert(step.state.version_received == (s.version_received || kind
            == InboundKind::Version));
        assert(step.state.verack_received == (s.verack_received || kind == InboundKind::Verack));
        assert(frames_only(later)) by {
            assert forall|i: int| 0 <= i < later.len() implies (#[trigger] later[i]).0 is Frame by {
                assert(later[i] == events[i + 1]);
            }
        }
        lemma_has_frame_split(events, InboundKind::Version);
        lemma_has_frame_split(events, InboundKind::Verack);
        if step.stop {
            assert(events.len() == 1);
            assert(later.len() == 0);
        } else {
            lemma_run_latches_flags(step.state, later);
        }
    }
}

/// A frame of a kind is among the events if it is the first of them or
/// among the others.
pub proof fn lemma_has_frame_split(events: Seq<(Occurrence, u64)>, kind: InboundKind)
    requires
        events.len() > 0,
        events[0].0 is Frame,
    ensures
        has_frame(events, kind) == (inbound_kind(events[0].0->command) == kind || has_frame(
            events.drop_first(),
            kind,
        )),
{
    let later = events.drop_first();
    if has_frame(events, kind) {
        let i = choose|i: int|
            0 <= i < events.len() && is_frame_of((#[trigger] events[i]).0, kind);
        if i > 0 {
            assert(later[i - 1] == events[i]);
        }
    }
    if has_frame(later, kind) {
        let i = choose|i: int|
            0 <= i < later.len() && is_frame_of((#[trigger] later[i]).0, kind);
        assert(events[i + 1] == later[i]);
    }
    if inbound_kind(events[0].0->command) == kind {
        assert(is_frame_of(events[0].0, kind));
    }
}

/// What a probe of the connection found: so many bytes waiting, nothing
/// waiting on a healthy connection, or an error.
#[derive(Debug, Clone, Copy, PartialEq, Eq, Structural)]
pub enum PeekOutcome {
    Read(usize),
    WouldBlock,
    Failed,
}

/// Whether the connection is alive: it is where data waits or where the
/// probe would block; a read of no bytes is an orderly close, and any other
/// error counts as closed.
pub fn connection_alive(peek: PeekOutcome) -> (alive: bool)
    ensures
        alive == match peek {
            PeekOutcome::Read(n) => n > 0,
            PeekOutcome::WouldBlock => true,
            PeekOutcome::Failed => false,
        },
{
    match peek {
        PeekOutcome::Read(n) => n > 0,
        PeekOutcome::WouldBlock => true,
        PeekOutcome::Failed => false,
    }
}

/// One session with a peer: its flags, the inventory it has seen and the
/// peer database that it fills.
#[derive(Debug)]
pub struct BitcoinClient {
    connected_addr: Option<PeerAddress>,
    handshake_complete: bool,
    version_received: bool,
    verack_received: bool,
    getaddr_sent: bool,
    frames_processed: u64,
    max_messages: u64,
    seen_inventory: SeenInventory,
    peer_db: PeerDatabase,
}

impl View for BitcoinClient {
    type V = SessionState;

    closed spec fn view(&self) -> SessionState {
        SessionState {
            peer: match self.connected_addr {
                Some(a) => Some(a@),
                None => None,
            },
            version_received: self.version_received,
            verack_received: self.verack_received,
            handshake_complete: self.handshake_complete,
            getaddr_sent: self.getaddr_sent,
            frames_processed: self.frames_processed,
            max_messages: self.max_messages,
            seen: self.seen_inventory@,
            peers: self.peer_db@,
        }
    }
}

impl BitcoinClient {
    /// A session that is not connected yet, over the given peer database;
    /// it will end after `max_messages` frames.
    pub fn new(peer_db: PeerDatabase, max_messages: u64) -> (client: BitcoinClient)
        ensures
            client@ == (SessionState {
                peer: None,
                version_received: false,
                verack_received: false,
                handshake_complete: false,
                getaddr_sent: false,
                frames_processed: 0,
                max_messages,
                seen: Set::empty(),
                peers: peer_db@,
            }),
    {
        BitcoinClient {
            connected_addr: None,
            handshake_complete: false,
            version_received: false,
            verack_received: false,
            getaddr_sent: false,
            frames_processed: 0,
            max_messages,
            seen_inventory: SeenInventory::new(),
            peer_db,
        }
    }

    /// The peer database.
    pub fn peer_db(&self) -> (db: &PeerDatabase)
        ensures
            db@ == self@.peers,
    {
        &self.peer_db
    }

    /// The peer that the session is connected to.
    pub fn connected_addr(&self) -> (addr: Option<PeerAddress>)
        ensures
            addr is Some <==> self@.peer is Some,
            addr matches Some(a) ==> self@.peer == Some(a@),
    {
        self.connected_addr
    }

    /// Whether `version` has arrived.
    pub fn version_received(&self) -> (flag: bool)
        ensures
            flag == self@.version_received,
    {
        self.version_received
    }

    /// Whether `verack` has arrived.
    pub fn verack_received(&self) -> (flag: bool)
        ensures
            flag == self@.verack_received,
    {
        self.verack_received
    }

    /// Whether the handshake is complete.
    pub fn handshake_complete(&self) -> (flag: bool)
        ensures
            flag == self@.handshake_complete,
    {
        self.handshake_complete
    }

    /// Whether the one `getaddr` of the session was sent.
    pub fn getaddr_sent(&self) -> (flag: bool)
        ensures
            flag == self@.getaddr_sent,
    {
        self.getaddr_sent
    }

    /// Whether the handshake is done and the one `getaddr` was sent.
    pub fn is_ready(&self) -> (ready: bool)
        ensures
            ready == self@.is_ready(),
    {
        self.version_received && self.verack_received && self.handshake_complete
            && self.getaddr_sent
    }

    /// Whether the session has handled as many frames as it may.
    pub fn limit_reached(&self) -> (reached: bool)
        ensures
            reached == self@.limit_reached(),
    {
        self.frames_processed >= self.max_messages
    }

    /// Whether an inventory hash was seen in this session.
    pub fn has_seen(&self, hash: &[u8; 32]) -> (seen: bool)
        ensures
            seen == self@.seen.contains(hash@),
    {
        self.seen_inventory.contains(hash)
    }

    /// Records the peer that a connection was opened to.
    pub fn connect(&mut self, addr: PeerAddress)
        ensures
            final(self)@ == (SessionState { peer: Some(addr@), ..old(self)@ }),
    {
        self.connected_addr = Some(addr);
    }

    /// The `version` message that opens the handshake with the connected
    /// peer. `timestamp` is the current time in Unix seconds.
    pub fn start_handshake(&self, protocol_version: u32, timestamp: i64) -> (message:
        OutboundMessage)
        requires
            self@.peer is Some,
        ensures
            message@ == (Outbound {
                kind: OutboundKind::Version,
                payload: version_payload(self@.peer->0, protocol_version, timestamp),
            }),
    {
        let addr: PeerAddress = self.connected_addr.unwrap();
        OutboundMessage {
            kind: OutboundKind::Version,
            payload: build_version_payload(addr, protocol_version, timestamp),
        }
    }

    /// Runs the inventory policy on an `inv` payload; returns the `getdata`
    /// request, if anything is requested.
    pub fn handle_inv_message(&mut self, payload: &[u8]) -> (request: Option<OutboundMessage>)
        ensures
            final(self)@ == inv_handled(old(self)@, payload@).0,
            (Reaction { reply: request, persist: false })@ == inv_handled(old(self)@, payload@).1,
    {
        let items: Vec<InventoryItem> = parse_inv_message(payload);
        let announced: &[InventoryItem] = items.as_slice();
        assert(announced.deep_view() =~= items.deep_view());
        let batch: Vec<InventoryItem> = select_requests(&mut self.seen_inventory, announced);
        let requested: &[InventoryItem] = batch.as_slice();
        assert(requested.deep_view() =~= batch.deep_view());
        if batch.len() > 0 {
            Some(
                OutboundMessage {
                    kind: OutboundKind::GetData,
                    payload: build_getdata_payload(requested),
                },
            )
        } else {
            None
        }
    }

    /// Handles one inbound message; `now` is the current time in Unix
    /// seconds.
    pub fn handle_message(&mut self, command: &str, payload: &[u8], now: u64) -> (reaction:
        Reaction)
        ensures
            final(self)@ == handled(old(self)@, command@, payload@, now).0,
            reaction@ == handled(old(self)@, command@, payload@, now).1,
    {
        match classify(command) {
            InboundKind::Version => {
                self.version_received = true;
                Reaction {
                    reply: Some(
                        OutboundMessage { kind: OutboundKind::Verack, payload: Vec::new() },
                    ),
                    persist: false,
                }
            },
            InboundKind::Verack => {
                self.verack_received = true;
                Reaction { reply: None, persist: false }
            },
            InboundKind::Ping => {
                if payload.len() >= 8 {
                    Reaction {
                        reply: Some(
                            OutboundMessage {
                                kind: OutboundKind::Pong,
                                payload: vstd::slice::slice_to_vec(payload),
                            },
                        ),
                        persist: false,
                    }
                } else {
                    Reaction { reply: None, persist: false }
                }
            },
            InboundKind::Inv => {
                let request: Option<OutboundMessage> = self.handle_inv_message(payload);
                Reaction { reply: request, persist: false }
            },
            InboundKind::Addr => {
                let addresses: Vec<PeerAddress> = parse_addr_message(payload);
                let found: &[PeerAddress] = addresses.as_slice();
                assert(found.deep_view() =~= addresses.deep_view());
                self.peer_db.register_all(found, now);
                Reaction { reply: None, persist: true }
            },
            _ => Reaction { reply: None, persist: false },
        }
    }

    /// Handles one frame to the end of the turn: the message itself, then
    /// the handshake's completion, then the one `getaddr`.
    ///
    /// The session must not have reached its frame limit.
    fn handle_frame(&mut self, command: &str, payload: &[u8], now: u64) -> (r: (
        Vec<OutboundMessage>,
        bool,
    ))
        requires
            !old(self)@.limit_reached(),
        ensures
            final(self)@ == frame_handled(old(self)@, command@, payload@, now).state,
            r.0.deep_view() == frame_handled(old(self)@, command@, payload@, now).outbound,
            r.1 == frame_handled(old(self)@, command@, payload@, now).persist,
    {
        let reaction: Reaction = self.handle_message(command, payload, now);
        let ghost reply = reaction@;
        let mut outbound: Vec<OutboundMessage> = Vec::new();
        match reaction.reply {
            Some(message) => {
                outbound.push(message);
            },
            None => {},
        }
        assert(outbound.deep_view() =~= reply_messages(reply));
        self.frames_processed = self.frames_processed + 1;
        if self.version_received && self.verack_received && !self.handshake_complete {
            self.handshake_complete = true;
        }
        if self.handshake_complete && !self.getaddr_sent {
            let ghost before = outbound.deep_view();
            let message = OutboundMessage { kind: OutboundKind::GetAddr, payload: Vec::new() };
            assert(message@ == (Outbound { kind: OutboundKind::GetAddr, payload: Seq::empty() }));
            outbound.push(message);
            assert(outbound.deep_view() =~= before.push(
                Outbound { kind: OutboundKind::GetAddr, payload: Seq::empty() },
            ));
            self.getaddr_sent = true;
        }
        (outbound, reaction.persist)
    }

    /// One turn of the read loop: what the session does with `event`, and
    /// what the loop has to do next.
    pub fn message_loop_step(&mut self, event: SessionEvent, now: u64) -> (step: SessionStep)
        ensures
            final(self)@ == stepped(old(self)@, event@, now).state,
            step.matches_step(stepped(old(self)@, event@, now)),
    {
        if self.limit_reached() {
            return BitcoinClient::last_step();
        }
        match event {
            SessionEvent::ConnectionLost => BitcoinClient::last_step(),
            SessionEvent::ReadFailed => BitcoinClient::last_step(),
            SessionEvent::NoData => {
                let outbound: Vec<OutboundMessage> = Vec::new();
                assert(outbound.deep_view() =~= Seq::<Outbound>::empty());
                SessionStep {
                    outbound,
                    persist: false,
                    sleep_ms: IDLE_PAUSE_MS + self.pause(),
                    stop: false,
                }
            },
            SessionEvent::Frame { command, payload } => {
                let (outbound, persist) = self.handle_frame(
                    command.as_str(),
                    payload.as_slice(),
                    now,
                );
                SessionStep {
                    outbound,
                    persist,
                    sleep_ms: self.pause(),
                    stop: self.limit_reached(),
                }
            },
        }
    }

    /// The pause that ends a turn.
    fn pause(&self) -> (ms: u64)
        ensures
            ms == ready_pause(self@),
    {
        if self.handshake_complete && self.getaddr_sent {
            READY_PAUSE_MS
        } else {
            0
        }
    }

    /// The step that ends a session.
    fn last_step() -> (step: SessionStep)
        ensures
            step.outbound.deep_view() == Seq::<Outbound>::empty(),
            !step.persist,
            step.sleep_ms == 0,
            step.stop,
    {
        let outbound: Vec<OutboundMessage> = Vec::new();
        assert(outbound.deep_view() =~= Seq::<Outbound>::empty());
        SessionStep { outbound, persist: false, sleep_ms: 0, stop: true }
    }

    /// Decodes the frame at the start of `data` and takes one turn of the
    /// read loop with it. A frame that is rejected leaves the session as it
    /// was.
    pub fn receive(&mut self, data: &[u8], now: u64) -> (r: Result<SessionStep, FrameError>)
        ensures
            match decoded_frame(data@) {
                Err(e) => r == Err::<SessionStep, FrameError>(e) && final(self)@ == old(self)@,
                Ok((header, payload)) => {
                    let event = Occurrence::Frame {
                        command: spec_utf8_lossy(trim_trailing_nuls(header.command)),
                        payload,
                    };
                    &&& r matches Ok(step) && step.matches_step(stepped(old(self)@, event, now))
                    &&& final(self)@ == stepped(old(self)@, event, now).state
                },
            },
    {
        match decode_frame(data) {
            Err(e) => Err(e),
            Ok((header, payload)) => {
                let command: String = header.command_str();
                Ok(self.message_loop_step(SessionEvent::Frame { command, payload }, now))
            },
        }
    }

    /// Leaves the peer and clears the session's flags. What the session has
    /// seen and the peer database stay.
    pub fn soft_stop(&mut self)
        ensures
            final(self)@ == stopped(old(self)@),
    {
        self.connected_addr = None;
        self.handshake_complete = false;
        self.version_received = false;
        self.verack_received = false;
        self.getaddr_sent = false;
    }
}

/// How one attempt to connect ended.
#[derive(Debug, Clone)]
pub enum AttemptResult {
    Connected,
    Failed(String),
}

/// What follows an attempt to connect.
#[derive(Debug, Clone, Copy, PartialEq, Eq, Structural)]
pub enum ConnectNext {
    /// The session is connected.
    Established,
    /// Try the candidate at this place next.
    Try(usize),
    /// Every candidate failed: the session fails as refused.
    Refused,
}

/// Where the attempts to connect start: at the first candidate, or nowhere
/// if the name resolved to no address.
pub fn first_attempt(candidates: &[PeerAddress]) -> (next: ConnectNext)
    ensures
        next == if candidates@.len() == 0 {
            ConnectNext::Refused
        } else {
            ConnectNext::Try(0)
        },
{
    if candidates.len() == 0 {
        ConnectNext::Refused
    } else {
        ConnectNext::Try(0)
    }
}

impl BitcoinClient {
    /// Takes note of how the attempt to connect to candidate `tried` ended.
    ///
    /// Success connects the session to that candidate and is published as
    /// `Connected`. A failure is published as `FailedConnection` with its
    /// reason; the next candidate is tried, and after the last one the
    /// session is refused.
    pub fn attempt_ended(
        &mut self,
        candidates: &[PeerAddress],
        tried: usize,
        result: AttemptResult,
    ) -> (r: (LogMessage, ConnectNext))
        requires
            tried < candidates@.len(),
        ensures
            match result {
                AttemptResult::Connected => {
                    &&& final(self)@ == (SessionState {
                        peer: Some(candidates@[tried as int]@),
                        ..old(self)@
                    })
                    &&& r.0.level == LogLevel::Info
                    &&& r.0.event == Event::Connected(candidates@[tried as int])
                    &&& r.1 == ConnectNext::Established
                },
                AttemptResult::Failed(reason) => {
                    &&& final(self)@ == old(self)@
                    &&& r.0.level == LogLevel::Warn
                    &&& r.0.event == Event::FailedConnection(candidates@[tried as int], reason)
                    &&& r.1 == if tried + 1 < candidates@.len() {
                        ConnectNext::Try((tried + 1) as usize)
                    } else {
                        ConnectNext::Refused
                    }
                },
            },
    {
        let addr: PeerAddress = candidates[tried];
        match result {
            AttemptResult::Connected => {
                self.connect(addr);
                (LogMessage::new(LogLevel::Info, Event::Connected(addr)), ConnectNext::Established)
            },
            AttemptResult::Failed(reason) => {
                let next: ConnectNext = if tried + 1 < candidates.len() {
                    ConnectNext::Try(tried + 1)
                } else {
                    ConnectNext::Refused
                };
                (LogMessage::new(LogLevel::Warn, Event::FailedConnection(addr, reason)), next)
            },
        }
    }
}

} // verus!
