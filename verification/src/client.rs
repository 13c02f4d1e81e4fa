//! The client negotiation engine: a state machine driving
//! Init → Selecting → Requesting → Bound → Renewing → Rebinding, with
//! timer-driven retransmission under exponential backoff, renewal at T1
//! and rebinding at T2.
//!
//! The engine is synchronous: the caller owns the event loop, feeds in
//! decoded replies and timer expiries, and performs the returned action.
//! Randomized jitter comes in as an argument, so the engine itself is
//! deterministic given identical inputs; among concurrent offers the
//! first matching one wins.

use vstd::prelude::*;
use crate::codec::{Message, MessageView, OperationCode, spec_message_type, spec_option_addr,
    message_type, option_addr, MSG_OFFER, MSG_ACK, MSG_NAK, OPTION_SERVER_ID, OPTION_LEASE_TIME};
use crate::server::{spec_client_key, client_key};
use crate::lease::bytes_eq;

verus! {

/// The client identity: a hardware (MAC) address or an opaque byte
/// string, fixed for the engine's lifetime and compared by exact byte
/// equality.
#[derive(Debug)]
pub enum ClientId {
    Mac(Vec<u8>),
    Opaque(Vec<u8>),
}

impl ClientId {
    /// The raw bytes the identity is keyed by.
    pub open spec fn spec_bytes(&self) -> Seq<u8> {
        match self {
            ClientId::Mac(b) => b@,
            ClientId::Opaque(b) => b@,
        }
    }

    /// A sound identity: a MAC address is six bytes.
    pub open spec fn wf(&self) -> bool {
        match self {
            ClientId::Mac(b) => b@.len() == 6,
            ClientId::Opaque(b) => b@.len() >= 1,
        }
    }

    /// The raw bytes the identity is keyed by.
    pub fn bytes(&self) -> (r: &Vec<u8>)
        ensures
            r@ == self.spec_bytes(),
    {
        match self {
            ClientId::Mac(b) => b,
            ClientId::Opaque(b) => b,
        }
    }
}

/// A server reply addressed to this client, extracted from the wire
/// message: the reply's type byte and the fields the engine consumes.
#[derive(Clone, Copy, Debug, PartialEq, Eq, Structural)]
pub struct ServerReplyInfo {
    /// One of `MSG_OFFER`, `MSG_ACK`, `MSG_NAK`.
    pub kind: u8,
    pub xid: u32,
    /// The offered or acknowledged address (`yiaddr`).
    pub address: u32,
    /// The replying server: its identifier option, or the `siaddr` field.
    pub server: u32,
    /// The lease duration option, in seconds; zero when absent.
    pub lease_time: u32,
}

/// What `classify_reply` extracts: `None` for anything that is not a
/// BOOTREPLY OFFER, ACK or NAK carrying this client's identity — such a
/// message is ignored, not an error.
pub open spec fn spec_classify_reply(m: MessageView, id: Seq<u8>) -> Option<ServerReplyInfo> {
    if m.operation_code != OperationCode::BootReply {
        None
    } else if spec_client_key(m) != id {
        None
    } else {
        match spec_message_type(m) {
            Some(t) => if t == MSG_OFFER || t == MSG_ACK || t == MSG_NAK {
                Some(
                    ServerReplyInfo {
                        kind: t,
                        xid: m.transaction_id,
                        address: m.your_address,
                        server: match spec_option_addr(m, OPTION_SERVER_ID) {
                            Some(s) => s,
                            None => m.server_address,
                        },
                        lease_time: match spec_option_addr(m, OPTION_LEASE_TIME) {
                            Some(s) => s,
                            None => 0u32,
                        },
                    },
                )
            } else {
                None
            },
            None => None,
        }
    }
}

/// Extract a server reply for the client with the given identity bytes.
/// Replies carrying another client's identity, requests, and unknown
/// message types yield `None` and are dropped by the caller.
pub fn classify_reply(m: &Message, id: &Vec<u8>) -> (r: Option<ServerReplyInfo>)
    ensures
        r == spec_classify_reply(m@, id@),
{
    let is_reply = match m.operation_code {
        OperationCode::BootReply => true,
        _ => false,
    };
    if !is_reply {
        return None;
    }
    let key = client_key(m);
    if !bytes_eq(&key, id) {
        return None;
    }
    match message_type(m) {
        Some(t) => if t == MSG_OFFER || t == MSG_ACK || t == MSG_NAK {
            let server = match option_addr(m, OPTION_SERVER_ID) {
                Some(s) => s,
                None => m.server_address,
            };
            let lease_time = match option_addr(m, OPTION_LEASE_TIME) {
                Some(s) => s,
                None => 0,
            };
            Some(
                ServerReplyInfo {
                    kind: t,
                    xid: m.transaction_id,
                    address: m.your_address,
                    server,
                    lease_time,
                },
            )
        } else {
            None
        },
        None => None,
    }
}

/// The negotiation states.
#[derive(Clone, Copy, Debug, PartialEq, Eq, Structural)]
pub enum ClientState {
    Init,
    Selecting,
    Requesting,
    Bound,
    Renewing,
    Rebinding,
    ReleasedOrExpired,
}

/// Client configuration: retransmission timing and the attempt bound.
/// All intervals are milliseconds.
pub struct ClientConfig {
    /// First retransmission interval; doubles on every retry.
    pub base_interval_ms: u64,
    /// Cap on the doubled interval.
    pub max_interval_ms: u64,
    /// How many sends of one message are allowed before giving up.
    pub max_attempts: u32,
}

/// A sound configuration. The interval cap is bounded so that doubling
/// and adding jitter never overflows the millisecond clock.
pub open spec fn client_config_wf(c: ClientConfig) -> bool {
    &&& 1 <= c.base_interval_ms <= c.max_interval_ms
    &&& c.max_interval_ms <= 0x1000_0000_0000_0000u64
    &&& c.max_attempts >= 1
}

/// Clock values the engine accepts; keeps every timer sum within `u64`.
pub const MAX_NOW_MS: u64 = 0x4000_0000_0000_0000;

/// What the caller must do after feeding the engine an event.
#[derive(Debug)]
pub enum ClientAction {
    /// Broadcast a DISCOVER carrying the transaction id.
    BroadcastDiscover { xid: u32 },
    /// Broadcast a REQUEST for the address.
    BroadcastRequest { xid: u32, address: u32 },
    /// Unicast a renewal REQUEST to the leasing server.
    UnicastRequest { xid: u32, address: u32, server: u32 },
    /// Report the address in use with a DECLINE.
    SendDecline { address: u32 },
    /// Send a best-effort RELEASE to the leasing server.
    SendRelease { address: u32, server: u32 },
    /// The negotiation gave up; the caller decides whether to start over.
    NegotiationFailed,
    /// Nothing to send.
    Idle,
}

/// The negotiation engine.
pub struct Client {
    pub config: ClientConfig,
    pub state: ClientState,
    /// Transaction id of the negotiation under way; every outgoing
    /// DISCOVER and REQUEST of one attempt carries it.
    pub xid: u32,
    /// Sends of the current message so far.
    pub attempts: u32,
    /// Current retransmission interval.
    pub interval_ms: u64,
    /// When the retransmission timer fires.
    pub retransmit_at_ms: u64,
    /// Address taken from the accepted OFFER.
    pub offered_address: u32,
    /// The offering server, for unicast renewal.
    pub server_address: u32,
    /// The committed lease, present in Bound, Renewing and Rebinding.
    pub lease_address: u32,
    pub lease_time: u32,
    /// Renewal timer: fires at half the lease time.
    pub t1_at_ms: u64,
    /// Rebinding timer: fires at seven eighths of the lease time.
    pub t2_at_ms: u64,
    /// When the lease runs out.
    pub expiry_at_ms: u64,
}

/// When T1 fires for a lease granted at `start_ms`: half the duration.
pub open spec fn spec_t1_ms(start_ms: u64, lease_time: u32) -> int {
    start_ms + lease_time * 500
}

/// When T2 fires: seven eighths of the duration.
pub open spec fn spec_t2_ms(start_ms: u64, lease_time: u32) -> int {
    start_ms + lease_time * 875
}

/// When the lease expires.
pub open spec fn spec_expiry_ms(start_ms: u64, lease_time: u32) -> int {
    start_ms + lease_time * 1000
}

/// Timer ordering: for any accepted lease duration the renewal timer
/// fires strictly before the rebinding timer, which fires strictly before
/// the lease expires.
pub proof fn lemma_timer_ordering(start_ms: u64, lease_time: u32)
    requires
        lease_time >= 1,
    ensures
        spec_t1_ms(start_ms, lease_time) < spec_t2_ms(start_ms, lease_time),
        spec_t2_ms(start_ms, lease_time) < spec_expiry_ms(start_ms, lease_time),
{
}

/// The engine's internal invariant, established by `new` and kept by
/// every transition.
pub open spec fn client_wf(c: Client) -> bool {
    &&& client_config_wf(c.config)
    &&& c.config.base_interval_ms <= c.interval_ms <= c.config.max_interval_ms
    &&& c.attempts <= c.config.max_attempts
    &&& (c.state is Bound || c.state is Renewing || c.state is Rebinding) ==> {
        &&& c.lease_time >= 1
        &&& c.t1_at_ms < c.t2_at_ms < c.expiry_at_ms
    }
}

/// One retransmission of a negotiation's pending message: a due timer in
/// Selecting or Requesting with attempt budget left, exactly as
/// `handle_timer` ensures it.
pub open spec fn spec_retransmit_step(pre: Client, post: Client) -> bool {
    &&& (pre.state is Selecting || pre.state is Requesting)
    &&& post.state == pre.state
    &&& post.attempts == pre.attempts + 1
    &&& post.config == pre.config
}

proof fn lemma_attempts_grow(run: Seq<Client>, i: int)
    requires
        0 <= i < run.len(),
        forall|j: int|
            0 <= j < run.len() - 1 ==> spec_retransmit_step(#[trigger] run[j], run[j + 1]),
    ensures
        run[i].attempts == run[0].attempts + i,
        run[i].config == run[0].config,
    decreases i,
{
    if i > 0 {
        lemma_attempts_grow(run, i - 1);
        assert(spec_retransmit_step(run[i - 1], run[i]));
    }
}

/// Retransmission never loops for ever: every resend of one negotiation
/// raises the attempt counter by one (`spec_retransmit_step`, which
/// `handle_timer` ensures on each resend) and the engine's invariant caps
/// the counter at the configured bound, so a run of states linked by
/// consecutive resends — a negotiation no server ever answers — holds at
/// most `max_attempts` states. The first transmission puts the counter at
/// one, and `handle_timer`'s contract makes the next due timer after the
/// last resend report `NegotiationFailed`.
pub proof fn lemma_retransmission_bounded(run: Seq<Client>)
    requires
        run.len() >= 1,
        run[0].attempts >= 1,
        forall|i: int| 0 <= i < run.len() ==> client_wf(#[trigger] run[i]),
        forall|j: int|
            0 <= j < run.len() - 1 ==> spec_retransmit_step(#[trigger] run[j], run[j + 1]),
    ensures
        run.len() <= run[0].config.max_attempts,
{
    let n = run.len() - 1;
    lemma_attempts_grow(run, n);
    assert(run[n].attempts <= run[n].config.max_attempts);
}

impl Client {
    /// A fresh engine in Init.
    pub fn new(config: ClientConfig) -> (r: Client)
        requires
            client_config_wf(config),
        ensures
            client_wf(r),
            r.state is Init,
            r.config == config,
    {
        let base = config.base_interval_ms;
        Client {
            config,
            state: ClientState::Init,
            xid: 0,
            attempts: 0,
            interval_ms: base,
            retransmit_at_ms: 0,
            offered_address: 0,
            server_address: 0,
            lease_address: 0,
            lease_time: 0,
            t1_at_ms: 0,
            t2_at_ms: 0,
            expiry_at_ms: 0,
        }
    }

    /// Start a negotiation: broadcast a DISCOVER under a fresh transaction
    /// id and arm the retransmission timer with the base interval plus the
    /// caller's jitter.
    pub fn start(&mut self, xid: u32, now_ms: u64, jitter_ms: u64) -> (r: ClientAction)
        requires
            client_wf(*old(self)),
            old(self).state is Init,
            now_ms < MAX_NOW_MS,
            jitter_ms <= old(self).config.base_interval_ms,
        ensures
            client_wf(*final(self)),
            final(self).state is Selecting,
            final(self).xid == xid,
            final(self).attempts == 1,
            final(self).config == old(self).config,
            r == (ClientAction::BroadcastDiscover { xid }),
            !(final(self).state is Bound),
    {
        self.xid = xid;
        self.attempts = 1;
        self.interval_ms = self.config.base_interval_ms;
        self.retransmit_at_ms = now_ms + self.interval_ms + jitter_ms;
        self.state = ClientState::Selecting;
        ClientAction::BroadcastDiscover { xid }
    }

    /// Feed in an OFFER. A mismatched transaction id or a wrong state is
    /// ignored. With a conflict reported by the caller's address probe the
    /// offer is declined and the negotiation restarts from Init; otherwise
    /// the first matching offer wins and a REQUEST goes out.
    pub fn handle_offer(
        &mut self,
        xid: u32,
        address: u32,
        server: u32,
        probe_conflict: bool,
        now_ms: u64,
        jitter_ms: u64,
    ) -> (r: ClientAction)
        requires
            client_wf(*old(self)),
            now_ms < MAX_NOW_MS,
            jitter_ms <= old(self).config.base_interval_ms,
        ensures
            client_wf(*final(self)),
            final(self).config == old(self).config,
            final(self).xid == old(self).xid,
            !(old(self).state is Selecting) || xid != old(self).xid ==> *final(self) == *old(self)
                && r is Idle,
            old(self).state is Selecting && xid == old(self).xid && probe_conflict ==> final(self).state is Init && r == (ClientAction::SendDecline { address }),
            old(self).state is Selecting && xid == old(self).xid && !probe_conflict ==> {
                &&& final(self).state is Requesting
                &&& final(self).offered_address == address
                &&& final(self).server_address == server
                &&& final(self).attempts == 1
                &&& r == (ClientAction::BroadcastRequest { xid: old(self).xid, address })
            },
            final(self).state is Bound ==> old(self).state is Bound,
    {
        match self.state {
            ClientState::Selecting => {
                if xid != self.xid {
                    return ClientAction::Idle;
                }
                if probe_conflict {
                    self.state = ClientState::Init;
                    return ClientAction::SendDecline { address };
                }
                self.offered_address = address;
                self.server_address = server;
                self.attempts = 1;
                self.interval_ms = self.config.base_interval_ms;
                self.retransmit_at_ms = now_ms + self.interval_ms + jitter_ms;
                self.state = ClientState::Requesting;
                ClientAction::BroadcastRequest { xid: self.xid, address }
            },
            _ => ClientAction::Idle,
        }
    }

    /// Feed in an ACK. Only an ACK whose transaction id matches the
    /// negotiation's, whose address matches the requested one and whose
    /// lease duration is positive commits a lease and reaches Bound; in
    /// Renewing and Rebinding a matching ACK refreshes the lease and
    /// returns to Bound. Everything else is ignored.
    pub fn handle_ack(&mut self, xid: u32, address: u32, lease_time: u32, now_ms: u64) -> (r:
        ClientAction)
        requires
            client_wf(*old(self)),
            now_ms < MAX_NOW_MS,
        ensures
            client_wf(*final(self)),
            final(self).config == old(self).config,
            final(self).xid == old(self).xid,
            r is Idle,
            final(self).state is Bound && !(old(self).state is Bound) ==> {
                &&& xid == old(self).xid
                &&& lease_time >= 1
                &&& (old(self).state is Requesting || old(self).state is Renewing || old(self).state is Rebinding)
            },
            (old(self).state is Requesting && xid == old(self).xid && address == old(self).offered_address && lease_time >= 1) ==> {
                &&& final(self).state is Bound
                &&& final(self).lease_address == address
                &&& final(self).lease_time == lease_time
                &&& final(self).t1_at_ms == spec_t1_ms(now_ms, lease_time)
                &&& final(self).t2_at_ms == spec_t2_ms(now_ms, lease_time)
                &&& final(self).expiry_at_ms == spec_expiry_ms(now_ms, lease_time)
            },
            ((old(self).state is Renewing || old(self).state is Rebinding) && xid == old(self).xid
                && address == old(self).lease_address && lease_time >= 1) ==> {
                &&& final(self).state is Bound
                &&& final(self).lease_address == address
                &&& final(self).lease_time == lease_time
                &&& final(self).t1_at_ms == spec_t1_ms(now_ms, lease_time)
                &&& final(self).t2_at_ms == spec_t2_ms(now_ms, lease_time)
                &&& final(self).expiry_at_ms == spec_expiry_ms(now_ms, lease_time)
            },
            xid != old(self).xid || lease_time == 0 ==> *final(self) == *old(self),
            !(old(self).state is Requesting || old(self).state is Renewing || old(
                self,
            ).state is Rebinding) ==> *final(self) == *old(self),
            old(self).state is Requesting && address != old(self).offered_address ==> *final(self)
                == *old(self),
            (old(self).state is Renewing || old(self).state is Rebinding) && address != old(
                self,
            ).lease_address ==> *final(self) == *old(self),
    {
        let matching = xid == self.xid && lease_time >= 1;
        match self.state {
            ClientState::Requesting => {
                if matching && address == self.offered_address {
                    self.commit_lease(address, lease_time, now_ms);
                }
                ClientAction::Idle
            },
            ClientState::Renewing => {
                if matching && address == self.lease_address {
                    self.commit_lease(address, lease_time, now_ms);
                }
                ClientAction::Idle
            },
            ClientState::Rebinding => {
                if matching && address == self.lease_address {
                    self.commit_lease(address, lease_time, now_ms);
                }
                ClientAction::Idle
            },
            _ => ClientAction::Idle,
        }
    }

    fn commit_lease(&mut self, address: u32, lease_time: u32, now_ms: u64)
        requires
            client_wf(*old(self)),
            lease_time >= 1,
            now_ms < MAX_NOW_MS,
        ensures
            client_wf(*final(self)),
            *final(self) == (Client {
                state: ClientState::Bound,
                lease_address: address,
                lease_time,
                t1_at_ms: (spec_t1_ms(now_ms, lease_time) as u64),
                t2_at_ms: (spec_t2_ms(now_ms, lease_time) as u64),
                expiry_at_ms: (spec_expiry_ms(now_ms, lease_time) as u64),
                attempts: 0u32,
                interval_ms: old(self).config.base_interval_ms,
                ..*old(self)
            }),
    {
        self.lease_address = address;
        self.lease_time = lease_time;
        self.t1_at_ms = now_ms + (lease_time as u64) * 500;
        self.t2_at_ms = now_ms + (lease_time as u64) * 875;
        self.expiry_at_ms = now_ms + (lease_time as u64) * 1000;
        self.attempts = 0;
        self.interval_ms = self.config.base_interval_ms;
        self.state = ClientState::Bound;
        proof {
            lemma_timer_ordering(now_ms, lease_time);
        }
    }

    /// Feed in a NAK. A matching NAK in Requesting discards the tentative
    /// state and restarts from Init; in Renewing it escalates to Rebinding
    /// rather than back to Init; in Rebinding the lease is abandoned and
    /// the negotiation restarts from Init.
    pub fn handle_nak(&mut self, xid: u32, now_ms: u64, delay_ms: u64) -> (r: ClientAction)
        requires
            client_wf(*old(self)),
            now_ms < MAX_NOW_MS,
            delay_ms <= old(self).config.max_interval_ms,
        ensures
            client_wf(*final(self)),
            final(self).config == old(self).config,
            final(self).xid == old(self).xid,
            r is Idle,
            final(self).state is Bound ==> old(self).state is Bound,
            xid != old(self).xid ==> *final(self) == *old(self),
            xid == old(self).xid && old(self).state is Requesting ==> final(self).state is Init
                && final(self).retransmit_at_ms == now_ms + delay_ms,
            !(old(self).state is Requesting || old(self).state is Renewing || old(
                self,
            ).state is Rebinding) ==> *final(self) == *old(self),
            xid == old(self).xid && old(self).state is Renewing ==> final(self).state is Rebinding,
            xid == old(self).xid && old(self).state is Rebinding ==> final(self).state is Init,
    {
        if xid != self.xid {
            return ClientAction::Idle;
        }
        match self.state {
            ClientState::Requesting => {
                // A brief randomized delay before the next attempt; the
                // caller supplies the randomness.
                self.retransmit_at_ms = now_ms + delay_ms;
                self.state = ClientState::Init;
                ClientAction::Idle
            },
            ClientState::Renewing => {
                self.state = ClientState::Rebinding;
                ClientAction::Idle
            },
            ClientState::Rebinding => {
                self.state = ClientState::Init;
                ClientAction::Idle
            },
            _ => ClientAction::Idle,
        }
    }

    /// Feed in a timer expiry at `now_ms`. A stale or early timer (before
    /// the armed deadline) does nothing. Retransmission doubles the
    /// interval up to the cap; when the attempt bound is exhausted the
    /// negotiation reports failure and falls back to Init. In Bound, T1
    /// moves to Renewing with a unicast REQUEST; in Renewing, T2 moves to
    /// Rebinding with a broadcast REQUEST; in Rebinding, expiry abandons
    /// the lease.
    pub fn handle_timer(&mut self, now_ms: u64, jitter_ms: u64) -> (r: ClientAction)
        requires
            client_wf(*old(self)),
            now_ms < MAX_NOW_MS,
            jitter_ms <= old(self).config.base_interval_ms,
        ensures
            client_wf(*final(self)),
            final(self).config == old(self).config,
            final(self).xid == old(self).xid,
            final(self).state is Bound ==> old(self).state is Bound,
            old(self).state is Selecting && now_ms >= old(self).retransmit_at_ms ==> if old(self).attempts < old(self).config.max_attempts {
                &&& spec_retransmit_step(*old(self), *final(self))
                &&& final(self).state is Selecting
                &&& final(self).attempts == old(self).attempts + 1
                &&& final(self).retransmit_at_ms == now_ms + final(self).interval_ms + jitter_ms
                &&& r == (ClientAction::BroadcastDiscover { xid: old(self).xid })
            } else {
                &&& final(self).state is Init
                &&& r is NegotiationFailed
            },
            old(self).state is Requesting && now_ms >= old(self).retransmit_at_ms ==> if old(self).attempts < old(self).config.max_attempts {
                &&& spec_retransmit_step(*old(self), *final(self))
                &&& final(self).state is Requesting
                &&& final(self).attempts == old(self).attempts + 1
                &&& final(self).retransmit_at_ms == now_ms + final(self).interval_ms + jitter_ms
                &&& r == (ClientAction::BroadcastRequest {
                    xid: old(self).xid,
                    address: old(self).offered_address,
                })
            } else {
                &&& final(self).state is Init
                &&& r is NegotiationFailed
            },
            old(self).state is Renewing && now_ms < old(self).t2_at_ms && now_ms >= old(
                self,
            ).retransmit_at_ms ==> {
                &&& final(self).state is Renewing
                &&& final(self).retransmit_at_ms == now_ms + final(self).interval_ms + jitter_ms
                &&& r == (ClientAction::UnicastRequest {
                    xid: old(self).xid,
                    address: old(self).lease_address,
                    server: old(self).server_address,
                })
            },
            old(self).state is Rebinding && now_ms < old(self).expiry_at_ms && now_ms >= old(
                self,
            ).retransmit_at_ms ==> {
                &&& final(self).state is Rebinding
                &&& final(self).retransmit_at_ms == now_ms + final(self).interval_ms + jitter_ms
                &&& r == (ClientAction::BroadcastRequest {
                    xid: old(self).xid,
                    address: old(self).lease_address,
                })
            },
            old(self).state is Bound && now_ms >= old(self).t1_at_ms ==> {
                &&& final(self).state is Renewing
                &&& r == (ClientAction::UnicastRequest {
                    xid: old(self).xid,
                    address: old(self).lease_address,
                    server: old(self).server_address,
                })
            },
            old(self).state is Renewing && now_ms >= old(self).t2_at_ms ==> {
                &&& final(self).state is Rebinding
                &&& r == (ClientAction::BroadcastRequest {
                    xid: old(self).xid,
                    address: old(self).lease_address,
                })
            },
            old(self).state is Rebinding && now_ms >= old(self).expiry_at_ms ==> {
                &&& final(self).state is Init
                &&& r is NegotiationFailed
            },
            (old(self).state is Selecting || old(self).state is Requesting) && now_ms < old(
                self,
            ).retransmit_at_ms ==> *final(self) == *old(self) && r is Idle,
            old(self).state is Bound && now_ms < old(self).t1_at_ms ==> *final(self) == *old(self)
                && r is Idle,
            old(self).state is Renewing && now_ms < old(self).t2_at_ms && now_ms < old(
                self,
            ).retransmit_at_ms ==> *final(self) == *old(self) && r is Idle,
            old(self).state is Rebinding && now_ms < old(self).expiry_at_ms && now_ms < old(
                self,
            ).retransmit_at_ms ==> *final(self) == *old(self) && r is Idle,
            (old(self).state is Init || old(self).state is ReleasedOrExpired) ==> *final(self)
                == *old(self) && r is Idle,
    {
        match self.state {
            ClientState::Selecting => {
                if now_ms < self.retransmit_at_ms {
                    return ClientAction::Idle;
                }
                if self.attempts < self.config.max_attempts {
                    self.backoff(now_ms, jitter_ms);
                    ClientAction::BroadcastDiscover { xid: self.xid }
                } else {
                    self.state = ClientState::Init;
                    ClientAction::NegotiationFailed
                }
            },
            ClientState::Requesting => {
                if now_ms < self.retransmit_at_ms {
                    return ClientAction::Idle;
                }
                if self.attempts < self.config.max_attempts {
                    self.backoff(now_ms, jitter_ms);
                    ClientAction::BroadcastRequest { xid: self.xid, address: self.offered_address }
                } else {
                    self.state = ClientState::Init;
                    ClientAction::NegotiationFailed
                }
            },
            ClientState::Bound => {
                if now_ms < self.t1_at_ms {
                    return ClientAction::Idle;
                }
                self.attempts = 1;
                self.interval_ms = self.config.base_interval_ms;
                self.retransmit_at_ms = now_ms + self.interval_ms + jitter_ms;
                self.state = ClientState::Renewing;
                ClientAction::UnicastRequest {
                    xid: self.xid,
                    address: self.lease_address,
                    server: self.server_address,
                }
            },
            ClientState::Renewing => {
                if now_ms >= self.t2_at_ms {
                    self.attempts = 1;
                    self.interval_ms = self.config.base_interval_ms;
                    self.retransmit_at_ms = now_ms + self.interval_ms + jitter_ms;
                    self.state = ClientState::Rebinding;
                    return ClientAction::BroadcastRequest {
                        xid: self.xid,
                        address: self.lease_address,
                    };
                }
                if now_ms < self.retransmit_at_ms {
                    return ClientAction::Idle;
                }
                if self.attempts < self.config.max_attempts {
                    self.backoff(now_ms, jitter_ms);
                } else {
                    self.retransmit_at_ms = now_ms + self.interval_ms + jitter_ms;
                }
                ClientAction::UnicastRequest {
                    xid: self.xid,
                    address: self.lease_address,
                    server: self.server_address,
                }
            },
            ClientState::Rebinding => {
                if now_ms >= self.expiry_at_ms {
                    self.state = ClientState::Init;
                    return ClientAction::NegotiationFailed;
                }
                if now_ms < self.retransmit_at_ms {
                    return ClientAction::Idle;
                }
                if self.attempts < self.config.max_attempts {
                    self.backoff(now_ms, jitter_ms);
                } else {
                    self.retransmit_at_ms = now_ms + self.interval_ms + jitter_ms;
                }
                ClientAction::BroadcastRequest { xid: self.xid, address: self.lease_address }
            },
            _ => ClientAction::Idle,
        }
    }

    fn backoff(&mut self, now_ms: u64, jitter_ms: u64)
        requires
            client_wf(*old(self)),
            old(self).attempts < old(self).config.max_attempts,
            now_ms < MAX_NOW_MS,
            jitter_ms <= old(self).config.base_interval_ms,
        ensures
            client_wf(*final(self)),
            *final(self) == (Client {
                attempts: (old(self).attempts + 1) as u32,
                interval_ms: final(self).interval_ms,
                retransmit_at_ms: final(self).retransmit_at_ms,
                ..*old(self)
            }),
            final(self).interval_ms == if 2 * old(self).interval_ms <= old(self).config.max_interval_ms {
                2 * old(self).interval_ms
            } else {
                old(self).config.max_interval_ms as int
            },
            final(self).retransmit_at_ms == now_ms + final(self).interval_ms + jitter_ms,
    {
        self.attempts = self.attempts + 1;
        let doubled = if self.interval_ms <= self.config.max_interval_ms / 2 {
            self.interval_ms * 2
        } else {
            self.config.max_interval_ms
        };
        let capped = if doubled <= self.config.max_interval_ms {
            doubled
        } else {
            self.config.max_interval_ms
        };
        self.interval_ms = capped;
        self.retransmit_at_ms = now_ms + capped + jitter_ms;
    }

    /// Caller-initiated release, from any state: send a best-effort
    /// RELEASE when a lease is held, and stop.
    pub fn release(&mut self) -> (r: ClientAction)
        requires
            client_wf(*old(self)),
        ensures
            client_wf(*final(self)),
            final(self).state is ReleasedOrExpired,
            !(final(self).state is Bound),
            (old(self).state is Bound || old(self).state is Renewing || old(self).state is Rebinding) ==> r == (ClientAction::SendRelease {
                address: old(self).lease_address,
                server: old(self).server_address,
            }),
            !(old(self).state is Bound || old(self).state is Renewing || old(self).state is Rebinding) ==> r is Idle,
    {
        let had_lease = match self.state {
            ClientState::Bound => true,
            ClientState::Renewing => true,
            ClientState::Rebinding => true,
            _ => false,
        };
        self.state = ClientState::ReleasedOrExpired;
        if had_lease {
            ClientAction::SendRelease { address: self.lease_address, server: self.server_address }
        } else {
            ClientAction::Idle
        }
    }
}

} // verus!
