//! The server allocation engine: it consumes DISCOVER, REQUEST, DECLINE
//! and RELEASE, decides OFFER, ACK or NAK, and mutates lease records
//! through the storage.
//!
//! When no candidate address exists for a DISCOVER the engine stays
//! silent (drops the message) rather than sending a server-specific NAK.
//! Pool scanning is deterministic: the lowest free address wins.

use vstd::prelude::*;
use crate::lease::{Lease, LeaseView, leases_view, find_lease, lease_active, clone_bytes,
    upsert_lease};
use crate::storage::{Storage, Error, lease_committed};
use crate::codec::{Message, MessageView, spec_message_type, spec_option_addr, message_type,
    option_addr, OPTION_REQUESTED_ADDRESS, MSG_DISCOVER, MSG_REQUEST, MSG_DECLINE, MSG_RELEASE};

verus! {

/// The client identity a message carries: the hardware address truncated
/// to its declared length when that length is sound, else the whole
/// `chaddr` field.
pub open spec fn spec_client_key(m: MessageView) -> Seq<u8> {
    if 1 <= m.hardware_length <= m.chaddr.len() {
        m.chaddr.take(m.hardware_length as int)
    } else {
        m.chaddr
    }
}

/// The address a REQUEST asks for: the requested-address option when
/// present, else the message's own client address field (renewal).
pub open spec fn spec_requested_address(m: MessageView) -> u32 {
    match spec_option_addr(m, OPTION_REQUESTED_ADDRESS) {
        Some(a) => a,
        None => m.client_address,
    }
}

/// Extract the client identity bytes of a message.
pub fn client_key(m: &Message) -> (r: Vec<u8>)
    ensures
        r@ == spec_client_key(m@),
{
    let hlen = m.hardware_length as usize;
    if 1 <= hlen && hlen <= m.chaddr.len() {
        let mut r: Vec<u8> = Vec::new();
        let mut j: usize = 0;
        while j < hlen
            invariant
                j <= hlen <= m.chaddr@.len(),
                r@ == m.chaddr@.take(hlen as int).take(j as int),
            decreases hlen - j,
        {
            r.push(m.chaddr[j]);
            proof {
                assert(m.chaddr@.take(hlen as int).take(j + 1) =~= m.chaddr@.take(
                    hlen as int,
                ).take(j as int).push(m.chaddr@[j as int]));
            }
            j = j + 1;
        }
        proof {
            assert(m.chaddr@.take(hlen as int).take(hlen as int) =~= m.chaddr@.take(hlen as int));
        }
        r
    } else {
        crate::lease::clone_bytes(&m.chaddr)
    }
}

/// Extract the address a REQUEST asks for.
pub fn requested_address(m: &Message) -> (r: u32)
    ensures
        r == spec_requested_address(m@),
{
    match option_addr(m, OPTION_REQUESTED_ADDRESS) {
        Some(a) => a,
        None => m.client_address,
    }
}

/// Server configuration: the inclusive pool range and the lease duration
/// granted with every OFFER and ACK.
pub struct ServerConfig {
    pub pool_start: u32,
    pub pool_end: u32,
    pub lease_time: u32,
}

/// A sound configuration: a non-empty pool that stays below the broadcast
/// address, and a positive lease duration.
pub open spec fn config_wf(c: ServerConfig) -> bool {
    &&& c.pool_start <= c.pool_end
    &&& c.pool_end < 0xFFFF_FFFFu32
    &&& c.lease_time >= 1
}

/// The offer decision: a proposed address and lease duration, not yet
/// committed.
#[derive(Debug)]
pub struct Offer {
    pub address: u32,
    pub lease_time: u32,
}

/// The acknowledgement decision committing a lease, with a diagnostic
/// message that is not protocol-significant.
#[derive(Debug)]
pub struct Ack {
    pub address: u32,
    pub lease_time: u32,
    pub message: String,
}

/// The refusal decision telling the client to restart from Init.
#[derive(Debug)]
pub struct Nak {
    pub message: String,
}

/// The server's answer to a REQUEST.
pub enum RequestReply {
    Acknowledged(Ack),
    Refused(Nak),
}

/// The allocation engine.
pub struct Server {
    config: ServerConfig,
    storage: Storage,
    offers: Vec<Lease>,
}

/// An address not bound to any client and not frozen.
pub open spec fn spec_addr_free(clients: Map<u32, Seq<u8>>, frozen: Set<u32>, a: u32) -> bool {
    !clients.contains_key(a) && !frozen.contains(a)
}

/// `a` is the lowest free address of the inclusive pool range.
pub open spec fn spec_lowest_free(
    clients: Map<u32, Seq<u8>>,
    frozen: Set<u32>,
    start: u32,
    end: u32,
    a: u32,
) -> bool {
    &&& start <= a <= end
    &&& spec_addr_free(clients, frozen, a)
    &&& forall|b: u32| start <= b < a ==> !spec_addr_free(clients, frozen, b)
}

/// An expired address the same client may take again: not frozen, and not
/// bound to anyone else.
pub open spec fn spec_reusable(
    clients: Map<u32, Seq<u8>>,
    frozen: Set<u32>,
    client_id: Seq<u8>,
    a: u32,
) -> bool {
    &&& !frozen.contains(a)
    &&& (!clients.contains_key(a) || clients[a] == client_id)
}

/// The DISCOVER candidate policy: prefer the client's unexpired lease,
/// then its lapsed but still reusable address, then the lowest free pool
/// address; `None` when the pool is exhausted on the fallback path. A
/// frozen address is never a candidate, on any branch — not even for the
/// client whose lease record still points at it.
pub open spec fn spec_candidate(
    clients: Map<u32, Seq<u8>>,
    frozen: Set<u32>,
    leases: Seq<LeaseView>,
    c: ServerConfig,
    client_id: Seq<u8>,
    now_ms: u64,
    result: Option<u32>,
) -> bool {
    let fallback = match result {
        Some(a) => spec_lowest_free(clients, frozen, c.pool_start, c.pool_end, a),
        None => forall|b: u32|
            c.pool_start <= b <= c.pool_end ==> !spec_addr_free(clients, frozen, b),
    };
    match find_lease(leases, client_id) {
        Some(l) => if lease_active(l, now_ms) && !frozen.contains(l.address) {
            result == Some(l.address)
        } else if spec_reusable(clients, frozen, client_id, l.address) {
            result == Some(l.address)
        } else {
            fallback
        },
        None => fallback,
    }
}

/// A frozen address is never offered: no candidate the DISCOVER policy
/// admits is in the frozen set, whoever asks and whatever the records say.
pub proof fn lemma_frozen_never_offered(
    clients: Map<u32, Seq<u8>>,
    frozen: Set<u32>,
    leases: Seq<LeaseView>,
    c: ServerConfig,
    client_id: Seq<u8>,
    now_ms: u64,
    result: Option<u32>,
    a: u32,
)
    requires
        frozen.contains(a),
        spec_candidate(clients, frozen, leases, c, client_id, now_ms, result),
    ensures
        result != Some(a),
{
}

/// An address binding gone stale: the address is bound, but its holder's
/// lease has expired, points at another address, or is gone.
pub open spec fn spec_stale_binding(
    clients: Map<u32, Seq<u8>>,
    leases: Seq<LeaseView>,
    a: u32,
    now_ms: u64,
) -> bool {
    clients.contains_key(a) && match find_lease(leases, clients[a]) {
        Some(l) => !(l.address == a && lease_active(l, now_ms)),
        None => true,
    }
}

/// A REQUEST the server must acknowledge: the address was offered to this
/// client or is the client's current lease, it is not frozen, and it is
/// not bound to another client.
pub open spec fn spec_request_valid(
    clients: Map<u32, Seq<u8>>,
    frozen: Set<u32>,
    leases: Seq<LeaseView>,
    offers: Seq<LeaseView>,
    client_id: Seq<u8>,
    requested: u32,
) -> bool {
    &&& ((find_lease(offers, client_id) matches Some(o) && o.address == requested) || (find_lease(
        leases,
        client_id,
    ) matches Some(l)
        && l.address == requested))
    &&& !frozen.contains(requested)
    &&& (!clients.contains_key(requested) || clients[requested] == client_id)
}

impl Server {
    /// The address-to-client bindings of the underlying storage.
    pub closed spec fn clients_map(&self) -> Map<u32, Seq<u8>> {
        self.storage.clients_map()
    }

    /// The lease records of the underlying storage.
    pub closed spec fn leases_seq(&self) -> Seq<LeaseView> {
        self.storage.leases_seq()
    }

    /// The frozen addresses of the underlying storage.
    pub closed spec fn frozen_set(&self) -> Set<u32> {
        self.storage.frozen_set()
    }

    /// The outstanding offers, one per client identity, as lease-shaped
    /// records whose duration is the proposed one.
    pub closed spec fn offers_seq(&self) -> Seq<LeaseView> {
        leases_view(self.offers@)
    }

    /// The configuration the engine was built with.
    pub closed spec fn spec_config(&self) -> ServerConfig {
        self.config
    }

    /// A new engine over the given storage; the storage may hold state
    /// reloaded from an earlier run.
    pub fn new(config: ServerConfig, storage: Storage) -> (r: Server)
        requires
            config_wf(config),
        ensures
            r.spec_config() == config,
            r.clients_map() == storage.clients_map(),
            r.leases_seq() == storage.leases_seq(),
            r.frozen_set() == storage.frozen_set(),
            r.offers_seq() == Seq::<LeaseView>::empty(),
    {
        let r = Server { config, storage, offers: Vec::new() };
        proof {
            assert(r.offers_seq() =~= Seq::<LeaseView>::empty());
        }
        r
    }

    /// A view of the underlying storage, for callers that inspect or
    /// persist lease state.
    pub fn storage(&self) -> (r: &Storage)
        ensures
            r.clients_map() == self.clients_map(),
            r.leases_seq() == self.leases_seq(),
            r.frozen_set() == self.frozen_set(),
    {
        &self.storage
    }

    /// Whether the address is free for allocation right now.
    fn addr_is_free(&self, a: u32) -> (r: Result<bool, Error>)
        ensures
            r matches Ok(f) && f == spec_addr_free(self.clients_map(), self.frozen_set(), a),
    {
        let frozen = match self.storage.check_frozen(a) {
            Ok(f) => f,
            Err(e) => return Err(e),
        };
        if frozen {
            return Ok(false);
        }
        match self.storage.get_client(a) {
            Ok(c) => Ok(c.is_none()),
            Err(e) => Err(e),
        }
    }

    /// The lowest free address of the pool, or `None` when every pool
    /// address is bound or frozen.
    fn lowest_free(&self) -> (r: Result<Option<u32>, Error>)
        requires
            config_wf(self.spec_config()),
        ensures
            r matches Ok(o) && match o {
                Some(a) => spec_lowest_free(
                    self.clients_map(),
                    self.frozen_set(),
                    self.spec_config().pool_start,
                    self.spec_config().pool_end,
                    a,
                ),
                None => forall|b: u32|
                    self.spec_config().pool_start <= b <= self.spec_config().pool_end
                        ==> !spec_addr_free(self.clients_map(), self.frozen_set(), b),
            },
    {
        let mut a: u32 = self.config.pool_start;
        while a <= self.config.pool_end
            invariant
                config_wf(self.spec_config()),
                self.spec_config().pool_start <= a <= self.spec_config().pool_end + 1,
                forall|b: u32|
                    self.spec_config().pool_start <= b < a ==> !spec_addr_free(
                        self.clients_map(),
                        self.frozen_set(),
                        b,
                    ),
            decreases self.spec_config().pool_end + 1 - a,
        {
            let free = match self.addr_is_free(a) {
                Ok(f) => f,
                Err(e) => return Err(e),
            };
            if free {
                return Ok(Some(a));
            }
            a = a + 1;
        }
        Ok(None)
    }

    /// Handle a DISCOVER: compute the candidate address by the documented
    /// policy, record the offer for the client, and return it; `None`
    /// means the message is silently dropped. The storage is not written.
    pub fn handle_discover(&mut self, client_id: &Vec<u8>, now_ms: u64) -> (r: Result<
        Option<Offer>,
        Error,
    >)
        requires
            config_wf(old(self).spec_config()),
        ensures
            r is Ok,
            final(self).spec_config() == old(self).spec_config(),
            final(self).clients_map() == old(self).clients_map(),
            final(self).leases_seq() == old(self).leases_seq(),
            final(self).frozen_set() == old(self).frozen_set(),
            r matches Ok(o) ==> spec_candidate(
                old(self).clients_map(),
                old(self).frozen_set(),
                old(self).leases_seq(),
                old(self).spec_config(),
                client_id@,
                now_ms,
                match o {
                    Some(off) => Some(off.address),
                    None => None,
                },
            ),
            r matches Ok(o) ==> match o {
                Some(off) => {
                    &&& off.lease_time == old(self).spec_config().lease_time
                    &&& find_lease(final(self).offers_seq(), client_id@) == Some(
                        LeaseView {
                            client_id: client_id@,
                            address: off.address,
                            lease_time: old(self).spec_config().lease_time,
                            start_ms: now_ms,
                        },
                    )
                    &&& forall|c: Seq<u8>|
                        c != client_id@ ==> #[trigger] find_lease(final(self).offers_seq(), c)
                            == find_lease(old(self).offers_seq(), c)
                },
                None => final(self).offers_seq() == old(self).offers_seq(),
            },
    {
        let existing = match self.storage.get_lease(client_id) {
            Ok(o) => o,
            Err(e) => return Err(e),
        };
        let candidate: Option<u32> = match existing {
            Some(l) => {
                let frozen = match self.storage.check_frozen(l.address) {
                    Ok(f) => f,
                    Err(e) => return Err(e),
                };
                if l.is_active(now_ms) && !frozen {
                    Some(l.address)
                } else {
                    let holder = match self.storage.get_client(l.address) {
                        Ok(c) => c,
                        Err(e) => return Err(e),
                    };
                    let reusable = !frozen && match holder {
                        Some(c) => crate::lease::bytes_eq(&c, client_id),
                        None => true,
                    };
                    if reusable {
                        Some(l.address)
                    } else {
                        match self.lowest_free() {
                            Ok(o) => o,
                            Err(e) => return Err(e),
                        }
                    }
                }
            },
            None => {
                match self.lowest_free() {
                    Ok(o) => o,
                    Err(e) => return Err(e),
                }
            },
        };
        match candidate {
            Some(a) => {
                let offer_record = Lease {
                    client_id: clone_bytes(client_id),
                    address: a,
                    lease_time: self.config.lease_time,
                    start_ms: now_ms,
                };
                upsert_lease(&mut self.offers, client_id, offer_record);
                Ok(Some(Offer { address: a, lease_time: self.config.lease_time }))
            },
            None => Ok(None),
        }
    }

    /// Handle a REQUEST: acknowledge and commit the lease exactly when the
    /// requested address was offered to this client or renews its current
    /// lease, is not frozen and is not bound to another client; otherwise
    /// refuse with a NAK and leave every record unchanged.
    pub fn handle_request(&mut self, client_id: &Vec<u8>, requested: u32, now_ms: u64) -> (r:
        Result<RequestReply, Error>)
        requires
            config_wf(old(self).spec_config()),
        ensures
            r is Ok,
            final(self).spec_config() == old(self).spec_config(),
            final(self).frozen_set() == old(self).frozen_set(),
            final(self).offers_seq() == old(self).offers_seq(),
            r matches Ok(rep) ==> ((rep is Acknowledged) <==> spec_request_valid(
                old(self).clients_map(),
                old(self).frozen_set(),
                old(self).leases_seq(),
                old(self).offers_seq(),
                client_id@,
                requested,
            )),
            r matches Ok(rep) ==> match rep {
                RequestReply::Acknowledged(a) => {
                    &&& a.address == requested
                    &&& a.lease_time == old(self).spec_config().lease_time
                    &&& final(self).clients_map() == old(self).clients_map().insert(
                        requested,
                        client_id@,
                    )
                    &&& find_lease(final(self).leases_seq(), client_id@) == Some(
                        LeaseView {
                            client_id: client_id@,
                            address: requested,
                            lease_time: old(self).spec_config().lease_time,
                            start_ms: now_ms,
                        },
                    )
                    &&& forall|c: Seq<u8>|
                        c != client_id@ ==> #[trigger] find_lease(final(self).leases_seq(), c)
                            == find_lease(old(self).leases_seq(), c)
                    &&& lease_committed(
                        final(self).clients_map(),
                        final(self).leases_seq(),
                        client_id@,
                        LeaseView {
                            client_id: client_id@,
                            address: requested,
                            lease_time: old(self).spec_config().lease_time,
                            start_ms: now_ms,
                        },
                    )
                },
                RequestReply::Refused(_) => {
                    &&& final(self).clients_map() == old(self).clients_map()
                    &&& final(self).leases_seq() == old(self).leases_seq()
                },
            },
    {
        let offered = match crate::lease::find_lease_index(&self.offers, client_id) {
            Some(i) => self.offers[i].address == requested,
            None => false,
        };
        let renewing = if offered {
            true
        } else {
            match self.storage.get_lease(client_id) {
                Ok(Some(l)) => l.address == requested,
                Ok(None) => false,
                Err(e) => return Err(e),
            }
        };
        let frozen = match self.storage.check_frozen(requested) {
            Ok(f) => f,
            Err(e) => return Err(e),
        };
        let holder_ok = match self.storage.get_client(requested) {
            Ok(Some(c)) => crate::lease::bytes_eq(&c, client_id),
            Ok(None) => true,
            Err(e) => return Err(e),
        };
        if (offered || renewing) && !frozen && holder_ok {
            match self.storage.add_client(requested, client_id) {
                Ok(()) => (),
                Err(e) => return Err(e),
            }
            let lease = Lease {
                client_id: clone_bytes(client_id),
                address: requested,
                lease_time: self.config.lease_time,
                start_ms: now_ms,
            };
            match self.storage.add_lease(client_id, lease) {
                Ok(()) => (),
                Err(e) => return Err(e),
            }
            Ok(RequestReply::Acknowledged(Ack {
                address: requested,
                lease_time: self.config.lease_time,
                message: "lease granted".to_owned(),
            }))
        } else {
            Ok(RequestReply::Refused(Nak { message: "requested address refused".to_owned() }))
        }
    }

    /// Handle a DECLINE: freeze the reported address, unbind it, and
    /// invalidate the holder's lease record pointing at it (its duration
    /// is zeroed, as on RELEASE). The address is then never offered again
    /// until explicitly cleared: `lemma_frozen_never_offered` rules it out
    /// of every DISCOVER answer. A lease record of a client no longer
    /// bound to the address was already uncommitted; the frozen check
    /// keeps that address out of offers all the same.
    pub fn handle_decline(&mut self, address: u32) -> (r: Result<(), Error>)
        ensures
            r is Ok,
            final(self).spec_config() == old(self).spec_config(),
            final(self).offers_seq() == old(self).offers_seq(),
            final(self).frozen_set() == old(self).frozen_set().insert(address),
            final(self).clients_map() == old(self).clients_map().remove(address),
            ({
                let holder = old(self).clients_map()[address];
                if old(self).clients_map().contains_key(address) {
                    match find_lease(old(self).leases_seq(), holder) {
                        Some(l) => if l.address == address {
                            &&& find_lease(final(self).leases_seq(), holder) == Some(
                                LeaseView { lease_time: 0u32, ..l },
                            )
                            &&& forall|c: Seq<u8>|
                                c != holder ==> #[trigger] find_lease(final(self).leases_seq(), c)
                                    == find_lease(old(self).leases_seq(), c)
                        } else {
                            final(self).leases_seq() == old(self).leases_seq()
                        },
                        None => final(self).leases_seq() == old(self).leases_seq(),
                    }
                } else {
                    final(self).leases_seq() == old(self).leases_seq()
                }
            }),
    {
        let holder = match self.storage.get_client(address) {
            Ok(c) => c,
            Err(e) => return Err(e),
        };
        match holder {
            Some(cid) => {
                let lease = match self.storage.get_lease(&cid) {
                    Ok(l) => l,
                    Err(e) => return Err(e),
                };
                match lease {
                    Some(l) => {
                        if l.address == address {
                            match self.storage.update_lease(&cid, 0, l.start_ms) {
                                Ok(_) => (),
                                Err(e) => return Err(e),
                            }
                        }
                    },
                    None => (),
                }
            },
            None => (),
        }
        match self.storage.add_frozen(address) {
            Ok(()) => (),
            Err(e) => return Err(e),
        }
        match self.storage.delete_client(address) {
            Ok(()) => (),
            Err(e) => return Err(e),
        }
        Ok(())
    }

    /// Handle a RELEASE: unbind the client's leased address and zero the
    /// record's duration; the address is not frozen. A release from a
    /// client with no lease changes nothing.
    pub fn handle_release(&mut self, client_id: &Vec<u8>) -> (r: Result<(), Error>)
        ensures
            r is Ok,
            final(self).spec_config() == old(self).spec_config(),
            final(self).offers_seq() == old(self).offers_seq(),
            final(self).frozen_set() == old(self).frozen_set(),
            r is Ok ==> match find_lease(old(self).leases_seq(), client_id@) {
                Some(l) => {
                    &&& final(self).clients_map() == if old(self).clients_map().contains_key(
                        l.address,
                    ) && old(self).clients_map()[l.address] == client_id@ {
                        old(self).clients_map().remove(l.address)
                    } else {
                        old(self).clients_map()
                    }
                    &&& find_lease(final(self).leases_seq(), client_id@) == Some(
                        LeaseView { lease_time: 0u32, ..l },
                    )
                    &&& forall|c: Seq<u8>|
                        c != client_id@ ==> #[trigger] find_lease(final(self).leases_seq(), c)
                            == find_lease(old(self).leases_seq(), c)
                },
                None => {
                    &&& final(self).clients_map() == old(self).clients_map()
                    &&& final(self).leases_seq() == old(self).leases_seq()
                },
            },
    {
        let existing = match self.storage.get_lease(client_id) {
            Ok(o) => o,
            Err(e) => return Err(e),
        };
        match existing {
            Some(l) => {
                let holder = match self.storage.get_client(l.address) {
                    Ok(c) => c,
                    Err(e) => return Err(e),
                };
                let held_by_client = match holder {
                    Some(c) => crate::lease::bytes_eq(&c, client_id),
                    None => false,
                };
                if held_by_client {
                    match self.storage.delete_client(l.address) {
                        Ok(()) => (),
                        Err(e) => return Err(e),
                    }
                }
                match self.storage.update_lease(client_id, 0, l.start_ms) {
                    Ok(_) => (),
                    Err(e) => return Err(e),
                }
                Ok(())
            },
            None => Ok(()),
        }
    }

    fn expire_address(&mut self, address: u32, now_ms: u64) -> (r: Result<bool, Error>)
        ensures
            r is Ok,
            final(self).spec_config() == old(self).spec_config(),
            final(self).leases_seq() == old(self).leases_seq(),
            final(self).frozen_set() == old(self).frozen_set(),
            final(self).offers_seq() == old(self).offers_seq(),
            r matches Ok(b) ==> {
                &&& b == spec_stale_binding(
                    old(self).clients_map(),
                    old(self).leases_seq(),
                    address,
                    now_ms,
                )
                &&& final(self).clients_map() == if b {
                    old(self).clients_map().remove(address)
                } else {
                    old(self).clients_map()
                }
            },
    {
        let holder = match self.storage.get_client(address) {
            Ok(c) => c,
            Err(e) => return Err(e),
        };
        let cid = match holder {
            Some(c) => c,
            None => {
                return Ok(false);
            },
        };
        let lease = match self.storage.get_lease(&cid) {
            Ok(l) => l,
            Err(e) => return Err(e),
        };
        let stale = match lease {
            Some(l) => !(l.address == address && l.is_active(now_ms)),
            None => true,
        };
        if stale {
            match self.storage.delete_client(address) {
                Ok(()) => (),
                Err(e) => return Err(e),
            }
        }
        Ok(stale)
    }

    /// The periodic expiry sweep: unbind every pool address whose binding
    /// has gone stale — its holder's lease has expired, points elsewhere,
    /// or is gone. Lease records, offers and the frozen set are untouched,
    /// and no live binding is disturbed.
    pub fn sweep_expired(&mut self, now_ms: u64) -> (r: Result<(), Error>)
        requires
            config_wf(old(self).spec_config()),
        ensures
            r is Ok,
            final(self).spec_config() == old(self).spec_config(),
            final(self).leases_seq() == old(self).leases_seq(),
            final(self).frozen_set() == old(self).frozen_set(),
            final(self).offers_seq() == old(self).offers_seq(),
            r is Ok ==> forall|b: u32|
                #[trigger] final(self).clients_map().contains_key(b) <==> (old(
                    self,
                ).clients_map().contains_key(b) && !(old(self).spec_config().pool_start <= b <= old(
                    self,
                ).spec_config().pool_end && spec_stale_binding(
                    old(self).clients_map(),
                    old(self).leases_seq(),
                    b,
                    now_ms,
                ))),
            r is Ok ==> forall|b: u32|
                #[trigger] final(self).clients_map().contains_key(b) ==> final(self).clients_map()[b]
                    == old(self).clients_map()[b],
    {
        let mut a: u32 = self.config.pool_start;
        while a <= self.config.pool_end
            invariant
                config_wf(self.spec_config()),
                self.spec_config() == old(self).spec_config(),
                self.leases_seq() == old(self).leases_seq(),
                self.frozen_set() == old(self).frozen_set(),
                self.offers_seq() == old(self).offers_seq(),
                self.spec_config().pool_start <= a <= self.spec_config().pool_end + 1,
                forall|b: u32|
                    #[trigger] self.clients_map().contains_key(b) <==> (old(
                        self,
                    ).clients_map().contains_key(b) && !(old(self).spec_config().pool_start <= b
                        < a && spec_stale_binding(
                        old(self).clients_map(),
                        old(self).leases_seq(),
                        b,
                        now_ms,
                    ))),
                forall|b: u32|
                    #[trigger] self.clients_map().contains_key(b) ==> self.clients_map()[b] == old(
                        self,
                    ).clients_map()[b],
            decreases self.spec_config().pool_end + 1 - a,
        {
            proof {
                if self.clients_map().contains_key(a) {
                    assert(old(self).clients_map().contains_key(a));
                    assert(self.clients_map()[a] == old(self).clients_map()[a]);
                } else {
                    assert(!(old(self).clients_map().contains_key(a) && !(old(
                        self,
                    ).spec_config().pool_start <= a < a && spec_stale_binding(
                        old(self).clients_map(),
                        old(self).leases_seq(),
                        a,
                        now_ms,
                    ))));
                    assert(!old(self).clients_map().contains_key(a));
                }
                assert(spec_stale_binding(
                    self.clients_map(),
                    self.leases_seq(),
                    a,
                    now_ms,
                ) == spec_stale_binding(
                    old(self).clients_map(),
                    old(self).leases_seq(),
                    a,
                    now_ms,
                ));
            }
            match self.expire_address(a, now_ms) {
                Ok(_) => (),
                Err(e) => return Err(e),
            }
            a = a + 1;
        }
        Ok(())
    }

    /// Dispatch one decoded inbound message on its DHCP message type.
    /// DISCOVER may yield an offer, REQUEST an acknowledgement or a
    /// refusal; DECLINE and RELEASE only mutate records. A message without
    /// a sound type option, or of a type the engine does not serve
    /// (INFORM among them), is dropped with no lease side effects.
    pub fn handle_message(&mut self, m: &Message, now_ms: u64) -> (r: Result<
        Option<ServerDecision>,
        Error,
    >)
        requires
            config_wf(old(self).spec_config()),
        ensures
            r is Ok,
            final(self).spec_config() == old(self).spec_config(),
            r matches Ok(d) ==> match spec_message_type(m@) {
                Some(t) => {
                    &&& t == MSG_DISCOVER ==> {
                        &&& final(self).clients_map() == old(self).clients_map()
                        &&& final(self).leases_seq() == old(self).leases_seq()
                        &&& final(self).frozen_set() == old(self).frozen_set()
                        &&& match d {
                            Some(ServerDecision::Offering(off)) => {
                                &&& spec_candidate(
                                    old(self).clients_map(),
                                    old(self).frozen_set(),
                                    old(self).leases_seq(),
                                    old(self).spec_config(),
                                    spec_client_key(m@),
                                    now_ms,
                                    Some(off.address),
                                )
                                &&& off.lease_time == old(self).spec_config().lease_time
                                &&& find_lease(final(self).offers_seq(), spec_client_key(m@))
                                    == Some(
                                    LeaseView {
                                        client_id: spec_client_key(m@),
                                        address: off.address,
                                        lease_time: old(self).spec_config().lease_time,
                                        start_ms: now_ms,
                                    },
                                )
                                &&& forall|c: Seq<u8>|
                                    c != spec_client_key(m@) ==> #[trigger] find_lease(
                                        final(self).offers_seq(),
                                        c,
                                    ) == find_lease(old(self).offers_seq(), c)
                            },
                            None => {
                                &&& spec_candidate(
                                    old(self).clients_map(),
                                    old(self).frozen_set(),
                                    old(self).leases_seq(),
                                    old(self).spec_config(),
                                    spec_client_key(m@),
                                    now_ms,
                                    None,
                                )
                                &&& final(self).offers_seq() == old(self).offers_seq()
                            },
                            _ => false,
                        }
                    }
                    &&& t == MSG_REQUEST ==> {
                        &&& final(self).offers_seq() == old(self).offers_seq()
                        &&& final(self).frozen_set() == old(self).frozen_set()
                        &&& ((d matches Some(ServerDecision::Acknowledged(_)))
                            <==> spec_request_valid(
                            old(self).clients_map(),
                            old(self).frozen_set(),
                            old(self).leases_seq(),
                            old(self).offers_seq(),
                            spec_client_key(m@),
                            spec_requested_address(m@),
                        ))
                        &&& match d {
                            Some(ServerDecision::Acknowledged(a)) => {
                                &&& a.address == spec_requested_address(m@)
                                &&& final(self).clients_map() == old(self).clients_map().insert(
                                    spec_requested_address(m@),
                                    spec_client_key(m@),
                                )
                                &&& find_lease(final(self).leases_seq(), spec_client_key(m@))
                                    == Some(
                                    LeaseView {
                                        client_id: spec_client_key(m@),
                                        address: spec_requested_address(m@),
                                        lease_time: old(self).spec_config().lease_time,
                                        start_ms: now_ms,
                                    },
                                )
                            },
                            Some(ServerDecision::Refused(_)) => {
                                &&& final(self).clients_map() == old(self).clients_map()
                                &&& final(self).leases_seq() == old(self).leases_seq()
                            },
                            _ => false,
                        }
                    }
                    &&& t == MSG_DECLINE ==> {
                        &&& d is None
                        &&& final(self).offers_seq() == old(self).offers_seq()
                        &&& final(self).frozen_set() == old(self).frozen_set().insert(
                            spec_requested_address(m@),
                        )
                        &&& final(self).clients_map() == old(self).clients_map().remove(
                            spec_requested_address(m@),
                        )
                        &&& ({
                            let holder = old(self).clients_map()[spec_requested_address(m@)];
                            if old(self).clients_map().contains_key(spec_requested_address(m@)) {
                                match find_lease(old(self).leases_seq(), holder) {
                                    Some(l) => if l.address == spec_requested_address(m@) {
                                        &&& find_lease(final(self).leases_seq(), holder) == Some(
                                            LeaseView { lease_time: 0u32, ..l },
                                        )
                                        &&& forall|c: Seq<u8>|
                                            c != holder ==> #[trigger] find_lease(
                                                final(self).leases_seq(),
                                                c,
                                            ) == find_lease(old(self).leases_seq(), c)
                                    } else {
                                        final(self).leases_seq() == old(self).leases_seq()
                                    },
                                    None => final(self).leases_seq() == old(self).leases_seq(),
                                }
                            } else {
                                final(self).leases_seq() == old(self).leases_seq()
                            }
                        })
                    }
                    &&& t == MSG_RELEASE ==> {
                        &&& d is None
                        &&& final(self).offers_seq() == old(self).offers_seq()
                        &&& final(self).frozen_set() == old(self).frozen_set()
                        &&& match find_lease(old(self).leases_seq(), spec_client_key(m@)) {
                            Some(l) => {
                                &&& final(self).clients_map() == if old(
                                    self,
                                ).clients_map().contains_key(l.address) && old(
                                    self,
                                ).clients_map()[l.address] == spec_client_key(m@) {
                                    old(self).clients_map().remove(l.address)
                                } else {
                                    old(self).clients_map()
                                }
                                &&& find_lease(final(self).leases_seq(), spec_client_key(m@))
                                    == Some(LeaseView { lease_time: 0u32, ..l })
                                &&& forall|c: Seq<u8>|
                                    c != spec_client_key(m@) ==> #[trigger] find_lease(
                                        final(self).leases_seq(),
                                        c,
                                    ) == find_lease(old(self).leases_seq(), c)
                            },
                            None => {
                                &&& final(self).clients_map() == old(self).clients_map()
                                &&& final(self).leases_seq() == old(self).leases_seq()
                            },
                        }
                    }
                    &&& (t != MSG_DISCOVER && t != MSG_REQUEST && t != MSG_DECLINE && t
                        != MSG_RELEASE) ==> d is None && *final(self) == *old(self)
                },
                None => d is None && *final(self) == *old(self),
            },
    {
        let t = match message_type(m) {
            Some(t) => t,
            None => {
                return Ok(None);
            },
        };
        let key = client_key(m);
        if t == MSG_DISCOVER {
            match self.handle_discover(&key, now_ms) {
                Ok(Some(off)) => Ok(Some(ServerDecision::Offering(off))),
                Ok(None) => Ok(None),
                Err(e) => Err(e),
            }
        } else if t == MSG_REQUEST {
            match self.handle_request(&key, requested_address(m), now_ms) {
                Ok(RequestReply::Acknowledged(a)) => Ok(Some(ServerDecision::Acknowledged(a))),
                Ok(RequestReply::Refused(n)) => Ok(Some(ServerDecision::Refused(n))),
                Err(e) => Err(e),
            }
        } else if t == MSG_DECLINE {
            match self.handle_decline(requested_address(m)) {
                Ok(()) => Ok(None),
                Err(e) => Err(e),
            }
        } else if t == MSG_RELEASE {
            match self.handle_release(&key) {
                Ok(()) => Ok(None),
                Err(e) => Err(e),
            }
        } else {
            Ok(None)
        }
    }
}

/// The server's outward decision for one inbound message.
#[derive(Debug)]
pub enum ServerDecision {
    Offering(Offer),
    Acknowledged(Ack),
    Refused(Nak),
}

} // verus!
