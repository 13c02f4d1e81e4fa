//! Lease storage for the server engine: the address-to-client bindings,
//! the lease records keyed by client identity, and the frozen-address set
//! filled by DECLINE reports.
//!
//! The operations mirror a pluggable ACID backing store: each returns a
//! `Result` whose error kind names the failing operation, and a failed
//! call leaves the store unchanged ("deny, do not corrupt"). This
//! in-memory store never fails, which its contracts also say; the server
//! engine still handles every `Err` by denying the request and touching
//! nothing, so those paths are written and type-checked, but with this
//! store they are provably unreachable and no test can drive them.

use vstd::prelude::*;
use std::collections::HashMap;
use std::collections::HashSet;
use crate::lease::{Lease, LeaseView, leases_view, find_lease, clone_bytes};
use crate::lease::{find_lease_index, upsert_lease, lemma_find_lease_update};

verus! {

broadcast use vstd::std_specs::hash::group_hash_axioms;

/// Errors of the storage operations, one kind per operation and a
/// catch-all, as a pluggable backend would report them.
#[derive(Debug)]
pub enum Error {
    GetClient(String),
    AddClient(String),
    DeleteClient(String),
    GetLease(String),
    AddLease(String),
    UpdateLease(String),
    CheckFrozen(String),
    AddFrozen(String),
    Other(String),
}

/// The in-memory lease store.
pub struct Storage {
    clients: HashMap<u32, Vec<u8>>,
    leases: Vec<Lease>,
    frozen: HashSet<u32>,
}

impl Storage {
    /// Which client identity each address is bound to.
    pub closed spec fn clients_map(&self) -> Map<u32, Seq<u8>> {
        Map::new(
            |a: u32| self.clients@.contains_key(a),
            |a: u32| self.clients@[a]@,
        )
    }

    /// All lease records, in insertion order.
    pub closed spec fn leases_seq(&self) -> Seq<LeaseView> {
        leases_view(self.leases@)
    }

    /// The addresses frozen by DECLINE reports.
    pub closed spec fn frozen_set(&self) -> Set<u32> {
        self.frozen@
    }

    /// An empty store.
    pub fn new() -> (r: Storage)
        ensures
            r.clients_map() == Map::<u32, Seq<u8>>::empty(),
            r.leases_seq() == Seq::<LeaseView>::empty(),
            r.frozen_set() == Set::<u32>::empty(),
    {
        let r = Storage { clients: HashMap::new(), leases: Vec::new(), frozen: HashSet::new() };
        proof {
            assert(r.clients_map() =~= Map::<u32, Seq<u8>>::empty());
            assert(r.leases_seq() =~= Seq::<LeaseView>::empty());
            assert(r.frozen_set() =~= Set::<u32>::empty());
        }
        r
    }

    /// The client identity bound to the given address, if any.
    pub fn get_client(&self, address: u32) -> (r: Result<Option<Vec<u8>>, Error>)
        ensures
            r matches Ok(o) && (o is Some <==> self.clients_map().contains_key(address)),
            r matches Ok(o) ==> (o matches Some(c) ==> c@ == self.clients_map()[address]),
    {
        match self.clients.get(&address) {
            Some(c) => Ok(Some(clone_bytes(c))),
            None => Ok(None),
        }
    }

    /// Bind the address to the client identity, replacing any other binding
    /// of that address.
    pub fn add_client(&mut self, address: u32, client_id: &Vec<u8>) -> (r: Result<(), Error>)
        ensures
            r is Ok,
            final(self).clients_map() == old(self).clients_map().insert(address, client_id@),
            final(self).leases_seq() == old(self).leases_seq(),
            final(self).frozen_set() == old(self).frozen_set(),
    {
        self.clients.insert(address, clone_bytes(client_id));
        proof {
            assert(final(self).clients_map() =~= old(self).clients_map().insert(
                address,
                client_id@,
            ));
        }
        Ok(())
    }

    /// Unbind the address from whatever client holds it.
    pub fn delete_client(&mut self, address: u32) -> (r: Result<(), Error>)
        ensures
            r is Ok,
            final(self).clients_map() == old(self).clients_map().remove(address),
            final(self).leases_seq() == old(self).leases_seq(),
            final(self).frozen_set() == old(self).frozen_set(),
    {
        self.clients.remove(&address);
        proof {
            assert(final(self).clients_map() =~= old(self).clients_map().remove(address));
        }
        Ok(())
    }

    fn find_index(&self, client_id: &Vec<u8>) -> (r: Option<usize>)
        ensures
            match r {
                Some(i) => {
                    &&& i < self.leases@.len()
                    &&& self.leases@[i as int]@.client_id == client_id@
                    &&& forall|j: int|
                        0 <= j < i ==> (#[trigger] self.leases@[j])@.client_id != client_id@
                    &&& find_lease(self.leases_seq(), client_id@) == Some(
                        self.leases@[i as int]@,
                    )
                },
                None => find_lease(self.leases_seq(), client_id@) is None,
            },
    {
        find_lease_index(&self.leases, client_id)
    }

    /// The lease record of the given client identity, if any.
    pub fn get_lease(&self, client_id: &Vec<u8>) -> (r: Result<Option<Lease>, Error>)
        ensures
            r matches Ok(o) && (o is Some <==> find_lease(self.leases_seq(), client_id@) is Some),
            r matches Ok(o) ==> (o matches Some(l) ==> Some(l@) == find_lease(
                self.leases_seq(),
                client_id@,
            )),
    {
        match self.find_index(client_id) {
            Some(i) => Ok(Some(self.leases[i].duplicate())),
            None => Ok(None),
        }
    }

    /// Record the lease for its client identity, replacing any earlier
    /// record of that identity and no other.
    pub fn add_lease(&mut self, client_id: &Vec<u8>, lease: Lease) -> (r: Result<(), Error>)
        requires
            lease@.client_id == client_id@,
        ensures
            r is Ok,
            find_lease(final(self).leases_seq(), client_id@) == Some(lease@),
            forall|c: Seq<u8>|
                c != client_id@ ==> #[trigger] find_lease(final(self).leases_seq(), c) == find_lease(
                    old(self).leases_seq(),
                    c,
                ),
            final(self).clients_map() == old(self).clients_map(),
            final(self).frozen_set() == old(self).frozen_set(),
    {
        upsert_lease(&mut self.leases, client_id, lease);
        Ok(())
    }

    /// Refresh the lease of the given client identity with a new duration
    /// and start, keeping its address; returns the updated record, or
    /// `None` when the client holds no lease.
    pub fn update_lease(&mut self, client_id: &Vec<u8>, lease_time: u32, start_ms: u64) -> (r:
        Result<Option<Lease>, Error>)
        ensures
            r matches Ok(o) && (o is Some <==> find_lease(old(self).leases_seq(), client_id@)
                is Some),
            r matches Ok(o) ==> match o {
                Some(l) => {
                    &&& (find_lease(old(self).leases_seq(), client_id@) matches Some(p) && l@ == (
                    LeaseView { lease_time, start_ms, ..p }))
                    &&& find_lease(final(self).leases_seq(), client_id@) == Some(l@)
                },
                None => final(self).leases_seq() == old(self).leases_seq(),
            },
            forall|c: Seq<u8>|
                c != client_id@ ==> #[trigger] find_lease(final(self).leases_seq(), c) == find_lease(
                    old(self).leases_seq(),
                    c,
                ),
            final(self).clients_map() == old(self).clients_map(),
            final(self).frozen_set() == old(self).frozen_set(),
    {
        let ghost s0 = self.leases_seq();
        match find_lease_index(&self.leases, client_id) {
            Some(i) => {
                let updated = Lease {
                    client_id: clone_bytes(client_id),
                    address: self.leases[i].address,
                    lease_time,
                    start_ms,
                };
                let result = updated.duplicate();
                self.leases.set(i, updated);
                proof {
                    assert(final(self).leases_seq() =~= s0.update(i as int, result@));
                    assert forall|j: int|
                        0 <= j < i implies (#[trigger] s0[j]).client_id != s0[i as int].client_id by {
                        assert(s0[j] == old(self).leases@[j]@);
                        assert(s0[i as int] == old(self).leases@[i as int]@);
                    }
                    assert(s0[i as int] == old(self).leases@[i as int]@);
                    lemma_find_lease_update(s0, i as int, result@, client_id@);
                    assert forall|c: Seq<u8>|
                        c != client_id@ implies #[trigger] find_lease(final(self).leases_seq(), c)
                        == find_lease(s0, c) by {
                        lemma_find_lease_update(s0, i as int, result@, c);
                    }
                }
                Ok(Some(result))
            },
            None => Ok(None),
        }
    }

    /// Whether the address was frozen by a DECLINE report.
    pub fn check_frozen(&self, address: u32) -> (r: Result<bool, Error>)
        ensures
            r matches Ok(f) && f == self.frozen_set().contains(address),
    {
        Ok(self.frozen.contains(&address))
    }

    /// Freeze the address, excluding it from allocation.
    pub fn add_frozen(&mut self, address: u32) -> (r: Result<(), Error>)
        ensures
            r is Ok,
            final(self).frozen_set() == old(self).frozen_set().insert(address),
            final(self).clients_map() == old(self).clients_map(),
            final(self).leases_seq() == old(self).leases_seq(),
    {
        self.frozen.insert(address);
        Ok(())
    }
}

/// A lease is committed for a client identity when the client's lease
/// record and the address binding point at each other.
pub open spec fn lease_committed(
    clients: Map<u32, Seq<u8>>,
    leases: Seq<LeaseView>,
    client_id: Seq<u8>,
    l: LeaseView,
) -> bool {
    &&& find_lease(leases, client_id) == Some(l)
    &&& clients.contains_key(l.address)
    &&& clients[l.address] == client_id
}

/// Lease exclusivity: two committed leases on the same address belong to
/// the same client, in any store state, because every committed lease is
/// anchored in the one address-to-client binding of its address.
pub proof fn lemma_lease_exclusivity(
    clients: Map<u32, Seq<u8>>,
    leases: Seq<LeaseView>,
    c1: Seq<u8>,
    c2: Seq<u8>,
    l1: LeaseView,
    l2: LeaseView,
)
    requires
        lease_committed(clients, leases, c1, l1),
        lease_committed(clients, leases, c2, l2),
        l1.address == l2.address,
    ensures
        c1 == c2,
        l1 == l2,
{
    assert(c1 == clients[l1.address]);
    assert(c2 == clients[l2.address]);
}

} // verus!
