//! The lease value shared by the two engines: a time-bounded grant of an
//! address to a client identity. Times are milliseconds on the caller's
//! monotonic clock; lease durations are seconds, as on the wire.

use vstd::prelude::*;

verus! {

/// A granted (or, inside the server, proposed) lease.
#[derive(Debug)]
pub struct Lease {
    /// The raw bytes of the client identity the lease was granted to.
    pub client_id: Vec<u8>,
    /// The leased IPv4 address.
    pub address: u32,
    /// Lease duration in seconds.
    pub lease_time: u32,
    /// When the lease started, in milliseconds.
    pub start_ms: u64,
}

/// Mathematical image of a `Lease`.
#[verifier::ext_equal]
pub struct LeaseView {
    pub client_id: Seq<u8>,
    pub address: u32,
    pub lease_time: u32,
    pub start_ms: u64,
}

impl View for Lease {
    type V = LeaseView;

    open spec fn view(&self) -> LeaseView {
        LeaseView {
            client_id: self.client_id@,
            address: self.address,
            lease_time: self.lease_time,
            start_ms: self.start_ms,
        }
    }
}

/// The views of a sequence of leases.
pub open spec fn leases_view(s: Seq<Lease>) -> Seq<LeaseView> {
    s.map_values(|l: Lease| l@)
}

/// When the lease runs out, in milliseconds (unbounded mathematical time).
pub open spec fn lease_expiry_ms(l: LeaseView) -> int {
    l.start_ms + l.lease_time * 1000
}

/// Whether the lease is still running at `now_ms`.
pub open spec fn lease_active(l: LeaseView, now_ms: u64) -> bool {
    now_ms < lease_expiry_ms(l)
}

/// Copy a byte string.
pub fn clone_bytes(src: &Vec<u8>) -> (r: Vec<u8>)
    ensures
        r@ == src@,
{
    let mut r: Vec<u8> = Vec::new();
    let mut j: usize = 0;
    while j < src.len()
        invariant
            j <= src@.len(),
            r@ == src@.subrange(0, j as int),
        decreases src@.len() - j,
    {
        r.push(src[j]);
        j = j + 1;
        assert(r@ =~= src@.subrange(0, j as int));
    }
    assert(r@ =~= src@);
    r
}

impl Lease {
    /// An identical copy.
    pub fn duplicate(&self) -> (r: Lease)
        ensures
            r@ == self@,
    {
        Lease {
            client_id: clone_bytes(&self.client_id),
            address: self.address,
            lease_time: self.lease_time,
            start_ms: self.start_ms,
        }
    }

    /// Whether the lease is still running at `now_ms`; overflow-free for
    /// every start time and duration.
    pub fn is_active(&self, now_ms: u64) -> (r: bool)
        ensures
            r == lease_active(self@, now_ms),
    {
        (now_ms as u128) < (self.start_ms as u128) + (self.lease_time as u128) * 1000
    }
}

/// First lease recorded for the given client identity, if any.
pub open spec fn find_lease(s: Seq<LeaseView>, client_id: Seq<u8>) -> Option<LeaseView>
    decreases s.len(),
{
    if s.len() == 0 {
        None
    } else if s[0].client_id == client_id {
        Some(s[0])
    } else {
        find_lease(s.drop_first(), client_id)
    }
}

/// The first matching index is what `find_lease` returns.
pub proof fn lemma_find_lease_at(s: Seq<LeaseView>, client_id: Seq<u8>, i: int)
    requires
        0 <= i < s.len(),
        s[i].client_id == client_id,
        forall|j: int| 0 <= j < i ==> (#[trigger] s[j]).client_id != client_id,
    ensures
        find_lease(s, client_id) == Some(s[i]),
    decreases i,
{
    if i > 0 {
        assert(s.drop_first()[i - 1] == s[i]);
        lemma_find_lease_at(s.drop_first(), client_id, i - 1);
    }
}

/// With no matching record, `find_lease` finds nothing.
pub proof fn lemma_find_lease_none(s: Seq<LeaseView>, client_id: Seq<u8>)
    requires
        forall|j: int| 0 <= j < s.len() ==> (#[trigger] s[j]).client_id != client_id,
    ensures
        find_lease(s, client_id) == None::<LeaseView>,
    decreases s.len(),
{
    if s.len() > 0 {
        lemma_find_lease_none(s.drop_first(), client_id);
    }
}

/// Byte-string equality, the comparison client identities are keyed by.
pub fn bytes_eq(a: &Vec<u8>, b: &Vec<u8>) -> (r: bool)
    ensures
        r == (a@ == b@),
{
    if a.len() != b.len() {
        return false;
    }
    let n = a.len();
    let mut j: usize = 0;
    while j < n
        invariant
            j <= n,
            a@.len() == b@.len() == n,
            forall|i: int| 0 <= i < j ==> a@[i] == b@[i],
        decreases n - j,
    {
        if a[j] != b[j] {
            return false;
        }
        j = j + 1;
    }
    proof {
        assert(a@ =~= b@);
    }
    true
}

/// Index of the first record for the given client identity, if any.
pub fn find_lease_index(leases: &Vec<Lease>, client_id: &Vec<u8>) -> (r: Option<usize>)
    ensures
        match r {
            Some(i) => {
                &&& i < leases@.len()
                &&& leases@[i as int]@.client_id == client_id@
                &&& forall|j: int|
                    0 <= j < i ==> (#[trigger] leases@[j])@.client_id != client_id@
                &&& find_lease(leases_view(leases@), client_id@) == Some(leases@[i as int]@)
            },
            None => find_lease(leases_view(leases@), client_id@) is None,
        },
{
    let n = leases.len();
    let mut k: usize = 0;
    while k < n
        invariant
            k <= n == leases@.len(),
            forall|j: int| 0 <= j < k ==> (#[trigger] leases@[j])@.client_id != client_id@,
        decreases n - k,
    {
        if bytes_eq(&leases[k].client_id, client_id) {
            proof {
                assert forall|j: int|
                    0 <= j < k implies (#[trigger] leases_view(leases@)[j]).client_id
                    != client_id@ by {
                    assert(leases_view(leases@)[j] == leases@[j]@);
                }
                assert(leases_view(leases@)[k as int] == leases@[k as int]@);
                lemma_find_lease_at(leases_view(leases@), client_id@, k as int);
            }
            return Some(k);
        }
        k = k + 1;
    }
    proof {
        assert forall|j: int|
            0 <= j < leases_view(leases@).len() implies (
        #[trigger] leases_view(leases@)[j]).client_id != client_id@ by {
            assert(leases_view(leases@)[j] == leases@[j]@);
        }
        lemma_find_lease_none(leases_view(leases@), client_id@);
    }
    None
}

/// Record the lease under its client identity: replace the identity's
/// earlier record if one stands, else append, touching no other record.
pub fn upsert_lease(leases: &mut Vec<Lease>, client_id: &Vec<u8>, lease: Lease)
    requires
        lease@.client_id == client_id@,
    ensures
        find_lease(leases_view(final(leases)@), client_id@) == Some(lease@),
        forall|c: Seq<u8>|
            c != client_id@ ==> #[trigger] find_lease(leases_view(final(leases)@), c) == find_lease(
                leases_view(old(leases)@),
                c,
            ),
{
    let ghost s0 = leases_view(leases@);
    match find_lease_index(leases, client_id) {
        Some(i) => {
            leases.set(i, lease);
            proof {
                assert(leases_view(leases@) =~= s0.update(i as int, lease@));
                assert forall|j: int|
                    0 <= j < i implies (#[trigger] s0[j]).client_id != s0[i as int].client_id by {
                    assert(s0[j] == old(leases)@[j]@);
                    assert(s0[i as int] == old(leases)@[i as int]@);
                }
                assert(s0[i as int] == old(leases)@[i as int]@);
                lemma_find_lease_update(s0, i as int, lease@, client_id@);
                assert forall|c: Seq<u8>|
                    c != client_id@ implies #[trigger] find_lease(leases_view(leases@), c)
                    == find_lease(s0, c) by {
                    lemma_find_lease_update(s0, i as int, lease@, c);
                }
            }
        },
        None => {
            leases.push(lease);
            proof {
                assert(leases_view(leases@) =~= s0.push(lease@));
                lemma_find_lease_push(s0, lease@, client_id@);
                assert forall|c: Seq<u8>|
                    c != client_id@ implies #[trigger] find_lease(leases_view(leases@), c)
                    == find_lease(s0, c) by {
                    lemma_find_lease_push(s0, lease@, c);
                }
            }
        },
    }
}

/// Appending a record changes only lookups of its identity, and those only
/// when nothing for that identity stood in the list before.
pub proof fn lemma_find_lease_push(s: Seq<LeaseView>, l: LeaseView, c: Seq<u8>)
    ensures
        find_lease(s.push(l), c) == if find_lease(s, c) is Some {
            find_lease(s, c)
        } else if l.client_id == c {
            Some(l)
        } else {
            None::<LeaseView>
        },
    decreases s.len(),
{
    if s.len() == 0 {
        assert(s.push(l)[0] == l);
        if l.client_id != c {
            assert(find_lease(s.push(l), c) == find_lease(s.push(l).drop_first(), c));
            assert(s.push(l).drop_first() =~= Seq::<LeaseView>::empty());
        }
    } else {
        assert(s.push(l)[0] == s[0]);
        if s[0].client_id != c {
            assert(s.push(l).drop_first() =~= s.drop_first().push(l));
            lemma_find_lease_push(s.drop_first(), l, c);
        }
    }
}

/// Overwriting the first record of an identity changes only lookups of
/// that identity, which then see the new record.
pub proof fn lemma_find_lease_update(s: Seq<LeaseView>, i: int, l: LeaseView, c: Seq<u8>)
    requires
        0 <= i < s.len(),
        forall|j: int| 0 <= j < i ==> (#[trigger] s[j]).client_id != s[i].client_id,
        l.client_id == s[i].client_id,
    ensures
        find_lease(s.update(i, l), c) == if c == s[i].client_id {
            Some(l)
        } else {
            find_lease(s, c)
        },
    decreases i,
{
    let t = s.update(i, l);
    if i == 0 {
        assert(t[0] == l);
        if c != s[0].client_id {
            assert(t.drop_first() =~= s.drop_first());
        }
    } else {
        assert(t[0] == s[0]);
        assert(s[0].client_id != s[i].client_id);
        if c == s[0].client_id {
            assert(find_lease(t, c) == Some(t[0]));
        } else {
            assert(t.drop_first() =~= s.drop_first().update(i - 1, l));
            assert(forall|j: int|
                0 <= j < i - 1 ==> (#[trigger] s.drop_first()[j]).client_id == s[j + 1].client_id);
            assert(s.drop_first()[i - 1] == s[i]);
            lemma_find_lease_update(s.drop_first(), i - 1, l, c);
        }
    }
}

} // verus!
