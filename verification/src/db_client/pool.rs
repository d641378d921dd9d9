//! The pool of clients: which connection serves which data node.

use vstd::prelude::*;
use dashmap::DashMap;
use crate::cache::{no_clients, pool_contents, pool_get, pool_len, pool_new, pool_or_insert};
use crate::db_client::partition::{partition_endpoints, Partition};
use crate::model::route::{Endpoint, EndpointView};

verus! {

/// Every client has a slot of its own, and the slots in use are the first
/// ones: `0`, `1`, and so on up to the number of clients.
pub open spec fn dense(slots: Map<EndpointView, usize>) -> bool {
    &&& slots.dom().finite()
    &&& forall|e: EndpointView| slots.contains_key(e) ==> #[trigger] slots[e] < slots.len()
    &&& forall|a: EndpointView, b: EndpointView|
        slots.contains_key(a) && slots.contains_key(b) && #[trigger] slots[a] == #[trigger] slots[b]
            ==> a == b
}

/// Where the client of an endpoint stands, and whether the call that asked
/// for it has made the slot: the caller then connects a client for it.
#[derive(Debug, Clone, Copy, PartialEq, Eq, Structural)]
pub struct ClientSlot {
    pub index: usize,
    pub created: bool,
}

/// DirectClientPool is the pool that says which connection serves which data
/// node. It only grows.
pub struct DirectClientPool {
    pool: DashMap<Endpoint, usize>,
}

impl DirectClientPool {
    #[verifier::type_invariant]
    pub open spec fn wf(self) -> bool {
        dense(self.slots())
    }

    /// The slot of each endpoint that has a client.
    pub closed spec fn slots(&self) -> Map<EndpointView, usize> {
        pool_contents(self.pool)
    }

    pub fn new() -> (r: Self)
        ensures
            r.slots() == no_clients(),
            dense(r.slots()),
    {
        Self { pool: pool_new() }
    }

    /// The slot of the endpoint's client. An endpoint that has none yet gets
    /// the next free slot; one that has a client keeps it, for good.
    pub fn get_or_create(&mut self, endpoint: &Endpoint) -> (slot: ClientSlot)
        ensures
            dense(old(self).slots()),
            dense(final(self).slots()),
            slot.created == !old(self).slots().contains_key(endpoint@),
            slot.created ==> slot.index == old(self).slots().len() && final(self).slots()
                == old(self).slots().insert(endpoint@, slot.index),
            !slot.created ==> slot.index == old(self).slots()[endpoint@] && final(self).slots()
                == old(self).slots(),
    {
        proof {
            use_type_invariant(&*self);
        }
        if let Some(index) = pool_get(&self.pool, endpoint) {
            // If exist in cache, return.
            ClientSlot { index, created: false }
        } else {
            // If not exist, insert --> return.
            let next = pool_len(&self.pool);
            let index = pool_or_insert(&mut self.pool, endpoint.clone(), next);
            ClientSlot { index, created: true }
        }
    }
}

/// The pool after the clients of the given endpoints were asked for, one
/// after the other.
pub open spec fn with_clients(
    slots: Map<EndpointView, usize>,
    endpoints: Seq<EndpointView>,
) -> Map<EndpointView, usize>
    decreases endpoints.len(),
{
    if endpoints.len() == 0 {
        slots
    } else {
        let before = with_clients(slots, endpoints.drop_last());
        if before.contains_key(endpoints.last()) {
            before
        } else {
            before.insert(endpoints.last(), before.len() as usize)
        }
    }
}

/// An endpoint has one client: asking for its client a second time changes
/// nothing, however many callers ask.
pub proof fn lemma_one_client_for_an_endpoint(slots: Map<EndpointView, usize>, endpoint: EndpointView)
    ensures
        with_clients(slots, seq![endpoint]).contains_key(endpoint),
        with_clients(with_clients(slots, seq![endpoint]), seq![endpoint]) == with_clients(
            slots,
            seq![endpoint],
        ),
{
    let only = seq![endpoint];
    assert(only.drop_last() == Seq::<EndpointView>::empty());
    assert(only.last() == endpoint);
    assert(with_clients(slots, only.drop_last()) == slots);
    let once = with_clients(slots, only);
    assert(with_clients(once, only.drop_last()) == once);
}

/// A pool keeps the slot of every client that it has.
pub proof fn lemma_pool_only_grows(slots: Map<EndpointView, usize>, endpoints: Seq<EndpointView>)
    ensures
        forall|e: EndpointView|
            slots.contains_key(e) ==> #[trigger] with_clients(slots, endpoints).contains_key(e)
                && with_clients(slots, endpoints)[e] == slots[e],
        forall|i: int|
            0 <= i < endpoints.len() ==> with_clients(slots, endpoints).contains_key(
                #[trigger] endpoints[i],
            ),
        forall|i: int|
            0 <= i < endpoints.len() ==> with_clients(slots, endpoints)[#[trigger] endpoints[i]]
                == with_clients(slots, endpoints.take(i + 1))[endpoints[i]],
        forall|e: EndpointView| #[trigger]
            with_clients(slots, endpoints).contains_key(e) ==> slots.contains_key(e)
                || endpoints.contains(e),
    decreases endpoints.len(),
{
    if endpoints.len() > 0 {
        let head = endpoints.drop_last();
        lemma_pool_only_grows(slots, head);
        let before = with_clients(slots, head);
        let now = with_clients(slots, endpoints);
        assert forall|e: EndpointView| #[trigger] now.contains_key(e) implies slots.contains_key(e)
            || endpoints.contains(e) by {
            if head.contains(e) {
                let j = choose|j: int| 0 <= j < head.len() && head[j] == e;
                assert(endpoints[j] == e);
            }
            if e == endpoints.last() {
                assert(endpoints[endpoints.len() - 1] == e);
            }
        }
        assert forall|i: int| 0 <= i < endpoints.len() implies now.contains_key(
            #[trigger] endpoints[i],
        ) && now[endpoints[i]] == with_clients(slots, endpoints.take(i + 1))[endpoints[i]] by {
            if i < head.len() {
                assert(head[i] == endpoints[i]);
                assert(head.take(i + 1) == endpoints.take(i + 1));
            } else {
                assert(endpoints.take(i + 1) == endpoints);
            }
        }
    }
}

impl DirectClientPool {
    /// The slots of the clients of the partitions, in their order.
    pub fn clients_for(&mut self, partitions: &Vec<Partition>) -> (clients: Vec<ClientSlot>)
        ensures
            dense(final(self).slots()),
            final(self).slots() == with_clients(
                old(self).slots(),
                partition_endpoints(partitions@),
            ),
            clients@.len() == partitions@.len(),
            forall|k: int|
                0 <= k < clients@.len() ==> (#[trigger] clients@[k]).index == final(self).slots()[partitions@[k].endpoint@],
            forall|k: int|
                0 <= k < clients@.len() ==> (#[trigger] clients@[k]).created == !with_clients(
                    old(self).slots(),
                    partition_endpoints(partitions@).take(k),
                ).contains_key(partitions@[k].endpoint@),
    {
        let ghost all = partition_endpoints(partitions@);
        let ghost start = self.slots();
        let mut clients: Vec<ClientSlot> = Vec::new();
        let mut k: usize = 0;
        proof {
            use_type_invariant(&*self);
        }
        while k < partitions.len()
            invariant
                k <= partitions@.len(),
                all == partition_endpoints(partitions@),
                all.len() == partitions@.len(),
                dense(self.slots()),
                self.slots() == with_clients(start, all.take(k as int)),
                clients@.len() == k,
                forall|j: int|
                    0 <= j < k ==> (#[trigger] clients@[j]).index == with_clients(
                        start,
                        all.take(j + 1),
                    )[all[j]],
                forall|j: int|
                    0 <= j < k ==> (#[trigger] clients@[j]).created == !with_clients(
                        start,
                        all.take(j),
                    ).contains_key(all[j]),
            decreases partitions@.len() - k,
        {
            proof {
                assert(all.take(k + 1).drop_last() == all.take(k as int));
                assert(all.take(k + 1).last() == all[k as int]);
            }
            let slot = self.get_or_create(&partitions[k].endpoint);
            clients.push(slot);
            k += 1;
        }
        proof {
            assert(all.take(k as int) == all);
            lemma_pool_only_grows(start, all);
        }
        clients
    }
}

} // verus!
