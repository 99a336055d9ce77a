//! The live update registry: per-order fan-out of snapshots.
//!
//! The registry is the one shared table of the subsystem. It maps each order
//! id to the subscriber channels currently watching that order, delivers a
//! fresh [`Order`] snapshot to every one of them on [`Registry::publish`],
//! and reclaims channels whose receiver went away on [`Registry::reap`].
//!
//! Delivery is best effort and at most once: each channel holds a bounded
//! queue, a publish never waits for a slow subscriber, and a subscriber whose
//! queue is full simply misses that update. A caller that needs mutual
//! exclusion wraps the registry in a lock and keeps each call short; every
//! operation here is a terminating table manipulation with no waiting inside.
//!
//! The life of a channel: it is created open by [`Registry::subscribe`],
//! seeded with the current snapshot so the subscriber never sees a gap
//! between current state and first update; [`Registry::disconnect`] marks it
//! stale when its receiver goes away; only [`Registry::reap`] removes stale
//! channels, so the publish path never restructures the table. A new
//! subscribe always makes a fresh channel under a fresh handle; removed
//! channels are never revived.

use vstd::prelude::*;

verus! {

use crate::order::Order;
use crate::order::OrderV;

/// Mathematical image of a [`Subscription`].
#[verifier::ext_equal]
pub struct SubscriptionV {
    pub order_id: int,
    pub sub_id: int,
    pub open: bool,
    pub capacity: int,
    pub queue: Seq<OrderV>,
}

/// Mathematical image of a [`Registry`].
#[verifier::ext_equal]
pub struct RegistryV {
    pub subs: Seq<SubscriptionV>,
    pub next_sub_id: int,
    pub capacity: int,
}

/// One subscriber's channel: the order it watches, the handle its receiver
/// holds, whether the receiver is still there, and the bounded queue of
/// snapshots awaiting it.
pub struct Subscription {
    order_id: i32,
    sub_id: u64,
    open: bool,
    capacity: usize,
    queue: Vec<Order>,
}

/// The table of live subscriber channels for all orders.
pub struct Registry {
    table: Vec<Subscription>,
    next_sub_id: u64,
    capacity: usize,
}

impl View for Subscription {
    type V = SubscriptionV;

    closed spec fn view(&self) -> SubscriptionV {
        SubscriptionV {
            order_id: self.order_id as int,
            sub_id: self.sub_id as int,
            open: self.open,
            capacity: self.capacity as int,
            queue: Seq::new(self.queue@.len(), |i: int| self.queue@[i]@),
        }
    }
}

impl View for Registry {
    type V = RegistryV;

    closed spec fn view(&self) -> RegistryV {
        RegistryV {
            subs: Seq::new(self.table@.len(), |i: int| self.table@[i]@),
            next_sub_id: self.next_sub_id as int,
            capacity: self.capacity as int,
        }
    }
}

impl SubscriptionV {
    /// A channel of a well-formed registry: its handle was issued by the
    /// registry's counter, its bound is positive, and its queue respects the
    /// bound.
    pub open spec fn wf_in(self, r: RegistryV) -> bool {
        &&& 0 <= self.sub_id < r.next_sub_id
        &&& 1 <= self.capacity
        &&& self.queue.len() <= self.capacity
    }
}

impl RegistryV {
    /// Every channel is well formed and no two channels share a handle. The
    /// bound for fresh channels admits at least two queued snapshots, so a
    /// new subscriber always has room for the seeded current state and the
    /// next published update: the no-missed-update guarantee rests on it.
    pub open spec fn wf(self) -> bool {
        &&& 2 <= self.capacity
        &&& 0 <= self.next_sub_id <= u64::MAX
        &&& forall|i: int| 0 <= i < self.subs.len() ==> (#[trigger] self.subs[i]).wf_in(self)
        &&& forall|i: int, j: int|
            0 <= i < j < self.subs.len() ==> self.subs[i].sub_id != self.subs[j].sub_id
    }
}

/// The channel a fresh subscribe adds: open, under the next handle, seeded
/// with the current snapshot as its first deliverable item.
pub open spec fn spec_new_subscription(
    r: RegistryV,
    order_id: int,
    initial: OrderV,
) -> SubscriptionV {
    SubscriptionV {
        order_id: order_id,
        sub_id: r.next_sub_id,
        open: true,
        capacity: r.capacity,
        queue: seq![initial],
    }
}

/// What subscribe does to the table.
pub open spec fn spec_subscribe(r: RegistryV, order_id: int, initial: OrderV) -> RegistryV {
    RegistryV {
        subs: r.subs.push(spec_new_subscription(r, order_id, initial)),
        next_sub_id: r.next_sub_id + 1,
        ..r
    }
}

/// What one publish does to one channel: an open channel of the published
/// order with room gets the snapshot appended; every other channel — another
/// order, a stale channel, or a full queue — is left exactly as it was.
pub open spec fn spec_deliver(
    sub: SubscriptionV,
    order_id: int,
    snapshot: OrderV,
) -> SubscriptionV {
    if sub.order_id == order_id && sub.open && sub.queue.len() < sub.capacity {
        SubscriptionV { queue: sub.queue.push(snapshot), ..sub }
    } else {
        sub
    }
}

/// What publish does to the table: every channel sees [`spec_deliver`];
/// none is added or removed.
pub open spec fn spec_publish(r: RegistryV, order_id: int, snapshot: OrderV) -> RegistryV {
    RegistryV {
        subs: r.subs.map_values(|sub: SubscriptionV| spec_deliver(sub, order_id, snapshot)),
        ..r
    }
}

/// What disconnect does to one channel.
pub open spec fn spec_close(sub: SubscriptionV, sub_id: int) -> SubscriptionV {
    if sub.sub_id == sub_id {
        SubscriptionV { open: false, ..sub }
    } else {
        sub
    }
}

/// What disconnect does to the table: the channel under this handle is
/// marked stale; nothing is removed yet.
pub open spec fn spec_disconnect(r: RegistryV, sub_id: int) -> RegistryV {
    RegistryV { subs: r.subs.map_values(|sub: SubscriptionV| spec_close(sub, sub_id)), ..r }
}

/// The predicate reap keeps channels by: the receiver is still there.
pub open spec fn open_pred() -> spec_fn(SubscriptionV) -> bool {
    |sub: SubscriptionV| sub.open
}

/// What reap does to the table: exactly the open channels survive, in order;
/// stale ones are removed, and with them any order that has no channel left.
pub open spec fn spec_reap(r: RegistryV) -> RegistryV {
    RegistryV { subs: r.subs.filter(open_pred()), ..r }
}

/// The predicate selecting the channels of one order.
pub open spec fn order_pred(order_id: int) -> spec_fn(SubscriptionV) -> bool {
    |sub: SubscriptionV| sub.order_id == order_id
}

/// The channels currently in the table for one order.
pub open spec fn subs_of(r: RegistryV, order_id: int) -> Seq<SubscriptionV> {
    r.subs.filter(order_pred(order_id))
}

/// The table after one queued snapshot is taken off the front of the channel
/// at index `i`.
pub open spec fn spec_pop_at(r: RegistryV, i: int) -> RegistryV {
    RegistryV {
        subs: r.subs.update(
            i,
            SubscriptionV { queue: r.subs[i].queue.drop_first(), ..r.subs[i] },
        ),
        ..r
    }
}

/// What one receive attempt found.
#[derive(Debug, PartialEq)]
pub enum RecvOutcome {
    /// The next queued snapshot, in publish order.
    Item(Order),
    /// The channel exists but nothing is queued right now.
    Empty,
    /// No channel under this handle (never subscribed, or already reaped).
    Gone,
}

/// A filtered table keeps the handles pairwise distinct.
proof fn lemma_filter_keeps_distinct_ids(
    s: Seq<SubscriptionV>,
    pred: spec_fn(SubscriptionV) -> bool,
)
    requires
        forall|i: int, j: int| 0 <= i < j < s.len() ==> s[i].sub_id != s[j].sub_id,
    ensures
        forall|i: int, j: int|
            0 <= i < j < s.filter(pred).len() ==> s.filter(pred)[i].sub_id != s.filter(
                pred,
            )[j].sub_id,
    decreases s.len(),
{
    broadcast use vstd::seq_lib::group_filter_ensures;

    reveal_with_fuel(Seq::<_>::filter, 2);
    if s.len() > 0 {
        let prefix = s.drop_last();
        lemma_filter_keeps_distinct_ids(prefix, pred);
        assert forall|i: int, j: int|
            0 <= i < j < s.filter(pred).len() implies s.filter(pred)[i].sub_id != s.filter(
            pred,
        )[j].sub_id by {
            let f = s.filter(pred);
            let fp = prefix.filter(pred);
            if pred(s.last()) {
                assert(f == fp.push(s.last()));
            } else {
                assert(f == fp);
            }
            if j < fp.len() {
                // both indices fall in the prefix; the recursive call covers them
            } else {
                // j names the appended last element, i still falls in the prefix
                lemma_filter_elems_contained(prefix, pred);
                assert(prefix.contains(fp[i]));
                let k = choose|k: int| 0 <= k < prefix.len() && prefix[k] == fp[i];
                assert(s[k] == fp[i]);
                assert(s[k].sub_id != s.last().sub_id);
            }
        }
    }
}

/// Every channel of a filtered table already stood in the table.
proof fn lemma_filter_elems_contained(
    s: Seq<SubscriptionV>,
    pred: spec_fn(SubscriptionV) -> bool,
)
    ensures
        forall|i: int|
            0 <= i < s.filter(pred).len() ==> s.contains(#[trigger] s.filter(pred)[i]),
    decreases s.len(),
{
    reveal_with_fuel(Seq::<_>::filter, 2);
    if s.len() > 0 {
        let prefix = s.drop_last();
        lemma_filter_elems_contained(prefix, pred);
        assert forall|i: int|
            0 <= i < s.filter(pred).len() implies s.contains(#[trigger] s.filter(pred)[i]) by {
            let f = s.filter(pred);
            let fp = prefix.filter(pred);
            if i < fp.len() {
                assert(prefix.contains(fp[i]));
                let k = choose|k: int| 0 <= k < prefix.len() && prefix[k] == fp[i];
                assert(s[k] == fp[i]);
            } else {
                assert(f[i] == s.last());
                assert(s[s.len() - 1] == s.last());
            }
        }
    }
}

/// Appending one channel to a table extends its filtered image by that
/// channel exactly when the predicate holds of it.
proof fn lemma_filter_push(
    s: Seq<SubscriptionV>,
    pred: spec_fn(SubscriptionV) -> bool,
    x: SubscriptionV,
)
    ensures
        s.push(x).filter(pred) == if pred(x) {
            s.filter(pred).push(x)
        } else {
            s.filter(pred)
        },
{
    reveal_with_fuel(Seq::<_>::filter, 2);
    let t = s.push(x);
    assert(t.drop_last() =~= s);
    assert(t.last() == x);
}

impl Registry {
    /// The registry is well formed; established by [`Registry::new`] and
    /// kept by every operation.
    pub open spec fn wf(&self) -> bool {
        self@.wf()
    }

    /// A fresh registry: empty table, no handle issued yet, every future
    /// channel bounded by `capacity` queued snapshots. The bound must leave
    /// a fresh channel room for its seed and one update.
    pub fn new(capacity: usize) -> (r: Registry)
        requires
            capacity >= 2,
        ensures
            r.wf(),
            r@.subs =~= Seq::<SubscriptionV>::empty(),
            r@.next_sub_id == 0,
            r@.capacity == capacity,
    {
        Registry { table: Vec::new(), next_sub_id: 0, capacity }
    }

    /// Whether another handle can still be issued. Callers check this before
    /// [`Registry::subscribe`]; the counter never wraps a handle around onto
    /// a live one.
    pub fn handles_available(&self) -> (b: bool)
        ensures
            b == (self@.next_sub_id < u64::MAX),
    {
        self.next_sub_id < u64::MAX
    }

    /// Register a fresh channel for `order_id`, seeded with `initial` so the
    /// subscriber's first received item is the current state. Returns the
    /// handle the receiver will use.
    pub fn subscribe(&mut self, order_id: i32, initial: Order) -> (h: u64)
        requires
            old(self).wf(),
            old(self)@.next_sub_id < u64::MAX,
        ensures
            final(self).wf(),
            final(self)@ == spec_subscribe(old(self)@, order_id as int, initial@),
            h == old(self)@.next_sub_id,
    {
        let ghost r0 = self@;
        let h = self.next_sub_id;
        self.next_sub_id = self.next_sub_id + 1;
        let mut queue: Vec<Order> = Vec::new();
        queue.push(initial);
        let sub = Subscription { order_id, sub_id: h, open: true, capacity: self.capacity, queue };
        self.table.push(sub);
        proof {
            assert(self@ =~~= spec_subscribe(r0, order_id as int, initial@));
        }
        h
    }

    /// Deliver `snapshot` to every open channel of `order_id` that has room.
    /// Never waits: a full or stale channel is skipped, channels of other
    /// orders are untouched, and no channel is added or removed.
    pub fn publish(&mut self, order_id: i32, snapshot: &Order)
        requires
            old(self).wf(),
        ensures
            final(self).wf(),
            final(self)@ == spec_publish(old(self)@, order_id as int, snapshot@),
    {
        let ghost r0 = self@;
        let n = self.table.len();
        let mut j: usize = 0;
        while j < n
            invariant
                n == self.table@.len(),
                j <= n,
                self@.next_sub_id == r0.next_sub_id,
                self@.capacity == r0.capacity,
                r0.subs.len() == n,
                forall|k: int|
                    0 <= k < j ==> self.table@[k]@ == spec_deliver(
                        r0.subs[k],
                        order_id as int,
                        snapshot@,
                    ),
                forall|k: int| j <= k < n ==> self.table@[k]@ == r0.subs[k],
            decreases n - j,
        {
            let deliverable = self.table[j].order_id == order_id && self.table[j].open
                && self.table[j].queue.len() < self.table[j].capacity;
            if deliverable {
                self.table[j].queue.push(snapshot.clone());
            }
            proof {
                assert(self.table@[j as int]@ =~~= spec_deliver(
                    r0.subs[j as int],
                    order_id as int,
                    snapshot@,
                ));
            }
            j = j + 1;
        }
        proof {
            assert(self@ =~~= spec_publish(r0, order_id as int, snapshot@));
            assert forall|i: int|
                0 <= i < self@.subs.len() implies (#[trigger] self@.subs[i]).wf_in(self@) by {
                assert(self@.subs[i] == spec_deliver(r0.subs[i], order_id as int, snapshot@));
                assert(r0.subs[i].wf_in(r0));
            }
            assert forall|i: int, j2: int|
                0 <= i < j2 < self@.subs.len() implies self@.subs[i].sub_id
                != self@.subs[j2].sub_id by {
                assert(self@.subs[i] == spec_deliver(r0.subs[i], order_id as int, snapshot@));
                assert(self@.subs[j2] == spec_deliver(r0.subs[j2], order_id as int, snapshot@));
            }
        }
    }

    /// Publish the snapshot to the channels of the order it belongs to: what
    /// every mutating request does right after its commit.
    pub fn notify_order_changed(&mut self, order: &Order)
        requires
            old(self).wf(),
        ensures
            final(self).wf(),
            final(self)@ == spec_publish(old(self)@, order@.id, order@),
    {
        let id = order.id;
        self.publish(id, order);
    }

    /// Mark the channel under `sub_id` stale: its receiver is gone. The
    /// channel stays in the table until the next [`Registry::reap`].
    pub fn disconnect(&mut self, sub_id: u64)
        requires
            old(self).wf(),
        ensures
            final(self).wf(),
            final(self)@ == spec_disconnect(old(self)@, sub_id as int),
    {
        let ghost r0 = self@;
        let n = self.table.len();
        let mut j: usize = 0;
        while j < n
            invariant
                n == self.table@.len(),
                j <= n,
                self@.next_sub_id == r0.next_sub_id,
                self@.capacity == r0.capacity,
                r0.subs.len() == n,
                forall|k: int|
                    0 <= k < j ==> self.table@[k]@ == spec_close(r0.subs[k], sub_id as int),
                forall|k: int| j <= k < n ==> self.table@[k]@ == r0.subs[k],
            decreases n - j,
        {
            if self.table[j].sub_id == sub_id {
                self.table[j].open = false;
            }
            proof {
                assert(self.table@[j as int]@ =~~= spec_close(r0.subs[j as int], sub_id as int));
            }
            j = j + 1;
        }
        proof {
            assert(self@ =~~= spec_disconnect(r0, sub_id as int));
            assert forall|i: int|
                0 <= i < self@.subs.len() implies (#[trigger] self@.subs[i]).wf_in(self@) by {
                assert(self@.subs[i] == spec_close(r0.subs[i], sub_id as int));
                assert(r0.subs[i].wf_in(r0));
            }
            assert forall|i: int, j2: int|
                0 <= i < j2 < self@.subs.len() implies self@.subs[i].sub_id
                != self@.subs[j2].sub_id by {
                assert(self@.subs[i] == spec_close(r0.subs[i], sub_id as int));
                assert(self@.subs[j2] == spec_close(r0.subs[j2], sub_id as int));
            }
        }
    }

    /// Drop every stale channel, and with it any order id left without a
    /// channel. The only place the table shrinks.
    pub fn reap(&mut self)
        requires
            old(self).wf(),
        ensures
            final(self).wf(),
            final(self)@ == spec_reap(old(self)@),
    {
        let ghost r0 = self@;
        let mut kept: Vec<Subscription> = Vec::new();
        let ghost mut consumed: int = 0;
        proof {
            reveal_with_fuel(Seq::<_>::filter, 2);
            assert(r0.subs.take(0) =~= Seq::<SubscriptionV>::empty());
            assert(Seq::<SubscriptionV>::empty().filter(open_pred()) =~= Seq::<
                SubscriptionV,
            >::empty());
            assert(Seq::new(kept@.len(), |i: int| kept@[i]@) =~= Seq::<SubscriptionV>::empty());
        }
        while self.table.len() > 0
            invariant
                0 <= consumed <= r0.subs.len(),
                self.table@.len() == r0.subs.len() - consumed,
                self@.next_sub_id == r0.next_sub_id,
                self@.capacity == r0.capacity,
                forall|k: int|
                    0 <= k < self.table@.len() ==> self.table@[k]@ == r0.subs[k + consumed],
                Seq::new(kept@.len(), |i: int| kept@[i]@) == r0.subs.take(consumed).filter(
                    open_pred(),
                ),
            decreases self.table@.len(),
        {
            let sub = self.table.remove(0);
            let keep = sub.open;
            if keep {
                kept.push(sub);
            }
            proof {
                lemma_filter_push(r0.subs.take(consumed), open_pred(), r0.subs[consumed]);
                assert(r0.subs.take(consumed + 1) =~= r0.subs.take(consumed).push(
                    r0.subs[consumed],
                ));
                consumed = consumed + 1;
                assert(Seq::new(kept@.len(), |i: int| kept@[i]@) =~= r0.subs.take(
                    consumed,
                ).filter(open_pred()));
            }
        }
        self.table = kept;
        proof {
            assert(r0.subs.take(r0.subs.len() as int) =~= r0.subs);
            assert(self@ =~~= spec_reap(r0));
            lemma_filter_keeps_distinct_ids(r0.subs, open_pred());
            lemma_filter_elems_contained(r0.subs, open_pred());
            assert forall|i: int|
                0 <= i < self@.subs.len() implies (#[trigger] self@.subs[i]).wf_in(self@) by {
                assert(r0.subs.contains(self@.subs[i]));
                let k = choose|k: int| 0 <= k < r0.subs.len() && r0.subs[k] == self@.subs[i];
                assert(r0.subs[k].wf_in(r0));
            }
        }
    }

    /// Take the next queued snapshot for the channel under `sub_id`, in the
    /// order the snapshots were published.
    pub fn recv(&mut self, sub_id: u64) -> (out: RecvOutcome)
        requires
            old(self).wf(),
        ensures
            final(self).wf(),
            match out {
                RecvOutcome::Gone => final(self)@ == old(self)@ && (forall|i: int|
                    0 <= i < old(self)@.subs.len() ==> (#[trigger] old(
                        self,
                    )@.subs[i]).sub_id != sub_id),
                RecvOutcome::Empty => final(self)@ == old(self)@ && (exists|i: int|
                    0 <= i < old(self)@.subs.len() && (#[trigger] old(self)@.subs[i]).sub_id
                        == sub_id && old(self)@.subs[i].queue.len() == 0),
                RecvOutcome::Item(o) => exists|i: int|
                    0 <= i < old(self)@.subs.len() && (#[trigger] old(self)@.subs[i]).sub_id
                        == sub_id && old(self)@.subs[i].queue.len() > 0 && o@ == old(
                        self,
                    )@.subs[i].queue[0] && final(self)@ == spec_pop_at(old(self)@, i),
            },
    {
        let ghost r0 = self@;
        let n = self.table.len();
        let mut j: usize = 0;
        let mut found: bool = false;
        let mut idx: usize = 0;
        while j < n && !found
            invariant
                n == self.table@.len(),
                j <= n,
                !found ==> forall|k: int| 0 <= k < j ==> self@.subs[k].sub_id != sub_id,
                found ==> idx < n && self@.subs[idx as int].sub_id == sub_id,
            decreases n - j, (if found { 0int } else { 1int }),
        {
            if self.table[j].sub_id == sub_id {
                found = true;
                idx = j;
            } else {
                j = j + 1;
            }
        }
        if !found {
            return RecvOutcome::Gone;
        }
        if self.table[idx].queue.len() == 0 {
            return RecvOutcome::Empty;
        }
        let o = self.table[idx].queue.remove(0);
        proof {
            assert(self.table@[idx as int]@.queue =~~= r0.subs[idx as int].queue.drop_first());
            assert(self@ =~~= spec_pop_at(r0, idx as int));
            assert forall|i: int|
                0 <= i < self@.subs.len() implies (#[trigger] self@.subs[i]).wf_in(self@) by {
                assert(r0.subs[i].wf_in(r0));
            }
        }
        RecvOutcome::Item(o)
    }

    /// How many channels the table currently holds for `order_id`, stale
    /// ones included until the next reap.
    pub fn live_count(&self, order_id: i32) -> (n: usize)
        ensures
            n == subs_of(self@, order_id as int).len(),
    {
        proof {
            reveal_with_fuel(Seq::<_>::filter, 2);
            assert(self@.subs.take(0) =~= Seq::<SubscriptionV>::empty());
            assert(Seq::<SubscriptionV>::empty().filter(order_pred(order_id as int)) =~= Seq::<
                SubscriptionV,
            >::empty());
        }
        let mut count: usize = 0;
        let mut j: usize = 0;
        while j < self.table.len()
            invariant
                j <= self.table@.len(),
                self@.subs.len() == self.table@.len(),
                count <= j,
                count == self@.subs.take(j as int).filter(order_pred(order_id as int)).len(),
            decreases self.table@.len() - j,
        {
            proof {
                lemma_filter_push(
                    self@.subs.take(j as int),
                    order_pred(order_id as int),
                    self@.subs[j as int],
                );
                assert(self@.subs.take(j as int + 1) =~= self@.subs.take(j as int).push(
                    self@.subs[j as int],
                ));
                broadcast use vstd::seq_lib::group_filter_ensures;

            }
            if self.table[j].order_id == order_id {
                count = count + 1;
            }
            j = j + 1;
        }
        proof {
            assert(self@.subs.take(self@.subs.len() as int) =~= self@.subs);
        }
        count
    }
}

/// Law: no missed update on a fresh subscribe. Subscribing to an order and
/// then publishing a snapshot for that order leaves the new channel holding
/// exactly the seeded current state followed by that snapshot — the
/// subscriber sees no gap and misses nothing published after subscribe
/// returned. A fresh channel always has that room, because validity keeps
/// the channel bound at two or more.
pub proof fn lemma_fresh_subscribe_sees_next_publish(
    r: RegistryV,
    order_id: int,
    s0: OrderV,
    s1: OrderV,
)
    requires
        r.wf(),
    ensures
        ({
            let r2 = spec_publish(spec_subscribe(r, order_id, s0), order_id, s1);
            &&& r2.subs.len() == r.subs.len() + 1
            &&& r2.subs.last().sub_id == r.next_sub_id
            &&& r2.subs.last().open
            &&& r2.subs.last().queue == seq![s0, s1]
        }),
{
    let r1 = spec_subscribe(r, order_id, s0);
    let fresh = spec_new_subscription(r, order_id, s0);
    let r2 = spec_publish(r1, order_id, s1);
    assert(r1.subs[r1.subs.len() - 1] == fresh);
    assert(r2.subs[r1.subs.len() - 1] == spec_deliver(fresh, order_id, s1));
    assert(seq![s0].push(s1) =~= seq![s0, s1]);
}

/// Law: a subscribe always creates a fresh channel. The handle it hands out
/// is not the handle of any channel already in the table, so a removed
/// channel is never revived by a later subscribe.
pub proof fn lemma_subscribe_fresh(r: RegistryV, order_id: int, initial: OrderV)
    requires
        r.wf(),
    ensures
        forall|i: int|
            0 <= i < r.subs.len() ==> (#[trigger] r.subs[i]).sub_id != spec_subscribe(
                r,
                order_id,
                initial,
            ).subs.last().sub_id,
{
}

/// Law: isolation across order ids. Publishing to one order never changes
/// the channel of a subscriber of any other order — not its queue, not its
/// state.
pub proof fn lemma_publish_isolation(r: RegistryV, order_id: int, snapshot: OrderV, i: int)
    requires
        0 <= i < r.subs.len(),
        r.subs[i].order_id != order_id,
    ensures
        spec_publish(r, order_id, snapshot).subs[i] == r.subs[i],
{
}

/// The table after a sequence of snapshots is published to one order, one
/// after the other.
pub open spec fn spec_publish_all(r: RegistryV, order_id: int, snaps: Seq<OrderV>) -> RegistryV
    decreases snaps.len(),
{
    if snaps.len() == 0 {
        r
    } else {
        spec_publish(spec_publish_all(r, order_id, snaps.drop_last()), order_id, snaps.last())
    }
}

/// Law: per-subscriber first-in-first-out order. Any number of snapshots
/// published in sequence to the same order land at the back of a keeping-up
/// subscriber's queue in exactly the published sequence; since
/// [`Registry::recv`] takes from the front, the subscriber receives them in
/// publish order, none missing, none reordered.
pub proof fn lemma_publish_fifo(r: RegistryV, order_id: int, snaps: Seq<OrderV>, i: int)
    requires
        0 <= i < r.subs.len(),
        r.subs[i].order_id == order_id,
        r.subs[i].open,
        r.subs[i].queue.len() + snaps.len() <= r.subs[i].capacity,
    ensures
        spec_publish_all(r, order_id, snaps).subs.len() == r.subs.len(),
        spec_publish_all(r, order_id, snaps).subs[i] == (SubscriptionV {
            queue: r.subs[i].queue + snaps,
            ..r.subs[i]
        }),
    decreases snaps.len(),
{
    if snaps.len() == 0 {
        assert(r.subs[i].queue + snaps =~= r.subs[i].queue);
        assert(spec_publish_all(r, order_id, snaps).subs[i] =~~= (SubscriptionV {
            queue: r.subs[i].queue + snaps,
            ..r.subs[i]
        }));
    } else {
        lemma_publish_fifo(r, order_id, snaps.drop_last(), i);
        let r1 = spec_publish_all(r, order_id, snaps.drop_last());
        assert((r.subs[i].queue + snaps.drop_last()).push(snaps.last()) =~= r.subs[i].queue
            + snaps);
        assert(spec_publish(r1, order_id, snaps.last()).subs[i] == spec_deliver(
            r1.subs[i],
            order_id,
            snaps.last(),
        ));
    }
}

/// Law, one half of non-blocking publish: a saturated channel — its queue
/// already at its bound — is left exactly as it was; the publish drops that
/// delivery instead of waiting for the subscriber.
pub proof fn lemma_publish_skips_saturated(r: RegistryV, order_id: int, snapshot: OrderV, i: int)
    requires
        0 <= i < r.subs.len(),
        r.subs[i].queue.len() >= r.subs[i].capacity,
    ensures
        spec_publish(r, order_id, snapshot).subs[i] == r.subs[i],
{
}

/// Law, the other half of non-blocking publish: every open channel of the
/// published order that has room gets the snapshot, no matter how many other
/// channels — of this order or any other — are saturated or stale.
pub proof fn lemma_publish_delivers(r: RegistryV, order_id: int, snapshot: OrderV, i: int)
    requires
        0 <= i < r.subs.len(),
        r.subs[i].order_id == order_id,
        r.subs[i].open,
        r.subs[i].queue.len() < r.subs[i].capacity,
    ensures
        spec_publish(r, order_id, snapshot).subs[i].queue == r.subs[i].queue.push(snapshot),
{
}

/// The channels of one order that carry one particular handle.
pub open spec fn victim_pred(order_id: int, sub_id: int) -> spec_fn(SubscriptionV) -> bool {
    |sub: SubscriptionV| sub.order_id == order_id && sub.sub_id == sub_id
}

/// Counting step for reclamation: with every channel of the order open,
/// disconnecting a handle and reaping keeps, for that order, exactly the
/// channels that did not carry the handle.
proof fn lemma_disconnect_reap_count(r: RegistryV, sub_id: int, order_id: int)
    requires
        forall|i: int|
            0 <= i < r.subs.len() && (#[trigger] r.subs[i]).order_id == order_id
                ==> r.subs[i].open,
    ensures
        subs_of(spec_reap(spec_disconnect(r, sub_id)), order_id).len() + r.subs.filter(
            victim_pred(order_id, sub_id),
        ).len() == subs_of(r, order_id).len(),
    decreases r.subs.len(),
{
    reveal_with_fuel(Seq::<_>::filter, 2);
    if r.subs.len() == 0 {
        assert(spec_disconnect(r, sub_id).subs =~= Seq::<SubscriptionV>::empty());
    } else {
        let p = RegistryV { subs: r.subs.drop_last(), ..r };
        assert forall|i: int|
            0 <= i < p.subs.len() && (#[trigger] p.subs[i]).order_id == order_id implies p.subs[
            i
        ].open by {
            assert(p.subs[i] == r.subs[i]);
        }
        lemma_disconnect_reap_count(p, sub_id, order_id);
        let last = r.subs.last();
        let c = spec_close(last, sub_id);
        assert(spec_disconnect(r, sub_id).subs =~= spec_disconnect(p, sub_id).subs.push(c));
        lemma_filter_push(spec_disconnect(p, sub_id).subs, open_pred(), c);
        let q_r = spec_disconnect(r, sub_id).subs.filter(open_pred());
        let q_p = spec_disconnect(p, sub_id).subs.filter(open_pred());
        if open_pred()(c) {
            assert(q_r == q_p.push(c));
            lemma_filter_push(q_p, order_pred(order_id), c);
        } else {
            assert(q_r == q_p);
        }
        assert(r.subs =~= r.subs.drop_last().push(last));
        lemma_filter_push(r.subs.drop_last(), order_pred(order_id), last);
        lemma_filter_push(r.subs.drop_last(), victim_pred(order_id, sub_id), last);
    }
}

/// Law: the reclamation count. With every channel of an order deliverable
/// and one of them belonging to the dropped handle, a disconnect followed by
/// one reap leaves that order exactly one channel fewer — the dropped one,
/// and only it, is reclaimed.
pub proof fn lemma_disconnect_then_reap_count(r: RegistryV, sub_id: int, order_id: int, k: int)
    requires
        r.wf(),
        0 <= k < r.subs.len(),
        r.subs[k].sub_id == sub_id,
        r.subs[k].order_id == order_id,
        forall|i: int|
            0 <= i < r.subs.len() && (#[trigger] r.subs[i]).order_id == order_id
                ==> r.subs[i].open,
    ensures
        subs_of(spec_reap(spec_disconnect(r, sub_id)), order_id).len() == subs_of(
            r,
            order_id,
        ).len() - 1,
{
    broadcast use vstd::seq_lib::group_filter_ensures;

    lemma_disconnect_reap_count(r, sub_id, order_id);
    let vp = victim_pred(order_id, sub_id);
    let vf = r.subs.filter(vp);
    assert(vp(r.subs[k]));
    assert(vf.contains(r.subs[k]));
    lemma_filter_keeps_distinct_ids(r.subs, vp);
    if vf.len() >= 2 {
        assert(vp(vf[0]));
        assert(vp(vf[1]));
        assert(false);
    }
}

/// Law: reclamation. Once a subscriber's receiver is gone (its channel was
/// disconnected), one reap pass leaves no channel under that handle in the
/// table.
pub proof fn lemma_disconnect_then_reap_removes(r: RegistryV, sub_id: int)
    ensures
        forall|i: int|
            0 <= i < spec_reap(spec_disconnect(r, sub_id)).subs.len() ==> (#[trigger] spec_reap(
                spec_disconnect(r, sub_id),
            ).subs[i]).sub_id != sub_id,
{
    broadcast use vstd::seq_lib::group_filter_ensures;

    let rd = spec_disconnect(r, sub_id);
    lemma_filter_elems_contained(rd.subs, open_pred());
    assert forall|i: int|
        0 <= i < spec_reap(rd).subs.len() implies (#[trigger] spec_reap(
        rd,
    ).subs[i]).sub_id != sub_id by {
        let e = spec_reap(rd).subs[i];
        assert(open_pred()(e));
        assert(rd.subs.contains(e));
        let k = choose|k: int| 0 <= k < rd.subs.len() && rd.subs[k] == e;
        assert(rd.subs[k] == spec_close(r.subs[k], sub_id));
    }
}

} // verus!
