//! Nothing gets lost on the way: what the coordinator does to rings and overflow
//! queues moves items about and neither drops nor doubles one.

use vstd::prelude::*;
use vstd::multiset::Multiset;
use vstd::seq_lib::lemma_multiset_commutative;
use crate::timewarp::comms::Transferable;
use crate::timewarp::gvt::{first_unroutable, popped, GvtView, Lanes};
use crate::timewarp::lp::flushable;

verus! {

/// Every item held in `queues`, each as often as it is held.
pub open spec fn items_of(queues: Seq<Seq<Transferable>>) -> Multiset<Transferable>
    decreases queues.len(),
{
    if queues.len() == 0 {
        Multiset::empty()
    } else {
        items_of(queues.drop_last()).add(queues.last().to_multiset())
    }
}

impl Lanes {
    /// Every item on its way to a process.
    pub open spec fn in_flight(self) -> Multiset<Transferable> {
        items_of(self.inbound).add(items_of(self.overflow))
    }
}

impl GvtView {
    /// Every item in the hands of the coordinator: staged, on its way in a ring, or
    /// waiting in an overflow queue.
    pub open spec fn in_flight(self) -> Multiset<Transferable> {
        match self.comms {
            Some(comms) => items_of(comms.staging).add(items_of(comms.inbound)).add(
                items_of(self.overflow),
            ),
            None => items_of(self.overflow),
        }
    }

    /// Whether the router exists and rings and overflow queues cover a table of
    /// `slots` slots.
    pub open spec fn routable(self, slots: nat) -> bool {
        self.comms is Some && self.comms->0.consistent(slots) && self.overflow.len() == slots
    }
}

/// Replacing one queue exchanges its items for those of the new one.
pub proof fn lemma_items_update(queues: Seq<Seq<Transferable>>, i: int, queue: Seq<Transferable>)
    requires
        0 <= i < queues.len(),
    ensures
        items_of(queues.update(i, queue)).add(queues[i].to_multiset()) =~= items_of(queues).add(
            queue.to_multiset(),
        ),
    decreases queues.len(),
{
    broadcast use vstd::multiset::group_multiset_axioms;

    let updated = queues.update(i, queue);
    let rest = queues.drop_last();
    if i == queues.len() - 1 {
        assert(updated.drop_last() =~= rest);
    } else {
        assert(updated.drop_last() =~= rest.update(i, queue));
        lemma_items_update(rest, i, queue);
        let last = queues.last().to_multiset();
        assert(items_of(rest.update(i, queue)).add(last).add(queues[i].to_multiset()) =~= items_of(
            rest.update(i, queue),
        ).add(queues[i].to_multiset()).add(last));
    }
}

/// The `k` most recent items of a queue and the items before them are, together, the
/// items of the queue.
pub proof fn lemma_popped(queue: Seq<Transferable>, k: nat)
    requires
        k <= queue.len(),
    ensures
        popped(queue, k).to_multiset().add(queue.subrange(0, queue.len() - k).to_multiset())
            =~= queue.to_multiset(),
    decreases k,
{
    broadcast use vstd::seq_lib::group_to_multiset_ensures;

    let n = queue.len() as int;
    if k == 0 {
        assert(queue.subrange(0, n) =~= queue);
    } else {
        lemma_popped(queue, (k - 1) as nat);
        let moved = queue[n - k];
        assert(popped(queue, k) =~= popped(queue, (k - 1) as nat).push(moved));
        assert(queue.subrange(0, n - k + 1) =~= queue.subrange(0, n - k).push(moved));
    }
}

/// Placing an item adds exactly that item to what is on its way.
pub proof fn lemma_place_conserves(lanes: Lanes, item: Transferable, size: nat)
    requires
        item.spec_to() < lanes.inbound.len(),
        item.spec_to() < lanes.overflow.len(),
    ensures
        lanes.place(item, size).in_flight() =~= lanes.in_flight().insert(item),
        lanes.place(item, size).inbound.len() == lanes.inbound.len(),
        lanes.place(item, size).overflow.len() == lanes.overflow.len(),
{
    broadcast use vstd::seq_lib::group_to_multiset_ensures;

    broadcast use vstd::multiset::group_multiset_axioms;

    let dest = item.spec_to() as int;
    let after = lanes.place(item, size);
    if lanes.inbound[dest].len() < size {
        lemma_items_update(lanes.inbound, dest, lanes.inbound[dest].push(item));
    } else {
        lemma_items_update(lanes.overflow, dest, lanes.overflow[dest].push(item));
    }
    assert forall|x: Transferable| after.in_flight().count(x) == lanes.in_flight().insert(
        item,
    ).count(x) by {
        if lanes.inbound[dest].len() < size {
            let was = lanes.inbound[dest];
            assert(items_of(after.inbound).add(was.to_multiset()).count(x) == items_of(
                lanes.inbound,
            ).add(was.push(item).to_multiset()).count(x));
        } else {
            let was = lanes.overflow[dest];
            assert(items_of(after.overflow).add(was.to_multiset()).count(x) == items_of(
                lanes.overflow,
            ).add(was.push(item).to_multiset()).count(x));
        }
    }
}

/// Placing items one after the other adds exactly those items to what is on its way.
pub proof fn lemma_place_all_conserves(lanes: Lanes, items: Seq<Transferable>, size: nat)
    requires
        lanes.inbound.len() == lanes.overflow.len(),
        forall|i: int|
            0 <= i < items.len() ==> (#[trigger] items[i]).spec_to() < lanes.inbound.len(),
    ensures
        lanes.place_all(items, size).in_flight() =~= lanes.in_flight().add(items.to_multiset()),
        lanes.place_all(items, size).inbound.len() == lanes.inbound.len(),
        lanes.place_all(items, size).overflow.len() == lanes.overflow.len(),
    decreases items.len(),
{
    broadcast use vstd::seq_lib::group_to_multiset_ensures;

    if items.len() == 0 {
    } else {
        let rest = items.drop_last();
        assert forall|i: int| 0 <= i < rest.len() implies (#[trigger] rest[i]).spec_to()
            < lanes.inbound.len() by {}
        lemma_place_all_conserves(lanes, rest, size);
        lemma_place_conserves(lanes.place_all(rest, size), items.last(), size);
        assert(items =~= rest.push(items.last()));
    }
}

/// A retry of an overflow queue loses nothing and doubles nothing.
pub proof fn lemma_try_empty_conserves(view: GvtView, slot: int, slots: nat, size: nat)
    requires
        view.routable(slots),
    ensures
        view.after_try_empty(slot, size).in_flight() =~= view.in_flight(),
        view.after_try_empty(slot, size).routable(slots),
{
    broadcast use vstd::multiset::group_multiset_axioms;

    if 0 <= slot < slots {
        let queue = view.overflow[slot];
        let ring = view.comms->0.inbound[slot];
        let k = flushable(queue.len(), ring.len(), size);
        let grown = ring + popped(queue, k);
        let shrunk = queue.subrange(0, queue.len() - k);
        let after = view.after_try_empty(slot, size);
        lemma_popped(queue, k);
        lemma_multiset_commutative(ring, popped(queue, k));
        lemma_items_update(view.comms->0.inbound, slot, grown);
        lemma_items_update(view.overflow, slot, shrunk);
        assert forall|x: Transferable| after.in_flight().count(x) == view.in_flight().count(x) by {
            assert(items_of(after.comms->0.inbound).add(ring.to_multiset()).count(x) == items_of(
                view.comms->0.inbound,
            ).add(grown.to_multiset()).count(x));
            assert(items_of(after.overflow).add(queue.to_multiset()).count(x) == items_of(
                view.overflow,
            ).add(shrunk.to_multiset()).count(x));
        }
    }
}

/// The items in front of the first one that is addressed outside the table are all
/// addressed inside it.
pub proof fn lemma_first_unroutable(items: Seq<Transferable>, slots: nat, from: int)
    requires
        0 <= from,
    ensures
        ({
            let k = first_unroutable(items, slots, from);
            &&& (k == -1 || from <= k < items.len())
            &&& (k >= 0 ==> items[k].spec_to() >= slots)
            &&& forall|j: int|
                from <= j < items.len() && (k == -1 || j < k) ==> (#[trigger] items[j]).spec_to()
                    < slots
        }),
    decreases items.len() - from,
{
    if from < items.len() && items[from].spec_to() < slots {
        lemma_first_unroutable(items, slots, from + 1);
    }
}

/// A relay loses nothing and doubles nothing, whether it goes through or stops early.
pub proof fn lemma_relay_conserves(view: GvtView, slot: int, slots: nat, size: nat)
    requires
        view.routable(slots),
    ensures
        view.after_relay(slot, slots, size).in_flight() =~= view.in_flight(),
        view.after_relay(slot, slots, size).routable(slots),
{
    broadcast use vstd::multiset::group_multiset_axioms;

    if 0 <= slot < slots {
        let items = view.comms->0.staging[slot];
        let moved = view.relayed(slot, slots);
        let after = view.after_relay(slot, slots, size);
        lemma_first_unroutable(items, slots, 0);
        let head = items.subrange(0, moved);
        let tail = items.subrange(moved, items.len() as int);
        assert(head + tail =~= items);
        lemma_multiset_commutative(head, tail);
        lemma_place_all_conserves(view.lanes(), head, size);
        lemma_items_update(view.comms->0.staging, slot, tail);
        let lanes = view.lanes().place_all(head, size);
        assert forall|x: Transferable| after.in_flight().count(x) == view.in_flight().count(x) by {
            assert(items_of(after.comms->0.staging).add(items.to_multiset()).count(x) == items_of(
                view.comms->0.staging,
            ).add(tail.to_multiset()).count(x));
            assert(lanes.in_flight().count(x) == view.lanes().in_flight().add(
                head.to_multiset(),
            ).count(x));
        }
    }
}

/// Retrying one overflow queue after the other loses nothing and doubles nothing.
pub proof fn lemma_drained_conserves(view: GvtView, n: int, slots: nat, size: nat)
    requires
        view.routable(slots),
    ensures
        view.drained(n, size).in_flight() =~= view.in_flight(),
        view.drained(n, size).routable(slots),
    decreases n,
{
    if n > 0 {
        lemma_drained_conserves(view, n - 1, slots, size);
        lemma_try_empty_conserves(view.drained(n - 1, size), n - 1, slots, size);
    }
}

/// Relaying one staging ring after the other loses nothing and doubles nothing.
pub proof fn lemma_relayed_conserves(view: GvtView, n: int, slots: nat, size: nat)
    requires
        view.routable(slots),
    ensures
        view.relayed_upto(n, slots, size).0.in_flight() =~= view.in_flight(),
        view.relayed_upto(n, slots, size).0.routable(slots),
    decreases n,
{
    if n > 0 {
        lemma_relayed_conserves(view, n - 1, slots, size);
        lemma_relay_conserves(view.relayed_upto(n - 1, slots, size).0, n - 1, slots, size);
    }
}

/// A tick of the coordinator loses nothing and doubles nothing: every item that was
/// staged, on its way or in an overflow queue before the tick is so after it, whether
/// the tick reports an error or not.
pub proof fn lemma_tick_conserves(view: GvtView, slots: nat, size: nat)
    requires
        view.routable(slots),
    ensures
        view.after_tick(slots, size).in_flight() =~= view.in_flight(),
{
    let polled = view.polled();
    lemma_drained_conserves(polled, slots as int, slots, size);
    lemma_relayed_conserves(polled.drained(slots as int, size), slots as int, slots, size);
}

} // verus!
