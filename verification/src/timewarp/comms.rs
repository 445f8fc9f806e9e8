//! Transport: the wire item, the fixed-capacity ring that carries it between exactly one
//! writer and one reader, and the router that owns every ring of a run.

use vstd::prelude::*;
use crate::worlds::Message;
use crate::timewarp::antimessage::AntiMessage;

verus! {

/// What occupies one slot of a ring: a message, or the record that cancels one.
#[derive(Debug, PartialEq, Eq)]
pub enum Transferable {
    Message(Message),
    AntiMessage(AntiMessage),
}

impl Transferable {
    /// The process the item is addressed to.
    pub open spec fn spec_to(&self) -> usize {
        match *self {
            Transferable::Message(m) => m.destination,
            Transferable::AntiMessage(a) => a.destination,
        }
    }

    /// The virtual time the item refers to.
    pub open spec fn spec_timestamp(&self) -> u64 {
        match *self {
            Transferable::Message(m) => m.timestamp,
            Transferable::AntiMessage(a) => a.timestamp,
        }
    }

    #[verifier::when_used_as_spec(spec_to)]
    pub fn to(&self) -> (dest: usize)
        ensures
            dest == self.spec_to(),
    {
        match self {
            Transferable::Message(m) => m.destination,
            Transferable::AntiMessage(a) => a.destination,
        }
    }

    #[verifier::when_used_as_spec(spec_timestamp)]
    pub fn timestamp(&self) -> (time: u64)
        ensures
            time == self.spec_timestamp(),
    {
        match self {
            Transferable::Message(m) => m.timestamp,
            Transferable::AntiMessage(a) => a.timestamp,
        }
    }
}

/// Reported by a read from a ring that holds nothing.
#[derive(Debug, Clone, Copy, PartialEq, Eq, Structural)]
pub struct Empty;

/// Position of the `k`-th pending item of a ring of `size` slots whose oldest item sits
/// at `read`.
spec fn slot_of(read: int, k: int, size: int) -> int {
    if read + k < size {
        read + k
    } else {
        read + k - size
    }
}

/// What a ring holds after an attempt to append `item` to the contents `held` under a
/// capacity of `size`.
pub open spec fn after_write(held: Seq<Transferable>, size: nat, item: Transferable) -> Seq<
    Transferable,
> {
    if held.len() < size {
        held.push(item)
    } else {
        held
    }
}

/// What a ring holds after an attempt to take its oldest item.
pub open spec fn after_read(held: Seq<Transferable>) -> Seq<Transferable> {
    if held.len() > 0 {
        held.subrange(1, held.len() as int)
    } else {
        held
    }
}

/// A ring of `SIZE` slots between one writer and one reader. Items leave in the order
/// in which they entered; a full ring refuses a write and hands the item back.
pub struct CircularBuffer<const SIZE: usize> {
    /// The backing storage; a slot is `None` while it is free.
    slots: Vec<Option<Transferable>>,
    /// The read cursor: the slot of the oldest pending item.
    read_idx: usize,
    /// How far the write cursor is ahead of the read cursor.
    live: usize,
}

impl<const SIZE: usize> View for CircularBuffer<SIZE> {
    type V = Seq<Transferable>;

    /// The pending items, oldest first.
    closed spec fn view(&self) -> Seq<Transferable> {
        Seq::new(
            self.live as nat,
            |k: int| self.slots@[slot_of(self.read_idx as int, k, SIZE as int)]->0,
        )
    }
}

impl<const SIZE: usize> CircularBuffer<SIZE> {
    #[verifier::type_invariant]
    spec fn inv(&self) -> bool {
        &&& self.slots@.len() == SIZE
        &&& self.live <= SIZE
        &&& (SIZE > 0 ==> self.read_idx < SIZE)
        &&& (SIZE == 0 ==> self.read_idx == 0)
        &&& forall|k: int|
            0 <= k < self.live ==> (#[trigger] self.slots@[slot_of(
                self.read_idx as int,
                k,
                SIZE as int,
            )]) is Some
    }

    /// An empty ring.
    pub fn new() -> (ring: Self)
        ensures
            ring@ == Seq::<Transferable>::empty(),
    {
        let mut slots: Vec<Option<Transferable>> = Vec::new();
        let mut i: usize = 0;
        while i < SIZE
            invariant
                i <= SIZE,
                slots@.len() == i,
            decreases SIZE - i,
        {
            slots.push(None);
            i = i + 1;
        }
        CircularBuffer { slots, read_idx: 0, live: 0 }
    }

    /// The number of slots.
    pub fn capacity(&self) -> (n: usize)
        ensures
            n == SIZE,
    {
        SIZE
    }

    /// The number of pending items, never more than the capacity.
    pub fn len(&self) -> (n: usize)
        ensures
            n == self@.len(),
            n <= SIZE,
    {
        proof {
            use_type_invariant(self);
        }
        self.live
    }

    /// Whether nothing is pending.
    pub fn is_empty(&self) -> (b: bool)
        ensures
            b == (self@.len() == 0),
    {
        self.live == 0
    }

    /// Whether every slot is taken.
    pub fn is_full(&self) -> (b: bool)
        ensures
            b == (self@.len() == SIZE),
            self@.len() <= SIZE,
    {
        proof {
            use_type_invariant(self);
        }
        self.live == SIZE
    }

    /// The oldest pending item, left in place.
    pub fn front(&self) -> (head: Option<&Transferable>)
        ensures
            head is Some <==> self@.len() > 0,
            head is Some ==> *head->0 == self@[0],
    {
        proof {
            use_type_invariant(self);
        }
        if self.live == 0 {
            None
        } else {
            assert(self.read_idx == slot_of(self.read_idx as int, 0, SIZE as int));
            self.slots[self.read_idx].as_ref()
        }
    }

    /// Appends `item` behind the pending items, or hands it back unchanged when all
    /// slots are taken.
    pub fn write(&mut self, item: Transferable) -> (res: Result<(), Transferable>)
        ensures
            final(self)@ == after_write(old(self)@, SIZE as nat, item),
            final(self)@.len() <= SIZE,
            res is Ok <==> old(self)@.len() < SIZE,
            res is Err ==> res->Err_0 == item,
    {
        proof {
            use_type_invariant(&*self);
        }
        if self.live == SIZE {
            return Err(item);
        }
        let gap = SIZE - self.read_idx;
        let at = if self.live < gap {
            self.read_idx + self.live
        } else {
            self.live - gap
        };
        self.slots[at] = Some(item);
        self.live = self.live + 1;
        Ok(())
    }

    /// Takes the oldest pending item.
    pub fn read(&mut self) -> (res: Result<Transferable, Empty>)
        ensures
            final(self)@ == after_read(old(self)@),
            res is Ok <==> old(self)@.len() > 0,
            res is Ok ==> res->Ok_0 == old(self)@[0],
    {
        proof {
            use_type_invariant(&*self);
        }
        if self.live == 0 {
            return Err(Empty);
        }
        let at = self.read_idx;
        assert(at == slot_of(self.read_idx as int, 0, SIZE as int));
        self.live = self.live - 1;
        let next = if at + 1 < SIZE {
            at + 1
        } else {
            0
        };
        assert forall|k: int| 0 <= k < self.live implies (#[trigger] self.slots@[slot_of(
            next as int,
            k,
            SIZE as int,
        )]) is Some by {
            assert(slot_of(next as int, k, SIZE as int) == slot_of(at as int, k + 1, SIZE as int));
        }
        self.read_idx = next;
        let taken = self.slots[at].take();
        Ok(taken.unwrap())
    }
}

/// One operation on a ring.
pub enum RingOp {
    /// An attempt to append the item.
    Write(Transferable),
    /// An attempt to take the oldest item.
    Read,
}

/// What a ring of `size` slots that holds `held` holds after the operations `ops`, made
/// one after the other.
pub open spec fn after_ops(held: Seq<Transferable>, size: nat, ops: Seq<RingOp>) -> Seq<
    Transferable,
>
    decreases ops.len(),
{
    if ops.len() == 0 {
        held
    } else {
        let before = after_ops(held, size, ops.drop_last());
        match ops.last() {
            RingOp::Write(item) => after_write(before, size, item),
            RingOp::Read => after_read(before),
        }
    }
}

/// What a ring holds after `n` reads.
pub open spec fn after_reads(held: Seq<Transferable>, n: nat) -> Seq<Transferable>
    decreases n,
{
    if n == 0 {
        held
    } else {
        after_read(after_reads(held, (n - 1) as nat))
    }
}

/// Whatever writes and reads are made on a ring, in whatever order, it never holds
/// more items than it has slots.
pub proof fn lemma_ring_never_overfull(held: Seq<Transferable>, size: nat, ops: Seq<RingOp>)
    requires
        held.len() <= size,
    ensures
        after_ops(held, size, ops).len() <= size,
    decreases ops.len(),
{
    if ops.len() > 0 {
        lemma_ring_never_overfull(held, size, ops.drop_last());
    }
}

/// A write to a full ring leaves the ring as it is.
pub proof fn lemma_ring_full_refuses(held: Seq<Transferable>, size: nat, item: Transferable)
    requires
        held.len() >= size,
    ensures
        after_write(held, size, item) == held,
{
}

/// `n` reads take the `n` oldest items, or all of them where there are fewer.
pub proof fn lemma_after_reads(held: Seq<Transferable>, n: nat)
    ensures
        n <= held.len() ==> after_reads(held, n) == held.subrange(n as int, held.len() as int),
        n > held.len() ==> after_reads(held, n) == Seq::<Transferable>::empty(),
    decreases n,
{
    if n == 0 {
    } else {
        lemma_after_reads(held, (n - 1) as nat);
        let before = after_reads(held, (n - 1) as nat);
    }
}

/// An item written to a ring that has room comes out again, unchanged, once the items
/// that were pending before it have been read.
pub proof fn lemma_ring_round_trip(held: Seq<Transferable>, size: nat, item: Transferable)
    requires
        held.len() < size,
    ensures
        after_reads(after_write(held, size, item), held.len()).len() == 1,
        after_reads(after_write(held, size, item), held.len())[0] == item,
{
    lemma_after_reads(after_write(held, size, item), held.len());
}

/// Why a read from the router gave nothing.
#[derive(Debug, Clone, Copy, PartialEq, Eq, Structural)]
pub enum ReadError {
    /// The ring holds nothing.
    Empty,
    /// The router has no ring for that process.
    NoSuchProcess,
}

/// Reported by a poll of a router whose rings do not match the process table.
#[derive(Debug, Clone, Copy, PartialEq, Eq, Structural)]
pub struct PollError;

/// The pending items of every ring of a router, by process.
pub struct CommsView {
    /// What has been delivered toward each process and not yet taken by it.
    pub inbound: Seq<Seq<Transferable>>,
    /// What each process has emitted and the coordinator has not yet relayed.
    pub staging: Seq<Seq<Transferable>>,
}

/// The router. Every process has two rings: one stages what it emits until the
/// coordinator relays it, the other holds what has been delivered to it.
pub struct Comms<const LPS: usize, const SIZE: usize> {
    inbound: Vec<CircularBuffer<SIZE>>,
    staging: Vec<CircularBuffer<SIZE>>,
}

impl<const LPS: usize, const SIZE: usize> View for Comms<LPS, SIZE> {
    type V = CommsView;

    closed spec fn view(&self) -> CommsView {
        CommsView {
            inbound: Seq::new(self.inbound@.len(), |i: int| self.inbound@[i]@),
            staging: Seq::new(self.staging@.len(), |i: int| self.staging@[i]@),
        }
    }
}

impl CommsView {
    /// Both sets of rings cover exactly `lps` processes.
    pub open spec fn consistent(&self, lps: nat) -> bool {
        self.inbound.len() == lps && self.staging.len() == lps
    }

    /// The router after an attempt to deliver `item` toward its destination.
    pub open spec fn after_write(self, size: nat, item: Transferable) -> CommsView {
        let dest = item.spec_to() as int;
        if dest < self.inbound.len() {
            CommsView {
                inbound: self.inbound.update(dest, after_write(self.inbound[dest], size, item)),
                staging: self.staging,
            }
        } else {
            self
        }
    }

    /// The router after an attempt to take the oldest item staged by process `i`.
    pub open spec fn after_read(self, i: int) -> CommsView {
        if 0 <= i < self.staging.len() {
            CommsView {
                inbound: self.inbound,
                staging: self.staging.update(i, after_read(self.staging[i])),
            }
        } else {
            self
        }
    }

    /// The router after an attempt by process `from` to stage `item`.
    pub open spec fn after_send(self, size: nat, from: int, item: Transferable) -> CommsView {
        if 0 <= from < self.staging.len() {
            CommsView {
                inbound: self.inbound,
                staging: self.staging.update(from, after_write(self.staging[from], size, item)),
            }
        } else {
            self
        }
    }

    /// The router after an attempt by process `i` to take its oldest delivered item.
    pub open spec fn after_receive(self, i: int) -> CommsView {
        if 0 <= i < self.inbound.len() {
            CommsView {
                inbound: self.inbound.update(i, after_read(self.inbound[i])),
                staging: self.staging,
            }
        } else {
            self
        }
    }
}

impl<const LPS: usize, const SIZE: usize> Comms<LPS, SIZE> {
    /// A router over the given rings, `inbound[i]` and `staging[i]` serving process `i`.
    pub fn new(inbound: Vec<CircularBuffer<SIZE>>, staging: Vec<CircularBuffer<SIZE>>) -> (comms:
        Self)
        ensures
            comms@.inbound == Seq::new(inbound@.len(), |i: int| inbound@[i]@),
            comms@.staging == Seq::new(staging@.len(), |i: int| staging@[i]@),
    {
        Comms { inbound, staging }
    }

    /// Whether the rings cover exactly the process table.
    pub fn is_consistent(&self) -> (ok: bool)
        ensures
            ok == self@.consistent(LPS as nat),
    {
        self.inbound.len() == LPS && self.staging.len() == LPS
    }

    /// Delivers `item` into the ring toward its destination. The item comes back
    /// unchanged when that ring is full or the destination has no ring.
    pub fn write(&mut self, item: Transferable) -> (res: Result<(), Transferable>)
        ensures
            final(self)@ == old(self)@.after_write(SIZE as nat, item),
            res is Ok <==> item.spec_to() < old(self)@.inbound.len() && old(
                self,
            )@.inbound[item.spec_to() as int].len() < SIZE,
            res is Err ==> res->Err_0 == item,
    {
        let dest = item.to();
        if dest < self.inbound.len() {
            let ghost before = self@;
            let res = self.inbound[dest].write(item);
            assert(self@.inbound =~= before.inbound.update(
                dest as int,
                after_write(before.inbound[dest as int], SIZE as nat, item),
            ));
            res
        } else {
            Err(item)
        }
    }

    /// For each process, whether it has staged something that waits to be relayed.
    /// Fails only when the rings do not match the process table; an empty ring is no
    /// failure.
    pub fn poll(&self) -> (res: Result<Vec<bool>, PollError>)
        ensures
            res is Ok <==> self@.consistent(LPS as nat),
            res is Ok ==> {
                &&& res->Ok_0@.len() == LPS
                &&& forall|i: int|
                    0 <= i < LPS ==> res->Ok_0@[i] == (self@.staging[i].len() > 0)
            },
    {
        if !self.is_consistent() {
            return Err(PollError);
        }
        let mut flags: Vec<bool> = Vec::new();
        let mut i: usize = 0;
        while i < LPS
            invariant
                i <= LPS,
                self.staging@.len() == LPS,
                flags@.len() == i,
                forall|j: int| 0 <= j < i ==> flags@[j] == (self@.staging[j].len() > 0),
            decreases LPS - i,
        {
            flags.push(!self.staging[i].is_empty());
            i = i + 1;
        }
        Ok(flags)
    }

    /// Takes the oldest item staged by process `i`.
    pub fn read(&mut self, i: usize) -> (res: Result<Transferable, ReadError>)
        ensures
            final(self)@ == old(self)@.after_read(i as int),
            res is Ok <==> i < old(self)@.staging.len() && old(self)@.staging[i as int].len() > 0,
            res is Ok ==> res->Ok_0 == old(self)@.staging[i as int][0],
            res is Err ==> (res->Err_0 == ReadError::NoSuchProcess <==> i >= old(
                self,
            )@.staging.len()),
    {
        if i < self.staging.len() {
            let ghost before = self@;
            let res = self.staging[i].read();
            assert(self@.staging =~= before.staging.update(
                i as int,
                after_read(before.staging[i as int]),
            ));
            match res {
                Ok(item) => Ok(item),
                Err(_) => Err(ReadError::Empty),
            }
        } else {
            Err(ReadError::NoSuchProcess)
        }
    }

    /// The destination of the oldest item staged by process `i`, which stays in place.
    pub fn front_to(&self, i: usize) -> (dest: Option<usize>)
        ensures
            dest is Some <==> i < self@.staging.len() && self@.staging[i as int].len() > 0,
            dest is Some ==> dest->0 == self@.staging[i as int][0].spec_to(),
    {
        if i < self.staging.len() {
            match self.staging[i].front() {
                Some(item) => Some(item.to()),
                None => None,
            }
        } else {
            None
        }
    }

    /// Stages `item` in the ring of the process `from` that emits it. The item comes
    /// back unchanged when that ring is full or the process has no ring.
    pub fn send(&mut self, from: usize, item: Transferable) -> (res: Result<(), Transferable>)
        ensures
            final(self)@ == old(self)@.after_send(SIZE as nat, from as int, item),
            res is Ok <==> from < old(self)@.staging.len() && old(self)@.staging[from as int].len()
                < SIZE,
            res is Err ==> res->Err_0 == item,
    {
        if from < self.staging.len() {
            let ghost before = self@;
            let res = self.staging[from].write(item);
            assert(self@.staging =~= before.staging.update(
                from as int,
                after_write(before.staging[from as int], SIZE as nat, item),
            ));
            res
        } else {
            Err(item)
        }
    }

    /// Takes the oldest item delivered to process `i`.
    pub fn receive(&mut self, i: usize) -> (res: Result<Transferable, ReadError>)
        ensures
            final(self)@ == old(self)@.after_receive(i as int),
            res is Ok <==> i < old(self)@.inbound.len() && old(self)@.inbound[i as int].len() > 0,
            res is Ok ==> res->Ok_0 == old(self)@.inbound[i as int][0],
            res is Err ==> (res->Err_0 == ReadError::NoSuchProcess <==> i >= old(
                self,
            )@.inbound.len()),
    {
        if i < self.inbound.len() {
            let ghost before = self@;
            let res = self.inbound[i].read();
            assert(self@.inbound =~= before.inbound.update(
                i as int,
                after_read(before.inbound[i as int]),
            ));
            match res {
                Ok(item) => Ok(item),
                Err(_) => Err(ReadError::Empty),
            }
        } else {
            Err(ReadError::NoSuchProcess)
        }
    }

    /// How many items are waiting in the ring toward process `i`.
    pub fn inbound_len(&self, i: usize) -> (n: usize)
        ensures
            i < self@.inbound.len() ==> n == self@.inbound[i as int].len() && n <= SIZE,
            i >= self@.inbound.len() ==> n == 0,
    {
        if i < self.inbound.len() {
            self.inbound[i].len()
        } else {
            0
        }
    }

    /// How many items process `i` has staged.
    pub fn staging_len(&self, i: usize) -> (n: usize)
        ensures
            i < self@.staging.len() ==> n == self@.staging[i as int].len() && n <= SIZE,
            i >= self@.staging.len() ==> n == 0,
    {
        if i < self.staging.len() {
            self.staging[i].len()
        } else {
            0
        }
    }
}

} // verus!
