//! Plain data exchanged between a simulated entity and the engine that hosts it:
//! scheduling events, inter-entity messages and the errors a run can surface.

use vstd::prelude::*;

verus! {

/// What an entity asks the scheduler to do once its current unit of work is over.
#[derive(Debug, Clone, Copy, PartialEq, Eq, Structural)]
pub enum Action {
    /// Wake the entity again after the given delay.
    Timeout(u64),
    /// Wake the entity again at the given absolute time.
    Schedule(u64),
    /// Sleep until something else wakes the entity.
    Wait,
    /// The entity has no further work.
    Break,
}

/// A scheduling decision produced by one unit of work of an entity.
#[derive(Debug, Clone, Copy, PartialEq, Eq, Structural)]
pub struct Event {
    /// Virtual time at which the event was produced.
    pub scheduled_at: u64,
    /// Virtual time at which the event falls due.
    pub due_at: u64,
    /// Identifier of the entity that produced the event.
    pub owner: usize,
    /// What the entity asked for.
    pub action: Action,
}

impl Event {
    pub fn new(scheduled_at: u64, due_at: u64, owner: usize, action: Action) -> (e: Self)
        ensures
            e == (Event { scheduled_at, due_at, owner, action }),
    {
        Event { scheduled_at, due_at, owner, action }
    }

}

/// The mathematical content of a [`Message`]: its bytes and its addressing.
pub struct MessageView {
    pub payload: Seq<u8>,
    pub timestamp: u64,
    pub sender: usize,
    pub destination: usize,
}

/// A payload travelling from one entity to another, stamped with the virtual time at
/// which the receiver has to apply it.
#[derive(Debug, PartialEq, Eq)]
pub struct Message {
    pub payload: Vec<u8>,
    pub timestamp: u64,
    pub sender: usize,
    pub destination: usize,
}

impl View for Message {
    type V = MessageView;

    open spec fn view(&self) -> MessageView {
        MessageView {
            payload: self.payload@,
            timestamp: self.timestamp,
            sender: self.sender,
            destination: self.destination,
        }
    }
}

/// Copies a byte string.
pub fn copy_bytes(bytes: &Vec<u8>) -> (copy: Vec<u8>)
    ensures
        copy@ == bytes@,
{
    let mut copy: Vec<u8> = Vec::new();
    let mut i: usize = 0;
    while i < bytes.len()
        invariant
            i <= bytes@.len(),
            copy@ == bytes@.subrange(0, i as int),
        decreases bytes@.len() - i,
    {
        copy.push(bytes[i]);
        i = i + 1;
    }
    copy
}

impl Message {
    pub fn new(payload: Vec<u8>, timestamp: u64, sender: usize, destination: usize) -> (m: Self)
        ensures
            m == (Message { payload, timestamp, sender, destination }),
    {
        Message { payload, timestamp, sender, destination }
    }

    /// A second message with the same bytes and the same addressing.
    pub fn duplicate(&self) -> (m: Self)
        ensures
            m@ == self@,
    {
        Message {
            payload: copy_bytes(&self.payload),
            timestamp: self.timestamp,
            sender: self.sender,
            destination: self.destination,
        }
    }
}

/// Failures that a simulation run reports to its caller.
#[derive(Debug, Clone, Copy, PartialEq, Eq, Structural)]
pub enum SimError {
    /// Every slot of the process table is taken.
    LPsFull,
    /// Fewer processes were registered than the table has slots.
    MismatchLPsCount,
    /// The router found its own rings in an inconsistent state.
    PollError,
    /// A worker thread ended abnormally.
    ThreadJoinError,
    /// A rollback reached further back than the retained history.
    RollbackHorizonExceeded,
}

} // verus!
