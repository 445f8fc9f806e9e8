//! Cancellation records: for every message that leaves a process there is an
//! antimessage that can later annihilate it.

use vstd::prelude::*;
use crate::worlds::{Message, MessageView};

verus! {

/// The cancellation record of one message, naming it by sender, destination and
/// timestamp.
#[derive(Debug, Clone, Copy, PartialEq, Eq, Structural)]
pub struct AntiMessage {
    pub sender: usize,
    pub destination: usize,
    pub timestamp: u64,
}

impl AntiMessage {
    /// The record that cancels a message with the given content.
    pub open spec fn spec_of(m: MessageView) -> AntiMessage {
        AntiMessage { sender: m.sender, destination: m.destination, timestamp: m.timestamp }
    }

    /// Whether this record names the given message.
    pub open spec fn cancels(&self, m: MessageView) -> bool {
        *self == Self::spec_of(m)
    }

    /// The record that cancels `message`.
    pub fn of(message: &Message) -> (anti: Self)
        ensures
            anti == Self::spec_of(message@),
    {
        AntiMessage {
            sender: message.sender,
            destination: message.destination,
            timestamp: message.timestamp,
        }
    }

    /// Whether this record and `message` annihilate each other.
    pub fn annihilates(&self, message: &Message) -> (hit: bool)
        ensures
            hit == self.cancels(message@),
    {
        self.sender == message.sender && self.destination == message.destination
            && self.timestamp == message.timestamp
    }
}

/// A message paired with the antimessage that cancels it. A handler hands the pair to
/// the runtime, which sends the first half and keeps the second for a later rollback.
pub struct Annihilator {
    message: Message,
    anti: AntiMessage,
}

impl Annihilator {
    #[verifier::type_invariant]
    spec fn paired(&self) -> bool {
        self.anti == AntiMessage::spec_of(self.message@)
    }

    /// The message half.
    pub closed spec fn message(&self) -> Message {
        self.message
    }

    /// The antimessage half, which names the message half.
    pub open spec fn anti(&self) -> AntiMessage {
        AntiMessage::spec_of(self.message()@)
    }

    /// Pairs `message` with its own antimessage.
    pub fn new(message: Message) -> (pair: Self)
        ensures
            pair.message() == message,
    {
        let anti = AntiMessage::of(&message);
        Annihilator { message, anti }
    }

    /// Takes the pair apart.
    pub fn split(self) -> (halves: (Message, AntiMessage))
        ensures
            halves.0 == self.message(),
            halves.1 == self.anti(),
    {
        proof {
            use_type_invariant(&self);
        }
        (self.message, self.anti)
    }
}

} // verus!
