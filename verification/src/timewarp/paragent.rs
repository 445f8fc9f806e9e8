//! The capability a simulated entity offers to the runtime that hosts it.

use vstd::prelude::*;
use crate::logger::Lumi;
use crate::worlds::{Event, Message};
use crate::timewarp::antimessage::Annihilator;

verus! {

/// What handling one message produced.
pub enum HandlerOutput {
    /// A message to send, paired with the antimessage that would cancel it.
    Messages(Annihilator),
    /// A scheduling decision.
    Event(Event),
    /// Nothing observable.
    Nan,
}

/// A simulated entity. The runtime calls `step` when the entity's calendar says it is
/// due and `process_message` for every message that reaches it; both may read and
/// replace the state bytes held in `state`.
pub trait LogicalProcess: Send {
    /// Does one unit of work at `time` and says when to come back.
    fn step(&mut self, time: &u64, state: &mut Lumi) -> Event;

    /// Applies `msg` at `time`.
    fn process_message(&mut self, msg: Message, time: u64, state: &mut Lumi) -> HandlerOutput;
}

} // verus!
