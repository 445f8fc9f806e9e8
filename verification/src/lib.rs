//! A discrete-event simulation core in the Time Warp style: logical processes advance
//! their own virtual clocks optimistically, exchange messages through fixed-capacity
//! rings, and undo work when a message arrives in their past.

use vstd::prelude::*;
use crate::logger::Lumi;
use crate::timewarp::antimessage::Annihilator;
use crate::timewarp::paragent::{HandlerOutput, LogicalProcess};
use crate::worlds::{Action, Event, Message};

pub mod logger;
pub mod timewarp;
pub mod worlds;

verus! {

/// The time one unit after `time`, where the clock can still count that far.
pub open spec fn next_time(time: u64) -> u64 {
    if time < u64::MAX {
        (time + 1) as u64
    } else {
        time
    }
}

/// An entity that asks to be woken again one time unit after every step.
pub struct TestAgent {
    pub id: usize,
    pub name: String,
}

impl TestAgent {
    pub fn new(id: usize, name: String) -> (agent: Self)
        ensures
            agent.id == id,
            agent.name == name,
    {
        TestAgent { id, name }
    }

    /// The agent keeps no state of its own.
    pub fn get_state(&self) -> (state: Option<&[u8]>)
        ensures
            state is None,
    {
        None
    }
}

impl LogicalProcess for TestAgent {
    fn step(&mut self, time: &u64, state: &mut Lumi) -> (event: Event)
        ensures
            event == (Event {
                scheduled_at: *time,
                due_at: next_time(*time),
                owner: old(self).id,
                action: Action::Timeout(1),
            }),
            *final(self) == *old(self),
            *final(state) == *old(state),
    {
        let due = if *time < u64::MAX {
            *time + 1
        } else {
            *time
        };
        Event::new(*time, due, self.id, Action::Timeout(1))
    }

    fn process_message(&mut self, msg: Message, time: u64, state: &mut Lumi) -> (output:
        HandlerOutput)
        ensures
            output is Nan,
            *final(self) == *old(self),
            *final(state) == *old(state),
    {
        HandlerOutput::Nan
    }
}

/// An entity that does one step and then waits.
pub struct SingleStepAgent {
    pub id: usize,
    pub name: String,
}

impl SingleStepAgent {
    pub fn new(id: usize, name: String) -> (agent: Self)
        ensures
            agent.id == id,
            agent.name == name,
    {
        SingleStepAgent { id, name }
    }

    /// The agent keeps no state of its own.
    pub fn get_state(&self) -> (state: Option<&[u8]>)
        ensures
            state is None,
    {
        None
    }
}

impl LogicalProcess for SingleStepAgent {
    fn step(&mut self, time: &u64, state: &mut Lumi) -> (event: Event)
        ensures
            event == (Event {
                scheduled_at: *time,
                due_at: *time,
                owner: old(self).id,
                action: Action::Wait,
            }),
            *final(self) == *old(self),
            *final(state) == *old(state),
    {
        Event::new(*time, *time, self.id, Action::Wait)
    }

    fn process_message(&mut self, msg: Message, time: u64, state: &mut Lumi) -> (output:
        HandlerOutput)
        ensures
            output is Nan,
            *final(self) == *old(self),
            *final(state) == *old(state),
    {
        HandlerOutput::Nan
    }
}

/// The bytes of the greeting a `MessengerAgent` sends.
pub open spec fn greeting() -> Seq<u8> {
    seq![72u8, 101u8, 108u8, 108u8, 111u8]
}

/// An entity that waits for messages and answers each of them with a greeting to the
/// process in slot 1, to be applied one time unit later.
pub struct MessengerAgent {
    pub id: usize,
    pub name: String,
}

impl MessengerAgent {
    pub fn new(id: usize, name: String) -> (agent: Self)
        ensures
            agent.id == id,
            agent.name == name,
    {
        MessengerAgent { id, name }
    }

    /// The agent keeps no state of its own.
    pub fn get_state(&self) -> (state: Option<&[u8]>)
        ensures
            state is None,
    {
        None
    }
}

impl LogicalProcess for MessengerAgent {
    fn step(&mut self, time: &u64, state: &mut Lumi) -> (event: Event)
        ensures
            event == (Event {
                scheduled_at: *time,
                due_at: *time,
                owner: old(self).id,
                action: Action::Wait,
            }),
            *final(self) == *old(self),
            *final(state) == *old(state),
    {
        Event::new(*time, *time, self.id, Action::Wait)
    }

    fn process_message(&mut self, msg: Message, time: u64, state: &mut Lumi) -> (output:
        HandlerOutput)
        ensures
            time < u64::MAX ==> output is Messages && output->Messages_0.message()@ == (
            crate::worlds::MessageView {
                payload: greeting(),
                timestamp: (time + 1) as u64,
                sender: old(self).id,
                destination: 1,
            }),
            time == u64::MAX ==> output is Nan,
            *final(self) == *old(self),
            *final(state) == *old(state),
    {
        if time == u64::MAX {
            return HandlerOutput::Nan;
        }
        let mut payload: Vec<u8> = Vec::new();
        payload.push(72);
        payload.push(101);
        payload.push(108);
        payload.push(108);
        payload.push(111);
        assert(payload@ =~= greeting());
        let reply = Message::new(payload, time + 1, self.id, 1);
        HandlerOutput::Messages(Annihilator::new(reply))
    }
}

} // verus!
