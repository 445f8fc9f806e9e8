//! The event calendar of one process. It admits `SLOTS * HEIGHT` events at a time;
//! whatever is scheduled beyond that waits in line until earlier events have fired.

use vstd::prelude::*;
use crate::worlds::Event;
use crate::logger::copy_events;

verus! {

/// How many events a calendar of `slots` by `height` admits at a time.
pub open spec fn window_of(slots: nat, height: nat) -> nat {
    if slots * height <= usize::MAX {
        slots * height
    } else {
        usize::MAX as nat
    }
}

/// Index of the first of the leading `limit` events of `events`, counted from `from`,
/// that is due at `now`; `-1` when none of them is.
pub open spec fn first_due(events: Seq<Event>, limit: int, now: u64, from: int) -> int
    decreases limit - from,
{
    if from >= limit || from >= events.len() {
        -1
    } else if events[from].due_at <= now {
        from
    } else {
        first_due(events, limit, now, from + 1)
    }
}

/// `first_due` names a due event among the admitted ones and nothing before it is due;
/// it is `-1` exactly when no admitted event from `from` on is due.
pub proof fn lemma_first_due(events: Seq<Event>, limit: int, now: u64, from: int)
    requires
        0 <= from,
    ensures
        ({
            let k = first_due(events, limit, now, from);
            &&& (k == -1 || (from <= k < limit && k < events.len()))
            &&& (k >= 0 ==> events[k].due_at <= now)
            &&& forall|j: int|
                from <= j < limit && j < events.len() && (k == -1 || j < k) ==> (
                #[trigger] events[j]).due_at > now
        }),
    decreases limit - from,
{
    if from < limit && from < events.len() && events[from].due_at > now {
        lemma_first_due(events, limit, now, from + 1);
    }
}

/// A calendar of pending events in the order in which they were scheduled.
pub struct Calendar<const SLOTS: usize, const HEIGHT: usize> {
    events: Vec<Event>,
}

impl<const SLOTS: usize, const HEIGHT: usize> View for Calendar<SLOTS, HEIGHT> {
    type V = Seq<Event>;

    closed spec fn view(&self) -> Seq<Event> {
        self.events@
    }
}

impl<const SLOTS: usize, const HEIGHT: usize> Calendar<SLOTS, HEIGHT> {
    /// An empty calendar.
    pub fn new() -> (calendar: Self)
        ensures
            calendar@ == Seq::<Event>::empty(),
    {
        Calendar { events: Vec::new() }
    }

    /// How many events are admitted at a time.
    pub fn window() -> (n: usize)
        ensures
            n == window_of(SLOTS as nat, HEIGHT as nat),
    {
        match SLOTS.checked_mul(HEIGHT) {
            Some(n) => n,
            None => usize::MAX,
        }
    }

    /// How many events are pending, admitted or not.
    pub fn len(&self) -> (n: usize)
        ensures
            n == self@.len(),
    {
        self.events.len()
    }

    /// Puts `event` behind the pending ones.
    pub fn schedule(&mut self, event: Event)
        ensures
            final(self)@ == old(self)@.push(event),
    {
        self.events.push(event);
    }

    /// Takes the first admitted event that is due at `now`, if there is one.
    pub fn pop_due(&mut self, now: u64) -> (fired: Option<Event>)
        ensures
            ({
                let k = first_due(
                    old(self)@,
                    window_of(SLOTS as nat, HEIGHT as nat) as int,
                    now,
                    0,
                );
                &&& fired is Some <==> k >= 0
                &&& k >= 0 ==> fired == Some(old(self)@[k]) && final(self)@ == old(self)@.remove(k)
                &&& k < 0 ==> final(self)@ == old(self)@
            }),
    {
        let limit = Self::window();
        let mut i: usize = 0;
        while i < limit && i < self.events.len()
            invariant
                limit == window_of(SLOTS as nat, HEIGHT as nat),
                self.events@ == old(self).events@,
                first_due(old(self)@, limit as int, now, 0) == first_due(
                    old(self)@,
                    limit as int,
                    now,
                    i as int,
                ),
            decreases self.events@.len() - i,
        {
            if self.events[i].due_at <= now {
                let event = self.events.remove(i);
                return Some(event);
            }
            i = i + 1;
        }
        None
    }

    /// A copy of the pending events.
    pub fn agenda(&self) -> (events: Vec<Event>)
        ensures
            events@ == self@,
    {
        copy_events(&self.events)
    }

    /// Replaces the pending events.
    pub fn restore(&mut self, agenda: Vec<Event>)
        ensures
            final(self)@ == agenda@,
    {
        self.events = agenda;
    }
}

} // verus!
