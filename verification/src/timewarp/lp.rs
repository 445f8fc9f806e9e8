//! The runtime of one logical process: its local clock, its calendar, its input queue,
//! the logs it needs to undo work, and the rollback that a message from its past
//! sets off.

use vstd::prelude::*;
use crate::logger::{restore_point, Lumi, LumiView, SnapshotView};
use crate::worlds::{Action, Event, Message, MessageView, SimError};
use crate::timewarp::antimessage::AntiMessage;
use crate::timewarp::calendar::{first_due, window_of, Calendar};
use crate::timewarp::comms::{Comms, CommsView, Transferable};
use crate::timewarp::paragent::{HandlerOutput, LogicalProcess};

verus! {

/// The antimessage of a message that left the process, with the local time of sending.
#[derive(Debug, Clone, Copy, PartialEq, Eq, Structural)]
pub struct Sent {
    pub at: u64,
    pub anti: AntiMessage,
}

/// A message that the process has applied, with the local time of applying it.
#[derive(Debug, PartialEq, Eq)]
pub struct Applied {
    pub at: u64,
    pub message: Message,
}

/// What the hosted entity answered to a message.
#[derive(Debug, Clone, Copy, PartialEq, Eq, Structural)]
pub enum Reply {
    /// It sent a message; this is the antimessage that names it.
    Sent(AntiMessage),
    /// It made a scheduling decision.
    Scheduled(Event),
    /// It answered nothing.
    Nothing,
}

/// What one unit of local work consisted of.
#[derive(Debug, Clone, Copy, PartialEq, Eq, Structural)]
pub enum Work {
    /// The earliest pending message was applied.
    Applied(Reply),
    /// A due event fired and the entity was stepped; this is the event it returned.
    Stepped(Event),
    /// Nothing was due and the clock moved on.
    Ticked,
    /// Nothing was due and the clock has reached the terminal time.
    Idle,
}

/// How many of the most recent entries of `sent` were made after local time `t`.
pub open spec fn undone_sent(sent: Seq<Sent>, t: u64) -> nat
    decreases sent.len(),
{
    if sent.len() == 0 || sent.last().at <= t {
        0
    } else {
        1 + undone_sent(sent.drop_last(), t)
    }
}

/// How many of the most recent entries of `processed` were made after local time `t`.
pub open spec fn undone_applied(processed: Seq<Applied>, t: u64) -> nat
    decreases processed.len(),
{
    if processed.len() == 0 || processed.last().at <= t {
        0
    } else {
        1 + undone_applied(processed.drop_last(), t)
    }
}

/// Index of the first message of `pending`, from `from` on, that `anti` cancels;
/// `-1` when there is none.
pub open spec fn first_cancelled(pending: Seq<Message>, anti: AntiMessage, from: int) -> int
    decreases pending.len() - from,
{
    if from < 0 || from >= pending.len() {
        -1
    } else if anti.cancels(pending[from]@) {
        from
    } else {
        first_cancelled(pending, anti, from + 1)
    }
}

/// Index of the first entry of `processed`, from `from` on, whose message `anti`
/// cancels; `-1` when there is none.
pub open spec fn first_applied(processed: Seq<Applied>, anti: AntiMessage, from: int) -> int
    decreases processed.len() - from,
{
    if from < 0 || from >= processed.len() {
        -1
    } else if anti.cancels(processed[from].message@) {
        from
    } else {
        first_applied(processed, anti, from + 1)
    }
}

/// Index of the first antimessage of `orphans`, from `from` on, that cancels a message
/// with content `m`; `-1` when there is none.
pub open spec fn first_orphan(orphans: Seq<AntiMessage>, m: MessageView, from: int) -> int
    decreases orphans.len() - from,
{
    if from < 0 || from >= orphans.len() {
        -1
    } else if orphans[from].cancels(m) {
        from
    } else {
        first_orphan(orphans, m, from + 1)
    }
}

/// Index of the message with the least timestamp among the first `n` of `pending`,
/// the first of them where several share it; `-1` when `n` is not positive.
pub open spec fn earliest(pending: Seq<Message>, n: int) -> int
    decreases n,
{
    if n <= 0 {
        -1
    } else {
        let best = earliest(pending, n - 1);
        if best >= 0 && pending[best].timestamp <= pending[n - 1].timestamp {
            best
        } else {
            n - 1
        }
    }
}

/// The clock after one idle tick: it moves on by `timestep` and stops at `terminal`.
pub open spec fn clock_after(time: u64, timestep: u64, terminal: u64) -> u64 {
    if time >= terminal {
        time
    } else if time + timestep >= terminal {
        terminal
    } else {
        (time + timestep) as u64
    }
}

/// How many of `queued` waiting items a ring of `size` slots that holds `held` items
/// still takes.
pub open spec fn flushable(queued: nat, held: nat, size: nat) -> nat {
    if held >= size {
        0
    } else if queued <= size - held {
        queued
    } else {
        (size - held) as nat
    }
}

/// The antimessages of `entries` as wire items, in the same order.
pub open spec fn antimessages_of(entries: Seq<Sent>) -> Seq<Transferable> {
    Seq::new(entries.len(), |i: int| Transferable::AntiMessage(entries[i].anti))
}

/// The messages of `entries`, in the same order.
pub open spec fn messages_of(entries: Seq<Applied>) -> Seq<Message> {
    Seq::new(entries.len(), |i: int| entries[i].message)
}

/// The mathematical content of a process runtime.
pub struct LpView {
    /// The slot of the process in the table, which is its address.
    pub id: usize,
    /// How far an idle tick moves the clock.
    pub timestep: u64,
    /// The time at which the run ends.
    pub terminal: u64,
    /// The local virtual time.
    pub time: u64,
    /// The state bytes and their history.
    pub state: LumiView,
    /// The pending events.
    pub agenda: Seq<Event>,
    /// Messages received and not yet applied, in order of arrival.
    pub pending: Seq<Message>,
    /// Messages applied, oldest first.
    pub processed: Seq<Applied>,
    /// Antimessages of the messages sent, oldest first.
    pub sent: Seq<Sent>,
    /// Antimessages that arrived before the message they cancel.
    pub orphans: Seq<AntiMessage>,
    /// Items produced and not yet accepted by the staging ring, oldest first.
    pub outbox: Seq<Transferable>,
}

impl LpView {
    /// The runtime after the scheduling decision `event` has been taken in: a wake-up
    /// joins the agenda, a stop moves the clock to the terminal time, a wait changes
    /// nothing.
    pub open spec fn after_commit(self, event: Event) -> LpView {
        match event.action {
            Action::Timeout(_) | Action::Schedule(_) => LpView {
                agenda: self.agenda.push(event),
                ..self
            },
            Action::Wait => self,
            Action::Break => LpView {
                time: if self.time < self.terminal {
                    self.terminal
                } else {
                    self.time
                },
                ..self
            },
        }
    }

    /// The runtime after the answer `output` of a handler has been taken in: a message
    /// joins the outbox and its antimessage the log of sent messages, stamped with the
    /// local time; an event is committed.
    pub open spec fn after_output(self, output: HandlerOutput) -> LpView {
        match output {
            HandlerOutput::Messages(pair) => LpView {
                outbox: self.outbox.push(Transferable::Message(pair.message())),
                sent: self.sent.push(Sent { at: self.time, anti: pair.anti() }),
                ..self
            },
            HandlerOutput::Event(event) => self.after_commit(event),
            HandlerOutput::Nan => self,
        }
    }

    /// Whether the history reaches back to `time`.
    pub open spec fn can_rollback(self, time: u64) -> bool {
        restore_point(self.state.history, time) >= 0
    }

    /// The runtime after a rollback to `time`, where the history reaches that far: clock,
    /// state and agenda are those of the restore point; for every message sent after
    /// that point an antimessage joins the outbox, in the order of sending; every
    /// message applied after that point is pending again, in the order of applying.
    pub open spec fn after_rollback(self, time: u64) -> LpView {
        let snap = self.state.history[restore_point(self.state.history, time)];
        let kept_sent = self.sent.len() - undone_sent(self.sent, snap.time);
        let kept_applied = self.processed.len() - undone_applied(self.processed, snap.time);
        LpView {
            time: snap.time,
            state: self.state.after_restore(time),
            agenda: snap.agenda,
            sent: self.sent.subrange(0, kept_sent),
            outbox: self.outbox + antimessages_of(
                self.sent.subrange(kept_sent, self.sent.len() as int),
            ),
            processed: self.processed.subrange(0, kept_applied),
            pending: self.pending + messages_of(
                self.processed.subrange(kept_applied, self.processed.len() as int),
            ),
            ..self
        }
    }

    /// Whether the runtime can take in `item`. It cannot when that takes a rollback
    /// further back than the history reaches: for a message that is earlier than the
    /// clock and that no waiting antimessage cancels, and for an antimessage whose
    /// message has been applied already.
    pub open spec fn accepts(self, item: Transferable) -> bool {
        match item {
            Transferable::Message(m) => {
                ||| first_orphan(self.orphans, m@, 0) >= 0
                ||| m.timestamp >= self.time
                ||| self.can_rollback(m.timestamp)
            },
            Transferable::AntiMessage(a) => {
                let applied = first_applied(self.processed, a, 0);
                ||| first_cancelled(self.pending, a, 0) >= 0
                ||| applied < 0
                ||| (self.processed[applied].at > 0 && self.can_rollback(
                    (self.processed[applied].at - 1) as u64,
                ))
            },
        }
    }

    /// The runtime after it has taken in `item`, where it can.
    ///
    /// A message that a waiting antimessage cancels vanishes together with it. A
    /// message earlier than the clock rolls the runtime back to its timestamp before
    /// it joins the pending ones; any other message joins them at once.
    ///
    /// An antimessage removes the first pending message it cancels. Where that message
    /// has been applied already, the runtime first rolls back to before the time of
    /// applying it. Where the message has not arrived yet, the antimessage waits for it.
    pub open spec fn after_deliver(self, item: Transferable) -> LpView {
        match item {
            Transferable::Message(m) => {
                let orphan = first_orphan(self.orphans, m@, 0);
                if orphan >= 0 {
                    LpView { orphans: self.orphans.remove(orphan), ..self }
                } else if m.timestamp < self.time {
                    let back = self.after_rollback(m.timestamp);
                    LpView { pending: back.pending.push(m), ..back }
                } else {
                    LpView { pending: self.pending.push(m), ..self }
                }
            },
            Transferable::AntiMessage(a) => {
                let queued = first_cancelled(self.pending, a, 0);
                let applied = first_applied(self.processed, a, 0);
                if queued >= 0 {
                    LpView { pending: self.pending.remove(queued), ..self }
                } else if applied >= 0 {
                    let back = self.after_rollback((self.processed[applied].at - 1) as u64);
                    let again = first_cancelled(back.pending, a, 0);
                    if again >= 0 {
                        LpView { pending: back.pending.remove(again), ..back }
                    } else {
                        LpView { orphans: back.orphans.push(a), ..back }
                    }
                } else {
                    LpView { orphans: self.orphans.push(a), ..self }
                }
            },
        }
    }

    /// Index of the pending message to apply next: the earliest one, where its
    /// timestamp has been reached by the clock; `-1` where none is due.
    pub open spec fn due_message(self) -> int {
        let first = earliest(self.pending, self.pending.len() as int);
        if first >= 0 && self.pending[first].timestamp <= self.time {
            first
        } else {
            -1
        }
    }

    /// Index of the event to fire next among the `window` admitted ones; `-1` where
    /// none is due.
    pub open spec fn due_event(self, window: nat) -> int {
        first_due(self.agenda, window as int, self.time, 0)
    }

    /// Whether the most recent snapshot, where the history retains any, shows the
    /// runtime as it is now.
    pub open spec fn snapshot_current(self) -> bool {
        self.state.slots > 0 ==> self.state.history.len() > 0 && self.state.history.last() == (
        SnapshotView { time: self.time, state: self.state.state, agenda: self.agenda })
    }

    /// Whether `next` is this runtime after the pending message at `at` has been
    /// applied and the entity has answered `reply`. The message leaves the pending
    /// ones; the answer is taken in; a copy of the message joins the applied ones,
    /// stamped with the local time at which all that is done; a snapshot is recorded.
    /// The state bytes are the entity's business.
    pub open spec fn applies(self, next: LpView, at: int, reply: Reply) -> bool {
        let mid = LpView {
            pending: self.pending.remove(at),
            processed: next.processed,
            state: next.state,
            ..self
        };
        &&& next.processed.len() == self.processed.len() + 1
        &&& next.processed.drop_last() == self.processed
        &&& next.processed.last().at == next.time
        &&& next.processed.last().message@ == self.pending[at]@
        &&& match reply {
            Reply::Sent(anti) => {
                &&& next.outbox.len() == self.outbox.len() + 1
                &&& next.outbox.drop_last() == self.outbox
                &&& next.outbox.last() matches Transferable::Message(out) && anti.cancels(out@)
                &&& next == (LpView {
                    outbox: next.outbox,
                    sent: self.sent.push(Sent { at: self.time, anti }),
                    ..mid
                })
            },
            Reply::Scheduled(event) => next == mid.after_commit(event),
            Reply::Nothing => next == mid,
        }
        &&& next.snapshot_current()
    }

    /// Whether `next` is this runtime after the event at `at` has fired and the entity,
    /// stepped at the local time, has returned `event`. The fired event leaves the
    /// agenda; the returned one is committed; a snapshot is recorded. The state bytes
    /// are the entity's business.
    pub open spec fn steps(self, next: LpView, at: int, event: Event) -> bool {
        let mid = LpView { agenda: self.agenda.remove(at), state: next.state, ..self };
        next == mid.after_commit(event) && next.snapshot_current()
    }

    /// Whether `next` is this runtime after one unit of local work that consisted of
    /// `work`. A due message goes before a due event, and the clock moves only when
    /// neither is due.
    pub open spec fn advances(self, next: LpView, work: Work, window: nat) -> bool {
        let message = self.due_message();
        let event = self.due_event(window);
        if message >= 0 {
            work matches Work::Applied(reply) && self.applies(next, message, reply)
        } else if event >= 0 {
            work matches Work::Stepped(returned) && self.steps(next, event, returned)
        } else if self.time < self.terminal {
            work == Work::Ticked && next == self.after_clock()
        } else {
            work == Work::Idle && next == self
        }
    }

    /// How many items leave the outbox when it is flushed into a router with rings of
    /// `size` slots: as many as the staging ring of the process still takes.
    pub open spec fn flush_count(self, comms: CommsView, size: nat) -> nat {
        if self.id < comms.staging.len() {
            flushable(self.outbox.len(), comms.staging[self.id as int].len(), size)
        } else {
            0
        }
    }

    /// The runtime after a flush: the oldest items of the outbox have left.
    pub open spec fn after_flush(self, comms: CommsView, size: nat) -> LpView {
        LpView {
            outbox: self.outbox.subrange(
                self.flush_count(comms, size) as int,
                self.outbox.len() as int,
            ),
            ..self
        }
    }

    /// The router after a flush: the oldest items of the outbox stand, in their order,
    /// behind what the process had staged before.
    pub open spec fn flushed_into(self, comms: CommsView, size: nat) -> CommsView {
        if self.id < comms.staging.len() {
            CommsView {
                staging: comms.staging.update(
                    self.id as int,
                    comms.staging[self.id as int] + self.outbox.subrange(
                        0,
                        self.flush_count(comms, size) as int,
                    ),
                ),
                ..comms
            }
        } else {
            comms
        }
    }

    /// Whether `next`, `routed` and `outcome` are what one turn of the process loop
    /// leaves of this runtime and of the router `comms`. A turn flushes the outbox,
    /// then takes in the oldest item delivered to the process or, where nothing has
    /// been delivered, does one unit of local work.
    pub open spec fn turns(
        self,
        comms: CommsView,
        next: LpView,
        routed: CommsView,
        outcome: Result<Option<Work>, SimError>,
        size: nat,
        window: nat,
    ) -> bool {
        let flushed = self.after_flush(comms, size);
        let staged = self.flushed_into(comms, size);
        let me = self.id as int;
        if me < staged.inbound.len() && staged.inbound[me].len() > 0 {
            let item = staged.inbound[me][0];
            &&& routed == staged.after_receive(me)
            &&& if flushed.accepts(item) {
                outcome == Ok::<Option<Work>, SimError>(None) && next == flushed.after_deliver(item)
            } else {
                outcome == Err::<Option<Work>, SimError>(SimError::RollbackHorizonExceeded) && next
                    == flushed
            }
        } else {
            &&& routed == staged
            &&& outcome matches Ok(Some(work)) && flushed.advances(next, work, window)
        }
    }

    /// Whether the logs are in order: the stamps of either log never go back and
    /// never lie ahead of the clock; no message was applied before its timestamp; the
    /// applied messages follow each other by timestamp; and no pending message is
    /// earlier than an applied one.
    pub open spec fn in_order(self) -> bool {
        &&& forall|i: int, j: int|
            0 <= i <= j < self.sent.len() ==> (#[trigger] self.sent[i]).at <= (
            #[trigger] self.sent[j]).at
        &&& forall|i: int| 0 <= i < self.sent.len() ==> (#[trigger] self.sent[i]).at <= self.time
        &&& forall|i: int, j: int|
            0 <= i <= j < self.processed.len() ==> (#[trigger] self.processed[i]).at <= (
            #[trigger] self.processed[j]).at
        &&& forall|i: int|
            0 <= i < self.processed.len() ==> (#[trigger] self.processed[i]).at <= self.time
        &&& forall|i: int|
            0 <= i < self.processed.len() ==> (#[trigger] self.processed[i]).message.timestamp
                <= self.processed[i].at
        &&& forall|i: int, j: int|
            0 <= i <= j < self.processed.len() ==> (
            #[trigger] self.processed[i]).message.timestamp <= (
            #[trigger] self.processed[j]).message.timestamp
        &&& forall|i: int, k: int|
            0 <= i < self.processed.len() && 0 <= k < self.pending.len() ==> (
            #[trigger] self.processed[i]).message.timestamp <= (
            #[trigger] self.pending[k]).timestamp
    }

    /// The runtime after an idle tick.
    pub open spec fn after_clock(self) -> LpView {
        LpView { time: clock_after(self.time, self.timestep, self.terminal), ..self }
    }
}

/// The runtime of one logical process.
pub struct LP<const SLOTS: usize, const HEIGHT: usize, const SIZE: usize> {
    id: usize,
    process: Box<dyn LogicalProcess>,
    timestep: u64,
    terminal: u64,
    time: u64,
    state: Lumi,
    calendar: Calendar<SLOTS, HEIGHT>,
    pending: Vec<Message>,
    processed: Vec<Applied>,
    sent: Vec<Sent>,
    orphans: Vec<AntiMessage>,
    outbox: Vec<Transferable>,
}

impl<const SLOTS: usize, const HEIGHT: usize, const SIZE: usize> View for LP<SLOTS, HEIGHT, SIZE> {
    type V = LpView;

    closed spec fn view(&self) -> LpView {
        LpView {
            id: self.id,
            timestep: self.timestep,
            terminal: self.terminal,
            time: self.time,
            state: self.state@,
            agenda: self.calendar@,
            pending: self.pending@,
            processed: self.processed@,
            sent: self.sent@,
            orphans: self.orphans@,
            outbox: self.outbox@,
        }
    }
}

impl<const SLOTS: usize, const HEIGHT: usize, const SIZE: usize> LP<SLOTS, HEIGHT, SIZE> {
    /// The content of a runtime right after its creation: the clock is at zero, one
    /// wake-up is due at once, and the history holds the state of that moment.
    pub open spec fn initial(id: usize, timestep: u64, log_slots: usize) -> LpView {
        let wake = Event { scheduled_at: 0, due_at: 0, owner: id, action: Action::Schedule(0) };
        LpView {
            id,
            timestep,
            terminal: 0,
            time: 0,
            state: (LumiView {
                slots: log_slots as nat,
                state: Seq::<u8>::empty(),
                history: Seq::empty(),
            }).after_record(0, seq![wake]),
            agenda: seq![wake],
            pending: Seq::empty(),
            processed: Seq::empty(),
            sent: Seq::empty(),
            orphans: Seq::empty(),
            outbox: Seq::empty(),
        }
    }

    /// A runtime starts with its logs in order.
    pub proof fn lemma_initial_in_order(id: usize, timestep: u64, log_slots: usize)
        ensures
            Self::initial(id, timestep, log_slots).in_order(),
    {
    }

    /// A runtime for `process` in slot `id`, whose idle clock moves by `timestep` and
    /// whose history retains `log_slots` snapshots.
    pub fn new(id: usize, process: Box<dyn LogicalProcess>, timestep: u64, log_slots: usize) -> (lp:
        Self)
        ensures
            lp@ == Self::initial(id, timestep, log_slots),
    {
        let wake = Event::new(0, 0, id, Action::Schedule(0));
        let mut calendar = Calendar::new();
        calendar.schedule(wake);
        let mut state = Lumi::new(log_slots);
        state.record(0, calendar.agenda());
        LP {
            id,
            process,
            timestep,
            terminal: 0,
            time: 0,
            state,
            calendar,
            pending: Vec::new(),
            processed: Vec::new(),
            sent: Vec::new(),
            orphans: Vec::new(),
            outbox: Vec::new(),
        }
    }

    /// Sets the time at which the run ends.
    pub fn set_terminal(&mut self, terminal: u64)
        ensures
            final(self)@ == (LpView { terminal, ..old(self)@ }),
    {
        self.terminal = terminal;
    }

    /// The slot of the process.
    pub fn id(&self) -> (id: usize)
        ensures
            id == self@.id,
    {
        self.id
    }

    /// The local virtual time, as the coordinator gets to see it.
    pub fn time(&self) -> (time: u64)
        ensures
            time == self@.time,
    {
        self.time
    }

    /// Whether the clock has reached the terminal time.
    pub fn is_finished(&self) -> (done: bool)
        ensures
            done == (self@.time >= self@.terminal),
    {
        self.time >= self.terminal
    }

    /// The state bytes and their history.
    pub fn state(&self) -> (state: &Lumi)
        ensures
            state@ == self@.state,
    {
        &self.state
    }

    /// How many messages wait to be applied.
    pub fn pending_len(&self) -> (n: usize)
        ensures
            n == self@.pending.len(),
    {
        self.pending.len()
    }

    /// How many events are on the agenda.
    pub fn agenda_len(&self) -> (n: usize)
        ensures
            n == self@.agenda.len(),
    {
        self.calendar.len()
    }

    /// How many sent messages could still be cancelled.
    pub fn sent_len(&self) -> (n: usize)
        ensures
            n == self@.sent.len(),
    {
        self.sent.len()
    }

    /// How many antimessages wait for their message.
    pub fn orphans_len(&self) -> (n: usize)
        ensures
            n == self@.orphans.len(),
    {
        self.orphans.len()
    }

    /// How many produced items wait for room in the staging ring.
    pub fn outbox_len(&self) -> (n: usize)
        ensures
            n == self@.outbox.len(),
    {
        self.outbox.len()
    }

    /// The timestamps of the messages applied, in the order of applying.
    pub fn processed_timestamps(&self) -> (stamps: Vec<u64>)
        ensures
            stamps@ == Seq::new(
                self@.processed.len(),
                |i: int| self@.processed[i].message.timestamp,
            ),
    {
        let mut stamps: Vec<u64> = Vec::new();
        let mut i: usize = 0;
        while i < self.processed.len()
            invariant
                i <= self.processed@.len(),
                stamps@ == Seq::new(i as nat, |k: int| self@.processed[k].message.timestamp),
            decreases self.processed@.len() - i,
        {
            stamps.push(self.processed[i].message.timestamp);
            i = i + 1;
        }
        stamps
    }

    /// Undoes everything the process did after the most recent snapshot taken at or
    /// before `time`. Fails, leaving the runtime as it is, when the history does not
    /// reach that far back.
    pub fn rollback(&mut self, time: u64) -> (res: Result<(), SimError>)
        ensures
            res is Ok <==> old(self)@.can_rollback(time),
            res is Ok ==> final(self)@ == old(self)@.after_rollback(time),
            res is Err ==> final(self)@ == old(self)@ && res->Err_0
                == SimError::RollbackHorizonExceeded,
    {
        let (restored, agenda) = match self.state.restore(time) {
            Ok(found) => found,
            Err(e) => {
                return Err(e);
            },
        };
        self.time = restored;
        self.calendar.restore(agenda);
        self.unsend(restored);
        self.unapply(restored);
        Ok(())
    }

    /// Emits an antimessage for every message sent after local time `time`, in the
    /// order of sending, and forgets those messages.
    fn unsend(&mut self, time: u64)
        ensures
            final(self)@ == ({
                let was = old(self)@;
                let kept = was.sent.len() - undone_sent(was.sent, time);
                LpView {
                    sent: was.sent.subrange(0, kept),
                    outbox: was.outbox + antimessages_of(
                        was.sent.subrange(kept, was.sent.len() as int),
                    ),
                    ..was
                }
            }),
    {
        let ghost was = self@;
        let n = self.sent.len();
        let mut kept: usize = n;
        assert(was.sent.subrange(0, n as int) =~= was.sent);
        while kept > 0 && self.sent[kept - 1].at > time
            invariant
                n == was.sent.len(),
                kept <= n,
                self@ == was,
                undone_sent(was.sent, time) == (n - kept) + undone_sent(
                    was.sent.subrange(0, kept as int),
                    time,
                ),
            decreases kept,
        {
            proof {
                let cut = was.sent.subrange(0, kept as int);
                assert(cut.drop_last() =~= was.sent.subrange(0, kept - 1));
            }
            kept = kept - 1;
        }
        let mut j: usize = kept;
        while j < n
            invariant
                n == was.sent.len(),
                kept <= j <= n,
                self@ == (LpView {
                    outbox: was.outbox + antimessages_of(was.sent.subrange(kept as int, j as int)),
                    ..was
                }),
            decreases n - j,
        {
            let anti = self.sent[j].anti;
            self.outbox.push(Transferable::AntiMessage(anti));
            assert(was.outbox + antimessages_of(was.sent.subrange(kept as int, j + 1))
                =~= (was.outbox + antimessages_of(was.sent.subrange(kept as int, j as int))).push(
                Transferable::AntiMessage(anti),
            ));
            j = j + 1;
        }
        self.sent.truncate(kept);
    }

    /// Puts every message applied after local time `time` back among the pending ones,
    /// in the order of applying.
    fn unapply(&mut self, time: u64)
        ensures
            final(self)@ == ({
                let was = old(self)@;
                let kept = was.processed.len() - undone_applied(was.processed, time);
                LpView {
                    processed: was.processed.subrange(0, kept),
                    pending: was.pending + messages_of(
                        was.processed.subrange(kept, was.processed.len() as int),
                    ),
                    ..was
                }
            }),
    {
        let ghost was = self@;
        let n = self.processed.len();
        let mut kept: usize = n;
        assert(was.processed.subrange(0, n as int) =~= was.processed);
        while kept > 0 && self.processed[kept - 1].at > time
            invariant
                n == was.processed.len(),
                kept <= n,
                self@ == was,
                undone_applied(was.processed, time) == (n - kept) + undone_applied(
                    was.processed.subrange(0, kept as int),
                    time,
                ),
            decreases kept,
        {
            proof {
                let cut = was.processed.subrange(0, kept as int);
                assert(cut.drop_last() =~= was.processed.subrange(0, kept - 1));
            }
            kept = kept - 1;
        }
        let mut moved: usize = 0;
        while kept < self.processed.len()
            invariant
                n == was.processed.len(),
                kept + moved <= n,
                self.processed@.len() + moved == n,
                self.processed@ == was.processed.subrange(0, kept as int) + was.processed.subrange(
                    kept + moved,
                    n as int,
                ),
                self@ == (LpView {
                    processed: self.processed@,
                    pending: was.pending + messages_of(
                        was.processed.subrange(kept as int, kept + moved),
                    ),
                    ..was
                }),
            decreases self.processed@.len() - kept,
        {
            let entry = self.processed.remove(kept);
            self.pending.push(entry.message);
            assert(was.pending + messages_of(was.processed.subrange(kept as int, kept + moved + 1))
                =~= (was.pending + messages_of(
                was.processed.subrange(kept as int, kept + moved),
            )).push(entry.message));
            moved = moved + 1;
        }
    }

    /// Position of the first waiting antimessage that cancels `message`.
    fn find_orphan(&self, message: &Message) -> (found: Option<usize>)
        ensures
            found is Some <==> first_orphan(self@.orphans, message@, 0) >= 0,
            found is Some ==> found->0 == first_orphan(self@.orphans, message@, 0) && found->0
                < self@.orphans.len(),
    {
        let mut i: usize = 0;
        while i < self.orphans.len()
            invariant
                i <= self.orphans@.len(),
                first_orphan(self@.orphans, message@, 0) == first_orphan(
                    self@.orphans,
                    message@,
                    i as int,
                ),
            decreases self.orphans@.len() - i,
        {
            if self.orphans[i].annihilates(message) {
                return Some(i);
            }
            i = i + 1;
        }
        None
    }

    /// Position of the first pending message that `anti` cancels.
    fn find_pending(&self, anti: &AntiMessage) -> (found: Option<usize>)
        ensures
            found is Some <==> first_cancelled(self@.pending, *anti, 0) >= 0,
            found is Some ==> found->0 == first_cancelled(self@.pending, *anti, 0) && found->0
                < self@.pending.len(),
    {
        let mut i: usize = 0;
        while i < self.pending.len()
            invariant
                i <= self.pending@.len(),
                first_cancelled(self@.pending, *anti, 0) == first_cancelled(
                    self@.pending,
                    *anti,
                    i as int,
                ),
            decreases self.pending@.len() - i,
        {
            if anti.annihilates(&self.pending[i]) {
                return Some(i);
            }
            i = i + 1;
        }
        None
    }

    /// Position of the first applied message that `anti` cancels.
    fn find_applied(&self, anti: &AntiMessage) -> (found: Option<usize>)
        ensures
            found is Some <==> first_applied(self@.processed, *anti, 0) >= 0,
            found is Some ==> found->0 == first_applied(self@.processed, *anti, 0) && found->0
                < self@.processed.len(),
    {
        let mut i: usize = 0;
        while i < self.processed.len()
            invariant
                i <= self.processed@.len(),
                first_applied(self@.processed, *anti, 0) == first_applied(
                    self@.processed,
                    *anti,
                    i as int,
                ),
            decreases self.processed@.len() - i,
        {
            if anti.annihilates(&self.processed[i].message) {
                return Some(i);
            }
            i = i + 1;
        }
        None
    }

    /// Takes in one item that the router delivered. Fails, leaving the runtime as it
    /// is, when the item calls for a rollback beyond the retained history.
    pub fn deliver(&mut self, item: Transferable) -> (res: Result<(), SimError>)
        ensures
            res is Ok <==> old(self)@.accepts(item),
            res is Ok ==> final(self)@ == old(self)@.after_deliver(item),
            res is Err ==> final(self)@ == old(self)@ && res->Err_0
                == SimError::RollbackHorizonExceeded,
    {
        match item {
            Transferable::Message(message) => {
                match self.find_orphan(&message) {
                    Some(at) => {
                        let _ = self.orphans.remove(at);
                    },
                    None => {
                        if message.timestamp < self.time {
                            match self.rollback(message.timestamp) {
                                Ok(()) => {},
                                Err(e) => {
                                    return Err(e);
                                },
                            }
                        }
                        self.pending.push(message);
                    },
                }
            },
            Transferable::AntiMessage(anti) => {
                match self.find_pending(&anti) {
                    Some(at) => {
                        let _ = self.pending.remove(at);
                    },
                    None => {
                        match self.find_applied(&anti) {
                            Some(at) => {
                                let stamp = self.processed[at].at;
                                if stamp == 0 {
                                    return Err(SimError::RollbackHorizonExceeded);
                                }
                                match self.rollback(stamp - 1) {
                                    Ok(()) => {},
                                    Err(e) => {
                                        return Err(e);
                                    },
                                }
                                match self.find_pending(&anti) {
                                    Some(again) => {
                                        let _ = self.pending.remove(again);
                                    },
                                    None => {
                                        self.orphans.push(anti);
                                    },
                                }
                            },
                            None => {
                                self.orphans.push(anti);
                            },
                        }
                    },
                }
            },
        }
        Ok(())
    }

    /// Position of the pending message to apply next, if one is due.
    fn find_due(&self) -> (found: Option<usize>)
        ensures
            found is Some <==> self@.due_message() >= 0,
            found is Some ==> found->0 == self@.due_message() && found->0 < self@.pending.len(),
    {
        if self.pending.len() == 0 {
            return None;
        }
        let mut best: usize = 0;
        let mut i: usize = 1;
        assert(earliest(self@.pending, 0) == -1);
        while i < self.pending.len()
            invariant
                1 <= i <= self.pending@.len(),
                best < i,
                best == earliest(self@.pending, i as int),
            decreases self.pending@.len() - i,
        {
            if self.pending[i].timestamp < self.pending[best].timestamp {
                best = i;
            }
            i = i + 1;
        }
        if self.pending[best].timestamp <= self.time {
            Some(best)
        } else {
            None
        }
    }

    /// Does one unit of local work: applies the earliest pending message if it is due,
    /// else fires the first due event and steps the entity, else moves the clock on
    /// toward the terminal time.
    pub fn advance(&mut self) -> (work: Work)
        ensures
            old(self)@.advances(
                final(self)@,
                work,
                window_of(SLOTS as nat, HEIGHT as nat),
            ),
    {
        let ghost was = self@;
        match self.find_due() {
            Some(at) => {
                let message = self.pending.remove(at);
                let copy = message.duplicate();
                let output = self.process.process_message(message, self.time, &mut self.state);
                let reply = self.apply_output(output);
                self.processed.push(Applied { at: self.time, message: copy });
                self.state.record(self.time, self.calendar.agenda());
                proof {
                    assert(self@.processed.drop_last() =~= was.processed);
                    match reply {
                        Reply::Sent(anti) => {
                            assert(self@.outbox.drop_last() =~= was.outbox);
                        },
                        _ => {},
                    }
                }
                Work::Applied(reply)
            },
            None => {
                match self.calendar.pop_due(self.time) {
                    Some(_fired) => {
                        let now = self.time;
                        let event = self.process.step(&now, &mut self.state);
                        self.commit(event);
                        self.state.record(self.time, self.calendar.agenda());
                        Work::Stepped(event)
                    },
                    None => {
                        if self.time < self.terminal {
                            let gap = self.terminal - self.time;
                            if self.timestep >= gap {
                                self.time = self.terminal;
                            } else {
                                self.time = self.time + self.timestep;
                            }
                            Work::Ticked
                        } else {
                            Work::Idle
                        }
                    },
                }
            },
        }
    }

    /// Moves items from the outbox into the staging ring of the process, oldest first,
    /// until the outbox is empty or the ring refuses one.
    pub fn flush<const LPS: usize>(&mut self, comms: &mut Comms<LPS, SIZE>)
        ensures
            final(self)@ == old(self)@.after_flush(old(comms)@, SIZE as nat),
            final(comms)@ == old(self)@.flushed_into(old(comms)@, SIZE as nat),
    {
        let ghost was = self@;
        let ghost router = comms@;
        let me = self.id;
        let held = comms.staging_len(me);
        let mut moved: usize = 0;
        let mut open = true;
        assert(was.outbox.subrange(0, was.outbox.len() as int) =~= was.outbox);
        while open && self.outbox.len() > 0
            invariant
                me == was.id,
                moved <= was.outbox.len(),
                self@ == (LpView {
                    outbox: was.outbox.subrange(moved as int, was.outbox.len() as int),
                    ..was
                }),
                comms@.inbound == router.inbound,
                comms@.staging.len() == router.staging.len(),
                me >= router.staging.len() ==> comms@ == router && moved == 0,
                me < router.staging.len() ==> {
                    &&& held == router.staging[me as int].len()
                    &&& held + moved <= SIZE
                    &&& comms@.staging == router.staging.update(
                        me as int,
                        router.staging[me as int] + was.outbox.subrange(0, moved as int),
                    )
                },
                !open ==> (me >= router.staging.len() || held + moved == SIZE),
            decreases self.outbox@.len() + (if open { 1int } else { 0int }),
        {
            let item = self.outbox.remove(0);
            match comms.send(me, item) {
                Ok(()) => {
                    proof {
                        assert(was.outbox.subrange(0, moved + 1) =~= was.outbox.subrange(
                            0,
                            moved as int,
                        ).push(item));
                        assert(self@.outbox =~= was.outbox.subrange(
                            moved + 1,
                            was.outbox.len() as int,
                        ));
                    }
                    moved = moved + 1;
                },
                Err(back) => {
                    self.outbox.insert(0, back);
                    assert(self@.outbox =~= was.outbox.subrange(
                        moved as int,
                        was.outbox.len() as int,
                    ));
                    open = false;
                },
            }
        }
    }

    /// One turn of the process loop against the router: flushes the outbox, then takes
    /// in the oldest item delivered to the process or, where nothing has been
    /// delivered, does one unit of local work. Reports the work done, nothing after a
    /// delivery, or the rollback that could not be made.
    pub fn tick<const LPS: usize>(&mut self, comms: &mut Comms<LPS, SIZE>) -> (outcome: Result<
        Option<Work>,
        SimError,
    >)
        ensures
            old(self)@.turns(
                old(comms)@,
                final(self)@,
                final(comms)@,
                outcome,
                SIZE as nat,
                window_of(SLOTS as nat, HEIGHT as nat),
            ),
    {
        self.flush(comms);
        let ghost staged = comms@;
        match comms.receive(self.id) {
            Ok(item) => {
                match self.deliver(item) {
                    Ok(()) => Ok(None),
                    Err(e) => Err(e),
                }
            },
            Err(_) => {
                assert(comms@.inbound =~= staged.inbound);
                Ok(Some(self.advance()))
            },
        }
    }

    /// Takes in a scheduling decision of the hosted entity.
    pub fn commit(&mut self, event: Event)
        ensures
            final(self)@ == old(self)@.after_commit(event),
    {
        match event.action {
            Action::Timeout(_) | Action::Schedule(_) => {
                self.calendar.schedule(event);
            },
            Action::Wait => {},
            Action::Break => {
                if self.time < self.terminal {
                    self.time = self.terminal;
                }
            },
        }
    }

    /// Takes in what a handler answered and says what that was.
    pub fn apply_output(&mut self, output: HandlerOutput) -> (reply: Reply)
        ensures
            final(self)@ == old(self)@.after_output(output),
            reply == match output {
                HandlerOutput::Messages(pair) => Reply::Sent(pair.anti()),
                HandlerOutput::Event(event) => Reply::Scheduled(event),
                HandlerOutput::Nan => Reply::Nothing,
            },
    {
        match output {
            HandlerOutput::Messages(pair) => {
                let (message, anti) = pair.split();
                self.outbox.push(Transferable::Message(message));
                self.sent.push(Sent { at: self.time, anti });
                Reply::Sent(anti)
            },
            HandlerOutput::Event(event) => {
                self.commit(event);
                Reply::Scheduled(event)
            },
            HandlerOutput::Nan => Reply::Nothing,
        }
    }
}

} // verus!
