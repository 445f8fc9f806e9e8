//! The coordinator: it registers the logical processes, assembles their rings into the
//! router, relays what they emit, keeps what a full ring refused until it fits, and
//! derives global virtual time from the clocks the processes publish.

use vstd::prelude::*;
use crate::worlds::SimError;
use crate::timewarp::calendar::window_of;
use crate::timewarp::comms::{after_read, CircularBuffer, Comms, CommsView, Transferable};
use crate::timewarp::lp::{flushable, LpView, Work, LP};
use crate::timewarp::paragent::LogicalProcess;

verus! {

/// Where a run stands.
#[derive(Debug, Clone, Copy, PartialEq, Eq, Structural)]
pub enum Phase {
    /// Processes are being registered; the router does not exist yet.
    Initializing,
    /// The router exists and global virtual time is short of the terminal time.
    Running,
    /// Global virtual time has reached the terminal time.
    Terminated,
}

/// The least of the published clocks in `times`, or nothing where none is published.
pub open spec fn min_time(times: Seq<Option<u64>>) -> Option<u64>
    decreases times.len(),
{
    if times.len() == 0 {
        None
    } else {
        match (min_time(times.drop_last()), times.last()) {
            (None, last) => last,
            (Some(least), None) => Some(least),
            (Some(least), Some(last)) => Some(
                if last < least {
                    last
                } else {
                    least
                },
            ),
        }
    }
}

/// Global virtual time over the published clocks `times`: the least of them, and zero
/// where none is published.
pub open spec fn gvt_of(times: Seq<Option<u64>>) -> u64 {
    match min_time(times) {
        Some(least) => least,
        None => 0,
    }
}

/// The `k` most recent items of `queue`, the most recent first.
pub open spec fn popped(queue: Seq<Transferable>, k: nat) -> Seq<Transferable> {
    Seq::new(k, |j: int| queue[queue.len() - 1 - j])
}

/// Index of the first item of `items`, from `from` on, that is addressed outside a
/// table of `slots` slots; `-1` when there is none.
pub open spec fn first_unroutable(items: Seq<Transferable>, slots: nat, from: int) -> int
    decreases items.len() - from,
{
    if from < 0 || from >= items.len() {
        -1
    } else if items[from].spec_to() >= slots {
        from
    } else {
        first_unroutable(items, slots, from + 1)
    }
}

/// The rings toward the processes and the overflow queues, which together hold what is
/// on its way to each process.
pub struct Lanes {
    pub inbound: Seq<Seq<Transferable>>,
    pub overflow: Seq<Seq<Transferable>>,
}

impl Lanes {
    /// The lanes after `item` has been placed: in the ring toward its destination where
    /// that ring has a free slot among its `size`, else behind the overflow of that
    /// destination.
    pub open spec fn place(self, item: Transferable, size: nat) -> Lanes {
        let dest = item.spec_to() as int;
        if self.inbound[dest].len() < size {
            Lanes { inbound: self.inbound.update(dest, self.inbound[dest].push(item)), ..self }
        } else {
            Lanes { overflow: self.overflow.update(dest, self.overflow[dest].push(item)), ..self }
        }
    }

    /// The lanes after `items` have been placed one after the other.
    pub open spec fn place_all(self, items: Seq<Transferable>, size: nat) -> Lanes
        decreases items.len(),
    {
        if items.len() == 0 {
            self
        } else {
            self.place_all(items.drop_last(), size).place(items.last(), size)
        }
    }
}

/// The contents of the overflow queues, by process.
pub open spec fn queues_of(queues: Seq<Vec<Transferable>>) -> Seq<Seq<Transferable>> {
    Seq::new(queues.len(), |i: int| queues[i]@)
}

/// Whether every queued item waits in the queue of the process it is addressed to.
pub open spec fn addressed(overflow: Seq<Seq<Transferable>>) -> bool {
    forall|i: int, j: int|
        0 <= i < overflow.len() && 0 <= j < overflow[i].len() ==> (
        #[trigger] overflow[i][j]).spec_to() == i
}

/// The mathematical content of a coordinator.
pub struct GvtView {
    /// Global virtual time as last derived.
    pub global_time: u64,
    /// The time at which the run ends.
    pub terminal: u64,
    /// The clock each process has published, by slot.
    pub local_times: Seq<Option<u64>>,
    /// How many processes have been registered.
    pub registered: nat,
    /// How many pairs of rings wait to be assembled into the router.
    pub loaded: nat,
    /// The router, once assembled.
    pub comms: Option<CommsView>,
    /// The process in each slot.
    pub lps: Seq<Option<LpView>>,
    /// What a full ring toward each process refused, oldest refusal first.
    pub overflow: Seq<Seq<Transferable>>,
}

impl GvtView {
    /// What holds of every coordinator over a table of `slots` slots: the tables
    /// cover the slots; processes fill the table from its last slot downwards, each
    /// knowing its slot and with a published clock; the router exists only over a full
    /// table; and whatever waits in the overflow of a process is addressed to it.
    pub open spec fn wf(self, slots: nat) -> bool {
        &&& self.local_times.len() == slots
        &&& self.lps.len() == slots
        &&& self.overflow.len() == slots
        &&& self.registered <= slots
        &&& forall|i: int|
            0 <= i < slots ==> ((#[trigger] self.lps[i]) is Some <==> i >= slots - self.registered)
        &&& forall|i: int|
            0 <= i < slots ==> ((#[trigger] self.local_times[i]) is Some <==> i >= slots
                - self.registered)
        &&& forall|i: int|
            0 <= i < slots && self.lps[i] is Some ==> (#[trigger] self.lps[i])->0.id == i
        &&& (self.comms is None ==> self.loaded == self.registered)
        &&& (self.comms is Some ==> self.loaded == 0 && self.registered == slots
            && self.comms->0.consistent(slots))
        &&& addressed(self.overflow)
    }

    /// The coordinator after one more process has been registered over a table of
    /// `slots` slots: it takes the last vacant slot with its clock at zero, and a pair
    /// of rings waits for it.
    pub open spec fn after_spawn(self, slots: nat, lp: LpView) -> GvtView {
        let slot = slots - self.registered - 1;
        GvtView {
            local_times: self.local_times.update(slot, Some(0u64)),
            lps: self.lps.update(slot, Some(lp)),
            registered: self.registered + 1,
            loaded: self.loaded + 1,
            ..self
        }
    }

    /// The coordinator after the waiting rings have been assembled into the router over
    /// a table of `slots` slots: every ring of the router is empty and every process
    /// knows the terminal time.
    pub open spec fn after_init(self, slots: nat) -> GvtView {
        GvtView {
            loaded: 0,
            comms: Some(
                CommsView {
                    inbound: Seq::new(slots, |i: int| Seq::<Transferable>::empty()),
                    staging: Seq::new(slots, |i: int| Seq::<Transferable>::empty()),
                },
            ),
            lps: Seq::new(
                slots,
                |i: int|
                    match self.lps[i] {
                        Some(lp) => Some(LpView { terminal: self.terminal, ..lp }),
                        None => None,
                    },
            ),
            ..self
        }
    }

    /// The rings toward the processes and the overflow queues, once the router exists.
    pub open spec fn lanes(self) -> Lanes {
        Lanes { inbound: self.comms->0.inbound, overflow: self.overflow }
    }

    /// This coordinator with other lanes.
    pub open spec fn with_lanes(self, lanes: Lanes) -> GvtView {
        GvtView {
            comms: Some(CommsView { inbound: lanes.inbound, ..self.comms->0 }),
            overflow: lanes.overflow,
            ..self
        }
    }

    /// The coordinator after the clock `time` has been published for slot `slot`; an
    /// empty slot publishes nothing.
    pub open spec fn after_publish(self, slot: int, time: u64) -> GvtView {
        if 0 <= slot < self.local_times.len() && self.local_times[slot] is Some {
            GvtView { local_times: self.local_times.update(slot, Some(time)), ..self }
        } else {
            self
        }
    }

    /// The coordinator after the overflow of process `slot` has been retried against
    /// rings of `size` slots: the most recent refusals move into the ring toward the
    /// process, the most recent first, as far as the ring has room.
    pub open spec fn after_try_empty(self, slot: int, size: nat) -> GvtView {
        if self.comms is Some && 0 <= slot < self.overflow.len() && slot
            < self.comms->0.inbound.len() {
            let queue = self.overflow[slot];
            let ring = self.comms->0.inbound[slot];
            let k = flushable(queue.len(), ring.len(), size);
            self.with_lanes(
                Lanes {
                    inbound: self.comms->0.inbound.update(slot, ring + popped(queue, k)),
                    overflow: self.overflow.update(slot, queue.subrange(0, queue.len() - k)),
                },
            )
        } else {
            self
        }
    }

    /// How many of the items staged by process `slot` a relay moves over a table of
    /// `slots` slots: all of them, or those before the first that is addressed outside
    /// the table.
    pub open spec fn relayed(self, slot: int, slots: nat) -> int {
        let items = self.comms->0.staging[slot];
        let stop = first_unroutable(items, slots, 0);
        if stop < 0 {
            items.len() as int
        } else {
            stop
        }
    }

    /// Whether a relay of what process `slot` has staged meets no item addressed
    /// outside the table.
    pub open spec fn relay_ok(self, slot: int, slots: nat) -> bool {
        self.comms is Some && 0 <= slot < self.comms->0.staging.len() ==> first_unroutable(
            self.comms->0.staging[slot],
            slots,
            0,
        ) < 0
    }

    /// The coordinator after a relay of what process `slot` has staged: the relayed
    /// items have left the staging ring and have been placed, in their order.
    pub open spec fn after_relay(self, slot: int, slots: nat, size: nat) -> GvtView {
        if self.comms is Some && 0 <= slot < self.comms->0.staging.len() {
            let items = self.comms->0.staging[slot];
            let moved = self.relayed(slot, slots);
            let lanes = self.lanes().place_all(items.subrange(0, moved), size);
            GvtView {
                comms: Some(
                    CommsView {
                        inbound: lanes.inbound,
                        staging: self.comms->0.staging.update(
                            slot,
                            items.subrange(moved, items.len() as int),
                        ),
                    },
                ),
                overflow: lanes.overflow,
                ..self
            }
        } else {
            self
        }
    }

    /// The coordinator after the overflow of each of the first `n` processes has been
    /// retried, in the order of their slots.
    pub open spec fn drained(self, n: int, size: nat) -> GvtView
        decreases n,
    {
        if n <= 0 {
            self
        } else {
            self.drained(n - 1, size).after_try_empty(n - 1, size)
        }
    }

    /// The coordinator after what each of the first `n` processes has staged has been
    /// relayed, in the order of their slots, together with whether every relay went
    /// through. The first relay that does not go through is the last one made.
    pub open spec fn relayed_upto(self, n: int, slots: nat, size: nat) -> (GvtView, bool)
        decreases n,
    {
        if n <= 0 {
            (self, true)
        } else {
            let (before, ok) = self.relayed_upto(n - 1, slots, size);
            if ok {
                (before.after_relay(n - 1, slots, size), before.relay_ok(n - 1, slots))
            } else {
                (before, false)
            }
        }
    }

    /// The coordinator with global virtual time derived anew.
    pub open spec fn polled(self) -> GvtView {
        GvtView { global_time: gvt_of(self.local_times), ..self }
    }

    /// The coordinator after one tick over a table of `slots` slots: global virtual
    /// time is derived anew; unless it has reached the terminal time, every overflow
    /// is retried and then every staging ring relayed.
    pub open spec fn after_tick(self, slots: nat, size: nat) -> GvtView {
        let polled = self.polled();
        if polled.global_time >= polled.terminal {
            polled
        } else {
            polled.drained(slots as int, size).relayed_upto(slots as int, slots, size).0
        }
    }

    /// What one tick reports: whether the run has terminated, or `PollError` where a
    /// relay met an item addressed outside the table.
    pub open spec fn tick_outcome(self, slots: nat, size: nat) -> Result<bool, SimError> {
        let polled = self.polled();
        if polled.global_time >= polled.terminal {
            Ok(true)
        } else if polled.drained(slots as int, size).relayed_upto(slots as int, slots, size).1 {
            Ok(false)
        } else {
            Err(SimError::PollError)
        }
    }

    /// Whether `next` and `outcome` are what one turn of the process in slot `slot`
    /// leaves of this coordinator: the process and the router have made the turn, and
    /// the clock of the process is published. Nothing happens before the router exists
    /// or for a slot outside the table.
    pub open spec fn turns_lp(
        self,
        next: GvtView,
        slot: int,
        outcome: Result<Option<Work>, SimError>,
        size: nat,
        window: nat,
    ) -> bool {
        if 0 <= slot < self.lps.len() && self.lps[slot] is Some && self.comms is Some {
            &&& next.comms is Some
            &&& 0 <= slot < next.lps.len()
            &&& next.lps[slot] is Some
            &&& self.lps[slot]->0.turns(
                self.comms->0,
                next.lps[slot]->0,
                next.comms->0,
                outcome,
                size,
                window,
            )
            &&& next == (GvtView {
                lps: self.lps.update(slot, next.lps[slot]),
                comms: next.comms,
                local_times: self.local_times.update(slot, Some(next.lps[slot]->0.time)),
                ..self
            })
        } else {
            next == self && outcome == Ok::<Option<Work>, SimError>(None)
        }
    }

    /// Whether `next` is this coordinator after the processes in the first `n` slots
    /// have made one turn each, in the order of their slots, and none of them has
    /// failed.
    pub open spec fn turned(self, next: GvtView, n: int, size: nat, window: nat) -> bool
        decreases n,
    {
        if n <= 0 {
            next == self
        } else {
            exists|mid: GvtView, outcome: Result<Option<Work>, SimError>|
                self.turned(mid, n - 1, size, window) && outcome is Ok && #[trigger] mid.turns_lp(
                    next,
                    n - 1,
                    outcome,
                    size,
                    window,
                )
        }
    }

    /// Whether `next` and `outcome` are what one round leaves of this coordinator. A
    /// round is a tick of the coordinator followed, unless the tick has reported the end
    /// of the run or an error, by one turn of every process in the order of the slots.
    /// The first process that fails ends the round with its error.
    pub open spec fn rounds(
        self,
        next: GvtView,
        outcome: Result<bool, SimError>,
        slots: nat,
        size: nat,
        window: nat,
    ) -> bool {
        let ticked = self.after_tick(slots, size);
        if self.tick_outcome(slots, size) != Ok::<bool, SimError>(false) {
            outcome == self.tick_outcome(slots, size) && next == ticked
        } else if outcome is Ok {
            outcome == Ok::<bool, SimError>(false) && ticked.turned(
                next,
                slots as int,
                size,
                window,
            )
        } else {
            exists|mid: GvtView, failed: int|
                0 <= failed < slots && ticked.turned(mid, failed, size, window)
                    && #[trigger] mid.turns_lp(
                    next,
                    failed,
                    Err::<Option<Work>, SimError>(outcome->Err_0),
                    size,
                    window,
                )
        }
    }

    /// Where the run stands.
    pub open spec fn phase(self) -> Phase {
        if self.comms is None {
            Phase::Initializing
        } else if self.global_time < self.terminal {
            Phase::Running
        } else {
            Phase::Terminated
        }
    }
}

/// The coordinator of a run over `LPS` processes whose rings have `SIZE` slots and
/// whose calendars admit `SLOTS * HEIGHT` events.
pub struct GVT<const LPS: usize, const SIZE: usize, const SLOTS: usize, const HEIGHT: usize> {
    global_time: u64,
    terminal: u64,
    local_times: Vec<Option<u64>>,
    registered: usize,
    comms: Option<Comms<LPS, SIZE>>,
    temp_load: Vec<(CircularBuffer<SIZE>, CircularBuffer<SIZE>)>,
    lps: Vec<Option<LP<SLOTS, HEIGHT, SIZE>>>,
    message_overflow: Vec<Vec<Transferable>>,
}

impl<const LPS: usize, const SIZE: usize, const SLOTS: usize, const HEIGHT: usize> View for GVT<
    LPS,
    SIZE,
    SLOTS,
    HEIGHT,
> {
    type V = GvtView;

    closed spec fn view(&self) -> GvtView {
        GvtView {
            global_time: self.global_time,
            terminal: self.terminal,
            local_times: self.local_times@,
            registered: self.registered as nat,
            loaded: self.temp_load@.len(),
            comms: match self.comms {
                Some(comms) => Some(comms@),
                None => None,
            },
            lps: Seq::new(
                self.lps@.len(),
                |i: int|
                    match self.lps@[i] {
                        Some(lp) => Some(lp@),
                        None => None,
                    },
            ),
            overflow: queues_of(self.message_overflow@),
        }
    }
}

impl<const LPS: usize, const SIZE: usize, const SLOTS: usize, const HEIGHT: usize> GVT<
    LPS,
    SIZE,
    SLOTS,
    HEIGHT,
> {
    /// Whether the coordinator is in order: its content is well formed and the rings
    /// that wait to be assembled are empty.
    pub closed spec fn wf(&self) -> bool {
        &&& self@.wf(LPS as nat)
        &&& forall|k: int|
            0 <= k < self.temp_load@.len() ==> (#[trigger] self.temp_load@[k]).0@.len() == 0
                && self.temp_load@[k].1@.len() == 0
    }

    /// What well-formedness means for the content.
    pub proof fn lemma_wf(&self)
        requires
            self.wf(),
        ensures
            self@.wf(LPS as nat),
    {
    }

    /// The content of a coordinator right after its creation.
    pub open spec fn initial(terminal: usize) -> GvtView {
        GvtView {
            global_time: 0,
            terminal: terminal as u64,
            local_times: Seq::new(LPS as nat, |i: int| None::<u64>),
            registered: 0,
            loaded: 0,
            comms: None,
            lps: Seq::new(LPS as nat, |i: int| None::<LpView>),
            overflow: Seq::new(LPS as nat, |i: int| Seq::<Transferable>::empty()),
        }
    }

    /// A coordinator for a run that ends at `terminal`, with an empty process table.
    pub fn start_engine(terminal: usize) -> (gvt: Self)
        ensures
            gvt.wf(),
            gvt@ == Self::initial(terminal),
    {
        let mut lps: Vec<Option<LP<SLOTS, HEIGHT, SIZE>>> = Vec::new();
        let mut local_times: Vec<Option<u64>> = Vec::new();
        let mut message_overflow: Vec<Vec<Transferable>> = Vec::new();
        let mut i: usize = 0;
        while i < LPS
            invariant
                i <= LPS,
                lps@.len() == i,
                local_times@.len() == i,
                message_overflow@.len() == i,
                forall|j: int| 0 <= j < i ==> (#[trigger] lps@[j]) is None,
                forall|j: int| 0 <= j < i ==> (#[trigger] local_times@[j]) is None,
                forall|j: int| 0 <= j < i ==> (#[trigger] message_overflow@[j])@.len() == 0,
            decreases LPS - i,
        {
            lps.push(None);
            local_times.push(None);
            message_overflow.push(Vec::new());
            i = i + 1;
        }
        let gvt = GVT {
            global_time: 0,
            terminal: terminal as u64,
            local_times,
            registered: 0,
            comms: None,
            temp_load: Vec::new(),
            lps,
            message_overflow,
        };
        proof {
            let v = gvt@;
            let w = Self::initial(terminal);
            assert(v.local_times =~= w.local_times);
            assert(v.lps =~= w.lps);
            assert forall|i: int| 0 <= i < LPS implies #[trigger] v.overflow[i]
                == w.overflow[i] by {}
            assert(v.overflow =~= w.overflow);
        }
        gvt
    }

    /// Registers `process`, whose idle clock moves by `timestep` and whose history
    /// retains `log_slots` snapshots. Fails with `LPsFull`, changing nothing, when no
    /// slot of the table is vacant.
    pub fn spawn_process(
        &mut self,
        process: Box<dyn LogicalProcess>,
        timestep: u64,
        log_slots: usize,
    ) -> (res: Result<(), SimError>)
        requires
            old(self).wf(),
        ensures
            final(self).wf(),
            res is Ok <==> old(self)@.registered < LPS,
            res is Ok ==> final(self)@ == old(self)@.after_spawn(
                LPS as nat,
                LP::<SLOTS, HEIGHT, SIZE>::initial(
                    (LPS - old(self)@.registered - 1) as usize,
                    timestep,
                    log_slots,
                ),
            ),
            res is Err ==> res->Err_0 == SimError::LPsFull && final(self)@ == old(self)@,
    {
        let ghost was = self@;
        let mut vacant: usize = LPS;
        while vacant > 0 && self.lps[vacant - 1].is_some()
            invariant
                vacant <= LPS,
                self.lps@.len() == LPS,
                *self == *old(self),
                forall|i: int| vacant <= i < LPS ==> (#[trigger] self.lps@[i]) is Some,
            decreases vacant,
        {
            vacant = vacant - 1;
        }
        proof {
            if vacant > 0 {
                assert(was.lps[vacant - 1] is None);
            }
            if vacant < LPS {
                assert(was.lps[vacant as int] is Some);
            }
        }
        if vacant == 0 {
            return Err(SimError::LPsFull);
        }
        let slot = vacant - 1;
        let lp = LP::<SLOTS, HEIGHT, SIZE>::new(slot, process, timestep, log_slots);
        self.local_times[slot] = Some(0);
        self.lps[slot] = Some(lp);
        self.temp_load.push((CircularBuffer::new(), CircularBuffer::new()));
        self.registered = self.registered + 1;
        proof {
            let now = self@;
            let want = was.after_spawn(
                LPS as nat,
                LP::<SLOTS, HEIGHT, SIZE>::initial(slot, timestep, log_slots),
            );
            assert(now.lps =~= want.lps);
        }
        Ok(())
    }

    /// Assembles the rings of the registered processes into the router and tells every
    /// process the terminal time. Fails with `MismatchLPsCount`, changing nothing, when
    /// fewer pairs of rings wait than the table has slots.
    pub fn init_comms(&mut self) -> (res: Result<(), SimError>)
        requires
            old(self).wf(),
        ensures
            final(self).wf(),
            res is Ok <==> old(self)@.loaded >= LPS,
            res is Ok ==> final(self)@ == old(self)@.after_init(LPS as nat),
            res is Err ==> res->Err_0 == SimError::MismatchLPsCount && final(self)@ == old(self)@,
    {
        let ghost was = self@;
        if self.temp_load.len() < LPS {
            return Err(SimError::MismatchLPsCount);
        }
        let mut inbound: Vec<CircularBuffer<SIZE>> = Vec::new();
        let mut staging: Vec<CircularBuffer<SIZE>> = Vec::new();
        let mut taken: usize = 0;
        while self.temp_load.len() > 0
            invariant
                self.temp_load@.len() + taken == LPS,
                inbound@.len() == taken,
                staging@.len() == taken,
                forall|k: int| 0 <= k < taken ==> (#[trigger] inbound@[k])@.len() == 0,
                forall|k: int| 0 <= k < taken ==> (#[trigger] staging@[k])@.len() == 0,
                forall|k: int|
                    0 <= k < self.temp_load@.len() ==> (#[trigger] self.temp_load@[k]).0@.len()
                        == 0 && self.temp_load@[k].1@.len() == 0,
                self@ == (GvtView { loaded: self.temp_load@.len(), ..was }),
            decreases self.temp_load@.len(),
        {
            match self.temp_load.pop() {
                Some(pair) => {
                    inbound.push(pair.0);
                    staging.push(pair.1);
                    taken = taken + 1;
                },
                None => {},
            }
        }
        self.comms = Some(Comms::new(inbound, staging));
        let ghost mid = self@;
        proof {
            assert forall|i: int| 0 <= i < LPS implies #[trigger] mid.comms->0.inbound[i]
                == Seq::<Transferable>::empty() by {}
            assert forall|i: int| 0 <= i < LPS implies #[trigger] mid.comms->0.staging[i]
                == Seq::<Transferable>::empty() by {}
            assert(mid.comms->0.inbound =~= Seq::new(
                LPS as nat,
                |i: int| Seq::<Transferable>::empty(),
            ));
            assert(mid.comms->0.staging =~= Seq::new(
                LPS as nat,
                |i: int| Seq::<Transferable>::empty(),
            ));
        }
        let terminal = self.terminal;
        let mut i: usize = 0;
        while i < LPS
            invariant
                i <= LPS,
                terminal == was.terminal,
                mid.lps.len() == LPS,
                self.lps@.len() == LPS,
                self@ == (GvtView { lps: self@.lps, ..mid }),
                forall|k: int|
                    0 <= k < i ==> #[trigger] self@.lps[k] == match mid.lps[k] {
                        Some(lp) => Some(LpView { terminal, ..lp }),
                        None => None,
                    },
                forall|k: int| i <= k < LPS ==> #[trigger] self@.lps[k] == mid.lps[k],
            decreases LPS - i,
        {
            let ghost before = self@;
            match &mut self.lps[i] {
                Some(lp) => {
                    lp.set_terminal(terminal);
                },
                None => {},
            }
            proof {
                assert(before.lps[i as int] == mid.lps[i as int]);
                assert forall|k: int| 0 <= k < LPS && k != i implies #[trigger] self@.lps[k]
                    == before.lps[k] by {}
            }
            i = i + 1;
        }
        proof {
            assert(self@.lps =~= was.after_init(LPS as nat).lps);
        }
        Ok(())
    }

    /// The clock that process `slot` has published, if the slot is taken.
    pub fn local_time(&self, slot: usize) -> (time: Option<u64>)
        ensures
            slot < self@.local_times.len() ==> time == self@.local_times[slot as int],
            slot >= self@.local_times.len() ==> time is None,
    {
        if slot < self.local_times.len() {
            self.local_times[slot]
        } else {
            None
        }
    }

    /// Records the clock `time` that process `slot` has published. An empty slot
    /// publishes nothing.
    pub fn publish(&mut self, slot: usize, time: u64)
        ensures
            final(self)@ == old(self)@.after_publish(slot as int, time),
            old(self).wf() ==> final(self).wf(),
    {
        if slot < self.local_times.len() && self.local_times[slot].is_some() {
            self.local_times[slot] = Some(time);
        }
    }

    /// Derives global virtual time anew: the least published clock, and zero while no
    /// clock is published.
    pub fn poll_times(&mut self)
        ensures
            final(self)@ == (GvtView {
                global_time: gvt_of(old(self)@.local_times),
                ..old(self)@
            }),
            old(self).wf() ==> final(self).wf(),
    {
        let ghost times = self.local_times@;
        let mut least: Option<u64> = None;
        let mut i: usize = 0;
        while i < self.local_times.len()
            invariant
                i <= times.len(),
                self.local_times@ == times,
                least == min_time(times.subrange(0, i as int)),
            decreases times.len() - i,
        {
            proof {
                let upto = times.subrange(0, i + 1);
                assert(upto.drop_last() =~= times.subrange(0, i as int));
            }
            match self.local_times[i] {
                Some(time) => {
                    least = match least {
                        Some(so_far) => Some(
                            if time < so_far {
                                time
                            } else {
                                so_far
                            },
                        ),
                        None => Some(time),
                    };
                },
                None => {},
            }
            i = i + 1;
        }
        proof {
            assert(times.subrange(0, times.len() as int) =~= times);
        }
        self.global_time = match least {
            Some(time) => time,
            None => 0,
        };
    }

    /// Retries the overflow of process `idx`: the most recent refusal is offered to the
    /// ring toward the process, then the one before it, until the queue is empty or the
    /// ring refuses again. Does nothing before the router exists or for a slot outside
    /// the table.
    pub fn try_empty(&mut self, idx: usize)
        requires
            old(self).wf(),
        ensures
            final(self).wf(),
            final(self)@ == old(self)@.after_try_empty(idx as int, SIZE as nat),
    {
        let ghost was = self@;
        if idx >= LPS || self.comms.is_none() {
            return ;
        }
        let mut comms = self.comms.take().unwrap();
        let ghost router = comms@;
        let ghost queue = was.overflow[idx as int];
        let ghost ring = router.inbound[idx as int];
        let held = comms.inbound_len(idx);
        let mut moved: usize = 0;
        let mut open = true;
        proof {
            assert(queue.subrange(0, queue.len() as int) =~= queue);
            assert(router.inbound.update(idx as int, ring) =~= router.inbound);
            assert(self@.overflow =~= was.overflow.update(idx as int, queue));
        }
        while open && self.message_overflow[idx].len() > 0
            invariant
                idx < LPS,
                was.wf(LPS as nat),
                was.comms == Some(router),
                queue == was.overflow[idx as int],
                ring == router.inbound[idx as int],
                self.message_overflow@.len() == LPS,
                moved <= queue.len(),
                held == ring.len(),
                held + moved <= SIZE,
                self.message_overflow@[idx as int]@ == queue.subrange(0, queue.len() - moved),
                comms@ == (CommsView {
                    inbound: router.inbound.update(idx as int, ring + popped(queue, moved as nat)),
                    ..router
                }),
                self@ == (GvtView {
                    comms: None,
                    overflow: was.overflow.update(
                        idx as int,
                        queue.subrange(0, queue.len() - moved),
                    ),
                    ..was
                }),
                forall|k: int|
                    0 <= k < self.temp_load@.len() ==> (#[trigger] self.temp_load@[k]).0@.len()
                        == 0 && self.temp_load@[k].1@.len() == 0,
                !open ==> held + moved == SIZE,
            decreases self.message_overflow@[idx as int]@.len() + (if open {
                1int
            } else {
                0int
            }),
        {
            let ghost before = self@;
            let ghost routed = comms@;
            let ghost queues = self.message_overflow@;
            let val = self.message_overflow[idx].pop().unwrap();
            match comms.write(val) {
                Ok(()) => {
                    proof {
                        assert(ring + popped(queue, (moved + 1) as nat) =~= (ring + popped(
                            queue,
                            moved as nat,
                        )).push(val));
                        assert(comms@.inbound =~= router.inbound.update(
                            idx as int,
                            ring + popped(queue, (moved + 1) as nat),
                        ));
                        assert(self.message_overflow@[idx as int]@ =~= queue.subrange(
                            0,
                            queue.len() - (moved + 1),
                        ));
                        assert forall|i: int| 0 <= i < LPS && i != idx implies (
                        #[trigger] self@.overflow[i]) == was.overflow[i] by {
                            assert(before.overflow[i] == queues[i]@);
                        }
                        assert(self@.overflow =~= was.overflow.update(
                            idx as int,
                            queue.subrange(0, queue.len() - (moved + 1)),
                        ));
                    }
                    moved = moved + 1;
                },
                Err(back) => {
                    self.message_overflow[idx].push(back);
                    proof {
                        assert(comms@.inbound =~= routed.inbound);
                        assert(self.message_overflow@[idx as int]@ =~= queue.subrange(
                            0,
                            queue.len() - moved,
                        ));
                        assert(self@.overflow =~= before.overflow);
                    }
                    open = false;
                },
            }
        }
        self.comms = Some(comms);
        proof {
            let now = self@;
            assert forall|i: int, j: int|
                0 <= i < now.overflow.len() && 0 <= j < now.overflow[i].len() implies (
            #[trigger] now.overflow[i][j]).spec_to() == i by {}
        }
    }

    /// Places `item` on its way to its destination: into the ring toward it, or behind
    /// its overflow where the ring is full.
    fn place(
        comms: &mut Comms<LPS, SIZE>,
        overflow: &mut Vec<Vec<Transferable>>,
        item: Transferable,
    )
        requires
            item.spec_to() < LPS,
            old(comms)@.consistent(LPS as nat),
            old(overflow)@.len() == LPS,
        ensures
            final(comms)@.staging == old(comms)@.staging,
            final(comms)@.consistent(LPS as nat),
            final(overflow)@.len() == LPS,
            (Lanes { inbound: final(comms)@.inbound, overflow: queues_of(final(overflow)@) }) == (
            Lanes { inbound: old(comms)@.inbound, overflow: queues_of(old(overflow)@) }).place(
                item,
                SIZE as nat,
            ),
            addressed(queues_of(old(overflow)@)) ==> addressed(queues_of(final(overflow)@)),
    {
        let dest = item.to();
        let ghost router = comms@;
        let ghost queues = overflow@;
        let _ = comms.inbound_len(dest);
        match comms.write(item) {
            Ok(()) => {
            },
            Err(back) => {
                overflow[dest].push(back);
                proof {
                    assert(comms@.inbound =~= router.inbound);
                    assert(queues_of(overflow@) =~= queues_of(queues).update(
                        dest as int,
                        queues_of(queues)[dest as int].push(item),
                    ));
                    if addressed(queues_of(queues)) {
                        assert forall|i: int, j: int|
                            0 <= i < queues_of(overflow@).len() && 0 <= j < queues_of(
                                overflow@,
                            )[i].len() implies (#[trigger] queues_of(overflow@)[i][j]).spec_to()
                            == i by {
                        }
                    }
                }
            },
        }
    }

    /// Hands `item` to the router from outside the run: it is placed on its way to its
    /// destination. The item comes back unchanged before the router exists or when it
    /// is addressed outside the table.
    pub fn inject(&mut self, item: Transferable) -> (res: Result<(), Transferable>)
        requires
            old(self).wf(),
        ensures
            final(self).wf(),
            res is Ok <==> old(self)@.comms is Some && item.spec_to() < LPS,
            res is Ok ==> final(self)@ == old(self)@.with_lanes(
                old(self)@.lanes().place(item, SIZE as nat),
            ),
            res is Err ==> res->Err_0 == item && final(self)@ == old(self)@,
    {
        if self.comms.is_none() || item.to() >= LPS {
            return Err(item);
        }
        let mut comms = self.comms.take().unwrap();
        Self::place(&mut comms, &mut self.message_overflow, item);
        self.comms = Some(comms);
        Ok(())
    }

    /// Relays what process `idx` has staged: item by item, at most as many as a ring
    /// has slots, each is taken from the staging ring and placed on its way to its
    /// destination. Stops with `PollError` in front of an item that is addressed
    /// outside the table, which stays in the staging ring. Does nothing before the
    /// router exists or for a slot outside the table.
    pub fn relay(&mut self, idx: usize) -> (res: Result<(), SimError>)
        requires
            old(self).wf(),
        ensures
            final(self).wf(),
            final(self)@ == old(self)@.after_relay(idx as int, LPS as nat, SIZE as nat),
            res is Ok <==> old(self)@.relay_ok(idx as int, LPS as nat),
            res is Err ==> res->Err_0 == SimError::PollError,
            old(self)@.comms is Some && idx < LPS ==> old(self)@.relayed(idx as int, LPS as nat)
                <= SIZE,
    {
        let ghost was = self@;
        if idx >= LPS || self.comms.is_none() {
            return Ok(());
        }
        let mut comms = self.comms.take().unwrap();
        let ghost router = comms@;
        let ghost items = router.staging[idx as int];
        let ghost lanes = was.lanes();
        let staged = comms.staging_len(idx);
        let mut counter: usize = 0;
        let mut open = true;
        let mut blocked = false;
        proof {
            assert(items.subrange(0, items.len() as int) =~= items);
        }
        while open && counter < SIZE
            invariant
                idx < LPS,
                was.wf(LPS as nat),
                was.comms == Some(router),
                lanes == was.lanes(),
                items == router.staging[idx as int],
                staged == items.len(),
                staged <= SIZE,
                counter <= staged,
                comms@.consistent(LPS as nat),
                self.message_overflow@.len() == LPS,
                addressed(queues_of(self.message_overflow@)),
                comms@.staging == router.staging.update(
                    idx as int,
                    items.subrange(counter as int, items.len() as int),
                ),
                (Lanes { inbound: comms@.inbound, overflow: queues_of(self.message_overflow@) })
                    == lanes.place_all(items.subrange(0, counter as int), SIZE as nat),
                first_unroutable(items, LPS as nat, 0) == first_unroutable(
                    items,
                    LPS as nat,
                    counter as int,
                ),
                self@ == (GvtView {
                    comms: None,
                    overflow: queues_of(self.message_overflow@),
                    ..was
                }),
                forall|k: int|
                    0 <= k < self.temp_load@.len() ==> (#[trigger] self.temp_load@[k]).0@.len()
                        == 0 && self.temp_load@[k].1@.len() == 0,
                !open && !blocked ==> counter == staged,
                blocked ==> !open && first_unroutable(items, LPS as nat, counter as int)
                    == counter,
                open ==> !blocked,
            decreases SIZE - counter + (if open {
                1int
            } else {
                0int
            }),
        {
            match comms.front_to(idx) {
                None => {
                    open = false;
                },
                Some(dest) => {
                    if dest >= LPS {
                        blocked = true;
                        open = false;
                    } else {
                        let ghost routed = comms@;
                        match comms.read(idx) {
                            Ok(item) => {
                                proof {
                                    assert(after_read(routed.staging[idx as int])
                                        =~= items.subrange(counter + 1, items.len() as int));
                                    let upto = items.subrange(0, counter + 1);
                                    assert(upto.drop_last() =~= items.subrange(0, counter as int));
                                }
                                Self::place(&mut comms, &mut self.message_overflow, item);
                                counter = counter + 1;
                            },
                            Err(_) => {
                                open = false;
                            },
                        }
                    }
                },
            }
        }
        self.comms = Some(comms);
        if blocked {
            Err(SimError::PollError)
        } else {
            Ok(())
        }
    }

    /// One tick of the coordinator. Derives global virtual time anew and reports
    /// `true` where it has reached the terminal time. Otherwise retries every
    /// overflow, polls the router, relays what each process has staged, and reports
    /// `false`, or `PollError` where the router is at fault. Before the router exists
    /// there is nothing to retry or relay.
    pub fn tick(&mut self) -> (res: Result<bool, SimError>)
        requires
            old(self).wf(),
        ensures
            final(self).wf(),
            final(self)@ == old(self)@.after_tick(LPS as nat, SIZE as nat),
            res == old(self)@.tick_outcome(LPS as nat, SIZE as nat),
    {
        self.poll_times();
        let ghost polled = self@;
        if self.global_time >= self.terminal {
            return Ok(true);
        }
        if self.comms.is_none() {
            proof {
                lemma_nothing_without_router(polled, LPS as int, LPS as nat, SIZE as nat);
            }
            return Ok(false);
        }
        let mut i: usize = 0;
        while i < LPS
            invariant
                i <= LPS,
                self.wf(),
                self@.comms is Some,
                self@ == polled.drained(i as int, SIZE as nat),
            decreases LPS - i,
        {
            self.try_empty(i);
            i = i + 1;
        }
        let ghost drained = self@;
        let flags = match &self.comms {
            Some(comms) => {
                match comms.poll() {
                    Ok(flags) => flags,
                    Err(_) => {
                        return Err(SimError::PollError);
                    },
                }
            },
            None => {
                return Err(SimError::PollError);
            },
        };
        let mut i: usize = 0;
        while i < LPS
            invariant
                i <= LPS,
                self.wf(),
                self@.comms is Some,
                flags@.len() == LPS,
                forall|k: int|
                    i <= k < LPS ==> flags@[k] == (self@.comms->0.staging[k].len() > 0),
                drained.relayed_upto(i as int, LPS as nat, SIZE as nat) == (self@, true),
                polled == old(self)@.polled(),
                polled.global_time < polled.terminal,
                drained == polled.drained(LPS as int, SIZE as nat),
            decreases LPS - i,
        {
            let ghost before = self@;
            if flags[i] {
                match self.relay(i) {
                    Ok(()) => {},
                    Err(e) => {
                        proof {
                            lemma_relay_stops(
                                drained,
                                i + 1,
                                LPS as int,
                                LPS as nat,
                                SIZE as nat,
                            );
                        }
                        return Err(e);
                    },
                }
            } else {
                proof {
                    lemma_relay_nothing(before, i as int, LPS as nat, SIZE as nat);
                }
            }
            i = i + 1;
        }
        Ok(false)
    }

    /// One turn of the process in slot `idx` against the router, after which the clock
    /// of the process is published. Does nothing before the router exists or for a
    /// slot outside the table.
    pub fn step_lp(&mut self, idx: usize) -> (outcome: Result<Option<Work>, SimError>)
        requires
            old(self).wf(),
        ensures
            final(self).wf(),
            old(self)@.turns_lp(
                final(self)@,
                idx as int,
                outcome,
                SIZE as nat,
                window_of(SLOTS as nat, HEIGHT as nat),
            ),
    {
        let ghost was = self@;
        if idx >= LPS || self.comms.is_none() {
            return Ok(None);
        }
        let mut comms = self.comms.take().unwrap();
        proof {
            assert(was.lps[idx as int] is Some);
        }
        let (outcome, time) = match &mut self.lps[idx] {
            Some(lp) => {
                let outcome = lp.tick(&mut comms);
                (outcome, lp.time())
            },
            None => (Ok(None), 0),
        };
        self.local_times[idx] = Some(time);
        self.comms = Some(comms);
        proof {
            let now = self@;
            assert(now.lps =~= was.lps.update(idx as int, now.lps[idx as int]));
        }
        outcome
    }

    /// One round on a single thread: a tick of the coordinator followed, unless the
    /// tick has reported the end of the run, by one turn of every process. Reports
    /// whether the run has terminated, or the first error met.
    pub fn round(&mut self) -> (res: Result<bool, SimError>)
        requires
            old(self).wf(),
        ensures
            final(self).wf(),
            old(self)@.rounds(
                final(self)@,
                res,
                LPS as nat,
                SIZE as nat,
                window_of(SLOTS as nat, HEIGHT as nat),
            ),
    {
        match self.tick() {
            Ok(false) => {},
            other => {
                return other;
            },
        }
        let ghost ticked = self@;
        let mut i: usize = 0;
        while i < LPS
            invariant
                i <= LPS,
                self.wf(),
                ticked == old(self)@.after_tick(LPS as nat, SIZE as nat),
                old(self)@.tick_outcome(LPS as nat, SIZE as nat) == Ok::<bool, SimError>(false),
                ticked.turned(
                    self@,
                    i as int,
                    SIZE as nat,
                    window_of(SLOTS as nat, HEIGHT as nat),
                ),
            decreases LPS - i,
        {
            let ghost mid = self@;
            let outcome = self.step_lp(i);
            match outcome {
                Ok(_) => {
                    assert(mid.turns_lp(
                        self@,
                        (i + 1) - 1,
                        outcome,
                        SIZE as nat,
                        window_of(SLOTS as nat, HEIGHT as nat),
                    ));
                },
                Err(e) => {
                    let ghost res = Err::<bool, SimError>(e);
                    assert(mid.turns_lp(
                        self@,
                        i as int,
                        Err::<Option<Work>, SimError>(res->Err_0),
                        SIZE as nat,
                        window_of(SLOTS as nat, HEIGHT as nat),
                    ));
                    return Err(e);
                },
            }
            i = i + 1;
        }
        Ok(false)
    }

    /// How many processes have been registered.
    pub fn registered(&self) -> (n: usize)
        ensures
            n == self@.registered,
    {
        self.registered
    }

    /// The runtime of the process in slot `slot`, if the slot is taken.
    pub fn lp(&self, slot: usize) -> (lp: Option<&LP<SLOTS, HEIGHT, SIZE>>)
        ensures
            slot >= self@.lps.len() ==> lp is None,
            slot < self@.lps.len() ==> (lp is Some <==> self@.lps[slot as int] is Some),
            lp is Some ==> lp->0@ == self@.lps[slot as int]->0,
    {
        if slot < self.lps.len() {
            self.lps[slot].as_ref()
        } else {
            None
        }
    }

    /// How many items the ring toward process `slot` has refused and not yet taken.
    pub fn overflow_len(&self, slot: usize) -> (n: usize)
        ensures
            slot < self@.overflow.len() ==> n == self@.overflow[slot as int].len(),
            slot >= self@.overflow.len() ==> n == 0,
    {
        if slot < self.message_overflow.len() {
            self.message_overflow[slot].len()
        } else {
            0
        }
    }

    /// How many items wait in the ring toward process `slot`.
    pub fn inbound_len(&self, slot: usize) -> (n: usize)
        ensures
            self@.comms is Some && slot < self@.comms->0.inbound.len() ==> n
                == self@.comms->0.inbound[slot as int].len(),
            self@.comms is None || slot >= self@.comms->0.inbound.len() ==> n == 0,
    {
        match &self.comms {
            Some(comms) => comms.inbound_len(slot),
            None => 0,
        }
    }

    /// How many items process `slot` has staged.
    pub fn staging_len(&self, slot: usize) -> (n: usize)
        ensures
            self@.comms is Some && slot < self@.comms->0.staging.len() ==> n
                == self@.comms->0.staging[slot as int].len(),
            self@.comms is None || slot >= self@.comms->0.staging.len() ==> n == 0,
    {
        match &self.comms {
            Some(comms) => comms.staging_len(slot),
            None => 0,
        }
    }

    /// Global virtual time as last derived.
    pub fn global_time(&self) -> (time: u64)
        ensures
            time == self@.global_time,
    {
        self.global_time
    }

    /// The time at which the run ends.
    pub fn terminal(&self) -> (time: u64)
        ensures
            time == self@.terminal,
    {
        self.terminal
    }

    /// Where the run stands.
    pub fn phase(&self) -> (phase: Phase)
        ensures
            phase == self@.phase(),
    {
        if self.comms.is_none() {
            Phase::Initializing
        } else if self.global_time < self.terminal {
            Phase::Running
        } else {
            Phase::Terminated
        }
    }
}

/// What `min_time` picks: nothing exactly where no clock is published; otherwise a
/// published clock that no published clock is below.
pub proof fn lemma_min_time(times: Seq<Option<u64>>)
    ensures
        min_time(times) is None <==> forall|i: int|
            0 <= i < times.len() ==> (#[trigger] times[i]) is None,
        min_time(times) is Some ==> exists|i: int|
            0 <= i < times.len() && #[trigger] times[i] == min_time(times),
        forall|i: int|
            0 <= i < times.len() && (#[trigger] times[i]) is Some ==> min_time(times) is Some
                && min_time(times)->0 <= times[i]->0,
    decreases times.len(),
{
    if times.len() > 0 {
        let rest = times.drop_last();
        lemma_min_time(rest);
        assert forall|i: int| 0 <= i < rest.len() implies #[trigger] rest[i] == times[i] by {}
        if min_time(rest) is Some {
            let at = choose|i: int| 0 <= i < rest.len() && #[trigger] rest[i] == min_time(rest);
        }
        if min_time(times) is None {
            assert forall|i: int| 0 <= i < times.len() implies (#[trigger] times[i]) is None by {
                if i < rest.len() {
                    assert(rest[i] is None);
                }
            }
        }
        assert forall|i: int|
            0 <= i < times.len() && (#[trigger] times[i]) is Some implies min_time(times) is Some
            && min_time(times)->0 <= times[i]->0 by {
            if i < rest.len() {
                assert(rest[i] is Some);
            }
        }
    }
}

/// Global virtual time never decreases while no clock goes back: where the same slots
/// have published and every clock of `later` is at or after its clock in `earlier`,
/// global virtual time over `later` is at or after that over `earlier`.
pub proof fn lemma_gvt_monotone(earlier: Seq<Option<u64>>, later: Seq<Option<u64>>)
    requires
        earlier.len() == later.len(),
        forall|i: int|
            0 <= i < earlier.len() ==> ((#[trigger] earlier[i]) is Some <==> later[i] is Some),
        forall|i: int|
            0 <= i < earlier.len() && (#[trigger] earlier[i]) is Some ==> earlier[i]->0
                <= later[i]->0,
    ensures
        gvt_of(earlier) <= gvt_of(later),
{
    lemma_min_time(earlier);
    lemma_min_time(later);
    if min_time(later) is Some {
        let at = choose|i: int| 0 <= i < later.len() && #[trigger] later[i] == min_time(later);
        assert(earlier[at] is Some);
    }
}

/// Once every process has published a clock at or after `terminal`, global virtual
/// time is at or after `terminal` too, so that the next tick reports the end of the
/// run.
pub proof fn lemma_gvt_reaches_terminal(times: Seq<Option<u64>>, terminal: u64)
    requires
        times.len() > 0,
        forall|i: int|
            0 <= i < times.len() ==> (#[trigger] times[i]) is Some && times[i]->0 >= terminal,
    ensures
        gvt_of(times) >= terminal,
{
    lemma_min_time(times);
}

/// Once a relay has not gone through, later slots are not relayed any more.
pub proof fn lemma_relay_stops(view: GvtView, failed: int, n: int, slots: nat, size: nat)
    requires
        0 <= failed <= n,
        !view.relayed_upto(failed, slots, size).1,
    ensures
        view.relayed_upto(n, slots, size) == view.relayed_upto(failed, slots, size),
    decreases n - failed,
{
    if n > failed {
        lemma_relay_stops(view, failed, n - 1, slots, size);
    }
}

/// Before the router exists there is nothing to retry and nothing to relay.
pub proof fn lemma_nothing_without_router(view: GvtView, n: int, slots: nat, size: nat)
    requires
        view.comms is None,
    ensures
        view.drained(n, size) == view,
        view.relayed_upto(n, slots, size) == (view, true),
    decreases n,
{
    if n > 0 {
        lemma_nothing_without_router(view, n - 1, slots, size);
    }
}

/// A relay of an empty staging ring goes through and changes nothing.
pub proof fn lemma_relay_nothing(view: GvtView, slot: int, slots: nat, size: nat)
    requires
        view.comms is Some,
        0 <= slot < view.comms->0.staging.len(),
        view.comms->0.staging[slot].len() == 0,
    ensures
        view.relay_ok(slot, slots),
        view.after_relay(slot, slots, size) == view,
{
    let items = view.comms->0.staging[slot];
    assert(items.subrange(0, 0) =~= items);
    assert(view.comms->0.staging.update(slot, items) =~= view.comms->0.staging);
}

} // verus!
