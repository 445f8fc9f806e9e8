//! The history log of one process: its current state bytes together with a bounded run
//! of earlier snapshots from which a rollback restores.

use vstd::prelude::*;
use crate::worlds::{copy_bytes, Event, SimError};

verus! {

/// Copies a list of events.
pub fn copy_events(events: &Vec<Event>) -> (copy: Vec<Event>)
    ensures
        copy@ == events@,
{
    let mut copy: Vec<Event> = Vec::new();
    let mut i: usize = 0;
    while i < events.len()
        invariant
            i <= events@.len(),
            copy@ == events@.subrange(0, i as int),
        decreases events@.len() - i,
    {
        copy.push(events[i]);
        i = i + 1;
    }
    copy
}

/// The mathematical content of one snapshot.
pub struct SnapshotView {
    /// Virtual time at which the snapshot was taken.
    pub time: u64,
    /// The state bytes at that time.
    pub state: Seq<u8>,
    /// The events that were outstanding at that time.
    pub agenda: Seq<Event>,
}

/// One retained snapshot.
pub struct Snapshot {
    time: u64,
    state: Vec<u8>,
    agenda: Vec<Event>,
}

impl View for Snapshot {
    type V = SnapshotView;

    closed spec fn view(&self) -> SnapshotView {
        SnapshotView { time: self.time, state: self.state@, agenda: self.agenda@ }
    }
}

/// The mathematical content of a history log.
pub struct LumiView {
    /// How many snapshots the log retains at most.
    pub slots: nat,
    /// The current state bytes.
    pub state: Seq<u8>,
    /// The retained snapshots, oldest first.
    pub history: Seq<SnapshotView>,
}

/// Index of the most recent snapshot in `history` taken at or before `time`, or `-1`
/// when every retained snapshot is later.
pub open spec fn restore_point(history: Seq<SnapshotView>, time: u64) -> int
    decreases history.len(),
{
    if history.len() == 0 {
        -1
    } else if history.last().time <= time {
        history.len() - 1
    } else {
        restore_point(history.drop_last(), time)
    }
}

/// `restore_point` names the last snapshot that is not later than `time`: every
/// snapshot behind it is later, and there is no such snapshot exactly when it is `-1`.
pub proof fn lemma_restore_point(history: Seq<SnapshotView>, time: u64)
    ensures
        -1 <= restore_point(history, time) < history.len(),
        restore_point(history, time) >= 0 ==> history[restore_point(history, time)].time <= time,
        forall|j: int|
            restore_point(history, time) < j < history.len() ==> (#[trigger] history[j]).time
                > time,
    decreases history.len(),
{
    if history.len() > 0 && history.last().time > time {
        lemma_restore_point(history.drop_last(), time);
        assert forall|j: int|
            restore_point(history, time) < j < history.len() implies (#[trigger] history[j]).time
            > time by {
            if j < history.len() - 1 {
                assert(history.drop_last()[j] == history[j]);
            }
        }
    }
}

impl LumiView {
    /// The log after a snapshot of the current state is appended: with no slots nothing
    /// is kept, and a full log first gives up its oldest snapshot.
    pub open spec fn after_record(self, time: u64, agenda: Seq<Event>) -> LumiView {
        let snap = SnapshotView { time, state: self.state, agenda };
        if self.slots == 0 {
            self
        } else if self.history.len() >= self.slots {
            LumiView {
                history: self.history.subrange(1, self.history.len() as int).push(snap),
                ..self
            }
        } else {
            LumiView { history: self.history.push(snap), ..self }
        }
    }

    /// The log after a rollback to `time`: the state of the restore point becomes
    /// current and every later snapshot is gone. Without a restore point nothing changes.
    pub open spec fn after_restore(self, time: u64) -> LumiView {
        let k = restore_point(self.history, time);
        if k < 0 {
            self
        } else {
            LumiView {
                slots: self.slots,
                state: self.history[k].state,
                history: self.history.subrange(0, k + 1),
            }
        }
    }
}

/// The history log of one process.
pub struct Lumi {
    slots: usize,
    current: Vec<u8>,
    history: Vec<Snapshot>,
}

impl View for Lumi {
    type V = LumiView;

    closed spec fn view(&self) -> LumiView {
        LumiView {
            slots: self.slots as nat,
            state: self.current@,
            history: Seq::new(self.history@.len(), |i: int| self.history@[i]@),
        }
    }
}

impl Lumi {
    #[verifier::type_invariant]
    spec fn inv(&self) -> bool {
        self.history@.len() <= self.slots
    }

    /// An empty log that retains at most `log_slots` snapshots.
    pub fn new(log_slots: usize) -> (log: Self)
        ensures
            log@ == (LumiView {
                slots: log_slots as nat,
                state: Seq::<u8>::empty(),
                history: Seq::<SnapshotView>::empty(),
            }),
    {
        let log = Lumi { slots: log_slots, current: Vec::new(), history: Vec::new() };
        assert(log@.history =~= Seq::<SnapshotView>::empty());
        log
    }

    /// The current state bytes.
    pub fn read(&self) -> (state: &Vec<u8>)
        ensures
            state@ == self@.state,
    {
        &self.current
    }

    /// Replaces the current state bytes.
    pub fn write(&mut self, state: Vec<u8>)
        ensures
            final(self)@ == (LumiView { state: state@, ..old(self)@ }),
    {
        proof {
            use_type_invariant(&*self);
        }
        self.current = state;
    }

    /// How many snapshots are retained, never more than the log has slots.
    pub fn len(&self) -> (n: usize)
        ensures
            n == self@.history.len(),
            n <= self@.slots,
    {
        proof {
            use_type_invariant(self);
        }
        self.history.len()
    }

    /// Appends a snapshot of the current state, taken at `time` with `agenda`
    /// outstanding.
    pub fn record(&mut self, time: u64, agenda: Vec<Event>)
        ensures
            final(self)@ == old(self)@.after_record(time, agenda@),
    {
        proof {
            use_type_invariant(&*self);
        }
        if self.slots == 0 {
            return ;
        }
        let ghost before = self@;
        let state = copy_bytes(&self.current);
        let mut history: Vec<Snapshot> = Vec::new();
        core::mem::swap(&mut self.history, &mut history);
        if history.len() >= self.slots {
            let _ = history.remove(0);
        }
        history.push(Snapshot { time, state, agenda });
        core::mem::swap(&mut self.history, &mut history);
        assert(self@.history =~= before.after_record(time, agenda@).history);
    }

    /// Rolls the log back to the most recent snapshot taken at or before `time` and
    /// returns the time of that snapshot with the events that were outstanding then.
    /// When no retained snapshot is that old the log stays as it is.
    pub fn restore(&mut self, time: u64) -> (res: Result<(u64, Vec<Event>), SimError>)
        ensures
            final(self)@ == old(self)@.after_restore(time),
            res is Ok <==> restore_point(old(self)@.history, time) >= 0,
            res is Ok ==> {
                let snap = old(self)@.history[restore_point(old(self)@.history, time)];
                res->Ok_0.0 == snap.time && res->Ok_0.1@ == snap.agenda
            },
            res is Err ==> res->Err_0 == SimError::RollbackHorizonExceeded,
    {
        proof {
            use_type_invariant(&*self);
        }
        let ghost before = self@;
        let mut k: usize = self.history.len();
        assert(before.history.subrange(0, k as int) =~= before.history);
        while k > 0 && self.history[k - 1].time > time
            invariant
                k <= self.history@.len(),
                self@ == before,
                restore_point(before.history, time) == restore_point(
                    before.history.subrange(0, k as int),
                    time,
                ),
            decreases k,
        {
            proof {
                let cut = before.history.subrange(0, k as int);
                assert(cut.drop_last() =~= before.history.subrange(0, k - 1));
            }
            k = k - 1;
        }
        if k == 0 {
            return Err(SimError::RollbackHorizonExceeded);
        }
        let at = self.history[k - 1].time;
        let state = copy_bytes(&self.history[k - 1].state);
        let agenda = copy_events(&self.history[k - 1].agenda);
        let mut history: Vec<Snapshot> = Vec::new();
        core::mem::swap(&mut self.history, &mut history);
        history.truncate(k);
        core::mem::swap(&mut self.history, &mut history);
        self.current = state;
        assert(self@.history =~= before.history.subrange(0, k as int));
        Ok((at, agenda))
    }
}

} // verus!
