//! What holds of a process runtime whatever the hosted entity does: a rollback restores
//! the snapshot it goes back to and cancels exactly what was sent since; messages are
//! applied in the order of their timestamps; a clock that moves reaches the terminal
//! time.

use vstd::prelude::*;
use crate::logger::{lemma_restore_point, restore_point, SnapshotView};
use crate::worlds::{Event, Message, SimError};
use crate::timewarp::antimessage::AntiMessage;
use crate::timewarp::comms::{CommsView, Transferable};
use crate::timewarp::lp::{
    antimessages_of, clock_after, earliest, first_applied, first_cancelled, first_orphan,
    messages_of, undone_applied, undone_sent, Applied, LpView, Reply, Sent, Work,
};
use crate::timewarp::paragent::HandlerOutput;

verus! {

/// Where the entries of `later` were all made after local time `t` and those of `kept`
/// end at or before it, the entries to undo are exactly those of `later`.
pub proof fn lemma_undone_sent(kept: Seq<Sent>, later: Seq<Sent>, t: u64)
    requires
        kept.len() == 0 || kept.last().at <= t,
        forall|i: int| 0 <= i < later.len() ==> (#[trigger] later[i]).at > t,
    ensures
        undone_sent(kept + later, t) == later.len(),
    decreases later.len(),
{
    let all = kept + later;
    if later.len() == 0 {
    } else {
        assert(all.drop_last() =~= kept + later.drop_last());
        lemma_undone_sent(kept, later.drop_last(), t);
    }
}

/// Where the entries of `later` were all made after local time `t` and those of `kept`
/// end at or before it, the entries to undo are exactly those of `later`.
pub proof fn lemma_undone_applied(kept: Seq<Applied>, later: Seq<Applied>, t: u64)
    requires
        kept.len() == 0 || kept.last().at <= t,
        forall|i: int| 0 <= i < later.len() ==> (#[trigger] later[i]).at > t,
    ensures
        undone_applied(kept + later, t) == later.len(),
    decreases later.len(),
{
    let all = kept + later;
    if later.len() == 0 {
    } else {
        assert(all.drop_last() =~= kept + later.drop_last());
        lemma_undone_applied(kept, later.drop_last(), t);
    }
}

/// A rollback undoes exactly what came after the snapshot it restores.
///
/// Let `before` be the runtime at the moment of a snapshot, and `now` the runtime
/// later on, after it has sent `later_sent` and applied `later_applied`. Where a
/// rollback to `time` restores that snapshot, clock, state bytes, agenda and both logs
/// are again those of `before`; the outbox has gained the antimessages of exactly the
/// messages of `later_sent`, in the order of sending; and the messages of
/// `later_applied` are pending again, in the order of applying. From there the runtime
/// goes on as it would have gone on from `before`.
pub proof fn lemma_rollback_restores(
    before: LpView,
    now: LpView,
    later_sent: Seq<Sent>,
    later_applied: Seq<Applied>,
    time: u64,
)
    requires
        now.can_rollback(time),
        now.state.history[restore_point(now.state.history, time)] == (SnapshotView {
            time: before.time,
            state: before.state.state,
            agenda: before.agenda,
        }),
        now.sent == before.sent + later_sent,
        before.sent.len() == 0 || before.sent.last().at <= before.time,
        forall|i: int| 0 <= i < later_sent.len() ==> (#[trigger] later_sent[i]).at > before.time,
        now.processed == before.processed + later_applied,
        before.processed.len() == 0 || before.processed.last().at <= before.time,
        forall|i: int|
            0 <= i < later_applied.len() ==> (#[trigger] later_applied[i]).at > before.time,
    ensures
        now.after_rollback(time).time == before.time,
        now.after_rollback(time).state.state == before.state.state,
        now.after_rollback(time).agenda == before.agenda,
        now.after_rollback(time).sent == before.sent,
        now.after_rollback(time).processed == before.processed,
        now.after_rollback(time).outbox == now.outbox + antimessages_of(later_sent),
        now.after_rollback(time).pending == now.pending + messages_of(later_applied),
{
    lemma_undone_sent(before.sent, later_sent, before.time);
    lemma_undone_applied(before.processed, later_applied, before.time);
    let kept_sent = before.sent.len() as int;
    let kept_applied = before.processed.len() as int;
}

/// A unit of local work never sets the clock back: only a rollback does.
pub proof fn lemma_work_keeps_time(before: LpView, after: LpView, work: Work, window: nat)
    requires
        before.advances(after, work, window),
    ensures
        after.time >= before.time,
{
}

/// The clock after `n` idle ticks.
pub open spec fn clock_after_ticks(time: u64, timestep: u64, terminal: u64, n: nat) -> u64
    decreases n,
{
    if n == 0 {
        time
    } else {
        clock_after(clock_after_ticks(time, timestep, terminal, (n - 1) as nat), timestep, terminal)
    }
}

/// A clock that moves by at least one unit per tick is `n` units further after `n`
/// idle ticks, unless it has stopped at the terminal time before; so it stands at the
/// terminal time after as many ticks as there are units between the two.
pub proof fn lemma_clock_reaches_terminal(time: u64, timestep: u64, terminal: u64, n: nat)
    requires
        timestep >= 1,
        time <= terminal,
    ensures
        clock_after_ticks(time, timestep, terminal, n) <= terminal,
        clock_after_ticks(time, timestep, terminal, n) == terminal || clock_after_ticks(
            time,
            timestep,
            terminal,
            n,
        ) >= time + n,
        n >= terminal - time ==> clock_after_ticks(time, timestep, terminal, n) == terminal,
    decreases n,
{
    if n > 0 {
        lemma_clock_reaches_terminal(time, timestep, terminal, (n - 1) as nat);
    }
}

/// In a log of sent messages whose stamps never go back, the entries to undo are all
/// those made after local time `t`, and no others.
pub proof fn lemma_undone_sent_sorted(sent: Seq<Sent>, t: u64)
    requires
        forall|i: int, j: int|
            0 <= i <= j < sent.len() ==> (#[trigger] sent[i]).at <= (#[trigger] sent[j]).at,
    ensures
        undone_sent(sent, t) <= sent.len(),
        forall|i: int|
            0 <= i < sent.len() ==> ((#[trigger] sent[i]).at > t <==> i >= sent.len() - undone_sent(
                sent,
                t,
            )),
    decreases sent.len(),
{
    if sent.len() > 0 && sent.last().at > t {
        let rest = sent.drop_last();
        assert forall|i: int, j: int| 0 <= i <= j < rest.len() implies (#[trigger] rest[i]).at <= (
        #[trigger] rest[j]).at by {}
        lemma_undone_sent_sorted(rest, t);
        assert forall|i: int| 0 <= i < sent.len() implies ((#[trigger] sent[i]).at > t <==> i
            >= sent.len() - undone_sent(sent, t)) by {
            if i < rest.len() {
                assert(rest[i] == sent[i]);
            }
        }
    } else if sent.len() > 0 {
        assert forall|i: int| 0 <= i < sent.len() implies (#[trigger] sent[i]).at <= t by {}
    }
}

/// In a log of applied messages whose stamps never go back, the entries to undo are
/// all those made after local time `t`, and no others.
pub proof fn lemma_undone_applied_sorted(processed: Seq<Applied>, t: u64)
    requires
        forall|i: int, j: int|
            0 <= i <= j < processed.len() ==> (#[trigger] processed[i]).at <= (
            #[trigger] processed[j]).at,
    ensures
        undone_applied(processed, t) <= processed.len(),
        forall|i: int|
            0 <= i < processed.len() ==> ((#[trigger] processed[i]).at > t <==> i
                >= processed.len() - undone_applied(processed, t)),
    decreases processed.len(),
{
    if processed.len() > 0 && processed.last().at > t {
        let rest = processed.drop_last();
        assert forall|i: int, j: int| 0 <= i <= j < rest.len() implies (#[trigger] rest[i]).at <= (
        #[trigger] rest[j]).at by {}
        lemma_undone_applied_sorted(rest, t);
        assert forall|i: int| 0 <= i < processed.len() implies ((#[trigger] processed[i]).at > t
            <==> i >= processed.len() - undone_applied(processed, t)) by {
            if i < rest.len() {
                assert(rest[i] == processed[i]);
            }
        }
    } else if processed.len() > 0 {
        assert forall|i: int| 0 <= i < processed.len() implies (#[trigger] processed[i]).at
            <= t by {}
    }
}

/// A rollback keeps the logs in order, and it takes the clock to a time that is not
/// later than the time asked for.
pub proof fn lemma_rollback_keeps_order(before: LpView, time: u64)
    requires
        before.in_order(),
        before.can_rollback(time),
    ensures
        before.after_rollback(time).in_order(),
        before.after_rollback(time).time <= time,
{
    let after = before.after_rollback(time);
    lemma_restore_point(before.state.history, time);
    lemma_undone_sent_sorted(before.sent, after.time);
    lemma_undone_applied_sorted(before.processed, after.time);
    let kept = before.processed.len() - undone_applied(before.processed, after.time);
    assert forall|i: int, k: int|
        0 <= i < after.processed.len() && 0 <= k < after.pending.len() implies (
    #[trigger] after.processed[i]).message.timestamp <= (#[trigger] after.pending[k]).timestamp by {
        if k < before.pending.len() {
        } else {
            let back = kept + (k - before.pending.len());
        }
    }
}

/// `earliest` names a message among the first `n` that none of them is earlier than,
/// and the first such message.
pub proof fn lemma_earliest(pending: Seq<Message>, n: int)
    requires
        0 <= n <= pending.len(),
    ensures
        n == 0 ==> earliest(pending, n) == -1,
        n > 0 ==> 0 <= earliest(pending, n) < n,
        forall|k: int|
            0 <= k < n ==> pending[earliest(pending, n)].timestamp <= (
            #[trigger] pending[k]).timestamp,
        forall|k: int|
            0 <= k < earliest(pending, n) ==> (#[trigger] pending[k]).timestamp
                > pending[earliest(pending, n)].timestamp,
    decreases n,
{
    if n > 0 {
        lemma_earliest(pending, n - 1);
    }
}

/// Taking in an item keeps the logs in order.
pub proof fn lemma_deliver_keeps_order(before: LpView, item: Transferable)
    requires
        before.in_order(),
        before.accepts(item),
    ensures
        before.after_deliver(item).in_order(),
{
    let after = before.after_deliver(item);
    match item {
        Transferable::Message(m) => {
            if first_orphan(before.orphans, m@, 0) < 0 && m.timestamp < before.time {
                lemma_rollback_keeps_order(before, m.timestamp);
                let back = before.after_rollback(m.timestamp);
                assert forall|i: int, k: int|
                    0 <= i < after.processed.len() && 0 <= k < after.pending.len() implies (
                #[trigger] after.processed[i]).message.timestamp <= (
                #[trigger] after.pending[k]).timestamp by {
                }
            } else if first_orphan(before.orphans, m@, 0) < 0 {
                assert forall|i: int, k: int|
                    0 <= i < after.processed.len() && 0 <= k < after.pending.len() implies (
                #[trigger] after.processed[i]).message.timestamp <= (
                #[trigger] after.pending[k]).timestamp by {
                }
            }
        },
        Transferable::AntiMessage(a) => {
            let queued = first_cancelled(before.pending, a, 0);
            let applied = first_applied(before.processed, a, 0);
            if queued >= 0 {
                lemma_first_cancelled(before.pending, a, 0);
                assert forall|i: int, k: int|
                    0 <= i < after.processed.len() && 0 <= k < after.pending.len() implies (
                #[trigger] after.processed[i]).message.timestamp <= (
                #[trigger] after.pending[k]).timestamp by {
                }
            } else if applied >= 0 {
                let target = (before.processed[applied].at - 1) as u64;
                lemma_rollback_keeps_order(before, target);
                let back = before.after_rollback(target);
                let again = first_cancelled(back.pending, a, 0);
                if again >= 0 {
                    lemma_first_cancelled(back.pending, a, 0);
                    assert forall|i: int, k: int|
                        0 <= i < after.processed.len() && 0 <= k < after.pending.len() implies (
                    #[trigger] after.processed[i]).message.timestamp <= (
                    #[trigger] after.pending[k]).timestamp by {
                    }
                }
            }
        },
    }
}

/// `first_cancelled` names a pending message that `anti` cancels, and no message from
/// `from` on before it is one; it is `-1` exactly when `anti` cancels none of them.
pub proof fn lemma_first_cancelled(pending: Seq<Message>, anti: AntiMessage, from: int)
    requires
        0 <= from,
    ensures
        ({
            let k = first_cancelled(pending, anti, from);
            &&& (k == -1 || from <= k < pending.len())
            &&& (k >= 0 ==> anti.cancels(pending[k]@))
            &&& forall|j: int|
                from <= j < pending.len() && (k == -1 || j < k) ==> !anti.cancels(
                    (#[trigger] pending[j])@,
                )
        }),
    decreases pending.len() - from,
{
    if from < pending.len() && !anti.cancels(pending[from]@) {
        lemma_first_cancelled(pending, anti, from + 1);
    }
}

/// `first_applied` names an applied message that `anti` cancels, where it names one.
pub proof fn lemma_first_applied(processed: Seq<Applied>, anti: AntiMessage, from: int)
    requires
        0 <= from,
    ensures
        ({
            let k = first_applied(processed, anti, from);
            &&& (k == -1 || from <= k < processed.len())
            &&& (k >= 0 ==> anti.cancels(processed[k].message@))
        }),
    decreases processed.len() - from,
{
    if from < processed.len() && !anti.cancels(processed[from].message@) {
        lemma_first_applied(processed, anti, from + 1);
    }
}

/// An antimessage always finds the message it has rolled back for. Where the logs are
/// in order and the message that `anti` cancels has been applied, the rollback to
/// before the time of applying it makes that message pending again, so that the
/// antimessage annihilates it and does not stay behind.
pub proof fn lemma_cascade_annihilates(before: LpView, anti: AntiMessage)
    requires
        before.in_order(),
        first_cancelled(before.pending, anti, 0) < 0,
        first_applied(before.processed, anti, 0) >= 0,
        before.accepts(Transferable::AntiMessage(anti)),
    ensures
        ({
            let applied = first_applied(before.processed, anti, 0);
            let back = before.after_rollback((before.processed[applied].at - 1) as u64);
            first_cancelled(back.pending, anti, 0) >= 0
        }),
{
    let applied = first_applied(before.processed, anti, 0);
    lemma_first_applied(before.processed, anti, 0);
    let target = (before.processed[applied].at - 1) as u64;
    let back = before.after_rollback(target);
    lemma_restore_point(before.state.history, target);
    lemma_undone_applied_sorted(before.processed, back.time);
    let kept = before.processed.len() - undone_applied(before.processed, back.time);
    let again = before.pending.len() + (applied - kept);
    assert(back.pending[again] == before.processed[applied].message);
    lemma_first_cancelled(back.pending, anti, 0);
}

/// Taking in a scheduling decision keeps the logs in order.
pub proof fn lemma_commit_keeps_order(before: LpView, event: Event)
    requires
        before.in_order(),
    ensures
        before.after_commit(event).in_order(),
{
}

/// Taking in the answer of a handler keeps the logs in order.
pub proof fn lemma_output_keeps_order(before: LpView, output: HandlerOutput)
    requires
        before.in_order(),
    ensures
        before.after_output(output).in_order(),
{
    let after = before.after_output(output);
    match output {
        HandlerOutput::Messages(pair) => {
            assert forall|i: int, j: int| 0 <= i <= j < after.sent.len() implies (
            #[trigger] after.sent[i]).at <= (#[trigger] after.sent[j]).at by {
                if j < before.sent.len() {
                } else if i < before.sent.len() {
                }
            }
            assert forall|i: int| 0 <= i < after.sent.len() implies (#[trigger] after.sent[i]).at
                <= after.time by {
            }
        },
        HandlerOutput::Event(event) => {
            lemma_commit_keeps_order(before, event);
        },
        HandlerOutput::Nan => {},
    }
}

/// A unit of local work keeps the logs in order: within one process, messages are
/// applied in the order of their timestamps, whatever the order of their arrival.
pub proof fn lemma_work_keeps_order(before: LpView, after: LpView, work: Work, window: nat)
    requires
        before.in_order(),
        before.advances(after, work, window),
    ensures
        after.in_order(),
{
    let at = before.due_message();
    if at >= 0 {
        lemma_earliest(before.pending, before.pending.len() as int);
        let n = before.processed.len() as int;
        assert forall|i: int| 0 <= i < n implies #[trigger] after.processed[i]
            == before.processed[i] by {}
        assert forall|k: int| 0 <= k < after.pending.len() implies (
        #[trigger] after.pending[k]).timestamp >= before.pending[at].timestamp by {
        }
        assert forall|i: int, k: int|
            0 <= i < after.processed.len() && 0 <= k < after.pending.len() implies (
        #[trigger] after.processed[i]).message.timestamp <= (
        #[trigger] after.pending[k]).timestamp by {
        }
        assert forall|i: int, j: int| 0 <= i <= j < after.processed.len() implies (
        #[trigger] after.processed[i]).message.timestamp <= (
        #[trigger] after.processed[j]).message.timestamp by {
        }
        match work {
            Work::Applied(Reply::Sent(anti)) => {
                assert forall|i: int, j: int| 0 <= i <= j < after.sent.len() implies (
                #[trigger] after.sent[i]).at <= (#[trigger] after.sent[j]).at by {
                    if j < before.sent.len() {
                    } else if i < before.sent.len() {
                    }
                }
                assert forall|i: int| 0 <= i < after.sent.len() implies (
                #[trigger] after.sent[i]).at <= after.time by {
                }
            },
            _ => {},
        }
    }
}

/// One turn of the process loop keeps the logs in order, whatever the router held and
/// however the turn ended.
pub proof fn lemma_turn_keeps_order(
    before: LpView,
    comms: CommsView,
    after: LpView,
    routed: CommsView,
    outcome: Result<Option<Work>, SimError>,
    size: nat,
    window: nat,
)
    requires
        before.in_order(),
        before.turns(comms, after, routed, outcome, size, window),
    ensures
        after.in_order(),
{
    let flushed = before.after_flush(comms, size);
    let staged = before.flushed_into(comms, size);
    let me = before.id as int;
    if me < staged.inbound.len() && staged.inbound[me].len() > 0 {
        let item = staged.inbound[me][0];
        if flushed.accepts(item) {
            lemma_deliver_keeps_order(flushed, item);
        }
    } else {
        lemma_work_keeps_order(flushed, after, outcome->Ok_0->0, window);
    }
}

} // verus!
