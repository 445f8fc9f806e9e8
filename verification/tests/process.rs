use aika::logger::Lumi;
use aika::timewarp::antimessage::{Annihilator, AntiMessage};
use aika::timewarp::comms::{CircularBuffer, Comms, Transferable};
use aika::timewarp::lp::{Reply, Work, LP};
use aika::timewarp::paragent::{HandlerOutput, LogicalProcess};
use aika::worlds::{Action, Event, Message, SimError};
use aika::{MessengerAgent, SingleStepAgent, TestAgent};

/// Answers every message that carries bytes with a message to `to` at the same
/// timestamp, and keeps the bytes of the last one as its state.
struct Relay {
    id: usize,
    to: usize,
}

impl LogicalProcess for Relay {
    fn step(&mut self, time: &u64, _state: &mut Lumi) -> Event {
        Event::new(*time, *time, self.id, Action::Wait)
    }

    fn process_message(&mut self, msg: Message, _time: u64, state: &mut Lumi) -> HandlerOutput {
        if msg.payload.is_empty() {
            return HandlerOutput::Nan;
        }
        state.write(msg.duplicate().payload);
        HandlerOutput::Messages(Annihilator::new(Message::new(
            msg.payload,
            msg.timestamp,
            self.id,
            self.to,
        )))
    }
}

/// Stops at its first step.
struct Quitter;

impl LogicalProcess for Quitter {
    fn step(&mut self, time: &u64, _state: &mut Lumi) -> Event {
        Event::new(*time, *time, 0, Action::Break)
    }

    fn process_message(&mut self, _msg: Message, time: u64, _state: &mut Lumi) -> HandlerOutput {
        HandlerOutput::Event(Event::new(time, time + 2, 0, Action::Schedule(time + 2)))
    }
}

fn trigger(timestamp: u64, to: usize) -> Transferable {
    Transferable::Message(Message::new(vec![timestamp as u8], timestamp, 9, to))
}

fn rings<const SIZE: usize>(n: usize) -> Vec<CircularBuffer<SIZE>> {
    let mut all = Vec::new();
    for _ in 0..n {
        all.push(CircularBuffer::new());
    }
    all
}

fn relay_at(id: usize, to: usize, log_slots: usize) -> LP<4, 1, 4> {
    let mut lp = LP::<4, 1, 4>::new(id, Box::new(Relay { id, to }), 1, log_slots);
    lp.set_terminal(100);
    lp
}

#[test]
fn example_agents_answer_as_documented() {
    let mut log = Lumi::new(1);
    let mut test = TestAgent::new(3, "Test".to_string());
    assert_eq!(test.id, 3);
    assert_eq!(test.name, "Test");
    assert_eq!(test.get_state(), None);
    assert_eq!(test.step(&7, &mut log), Event::new(7, 8, 3, Action::Timeout(1)));
    assert_eq!(
        test.step(&u64::MAX, &mut log),
        Event::new(u64::MAX, u64::MAX, 3, Action::Timeout(1))
    );
    assert!(matches!(
        test.process_message(Message::new(vec![], 1, 0, 3), 1, &mut log),
        HandlerOutput::Nan
    ));
    let mut single = SingleStepAgent::new(4, "Single".to_string());
    assert_eq!(single.id, 4);
    assert_eq!(single.get_state(), None);
    assert_eq!(single.step(&7, &mut log), Event::new(7, 7, 4, Action::Wait));
    let mut messenger = MessengerAgent::new(5, "Messenger".to_string());
    assert_eq!(messenger.id, 5);
    assert_eq!(messenger.get_state(), None);
    assert_eq!(messenger.step(&2, &mut log), Event::new(2, 2, 5, Action::Wait));
    match messenger.process_message(Message::new(vec![1], 2, 0, 5), 2, &mut log) {
        HandlerOutput::Messages(pair) => {
            let (message, anti) = pair.split();
            assert_eq!(message, Message::new(b"Hello".to_vec(), 3, 5, 1));
            assert_eq!(anti, AntiMessage { sender: 5, destination: 1, timestamp: 3 });
        }
        _ => panic!("a messenger answers every message"),
    }
    assert!(matches!(
        messenger.process_message(Message::new(vec![1], 2, 0, 5), u64::MAX, &mut log),
        HandlerOutput::Nan
    ));
}

#[test]
fn process_steps_when_due_and_ticks_otherwise() {
    let mut lp = LP::<4, 1, 4>::new(2, Box::new(TestAgent::new(2, "t".to_string())), 1, 8);
    assert_eq!(lp.id(), 2);
    assert_eq!(lp.time(), 0);
    assert_eq!(lp.agenda_len(), 1);
    assert_eq!(lp.state().len(), 1);
    assert!(lp.is_finished());
    lp.set_terminal(3);
    assert!(!lp.is_finished());
    assert_eq!(lp.advance(), Work::Stepped(Event::new(0, 1, 2, Action::Timeout(1))));
    assert_eq!(lp.advance(), Work::Ticked);
    assert_eq!(lp.time(), 1);
    assert_eq!(lp.advance(), Work::Stepped(Event::new(1, 2, 2, Action::Timeout(1))));
    assert_eq!(lp.advance(), Work::Ticked);
    assert_eq!(lp.advance(), Work::Stepped(Event::new(2, 3, 2, Action::Timeout(1))));
    assert_eq!(lp.advance(), Work::Ticked);
    assert_eq!(lp.time(), 3);
    assert!(lp.is_finished());
    assert_eq!(lp.advance(), Work::Stepped(Event::new(3, 4, 2, Action::Timeout(1))));
    assert_eq!(lp.advance(), Work::Idle);
    assert_eq!(lp.time(), 3);
}

#[test]
fn clock_moves_by_the_timestep_and_stops_at_the_terminal_time() {
    let mut lp = LP::<4, 1, 4>::new(0, Box::new(SingleStepAgent::new(0, "s".to_string())), 4, 8);
    lp.set_terminal(10);
    assert_eq!(lp.advance(), Work::Stepped(Event::new(0, 0, 0, Action::Wait)));
    assert_eq!(lp.agenda_len(), 0);
    assert_eq!(lp.advance(), Work::Ticked);
    assert_eq!(lp.time(), 4);
    assert_eq!(lp.advance(), Work::Ticked);
    assert_eq!(lp.time(), 8);
    assert_eq!(lp.advance(), Work::Ticked);
    assert_eq!(lp.time(), 10);
    assert_eq!(lp.advance(), Work::Idle);
}

#[test]
fn a_stop_moves_the_clock_to_the_terminal_time() {
    let mut lp = LP::<4, 1, 4>::new(0, Box::new(Quitter), 1, 8);
    lp.set_terminal(50);
    assert_eq!(lp.advance(), Work::Stepped(Event::new(0, 0, 0, Action::Break)));
    assert_eq!(lp.time(), 50);
    assert!(lp.is_finished());
    assert_eq!(lp.advance(), Work::Idle);
}

#[test]
fn commit_schedules_wake_ups_only() {
    let mut lp = LP::<4, 1, 4>::new(0, Box::new(Quitter), 1, 8);
    lp.set_terminal(50);
    lp.commit(Event::new(0, 0, 0, Action::Wait));
    assert_eq!(lp.agenda_len(), 1);
    lp.commit(Event::new(0, 5, 0, Action::Timeout(5)));
    lp.commit(Event::new(0, 9, 0, Action::Schedule(9)));
    assert_eq!(lp.agenda_len(), 3);
    assert_eq!(lp.time(), 0);
    lp.commit(Event::new(0, 0, 0, Action::Break));
    assert_eq!(lp.time(), 50);
    assert_eq!(lp.agenda_len(), 3);
}

#[test]
fn apply_output_sends_the_message_and_keeps_its_antimessage() {
    let mut lp = relay_at(1, 0, 8);
    let pair = Annihilator::new(Message::new(vec![5], 6, 1, 0));
    assert_eq!(
        lp.apply_output(HandlerOutput::Messages(pair)),
        Reply::Sent(AntiMessage { sender: 1, destination: 0, timestamp: 6 })
    );
    assert_eq!(lp.outbox_len(), 1);
    assert_eq!(lp.sent_len(), 1);
    assert_eq!(lp.apply_output(HandlerOutput::Nan), Reply::Nothing);
    let wake = Event::new(0, 2, 1, Action::Schedule(2));
    assert_eq!(lp.apply_output(HandlerOutput::Event(wake)), Reply::Scheduled(wake));
    assert_eq!(lp.agenda_len(), 2);
    assert_eq!(lp.outbox_len(), 1);
}

#[test]
fn messages_are_applied_in_timestamp_order_once_due() {
    let mut lp = relay_at(1, 0, 16);
    assert_eq!(lp.deliver(trigger(3, 1)), Ok(()));
    assert_eq!(lp.deliver(trigger(1, 1)), Ok(()));
    assert_eq!(lp.deliver(trigger(2, 1)), Ok(()));
    assert_eq!(lp.pending_len(), 3);
    assert_eq!(lp.advance(), Work::Stepped(Event::new(0, 0, 1, Action::Wait)));
    assert_eq!(lp.advance(), Work::Ticked);
    assert_eq!(
        lp.advance(),
        Work::Applied(Reply::Sent(AntiMessage { sender: 1, destination: 0, timestamp: 1 }))
    );
    assert_eq!(lp.advance(), Work::Ticked);
    assert_eq!(
        lp.advance(),
        Work::Applied(Reply::Sent(AntiMessage { sender: 1, destination: 0, timestamp: 2 }))
    );
    assert_eq!(lp.advance(), Work::Ticked);
    assert_eq!(
        lp.advance(),
        Work::Applied(Reply::Sent(AntiMessage { sender: 1, destination: 0, timestamp: 3 }))
    );
    assert_eq!(lp.processed_timestamps(), vec![1, 2, 3]);
    assert_eq!(lp.pending_len(), 0);
    assert_eq!(lp.sent_len(), 3);
    assert_eq!(lp.outbox_len(), 3);
    assert_eq!(lp.state().read(), &vec![3]);
}

#[test]
fn a_straggler_rolls_back_and_cancels_what_was_sent_since() {
    let mut lp = relay_at(1, 0, 16);
    for ts in 1..=3 {
        assert_eq!(lp.deliver(trigger(ts, 1)), Ok(()));
    }
    for _ in 0..7 {
        lp.advance();
    }
    assert_eq!(lp.time(), 3);
    assert_eq!(lp.processed_timestamps(), vec![1, 2, 3]);
    assert_eq!(lp.outbox_len(), 3);
    let straggler = Transferable::Message(Message::new(vec![], 2, 9, 1));
    assert_eq!(lp.deliver(straggler), Ok(()));
    assert_eq!(lp.time(), 2);
    assert_eq!(lp.state().read(), &vec![2]);
    assert_eq!(lp.processed_timestamps(), vec![1, 2]);
    assert_eq!(lp.sent_len(), 2);
    assert_eq!(lp.outbox_len(), 4);
    assert_eq!(lp.pending_len(), 2);
    assert_eq!(lp.advance(), Work::Applied(Reply::Nothing));
    assert_eq!(lp.advance(), Work::Ticked);
    assert_eq!(
        lp.advance(),
        Work::Applied(Reply::Sent(AntiMessage { sender: 1, destination: 0, timestamp: 3 }))
    );
    assert_eq!(lp.processed_timestamps(), vec![1, 2, 2, 3]);
    let mut comms = Comms::<2, 8>::new(rings(2), rings(2));
    let mut wide = LP::<4, 1, 8>::new(1, Box::new(Relay { id: 1, to: 0 }), 1, 16);
    wide.set_terminal(100);
    for ts in 1..=3 {
        assert_eq!(wide.deliver(trigger(ts, 1)), Ok(()));
    }
    for _ in 0..7 {
        wide.advance();
    }
    assert_eq!(wide.deliver(Transferable::Message(Message::new(vec![], 2, 9, 1))), Ok(()));
    wide.flush(&mut comms);
    assert_eq!(wide.outbox_len(), 0);
    assert_eq!(comms.read(1), Ok(Transferable::Message(Message::new(vec![1], 1, 1, 0))));
    assert_eq!(comms.read(1), Ok(Transferable::Message(Message::new(vec![2], 2, 1, 0))));
    assert_eq!(comms.read(1), Ok(Transferable::Message(Message::new(vec![3], 3, 1, 0))));
    assert_eq!(
        comms.read(1),
        Ok(Transferable::AntiMessage(AntiMessage { sender: 1, destination: 0, timestamp: 3 }))
    );
}

#[test]
fn rollback_beyond_the_history_fails_and_changes_nothing() {
    let mut lp = relay_at(1, 0, 1);
    for ts in 1..=3 {
        assert_eq!(lp.deliver(trigger(ts, 1)), Ok(()));
    }
    for _ in 0..7 {
        lp.advance();
    }
    assert_eq!(lp.state().len(), 1);
    let straggler = Transferable::Message(Message::new(vec![], 2, 9, 1));
    assert_eq!(lp.deliver(straggler), Err(SimError::RollbackHorizonExceeded));
    assert_eq!(lp.rollback(2), Err(SimError::RollbackHorizonExceeded));
    assert_eq!(lp.time(), 3);
    assert_eq!(lp.processed_timestamps(), vec![1, 2, 3]);
    assert_eq!(lp.pending_len(), 0);
    assert_eq!(lp.sent_len(), 3);
    assert_eq!(lp.rollback(3), Ok(()));
    assert_eq!(lp.time(), 3);
    assert_eq!(lp.sent_len(), 3);
    let mut bare = relay_at(1, 0, 0);
    assert_eq!(bare.rollback(0), Err(SimError::RollbackHorizonExceeded));
}

#[test]
fn an_antimessage_annihilates_its_message_wherever_it_is() {
    let mut lp = relay_at(1, 0, 16);
    let cancel = |ts: u64| {
        Transferable::AntiMessage(AntiMessage { sender: 9, destination: 1, timestamp: ts })
    };
    // before the message: the antimessage waits and both vanish on arrival
    assert_eq!(lp.deliver(cancel(5)), Ok(()));
    assert_eq!(lp.orphans_len(), 1);
    assert_eq!(lp.deliver(trigger(5, 1)), Ok(()));
    assert_eq!(lp.orphans_len(), 0);
    assert_eq!(lp.pending_len(), 0);
    // while the message is pending
    assert_eq!(lp.deliver(trigger(2, 1)), Ok(()));
    assert_eq!(lp.deliver(trigger(1, 1)), Ok(()));
    assert_eq!(lp.deliver(cancel(2)), Ok(()));
    assert_eq!(lp.pending_len(), 1);
    // after the message was applied: roll back, then annihilate
    assert_eq!(lp.deliver(trigger(3, 1)), Ok(()));
    for _ in 0..7 {
        lp.advance();
    }
    assert_eq!(lp.time(), 4);
    assert_eq!(lp.processed_timestamps(), vec![1, 3]);
    assert_eq!(lp.outbox_len(), 2);
    assert_eq!(lp.deliver(cancel(3)), Ok(()));
    assert_eq!(lp.processed_timestamps(), vec![1]);
    assert_eq!(lp.pending_len(), 0);
    assert_eq!(lp.time(), 1);
    assert_eq!(lp.sent_len(), 1);
    assert_eq!(lp.outbox_len(), 3);
    assert_eq!(lp.state().read(), &vec![1]);
}

#[test]
fn a_turn_flushes_then_takes_in_or_works() {
    let mut comms = Comms::<2, 1>::new(rings(2), rings(2));
    let mut lp = LP::<4, 1, 1>::new(1, Box::new(Relay { id: 1, to: 0 }), 1, 16);
    lp.set_terminal(100);
    assert_eq!(comms.write(trigger(1, 1)), Ok(()));
    assert_eq!(lp.tick(&mut comms), Ok(None));
    assert_eq!(lp.pending_len(), 1);
    assert_eq!(comms.write(trigger(2, 1)), Ok(()));
    assert_eq!(lp.tick(&mut comms), Ok(None));
    assert_eq!(lp.tick(&mut comms), Ok(Some(Work::Stepped(Event::new(0, 0, 1, Action::Wait)))));
    assert_eq!(lp.tick(&mut comms), Ok(Some(Work::Ticked)));
    assert!(matches!(lp.tick(&mut comms), Ok(Some(Work::Applied(Reply::Sent(_))))));
    assert_eq!(lp.tick(&mut comms), Ok(Some(Work::Ticked)));
    assert_eq!(comms.staging_len(1), 1);
    assert!(matches!(lp.tick(&mut comms), Ok(Some(Work::Applied(Reply::Sent(_))))));
    assert_eq!(lp.outbox_len(), 1);
    assert_eq!(lp.tick(&mut comms), Ok(Some(Work::Ticked)));
    assert_eq!(lp.outbox_len(), 1);
    assert_eq!(comms.read(1), Ok(Transferable::Message(Message::new(vec![1], 1, 1, 0))));
    lp.flush(&mut comms);
    assert_eq!(lp.outbox_len(), 0);
    assert_eq!(comms.read(1), Ok(Transferable::Message(Message::new(vec![2], 2, 1, 0))));
}

#[test]
fn a_handler_can_schedule_a_wake_up() {
    let mut lp = LP::<4, 1, 4>::new(0, Box::new(Quitter), 1, 8);
    lp.set_terminal(50);
    assert_eq!(lp.deliver(trigger(0, 0)), Ok(()));
    assert_eq!(
        lp.advance(),
        Work::Applied(Reply::Scheduled(Event::new(0, 2, 0, Action::Schedule(2))))
    );
    assert_eq!(lp.agenda_len(), 2);
    assert_eq!(lp.advance(), Work::Stepped(Event::new(0, 0, 0, Action::Break)));
    assert_eq!(lp.time(), 50);
    assert_eq!(lp.advance(), Work::Stepped(Event::new(50, 50, 0, Action::Break)));
    assert_eq!(lp.advance(), Work::Idle);
}
