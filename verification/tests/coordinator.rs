use aika::logger::Lumi;
use aika::timewarp::antimessage::Annihilator;
use aika::timewarp::comms::Transferable;
use aika::timewarp::gvt::{Phase, GVT};
use aika::timewarp::lp::Work;
use aika::timewarp::paragent::{HandlerOutput, LogicalProcess};
use aika::worlds::{Action, Event, Message, SimError};
use aika::{MessengerAgent, SingleStepAgent, TestAgent};

/// Answers every message that carries bytes with a message to `to` at the same
/// timestamp.
struct Forwarder {
    id: usize,
    to: usize,
}

impl LogicalProcess for Forwarder {
    fn step(&mut self, time: &u64, _state: &mut Lumi) -> Event {
        Event::new(*time, *time, self.id, Action::Wait)
    }

    fn process_message(&mut self, msg: Message, _time: u64, state: &mut Lumi) -> HandlerOutput {
        if msg.payload.is_empty() {
            return HandlerOutput::Nan;
        }
        state.write(msg.duplicate().payload);
        HandlerOutput::Messages(Annihilator::new(Message::new(
            msg.payload,
            msg.timestamp,
            self.id,
            self.to,
        )))
    }
}

/// Counts the messages it has applied in its state bytes.
struct Sink {
    id: usize,
}

impl LogicalProcess for Sink {
    fn step(&mut self, time: &u64, _state: &mut Lumi) -> Event {
        Event::new(*time, *time, self.id, Action::Wait)
    }

    fn process_message(&mut self, msg: Message, _time: u64, state: &mut Lumi) -> HandlerOutput {
        let mut seen = state.read().clone();
        seen.push(msg.timestamp as u8);
        state.write(seen);
        HandlerOutput::Nan
    }
}

/// Passes every message that carries bytes on to `to`, to be applied one time unit
/// after it was to be applied here.
struct Hop {
    id: usize,
    to: usize,
}

impl LogicalProcess for Hop {
    fn step(&mut self, time: &u64, _state: &mut Lumi) -> Event {
        Event::new(*time, *time, self.id, Action::Wait)
    }

    fn process_message(&mut self, msg: Message, _time: u64, _state: &mut Lumi) -> HandlerOutput {
        if msg.payload.is_empty() {
            return HandlerOutput::Nan;
        }
        HandlerOutput::Messages(Annihilator::new(Message::new(
            msg.payload,
            msg.timestamp + 1,
            self.id,
            self.to,
        )))
    }
}

fn trigger(timestamp: u64, to: usize) -> Transferable {
    Transferable::Message(Message::new(vec![timestamp as u8], timestamp, 9, to))
}

fn agent(id: usize) -> Box<dyn LogicalProcess> {
    Box::new(TestAgent::new(id, format!("Test{}", id)))
}

#[test]
fn engine_starts_empty() {
    let gvt = GVT::<3, 4, 8, 1>::start_engine(25);
    assert_eq!(gvt.global_time(), 0);
    assert_eq!(gvt.terminal(), 25);
    assert_eq!(gvt.registered(), 0);
    assert_eq!(gvt.phase(), Phase::Initializing);
    for slot in 0..4 {
        assert_eq!(gvt.local_time(slot), None);
        assert!(gvt.lp(slot).is_none());
        assert_eq!(gvt.overflow_len(slot), 0);
        assert_eq!(gvt.inbound_len(slot), 0);
        assert_eq!(gvt.staging_len(slot), 0);
    }
}

#[test]
fn processes_fill_the_table_from_its_last_slot() {
    let mut gvt = GVT::<2, 4, 8, 1>::start_engine(10);
    assert_eq!(gvt.spawn_process(agent(1), 1, 8), Ok(()));
    assert!(gvt.lp(0).is_none());
    assert_eq!(gvt.lp(1).map(|lp| lp.id()), Some(1));
    assert_eq!(gvt.local_time(1), Some(0));
    assert_eq!(gvt.local_time(0), None);
    assert_eq!(gvt.init_comms(), Err(SimError::MismatchLPsCount));
    assert_eq!(gvt.phase(), Phase::Initializing);
    assert_eq!(gvt.spawn_process(agent(0), 1, 8), Ok(()));
    assert_eq!(gvt.lp(0).map(|lp| lp.id()), Some(0));
    assert_eq!(gvt.registered(), 2);
    assert_eq!(gvt.spawn_process(agent(5), 1, 8), Err(SimError::LPsFull));
    assert_eq!(gvt.registered(), 2);
    assert_eq!(gvt.init_comms(), Ok(()));
    assert_eq!(gvt.phase(), Phase::Running);
    assert_eq!(gvt.lp(0).map(|lp| lp.is_finished()), Some(false));
    assert_eq!(gvt.init_comms(), Err(SimError::MismatchLPsCount));
    assert_eq!(gvt.phase(), Phase::Running);
    assert_eq!(gvt.spawn_process(agent(5), 1, 8), Err(SimError::LPsFull));
}

#[test]
fn a_table_without_slots_is_full_at_once() {
    let mut gvt = GVT::<0, 4, 8, 1>::start_engine(10);
    assert_eq!(gvt.spawn_process(agent(0), 1, 8), Err(SimError::LPsFull));
    assert_eq!(gvt.init_comms(), Ok(()));
    assert_eq!(gvt.tick(), Ok(false));
    assert_eq!(gvt.global_time(), 0);
}

#[test]
fn global_time_is_the_least_published_clock() {
    let mut gvt = GVT::<3, 4, 8, 1>::start_engine(100);
    gvt.poll_times();
    assert_eq!(gvt.global_time(), 0);
    gvt.publish(2, 9);
    assert_eq!(gvt.local_time(2), None);
    for slot in [2, 1, 0] {
        assert_eq!(gvt.spawn_process(agent(slot), 1, 8), Ok(()));
    }
    gvt.publish(0, 7);
    gvt.publish(1, 5);
    gvt.publish(2, 9);
    gvt.publish(3, 1);
    gvt.poll_times();
    assert_eq!(gvt.global_time(), 5);
    gvt.publish(1, 8);
    gvt.poll_times();
    assert_eq!(gvt.global_time(), 7);
    gvt.publish(0, u64::MAX);
    gvt.publish(1, u64::MAX);
    gvt.publish(2, u64::MAX);
    gvt.poll_times();
    assert_eq!(gvt.global_time(), u64::MAX);
}

#[test]
fn injected_items_go_to_the_ring_or_behind_the_overflow() {
    let mut gvt = GVT::<2, 1, 8, 1>::start_engine(100);
    assert_eq!(gvt.inject(trigger(1, 0)), Err(trigger(1, 0)));
    assert_eq!(gvt.spawn_process(agent(1), 1, 8), Ok(()));
    assert_eq!(gvt.spawn_process(agent(0), 1, 8), Ok(()));
    assert_eq!(gvt.init_comms(), Ok(()));
    assert_eq!(gvt.inject(trigger(1, 2)), Err(trigger(1, 2)));
    assert_eq!(gvt.inject(trigger(1, 0)), Ok(()));
    assert_eq!(gvt.inject(trigger(2, 0)), Ok(()));
    assert_eq!(gvt.inject(trigger(3, 0)), Ok(()));
    assert_eq!(gvt.inbound_len(0), 1);
    assert_eq!(gvt.overflow_len(0), 2);
    assert_eq!(gvt.inbound_len(1), 0);
    assert_eq!(gvt.overflow_len(1), 0);
}

#[test]
fn overflow_is_retried_most_recent_first_as_far_as_the_ring_has_room() {
    let mut gvt = GVT::<2, 2, 8, 1>::start_engine(100);
    assert_eq!(gvt.spawn_process(Box::new(Sink { id: 1 }), 1, 8), Ok(()));
    assert_eq!(gvt.spawn_process(Box::new(Sink { id: 0 }), 1, 8), Ok(()));
    gvt.try_empty(0);
    assert_eq!(gvt.init_comms(), Ok(()));
    for ts in 10..15 {
        assert_eq!(gvt.inject(trigger(ts, 0)), Ok(()));
    }
    assert_eq!(gvt.inbound_len(0), 2);
    assert_eq!(gvt.overflow_len(0), 3);
    gvt.try_empty(0);
    assert_eq!(gvt.overflow_len(0), 3);
    assert_eq!(gvt.step_lp(0), Ok(None));
    assert_eq!(gvt.step_lp(0), Ok(None));
    assert_eq!(gvt.inbound_len(0), 0);
    gvt.try_empty(1);
    gvt.try_empty(7);
    assert_eq!(gvt.overflow_len(0), 3);
    gvt.try_empty(0);
    assert_eq!(gvt.inbound_len(0), 2);
    assert_eq!(gvt.overflow_len(0), 1);
    assert_eq!(gvt.step_lp(0), Ok(None));
    assert_eq!(gvt.step_lp(0), Ok(None));
    gvt.try_empty(0);
    assert_eq!(gvt.inbound_len(0), 1);
    assert_eq!(gvt.overflow_len(0), 0);
    assert_eq!(gvt.step_lp(0), Ok(None));
    assert_eq!(gvt.lp(0).map(|lp| lp.pending_len()), Some(5));
    for _ in 0..40 {
        assert!(matches!(gvt.step_lp(0), Ok(Some(_))));
    }
    // arrival order was 10, 11, then 14, 13, then 12; application goes by timestamp
    assert_eq!(gvt.lp(0).map(|lp| lp.processed_timestamps()), Some(vec![10, 11, 12, 13, 14]));
    assert_eq!(gvt.lp(0).map(|lp| lp.state().read().clone()), Some(vec![10, 11, 12, 13, 14]));
}

#[test]
fn overflow_retry_scenario_delivers_one_per_tick_and_loses_nothing() {
    let mut gvt = GVT::<4, 1, 8, 1>::start_engine(100);
    for sender in [3, 2, 1] {
        assert_eq!(gvt.spawn_process(Box::new(Forwarder { id: sender, to: 0 }), 1, 8), Ok(()));
    }
    assert_eq!(gvt.spawn_process(Box::new(Sink { id: 0 }), 1, 8), Ok(()));
    assert_eq!(gvt.init_comms(), Ok(()));
    for sender in 1..4 {
        assert_eq!(gvt.inject(trigger(sender as u64, sender)), Ok(()));
    }
    for _ in 0..8 {
        for sender in 1..4 {
            assert!(gvt.step_lp(sender).is_ok());
        }
    }
    for sender in 1..4 {
        assert_eq!(gvt.staging_len(sender), 1);
    }
    // three sends reach a ring of one slot in one tick
    assert_eq!(gvt.tick(), Ok(false));
    assert_eq!(gvt.inbound_len(0), 1);
    assert_eq!(gvt.overflow_len(0), 2);
    for sender in 1..4 {
        assert_eq!(gvt.staging_len(sender), 0);
    }
    assert_eq!(gvt.step_lp(0), Ok(None));
    assert_eq!(gvt.inbound_len(0), 0);
    assert_eq!(gvt.tick(), Ok(false));
    assert_eq!(gvt.inbound_len(0), 1);
    assert_eq!(gvt.overflow_len(0), 1);
    assert_eq!(gvt.step_lp(0), Ok(None));
    assert_eq!(gvt.tick(), Ok(false));
    assert_eq!(gvt.inbound_len(0), 1);
    assert_eq!(gvt.overflow_len(0), 0);
    assert_eq!(gvt.step_lp(0), Ok(None));
    assert_eq!(gvt.tick(), Ok(false));
    assert_eq!(gvt.inbound_len(0), 0);
    assert_eq!(gvt.overflow_len(0), 0);
    for _ in 0..20 {
        assert!(gvt.step_lp(0).is_ok());
    }
    assert_eq!(gvt.lp(0).map(|lp| lp.processed_timestamps()), Some(vec![1, 2, 3]));
}

#[test]
fn relay_stops_in_front_of_an_item_addressed_outside_the_table() {
    let mut gvt = GVT::<2, 4, 8, 1>::start_engine(100);
    assert_eq!(gvt.relay(0), Ok(()));
    assert_eq!(gvt.spawn_process(Box::new(Forwarder { id: 1, to: 0 }), 1, 8), Ok(()));
    assert_eq!(gvt.spawn_process(Box::new(Forwarder { id: 0, to: 6 }), 1, 8), Ok(()));
    assert_eq!(gvt.init_comms(), Ok(()));
    assert_eq!(gvt.relay(0), Ok(()));
    assert_eq!(gvt.relay(9), Ok(()));
    assert_eq!(gvt.inject(trigger(1, 1)), Ok(()));
    assert_eq!(gvt.inject(trigger(1, 0)), Ok(()));
    for _ in 0..6 {
        assert!(gvt.step_lp(1).is_ok());
        assert!(gvt.step_lp(0).is_ok());
    }
    assert_eq!(gvt.staging_len(0), 1);
    assert_eq!(gvt.staging_len(1), 1);
    assert_eq!(gvt.relay(1), Ok(()));
    assert_eq!(gvt.staging_len(1), 0);
    assert_eq!(gvt.inbound_len(0), 1);
    assert_eq!(gvt.relay(0), Err(SimError::PollError));
    assert_eq!(gvt.staging_len(0), 1);
    assert_eq!(gvt.tick(), Err(SimError::PollError));
    assert_eq!(gvt.staging_len(0), 1);
}

#[test]
fn a_run_of_advancing_processes_terminates_at_the_terminal_time() {
    let mut gvt = GVT::<3, 4, 8, 1>::start_engine(10);
    assert_eq!(gvt.spawn_process(agent(2), 1, 8), Ok(()));
    assert_eq!(gvt.spawn_process(Box::new(SingleStepAgent::new(1, "S".to_string())), 3, 8), Ok(()));
    assert_eq!(gvt.spawn_process(Box::new(MessengerAgent::new(0, "M".to_string())), 2, 8), Ok(()));
    assert_eq!(gvt.init_comms(), Ok(()));
    let mut rounds = 0;
    let mut last = 0;
    loop {
        let done = gvt.tick();
        assert!(gvt.global_time() >= last);
        last = gvt.global_time();
        if done == Ok(true) {
            break;
        }
        assert_eq!(done, Ok(false));
        for slot in 0..3 {
            assert!(matches!(gvt.step_lp(slot), Ok(Some(_))));
        }
        rounds += 1;
        assert!(rounds <= 100);
    }
    assert_eq!(gvt.global_time(), 10);
    assert_eq!(gvt.phase(), Phase::Terminated);
    for slot in 0..3 {
        assert_eq!(gvt.local_time(slot), Some(10));
        assert_eq!(gvt.step_lp(slot).map(|work| work != Some(Work::Ticked)), Ok(true));
    }
}

#[test]
fn messengers_greet_the_process_in_slot_one() {
    let mut gvt = GVT::<2, 4, 8, 1>::start_engine(6);
    assert_eq!(gvt.spawn_process(Box::new(Sink { id: 1 }), 1, 16), Ok(()));
    assert_eq!(gvt.spawn_process(Box::new(MessengerAgent::new(0, "M".to_string())), 1, 16), Ok(()));
    assert_eq!(gvt.init_comms(), Ok(()));
    assert_eq!(gvt.inject(trigger(2, 0)), Ok(()));
    let mut rounds = 0;
    while gvt.tick() == Ok(false) {
        assert!(gvt.step_lp(0).is_ok());
        assert!(gvt.step_lp(1).is_ok());
        rounds += 1;
        assert!(rounds <= 200);
    }
    assert_eq!(gvt.lp(0).map(|lp| lp.processed_timestamps()), Some(vec![2]));
    assert_eq!(gvt.lp(1).map(|lp| lp.processed_timestamps()), Some(vec![3]));
    assert_eq!(gvt.lp(1).map(|lp| lp.state().read().clone()), Some(vec![3]));
}

#[test]
fn end_to_end_straggler_scenario_applies_every_message_once_in_order() {
    // slot 1 is A, slot 0 is B; A forwards what it is told to B
    let mut gvt = GVT::<2, 4, 8, 1>::start_engine(10);
    assert_eq!(gvt.spawn_process(Box::new(Forwarder { id: 1, to: 0 }), 1, 64), Ok(()));
    assert_eq!(gvt.spawn_process(Box::new(Sink { id: 0 }), 1, 64), Ok(()));
    assert_eq!(gvt.init_comms(), Ok(()));
    for ts in 1..=3 {
        assert_eq!(gvt.inject(trigger(ts, 1)), Ok(()));
    }
    let mut rounds = 0;
    while gvt.lp(0).map(|lp| lp.processed_timestamps()) != Some(vec![1, 2, 3]) {
        assert!(gvt.step_lp(1).is_ok());
        assert!(gvt.step_lp(0).is_ok());
        assert_eq!(gvt.tick(), Ok(false));
        rounds += 1;
        assert!(rounds <= 200);
    }
    assert_eq!(gvt.lp(1).map(|lp| lp.sent_len()), Some(3));
    // the straggler reaches A in its past; it carries nothing to forward
    assert_eq!(gvt.inject(Transferable::Message(Message::new(vec![], 2, 9, 1))), Ok(()));
    let mut shortest = 3;
    let mut rounds = 0;
    loop {
        assert!(gvt.step_lp(1).is_ok());
        assert!(gvt.step_lp(0).is_ok());
        let seen = gvt.lp(0).map(|lp| lp.processed_timestamps()).unwrap();
        assert!(seen.windows(2).all(|pair| pair[0] < pair[1]));
        shortest = shortest.min(seen.len());
        if gvt.tick() == Ok(true) {
            break;
        }
        rounds += 1;
        assert!(rounds <= 500);
    }
    // A took the third message back and sent it again; B undid it and applied it once
    assert_eq!(shortest, 2);
    assert_eq!(gvt.lp(1).map(|lp| lp.processed_timestamps()), Some(vec![1, 2, 2, 3]));
    assert_eq!(gvt.lp(1).map(|lp| lp.sent_len()), Some(3));
    assert_eq!(gvt.lp(0).map(|lp| lp.processed_timestamps()), Some(vec![1, 2, 3]));
    assert_eq!(gvt.lp(0).map(|lp| lp.state().read().clone()), Some(vec![1, 2, 3]));
    assert_eq!(gvt.lp(0).map(|lp| lp.orphans_len()), Some(0));
    assert_eq!(gvt.lp(0).map(|lp| lp.pending_len()), Some(0));
    assert!(gvt.global_time() >= 10);
}

#[test]
fn a_tick_before_the_router_exists_only_derives_global_time() {
    let mut gvt = GVT::<2, 4, 8, 1>::start_engine(5);
    assert_eq!(gvt.spawn_process(agent(1), 1, 8), Ok(()));
    assert_eq!(gvt.tick(), Ok(false));
    assert_eq!(gvt.step_lp(1), Ok(None));
    assert_eq!(gvt.phase(), Phase::Initializing);
    gvt.publish(1, 5);
    assert_eq!(gvt.tick(), Ok(true));
    assert_eq!(gvt.global_time(), 5);
    assert_eq!(gvt.phase(), Phase::Initializing);
    let mut done = GVT::<2, 4, 8, 1>::start_engine(0);
    assert_eq!(done.tick(), Ok(true));
}

#[test]
fn rounds_drive_a_run_to_its_end() {
    let mut gvt = GVT::<2, 4, 8, 1>::start_engine(7);
    assert_eq!(gvt.spawn_process(agent(1), 1, 8), Ok(()));
    assert_eq!(gvt.spawn_process(agent(0), 2, 8), Ok(()));
    assert_eq!(gvt.init_comms(), Ok(()));
    let mut rounds = 0;
    while gvt.round() == Ok(false) {
        rounds += 1;
        assert!(rounds <= 50);
    }
    assert_eq!(gvt.round(), Ok(true));
    assert_eq!(gvt.global_time(), 7);
    assert_eq!(gvt.local_time(0), Some(7));
    assert_eq!(gvt.local_time(1), Some(7));
    assert_eq!(gvt.phase(), Phase::Terminated);
}

#[test]
fn a_round_ends_with_the_first_error() {
    let mut gvt = GVT::<2, 4, 8, 1>::start_engine(50);
    assert_eq!(gvt.spawn_process(Box::new(Sink { id: 1 }), 1, 1), Ok(()));
    assert_eq!(gvt.spawn_process(Box::new(Forwarder { id: 0, to: 9 }), 1, 8), Ok(()));
    assert_eq!(gvt.init_comms(), Ok(()));
    for _ in 0..6 {
        assert_eq!(gvt.round(), Ok(false));
    }
    // the history of slot 1 holds one snapshot, taken at its first step
    assert_eq!(gvt.inject(trigger(40, 1)), Ok(()));
    let mut rounds = 0;
    while gvt.lp(1).map(|lp| lp.processed_timestamps()) != Some(vec![40]) {
        assert_eq!(gvt.round(), Ok(false));
        rounds += 1;
        assert!(rounds <= 100);
    }
    assert_eq!(gvt.inject(trigger(3, 1)), Ok(()));
    assert_eq!(gvt.round(), Err(SimError::RollbackHorizonExceeded));
    // slot 0 forwards to a process that does not exist: the relay stops in front of it
    assert_eq!(gvt.inject(trigger(45, 0)), Ok(()));
    let mut rounds = 0;
    let mut last = Ok(false);
    while last == Ok(false) {
        last = gvt.round();
        rounds += 1;
        assert!(rounds <= 200);
    }
    assert_eq!(last, Err(SimError::PollError));
    assert_eq!(gvt.staging_len(0), 1);
}

#[test]
fn random_traffic_is_applied_in_timestamp_order_and_the_run_ends() {
    let mut seed: u64 = 0x2545_f491_4f6c_dd1d;
    let mut next = move |bound: u64| {
        seed = seed.wrapping_mul(6364136223846793005).wrapping_add(1442695040888963407);
        (seed >> 33) % bound
    };
    let mut gvt = GVT::<4, 2, 8, 1>::start_engine(40);
    for slot in [3, 2, 1, 0] {
        let to = (slot + 1) % 4;
        assert_eq!(gvt.spawn_process(Box::new(Hop { id: slot, to }), 1, 4096), Ok(()));
    }
    assert_eq!(gvt.init_comms(), Ok(()));
    let mut injected = 0;
    let mut rounds = 0;
    loop {
        if injected < 12 && next(3) == 0 {
            let to = next(4) as usize;
            let ts = 1 + next(30);
            let payload = if next(2) == 0 { vec![ts as u8] } else { vec![] };
            let item = Transferable::Message(Message::new(payload, ts, 9, to));
            assert_eq!(gvt.inject(item), Ok(()));
            injected += 1;
        }
        let slot = next(4) as usize;
        assert!(gvt.step_lp(slot).is_ok());
        for slot in 0..4 {
            let seen = gvt.lp(slot).map(|lp| lp.processed_timestamps()).unwrap();
            assert!(seen.windows(2).all(|pair| pair[0] <= pair[1]));
        }
        if next(2) == 0 && gvt.tick() == Ok(true) && injected == 12 {
            break;
        }
        rounds += 1;
        assert!(rounds < 200_000);
    }
    for slot in 0..4 {
        assert_eq!(gvt.overflow_len(slot), 0);
    }
}
