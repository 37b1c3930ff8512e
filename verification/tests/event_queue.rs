use mwi_sim_core::event_queue::{EventKey, StableEventQueue};
use mwi_sim_core::{SimError, SimTime};

fn time(value: f64) -> SimTime {
    SimTime::new(value.to_bits()).unwrap()
}

#[test]
fn pops_earlier_events_first_and_preserves_fifo_for_equal_times() {
    let mut queue = StableEventQueue::new();
    queue.schedule(time(10.0), "late");
    queue.schedule(time(5.0), "equal-first");
    queue.schedule(time(5.0), "equal-second");

    assert_eq!(queue.pop_next().unwrap().payload, "equal-first");
    assert_eq!(queue.pop_next().unwrap().payload, "equal-second");
    assert_eq!(queue.pop_next().unwrap().payload, "late");
    assert!(queue.pop_next().is_none());
}

#[test]
fn cancellation_is_lazy_but_removed_from_the_live_count_immediately() {
    let mut queue = StableEventQueue::new();
    let cancelled = queue.schedule(time(1.0), "cancelled");
    queue.schedule(time(2.0), "live");

    queue.cancel(cancelled).unwrap();
    assert_eq!(queue.live_len(), 1);
    assert_eq!(queue.heap_len(), 2);
    assert_eq!(queue.peek_key().unwrap().at, time(2.0));
    assert_eq!(queue.pop_next().unwrap().payload, "live");
    assert!(queue.is_empty());
}

#[test]
fn stale_or_consumed_handles_cannot_cancel_another_event() {
    let mut queue = StableEventQueue::new();
    let first = queue.schedule(time(1.0), "first");
    let second = queue.schedule(time(2.0), "second");

    assert_eq!(queue.pop_next().unwrap().handle, first);
    assert!(matches!(queue.cancel(first), Err(SimError::StaleEventHandle)));
    queue.cancel(second).unwrap();
    assert!(queue.pop_next().is_none());
}

#[test]
fn handles_count_scheduled_events_from_zero() {
    let mut queue = StableEventQueue::new();
    let a = queue.schedule(time(3.0), 'a');
    let b = queue.schedule(time(1.0), 'b');
    assert_eq!((a.id(), a.generation()), (0, 0));
    assert_eq!((b.id(), b.generation()), (1, 0));
    assert_eq!(queue.issued_count(), 2);
    let popped = queue.pop_next().unwrap();
    assert_eq!(popped.key, EventKey { at: time(1.0), sequence: 1 });
    assert_eq!(popped.handle, b);
}

#[test]
fn cancelling_a_fresh_handle_restores_the_live_events() {
    let mut queue = StableEventQueue::new();
    queue.schedule(time(4.0), "kept");
    let live_before = queue.live_len();
    let undone = queue.schedule(time(1.0), "undone");
    assert_eq!(queue.live_len(), live_before + 1);
    queue.cancel(undone).unwrap();
    assert_eq!(queue.live_len(), live_before);
    assert_eq!(queue.pop_next().unwrap().payload, "kept");
}

#[test]
fn a_handle_cancels_only_once() {
    let mut queue = StableEventQueue::new();
    let h = queue.schedule(time(0.0), ());
    assert!(queue.cancel(h).is_ok());
    assert_eq!(queue.cancel(h), Err(SimError::StaleEventHandle));
    assert!(queue.is_empty());
    assert!(queue.peek_key().is_none());
    assert_eq!(queue.heap_len(), 0);
}

#[test]
fn pops_come_out_in_key_order() {
    let mut queue = StableEventQueue::default();
    for (i, t) in [7.5, 0.25, 7.5, 3.0, 0.25].iter().enumerate() {
        queue.schedule(time(*t), i);
    }
    let mut order = Vec::new();
    while let Some(event) = queue.pop_next() {
        order.push(event.payload);
    }
    assert_eq!(order, vec![1, 4, 3, 0, 2]);
}

#[test]
fn handle_ids_count_schedules_across_other_calls() {
    let mut queue = StableEventQueue::new();
    let mut ids = Vec::new();
    ids.push(queue.schedule(time(5.0), 0).id());
    ids.push(queue.schedule(time(1.0), 1).id());
    let cancelled = queue.schedule(time(2.0), 2);
    queue.cancel(cancelled).unwrap();
    queue.pop_next().unwrap();
    queue.peek_key();
    ids.push(queue.schedule(time(0.5), 3).id());
    queue.pop_next().unwrap();
    ids.push(queue.schedule(time(9.0), 4).id());
    assert_eq!(ids, vec![0, 1, 3, 4]);
    assert_eq!(queue.issued_count(), 5);
}
