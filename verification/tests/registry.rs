use msgqueue::msgqueue::{MessageQueue, Payload, ServiceId, ServiceReg};
use msgqueue::state::{StateKey, StateValue};

#[test]
fn register_ids_pairwise_distinct_and_increasing() {
    let mut q = MessageQueue::new();
    let a = q.register();
    let b = q.register();
    let c = q.register();
    assert!(a < b && b < c);
    assert_eq!(a, 0);
    assert_eq!(b, 1);
    assert_eq!(c, 2);
}

#[test]
fn put_twice_peek_observes_second_only() {
    let mut q = MessageQueue::new();
    let sid = q.register();
    q.put_state(sid, StateValue::Counter(1));
    q.put_state(sid, StateValue::Counter(2));
    match q.clone_state(sid, StateKey::Counter) {
        Some(StateValue::Counter(n)) => assert_eq!(n, 2),
        _ => panic!("expected the second counter value"),
    }
}

#[test]
fn slots_of_distinct_shapes_are_independent() {
    let mut q = MessageQueue::new();
    let sid = q.register();
    q.put_state(sid, StateValue::Counter(7));
    q.put_state(sid, StateValue::Label(String::from("seven")));
    match q.clone_state(sid, StateKey::Counter) {
        Some(StateValue::Counter(n)) => assert_eq!(n, 7),
        _ => panic!("counter slot lost"),
    }
    match q.clone_state(sid, StateKey::Label) {
        Some(StateValue::Label(s)) => assert_eq!(s, "seven"),
        _ => panic!("label slot lost"),
    }
}

#[test]
fn never_stored_shape_is_absent_everywhere() {
    let mut q = MessageQueue::new();
    let sid = q.register();
    assert!(q.clone_state(sid, StateKey::Label).is_none());
    assert!(q.peek_state(sid, StateKey::Label, |_v| ()).is_none());
    assert!(q.poke_state(sid, StateKey::Label, |v| (v, ())).is_none());
    assert!(q.remove_state(sid, StateKey::Label).is_none());
}

#[test]
fn remove_returns_value_then_absent() {
    let mut q = MessageQueue::new();
    let sid = q.register();
    q.put_state(sid, StateValue::Counter(5));
    match q.remove_state(sid, StateKey::Counter) {
        Some(StateValue::Counter(n)) => assert_eq!(n, 5),
        _ => panic!("expected the stored counter"),
    }
    assert!(q.clone_state(sid, StateKey::Counter).is_none());
    assert!(q.remove_state(sid, StateKey::Counter).is_none());
}

#[test]
fn unregistered_service_ops_fail_cleanly() {
    let mut q = MessageQueue::new();
    let reg = ServiceReg::new(&mut q);
    let id = reg.service_id();
    id.put_state(&mut q, StateValue::Counter(3));
    reg.unregister(&mut q);
    // State is discarded and every operation reports absent, never panics.
    assert!(id.clone_state(&q, StateKey::Counter).is_none());
    id.put_state(&mut q, StateValue::Counter(4));
    assert!(id.clone_state(&q, StateKey::Counter).is_none());
    assert!(id.peek_state(&q, StateKey::Counter, |_v| ()).is_none());
    assert!(id.poke_state(&mut q, StateKey::Counter, |v| (v, ())).is_none());
    assert!(q.post_request(id.id(), Payload::Number(1)).is_none());
    assert!(q.take_request(id.id()).is_none());
}

#[test]
fn stale_handle_is_a_clean_no_op() {
    let mut q = MessageQueue::new();
    let id = ServiceId::new(999);
    id.put_state(&mut q, StateValue::Counter(1));
    assert!(id.clone_state(&q, StateKey::Counter).is_none());
}

#[test]
fn requests_taken_in_exact_posting_order() {
    let mut q = MessageQueue::new();
    let sid = q.register();
    let r1 = q.post_request(sid, Payload::Number(10)).unwrap();
    let r2 = q.post_request(sid, Payload::Number(20)).unwrap();
    let r3 = q.post_request(sid, Payload::Number(30)).unwrap();
    assert!(r1 < r2 && r2 < r3);
    let taken: Vec<(u64, u64)> = (0..3)
        .map(|_| match q.take_request(sid) {
            Some((rid, Payload::Number(n))) => (rid, n),
            _ => panic!("expected a numbered request"),
        })
        .collect();
    assert_eq!(taken, vec![(r1, 10), (r2, 20), (r3, 30)]);
    assert!(q.take_request(sid).is_none());
}

#[test]
fn peek_state_applies_function_to_copy() {
    let mut q = MessageQueue::new();
    let sid = q.register();
    q.put_state(sid, StateValue::Label(String::from("abc")));
    let len = q.peek_state(sid, StateKey::Label, |v| match v {
        StateValue::Label(s) => s.len(),
        _ => 0,
    });
    assert_eq!(len, Some(3));
    // Peeking does not consume the slot.
    assert!(q.clone_state(sid, StateKey::Label).is_some());
}

#[test]
fn poke_state_updates_in_place() {
    let mut q = MessageQueue::new();
    let sid = q.register();
    q.put_state(sid, StateValue::Counter(41));
    let previous = q.poke_state(sid, StateKey::Counter, |v| match v {
        StateValue::Counter(n) => (StateValue::Counter(n + 1), n),
        other => (other, 0),
    });
    assert_eq!(previous, Some(41));
    match q.clone_state(sid, StateKey::Counter) {
        Some(StateValue::Counter(n)) => assert_eq!(n, 42),
        _ => panic!("expected the updated counter"),
    }
}
