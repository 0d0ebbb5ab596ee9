use msgqueue::msgqueue::{
    MessageQueue, Payload, PollResult, Request, RequestError, ResponseCheck, ServiceReg,
};

fn text(s: &str) -> Payload {
    Payload::Text(String::from(s))
}

#[test]
fn resolved_with_payload_succeeds_exactly_once() {
    let mut q = MessageQueue::new();
    let dest = q.register();
    let rid = q.post_request(dest, text("ping")).unwrap();
    let fut = Request::new(dest, Some(rid));
    q.set_response(rid, Some(text("pong")));
    match fut.poll(&mut q) {
        PollResult::Ready(Ok(Payload::Text(s))) => assert_eq!(s, "pong"),
        _ => panic!("expected success with the exact payload"),
    }
    // The outcome was consumed: a second poll cannot succeed again.
    match fut.poll(&mut q) {
        PollResult::Pending => {}
        _ => panic!("expected the future to go back to waiting"),
    }
}

#[test]
fn resolved_with_empty_marker_fails_exactly_once() {
    let mut q = MessageQueue::new();
    let dest = q.register();
    let rid = q.post_request(dest, text("ping")).unwrap();
    let fut = Request::new(dest, Some(rid));
    q.set_response(rid, None);
    match fut.poll(&mut q) {
        PollResult::Ready(Err(RequestError::Rejected)) => {}
        _ => panic!("expected an explicit rejection"),
    }
    match fut.poll(&mut q) {
        PollResult::Pending => {}
        _ => panic!("expected the rejection to be consumed"),
    }
}

#[test]
fn destination_unregistered_before_resolution_vanishes() {
    let mut q = MessageQueue::new();
    let reg = ServiceReg::new(&mut q);
    let dest = reg.service_id().id();
    let rid = q.post_request(dest, text("ping")).unwrap();
    let fut = Request::new(dest, Some(rid));
    let woken = reg.unregister(&mut q);
    // The future never suspended, so there is no waiter to wake.
    assert!(woken.is_empty());
    // No resolve call is needed for the future to fail.
    match fut.poll(&mut q) {
        PollResult::Ready(Err(RequestError::Vanished)) => {}
        _ => panic!("expected the destination to have vanished"),
    }
}

#[test]
fn late_resolution_is_a_noop() {
    let mut q = MessageQueue::new();
    let reg = ServiceReg::new(&mut q);
    let dest = reg.service_id().id();
    let rid = q.post_request(dest, text("ping")).unwrap();
    let fut = Request::new(dest, Some(rid));
    let (taken_rid, _) = q.take_request(dest).unwrap();
    reg.unregister(&mut q);
    // The destination is gone: the resolve must not record a consumable
    // answer, and it wakes nobody.
    assert!(!q.set_response(taken_rid, Some(text("pong"))));
    match fut.poll(&mut q) {
        PollResult::Ready(Err(RequestError::Vanished)) => {}
        _ => panic!("expected the late answer to be discarded"),
    }
}

#[test]
fn unregister_wakes_pending_waiter() {
    let mut q = MessageQueue::new();
    let reg = ServiceReg::new(&mut q);
    let dest = reg.service_id().id();
    let rid = q.post_request(dest, text("ping")).unwrap();
    let fut = Request::new(dest, Some(rid));
    // The future suspends: its waiter is registered.
    assert!(matches!(fut.poll(&mut q), PollResult::Pending));
    // Unregistration hands the waiter back so the driving loop can wake it.
    let woken = reg.unregister(&mut q);
    assert_eq!(woken, vec![rid]);
    // The woken future's next poll observes the vanished failure.
    match fut.poll(&mut q) {
        PollResult::Ready(Err(RequestError::Vanished)) => {}
        _ => panic!("expected the woken future to fail"),
    }
}

#[test]
fn never_accepted_request_fails_immediately() {
    let mut q = MessageQueue::new();
    let missing: u64 = 17;
    assert!(q.post_request(missing, text("ping")).is_none());
    let fut = Request::new(missing, None);
    assert!(fut.request_id().is_none());
    match fut.poll(&mut q) {
        PollResult::Ready(Err(RequestError::NotAccepted)) => {}
        _ => panic!("expected an immediate failure"),
    }
}

#[test]
fn pending_poll_registers_waiter_and_resolution_wakes_it() {
    let mut q = MessageQueue::new();
    let dest = q.register();
    let rid = q.post_request(dest, text("ping")).unwrap();
    let fut = Request::new(dest, Some(rid));
    match fut.poll(&mut q) {
        PollResult::Pending => {}
        _ => panic!("expected to wait for the answer"),
    }
    // The waiter recorded by the poll is woken (consumed) by resolution.
    assert!(q.set_response(rid, Some(text("pong"))));
    // No waiter is left for a second resolution.
    assert!(!q.set_response(rid, Some(text("pong"))));
}

#[test]
fn check_response_distinguishes_all_outcomes() {
    let mut q = MessageQueue::new();
    let dest = q.register();
    let rid1 = q.post_request(dest, text("a")).unwrap();
    match q.check_response(dest, rid1) {
        ResponseCheck::Pending => {}
        _ => panic!("no outcome was recorded yet"),
    }
    q.set_response(rid1, Some(text("answer")));
    match q.check_response(dest, rid1) {
        ResponseCheck::Ready(Payload::Text(s)) => assert_eq!(s, "answer"),
        _ => panic!("expected the recorded answer"),
    }
    let rid2 = q.post_request(dest, text("b")).unwrap();
    q.set_response(rid2, None);
    match q.check_response(dest, rid2) {
        ResponseCheck::Rejected => {}
        _ => panic!("expected the recorded rejection"),
    }
    let rid3 = q.post_request(dest, text("c")).unwrap();
    q.unregister(dest);
    match q.check_response(dest, rid3) {
        ResponseCheck::Vanished => {}
        _ => panic!("expected the destination to be gone"),
    }
}

#[test]
fn resolving_again_overwrites_the_prior_response() {
    let mut q = MessageQueue::new();
    let dest = q.register();
    let rid = q.post_request(dest, text("r")).unwrap();
    q.set_response(rid, Some(text("first")));
    q.set_response(rid, None);
    match q.check_response(dest, rid) {
        ResponseCheck::Rejected => {}
        _ => panic!("expected the later outcome to win"),
    }
}

#[test]
fn second_poll_overwrites_the_waiter() {
    let mut q = MessageQueue::new();
    let dest = q.register();
    let rid = q.post_request(dest, text("r")).unwrap();
    let fut = Request::new(dest, Some(rid));
    assert!(matches!(fut.poll(&mut q), PollResult::Pending));
    assert!(matches!(fut.poll(&mut q), PollResult::Pending));
    // At most one waiter is registered per outstanding request.
    assert!(q.set_response(rid, Some(text("a"))));
    assert!(!q.set_response(rid, Some(text("b"))));
}

#[test]
fn ping_pong_round_trip() {
    let mut q = MessageQueue::new();
    let reg_a = ServiceReg::new(&mut q);
    let reg_b = ServiceReg::new(&mut q);
    let b = reg_b.service_id().id();
    // A posts a request to B and holds the future.
    let rid = q.post_request(b, text("ping")).unwrap();
    let fut = Request::new(b, Some(rid));
    // B takes the request and answers it.
    let (taken_rid, payload) = q.take_request(b).unwrap();
    assert_eq!(taken_rid, rid);
    match payload {
        Payload::Text(s) => assert_eq!(s, "ping"),
        _ => panic!("expected the posted payload"),
    }
    q.set_response(taken_rid, Some(text("pong")));
    // A's future resolves to success with B's answer.
    match fut.poll(&mut q) {
        PollResult::Ready(Ok(Payload::Text(s))) => assert_eq!(s, "pong"),
        _ => panic!("expected the round trip to succeed"),
    }
    reg_a.unregister(&mut q);
    reg_b.unregister(&mut q);
}

#[test]
fn ping_pong_reordered_destination_unregistered() {
    let mut q = MessageQueue::new();
    let reg_a = ServiceReg::new(&mut q);
    let reg_b = ServiceReg::new(&mut q);
    let b = reg_b.service_id().id();
    let rid = q.post_request(b, text("ping")).unwrap();
    let fut = Request::new(b, Some(rid));
    let (taken_rid, _) = q.take_request(b).unwrap();
    assert_eq!(taken_rid, rid);
    // B goes away before answering; an answer sent afterwards changes
    // nothing.
    reg_b.unregister(&mut q);
    assert!(!q.set_response(taken_rid, Some(text("pong"))));
    match fut.poll(&mut q) {
        PollResult::Ready(Err(RequestError::Vanished)) => {}
        _ => panic!("expected the future to fail"),
    }
    reg_a.unregister(&mut q);
}
