//! Laws of the registry, proved once over the view transitions that every
//! registry operation's contract is stated with.

use crate::msgqueue::{
    spec_check_response, spec_peek_state, spec_post, spec_put_state, spec_register,
    spec_remove_state, spec_set_response, spec_take, spec_unregister, Payload, QueueView,
    ResponseCheck,
};
use crate::state::{key_of, StateKey, StateValue};
use vstd::prelude::*;

verus! {

/// The payloads of a request queue, in queue order.
pub open spec fn payloads(q: Seq<(u64, Payload)>) -> Seq<Payload> {
    q.map_values(|pr: (u64, Payload)| pr.1)
}

/// The registry after posting each payload in turn to one destination.
pub open spec fn spec_post_all(m: QueueView, sid: u64, ps: Seq<Payload>) -> QueueView
    decreases ps.len(),
{
    if ps.len() == 0 {
        m
    } else {
        spec_post_all(spec_post(m, sid, ps[0]).0, sid, ps.subrange(1, ps.len() as int))
    }
}

/// The registry after taking `n` times from one service, with the requests
/// taken, in the order they were taken.
pub open spec fn spec_take_all(m: QueueView, sid: u64, n: nat) -> (QueueView, Seq<(u64, Payload)>)
    decreases n,
{
    if n == 0 {
        (m, Seq::empty())
    } else {
        let (m1, r) = spec_take(m, sid);
        match r {
            Some(pr) => {
                let (m2, rest) = spec_take_all(m1, sid, (n - 1) as nat);
                (m2, seq![pr] + rest)
            },
            None => (m1, Seq::<(u64, Payload)>::empty()),
        }
    }
}

/// Posting appends to the destination's queue in posting order: after a run
/// of posts with no intervening takes, the queue is the old queue followed
/// by the posted payloads, in order.
pub proof fn lemma_post_all_appends(m: QueueView, sid: u64, ps: Seq<Payload>)
    requires
        m.services.contains_key(sid),
        m.next_req + ps.len() <= u64::MAX,
    ensures
        spec_post_all(m, sid, ps).services.contains_key(sid),
        payloads(spec_post_all(m, sid, ps).services[sid].queue) == payloads(
            m.services[sid].queue,
        ) + ps,
    decreases ps.len(),
{
    if ps.len() == 0 {
        assert(payloads(m.services[sid].queue) + ps =~= payloads(m.services[sid].queue));
    } else {
        let m1 = spec_post(m, sid, ps[0]).0;
        let rest = ps.subrange(1, ps.len() as int);
        lemma_post_all_appends(m1, sid, rest);
        assert(payloads(m1.services[sid].queue) =~= payloads(m.services[sid].queue).push(ps[0]));
        assert(payloads(m.services[sid].queue).push(ps[0]) + rest =~= payloads(
            m.services[sid].queue,
        ) + ps);
        assert(payloads(spec_post_all(m, sid, ps).services[sid].queue) =~= payloads(
            m.services[sid].queue,
        ) + ps);
    }
}

/// Taking as many times as the queue is long returns exactly the queued
/// requests, in queue order, and leaves the queue empty.
pub proof fn lemma_take_all_drains(m: QueueView, sid: u64)
    requires
        m.services.contains_key(sid),
    ensures
        spec_take_all(m, sid, m.services[sid].queue.len()).1 == m.services[sid].queue,
        spec_take_all(
            m,
            sid,
            m.services[sid].queue.len(),
        ).0.services[sid].queue.len() == 0,
    decreases m.services[sid].queue.len(),
{
    let n = m.services[sid].queue.len();
    if n == 0 {
        assert(spec_take_all(m, sid, 0).1 =~= m.services[sid].queue);
    } else {
        let (m1, r) = spec_take(m, sid);
        lemma_take_all_drains(m1, sid);
        assert(m1.services[sid].queue =~= m.services[sid].queue.subrange(1, n as int));
        assert(seq![m.services[sid].queue[0]] + m1.services[sid].queue =~= m.services[sid].queue);
    }
}

/// Law: requests posted to one destination without intervening takes are
/// taken again in exactly the order they were posted.
pub proof fn lemma_fifo_order(m: QueueView, sid: u64, ps: Seq<Payload>)
    requires
        m.services.contains_key(sid),
        m.services[sid].queue.len() == 0,
        m.next_req + ps.len() <= u64::MAX,
    ensures
        payloads(spec_take_all(spec_post_all(m, sid, ps), sid, ps.len()).1) == ps,
{
    lemma_post_all_appends(m, sid, ps);
    let m2 = spec_post_all(m, sid, ps);
    assert(payloads(m.services[sid].queue) =~= Seq::<Payload>::empty());
    assert(payloads(m2.services[sid].queue) =~= ps);
    assert(m2.services[sid].queue.len() == ps.len());
    lemma_take_all_drains(m2, sid);
    assert(payloads(spec_take_all(m2, sid, ps.len()).1) =~= ps);
}

/// Law: in general, whatever was already queued is taken first, and the
/// newly posted requests follow, in exact posting order.
pub proof fn lemma_fifo_order_general(m: QueueView, sid: u64, ps: Seq<Payload>)
    requires
        m.services.contains_key(sid),
        m.next_req + ps.len() <= u64::MAX,
    ensures
        ({
            let m2 = spec_post_all(m, sid, ps);
            payloads(spec_take_all(m2, sid, m2.services[sid].queue.len()).1) == payloads(
                m.services[sid].queue,
            ) + ps
        }),
{
    lemma_post_all_appends(m, sid, ps);
    let m2 = spec_post_all(m, sid, ps);
    lemma_take_all_drains(m2, sid);
}

/// The registry after `n` consecutive registrations, with the identities
/// allocated, in allocation order.
pub open spec fn spec_register_all(m: QueueView, n: nat) -> (QueueView, Seq<u64>)
    decreases n,
{
    if n == 0 {
        (m, Seq::empty())
    } else {
        let (m1, id) = spec_register(m);
        let (m2, rest) = spec_register_all(m1, (n - 1) as nat);
        (m2, seq![id] + rest)
    }
}

/// Law: identities allocated by consecutive registrations are consecutive
/// counter values, hence pairwise distinct and strictly increasing.
pub proof fn lemma_register_ids_increasing(m: QueueView, n: nat)
    requires
        m.next_srv + n <= u64::MAX,
    ensures
        spec_register_all(m, n).1.len() == n,
        forall|i: int|
            0 <= i < n ==> #[trigger] spec_register_all(m, n).1[i] == m.next_srv + i,
        forall|i: int, j: int|
            0 <= i < j < n ==> spec_register_all(m, n).1[i] < spec_register_all(m, n).1[j],
    decreases n,
{
    if n > 0 {
        let (m1, id) = spec_register(m);
        lemma_register_ids_increasing(m1, (n - 1) as nat);
        let ids = spec_register_all(m, n).1;
        let rest = spec_register_all(m1, (n - 1) as nat).1;
        assert forall|i: int| 0 <= i < n implies #[trigger] ids[i] == m.next_srv + i by {
            if i > 0 {
                assert(ids[i] == rest[i - 1]);
            }
        }
    }
}

/// Law: a well-formed registry never hands out an identity that is already
/// live; since the counter only grows, identities are never reused, even
/// after the service that held one is unregistered.
pub proof fn lemma_register_fresh(m: QueueView)
    requires
        m.wf(),
    ensures
        !m.services.contains_key(spec_register(m).1),
{
}

/// Law: storing state twice under the same shape leaves only the second
/// value to observe.
pub proof fn lemma_put_put_overwrites(m: QueueView, sid: u64, v1: StateValue, v2: StateValue)
    requires
        m.services.contains_key(sid),
        key_of(v1) == key_of(v2),
    ensures
        spec_peek_state(
            spec_put_state(spec_put_state(m, sid, v1), sid, v2),
            sid,
            key_of(v2),
        ) == Some(v2),
{
}

/// Law: state of a shape never stored reads and removes as absent, and after
/// a removal the same shape reads as absent again.
pub proof fn lemma_absent_state_ops(m: QueueView, sid: u64, k: StateKey)
    ensures
        spec_peek_state(m, sid, k) is None ==> spec_remove_state(m, sid, k).1 is None,
        spec_peek_state(spec_remove_state(m, sid, k).0, sid, k) is None,
{
}

/// Law: after a service is unregistered, every state and queue operation
/// against its former identity yields absent and changes nothing.
pub proof fn lemma_unregistered_ops_absent(
    m: QueueView,
    sid: u64,
    k: StateKey,
    v: StateValue,
    p: Payload,
)
    ensures
        spec_peek_state(spec_unregister(m, sid).0, sid, k) is None,
        spec_put_state(spec_unregister(m, sid).0, sid, v) == spec_unregister(m, sid).0,
        spec_remove_state(spec_unregister(m, sid).0, sid, k).0 == spec_unregister(m, sid).0,
        spec_remove_state(spec_unregister(m, sid).0, sid, k).1 is None,
        spec_post(spec_unregister(m, sid).0, sid, p).0 == spec_unregister(m, sid).0,
        spec_post(spec_unregister(m, sid).0, sid, p).1 is None,
        spec_take(spec_unregister(m, sid).0, sid).0 == spec_unregister(m, sid).0,
        spec_take(spec_unregister(m, sid).0, sid).1 is None,
{
}

/// Law: a posted request resolved with a payload yields exactly that payload
/// on the next poll, and only once: the outcome is consumed.
pub proof fn lemma_resolve_success_once(m: QueueView, sid: u64, p: Payload, resp: Payload)
    requires
        m.services.contains_key(sid),
        m.next_req < u64::MAX,
    ensures
        spec_post(m, sid, p).1 is Some,
        ({
            let (m1, rid_opt) = spec_post(m, sid, p);
            let rid = rid_opt->Some_0;
            let m2 = spec_set_response(m1, rid, Some(resp)).0;
            let (m3, c) = spec_check_response(m2, sid, rid);
            c == ResponseCheck::Ready(resp) && !(spec_check_response(
                m3,
                sid,
                rid,
            ).1 matches ResponseCheck::Ready(_))
        }),
{
}

/// Law: a posted request resolved with the empty marker fails as rejected on
/// the next poll, and only once: the outcome is consumed.
pub proof fn lemma_resolve_rejected_once(m: QueueView, sid: u64, p: Payload)
    requires
        m.services.contains_key(sid),
        m.next_req < u64::MAX,
    ensures
        spec_post(m, sid, p).1 is Some,
        ({
            let (m1, rid_opt) = spec_post(m, sid, p);
            let rid = rid_opt->Some_0;
            let m2 = spec_set_response(m1, rid, Option::<Payload>::None).0;
            let (m3, c) = spec_check_response(m2, sid, rid);
            c == ResponseCheck::Rejected && spec_check_response(m3, sid, rid).1
                != ResponseCheck::Rejected && !(spec_check_response(
                m3,
                sid,
                rid,
            ).1 matches ResponseCheck::Ready(_))
        }),
{
}

/// Law: a posted request whose destination is unregistered before being
/// resolved fails as vanished on the next poll, with no resolve call needed.
pub proof fn lemma_unregister_vanished(m: QueueView, sid: u64, p: Payload)
    requires
        m.wf(),
        m.services.contains_key(sid),
        m.next_req < u64::MAX,
    ensures
        spec_post(m, sid, p).1 is Some,
        ({
            let (m1, rid_opt) = spec_post(m, sid, p);
            let m2 = spec_unregister(m1, sid).0;
            spec_check_response(m2, sid, rid_opt->Some_0).1 == ResponseCheck::Vanished
        }),
{
}

/// Law: a resolve call addressed to a request whose destination was already
/// unregistered is a no-op, and the request's future still observes the
/// vanished failure afterwards.
pub proof fn lemma_resolve_after_unregister_noop(
    m: QueueView,
    sid: u64,
    p: Payload,
    resp: Option<Payload>,
)
    requires
        m.wf(),
        m.services.contains_key(sid),
        m.next_req < u64::MAX,
    ensures
        ({
            let (m1, rid_opt) = spec_post(m, sid, p);
            let rid = rid_opt->Some_0;
            let m2 = spec_unregister(m1, sid).0;
            spec_set_response(m2, rid, resp) == (m2, false) && spec_check_response(
                spec_set_response(m2, rid, resp).0,
                sid,
                rid,
            ).1 == ResponseCheck::Vanished
        }),
{
}

/// Law: when a service is unregistered, the waiter of a request addressed to
/// it — registered by a poll that found no outcome — is among the waiters
/// handed back to be woken, so its future is told the service is gone rather
/// than left to hang.
pub proof fn lemma_unregister_wakes_waiter(m: QueueView, sid: u64, p: Payload)
    requires
        m.wf(),
        m.services.contains_key(sid),
        m.next_req < u64::MAX,
    ensures
        ({
            let (m1, rid_opt) = spec_post(m, sid, p);
            let rid = rid_opt->Some_0;
            let (m2, c) = spec_check_response(m1, sid, rid);
            c == ResponseCheck::Pending && spec_unregister(m2, sid).1.contains(rid)
        }),
{
    let (m1, rid_opt) = spec_post(m, sid, p);
    let rid = rid_opt->Some_0;
    let (m2, c) = spec_check_response(m1, sid, rid);
    assert(!m1.responses.contains_key(rid));
    if !m1.services[sid].waiting.contains(rid) {
        assert(m2.services[sid].waiting == m1.services[sid].waiting.push(rid));
        assert(m2.services[sid].waiting[m1.services[sid].waiting.len() as int] == rid);
    }
}

/// Request identities are unique across the whole registry: no two queued
/// requests, in any services' queues, share an identity.
pub open spec fn req_ids_distinct(m: QueueView) -> bool {
    forall|sid1: u64, i1: int, sid2: u64, i2: int|
        m.services.contains_key(sid1) && m.services.contains_key(sid2) && 0 <= i1
            < m.services[sid1].queue.len() && 0 <= i2 < m.services[sid2].queue.len() && (sid1
            != sid2 || i1 != i2) ==> (#[trigger] m.services[sid1].queue[i1]).0 != (
        #[trigger] m.services[sid2].queue[i2]).0
}

/// Law: posting keeps queued request identities unique, since the new
/// request draws a fresh identity from the counter.
pub proof fn lemma_post_req_ids_distinct(m: QueueView, sid: u64, p: Payload)
    requires
        m.wf(),
        req_ids_distinct(m),
    ensures
        req_ids_distinct(spec_post(m, sid, p).0),
{
    if m.services.contains_key(sid) {
        let m2 = spec_post(m, sid, p).0;
        let n = m.services[sid].queue.len() as int;
        assert forall|sid1: u64, i1: int, sid2: u64, i2: int|
            m2.services.contains_key(sid1) && m2.services.contains_key(sid2) && 0 <= i1
                < m2.services[sid1].queue.len() && 0 <= i2 < m2.services[sid2].queue.len() && (sid1
                != sid2 || i1 != i2) implies (#[trigger] m2.services[sid1].queue[i1]).0 != (
        #[trigger] m2.services[sid2].queue[i2]).0 by {
            if sid1 == sid && i1 == n {
                assert(m2.services[sid2].queue[i2] == m.services[sid2].queue[i2]);
                assert((m.services[sid2].queue[i2]).0 < m.next_req);
            } else if sid2 == sid && i2 == n {
                assert(m2.services[sid1].queue[i1] == m.services[sid1].queue[i1]);
                assert((m.services[sid1].queue[i1]).0 < m.next_req);
            } else {
                assert(m2.services[sid1].queue[i1] == m.services[sid1].queue[i1]);
                assert(m2.services[sid2].queue[i2] == m.services[sid2].queue[i2]);
            }
        }
    }
}

/// Law: taking keeps queued request identities unique.
pub proof fn lemma_take_req_ids_distinct(m: QueueView, sid: u64)
    requires
        req_ids_distinct(m),
    ensures
        req_ids_distinct(spec_take(m, sid).0),
{
    if m.services.contains_key(sid) && m.services[sid].queue.len() > 0 {
        let m2 = spec_take(m, sid).0;
        assert forall|sid1: u64, i1: int, sid2: u64, i2: int|
            m2.services.contains_key(sid1) && m2.services.contains_key(sid2) && 0 <= i1
                < m2.services[sid1].queue.len() && 0 <= i2 < m2.services[sid2].queue.len() && (sid1
                != sid2 || i1 != i2) implies (#[trigger] m2.services[sid1].queue[i1]).0 != (
        #[trigger] m2.services[sid2].queue[i2]).0 by {
            let j1: int = if sid1 == sid { i1 + 1 } else { i1 };
            let j2: int = if sid2 == sid { i2 + 1 } else { i2 };
            assert(m2.services[sid1].queue[i1] == m.services[sid1].queue[j1]);
            assert(m2.services[sid2].queue[i2] == m.services[sid2].queue[j2]);
        }
    }
}

/// Law: registration and unregistration keep queued request identities
/// unique, as do state operations, which leave every queue unchanged.
pub proof fn lemma_other_ops_req_ids_distinct(m: QueueView, sid: u64, k: StateKey, v: StateValue)
    requires
        req_ids_distinct(m),
    ensures
        m.next_srv < u64::MAX ==> req_ids_distinct(spec_register(m).0),
        req_ids_distinct(spec_unregister(m, sid).0),
        req_ids_distinct(spec_put_state(m, sid, v)),
        req_ids_distinct(spec_remove_state(m, sid, k).0),
{
    let mu = spec_unregister(m, sid).0;
    assert forall|sid1: u64, i1: int, sid2: u64, i2: int|
        mu.services.contains_key(sid1) && mu.services.contains_key(sid2) && 0 <= i1
            < mu.services[sid1].queue.len() && 0 <= i2 < mu.services[sid2].queue.len() && (sid1
            != sid2 || i1 != i2) implies (#[trigger] mu.services[sid1].queue[i1]).0 != (
    #[trigger] mu.services[sid2].queue[i2]).0 by {
        assert(mu.services[sid1] == m.services[sid1]);
        assert(mu.services[sid2] == m.services[sid2]);
    }
    if m.next_srv < u64::MAX {
        let m2 = spec_register(m).0;
        assert forall|sid1: u64, i1: int, sid2: u64, i2: int|
            m2.services.contains_key(sid1) && m2.services.contains_key(sid2) && 0 <= i1
                < m2.services[sid1].queue.len() && 0 <= i2 < m2.services[sid2].queue.len() && (sid1
                != sid2 || i1 != i2) implies (#[trigger] m2.services[sid1].queue[i1]).0 != (
        #[trigger] m2.services[sid2].queue[i2]).0 by {
            assert(m2.services[sid1].queue == m.services[sid1].queue);
            assert(m2.services[sid2].queue == m.services[sid2].queue);
        }
    }
    assert forall|sid1: u64, i1: int, sid2: u64, i2: int|
        spec_put_state(m, sid, v).services.contains_key(sid1) && spec_put_state(
            m,
            sid,
            v,
        ).services.contains_key(sid2) && 0 <= i1 < spec_put_state(
            m,
            sid,
            v,
        ).services[sid1].queue.len() && 0 <= i2 < spec_put_state(
            m,
            sid,
            v,
        ).services[sid2].queue.len() && (sid1 != sid2 || i1 != i2) implies (#[trigger] spec_put_state(
        m,
        sid,
        v,
    ).services[sid1].queue[i1]).0 != (#[trigger] spec_put_state(m, sid, v).services[sid2].queue[i2]).0 by {
        assert(spec_put_state(m, sid, v).services[sid1].queue == m.services[sid1].queue);
        assert(spec_put_state(m, sid, v).services[sid2].queue == m.services[sid2].queue);
    }
    assert forall|sid1: u64, i1: int, sid2: u64, i2: int|
        spec_remove_state(m, sid, k).0.services.contains_key(sid1) && spec_remove_state(
            m,
            sid,
            k,
        ).0.services.contains_key(sid2) && 0 <= i1 < spec_remove_state(
            m,
            sid,
            k,
        ).0.services[sid1].queue.len() && 0 <= i2 < spec_remove_state(
            m,
            sid,
            k,
        ).0.services[sid2].queue.len() && (sid1 != sid2 || i1 != i2) implies (
    #[trigger] spec_remove_state(m, sid, k).0.services[sid1].queue[i1]).0 != (
    #[trigger] spec_remove_state(m, sid, k).0.services[sid2].queue[i2]).0 by {
        assert(spec_remove_state(m, sid, k).0.services[sid1].queue == m.services[sid1].queue);
        assert(spec_remove_state(m, sid, k).0.services[sid2].queue == m.services[sid2].queue);
    }
}

/// Registration preserves well-formedness.
pub proof fn lemma_register_wf(m: QueueView)
    requires
        m.wf(),
        m.next_srv < u64::MAX,
    ensures
        spec_register(m).0.wf(),
{
    let m2 = spec_register(m).0;
    assert forall|sid2: u64, i: int|
        m2.services.contains_key(sid2) && 0 <= i < m2.services[sid2].queue.len() implies (
    #[trigger] m2.services[sid2].queue[i]).0 < m2.next_req by {
        if sid2 != m.next_srv {
            assert(m2.services[sid2] == m.services[sid2]);
        }
    }
    assert forall|sid2: u64, i: int|
        m2.services.contains_key(sid2) && 0 <= i < m2.services[sid2].waiting.len() implies
    #[trigger] m2.services[sid2].waiting[i] < m2.next_req by {
        if sid2 != m.next_srv {
            assert(m2.services[sid2] == m.services[sid2]);
        }
    }
}

/// Unregistration preserves well-formedness.
pub proof fn lemma_unregister_wf(m: QueueView, sid: u64)
    requires
        m.wf(),
    ensures
        spec_unregister(m, sid).0.wf(),
{
    let m2 = spec_unregister(m, sid).0;
    assert forall|sid2: u64, i: int|
        m2.services.contains_key(sid2) && 0 <= i < m2.services[sid2].queue.len() implies (
    #[trigger] m2.services[sid2].queue[i]).0 < m2.next_req by {
        assert(m2.services[sid2] == m.services[sid2]);
    }
    assert forall|sid2: u64, i: int|
        m2.services.contains_key(sid2) && 0 <= i < m2.services[sid2].waiting.len() implies
    #[trigger] m2.services[sid2].waiting[i] < m2.next_req by {
        assert(m2.services[sid2] == m.services[sid2]);
    }
}

/// Storing state preserves well-formedness.
pub proof fn lemma_put_state_wf(m: QueueView, sid: u64, v: StateValue)
    requires
        m.wf(),
    ensures
        spec_put_state(m, sid, v).wf(),
{
    let m2 = spec_put_state(m, sid, v);
    assert forall|sid2: u64, i: int|
        m2.services.contains_key(sid2) && 0 <= i < m2.services[sid2].queue.len() implies (
    #[trigger] m2.services[sid2].queue[i]).0 < m2.next_req by {
        assert(m2.services[sid2].queue == m.services[sid2].queue);
    }
    assert forall|sid2: u64, i: int|
        m2.services.contains_key(sid2) && 0 <= i < m2.services[sid2].waiting.len() implies
    #[trigger] m2.services[sid2].waiting[i] < m2.next_req by {
        assert(m2.services[sid2].waiting == m.services[sid2].waiting);
    }
}

/// Removing state preserves well-formedness.
pub proof fn lemma_remove_state_wf(m: QueueView, sid: u64, k: StateKey)
    requires
        m.wf(),
    ensures
        spec_remove_state(m, sid, k).0.wf(),
{
    let m2 = spec_remove_state(m, sid, k).0;
    assert forall|sid2: u64, i: int|
        m2.services.contains_key(sid2) && 0 <= i < m2.services[sid2].queue.len() implies (
    #[trigger] m2.services[sid2].queue[i]).0 < m2.next_req by {
        assert(m2.services[sid2].queue == m.services[sid2].queue);
    }
    assert forall|sid2: u64, i: int|
        m2.services.contains_key(sid2) && 0 <= i < m2.services[sid2].waiting.len() implies
    #[trigger] m2.services[sid2].waiting[i] < m2.next_req by {
        assert(m2.services[sid2].waiting == m.services[sid2].waiting);
    }
}

/// Posting preserves well-formedness.
pub proof fn lemma_post_wf(m: QueueView, sid: u64, p: Payload)
    requires
        m.wf(),
        m.next_req < u64::MAX,
    ensures
        spec_post(m, sid, p).0.wf(),
{
    if m.services.contains_key(sid) {
        let m2 = spec_post(m, sid, p).0;
        assert forall|sid2: u64, i: int|
            m2.services.contains_key(sid2) && 0 <= i < m2.services[sid2].queue.len() implies (
        #[trigger] m2.services[sid2].queue[i]).0 < m2.next_req by {
            if sid2 == sid {
                if i < m.services[sid].queue.len() {
                    assert(m2.services[sid2].queue[i] == m.services[sid].queue[i]);
                }
            }
        }
        assert forall|sid2: u64, i: int|
            m2.services.contains_key(sid2) && 0 <= i < m2.services[sid2].waiting.len() implies
        #[trigger] m2.services[sid2].waiting[i] < m2.next_req by {
            assert(m2.services[sid2].waiting == m.services[sid2].waiting);
        }
    }
}

/// Taking preserves well-formedness.
pub proof fn lemma_take_wf(m: QueueView, sid: u64)
    requires
        m.wf(),
    ensures
        spec_take(m, sid).0.wf(),
{
    if m.services.contains_key(sid) && m.services[sid].queue.len() > 0 {
        let m2 = spec_take(m, sid).0;
        assert forall|sid2: u64, i: int|
            m2.services.contains_key(sid2) && 0 <= i < m2.services[sid2].queue.len() implies (
        #[trigger] m2.services[sid2].queue[i]).0 < m2.next_req by {
            if sid2 == sid {
                assert(m2.services[sid2].queue[i] == m.services[sid].queue[i + 1]);
            }
        }
        assert forall|sid2: u64, i: int|
            m2.services.contains_key(sid2) && 0 <= i < m2.services[sid2].waiting.len() implies
        #[trigger] m2.services[sid2].waiting[i] < m2.next_req by {
            assert(m2.services[sid2].waiting == m.services[sid2].waiting);
        }
    }
}

/// Resolving preserves well-formedness: the identity it records under was
/// drawn from the counter when the request was posted.
pub proof fn lemma_set_response_wf(m: QueueView, rid: u64, resp: Option<Payload>)
    requires
        m.wf(),
    ensures
        spec_set_response(m, rid, resp).0.wf(),
{
    if m.destinations.contains_key(rid) && m.services.contains_key(m.destinations[rid]) {
        let dest = m.destinations[rid];
        let m2 = spec_set_response(m, rid, resp).0;
        assert forall|sid2: u64, i: int|
            m2.services.contains_key(sid2) && 0 <= i < m2.services[sid2].queue.len() implies (
        #[trigger] m2.services[sid2].queue[i]).0 < m2.next_req by {
            assert(m2.services[sid2].queue == m.services[sid2].queue);
        }
        assert forall|sid2: u64, i: int|
            m2.services.contains_key(sid2) && 0 <= i < m2.services[sid2].waiting.len() implies
        #[trigger] m2.services[sid2].waiting[i] < m2.next_req by {
            if sid2 == dest {
                let w = m.services[dest].waiting;
                w.index_of_first_ensures(rid);
                assert(m2.services[sid2].waiting == w.remove_value(rid));
                if w.contains(rid) {
                    let idx = w.index_of_first(rid)->Some_0;
                    if i < idx {
                        assert(m2.services[sid2].waiting[i] == w[i]);
                    } else {
                        assert(m2.services[sid2].waiting[i] == w[i + 1]);
                    }
                }
            } else {
                assert(m2.services[sid2].waiting == m.services[sid2].waiting);
            }
        }
    }
}

/// Checking a response preserves well-formedness, provided the request
/// identity was drawn from the counter.
pub proof fn lemma_check_response_wf(m: QueueView, sid: u64, rid: u64)
    requires
        m.wf(),
        rid < m.next_req,
    ensures
        spec_check_response(m, sid, rid).0.wf(),
{
    let m2 = spec_check_response(m, sid, rid).0;
    assert forall|sid2: u64, i: int|
        m2.services.contains_key(sid2) && 0 <= i < m2.services[sid2].queue.len() implies (
    #[trigger] m2.services[sid2].queue[i]).0 < m2.next_req by {
        assert(m2.services[sid2].queue == m.services[sid2].queue);
    }
    assert forall|sid2: u64, i: int|
        m2.services.contains_key(sid2) && 0 <= i < m2.services[sid2].waiting.len() implies
    #[trigger] m2.services[sid2].waiting[i] < m2.next_req by {
        let w = m.services[sid2].waiting;
        if !m.responses.contains_key(rid) && m.services.contains_key(sid) && sid2 == sid
            && !w.contains(rid) {
            assert(m2.services[sid2].waiting == w.push(rid));
            if i < w.len() {
                assert(m2.services[sid2].waiting[i] == w[i]);
            } else {
                assert(m2.services[sid2].waiting[i] == rid);
            }
        } else {
            assert(m2.services[sid2].waiting == w);
        }
    }
}

} // verus!
