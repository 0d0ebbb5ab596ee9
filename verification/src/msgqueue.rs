//! The registry: service registration, per-service typed state, per-service
//! FIFO request queues, and one-shot response resolution.
//!
//! The registry is a single owned value; callers reach it through an
//! exclusive reference.  Handles ([`ServiceId`]) and registrations
//! ([`ServiceReg`]) carry only the plain service identity and are validated
//! against the live registry on every use, so an operation through a stale
//! handle fails cleanly with an absent result and never panics.
//!
//! Every operation's contract is stated as a transition on the registry's
//! mathematical view [`QueueView`]; the transitions themselves are spec
//! functions, so laws about sequences of operations can be proved once and
//! reused.

use crate::state::{key_of, StateKey, StateStore, StateValue};
use vstd::hash_map::HashMapWithView;
use vstd::prelude::*;
use vstd::seq_lib::*;

verus! {

broadcast use vstd::std_specs::hash::group_hash_axioms;

/// A message payload, of one of the known payload shapes.
pub enum Payload {
    Text(String),
    Number(u64),
}

impl Clone for Payload {
    fn clone(&self) -> (res: Self)
        ensures
            res == self,
    {
        match self {
            Payload::Text(s) => Payload::Text(s.clone()),
            Payload::Number(n) => Payload::Number(*n),
        }
    }
}

/// One registered service: its typed state, its FIFO queue of pending
/// inbound requests (each tagged with its request identity), and the
/// identities of requests addressed to it whose futures are suspended.
pub struct ServiceRecord {
    state: StateStore,
    queue: std::collections::VecDeque<(u64, Payload)>,
    waiting: Vec<u64>,
}

/// The mathematical view of one service record.
#[verifier::ext_equal]
pub struct ServiceView {
    /// The typed state: at most one value per state shape.
    pub state: Map<StateKey, StateValue>,
    /// Pending inbound requests, oldest first.
    pub queue: Seq<(u64, Payload)>,
    /// Requests addressed to this service with a registered waiter.
    pub waiting: Seq<u64>,
}

impl View for ServiceRecord {
    type V = ServiceView;

    closed spec fn view(&self) -> ServiceView {
        ServiceView { state: self.state@, queue: self.queue@, waiting: self.waiting@ }
    }
}

/// The mathematical view of the whole registry.
#[verifier::ext_equal]
pub struct QueueView {
    /// The live services, keyed by service identity.
    pub services: Map<u64, ServiceView>,
    /// Recorded outcomes, keyed by request identity: `Some(p)` is an answer,
    /// `None` an explicit rejection.  A key that is absent means the request
    /// has not been resolved (or its outcome was already consumed).
    pub responses: Map<u64, Option<Payload>>,
    /// Each outstanding request's destination, recorded at posting and
    /// consumed when the request's future finishes.  Resolution consults it:
    /// a resolve call addressed to a request whose destination is gone is a
    /// no-op.
    pub destinations: Map<u64, u64>,
    /// The next service identity to allocate.
    pub next_srv: u64,
    /// The next request identity to allocate.
    pub next_req: u64,
}

impl QueueView {
    /// Identities in every table are drawn from the two counters, so an
    /// identity the counters have not yet reached occurs nowhere.
    pub open spec fn wf(self) -> bool {
        &&& forall|sid: u64| #[trigger] self.services.contains_key(sid) ==> sid < self.next_srv
        &&& forall|rid: u64| #[trigger] self.responses.contains_key(rid) ==> rid < self.next_req
        &&& forall|rid: u64| #[trigger] self.destinations.contains_key(rid) ==> rid < self.next_req
        &&& forall|sid: u64, i: int|
            self.services.contains_key(sid) && 0 <= i < self.services[sid].queue.len()
                ==> (#[trigger] self.services[sid].queue[i]).0 < self.next_req
        &&& forall|sid: u64, i: int|
            self.services.contains_key(sid) && 0 <= i < self.services[sid].waiting.len()
                ==> #[trigger] self.services[sid].waiting[i] < self.next_req
    }
}

/// The registry.  It owns all service records, the response table and the
/// waiter table, and allocates all identities.
pub struct MessageQueue {
    services: HashMapWithView<u64, ServiceRecord>,
    responses: HashMapWithView<u64, Option<Payload>>,
    destinations: HashMapWithView<u64, u64>,
    next_srv_id: u64,
    next_req_id: u64,
}

impl View for MessageQueue {
    type V = QueueView;

    closed spec fn view(&self) -> QueueView {
        QueueView {
            services: Map::new(
                |sid: u64| self.services@.contains_key(sid),
                |sid: u64| self.services@[sid]@,
            ),
            responses: self.responses@,
            destinations: self.destinations@,
            next_srv: self.next_srv_id,
            next_req: self.next_req_id,
        }
    }
}

/// Registration: a fresh identity, an empty service record, the service
/// counter advanced by one.
pub open spec fn spec_register(m: QueueView) -> (QueueView, u64) {
    (
        QueueView {
            services: m.services.insert(
                m.next_srv,
                ServiceView { state: Map::empty(), queue: Seq::empty(), waiting: Seq::empty() },
            ),
            responses: m.responses,
            destinations: m.destinations,
            next_srv: (m.next_srv + 1) as u64,
            next_req: m.next_req,
        },
        m.next_srv,
    )
}

/// Unregistration: the record, all its state and all its queued requests are
/// discarded, and the waiters of requests addressed to the service are
/// handed back, so the driving loop can wake them to observe the vanished
/// failure rather than let them hang.  Unregistering an unknown identity
/// changes nothing and wakes nobody.
pub open spec fn spec_unregister(m: QueueView, sid: u64) -> (QueueView, Seq<u64>) {
    (
        QueueView { services: m.services.remove(sid), ..m },
        if m.services.contains_key(sid) {
            m.services[sid].waiting
        } else {
            Seq::empty()
        },
    )
}

/// Storing state: inserts or replaces the slot for the value's shape, if the
/// service is registered; otherwise changes nothing.
pub open spec fn spec_put_state(m: QueueView, sid: u64, v: StateValue) -> QueueView {
    if m.services.contains_key(sid) {
        let svc = m.services[sid];
        QueueView {
            services: m.services.insert(
                sid,
                ServiceView {
                    state: svc.state.insert(key_of(v), v),
                    queue: svc.queue,
                    waiting: svc.waiting,
                },
            ),
            ..m
        }
    } else {
        m
    }
}

/// The stored state of the given shape, or absent if the service is not
/// registered or holds no such state.
pub open spec fn spec_peek_state(m: QueueView, sid: u64, k: StateKey) -> Option<StateValue> {
    if m.services.contains_key(sid) && m.services[sid].state.contains_key(k) {
        Some(m.services[sid].state[k])
    } else {
        None
    }
}

/// Removing state: takes the slot out, if present; otherwise changes nothing.
pub open spec fn spec_remove_state(m: QueueView, sid: u64, k: StateKey) -> (
    QueueView,
    Option<StateValue>,
) {
    if m.services.contains_key(sid) {
        let svc = m.services[sid];
        (
            QueueView {
                services: m.services.insert(
                    sid,
                    ServiceView { state: svc.state.remove(k), queue: svc.queue, waiting: svc.waiting },
                ),
                ..m
            },
            spec_peek_state(m, sid, k),
        )
    } else {
        (m, None)
    }
}

/// Posting: allocates a fresh request identity, appends the request at the
/// destination's queue tail, records the request's destination and returns
/// the identity — if the destination is registered; otherwise changes
/// nothing and signals no such service.
pub open spec fn spec_post(m: QueueView, sid: u64, p: Payload) -> (QueueView, Option<u64>) {
    if m.services.contains_key(sid) {
        let svc = m.services[sid];
        let rid = m.next_req;
        (
            QueueView {
                services: m.services.insert(
                    sid,
                    ServiceView {
                        state: svc.state,
                        queue: svc.queue.push((rid, p)),
                        waiting: svc.waiting,
                    },
                ),
                destinations: m.destinations.insert(rid, sid),
                next_req: (m.next_req + 1) as u64,
                ..m
            },
            Some(rid),
        )
    } else {
        (m, None)
    }
}

/// Taking: removes and returns the oldest queued request, or absent if the
/// queue is empty or the service is not registered.
pub open spec fn spec_take(m: QueueView, sid: u64) -> (QueueView, Option<(u64, Payload)>) {
    if m.services.contains_key(sid) && m.services[sid].queue.len() > 0 {
        let svc = m.services[sid];
        (
            QueueView {
                services: m.services.insert(
                    sid,
                    ServiceView {
                        state: svc.state,
                        queue: svc.queue.subrange(1, svc.queue.len() as int),
                        waiting: svc.waiting,
                    },
                ),
                ..m
            },
            Some(svc.queue[0]),
        )
    } else {
        (m, None)
    }
}

/// Resolution: if the request's destination is still registered, records the
/// outcome — `Some(p)` an answer, `None` an explicit rejection — overwriting
/// any earlier outcome, and consumes the request's waiter entry if one is
/// registered.  A resolve call addressed to a request whose destination was
/// unregistered, or to an unknown request, is a no-op: the request's future
/// must still observe the vanished failure.
pub open spec fn spec_set_response(m: QueueView, rid: u64, resp: Option<Payload>) -> (
    QueueView,
    bool,
) {
    if m.destinations.contains_key(rid) && m.services.contains_key(m.destinations[rid]) {
        let dest = m.destinations[rid];
        let svc = m.services[dest];
        (
            QueueView {
                services: m.services.insert(
                    dest,
                    ServiceView {
                        state: svc.state,
                        queue: svc.queue,
                        waiting: svc.waiting.remove_value(rid),
                    },
                ),
                responses: m.responses.insert(rid, resp),
                ..m
            },
            svc.waiting.contains(rid),
        )
    } else {
        (m, false)
    }
}

/// What one poll of a request future observes.
pub enum ResponseCheck {
    /// The destination answered with this payload; the outcome is consumed.
    Ready(Payload),
    /// The destination explicitly rejected the request; the outcome is
    /// consumed.
    Rejected,
    /// No outcome yet and the destination is still registered; the caller is
    /// now recorded as the request's waiter.
    Pending,
    /// No outcome and the destination is no longer registered: the request
    /// can never be answered.
    Vanished,
}

/// Checking: consumes a recorded outcome if there is one (the request is
/// then finished, so its destination entry is dropped too); otherwise either
/// registers the caller as the request's waiter (destination still
/// registered) or reports the destination gone.
pub open spec fn spec_check_response(m: QueueView, sid: u64, rid: u64) -> (
    QueueView,
    ResponseCheck,
) {
    if m.responses.contains_key(rid) {
        let m2 = QueueView {
            responses: m.responses.remove(rid),
            destinations: m.destinations.remove(rid),
            ..m
        };
        match m.responses[rid] {
            Some(p) => (m2, ResponseCheck::Ready(p)),
            None => (m2, ResponseCheck::Rejected),
        }
    } else {
        if m.services.contains_key(sid) {
            let svc = m.services[sid];
            (
                QueueView {
                    services: m.services.insert(
                        sid,
                        ServiceView {
                            state: svc.state,
                            queue: svc.queue,
                            waiting: if svc.waiting.contains(rid) {
                                svc.waiting
                            } else {
                                svc.waiting.push(rid)
                            },
                        },
                    ),
                    ..m
                },
                ResponseCheck::Pending,
            )
        } else {
            (
                QueueView { destinations: m.destinations.remove(rid), ..m },
                ResponseCheck::Vanished,
            )
        }
    }
}

/// In any registry, every stored state value sits under the key of its own
/// shape: the store is keyed by the values' runtime identity.
pub proof fn lemma_state_keys(q: &MessageQueue)
    ensures
        forall|sid: u64, k: StateKey|
            q@.services.contains_key(sid) && q@.services[sid].state.contains_key(k) ==> key_of(
                #[trigger] q@.services[sid].state[k],
            ) == k,
{
    assert forall|sid: u64, k: StateKey|
        q@.services.contains_key(sid) && q@.services[sid].state.contains_key(k) implies key_of(
        #[trigger] q@.services[sid].state[k],
    ) == k by {
        crate::state::lemma_store_keys(q.services@[sid].state);
    }
}

/// Whether a plain vector contains a value.
fn vec_contains_u64(v: &Vec<u64>, x: u64) -> (r: bool)
    ensures
        r == v@.contains(x),
{
    let mut i: usize = 0;
    while i < v.len()
        invariant
            i <= v@.len(),
            forall|j: int| 0 <= j < i ==> v@[j] != x,
        decreases v@.len() - i,
    {
        if v[i] == x {
            return true;
        }
        i = i + 1;
    }
    false
}

/// Removes the first occurrence of a value from a plain vector, reporting
/// whether one was there.
fn vec_remove_first_u64(v: &mut Vec<u64>, x: u64) -> (r: bool)
    ensures
        r == old(v)@.contains(x),
        final(v)@ == old(v)@.remove_value(x),
{
    let mut i: usize = 0;
    while i < v.len()
        invariant
            i <= v@.len(),
            forall|j: int| 0 <= j < i ==> v@[j] != x,
            v@ == old(v)@,
        decreases v@.len() - i,
    {
        if v[i] == x {
            v.remove(i);
            proof {
                old(v)@.index_of_first_ensures(x);
                assert(old(v)@.index_of_first(x) == Some(i as int));
            }
            return true;
        }
        i = i + 1;
    }
    proof {
        old(v)@.index_of_first_ensures(x);
        assert(v@ =~= old(v)@.remove_value(x));
    }
    false
}

impl MessageQueue {
    /// An empty registry: no services, no recorded outcomes, no tracked
    /// destinations, both counters at zero.
    pub fn new() -> (r: Self)
        ensures
            r@ == (QueueView {
                services: Map::<u64, ServiceView>::empty(),
                responses: Map::<u64, Option<Payload>>::empty(),
                destinations: Map::<u64, u64>::empty(),
                next_srv: 0u64,
                next_req: 0u64,
            }),
            r@.wf(),
    {
        let r = MessageQueue {
            services: HashMapWithView::new(),
            responses: HashMapWithView::new(),
            destinations: HashMapWithView::new(),
            next_srv_id: 0,
            next_req_id: 0,
        };
        proof {
            assert(r@ =~= QueueView {
                services: Map::<u64, ServiceView>::empty(),
                responses: Map::<u64, Option<Payload>>::empty(),
                destinations: Map::<u64, u64>::empty(),
                next_srv: 0u64,
                next_req: 0u64,
            });
        }
        r
    }

    /// The next service identity the registry would allocate.  Callers that
    /// cannot prove the counter is below its ceiling test this first.
    pub fn next_service_id(&self) -> (r: u64)
        ensures
            r == self@.next_srv,
    {
        self.next_srv_id
    }

    /// The next request identity the registry would allocate.  Callers that
    /// cannot prove the counter is below its ceiling test this first.
    pub fn next_request_id(&self) -> (r: u64)
        ensures
            r == self@.next_req,
    {
        self.next_req_id
    }

    /// Registers a new service and returns its identity.
    pub fn register(&mut self) -> (sid: u64)
        requires
            old(self)@.next_srv < u64::MAX,
        ensures
            final(self)@ == spec_register(old(self)@).0,
            sid == spec_register(old(self)@).1,
    {
        let sid = self.next_srv_id;
        let rec = ServiceRecord {
            state: StateStore::new(),
            queue: std::collections::VecDeque::new(),
            waiting: Vec::new(),
        };
        self.services.insert(sid, rec);
        self.next_srv_id = self.next_srv_id + 1;
        proof {
            assert(self@.services =~= spec_register(old(self)@).0.services);
            assert(self@ =~= spec_register(old(self)@).0);
        }
        sid
    }

    /// Unregisters a service, discarding its state and its queued requests,
    /// and returns the identities of requests addressed to it whose futures
    /// are suspended: the driving loop wakes those, so that their next poll
    /// observes the vanished failure instead of hanging forever.
    pub fn unregister(&mut self, sid: u64) -> (woken: Vec<u64>)
        ensures
            final(self)@ == spec_unregister(old(self)@, sid).0,
            woken@ == spec_unregister(old(self)@, sid).1,
    {
        match self.services.remove(&sid) {
            Some(rec) => {
                proof {
                    assert(self@.services =~= spec_unregister(old(self)@, sid).0.services);
                    assert(self@ =~= spec_unregister(old(self)@, sid).0);
                }
                rec.waiting
            },
            None => {
                proof {
                    assert(self@.services =~= spec_unregister(old(self)@, sid).0.services);
                    assert(self@ =~= spec_unregister(old(self)@, sid).0);
                }
                Vec::new()
            },
        }
    }

    /// Stores a state value under the service's identity, keyed by the
    /// value's shape; a no-op if the service is not registered.
    pub fn put_state(&mut self, sid: u64, v: StateValue)
        ensures
            final(self)@ == spec_put_state(old(self)@, sid, v),
    {
        let ghost vg = v;
        match self.services.remove(&sid) {
            Some(mut rec) => {
                rec.state.put(v);
                self.services.insert(sid, rec);
                proof {
                    assert(self@.services =~= spec_put_state(old(self)@, sid, vg).services);
                    assert(self@ =~= spec_put_state(old(self)@, sid, vg));
                }
            },
            None => {
                proof {
                    assert(self@.services =~= old(self)@.services);
                    assert(self@ =~= spec_put_state(old(self)@, sid, vg));
                }
            },
        }
    }

    /// A copy of the stored state of the given shape, or absent.
    pub fn clone_state(&self, sid: u64, k: StateKey) -> (r: Option<StateValue>)
        ensures
            r == spec_peek_state(self@, sid, k),
    {
        match self.services.get(&sid) {
            Some(rec) => rec.state.clone_of(k),
            None => None,
        }
    }

    /// Applies a function to a copy of the stored state of the given shape
    /// and returns its result, or absent if there is no such state.
    pub fn peek_state<V, F: FnOnce(StateValue) -> V>(&self, sid: u64, k: StateKey, f: F) -> (r:
        Option<V>)
        requires
            forall|v: StateValue| key_of(v) == k ==> call_requires(f, (v,)),
        ensures
            match r {
                Some(out) => spec_peek_state(self@, sid, k) matches Some(v) && call_ensures(
                    f,
                    (v,),
                    out,
                ),
                None => spec_peek_state(self@, sid, k) is None,
            },
    {
        proof {
            lemma_state_keys(self);
        }
        match self.clone_state(sid, k) {
            Some(v) => Some(f(v)),
            None => None,
        }
    }

    /// What a successful poke did: some value `v2` produced by the function
    /// from the previously stored value, together with the side result
    /// `out`, was stored back in the slot.
    pub open spec fn poke_transition<V, F: FnOnce(StateValue) -> (StateValue, V)>(
        m: QueueView,
        m2: QueueView,
        sid: u64,
        k: StateKey,
        f: F,
        out: V,
    ) -> bool {
        exists|v2: StateValue|
            #[trigger] call_ensures(f, (spec_peek_state(m, sid, k)->Some_0,), (v2, out)) && m2
                == spec_put_state(m, sid, v2)
    }

    /// Applies a shape-preserving function to the stored state of the given
    /// shape, stores the updated value back and returns the function's side
    /// result, or absent (leaving the registry unchanged) if there is no
    /// such state.
    pub fn poke_state<V, F: FnOnce(StateValue) -> (StateValue, V)>(
        &mut self,
        sid: u64,
        k: StateKey,
        f: F,
    ) -> (r: Option<V>)
        requires
            forall|v: StateValue| key_of(v) == k ==> call_requires(f, (v,)),
            forall|v: StateValue, out: (StateValue, V)|
                key_of(v) == k && call_ensures(f, (v,), out) ==> key_of(out.0) == key_of(v),
        ensures
            match r {
                Some(out) => spec_peek_state(old(self)@, sid, k) is Some
                    && Self::poke_transition(old(self)@, final(self)@, sid, k, f, out),
                None => spec_peek_state(old(self)@, sid, k) is None && final(self)@ == old(self)@,
            },
    {
        proof {
            lemma_state_keys(old(self));
        }
        let taken = self.remove_state(sid, k);
        match taken {
            Some(v) => {
                let ghost vg = v;
                proof {
                    assert(key_of(vg) == k);
                }
                let (v2, out) = f(v);
                let ghost v2g = v2;
                self.put_state(sid, v2);
                proof {
                    let m = old(self)@;
                    let m1 = spec_remove_state(m, sid, k).0;
                    assert(key_of(vg) == k);
                    assert(key_of(v2g) == k);
                    assert(m1.services[sid].state.insert(k, v2g) =~= m.services[sid].state.insert(
                        k,
                        v2g,
                    ));
                    assert(spec_put_state(m1, sid, v2g).services =~= spec_put_state(
                        m,
                        sid,
                        v2g,
                    ).services);
                    assert(spec_put_state(m1, sid, v2g) =~= spec_put_state(m, sid, v2g));
                    assert(self@ == spec_put_state(m, sid, v2g));
                    assert(spec_peek_state(m, sid, k) == Some(vg));
                    assert(call_ensures(f, (vg,), (v2g, out)));
                    assert(spec_peek_state(m, sid, k) is Some);
                    assert(spec_peek_state(m, sid, k)->Some_0 == vg);
                    assert(Self::poke_transition(m, self@, sid, k, f, out));
                }
                Some(out)
            },
            None => {
                proof {
                    let m = old(self)@;
                    if m.services.contains_key(sid) {
                        assert(m.services[sid].state.remove(k) =~= m.services[sid].state);
                        assert((ServiceView {
                            state: m.services[sid].state.remove(k),
                            queue: m.services[sid].queue,
                            waiting: m.services[sid].waiting,
                        }) =~= m.services[sid]);
                        assert(spec_remove_state(m, sid, k).0.services =~= m.services);
                        assert(spec_remove_state(m, sid, k).0 =~= m);
                    }
                }
                None
            },
        }
    }

    /// Removes and returns the stored state of the given shape, or absent.
    pub fn remove_state(&mut self, sid: u64, k: StateKey) -> (r: Option<StateValue>)
        ensures
            final(self)@ == spec_remove_state(old(self)@, sid, k).0,
            r == spec_remove_state(old(self)@, sid, k).1,
    {
        match self.services.remove(&sid) {
            Some(mut rec) => {
                let taken = rec.state.take(k);
                self.services.insert(sid, rec);
                proof {
                    assert(self@.services =~= spec_remove_state(old(self)@, sid, k).0.services);
                    assert(self@ =~= spec_remove_state(old(self)@, sid, k).0);
                }
                taken
            },
            None => {
                proof {
                    assert(self@.services =~= old(self)@.services);
                    assert(self@ =~= spec_remove_state(old(self)@, sid, k).0);
                }
                None
            },
        }
    }

    /// Posts a request to the destination service: allocates a fresh request
    /// identity, appends the request at the destination's queue tail and
    /// returns the identity, or absent if the destination is not registered.
    pub fn post_request(&mut self, sid: u64, p: Payload) -> (r: Option<u64>)
        requires
            old(self)@.next_req < u64::MAX,
        ensures
            final(self)@ == spec_post(old(self)@, sid, p).0,
            r == spec_post(old(self)@, sid, p).1,
    {
        let ghost pg = p;
        match self.services.remove(&sid) {
            Some(mut rec) => {
                let rid = self.next_req_id;
                rec.queue.push_back((rid, p));
                self.services.insert(sid, rec);
                self.destinations.insert(rid, sid);
                self.next_req_id = self.next_req_id + 1;
                proof {
                    assert(self@.services =~= spec_post(old(self)@, sid, pg).0.services);
                    assert(self@ =~= spec_post(old(self)@, sid, pg).0);
                }
                Some(rid)
            },
            None => {
                proof {
                    assert(self@.services =~= old(self)@.services);
                    assert(self@ =~= spec_post(old(self)@, sid, pg).0);
                }
                None
            },
        }
    }

    /// Removes and returns the oldest queued request for the service, or
    /// absent if the queue is empty or the service is not registered.
    pub fn take_request(&mut self, sid: u64) -> (r: Option<(u64, Payload)>)
        ensures
            final(self)@ == spec_take(old(self)@, sid).0,
            r == spec_take(old(self)@, sid).1,
    {
        match self.services.remove(&sid) {
            Some(mut rec) => {
                let taken = rec.queue.pop_front();
                self.services.insert(sid, rec);
                proof {
                    assert(self@.services =~= spec_take(old(self)@, sid).0.services);
                    assert(self@ =~= spec_take(old(self)@, sid).0);
                }
                taken
            },
            None => {
                proof {
                    assert(self@.services =~= old(self)@.services);
                    assert(self@ =~= spec_take(old(self)@, sid).0);
                }
                None
            },
        }
    }

    /// Records the outcome for a request — an answer or an explicit
    /// rejection — provided its destination is still registered, and
    /// consumes the request's waiter entry.  Returns whether a waiter was
    /// registered, so the driving loop can wake it.  A resolve call for a
    /// request whose destination was unregistered, or for an unknown
    /// request, is a no-op, so the request's future still observes the
    /// vanished failure.
    pub fn set_response(&mut self, rid: u64, resp: Option<Payload>) -> (woke: bool)
        ensures
            final(self)@ == spec_set_response(old(self)@, rid, resp).0,
            woke == spec_set_response(old(self)@, rid, resp).1,
    {
        let ghost rg = resp;
        let dest_opt: Option<u64> = match self.destinations.get(&rid) {
            Some(d) => Some(*d),
            None => None,
        };
        match dest_opt {
            Some(dest) => {
                match self.services.remove(&dest) {
                    Some(mut rec) => {
                        let woke = vec_remove_first_u64(&mut rec.waiting, rid);
                        self.services.insert(dest, rec);
                        self.responses.insert(rid, resp);
                        proof {
                            assert(self@.services =~= spec_set_response(
                                old(self)@,
                                rid,
                                rg,
                            ).0.services);
                            assert(self@ =~= spec_set_response(old(self)@, rid, rg).0);
                        }
                        woke
                    },
                    None => {
                        proof {
                            assert(self@.services =~= old(self)@.services);
                            assert(self@ =~= old(self)@);
                        }
                        false
                    },
                }
            },
            None => {
                false
            },
        }
    }

    /// One poll step for an outstanding request: consumes a recorded
    /// outcome, or registers the request's waiter, or reports the
    /// destination gone.
    pub fn check_response(&mut self, sid: u64, rid: u64) -> (r: ResponseCheck)
        ensures
            final(self)@ == spec_check_response(old(self)@, sid, rid).0,
            r == spec_check_response(old(self)@, sid, rid).1,
    {
        match self.responses.remove(&rid) {
            Some(resp) => {
                self.destinations.remove(&rid);
                proof {
                    assert(self@ =~= spec_check_response(old(self)@, sid, rid).0);
                }
                match resp {
                    Some(p) => ResponseCheck::Ready(p),
                    None => ResponseCheck::Rejected,
                }
            },
            None => {
                match self.services.remove(&sid) {
                    Some(mut rec) => {
                        if !vec_contains_u64(&rec.waiting, rid) {
                            rec.waiting.push(rid);
                        }
                        self.services.insert(sid, rec);
                        proof {
                            assert(self@.services =~= spec_check_response(
                                old(self)@,
                                sid,
                                rid,
                            ).0.services);
                            assert(self@ =~= spec_check_response(old(self)@, sid, rid).0);
                        }
                        ResponseCheck::Pending
                    },
                    None => {
                        self.destinations.remove(&rid);
                        proof {
                            assert(self@.destinations =~= spec_check_response(
                                old(self)@,
                                sid,
                                rid,
                            ).0.destinations);
                            assert(self@ =~= spec_check_response(old(self)@, sid, rid).0);
                        }
                        ResponseCheck::Vanished
                    },
                }
            },
        }
    }
}

/// A cloneable, weakly-referencing capability to one service: it carries
/// only the plain identity, which every operation validates against the live
/// registry.  Operations through a handle to an unregistered service return
/// absent and never panic.
#[derive(Clone, Copy, PartialEq, Eq, Structural, Hash, Debug)]
pub struct ServiceId {
    id: u64,
}

impl View for ServiceId {
    type V = u64;

    closed spec fn view(&self) -> u64 {
        self.id
    }
}

impl ServiceId {
    /// A handle to the service with the given identity.
    pub fn new(id: u64) -> (r: Self)
        ensures
            r@ == id,
    {
        Self { id }
    }

    /// The plain identity this handle carries.
    pub fn id(&self) -> (r: u64)
        ensures
            r == self@,
    {
        self.id
    }

    /// Stores a state value under this service's identity; a no-op if the
    /// service is no longer registered.
    pub fn put_state(&self, q: &mut MessageQueue, v: StateValue)
        ensures
            final(q)@ == spec_put_state(old(q)@, self@, v),
    {
        q.put_state(self.id, v);
    }

    /// A copy of this service's stored state of the given shape, or absent.
    pub fn clone_state(&self, q: &MessageQueue, k: StateKey) -> (r: Option<StateValue>)
        ensures
            r == spec_peek_state(q@, self@, k),
    {
        q.clone_state(self.id, k)
    }

    /// Applies a function to a copy of this service's stored state of the
    /// given shape and returns its result, or absent.
    pub fn peek_state<V, F: FnOnce(StateValue) -> V>(&self, q: &MessageQueue, k: StateKey, f: F)
        -> (r: Option<V>)
        requires
            forall|v: StateValue| key_of(v) == k ==> call_requires(f, (v,)),
        ensures
            match r {
                Some(out) => spec_peek_state(q@, self@, k) matches Some(v) && call_ensures(
                    f,
                    (v,),
                    out,
                ),
                None => spec_peek_state(q@, self@, k) is None,
            },
    {
        q.peek_state(self.id, k, f)
    }

    /// Applies a shape-preserving function to this service's stored state of
    /// the given shape, stores the updated value back and returns the
    /// function's side result, or absent.
    pub fn poke_state<V, F: FnOnce(StateValue) -> (StateValue, V)>(
        &self,
        q: &mut MessageQueue,
        k: StateKey,
        f: F,
    ) -> (r: Option<V>)
        requires
            forall|v: StateValue| key_of(v) == k ==> call_requires(f, (v,)),
            forall|v: StateValue, out: (StateValue, V)|
                key_of(v) == k && call_ensures(f, (v,), out) ==> key_of(out.0) == key_of(v),
        ensures
            match r {
                Some(out) => spec_peek_state(old(q)@, self@, k) is Some
                    && MessageQueue::poke_transition(old(q)@, final(q)@, self@, k, f, out),
                None => spec_peek_state(old(q)@, self@, k) is None && final(q)@ == old(q)@,
            },
    {
        q.poke_state(self.id, k, f)
    }
}

/// The strong capability for one service: its owner registers the service at
/// creation and is expected to unregister it when the service's life ends.
pub struct ServiceReg {
    id: u64,
}

impl View for ServiceReg {
    type V = u64;

    closed spec fn view(&self) -> u64 {
        self.id
    }
}

impl ServiceReg {
    /// Registers a new service.
    pub fn new(q: &mut MessageQueue) -> (r: Self)
        requires
            old(q)@.next_srv < u64::MAX,
        ensures
            final(q)@ == spec_register(old(q)@).0,
            r@ == spec_register(old(q)@).1,
    {
        let id = q.register();
        Self { id }
    }

    /// A weak handle to the registered service.
    pub fn service_id(&self) -> (r: ServiceId)
        ensures
            r@ == self@,
    {
        ServiceId::new(self.id)
    }

    /// Ends the service's life: unregisters it, discarding its state and any
    /// still-queued requests, and returns the identities of suspended
    /// futures to wake.  Consumes the registration, so a service is
    /// unregistered at most once.
    pub fn unregister(self, q: &mut MessageQueue) -> (woken: Vec<u64>)
        ensures
            final(q)@ == spec_unregister(old(q)@, self@).0,
            woken@ == spec_unregister(old(q)@, self@).1,
    {
        q.unregister(self.id)
    }
}

/// What polling a request future yields.
pub enum PollResult {
    /// The future is done, with the request's final outcome.
    Ready(Result<Payload, RequestError>),
    /// No outcome yet; the destination may still answer, and the caller has
    /// been recorded as the request's waiter.
    Pending,
}

/// Why a request future failed.
#[derive(Clone, Copy, PartialEq, Eq, Structural, Debug)]
pub enum RequestError {
    /// The request was never accepted: posting it failed because the
    /// destination did not exist.
    NotAccepted,
    /// The destination explicitly declined to answer the request.
    Rejected,
    /// The destination was unregistered before answering.
    Vanished,
}

/// A one-shot awaitable request: the destination's identity together with
/// the request identity returned by posting, or none if posting failed.
pub struct Request {
    srv_id: u64,
    opt_req_id: Option<u64>,
}

impl Request {
    /// The destination service's identity.
    pub closed spec fn spec_srv_id(&self) -> u64 {
        self.srv_id
    }

    /// The request identity, if posting succeeded.
    pub closed spec fn spec_req_id(&self) -> Option<u64> {
        self.opt_req_id
    }

    /// A request future for the given destination and posting outcome.
    pub fn new(srv_id: u64, opt_req_id: Option<u64>) -> (r: Self)
        ensures
            r.spec_srv_id() == srv_id,
            r.spec_req_id() == opt_req_id,
    {
        Self { srv_id, opt_req_id }
    }

    /// The request identity, if posting succeeded: the key under which the
    /// driving loop keeps this future's resumption handle.
    pub fn request_id(&self) -> (r: Option<u64>)
        ensures
            r == self.spec_req_id(),
    {
        self.opt_req_id
    }

    /// One poll step.  A future whose request was never accepted fails
    /// immediately; otherwise a recorded outcome is consumed and yields
    /// success or failure, and with no outcome the future either stays
    /// pending (destination still registered, waiter recorded) or fails
    /// because the destination vanished.
    pub fn poll(&self, q: &mut MessageQueue) -> (r: PollResult)
        ensures
            match self.spec_req_id() {
                None => r == PollResult::Ready(Result::<Payload, RequestError>::Err(
                    RequestError::NotAccepted,
                )) && final(q)@ == old(q)@,
                Some(rid) => {
                    let (m2, c) = spec_check_response(old(q)@, self.spec_srv_id(), rid);
                    final(q)@ == m2 && r == (match c {
                        ResponseCheck::Ready(p) => PollResult::Ready(Result::<
                            Payload,
                            RequestError,
                        >::Ok(p)),
                        ResponseCheck::Rejected => PollResult::Ready(Result::<
                            Payload,
                            RequestError,
                        >::Err(RequestError::Rejected)),
                        ResponseCheck::Pending => PollResult::Pending,
                        ResponseCheck::Vanished => PollResult::Ready(Result::<
                            Payload,
                            RequestError,
                        >::Err(RequestError::Vanished)),
                    })
                },
            },
    {
        match self.opt_req_id {
            None => PollResult::Ready(Err(RequestError::NotAccepted)),
            Some(rid) => match q.check_response(self.srv_id, rid) {
                ResponseCheck::Ready(p) => PollResult::Ready(Ok(p)),
                ResponseCheck::Rejected => PollResult::Ready(Err(RequestError::Rejected)),
                ResponseCheck::Pending => PollResult::Pending,
                ResponseCheck::Vanished => PollResult::Ready(Err(RequestError::Vanished)),
            },
        }
    }
}

} // verus!
