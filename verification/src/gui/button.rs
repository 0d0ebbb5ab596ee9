//! Button widget state and the button service interface.

use crate::gui::IService;
use crate::msgqueue::{
    lemma_state_keys, spec_peek_state, spec_put_state, MessageQueue, QueueView, ServiceId,
};
use crate::state::{StateKey, StateValue};
use vstd::prelude::*;

verus! {

/// The state a button stores under its service identity: whether it is
/// currently touched (pressed).
#[derive(Clone, Copy, PartialEq, Eq, Structural, Debug)]
pub struct ButtonState {
    pub touched: bool,
}

/// The button state a service stores, or absent if it stores none.
pub open spec fn spec_button(m: QueueView, sid: u64) -> Option<ButtonState> {
    match spec_peek_state(m, sid, StateKey::Button) {
        Some(StateValue::Button(b)) => Some(b),
        Some(_) => None,
        None => None,
    }
}

/// Whether the service's button state is touched, or absent.
pub open spec fn spec_touched(m: QueueView, sid: u64) -> Option<bool> {
    match spec_button(m, sid) {
        Some(b) => Some(b.touched),
        None => None,
    }
}

/// What a successful button poke did: some state produced by the function
/// from the previously stored state, with the side result `out`, was stored
/// back.
pub open spec fn button_poke_transition<V, F: FnOnce(ButtonState) -> (ButtonState, V)>(
    m: QueueView,
    m2: QueueView,
    sid: u64,
    f: F,
    out: V,
) -> bool {
    exists|b2: ButtonState|
        #[trigger] call_ensures(f, (spec_button(m, sid)->Some_0,), (b2, out)) && m2
            == spec_put_state(m, sid, StateValue::Button(b2))
}

impl ButtonState {
    /// A fresh button state: not touched.
    pub fn new() -> (r: Self)
        ensures
            !r.touched,
    {
        Self { touched: false }
    }

    /// Applies a function to a copy of the button state the service stores
    /// and returns its result, or absent if it stores none.
    pub fn peek<V, F: FnOnce(ButtonState) -> V>(id: ServiceId, q: &MessageQueue, f: F) -> (r:
        Option<V>)
        requires
            forall|b: ButtonState| call_requires(f, (b,)),
        ensures
            match r {
                Some(out) => spec_button(q@, id@) is Some && call_ensures(
                    f,
                    (spec_button(q@, id@)->Some_0,),
                    out,
                ),
                None => spec_button(q@, id@) is None,
            },
    {
        match id.clone_state(q, StateKey::Button) {
            Some(StateValue::Button(b)) => Some(f(b)),
            Some(_) => None,
            None => None,
        }
    }

    /// Applies a function to the button state the service stores, stores the
    /// updated state back and returns the function's side result, or absent
    /// (leaving the registry unchanged) if it stores none.
    pub fn poke<V, F: FnOnce(ButtonState) -> (ButtonState, V)>(
        id: ServiceId,
        q: &mut MessageQueue,
        f: F,
    ) -> (r: Option<V>)
        requires
            forall|b: ButtonState| call_requires(f, (b,)),
        ensures
            match r {
                Some(out) => spec_button(old(q)@, id@) is Some && button_poke_transition(
                    old(q)@,
                    final(q)@,
                    id@,
                    f,
                    out,
                ),
                None => spec_button(old(q)@, id@) is None && final(q)@ == old(q)@,
            },
    {
        proof {
            lemma_state_keys(old(q));
        }
        let sid = id.id();
        let taken = q.remove_state(sid, StateKey::Button);
        match taken {
            Some(StateValue::Button(b)) => {
                let ghost bg = b;
                let (b2, out) = f(b);
                let ghost b2g = b2;
                q.put_state(sid, StateValue::Button(b2));
                proof {
                    let m = old(q)@;
                    let m1 = crate::msgqueue::spec_remove_state(m, sid, StateKey::Button).0;
                    let v2 = StateValue::Button(b2g);
                    assert(m1.services[sid].state.insert(StateKey::Button, v2)
                        =~= m.services[sid].state.insert(StateKey::Button, v2));
                    assert(spec_put_state(m1, sid, v2).services =~= spec_put_state(
                        m,
                        sid,
                        v2,
                    ).services);
                    assert(spec_put_state(m1, sid, v2) =~= spec_put_state(m, sid, v2));
                    assert(q@ == spec_put_state(m, sid, v2));
                    assert(spec_button(m, sid) == Some(bg));
                    assert(spec_button(m, sid)->Some_0 == bg);
                    assert(call_ensures(f, (spec_button(m, sid)->Some_0,), (b2g, out)));
                    assert(button_poke_transition(m, q@, sid, f, out));
                }
                Some(out)
            },
            Some(_) => {
                proof {
                    assert(false);
                }
                None
            },
            None => {
                proof {
                    let m = old(q)@;
                    if m.services.contains_key(sid) {
                        assert(m.services[sid].state.remove(StateKey::Button)
                            =~= m.services[sid].state);
                        assert((crate::msgqueue::ServiceView {
                            state: m.services[sid].state.remove(StateKey::Button),
                            queue: m.services[sid].queue,
                            waiting: m.services[sid].waiting,
                        }) =~= m.services[sid]);
                        assert(crate::msgqueue::spec_remove_state(
                            m,
                            sid,
                            StateKey::Button,
                        ).0.services =~= m.services);
                        assert(crate::msgqueue::spec_remove_state(m, sid, StateKey::Button).0
                            =~= m);
                    }
                }
                None
            },
        }
    }
}

impl Default for ButtonState {
    fn default() -> (r: Self)
        ensures
            !r.touched,
    {
        ButtonState::new()
    }
}

/// The button service interface: typed access to the button state a service
/// stores.
pub trait IButton: IService {
    /// Whether the backing service's button state is touched, or absent if
    /// it stores no button state.
    fn get_touched(&self, q: &MessageQueue) -> (r: Option<bool>)
        ensures
            r == spec_touched(q@, self.sid_spec()),
    {
        let f = |b: ButtonState| -> (res: bool)
            ensures
                res == b.touched,
            { b.touched };
        ButtonState::peek(self.service_id(), q, f)
    }

    /// Sets whether the backing service's button state is touched; absent,
    /// with the registry unchanged, if it stores no button state.
    fn set_touched(&self, q: &mut MessageQueue, touched: bool) -> (r: Option<()>)
        ensures
            match r {
                Some(_) => spec_touched(old(q)@, self.sid_spec()) is Some && final(q)@
                    == spec_put_state(
                    old(q)@,
                    self.sid_spec(),
                    StateValue::Button(ButtonState { touched }),
                ),
                None => spec_touched(old(q)@, self.sid_spec()) is None && final(q)@ == old(q)@,
            },
    {
        let f = |b: ButtonState| -> (res: (ButtonState, ()))
            ensures
                res.0 == (ButtonState { touched }),
            { (ButtonState { touched }, ()) };
        ButtonState::poke(self.service_id(), q, f)
    }
}

/// A button's identity: a weak handle to the service that stores its state.
#[derive(Clone, Copy)]
pub struct ButtonId(ServiceId);

impl ButtonId {
    /// A button identity over the given service handle.
    pub fn new(id: ServiceId) -> (r: Self)
        ensures
            r.sid_spec() == id@,
    {
        ButtonId(id)
    }
}

impl IService for ButtonId {
    closed spec fn sid_spec(&self) -> u64 {
        self.0@
    }

    fn service_id(&self) -> (r: ServiceId) {
        self.0
    }
}

impl IButton for ButtonId {

}

} // verus!
