//! The type-indexed state store kept per service.
//!
//! A service holds at most one state value per state shape.  The shapes form
//! a closed set, so the runtime type of a value is modelled by the tag
//! [`StateKey`], and the store is a record with one optional slot per tag.
//! Its mathematical view is the partial map from tags to stored values.

use crate::gui::button::ButtonState;
use vstd::prelude::*;

verus! {

/// The runtime identity of a state shape: the key under which a value of
/// that shape is stored.
#[derive(Clone, Copy, PartialEq, Eq, Structural, Debug)]
pub enum StateKey {
    Button,
    Label,
    Counter,
}

/// A state value of one of the known shapes.
pub enum StateValue {
    Button(ButtonState),
    Label(String),
    Counter(u64),
}

/// The key under which a value is stored: the tag of its shape.
pub open spec fn key_of(v: StateValue) -> StateKey {
    match v {
        StateValue::Button(_) => StateKey::Button,
        StateValue::Label(_) => StateKey::Label,
        StateValue::Counter(_) => StateKey::Counter,
    }
}

impl Clone for StateValue {
    fn clone(&self) -> (res: Self)
        ensures
            res == self,
    {
        match self {
            StateValue::Button(b) => StateValue::Button(*b),
            StateValue::Label(s) => StateValue::Label(s.clone()),
            StateValue::Counter(n) => StateValue::Counter(*n),
        }
    }
}

/// One service's state: at most one value per state shape.
pub struct StateStore {
    button: Option<ButtonState>,
    label: Option<String>,
    counter: Option<u64>,
}

impl StateStore {
    /// The slot for a given key, as stored.
    closed spec fn slot(self, k: StateKey) -> Option<StateValue> {
        match k {
            StateKey::Button => match self.button {
                Some(b) => Some(StateValue::Button(b)),
                None => None,
            },
            StateKey::Label => match self.label {
                Some(s) => Some(StateValue::Label(s)),
                None => None,
            },
            StateKey::Counter => match self.counter {
                Some(n) => Some(StateValue::Counter(n)),
                None => None,
            },
        }
    }
}

impl View for StateStore {
    type V = Map<StateKey, StateValue>;

    closed spec fn view(&self) -> Map<StateKey, StateValue> {
        Map::new(|k: StateKey| self.slot(k) is Some, |k: StateKey| self.slot(k)->Some_0)
    }
}

impl StateStore {
    /// An empty store: no state of any shape.
    pub fn new() -> (r: Self)
        ensures
            r@ == Map::<StateKey, StateValue>::empty(),
    {
        let r = StateStore { button: None, label: None, counter: None };
        proof {
            assert(r@ =~= Map::<StateKey, StateValue>::empty());
        }
        r
    }

    /// Inserts or replaces the slot for the value's own shape.
    pub fn put(&mut self, v: StateValue)
        ensures
            final(self)@ == old(self)@.insert(key_of(v), v),
    {
        let ghost vg = v;
        match v {
            StateValue::Button(b) => {
                self.button = Some(b);
            },
            StateValue::Label(s) => {
                self.label = Some(s);
            },
            StateValue::Counter(n) => {
                self.counter = Some(n);
            },
        }
        proof {
            assert(self@ =~= old(self)@.insert(key_of(vg), vg));
        }
    }

    /// A copy of the slot for the given key, or absent.
    pub fn clone_of(&self, k: StateKey) -> (r: Option<StateValue>)
        ensures
            match r {
                Some(v) => self@.contains_key(k) && v == self@[k],
                None => !self@.contains_key(k),
            },
    {
        match k {
            StateKey::Button => match &self.button {
                Some(b) => Some(StateValue::Button(*b)),
                None => None,
            },
            StateKey::Label => match &self.label {
                Some(s) => Some(StateValue::Label(s.clone())),
                None => None,
            },
            StateKey::Counter => match &self.counter {
                Some(n) => Some(StateValue::Counter(*n)),
                None => None,
            },
        }
    }

    /// Removes and returns the slot for the given key, or absent.
    pub fn take(&mut self, k: StateKey) -> (r: Option<StateValue>)
        ensures
            final(self)@ == old(self)@.remove(k),
            match r {
                Some(v) => old(self)@.contains_key(k) && v == old(self)@[k],
                None => !old(self)@.contains_key(k),
            },
    {
        let r = match k {
            StateKey::Button => match self.button.take() {
                Some(b) => Some(StateValue::Button(b)),
                None => None,
            },
            StateKey::Label => match self.label.take() {
                Some(s) => Some(StateValue::Label(s)),
                None => None,
            },
            StateKey::Counter => match self.counter.take() {
                Some(n) => Some(StateValue::Counter(n)),
                None => None,
            },
        };
        proof {
            assert(self@ =~= old(self)@.remove(k));
        }
        r
    }
}

/// Every stored value sits under the key of its own shape.
pub proof fn lemma_store_keys(s: StateStore)
    ensures
        forall|k: StateKey| s@.contains_key(k) ==> key_of(#[trigger] s@[k]) == k,
{
}

} // verus!
