//! A standalone object store: typed state keyed by object identity, without
//! messaging.  Identities are allocated from the store's own monotonically
//! increasing counter and are never reused.

use crate::state::{key_of, StateKey, StateStore, StateValue};
use vstd::hash_map::HashMapWithView;
use vstd::prelude::*;

verus! {

broadcast use vstd::std_specs::hash::group_hash_axioms;

/// Why an object-store operation failed.
#[derive(Clone, Copy, PartialEq, Eq, Structural, Debug)]
pub enum ObjError {
    /// No object with this identity holds any state.
    ObjIdNotFound,
    /// The object holds no state of the given shape.
    TypeNotAssignedToObjId,
}

/// The mathematical view of the object store.
#[verifier::ext_equal]
pub struct ObjStorageView {
    /// Each known object's state, keyed by object identity.
    pub objs: Map<u64, Map<StateKey, StateValue>>,
    /// The next object identity to allocate.
    pub next_id: u64,
}

impl ObjStorageView {
    /// Every identity that holds state was drawn from the counter, so an
    /// identity the counter has not yet reached holds none.
    pub open spec fn wf(self) -> bool {
        forall|id: u64| #[trigger] self.objs.contains_key(id) ==> id < self.next_id
    }
}

/// Law: in a well-formed store, a freshly allocated identity holds no state
/// yet.
pub proof fn lemma_fresh_obj_unassigned(st: ObjStorageView)
    requires
        st.wf(),
    ensures
        !st.objs.contains_key(st.next_id),
{
}

/// Law: allocation, update and removal preserve well-formedness, and so does
/// assignment under an identity drawn from the counter.
pub proof fn lemma_obj_ops_wf(st: ObjStorageView, id: u64, slots: Map<StateKey, StateValue>)
    requires
        st.wf(),
    ensures
        st.next_id < u64::MAX ==> (ObjStorageView {
            objs: st.objs,
            next_id: (st.next_id + 1) as u64,
        }).wf(),
        id < st.next_id ==> (ObjStorageView { objs: st.objs.insert(id, slots), next_id: st.next_id }).wf(),
        (ObjStorageView { objs: st.objs.remove(id), next_id: st.next_id }).wf(),
{
}

/// The object store: per-object typed state, and the identity counter.
pub struct ObjStorage {
    storage: HashMapWithView<u64, StateStore>,
    next_obj_id: u64,
}

impl View for ObjStorage {
    type V = ObjStorageView;

    closed spec fn view(&self) -> ObjStorageView {
        ObjStorageView {
            objs: Map::new(
                |id: u64| self.storage@.contains_key(id),
                |id: u64| self.storage@[id]@,
            ),
            next_id: self.next_obj_id,
        }
    }
}

impl ObjStorage {
    /// An empty store: no objects, the identity counter at zero.
    pub fn new() -> (r: Self)
        ensures
            r@ == (ObjStorageView {
                objs: Map::<u64, Map<StateKey, StateValue>>::empty(),
                next_id: 0u64,
            }),
            r@.wf(),
    {
        let r = ObjStorage { storage: HashMapWithView::new(), next_obj_id: 0 };
        proof {
            assert(r@ =~= ObjStorageView {
                objs: Map::<u64, Map<StateKey, StateValue>>::empty(),
                next_id: 0u64,
            });
        }
        r
    }

    /// Allocates a fresh object identity.
    pub fn next_id(&mut self) -> (id: u64)
        requires
            old(self)@.next_id < u64::MAX,
        ensures
            id == old(self)@.next_id,
            final(self)@ == (ObjStorageView {
                objs: old(self)@.objs,
                next_id: (old(self)@.next_id + 1) as u64,
            }),
    {
        let id = self.next_obj_id;
        self.next_obj_id = self.next_obj_id + 1;
        proof {
            assert(self@ =~= ObjStorageView {
                objs: old(self)@.objs,
                next_id: (old(self)@.next_id + 1) as u64,
            });
        }
        id
    }

    /// Stores a value under an object's identity, keyed by the value's
    /// shape: creates the object's state on first use, and replaces any
    /// earlier value of the same shape.
    pub fn assign(&mut self, obj_id: ObjId, v: StateValue)
        ensures
            final(self)@ == (ObjStorageView {
                objs: old(self)@.objs.insert(
                    obj_id@,
                    (if old(self)@.objs.contains_key(obj_id@) {
                        old(self)@.objs[obj_id@]
                    } else {
                        Map::<StateKey, StateValue>::empty()
                    }).insert(key_of(v), v),
                ),
                next_id: old(self)@.next_id,
            }),
    {
        let ghost vg = v;
        match self.storage.remove(&obj_id.id) {
            Some(mut store) => {
                store.put(v);
                self.storage.insert(obj_id.id, store);
            },
            None => {
                let mut store = StateStore::new();
                store.put(v);
                self.storage.insert(obj_id.id, store);
            },
        }
        proof {
            assert(self@.objs =~= old(self)@.objs.insert(
                obj_id@,
                (if old(self)@.objs.contains_key(obj_id@) {
                    old(self)@.objs[obj_id@]
                } else {
                    Map::<StateKey, StateValue>::empty()
                }).insert(key_of(vg), vg),
            ));
            assert(self@ =~= ObjStorageView {
                objs: self@.objs,
                next_id: old(self)@.next_id,
            });
        }
    }

    /// Replaces an already assigned value of the same shape.  Fails with
    /// [`ObjError::ObjIdNotFound`] if the object holds no state at all, and
    /// with [`ObjError::TypeNotAssignedToObjId`] if it holds no value of the
    /// new value's shape; on failure the store is unchanged.
    pub fn update(&mut self, obj_id: ObjId, v: StateValue) -> (r: Result<(), ObjError>)
        ensures
            match r {
                Ok(()) => old(self)@.objs.contains_key(obj_id@)
                    && old(self)@.objs[obj_id@].contains_key(key_of(v))
                    && final(self)@ == (ObjStorageView {
                    objs: old(self)@.objs.insert(
                        obj_id@,
                        old(self)@.objs[obj_id@].insert(key_of(v), v),
                    ),
                    next_id: old(self)@.next_id,
                }),
                Err(ObjError::ObjIdNotFound) => !old(self)@.objs.contains_key(obj_id@)
                    && final(self)@ == old(self)@,
                Err(ObjError::TypeNotAssignedToObjId) => old(self)@.objs.contains_key(obj_id@)
                    && !old(self)@.objs[obj_id@].contains_key(key_of(v))
                    && final(self)@ == old(self)@,
            },
    {
        let ghost vg = v;
        let k = match &v {
            StateValue::Button(_) => StateKey::Button,
            StateValue::Label(_) => StateKey::Label,
            StateValue::Counter(_) => StateKey::Counter,
        };
        match self.storage.remove(&obj_id.id) {
            Some(mut store) => {
                let had = match store.clone_of(k) {
                    Some(_) => true,
                    None => false,
                };
                if had {
                    store.put(v);
                    self.storage.insert(obj_id.id, store);
                    proof {
                        assert(self@.objs =~= old(self)@.objs.insert(
                            obj_id@,
                            old(self)@.objs[obj_id@].insert(key_of(vg), vg),
                        ));
                        assert(self@ =~= ObjStorageView {
                            objs: self@.objs,
                            next_id: old(self)@.next_id,
                        });
                    }
                    Ok(())
                } else {
                    self.storage.insert(obj_id.id, store);
                    proof {
                        assert(self@.objs =~= old(self)@.objs);
                        assert(self@ =~= old(self)@);
                    }
                    Err(ObjError::TypeNotAssignedToObjId)
                }
            },
            None => {
                proof {
                    assert(self@.objs =~= old(self)@.objs);
                    assert(self@ =~= old(self)@);
                }
                Err(ObjError::ObjIdNotFound)
            },
        }
    }

    /// Discards all state held under an object's identity.
    pub fn remove_obj(&mut self, obj_id: ObjId)
        ensures
            final(self)@ == (ObjStorageView {
                objs: old(self)@.objs.remove(obj_id@),
                next_id: old(self)@.next_id,
            }),
    {
        self.storage.remove(&obj_id.id);
        proof {
            assert(self@.objs =~= old(self)@.objs.remove(obj_id@));
            assert(self@ =~= ObjStorageView { objs: self@.objs, next_id: old(self)@.next_id });
        }
    }
}

/// An object identity: allocated from the store's counter, never reused.
#[derive(Clone, Copy, PartialEq, Eq, Structural, Hash, Debug)]
pub struct ObjId {
    id: u64,
}

impl View for ObjId {
    type V = u64;

    closed spec fn view(&self) -> u64 {
        self.id
    }
}

impl Default for ObjId {
    fn default() -> (r: Self)
        ensures
            r@ == 0,
    {
        Self { id: 0 }
    }
}

impl ObjId {
    /// Allocates a fresh identity from the store's counter.  The identity
    /// holds no state until something is assigned to it.
    pub fn new(st: &mut ObjStorage) -> (r: Self)
        requires
            old(st)@.next_id < u64::MAX,
        ensures
            r@ == old(st)@.next_id,
            final(st)@ == (ObjStorageView {
                objs: old(st)@.objs,
                next_id: (old(st)@.next_id + 1) as u64,
            }),
            old(st)@.wf() ==> !final(st)@.objs.contains_key(r@) && final(st)@.wf(),
    {
        let id = st.next_id();
        Self { id }
    }

    /// Stores a value under this identity, keyed by the value's shape.
    pub fn assign(&self, st: &mut ObjStorage, v: StateValue)
        ensures
            final(st)@ == (ObjStorageView {
                objs: old(st)@.objs.insert(
                    self@,
                    (if old(st)@.objs.contains_key(self@) {
                        old(st)@.objs[self@]
                    } else {
                        Map::<StateKey, StateValue>::empty()
                    }).insert(key_of(v), v),
                ),
                next_id: old(st)@.next_id,
            }),
    {
        st.assign(*self, v);
    }

    /// Discards all state held under this identity.
    pub fn remove_obj(&mut self, st: &mut ObjStorage)
        ensures
            *final(self) == *old(self),
            final(st)@ == (ObjStorageView {
                objs: old(st)@.objs.remove(old(self)@),
                next_id: old(st)@.next_id,
            }),
    {
        st.remove_obj(*self);
    }
}

} // verus!
