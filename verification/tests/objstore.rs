use msgqueue::obj::{ObjError, ObjId, ObjStorage};
use msgqueue::state::StateValue;

#[test]
fn obj_ids_are_distinct_and_increasing() {
    let mut st = ObjStorage::new();
    let a = ObjId::new(&mut st);
    let b = ObjId::new(&mut st);
    let c = ObjId::new(&mut st);
    assert_ne!(a, b);
    assert_ne!(b, c);
    assert_ne!(a, c);
}

#[test]
fn assign_then_update_replaces_value() {
    let mut st = ObjStorage::new();
    let id = ObjId::new(&mut st);
    id.assign(&mut st, StateValue::Counter(5));
    assert!(st.update(id, StateValue::Counter(7)).is_ok());
}

#[test]
fn update_without_any_state_reports_missing_object() {
    let mut st = ObjStorage::new();
    let id = ObjId::new(&mut st);
    match st.update(id, StateValue::Counter(1)) {
        Err(ObjError::ObjIdNotFound) => {}
        _ => panic!("expected the object to be unknown"),
    }
}

#[test]
fn update_of_unassigned_shape_reports_missing_shape() {
    let mut st = ObjStorage::new();
    let id = ObjId::new(&mut st);
    id.assign(&mut st, StateValue::Counter(1));
    match st.update(id, StateValue::Label(String::from("x"))) {
        Err(ObjError::TypeNotAssignedToObjId) => {}
        _ => panic!("expected the shape to be unassigned"),
    }
}

#[test]
fn remove_obj_discards_all_state() {
    let mut st = ObjStorage::new();
    let mut id = ObjId::new(&mut st);
    id.assign(&mut st, StateValue::Counter(1));
    id.assign(&mut st, StateValue::Label(String::from("x")));
    id.remove_obj(&mut st);
    match st.update(id, StateValue::Counter(2)) {
        Err(ObjError::ObjIdNotFound) => {}
        _ => panic!("expected the object to be gone"),
    }
}

#[test]
fn assign_keeps_one_slot_per_shape() {
    let mut st = ObjStorage::new();
    let id = ObjId::new(&mut st);
    id.assign(&mut st, StateValue::Counter(1));
    id.assign(&mut st, StateValue::Counter(2));
    // Updating succeeds because exactly the counter shape is assigned.
    assert!(st.update(id, StateValue::Counter(3)).is_ok());
    // No label shape was ever assigned.
    match st.update(id, StateValue::Label(String::from("x"))) {
        Err(ObjError::TypeNotAssignedToObjId) => {}
        _ => panic!("expected only the counter shape to be assigned"),
    }
    assert_eq!(ObjId::default(), ObjId::default());
}
