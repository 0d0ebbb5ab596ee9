use msgqueue::gui::button::{ButtonId, ButtonState, IButton};
use msgqueue::gui::IService;
use msgqueue::msgqueue::{MessageQueue, ServiceReg};
use msgqueue::state::{StateKey, StateValue};

#[test]
fn new_button_state_is_not_touched() {
    assert!(!ButtonState::new().touched);
    assert!(!ButtonState::default().touched);
}

#[test]
fn get_and_set_touched_through_button_id() {
    let mut q = MessageQueue::new();
    let reg = ServiceReg::new(&mut q);
    let sid = reg.service_id();
    sid.put_state(&mut q, StateValue::Button(ButtonState::default()));
    let button = ButtonId::new(sid);
    assert_eq!(button.get_touched(&q), Some(false));
    assert_eq!(button.set_touched(&mut q, true), Some(()));
    assert_eq!(button.get_touched(&q), Some(true));
    assert_eq!(button.service_id().id(), sid.id());
}

#[test]
fn button_without_state_reads_absent() {
    let mut q = MessageQueue::new();
    let reg = ServiceReg::new(&mut q);
    let button = ButtonId::new(reg.service_id());
    assert_eq!(button.get_touched(&q), None);
    assert_eq!(button.set_touched(&mut q, true), None);
}

#[test]
fn button_peek_and_poke_apply_functions() {
    let mut q = MessageQueue::new();
    let reg = ServiceReg::new(&mut q);
    let sid = reg.service_id();
    sid.put_state(&mut q, StateValue::Button(ButtonState { touched: true }));
    assert_eq!(ButtonState::peek(sid, &q, |b| b.touched), Some(true));
    let was = ButtonState::poke(sid, &mut q, |b| (ButtonState { touched: false }, b.touched));
    assert_eq!(was, Some(true));
    assert_eq!(ButtonState::peek(sid, &q, |b| b.touched), Some(false));
    match sid.clone_state(&q, StateKey::Button) {
        Some(StateValue::Button(b)) => assert!(!b.touched),
        _ => panic!("expected the button slot"),
    }
}

#[test]
fn unregistered_button_is_a_clean_no_op() {
    let mut q = MessageQueue::new();
    let reg = ServiceReg::new(&mut q);
    let sid = reg.service_id();
    sid.put_state(&mut q, StateValue::Button(ButtonState::default()));
    let button = ButtonId::new(sid);
    reg.unregister(&mut q);
    assert_eq!(button.get_touched(&q), None);
    assert_eq!(button.set_touched(&mut q, true), None);
}
