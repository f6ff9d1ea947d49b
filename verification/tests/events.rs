use skirmish_script::action::Action;
use skirmish_script::events::{GateKind, NativeEventState, SubscriptionId, TimerId, MAX_PENDING_DEADLINES, MAX_PENDING_TRANSITIONS};
use skirmish_script::move_registry::MoveEntry;

#[test]
fn transitions_are_generation_scoped_and_flags_are_staged() {
    let mut state = NativeEventState::default();
    let first = state.begin_action(Some(Action::Wait), Action::Walk).unwrap();
    state.set_last_transition_flags(true, true);
    let second = state.begin_action(Some(Action::Walk), Action::Walk).unwrap();
    assert!(second.get() > first.get());
    assert_eq!(state.pending_transitions[0].generation, first);
    assert!(state.pending_transitions[0].preserve_state);
    assert!(state.pending_transitions[0].keep_frame);
    assert_eq!(state.pending_transitions[1].generation, second);
}

#[test]
fn animation_delivery_is_once_per_generation() {
    let mut state = NativeEventState::default();
    assert!(state.animation_due());
    state.mark_animation_delivered();
    assert!(!state.animation_due());
    state.begin_action(Some(Action::Wait), Action::Walk).unwrap();
    assert!(state.animation_due());
}

#[test]
fn availability_state_is_a_small_native_gate_mask() {
    let mut state = NativeEventState::default();
    assert!(!state.gate_available(GateKind::GroundOpen));
    state.set_gate(GateKind::GroundOpen, true);
    state.set_gate(GateKind::JumpAvailable, true);
    assert!(state.gate_available(GateKind::GroundOpen));
    assert!(state.gate_available(GateKind::JumpAvailable));
    assert!(!state.gate_available(GateKind::AirOpen));
    state.set_gate(GateKind::GroundOpen, false);
    assert!(!state.gate_available(GateKind::GroundOpen));
    assert!(state.gate_available(GateKind::JumpAvailable));
    assert_eq!(state.availability_mask, 4);
}

#[test]
fn staged_move_selection_is_consumed_by_the_next_entry() {
    let mut state = NativeEventState::default();
    let lifetime = state
        .stage_move_selection(MoveEntry { behavior_index: 3, canonical: Some(Action::SpecialN) }, Action::SpecialN)
        .unwrap();
    assert_eq!(lifetime.get(), 1);
    state.begin_action(Some(Action::Wait), Action::SpecialN).unwrap();
    assert!(state.pending_move_selection.is_none());
    let transitions = state.take_pending_transitions();
    assert_eq!(transitions.len(), 1);
    assert_eq!(transitions[0].behavior_index, Some(3));
    assert_eq!(transitions[0].move_lifetime, Some(lifetime));
    assert!(state.take_pending_transitions().is_empty());
}

#[test]
fn transition_queue_is_bounded() {
    let mut state = NativeEventState::default();
    for _ in 0..MAX_PENDING_TRANSITIONS {
        state.begin_action(None, Action::Wait).unwrap();
    }
    let generation = state.action_generation;
    assert_eq!(state.begin_action(None, Action::Wait), Err("native action transition queue is full"));
    assert_eq!(state.action_generation, generation);
}

#[test]
fn deadline_queue_is_bounded_and_drained_in_order() {
    let mut state = NativeEventState::default();
    state.push_deadline_token(5).unwrap();
    state.push_deadline_event(6, Some(TimerId(2))).unwrap();
    for token in 0..(MAX_PENDING_DEADLINES - 2) as u64 {
        state.push_deadline_token(token).unwrap();
    }
    assert_eq!(state.push_deadline_token(9), Err("native deadline event queue is full"));
    let events = state.take_deadline_events();
    assert_eq!(events.len(), MAX_PENDING_DEADLINES);
    assert_eq!(events[0], (5, None));
    assert_eq!(events[1], (6, Some(TimerId(2))));
}

#[test]
fn only_the_first_native_error_is_kept() {
    let mut state = NativeEventState::default();
    state.record_native_error("first");
    state.record_native_error("second");
    assert_eq!(state.native_error.as_deref(), Some("first"));
    assert_eq!(SubscriptionId(9).get(), 9);
}
