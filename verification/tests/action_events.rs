use skirmish_script::action::Action;
use skirmish_script::host_state::{LocalState, LocalValue};
use skirmish_script::action_events::{
    stepped_field, ActionEventError, ActionEventTable, ClockSpec, CountdownPhase, CountdownSpec, FrameSpec, MarkerId, MarkerSpec,
};

fn marker(flags: Vec<bool>) -> MarkerSpec {
    MarkerSpec {
        id: MarkerId::new(1),
        name: "bound_exit".into(),
        track: "up.bound.exit_flags".into(),
        actions: vec![Action::SpecialHiBound],
        flags,
        token: 11,
    }
}

#[test]
fn compiler_keeps_only_true_rising_edges() {
    let table = ActionEventTable::compile(
        vec![marker(vec![true, true, false, true, true, false])],
        vec![],
        vec![],
    )
    .unwrap();
    assert_eq!(table.markers()[0].true_edges, vec![0, 3]);
}

#[test]
fn marker_schedule_is_finite_and_action_relative() {
    let table = ActionEventTable::compile(vec![marker(vec![false, true, false, true])], vec![], vec![]).unwrap();
    let timers = table.schedule_action_markers(Action::SpecialHiBound);
    assert_eq!(timers.len(), 2);
    // Every timer is relative to the owning action: none fires on another
    // action, one fires at action frame 1 and one at action frame 3.
    assert!(table.schedule_action_markers(Action::Wait).is_empty());
    assert!(timers.iter().all(|t| t.action == Action::SpecialHiBound));
    assert_eq!(timers.iter().filter(|t| t.frame == 1).count(), 1);
    assert_eq!(timers.iter().filter(|t| t.frame == 3).count(), 1);
}

#[test]
fn same_frame_markers_keep_registration_order() {
    let mut first = marker(vec![false, true]);
    first.token = 11;
    let mut second = marker(vec![false, true]);
    second.id = MarkerId::new(2);
    second.token = 12;
    let table = ActionEventTable::compile(vec![first, second], vec![], vec![]).unwrap();
    let timers = table.schedule_action_markers(Action::SpecialHiBound);
    let at_frame_one: Vec<u64> = timers.iter().filter(|t| t.frame == 1).map(|t| t.token).collect();
    assert_eq!(at_frame_one, vec![11, 12]);
}

#[test]
fn animation_marker_precedes_frame_deadline_at_same_action_frame() {
    let table = ActionEventTable::compile_with_frames(
        vec![marker(vec![false, true])],
        vec![],
        vec![],
        vec![FrameSpec { action: Action::SpecialHiBound, frame: 1, token: 41 }],
    )
    .unwrap();
    let mut timers = table.schedule_action_markers(Action::SpecialHiBound);
    timers.extend(table.schedule_action_frames(Action::SpecialHiBound));
    let tokens: Vec<u64> = timers.iter().filter(|t| t.frame == 1).map(|t| t.token).collect();
    assert_eq!(tokens, vec![11, 41]);
}

#[test]
fn restarting_an_action_clock_rearms_marker_edges_once() {
    let table = ActionEventTable::compile(vec![marker(vec![false, true])], vec![], vec![]).unwrap();
    let first = table.schedule_action_markers(Action::SpecialHiBound);
    assert_eq!(first.iter().filter(|t| t.frame == 1).count(), 1);
    // Scheduling again on restart arms the same single edge once more and
    // nothing at later frames.
    let again = table.schedule_action_markers(Action::SpecialHiBound);
    assert_eq!(again.iter().filter(|t| t.frame == 1).count(), 1);
    assert!(again.iter().all(|t| t.frame != 2));
    assert_eq!(first, again);
}

#[test]
fn frame_schedule_is_registered_and_action_relative() {
    let table = ActionEventTable::compile_with_frames(
        vec![],
        vec![],
        vec![],
        vec![FrameSpec { action: Action::SpecialHiBound, frame: 2, token: 41 }],
    )
    .unwrap();
    assert_eq!(table.frames().len(), 1);
    let timers = table.schedule_action_frames(Action::SpecialHiBound);
    assert_eq!(timers.len(), 1);
    assert!(timers.iter().all(|t| t.frame != 1));
    let at_two: Vec<_> = timers.iter().filter(|t| t.frame == 2).collect();
    assert_eq!(at_two.len(), 1);
    assert_eq!(at_two[0].token, 41);
}

#[test]
fn duplicate_tokens_and_fields_are_rejected_at_registration() {
    let first = CountdownSpec {
        field: "release_lag".into(),
        actions: vec![Action::SpecialLw],
        token: 1,
        phase: CountdownPhase::Physics,
    };
    let second = CountdownSpec {
        field: "release_lag".into(),
        actions: vec![Action::SpecialLwTurn],
        token: 2,
        phase: CountdownPhase::Physics,
    };
    assert!(matches!(
        ActionEventTable::compile(vec![], vec![first, second], vec![]),
        Err(ActionEventError::DuplicateCountdownField(_))
    ));
}

#[test]
fn duplicate_marker_ids_are_rejected_at_registration() {
    let mut first = marker(vec![true]);
    let mut second = marker(vec![false, true]);
    first.token = 31;
    second.token = 32;
    assert!(matches!(
        ActionEventTable::compile(vec![first, second], vec![], vec![]),
        Err(ActionEventError::DuplicateMarkerId(1))
    ));
}

#[test]
fn countdown_and_clock_indices_follow_phase_and_action() {
    let table = ActionEventTable::compile(
        vec![],
        vec![
            CountdownSpec { field: "travel".into(), actions: vec![Action::SpecialHi], token: 31, phase: CountdownPhase::Animation },
            CountdownSpec { field: "lag".into(), actions: vec![Action::SpecialHi], token: 32, phase: CountdownPhase::Physics },
        ],
        vec![ClockSpec { field: "ground_travel_frames".into(), actions: vec![Action::SpecialHi] }],
    )
    .unwrap();
    assert_eq!(table.countdown_indices(Action::SpecialHi, CountdownPhase::Animation), &[0]);
    assert_eq!(table.countdown_indices(Action::SpecialHi, CountdownPhase::Physics), &[1]);
    assert!(table.countdown_indices(Action::Wait, CountdownPhase::Physics).is_empty());
    assert_eq!(table.clock_indices(Action::SpecialHi), &[0]);
    assert!(table.clock_indices(Action::Wait).is_empty());
}

#[test]
fn duplicate_tokens_across_kinds_are_rejected() {
    let countdown = CountdownSpec { field: "lag".into(), actions: vec![Action::SpecialHi], token: 11, phase: CountdownPhase::Physics };
    assert!(matches!(
        ActionEventTable::compile(vec![marker(vec![true])], vec![countdown], vec![]),
        Err(ActionEventError::DuplicateToken(11))
    ));
}

#[test]
fn markers_need_an_owning_action() {
    let mut m = marker(vec![true]);
    m.actions.clear();
    assert!(matches!(
        ActionEventTable::compile(vec![m], vec![], vec![]),
        Err(ActionEventError::MarkerWithoutAction(_))
    ));
}

#[test]
fn wire_rebuild_restores_dispatch_indexes() {
    let table = ActionEventTable::compile_with_frames(
        vec![marker(vec![false, true])],
        vec![CountdownSpec { field: "lag".into(), actions: vec![Action::SpecialHiBound], token: 21, phase: CountdownPhase::Physics }],
        vec![ClockSpec { field: "clock".into(), actions: vec![Action::SpecialHiBound] }],
        vec![FrameSpec { action: Action::SpecialHiBound, frame: 1, token: 41 }],
    )
    .unwrap();
    let restored = ActionEventTable::from_wire(
        table.markers().to_vec(),
        table.countdowns().to_vec(),
        table.clocks().to_vec(),
        table.frames().to_vec(),
    );
    assert_eq!(restored.schedule_action_markers(Action::SpecialHiBound).len(), 1);
    assert_eq!(restored.schedule_action_frames(Action::SpecialHiBound).len(), 1);
    assert_eq!(restored.countdown_indices(Action::SpecialHiBound, CountdownPhase::Physics), &[0]);
    assert_eq!(restored.clock_indices(Action::SpecialHiBound), &[0]);
}

#[test]
fn stepped_fields_must_hold_numbers() {
    let mut state = LocalState::new();
    state.insert("timer".to_owned(), LocalValue::Number(3.0f64.to_bits()));
    state.insert("flag".to_owned(), LocalValue::Bool(true));
    assert_eq!(stepped_field(&state, &"timer".to_owned(), false), Ok(3.0f64.to_bits()));
    assert_eq!(
        stepped_field(&state, &"missing".to_owned(), false),
        Err(ActionEventError::MissingCountdownField("missing".to_owned()))
    );
    assert_eq!(
        stepped_field(&state, &"missing".to_owned(), true),
        Err(ActionEventError::MissingClockField("missing".to_owned()))
    );
    assert_eq!(stepped_field(&state, &"flag".to_owned(), false), Err(ActionEventError::InvalidCountdownValue("flag".to_owned())));
    assert_eq!(stepped_field(&state, &"flag".to_owned(), true), Err(ActionEventError::InvalidClockValue("flag".to_owned())));
}
