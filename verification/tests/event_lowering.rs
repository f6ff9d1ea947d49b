use skirmish_script::action::Action;
use skirmish_script::action_events::{ActionEventError, CountdownPhase};
use skirmish_script::definition::{ClockBinding, EventBinding, Hook};
use skirmish_script::event_lowering::{
    compile_action_events, lower_event_bindings, resolve_action_name, BehaviorEvents, EventProgram, LoweringError,
    TrackValue,
};
use skirmish_script::host_state::{LocalValue, StateField, StateSchema};

fn binding(callback: &str) -> EventBinding {
    EventBinding {
        hook: Hook::ScheduledDeadline,
        callback: callback.into(),
        action: None,
        marker: None,
        track: None,
        countdown: None,
        countdown_phase: CountdownPhase::Physics,
        actions: vec![],
        buttons: None,
        command_index: None,
        deadline: None,
        event_id: None,
        gate: None,
    }
}

fn schema() -> StateSchema {
    StateSchema {
        fields: vec![
            ("charge".into(), StateField::from_default(LocalValue::Number(0))),
            ("hits".into(), StateField::from_default(LocalValue::Integer(0))),
            ("timer".into(), StateField::from_default(LocalValue::Number(0))),
        ],
    }
}

fn program(callbacks: Vec<EventBinding>, behaviors: Vec<BehaviorEvents>) -> EventProgram {
    EventProgram {
        callbacks,
        behaviors,
        aliases: vec![("bound".into(), Some("Action.SpecialHiBound".into()))],
        action_state: schema(),
    }
}

#[test]
fn action_names_resolve_by_spelling_prefix_or_alias() {
    let aliases = vec![
        ("bound".to_string(), Some("Action.SpecialHiBound".to_string())),
        ("nothing".to_string(), None),
    ];
    assert_eq!(resolve_action_name(&aliases, "Walk"), Some(Action::Walk));
    assert_eq!(resolve_action_name(&aliases, "Action.Walk"), Some(Action::Walk));
    assert_eq!(resolve_action_name(&aliases, "bound"), Some(Action::SpecialHiBound));
    assert_eq!(resolve_action_name(&aliases, "nothing"), None);
    assert_eq!(resolve_action_name(&aliases, "Unknown"), None);
}

#[test]
fn no_program_compiles_an_empty_table() {
    let table = compile_action_events(None, &vec![]).unwrap();
    assert!(table.markers().is_empty());
    assert!(table.countdowns().is_empty());
    assert!(table.clocks().is_empty());
    assert!(table.frames().is_empty());
}

#[test]
fn marker_binding_reads_its_track_and_takes_the_next_token() {
    let mut first = binding("first");
    first.action = Some("Walk".into());
    first.deadline = Some(4);
    let mut marked = binding("marked");
    marked.action = Some("bound".into());
    marked.marker = Some("exit".into());
    marked.track = Some("up.flags".into());
    let p = program(vec![first, marked], vec![]);
    let tracks = vec![("up.flags".to_string(), TrackValue::Items(vec![Some(false), Some(true), Some(true)]))];
    let table = compile_action_events(Some(&p), &tracks).unwrap();
    assert_eq!(table.frames().len(), 1);
    assert_eq!(table.frames()[0].action, Action::Walk);
    assert_eq!(table.frames()[0].frame, 4);
    assert_eq!(table.frames()[0].token, 1);
    assert_eq!(table.markers().len(), 1);
    assert_eq!(table.markers()[0].token, 2);
    assert_eq!(table.markers()[0].actions, vec![Action::SpecialHiBound]);
    assert_eq!(table.markers()[0].true_edges, vec![1]);
}

#[test]
fn marker_track_errors_are_reported() {
    let mut marked = binding("marked");
    marked.action = Some("Walk".into());
    marked.marker = Some("exit".into());
    let p = program(vec![marked.clone()], vec![]);
    assert_eq!(
        compile_action_events(Some(&p), &vec![]).err(),
        Some(LoweringError::MarkerWithoutTrack("exit".into()))
    );
    marked.track = Some("up.flags".into());
    let p = program(vec![marked.clone()], vec![]);
    assert_eq!(
        compile_action_events(Some(&p), &vec![]).err(),
        Some(LoweringError::TrackNotArray("up.flags".into()))
    );
    let tracks = vec![("up.flags".to_string(), TrackValue::Items(vec![Some(true), None]))];
    assert_eq!(
        compile_action_events(Some(&p), &tracks).err(),
        Some(LoweringError::TrackNotBooleans("up.flags".into()))
    );
}

#[test]
fn unknown_owners_and_untyped_fields_are_rejected() {
    let mut unknown = binding("unknown");
    unknown.action = Some("Nowhere".into());
    let p = program(vec![unknown], vec![]);
    assert_eq!(lower_event_bindings(&p, &vec![]).err(), Some(LoweringError::UnknownOwner("Nowhere".into())));

    let mut countdown = binding("countdown");
    countdown.action = Some("Walk".into());
    countdown.countdown = Some("hits".into());
    let p = program(vec![countdown], vec![]);
    assert_eq!(lower_event_bindings(&p, &vec![]).err(), Some(LoweringError::CountdownNotNumber("hits".into())));

    let mut deadline = binding("deadline");
    deadline.deadline = Some(3);
    let p = program(vec![deadline], vec![]);
    assert_eq!(lower_event_bindings(&p, &vec![]).err(), Some(LoweringError::DeadlineWithoutOwner));

    let behavior = BehaviorEvents {
        resource_present: true,
        callbacks: vec![],
        clocks: vec![ClockBinding { field: "charge".into(), actions: vec!["Nowhere".into()] }],
    };
    let p = program(vec![], vec![behavior]);
    assert_eq!(lower_event_bindings(&p, &vec![]).err(), Some(LoweringError::UnknownClockOwner("Nowhere".into())));
}

#[test]
fn behaviors_with_missing_resources_are_skipped() {
    let mut countdown = binding("countdown");
    countdown.action = Some("Walk".into());
    countdown.countdown = Some("charge".into());
    countdown.countdown_phase = CountdownPhase::Animation;
    let absent = BehaviorEvents {
        resource_present: false,
        callbacks: vec![countdown.clone()],
        clocks: vec![ClockBinding { field: "hits".into(), actions: vec![] }],
    };
    let present = BehaviorEvents {
        resource_present: true,
        callbacks: vec![countdown],
        clocks: vec![ClockBinding { field: "timer".into(), actions: vec!["Wait".into()] }],
    };
    let p = program(vec![], vec![absent, present]);
    let table = compile_action_events(Some(&p), &vec![]).unwrap();
    assert_eq!(table.countdowns().len(), 1);
    assert_eq!(table.countdowns()[0].token, 1);
    assert_eq!(table.countdowns()[0].phase, CountdownPhase::Animation);
    assert_eq!(table.clocks().len(), 1);
    assert_eq!(table.clocks()[0].actions, vec![Action::Wait]);
}

#[test]
fn table_errors_are_carried_through() {
    let mut marked = binding("marked");
    marked.marker = Some("exit".into());
    marked.track = Some("up.flags".into());
    let p = program(vec![marked], vec![]);
    let tracks = vec![("up.flags".to_string(), TrackValue::Items(vec![Some(true)]))];
    assert_eq!(
        compile_action_events(Some(&p), &tracks).err(),
        Some(LoweringError::Table(ActionEventError::MarkerWithoutAction("exit".into())))
    );
}
