use skirmish_script::action::{Action, CustomActionId};
use skirmish_script::action_events::{ActionEventTable, CountdownPhase, CountdownSpec, FrameSpec, MarkerId, MarkerSpec};
use skirmish_script::callback_routing::{
    matches_event, parse_action_name, CallbackSelector, EventAction, EventRecord, SelectorError,
};
use skirmish_script::definition::{EventBinding, Hook};

const BUTTON_A: u16 = 0x0100;
const BUTTON_B: u16 = 0x0200;

fn binding(hook: Hook) -> EventBinding {
    EventBinding {
        hook,
        callback: "cb".into(),
        action: None,
        marker: None,
        track: None,
        countdown: None,
        countdown_phase: CountdownPhase::Physics,
        actions: Vec::new(),
        buttons: None,
        command_index: None,
        deadline: None,
        event_id: None,
        gate: None,
    }
}

fn named(name: &str) -> Option<EventAction> {
    Some(EventAction::Name(name.into()))
}

#[test]
fn action_entry_distinguishes_start_and_loop() {
    let mut start = binding(Hook::ActionEntered);
    start.action = Some("Action.SpecialNStart".into());
    let selector = CallbackSelector::from_binding(&start).unwrap();
    let entered = EventRecord { to: named("SpecialNStart"), ..EventRecord::default() };
    assert!(matches_event(Hook::ActionEntered, &selector, &entered, Some(Action::Wait), None));
    let looped = EventRecord { to: named("SpecialNLoop"), ..EventRecord::default() };
    assert!(!matches_event(Hook::ActionEntered, &selector, &looped, Some(Action::Wait), None));
}

#[test]
fn marker_command_and_button_filters_use_event_fields() {
    let mut input_binding = binding(Hook::InputPressed);
    input_binding.buttons = Some(BUTTON_B);
    let selector = CallbackSelector::from_binding(&input_binding).unwrap();
    let pressed_b = EventRecord { pressed: Some(BUTTON_B as u64), ..EventRecord::default() };
    assert!(matches_event(Hook::InputPressed, &selector, &pressed_b, Some(Action::Wait), None));
    let pressed_a = EventRecord { pressed: Some(BUTTON_A as u64), ..EventRecord::default() };
    assert!(!matches_event(Hook::InputPressed, &selector, &pressed_a, Some(Action::Wait), None));

    let mut command = binding(Hook::CommandTraceChanged);
    command.command_index = Some(2);
    let selector = CallbackSelector::from_binding(&command).unwrap();
    let event = EventRecord { command_index: Some(2), ..EventRecord::default() };
    assert!(matches_event(Hook::CommandTraceChanged, &selector, &event, Some(Action::Wait), None));
}

#[test]
fn animation_event_selector_requires_and_matches_numeric_id() {
    let mut binding = binding(Hook::AnimationEvent);
    binding.event_id = Some(0);
    let selector = CallbackSelector::from_binding(&binding).unwrap();
    let zero = EventRecord { event_id: Some(0), ..EventRecord::default() };
    assert!(matches_event(Hook::AnimationEvent, &selector, &zero, Some(Action::Wait), None));
    let one = EventRecord { event_id: Some(1), ..EventRecord::default() };
    assert!(!matches_event(Hook::AnimationEvent, &selector, &one, Some(Action::Wait), None));

    binding.event_id = None;
    assert!(CallbackSelector::from_binding(&binding).is_err());
}

#[test]
fn action_filter_uses_snapshot_only_when_event_has_no_action() {
    let mut binding = binding(Hook::AnimationEnded);
    binding.action = Some("Wait".into());
    let selector = CallbackSelector::from_binding(&binding).unwrap();
    assert!(matches_event(Hook::AnimationEnded, &selector, &EventRecord::default(), Some(Action::Wait), None));
    let other = EventRecord { action: named("SpecialNStart"), ..EventRecord::default() };
    assert!(!matches_event(Hook::AnimationEnded, &selector, &other, Some(Action::Wait), None));
}

#[test]
fn custom_snapshot_spelling_and_custom_objects_match_source_actions() {
    let mut binding = binding(Hook::ProjectileContact);
    binding.action = Some("Source.3:341".into());
    let selector = CallbackSelector::from_binding(&binding).unwrap();
    let id = (3u64 << 32) + 341;
    let debug = EventRecord { action: named(&format!("Custom(CustomActionId({id}))")), ..EventRecord::default() };
    assert!(matches_event(Hook::ProjectileContact, &selector, &debug, None, None));
    let other = EventRecord { action: named("Custom(CustomActionId(7))"), ..EventRecord::default() };
    assert!(!matches_event(Hook::ProjectileContact, &selector, &other, Some(Action::Wait), None));
    let object = EventRecord { action: Some(EventAction::Custom(id)), ..EventRecord::default() };
    assert!(matches_event(Hook::ProjectileContact, &selector, &object, Some(Action::Wait), None));
    let other_object = EventRecord { action: Some(EventAction::Custom(7)), ..EventRecord::default() };
    assert!(!matches_event(
        Hook::ProjectileContact,
        &selector,
        &other_object,
        Some(Action::Custom(CustomActionId(id))),
        None
    ));
}

#[test]
fn action_names_accept_prefix_and_snapshot_spellings() {
    assert_eq!(parse_action_name("Action.Walk"), Some(Action::Walk));
    assert_eq!(parse_action_name("Walk"), Some(Action::Walk));
    assert_eq!(parse_action_name("Custom(CustomActionId(42))"), Some(Action::Custom(CustomActionId(42))));
    assert_eq!(parse_action_name("Action.Custom(CustomActionId(42))"), Some(Action::Custom(CustomActionId(42))));
    assert_eq!(parse_action_name("Custom(CustomActionId(x))"), None);
    assert_eq!(parse_action_name("Custom(CustomActionId(42)"), None);
    assert_eq!(parse_action_name("Nothing"), None);
}

#[test]
fn selector_errors_name_the_problem() {
    let mut b = binding(Hook::Landed);
    b.event_id = Some(1);
    assert_eq!(CallbackSelector::from_binding(&b), Err(SelectorError::EventIdNotAllowed));
    let mut b = binding(Hook::AnimationEvent);
    b.event_id = Some(8);
    assert_eq!(CallbackSelector::from_binding(&b), Err(SelectorError::EventIdRequired));
    let mut b = binding(Hook::Landed);
    b.action = Some("Nowhere".into());
    assert_eq!(CallbackSelector::from_binding(&b), Err(SelectorError::UnknownAction("Nowhere".into())));
    let mut b = binding(Hook::Landed);
    b.actions = vec!["Walk".into(), "Bad".into(), "Worse".into()];
    assert_eq!(CallbackSelector::from_binding(&b), Err(SelectorError::UnknownAction("Bad".into())));
}

#[test]
fn selector_actions_are_deduplicated_in_order() {
    let mut b = binding(Hook::ActionExited);
    b.actions = vec!["Walk".into(), "Action.Wait".into(), "Walk".into()];
    let selector = CallbackSelector::from_binding(&b).unwrap();
    assert_eq!(selector.actions, vec![Action::Walk, Action::Wait]);
    let exited = EventRecord { from: named("Wait"), ..EventRecord::default() };
    assert!(matches_event(Hook::ActionExited, &selector, &exited, None, None));
    let entered_only = EventRecord { to: named("Wait"), ..EventRecord::default() };
    assert!(!matches_event(Hook::ActionExited, &selector, &entered_only, None, None));
    assert!(matches_event(Hook::ActionExited, &selector, &entered_only, Some(Action::Walk), None));
}

#[test]
fn token_filters_consult_the_action_event_table() {
    let table = ActionEventTable::compile_with_frames(
        vec![MarkerSpec {
            id: MarkerId::new(0),
            name: "exit".into(),
            track: "up.flags".into(),
            actions: vec![Action::SpecialHi],
            flags: vec![false, true],
            token: 5,
        }],
        vec![CountdownSpec { field: "charge".into(), actions: vec![Action::Walk], token: 6, phase: CountdownPhase::Physics }],
        vec![],
        vec![FrameSpec { action: Action::Walk, frame: 9, token: 7 }],
    )
    .unwrap();
    let mut m = binding(Hook::ScheduledDeadline);
    m.marker = Some("exit".into());
    let selector = CallbackSelector::from_binding(&m).unwrap();
    let by_token = EventRecord { token: Some(5), ..EventRecord::default() };
    assert!(matches_event(Hook::ScheduledDeadline, &selector, &by_token, None, Some(&table)));
    assert!(!matches_event(Hook::ScheduledDeadline, &selector, &by_token, None, None));
    let by_name = EventRecord { marker: Some("exit".into()), ..EventRecord::default() };
    assert!(matches_event(Hook::ScheduledDeadline, &selector, &by_name, None, None));

    let mut c = binding(Hook::ScheduledDeadline);
    c.countdown = Some("charge".into());
    let selector = CallbackSelector::from_binding(&c).unwrap();
    let wrong = EventRecord { token: Some(5), ..EventRecord::default() };
    assert!(!matches_event(Hook::ScheduledDeadline, &selector, &wrong, None, Some(&table)));
    let right = EventRecord { token: Some(6), ..EventRecord::default() };
    assert!(matches_event(Hook::ScheduledDeadline, &selector, &right, None, Some(&table)));

    let mut d = binding(Hook::ScheduledDeadline);
    d.deadline = Some(9);
    let selector = CallbackSelector::from_binding(&d).unwrap();
    let by_frame = EventRecord { frame: Some(9), ..EventRecord::default() };
    assert!(matches_event(Hook::ScheduledDeadline, &selector, &by_frame, None, None));
    let by_frame_token = EventRecord { token: Some(7), ..EventRecord::default() };
    assert!(matches_event(Hook::ScheduledDeadline, &selector, &by_frame_token, None, Some(&table)));
    assert!(!matches_event(Hook::ScheduledDeadline, &selector, &EventRecord::default(), None, Some(&table)));
}

#[test]
fn released_buttons_are_read_for_release_events() {
    let mut b = binding(Hook::InputReleased);
    b.buttons = Some(BUTTON_A | BUTTON_B);
    let selector = CallbackSelector::from_binding(&b).unwrap();
    let released = EventRecord { released: Some(BUTTON_A as u64), ..EventRecord::default() };
    assert!(matches_event(Hook::InputReleased, &selector, &released, None, None));
    let pressed = EventRecord { pressed: Some(BUTTON_A as u64), ..EventRecord::default() };
    assert!(!matches_event(Hook::InputReleased, &selector, &pressed, None, None));
}

#[test]
fn gate_filter_requires_the_named_gate() {
    let mut b = binding(Hook::ActionAvailabilityChanged);
    b.gate = Some("ground_open".into());
    let selector = CallbackSelector::from_binding(&b).unwrap();
    let open = EventRecord { gate: Some("ground_open".into()), ..EventRecord::default() };
    assert!(matches_event(Hook::ActionAvailabilityChanged, &selector, &open, None, None));
    assert!(!matches_event(Hook::ActionAvailabilityChanged, &selector, &EventRecord::default(), None, None));
}
