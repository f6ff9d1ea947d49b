use skirmish_script::action::{Action, CustomActionId};
use skirmish_script::move_validation::{validate_source_state_profile, validate_source_state_reference, Error, MotionStateProfile};

#[test]
fn source_state_validation_only_applies_to_custom_actions() {
    assert!(matches!(validate_source_state_reference(Action::Wait, None), Ok(())));
    assert!(matches!(
        validate_source_state_reference(Action::Custom(CustomActionId::new(7)), None),
        Err(Error::Data(message)) if message.contains("no Slippi state")
    ));
    assert!(matches!(validate_source_state_reference(Action::Custom(CustomActionId::new(7)), Some(381)), Ok(())));
}

#[test]
fn canonical_custom_state_requires_a_matching_motion_profile() {
    let action = Action::Custom(CustomActionId::new(341));
    let profiles = [MotionStateProfile { state_id: 340, animation_id: -1, move_id: 0, flags: 0 }];
    assert!(matches!(
        validate_source_state_profile(action, Some(341), Some(&profiles)),
        Err(Error::Data(message)) if message.contains("no motion state profile")
    ));
    assert!(matches!(
        validate_source_state_profile(action, Some(341), None),
        Err(Error::Data(message)) if message.contains("no motion state profile")
    ));
}

#[test]
fn matching_profiles_are_accepted_and_messages_name_the_action() {
    let action = Action::Custom(CustomActionId::new(341));
    let profiles = [MotionStateProfile { state_id: 341, animation_id: 5, move_id: 0, flags: 0 }];
    assert_eq!(validate_source_state_profile(action, Some(341), Some(&profiles)), Ok(()));
    assert_eq!(validate_source_state_profile(Action::Wait, None, None), Ok(()));
    assert_eq!(
        validate_source_state_profile(action, Some(340), Some(&profiles)),
        Err(Error::Data("canonical source action Custom(CustomActionId(341)) state 340 has no motion state profile".into()))
    );
}
