use skirmish_script::async_move::{prepare_program, MoveRunMetadata};
use skirmish_script::motion::{MotionProfileError, MotionProfileId, TrackEnd, TrackTransform};
use skirmish_script::motion_links::{
    check_track_length, parse_component, parse_end, parse_transform, require_constructor, CommandBranchDescriptor, FieldRef,
    MotionLinkError, ScalarTrackDescriptor, SpecialAttributeRef, TrackComponent, VelocityTrackDescriptor,
    MAX_TRACK_SAMPLES,
};
use skirmish_script::selection::{ActionGeneration, MoveLifetimeId, SelectedMove};
use skirmish_script::move_registry::MoveEntry;
use skirmish_script::action::Action;

#[test]
fn field_paths_are_validated_when_referenced() {
    assert_eq!(FieldRef::new("up.bound.exit_flags".into()).unwrap().as_str(), "up.bound.exit_flags");
    assert_eq!(FieldRef::new("foo[bar]".into()), Err(MotionLinkError::InvalidPath("foo[bar]".into())));
    assert!(FieldRef::new("".into()).is_err());
    assert!(FieldRef::new("a..b".into()).is_err());
    assert!(FieldRef::new(".a".into()).is_err());
    assert!(FieldRef::new("a.".into()).is_err());
    assert!(FieldRef::new("a-b_c.d9".into()).is_ok());
    assert!(FieldRef::new("x".repeat(257)).is_err());
    assert!(FieldRef::new("x".repeat(256)).is_ok());
}

#[test]
fn descriptors_start_from_native_defaults() {
    let path = FieldRef::new("track".into()).unwrap();
    let velocity = VelocityTrackDescriptor::new(path.clone());
    assert_eq!(velocity.component, TrackComponent::Both);
    assert_eq!(velocity.end, TrackEnd::NoOp);
    assert_eq!(velocity.x_transform, TrackTransform::Absolute);
    let scalar = ScalarTrackDescriptor::new(path);
    assert_eq!(scalar.transform, TrackTransform::Absolute);
    let branch: CommandBranchDescriptor<u8> = CommandBranchDescriptor::new(2, vec![(1, vec![7])]);
    assert_eq!(branch.index, 2);
    assert_eq!(SpecialAttributeRef::new(3, 9), SpecialAttributeRef { layout: 3, field_id: 9 });
    assert_eq!(MotionProfileId::new(4).0, 4);
}

#[test]
fn keyword_values_parse_or_name_the_keyword() {
    assert_eq!(parse_component("c", "xy"), Ok(TrackComponent::Both));
    assert_eq!(parse_component("c", "y"), Ok(TrackComponent::Y));
    assert_eq!(
        parse_component("c", "z"),
        Err(MotionLinkError::InvalidKeywordType { constructor: "c".into(), keyword: "component".into() })
    );
    assert_eq!(parse_end("c", "hold_last"), Ok(TrackEnd::HoldLast));
    assert_eq!(parse_transform("c", "facing"), Ok(TrackTransform::BindingScale));
    assert!(parse_transform("c", "mirror").is_err());
    assert_eq!(require_constructor("motion.profile", "motion.profile"), Ok(()));
    assert_eq!(
        require_constructor("motion.other", "motion.profile"),
        Err(MotionLinkError::UnknownConstructor("motion.other".into()))
    );
    assert_eq!(check_track_length("t", MAX_TRACK_SAMPLES), Ok(()));
    assert_eq!(
        check_track_length("t", MAX_TRACK_SAMPLES + 1),
        Err(MotionLinkError::TrackTooLong { path: "t".into(), count: MAX_TRACK_SAMPLES + 1, maximum: MAX_TRACK_SAMPLES })
    );
    assert_eq!(MotionProfileError::Invalid("gravity").message(), "invalid motion profile field: gravity");
}

#[test]
fn async_moves_are_prepared_once_per_behavior() {
    assert_eq!(prepare_program(false, &vec![true], &vec![]), Err("program is not linked".to_string()));
    assert_eq!(prepare_program(true, &vec![true, false, true, true], &vec![false, false, true]), Ok(vec![0, 3]));
    let metadata = MoveRunMetadata::new("move_0".into(), "run".into());
    assert_eq!(metadata.module_name, "__root__");
    let other = MoveRunMetadata::with_module("move_0".into(), "run".into(), "lib".into());
    assert_eq!(other.module_name, "lib");
}

#[test]
fn selected_moves_need_a_canonical_action() {
    let generation = ActionGeneration(3);
    let entry = MoveEntry { behavior_index: 1, canonical: Some(Action::SpecialS) };
    let selected = SelectedMove::new(entry, generation).unwrap();
    assert!(selected.matches(Action::SpecialS, generation));
    assert!(!selected.matches(Action::SpecialS, ActionGeneration(4)));
    assert_eq!(selected.lifetime.get(), 0);
    assert!(SelectedMove::new(MoveEntry { behavior_index: 1, canonical: None }, generation).is_none());
    let owned = SelectedMove::with_lifetime(entry, Action::SpecialN, generation, MoveLifetimeId::from_raw(9));
    assert_eq!(owned.lifetime.get(), 9);
    assert_eq!(owned.action, Action::SpecialN);
    assert_eq!(ActionGeneration(u64::MAX).next(), None);
    assert_eq!(ActionGeneration(1).next(), Some(ActionGeneration(2)));
}
