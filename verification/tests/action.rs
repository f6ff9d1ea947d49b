use skirmish_script::action::{action_name, parse_action, source_action_id, Action, CustomActionId};
use skirmish_script::action_index::index_actions;
use skirmish_script::move_registry::source_action_external_id;

#[test]
fn authoring_names_parse_to_actions() {
    assert_eq!(parse_action("SpecialNStart"), Some(Action::SpecialNStart));
    assert_eq!(parse_action("Source.8:341"), Some(Action::Custom(source_action_id(8, 341))));
    assert_eq!(parse_action("Source.+8:341"), Some(Action::Custom(source_action_id(8, 341))));
    assert_eq!(parse_action("Source.256:1"), None);
    assert_eq!(parse_action("Source.8"), None);
    assert_eq!(parse_action("Bogus"), None);
}

#[test]
fn action_names_use_the_debug_spelling() {
    assert_eq!(action_name(Action::SpecialHiBound), "SpecialHiBound");
    assert_eq!(action_name(Action::Custom(CustomActionId::new(341))), "Custom(CustomActionId(341))");
    assert_eq!(action_name(Action::Custom(CustomActionId::new(0))), format!("{:?}", Action::Custom(CustomActionId::new(0))));
}

#[test]
fn source_external_ids_are_read_from_references() {
    assert_eq!(source_action_external_id("Action.Source.21:344"), Some(21));
    assert_eq!(source_action_external_id("Source.6:1"), Some(6));
    assert_eq!(source_action_external_id("Action.SpecialN"), None);
    assert_eq!(source_action_external_id("Source.bad"), None);
}

#[test]
fn action_index_keeps_binding_order() {
    let index = index_actions(&vec![vec![Action::Wait, Action::Walk], vec![Action::Walk], vec![]]);
    assert_eq!(index.get(Action::Walk), &[0, 1]);
    assert_eq!(index.get(Action::Wait), &[0]);
    assert!(index.get(Action::Pass).is_empty());
}
