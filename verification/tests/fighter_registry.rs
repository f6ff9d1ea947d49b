use skirmish_script::action::Action;
use skirmish_script::fighter_definition::{ActionDefinition, FighterDefinition};
use skirmish_script::fighter_registry::{builtin_slippi_ids, builtin_slippi_state, FighterRegistryError, Registry};

fn fighter(name: &str, ids: Vec<u8>) -> FighterDefinition {
    FighterDefinition {
        name: name.into(),
        external_ids: ids,
        actions: vec![(
            "SpecialN".into(),
            ActionDefinition { slippi_state: Some(341), animation: Some(12), ..ActionDefinition::default() },
        )],
        ..FighterDefinition::default()
    }
}

#[test]
fn registered_fighters_resolve_by_name_and_external_id() {
    let mut registry = Registry::new();
    registry.insert(fighter("fox", vec![1, 20])).unwrap();
    registry.insert(fighter("falco", vec![22])).unwrap();
    assert_eq!(registry.get("fox").map(|d| d.name.as_str()), Some("fox"));
    assert_eq!(registry.by_external_id(20).map(|d| d.name.as_str()), Some("fox"));
    assert_eq!(registry.by_external_id(22).map(|d| d.name.as_str()), Some("falco"));
    assert!(registry.by_external_id(3).is_none());
    assert_eq!(registry.resolve("falco").map(|d| d.name.as_str()), Ok("falco"));
    assert_eq!(registry.resolve("marth").err(), Some(FighterRegistryError::UnknownFighter("marth".into())));
}

#[test]
fn rejected_insertions_leave_no_stale_routes() {
    let mut registry = Registry::new();
    registry.insert(fighter("fox", vec![1])).unwrap();
    assert_eq!(registry.insert(fighter("fox", vec![9])), Err(FighterRegistryError::DuplicateName("fox".into())));
    assert!(registry.by_external_id(9).is_none());
    assert_eq!(registry.insert(fighter("falco", vec![5, 1])), Err(FighterRegistryError::DuplicateExternalId(1)));
    assert!(registry.by_external_id(5).is_none());
    assert!(registry.get("falco").is_none());
    assert_eq!(registry.insert(fighter("falco", vec![5, 6, 5])), Err(FighterRegistryError::DuplicateExternalId(5)));
    assert!(registry.by_external_id(6).is_none());
    assert_eq!(registry.by_external_id(1).map(|d| d.name.as_str()), Some("fox"));
}

#[test]
fn slippi_ids_route_through_the_external_character_id() {
    let mut registry = Registry::new();
    registry.insert(fighter("captain", vec![2])).unwrap();
    assert_eq!(builtin_slippi_ids(&registry, Some(2), Action::SpecialN), Some((341, 12)));
    assert_eq!(builtin_slippi_state(&registry, Some(2), Action::SpecialN), Some(341));
    assert_eq!(builtin_slippi_ids(&registry, None, Action::SpecialN), None);
    assert_eq!(builtin_slippi_ids(&registry, Some(7), Action::SpecialN), None);
    assert_eq!(builtin_slippi_state(&registry, Some(2), Action::Walk), None);
}
