use skirmish_script::action::{source_action_id, Action};
use skirmish_script::move_registry::{
    BehaviorLink, FighterMoves, MoveGroup, MoveRef, MoveRegistry, MoveRegistryError, MoveSlot, MovesetGroup,
};

fn slots(entries: &[(&str, &str)]) -> MovesetGroup {
    MovesetGroup::Slots(entries.iter().map(|(s, id)| (s.to_string(), MoveRef::Id(id.to_string()))).collect())
}

fn definition() -> FighterMoves {
    FighterMoves {
        external_ids: vec![8],
        movesets: vec![("specials".into(), slots(&[("neutral", "move_0"), ("side", "move_0")]))],
        behaviors: vec![BehaviorLink { id: Some("move_0".into()), entry_action: Some("Action.SpecialNStart".into()) }],
    }
}

fn set_group(definition: &mut FighterMoves, group: MovesetGroup) {
    definition.movesets[0].1 = group;
}

#[test]
fn shared_identity_reuses_behavior_index() {
    let registry = MoveRegistry::compile(&definition()).unwrap();
    assert_eq!(registry.resolve("specials", "neutral"), registry.resolve("specials", "side"));
    assert_eq!(registry.resolve("specials", "neutral").unwrap().canonical, Some(Action::SpecialNStart));
}

#[test]
fn malformed_reference_is_rejected() {
    let mut definition = definition();
    set_group(&mut definition, slots(&[("neutral", "missing")]));
    assert!(matches!(MoveRegistry::compile(&definition), Err(MoveRegistryError::UnknownMoveId { .. })));
}

#[test]
fn unknown_entry_action_is_rejected() {
    let mut definition = definition();
    definition.behaviors[0].entry_action = Some("Action.NoSuchAction".into());
    assert!(matches!(MoveRegistry::compile(&definition), Err(MoveRegistryError::UnknownEntryAction { .. })));
}

#[test]
fn source_entry_actions_resolve_to_custom_native_actions() {
    let mut definition = definition();
    definition.behaviors[0].entry_action = Some("Action.Source.8:341".into());
    let registry = MoveRegistry::compile(&definition).unwrap();
    let action = registry.resolve("specials", "neutral").unwrap().canonical;
    assert_eq!(action.and_then(Action::custom_id).map(|id| id.get()), Some(source_action_id(8, 341).get()));
}

#[test]
fn source_entry_action_must_use_the_definition_namespace() {
    let mut definition = definition();
    definition.external_ids = vec![21];
    definition.behaviors[0].entry_action = Some("Action.Source.6:344".into());
    assert!(matches!(
        MoveRegistry::compile(&definition),
        Err(MoveRegistryError::SourceActionNamespaceMismatch { external_id: 6, .. })
    ));

    definition.behaviors[0].entry_action = Some("Action.Source.21:344".into());
    assert!(MoveRegistry::compile(&definition).is_ok());
}

#[test]
fn malformed_source_entry_actions_are_rejected() {
    let mut definition = definition();
    definition.behaviors[0].entry_action = Some("Action.Source.bad".into());
    assert!(matches!(MoveRegistry::compile(&definition), Err(MoveRegistryError::UnknownEntryAction { .. })));
}

#[test]
fn duplicate_behavior_ids_are_rejected() {
    let mut definition = definition();
    definition.behaviors.push(BehaviorLink { id: Some("move_0".into()), ..BehaviorLink::default() });
    assert!(matches!(MoveRegistry::compile(&definition), Err(MoveRegistryError::DuplicateBehaviorId(_))));
}

#[test]
fn non_object_group_is_rejected() {
    let mut definition = definition();
    set_group(&mut definition, MovesetGroup::NotObject);
    assert!(matches!(MoveRegistry::compile(&definition), Err(MoveRegistryError::GroupMustBeObject(_))));
}

#[test]
fn typed_resolution_uses_side_slot() {
    let registry = MoveRegistry::compile(&definition()).unwrap();
    assert_eq!(registry.resolve_typed(&MoveGroup::Specials, &MoveSlot::Side), registry.resolve("specials", "side"));
}

#[test]
fn extension_groups_and_slots_resolve_by_name() {
    let mut definition = definition();
    definition.movesets.push(("custom_group".into(), slots(&[("custom_slot", "move_0")])));
    let registry = MoveRegistry::compile(&definition).unwrap();
    assert_eq!(registry.len(), 3);
    assert!(!registry.is_empty());
    let entry = registry
        .resolve_typed(&MoveGroup::Extension("custom_group".into()), &MoveSlot::Extension("custom_slot".into()))
        .unwrap();
    assert_eq!(entry.behavior_index, 0);
    assert_eq!(registry.resolve("custom_group", "custom_slot"), Some(entry));
    assert_eq!(registry.resolve("specials", "up"), None);
    assert!(registry.is_registered_behavior(0));
    assert!(!registry.is_registered_behavior(1));
}

#[test]
fn slot_errors_name_their_group_and_slot() {
    let mut definition = definition();
    set_group(&mut definition, MovesetGroup::Slots(vec![("neutral".into(), MoveRef::NotString)]));
    assert_eq!(
        MoveRegistry::compile(&definition).err(),
        Some(MoveRegistryError::SlotMustBeString { group: "specials".into(), slot: "neutral".into() })
    );
    set_group(&mut definition, slots(&[("neutral", "")]));
    assert_eq!(
        MoveRegistry::compile(&definition).err(),
        Some(MoveRegistryError::EmptyMoveId { group: "specials".into(), slot: "neutral".into() })
    );
}

#[test]
fn later_links_of_a_key_replace_earlier_ones() {
    let mut definition = definition();
    definition.behaviors.push(BehaviorLink { id: Some("move_1".into()), entry_action: None });
    definition.movesets.push(("specials_again".into(), slots(&[("neutral", "move_1")])));
    set_group(&mut definition, slots(&[("neutral", "move_0"), ("neutral", "move_1")]));
    let registry = MoveRegistry::compile(&definition).unwrap();
    let entry = registry.resolve("specials", "neutral").unwrap();
    assert_eq!(entry.behavior_index, 1);
    assert_eq!(entry.canonical, None);
}
