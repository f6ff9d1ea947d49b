use skirmish_script::action::Action;
use skirmish_script::action_events::{ActionEventTable, CountdownPhase};
use skirmish_script::callback_routing::{CallbackSelector, EventRecord};
use skirmish_script::definition::{CallbackHandle, CollisionMode, EdgeMode, EventBinding, Hook};
use skirmish_script::fighter_definition::{
    is_input_hook, selected_action_definitions, ActionDefinition, BehaviorDefinition, DispatchResources, FighterDefinition, ResolvedCallback,
};

fn action_definition(action: Option<&str>, resource: &str) -> ActionDefinition {
    ActionDefinition {
        action: action.map(str::to_owned),
        resource: Some(resource.to_owned()),
        ..ActionDefinition::default()
    }
}

#[test]
fn aliased_behavior_descriptor_survives_entry_action_indexing() {
    let mut definition = FighterDefinition::default();
    definition.behaviors.push(BehaviorDefinition {
        entry_action: Some("Action.SpecialNStart".into()),
        actions: vec![("startup".into(), action_definition(Some("Action.SpecialNStart"), "startup-resource"))],
        ..BehaviorDefinition::default()
    });
    assert_eq!(
        definition.action(Action::SpecialNStart).and_then(|action| action.resource.as_deref()),
        Some("startup-resource")
    );
    assert!(definition.behavior_owns_action(0, Action::SpecialNStart));
    assert!(!definition.behavior_owns_action(0, Action::SpecialNLoop));
}

#[test]
fn canonical_action_key_wins_over_alias_collision() {
    let definition = FighterDefinition {
        actions: vec![
            ("SpecialNStart".into(), action_definition(Some("Action.SpecialNStart"), "canonical-resource")),
            ("alias".into(), action_definition(Some("Action.SpecialNStart"), "alias-resource")),
        ],
        ..FighterDefinition::default()
    };
    assert_eq!(
        definition.action(Action::SpecialNStart).and_then(|action| action.resource.as_deref()),
        Some("canonical-resource")
    );
}

#[test]
fn same_action_behaviors_keep_declaration_order() {
    let mut definition = FighterDefinition::default();
    for owner in ["first", "second"] {
        definition.behaviors.push(BehaviorDefinition {
            entry_action: Some("Action.SpecialNStart".into()),
            id: Some(owner.into()),
            ..BehaviorDefinition::default()
        });
    }
    assert!(definition.behavior_owns_action(0, Action::SpecialNStart));
    assert!(definition.behavior_owns_action(1, Action::SpecialNStart));
    assert!(!definition.behavior_owns_action(2, Action::SpecialNStart));
}

#[test]
fn slippi_state_does_not_require_animation_id() {
    let definition = FighterDefinition {
        actions: vec![(
            "SpecialNStart".into(),
            ActionDefinition {
                action: Some("Action.SpecialNStart".into()),
                slippi_state: Some(347),
                ..ActionDefinition::default()
            },
        )],
        ..FighterDefinition::default()
    };
    assert_eq!(definition.action(Action::SpecialNStart).and_then(|action| action.slippi_state), Some(347));
    assert_eq!(definition.slippi_state(Action::SpecialNStart), Some(347));
    assert_eq!(definition.slippi_ids(Action::SpecialNStart), None);
}

#[test]
fn top_level_descriptors_win_and_behaviors_follow_in_order() {
    let mut definition = FighterDefinition {
        actions: vec![(
            "Walk".into(),
            ActionDefinition { collision_mode: CollisionMode::Teeter, ledge_catchable: true, ..ActionDefinition::default() },
        )],
        ..FighterDefinition::default()
    };
    definition.behaviors.push(BehaviorDefinition {
        actions: vec![
            ("Walk".into(), action_definition(None, "behavior-walk")),
            ("hop".into(), action_definition(Some("SpecialHi"), "first-hop")),
        ],
        ..BehaviorDefinition::default()
    });
    definition.behaviors.push(BehaviorDefinition {
        actions: vec![("hop".into(), action_definition(Some("Action.SpecialHi"), "second-hop"))],
        ..BehaviorDefinition::default()
    });
    assert_eq!(definition.collision_mode(Action::Walk), Some(EdgeMode::Teeter));
    assert!(definition.ledge_catchable(Action::Walk));
    assert_eq!(definition.action(Action::SpecialHi).and_then(|a| a.resource.as_deref()), Some("first-hop"));
    assert_eq!(
        definition.action_for_owner(1, Action::SpecialHi).and_then(|a| a.resource.as_deref()),
        Some("second-hop")
    );
    assert!(definition.action_for_owner(1, Action::Walk).is_none());
    assert!(definition.action_for_owner(5, Action::Walk).is_none());
    assert!(definition.action(Action::Pass).is_none());
    assert_eq!(definition.collision_mode(Action::Pass), None);
    assert!(!definition.ledge_catchable(Action::Pass));
}

#[test]
fn unparseable_reference_falls_back_to_the_key() {
    let definition = FighterDefinition {
        actions: vec![("SpecialLw".into(), action_definition(Some("Action.Nothing"), "down"))],
        ..FighterDefinition::default()
    };
    assert_eq!(definition.action(Action::SpecialLw).and_then(|a| a.resource.as_deref()), Some("down"));
}

fn binding(hook: Hook, callback: &str) -> EventBinding {
    EventBinding {
        hook,
        callback: callback.into(),
        action: None,
        marker: None,
        track: None,
        countdown: None,
        countdown_phase: CountdownPhase::Physics,
        actions: vec![],
        buttons: None,
        command_index: None,
        deadline: None,
        event_id: None,
        gate: None,
    }
}

#[test]
fn first_callback_for_a_hook_is_reported() {
    let behavior = BehaviorDefinition {
        callbacks: vec![binding(Hook::Landed, "a"), binding(Hook::AfterHit, "b"), binding(Hook::Landed, "c")],
        ..BehaviorDefinition::default()
    };
    assert_eq!(behavior.callback(Hook::Landed), Some("a"));
    assert_eq!(behavior.callback(Hook::BeforeHit), None);
    let names: Vec<&str> = behavior.callbacks_for_hook(Hook::Landed).iter().map(|b| b.callback.as_str()).collect();
    assert_eq!(names, vec!["a", "c"]);
    let fighter = FighterDefinition { callbacks: behavior.callbacks.clone(), ..FighterDefinition::default() };
    assert_eq!(fighter.callback(Hook::AfterHit), Some("b"));
    assert_eq!(fighter.callbacks_for_hook(Hook::AfterHit).len(), 1);
}

fn resolved(name: &str) -> ResolvedCallback {
    ResolvedCallback { callback: CallbackHandle::new(name), selector: CallbackSelector::default() }
}

fn two_behaviors() -> FighterDefinition {
    let mut definition = FighterDefinition::default();
    definition.behaviors.push(BehaviorDefinition {
        entry_action: Some("SpecialN".into()),
        resource: Some("neutral".into()),
        ..BehaviorDefinition::default()
    });
    definition.behaviors.push(BehaviorDefinition {
        entry_action: Some("SpecialN".into()),
        resource: Some("alt".into()),
        ..BehaviorDefinition::default()
    });
    definition
}

fn resources(roots: &[&str]) -> DispatchResources {
    DispatchResources {
        roots: roots.iter().map(|r| r.to_string()).collect(),
        action_events: ActionEventTable::compile(vec![], vec![], vec![]).unwrap(),
    }
}

#[test]
fn action_hooks_reach_the_first_enabled_owner_only() {
    let definition = two_behaviors();
    let global = vec![resolved("global")];
    let owned = vec![vec![resolved("first")], vec![resolved("second")]];
    let res = resources(&["neutral", "alt"]);
    let routed = definition.behavior_callbacks_for_owner(
        &global, &owned, Hook::ActionEntered, false, Action::SpecialN, None, Some(&res), &EventRecord::default(),
    );
    let names: Vec<(&str, Option<usize>)> =
        routed.iter().map(|c| (c.callback.name.as_str(), c.behavior_index)).collect();
    assert_eq!(names, vec![("global", None), ("first", Some(0))]);
    assert_eq!(routed[1].resource.as_deref(), Some("neutral"));

    let only_alt = resources(&["alt"]);
    let routed = definition.behavior_callbacks_for_owner(
        &global, &owned, Hook::ActionEntered, false, Action::SpecialN, None, Some(&only_alt), &EventRecord::default(),
    );
    assert_eq!(routed.len(), 2);
    assert_eq!(routed[1].behavior_index, Some(1));
}

#[test]
fn an_explicit_owner_is_authoritative() {
    let definition = two_behaviors();
    let global = vec![];
    let owned = vec![vec![resolved("first")], vec![resolved("second")]];
    let res = resources(&["neutral", "alt"]);
    let routed = definition.behavior_callbacks_for_owner(
        &global, &owned, Hook::ActionExited, false, Action::SpecialN, Some(1), Some(&res), &EventRecord::default(),
    );
    assert_eq!(routed.len(), 1);
    assert_eq!(routed[0].callback.name, "second");
    let routed = definition.behavior_callbacks_for_owner(
        &global, &owned, Hook::ActionExited, false, Action::SpecialN, Some(9), Some(&res), &EventRecord::default(),
    );
    assert!(routed.is_empty());
    let routed = definition.behavior_callbacks_for_owner(
        &global, &owned, Hook::ActionExited, false, Action::SpecialN, Some(1), None, &EventRecord::default(),
    );
    assert!(routed.is_empty());
}

#[test]
fn input_and_hit_hooks_reach_every_enabled_behavior() {
    assert!(is_input_hook(Hook::InputPressed));
    assert!(!is_input_hook(Hook::Landed));
    let definition = two_behaviors();
    let global = vec![];
    let owned = vec![vec![resolved("first")], vec![resolved("second")]];
    let res = resources(&["neutral", "alt"]);
    let routed = definition.behavior_callbacks_for_owner(
        &global, &owned, Hook::InputPressed, false, Action::Wait, Some(0), Some(&res), &EventRecord::default(),
    );
    assert_eq!(routed.len(), 2);
    let routed = definition.behavior_callbacks_for_owner(
        &global, &owned, Hook::AfterHit, true, Action::Wait, None, Some(&resources(&["alt"])), &EventRecord::default(),
    );
    assert_eq!(routed.len(), 1);
    assert_eq!(routed[0].behavior_index, Some(1));
}

#[test]
fn command_trace_descriptor_selection_prefers_canonical_key_and_suppresses_alias() {
    let descriptor = |trace: Option<&str>| ActionDefinition {
        action: Some("SpecialNStart".into()),
        command_trace: trace.map(str::to_owned),
        ..ActionDefinition::default()
    };
    let definitions = vec![
        ("SpecialNStart".to_string(), descriptor(None)),
        ("alias".to_string(), descriptor(Some("alias.trace"))),
    ];
    let selected = selected_action_definitions(&definitions);
    assert_eq!(selected.len(), 1);
    assert_eq!(selected[0].0, Action::SpecialNStart);
    assert!(definitions[selected[0].1].1.command_trace.is_none());

    let definitions = vec![(
        "SpecialNStart".to_string(),
        ActionDefinition { action: None, command_trace: Some("alias.trace".into()), ..ActionDefinition::default() },
    )];
    let selected = selected_action_definitions(&definitions);
    assert_eq!(selected.len(), 1);
    assert_eq!(definitions[selected[0].1].1.command_trace.as_deref(), Some("alias.trace"));
}

#[test]
fn prefixed_canonical_key_is_selected_over_an_earlier_alias() {
    let definitions = vec![
        ("Action.Walk".to_string(), action_definition(None, "canonical")),
        ("amble".to_string(), action_definition(Some("Walk"), "alias")),
        ("hop".to_string(), action_definition(Some("SpecialHi"), "hop")),
    ];
    let selected = selected_action_definitions(&definitions);
    assert_eq!(selected, vec![(Action::Walk, 0), (Action::SpecialHi, 2)]);
    let definitions = vec![
        ("amble".to_string(), action_definition(Some("Walk"), "alias")),
        ("stroll".to_string(), action_definition(Some("Walk"), "second")),
    ];
    assert_eq!(selected_action_definitions(&definitions), vec![(Action::Walk, 0)]);
}
