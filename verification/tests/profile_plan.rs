use skirmish_script::host_state::{LocalValue, StateField, StateSchema};
use skirmish_script::action::{parse_action, Action};
use skirmish_script::profile_plan::{
    action_entry, owner_entry, delay_field_ok, folded_eq, profile_id, profile_slots, reference_disabled, root_action_enabled, ActionMeta,
    BehaviorMeta, ProfileSlot,
};

fn action(name: &str, reference: Option<&str>, motion: bool) -> ActionMeta {
    ActionMeta { name: name.to_owned(), action: reference.map(|r| r.to_owned()), has_motion: motion, delay_field: None }
}

fn behaviors() -> Vec<BehaviorMeta> {
    vec![
        BehaviorMeta {
            id: Some("fireball".to_owned()),
            resource_missing: true,
            actions: vec![action("throw", Some("Action.SpecialN"), true)],
        },
        BehaviorMeta {
            id: Some("dash".to_owned()),
            resource_missing: false,
            actions: vec![action("start", Some("Action.SpecialS"), true), action("idle", None, false)],
        },
    ]
}

#[test]
fn enabled_root_actions() {
    let bs = behaviors();
    assert!(!root_action_enabled(&bs, "throw"));
    assert!(!root_action_enabled(&bs, "fireball.other"));
    assert!(!root_action_enabled(&bs, "any.throw"));
    assert!(root_action_enabled(&bs, "start"));
    assert!(root_action_enabled(&bs, "jab"));
    assert!(reference_disabled(&bs, "specialn"));
    assert!(reference_disabled(&bs, "Action.SPECIALN"));
    assert!(!reference_disabled(&bs, "SpecialS"));
    assert!(folded_eq("Wait", "wAIT"));
    assert!(!folded_eq("Wait", "Walk"));
}

#[test]
fn profiles_are_numbered_root_first() {
    let bs = behaviors();
    let root = vec![
        action("jab", None, true),
        action("throw", None, true),
        action("spin", Some("Action.SpecialN"), true),
        action("still", None, false),
        action("walk", Some("Walk"), true),
    ];
    let slots = profile_slots(&root, &bs);
    assert_eq!(
        slots,
        vec![
            ProfileSlot { behavior: None, action: 0, key: "jab".to_owned() },
            ProfileSlot { behavior: None, action: 4, key: "Walk".to_owned() },
            ProfileSlot { behavior: Some(1), action: 0, key: "SpecialS".to_owned() },
        ]
    );
    assert_eq!(profile_id(2), Ok(2));
    assert_eq!(profile_id(65_536), Err("too many motion profiles".to_owned()));
}

#[test]
fn delay_fields_must_be_declared_numbers() {
    let schema = StateSchema {
        fields: vec![
            ("delay".to_owned(), StateField::from_default(LocalValue::Number(0.0f64.to_bits()))),
            ("flag".to_owned(), StateField::from_default(LocalValue::Bool(false))),
        ],
    };
    assert!(delay_field_ok(&schema, "delay"));
    assert!(!delay_field_ok(&schema, "flag"));
    assert!(!delay_field_ok(&schema, "missing"));
}

#[test]
fn lookups_by_native_action() {
    let keys: Vec<String> = vec!["Wait".into(), "SpecialN".into(), "Wait".into(), "jab".into()];
    assert_eq!(action_entry(&keys, Action::Wait), Some(2));
    assert_eq!(action_entry(&keys, Action::SpecialN), Some(1));
    assert_eq!(action_entry(&keys, Action::Walk), None);
    let custom = parse_action("Source.1:2").unwrap();
    let keys: Vec<String> = vec!["Source.1:2".into(), "Source.01:2".into()];
    assert_eq!(action_entry(&keys, custom), Some(0));
    let owners = vec![Some(0), Some(1), Some(0), None];
    let keys: Vec<String> = vec!["SpecialN".into(), "SpecialN".into(), "SpecialN".into(), "SpecialN".into()];
    assert_eq!(owner_entry(&keys, &owners, 0, Action::SpecialN), Some(2));
    assert_eq!(owner_entry(&keys, &owners, 1, Action::SpecialN), Some(1));
    assert_eq!(owner_entry(&keys, &owners, 2, Action::SpecialN), None);
}
