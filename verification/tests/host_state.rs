use skirmish_script::host_state::{
    action_state_after_change, decode_preserve_fields, native_to_local, state_get, state_set, LocalState, LocalValue,
    StateField, StateSchema, StateType,
};
use skirmish_script::native::{Error, NativeValue};

fn schema() -> StateSchema {
    StateSchema {
        fields: vec![
            ("gravity_delay".into(), StateField::from_default(LocalValue::Integer(0))),
            ("is_release".into(), StateField::from_default(LocalValue::Bool(false))),
            ("release_lag".into(), StateField::from_default(LocalValue::Integer(0))),
            ("reset_me".into(), StateField::from_default(LocalValue::Integer(7))),
        ],
    }
}

#[test]
fn selective_preserve_copies_declared_fields_and_resets_the_rest() {
    let prior = LocalState::from_entries(vec![
        ("release_lag".into(), LocalValue::Integer(12)),
        ("is_release".into(), LocalValue::Bool(true)),
        ("gravity_delay".into(), LocalValue::Integer(4)),
        ("reset_me".into(), LocalValue::Integer(99)),
    ]);
    let selected: Vec<String> = vec!["release_lag".into(), "is_release".into()];
    let reset = schema().defaults();
    let state = action_state_after_change(&prior, reset, false, Some(&selected));
    assert_eq!(state.get("release_lag"), Some(&LocalValue::Integer(12)));
    assert_eq!(state.get("is_release"), Some(&LocalValue::Bool(true)));
    assert_eq!(state.get("gravity_delay"), Some(&LocalValue::Integer(0)));
    assert_eq!(state.get("reset_me"), Some(&LocalValue::Integer(7)));
}

#[test]
fn whole_preserve_keeps_the_prior_state() {
    let prior = LocalState::from_entries(vec![("release_lag".into(), LocalValue::Integer(12))]);
    let state = action_state_after_change(&prior, schema().defaults(), true, None);
    assert_eq!(state, prior);
    let reset = action_state_after_change(&prior, schema().defaults(), false, None);
    assert_eq!(reset.get("release_lag"), Some(&LocalValue::Integer(0)));
}

#[test]
fn malformed_preserve_fields_are_rejected_before_transition() {
    let prior_state = LocalState::from_entries(vec![("release_lag".into(), LocalValue::Integer(12))]);
    let before = LocalState::copy_of(&prior_state);
    let malformed = NativeValue::List(vec![NativeValue::String("unknown".into())]);
    let error = decode_preserve_fields(Some(&malformed), Some(&schema()), false)
        .expect_err("unknown fields must be rejected");
    assert!(error.message().contains("undeclared field"));
    assert_eq!(prior_state, before);
}

#[test]
fn preserve_fields_decoding_covers_every_refusal() {
    let s = schema();
    let list = |names: &[&str]| NativeValue::List(names.iter().map(|n| NativeValue::String((*n).into())).collect());
    assert_eq!(decode_preserve_fields(None, Some(&s), false), Ok(None));
    assert_eq!(decode_preserve_fields(Some(&NativeValue::Null), Some(&s), false), Ok(None));
    assert_eq!(
        decode_preserve_fields(Some(&list(&["release_lag"])), Some(&s), false),
        Ok(Some(vec!["release_lag".to_string()]))
    );
    assert_eq!(
        decode_preserve_fields(Some(&NativeValue::Int(1)), Some(&s), false),
        Err(Error::Host("preserve_fields must be a sequence of state field names".into()))
    );
    assert_eq!(
        decode_preserve_fields(Some(&list(&["release_lag"])), Some(&s), true),
        Err(Error::Host("preserve_state and preserve_fields are mutually exclusive".into()))
    );
    assert_eq!(decode_preserve_fields(Some(&list(&[])), None, false), Ok(Some(vec![])));
    assert_eq!(
        decode_preserve_fields(Some(&list(&["release_lag"])), None, false),
        Err(Error::Host("preserve_fields requires a declared action_state schema".into()))
    );
    assert_eq!(
        decode_preserve_fields(Some(&NativeValue::List(vec![NativeValue::Int(1)])), Some(&s), false),
        Err(Error::Host("preserve_fields entries must be strings".into()))
    );
    assert_eq!(
        decode_preserve_fields(Some(&list(&["release_lag", "release_lag"])), Some(&s), false),
        Err(Error::Host("preserve_fields contains duplicate field `release_lag`".into()))
    );
}

#[test]
fn fixed_tuple_state_writes_are_typed_arity_checked_and_atomic() {
    let schema = StateSchema {
        fields: vec![(
            "command".into(),
            StateField {
                value_type: StateType::FixedTuple { element: Box::new(StateType::Integer), length: 4 },
                default: LocalValue::Tuple(vec![
                    LocalValue::Integer(0),
                    LocalValue::Integer(0),
                    LocalValue::Integer(0),
                    LocalValue::Integer(0),
                ]),
            },
        )],
    };
    let sevens = || LocalValue::Tuple(vec![LocalValue::Integer(7), LocalValue::Integer(7), LocalValue::Integer(7), LocalValue::Integer(7)]);
    let mut state = LocalState::from_entries(vec![("command".into(), sevens())]);
    state_set(
        "fighter.action_state.command",
        "fighter.action_state",
        NativeValue::Tuple(vec![NativeValue::Int(1), NativeValue::Int(1), NativeValue::Int(1), NativeValue::Int(1)]),
        &mut state,
        Some(&schema),
    )
    .expect("valid tuple write");
    let before = LocalState::copy_of(&state);
    for value in [
        NativeValue::Tuple(vec![NativeValue::Int(1), NativeValue::Int(1), NativeValue::Int(1)]),
        NativeValue::Tuple(vec![NativeValue::Int(1), NativeValue::Bool(false), NativeValue::Int(1), NativeValue::Int(1)]),
    ] {
        assert!(state_set("fighter.action_state.command", "fighter.action_state", value, &mut state, Some(&schema)).is_err());
        assert_eq!(state, before, "rejected tuple write must not partially commit");
    }
}

#[test]
fn state_writes_read_back_and_report_each_refusal() {
    let s = schema();
    let mut state = s.defaults();
    state_set("fighter.action_state.release_lag", "fighter.action_state", NativeValue::Int(5), &mut state, Some(&s)).unwrap();
    assert_eq!(
        state_get("fighter.action_state.release_lag", "fighter.action_state", &state),
        Some(LocalValue::Integer(5))
    );
    assert_eq!(state_get("other.release_lag", "fighter.action_state", &state), None);
    assert_eq!(
        state_set("fighter.action_state.release_lag", "fighter.action_state", NativeValue::Bool(true), &mut state, Some(&s)),
        Err(Error::Host("state field `release_lag` has the wrong type".into()))
    );
    assert_eq!(
        state_set("fighter.action_state.nope", "fighter.action_state", NativeValue::Int(1), &mut state, Some(&s)),
        Err(Error::Host("undeclared state field `nope`".into()))
    );
    assert_eq!(
        state_set("elsewhere", "fighter.action_state", NativeValue::Int(1), &mut state, Some(&s)),
        Err(Error::Host("invalid state path".into()))
    );
    assert_eq!(
        state_set("fighter.action_state.release_lag", "fighter.action_state", NativeValue::List(vec![]), &mut state, Some(&s)),
        Err(Error::Host("state fields must be scalar or fixed tuple".into()))
    );
    assert_eq!(state.get("release_lag"), Some(&LocalValue::Integer(5)));
}

#[test]
fn native_numbers_widen_exactly() {
    for x in [0.1f32, -0.5, 1.0, 0.0, -0.0, f32::MIN_POSITIVE, 1.0e-45, 3.4e38, f32::INFINITY, f32::NEG_INFINITY] {
        assert_eq!(native_to_local(&NativeValue::F32(x.to_bits())), Ok(LocalValue::Number(f64::from(x).to_bits())));
    }
    assert_eq!(
        native_to_local(&NativeValue::List(vec![])),
        Err(Error::Host("tuple elements must be scalar or fixed tuple".into()))
    );
}

#[test]
fn declared_types_follow_their_defaults() {
    assert_eq!(StateField::from_default(LocalValue::Number(0)).value_type, StateType::Number);
    assert_eq!(
        StateField::from_default(LocalValue::Tuple(vec![LocalValue::Bool(true), LocalValue::Bool(false)])).value_type,
        StateType::FixedTuple { element: Box::new(StateType::Bool), length: 2 }
    );
}
