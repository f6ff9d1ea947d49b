use skirmish_script::host_calls::lifecycle_named_arguments;
use skirmish_script::native::{Error, NativeValue};

fn named(entries: &[(&str, NativeValue)]) -> Vec<(String, NativeValue)> {
    entries.iter().map(|(k, v)| (k.to_string(), v.clone_value())).collect()
}

trait CloneValue {
    fn clone_value(&self) -> NativeValue;
}

impl CloneValue for NativeValue {
    fn clone_value(&self) -> NativeValue {
        match self {
            NativeValue::Null => NativeValue::Null,
            NativeValue::Bool(b) => NativeValue::Bool(*b),
            NativeValue::Int(i) => NativeValue::Int(*i),
            NativeValue::String(s) => NativeValue::String(s.clone()),
            _ => panic!("only scalar test values are used"),
        }
    }
}

#[test]
fn change_action_keywords_fill_their_slots() {
    let args = vec![NativeValue::String("Walk".into())];
    let kw = named(&[("keep_frame", NativeValue::Bool(true))]);
    let positional = lifecycle_named_arguments("fighter.change_action", &args, &kw).unwrap();
    assert_eq!(
        positional,
        vec![NativeValue::String("Walk".into()), NativeValue::Null, NativeValue::Bool(true)]
    );
    let kw = named(&[("preserve_fields", NativeValue::Int(3)), ("preserve_state", NativeValue::Bool(false))]);
    let positional = lifecycle_named_arguments("fighter.change_action", &args, &kw).unwrap();
    assert_eq!(
        positional,
        vec![
            NativeValue::String("Walk".into()),
            NativeValue::Bool(false),
            NativeValue::Null,
            NativeValue::Int(3),
        ]
    );
}

#[test]
fn keywords_override_positional_slots() {
    let args = vec![NativeValue::Int(1), NativeValue::Int(2)];
    let kw = named(&[("mobility", NativeValue::Int(9))]);
    let positional = lifecycle_named_arguments("fighter.enter_fall_special", &args, &kw).unwrap();
    assert_eq!(positional, vec![NativeValue::Int(9), NativeValue::Int(2)]);
    let kw = named(&[("action", NativeValue::String("Pass".into()))]);
    let positional = lifecycle_named_arguments("pass_as", &[], &kw).unwrap();
    assert_eq!(positional, vec![NativeValue::Null, NativeValue::String("Pass".into())]);
}

#[test]
fn unknown_keywords_and_paths_are_refused() {
    let kw = named(&[("keep_frame", NativeValue::Bool(true)), ("speed", NativeValue::Int(1))]);
    assert_eq!(
        lifecycle_named_arguments("context.pass_as", &[], &kw),
        Err(Error::Host("unknown pass_as argument `speed`".into()))
    );
    assert_eq!(
        lifecycle_named_arguments("fighter.jump", &[], &kw),
        Err(Error::Host("native call `fighter.jump` does not accept named arguments".into()))
    );
}

#[test]
fn emit_projectile_takes_every_keyword_and_no_positionals() {
    let all = [
        ("angle", NativeValue::Int(3)),
        ("hitboxes", NativeValue::Int(6)),
        ("kind", NativeValue::Int(1)),
        ("lifetime", NativeValue::Int(5)),
        ("move_id", NativeValue::Int(7)),
        ("position", NativeValue::Int(2)),
        ("speed", NativeValue::Int(4)),
    ];
    let kw = named(&all);
    let positional = lifecycle_named_arguments("fighter.emit_projectile", &[], &kw).unwrap();
    assert_eq!(positional, (1..=7).map(NativeValue::Int).collect::<Vec<_>>());
    assert_eq!(
        lifecycle_named_arguments("fighter.emit_projectile", &[NativeValue::Null], &kw),
        Err(Error::Host("emit_projectile expects named arguments".into()))
    );
    let kw = named(&all[1..]);
    assert_eq!(
        lifecycle_named_arguments("fighter.emit_projectile", &[], &kw),
        Err(Error::Host("emit_projectile missing required argument `angle`".into()))
    );
    let kw = named(&[("color", NativeValue::Int(1))]);
    assert_eq!(
        lifecycle_named_arguments("fighter.emit_projectile", &[], &kw),
        Err(Error::Host("unknown emit_projectile argument `color`".into()))
    );
}

#[test]
fn calls_without_keywords_pass_their_arguments_through() {
    let args = vec![NativeValue::Int(2), NativeValue::Bool(true)];
    let positional = lifecycle_named_arguments("fall", &args, &[]).unwrap();
    assert_eq!(positional, args);
    let positional = lifecycle_named_arguments("fighter.emit_projectile", &args, &[]).unwrap();
    assert_eq!(positional, args);
    assert_eq!(lifecycle_named_arguments("fighter.change_action", &[], &[]).unwrap(), Vec::<NativeValue>::new());
}
