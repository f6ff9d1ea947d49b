use skirmish_script::air_operations::{parse_air_operation, AirOperationDescriptor, ManifestValue, ScalarRef};
use skirmish_script::motion::{TrackEnd, TrackTransform};
use skirmish_script::motion_links::{MotionLinkError, SpecialAttributeRef, TrackComponent};

fn num(x: f32) -> ManifestValue {
    let whole = if x >= 0.0 && x.fract() == 0.0 { Some(x as u64) } else { None };
    ManifestValue::Number { whole, nearest: x.to_bits() }
}

fn s(x: &str) -> ManifestValue {
    ManifestValue::String(x.to_owned())
}

fn object(entries: Vec<(&str, ManifestValue)>) -> ManifestValue {
    ManifestValue::Object { entries: entries.into_iter().map(|(k, v)| (k.to_owned(), v)).collect(), special: None }
}

fn array(items: Vec<ManifestValue>) -> ManifestValue {
    ManifestValue::Array { items, special: None }
}

fn call(callee: &str, kwargs: Vec<(&str, ManifestValue)>) -> ManifestValue {
    object(vec![("callee", s(callee)), ("kwargs", object(kwargs))])
}

fn reference(callee: &str, arg: ManifestValue) -> ManifestValue {
    object(vec![("args", array(vec![arg])), ("callee", s(callee))])
}

#[test]
fn gravity_with_literals_and_references() {
    let op = call(
        "motion.gravity",
        vec![
            ("acceleration", num(-0.5)),
            ("delay", reference("parameter", s("movement.delay"))),
            ("terminal_velocity", reference("resource", s("special.fall"))),
        ],
    );
    let parsed = parse_air_operation(&op).unwrap();
    match parsed {
        AirOperationDescriptor::Gravity { acceleration, terminal_velocity, delay } => {
            assert_eq!(acceleration, ScalarRef::Literal((-0.5f32).to_bits()));
            assert!(matches!(terminal_velocity, ScalarRef::Resource(ref f) if f.as_str() == "special.fall"));
            assert!(matches!(delay, ScalarRef::Parameter(ref f) if f.as_str() == "movement.delay"));
        },
        other => panic!("unexpected {other:?}"),
    }
}

#[test]
fn special_attribute_scalars() {
    let arg = ManifestValue::Object {
        entries: vec![("field_id".to_owned(), num(3.0)), ("layout".to_owned(), num(2.0))],
        special: Some(SpecialAttributeRef { layout: 2, field_id: 3 }),
    };
    let op = call("motion.drift_or_friction", vec![("recovery_step", reference("special_attribute", arg))]);
    assert_eq!(
        parse_air_operation(&op),
        Ok(AirOperationDescriptor::DriftOrFriction {
            recovery_step: ScalarRef::SpecialAttribute(SpecialAttributeRef { layout: 2, field_id: 3 })
        })
    );
    let malformed = call("motion.drift_or_friction", vec![("recovery_step", reference("special_attribute", num(1.0)))]);
    assert_eq!(parse_air_operation(&malformed), Err(MotionLinkError::MalformedScalarReference));
}

#[test]
fn keyword_and_argument_errors() {
    let unknown = call("motion.drift_clamp", vec![("acceleration", num(1.0)), ("maximum", num(2.0)), ("zeta", num(0.0))]);
    assert_eq!(
        parse_air_operation(&unknown),
        Err(MotionLinkError::UnknownKeyword { constructor: "motion.drift_clamp".to_owned(), keyword: "zeta".to_owned() })
    );
    let missing = call("motion.drift_clamp", vec![("maximum", num(2.0))]);
    assert_eq!(
        parse_air_operation(&missing),
        Err(MotionLinkError::MissingKeyword { constructor: "motion.drift_clamp".to_owned(), keyword: "acceleration".to_owned() })
    );
    let positional = object(vec![("args", array(vec![num(1.0)])), ("callee", s("motion.friction"))]);
    assert_eq!(
        parse_air_operation(&positional),
        Err(MotionLinkError::InvalidArgumentCount { constructor: "motion.friction".to_owned() })
    );
    assert_eq!(
        parse_air_operation(&call("motion.teleport", vec![])),
        Err(MotionLinkError::UnknownConstructor("motion.teleport".to_owned()))
    );
    assert_eq!(parse_air_operation(&num(1.0)), Err(MotionLinkError::ConstructorNotObject));
    let too_big = call("motion.friction", vec![("amount", num(2_000_000.0))]);
    assert_eq!(parse_air_operation(&too_big), Err(MotionLinkError::InvalidNumber { path: "literal".to_owned() }));
    let both = call("motion.friction", vec![("amount", num(1.0)), ("path", s("a.b"))]);
    assert_eq!(
        parse_air_operation(&both),
        Err(MotionLinkError::InvalidKeywordType { constructor: "motion.friction".to_owned(), keyword: "amount".to_owned() })
    );
    let by_path = call("motion.air_friction", vec![("path", s("air.friction"))]);
    assert!(matches!(
        parse_air_operation(&by_path),
        Ok(AirOperationDescriptor::Friction { amount: ScalarRef::Resource(ref f) }) if f.as_str() == "air.friction"
    ));
}

#[test]
fn command_indexes_and_values() {
    let op = call("motion.gravity_multiplier", vec![("index", num(3.0)), ("multiplier", num(0.5)), ("value", num(7.0))]);
    assert!(matches!(parse_air_operation(&op), Ok(AirOperationDescriptor::GravityMultiplier { index: 3, value: 7, .. })));
    let bad_index = call("motion.gravity_multiplier", vec![("index", num(4.0)), ("multiplier", num(0.5)), ("value", num(7.0))]);
    assert_eq!(
        parse_air_operation(&bad_index),
        Err(MotionLinkError::InvalidKeywordType { constructor: "motion.gravity_multiplier".to_owned(), keyword: "index".to_owned() })
    );
}

#[test]
fn velocity_tracks() {
    let op = call(
        "motion.velocity_track",
        vec![("component", s("x")), ("end", s("hold_last")), ("multiply_y_by_facing", ManifestValue::Bool(true)), ("path", s("up.velocity"))],
    );
    match parse_air_operation(&op).unwrap() {
        AirOperationDescriptor::VelocityTrack(t) => {
            assert_eq!(t.path.as_str(), "up.velocity");
            assert_eq!(t.component, TrackComponent::X);
            assert_eq!(t.end, TrackEnd::HoldLast);
            assert_eq!(t.x_transform, TrackTransform::Absolute);
            assert_eq!(t.y_transform, TrackTransform::BindingScale);
        },
        other => panic!("unexpected {other:?}"),
    }
    let clash = call(
        "motion.velocity_track",
        vec![("multiply_x_by_facing", ManifestValue::Bool(false)), ("path", s("up.velocity")), ("x_transform", s("facing"))],
    );
    assert_eq!(
        parse_air_operation(&clash),
        Err(MotionLinkError::InvalidKeywordType {
            constructor: "motion.velocity_track".to_owned(),
            keyword: "multiply_x_by_facing".to_owned()
        })
    );
}

#[test]
fn command_branches_sort_their_cases() {
    let friction = || call("motion.friction", vec![("amount", num(1.0))]);
    let op = call(
        "motion.command_branch",
        vec![
            ("cases", object(vec![("10", array(vec![friction()])), ("9", array(vec![friction(), friction()]))])),
            ("index", num(1.0)),
        ],
    );
    match parse_air_operation(&op).unwrap() {
        AirOperationDescriptor::CommandBranch { index, cases } => {
            assert_eq!(index, 1);
            assert_eq!(cases.iter().map(|c| (c.0, c.1.len())).collect::<Vec<_>>(), vec![(9, 2), (10, 1)]);
        },
        other => panic!("unexpected {other:?}"),
    }
    let duplicate = call(
        "motion.command_branch",
        vec![("cases", object(vec![("+1", array(vec![friction()])), ("1", array(vec![friction()]))])), ("index", num(0.0))],
    );
    assert_eq!(
        parse_air_operation(&duplicate),
        Err(MotionLinkError::InvalidKeywordType { constructor: "motion.command_branch".to_owned(), keyword: "cases".to_owned() })
    );
    let nested_error = call(
        "motion.command_branch",
        vec![("cases", object(vec![("1", array(vec![call("motion.nope", vec![])]))])), ("index", num(0.0))],
    );
    assert_eq!(parse_air_operation(&nested_error), Err(MotionLinkError::UnknownConstructor("motion.nope".to_owned())));
    let empty = call("motion.command_branch", vec![("cases", object(vec![])), ("index", num(0.0))]);
    assert!(parse_air_operation(&empty).is_err());
}
