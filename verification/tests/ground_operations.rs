use skirmish_script::air_operations::{AirOperationDescriptor, ManifestValue, ScalarRef};
use skirmish_script::ground_operations::{parse_ground_operation, parse_profile_constructor, GroundOperationDescriptor};
use skirmish_script::motion::{TrackEnd, TrackTransform};
use skirmish_script::motion_links::MotionLinkError;

fn num(x: f32) -> ManifestValue {
    let whole = if x >= 0.0 && x.fract() == 0.0 { Some(x as u64) } else { None };
    ManifestValue::Number { whole, nearest: x.to_bits() }
}

fn s(x: &str) -> ManifestValue {
    ManifestValue::String(x.to_owned())
}

fn object(entries: Vec<(&str, ManifestValue)>) -> ManifestValue {
    ManifestValue::Object { entries: entries.into_iter().map(|(k, v)| (k.to_owned(), v)).collect(), special: None }
}

fn array(items: Vec<ManifestValue>) -> ManifestValue {
    ManifestValue::Array { items, special: None }
}

fn call(callee: &str, kwargs: Vec<(&str, ManifestValue)>) -> ManifestValue {
    object(vec![("callee", s(callee)), ("kwargs", object(kwargs))])
}

#[test]
fn ground_friction_forms() {
    let native = call("motion.ground_friction_above_walk", vec![]);
    match parse_ground_operation(&native).unwrap() {
        GroundOperationDescriptor::FrictionAboveWalk { amount, walk_max_velocity, above_walk_multiplier } => {
            assert!(matches!(amount, ScalarRef::Parameter(ref f) if f.as_str() == "movement.ground_friction"));
            assert!(matches!(walk_max_velocity, ScalarRef::Parameter(ref f) if f.as_str() == "movement.walk_max_velocity"));
            assert!(matches!(above_walk_multiplier, ScalarRef::Parameter(ref f) if f.as_str() == "rules.friction_above_walk"));
        },
        other => panic!("unexpected {other:?}"),
    }
    let extra = call("motion.ground_friction_above_walk", vec![("amount", num(1.0))]);
    assert_eq!(
        parse_ground_operation(&extra),
        Err(MotionLinkError::UnknownKeyword {
            constructor: "motion.ground_friction_above_walk".to_owned(),
            keyword: "amount".to_owned()
        })
    );
    let plain = call("motion.ground_friction", vec![("amount", num(0.5))]);
    assert_eq!(
        parse_ground_operation(&plain),
        Ok(GroundOperationDescriptor::Friction { amount: ScalarRef::Literal(0.5f32.to_bits()) })
    );
    let after = call("motion.friction_after", vec![("after", num(1.0)), ("before", num(0.0)), ("starts_at", num(3.0))]);
    assert!(matches!(parse_ground_operation(&after), Ok(GroundOperationDescriptor::FrictionAfter { .. })));
}

#[test]
fn target_tracks_and_branches() {
    let track = call("motion.target_track", vec![("end", s("loop")), ("multiply_by_facing", ManifestValue::Bool(true)), ("path", s("dash.x"))]);
    match parse_ground_operation(&track).unwrap() {
        GroundOperationDescriptor::TargetTrack(t) => {
            assert_eq!(t.path.as_str(), "dash.x");
            assert_eq!(t.end, TrackEnd::Loop);
            assert_eq!(t.transform, TrackTransform::BindingScale);
        },
        other => panic!("unexpected {other:?}"),
    }
    let friction = || call("motion.friction", vec![("amount", num(1.0))]);
    let branch = call(
        "motion.command_branch",
        vec![("cases", object(vec![("2", array(vec![friction()])), ("1", array(vec![friction()]))])), ("index", num(2.0))],
    );
    match parse_ground_operation(&branch).unwrap() {
        GroundOperationDescriptor::CommandBranch { index, cases } => {
            assert_eq!(index, 2);
            assert_eq!(cases.iter().map(|c| c.0).collect::<Vec<_>>(), vec![1, 2]);
        },
        other => panic!("unexpected {other:?}"),
    }
    assert_eq!(
        parse_ground_operation(&call("motion.gravity", vec![])),
        Err(MotionLinkError::UnknownConstructor("motion.gravity".to_owned()))
    );
}

#[test]
fn motion_profiles() {
    let profile = call(
        "motion.profile",
        vec![
            ("air", array(vec![call("motion.drift_or_friction", vec![("recovery_step", num(0.1))])])),
            ("ground", array(vec![call("motion.ground_friction", vec![("amount", num(0.5))])])),
        ],
    );
    let d = parse_profile_constructor(&profile).unwrap();
    assert_eq!(d.air.len(), 1);
    assert!(matches!(d.air[0], AirOperationDescriptor::DriftOrFriction { .. }));
    assert_eq!(d.ground, vec![GroundOperationDescriptor::Friction { amount: ScalarRef::Literal(0.5f32.to_bits()) }]);
    let empty = parse_profile_constructor(&call("motion.profile", vec![])).unwrap();
    assert!(empty.air.is_empty() && empty.ground.is_empty());
    assert_eq!(
        parse_profile_constructor(&call("motion.other", vec![])),
        Err(MotionLinkError::UnknownConstructor("motion.other".to_owned()))
    );
    assert_eq!(
        parse_profile_constructor(&call("motion.profile", vec![("air", num(1.0))])),
        Err(MotionLinkError::InvalidKeywordType { constructor: "motion.profile".to_owned(), keyword: "air".to_owned() })
    );
}
