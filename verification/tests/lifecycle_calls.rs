use skirmish_script::action::Action;
use skirmish_script::async_move::{await_deadline, resume_step, start_deadline, AsyncMoveError, ResumeDecision};
use skirmish_script::events::TimerId;
use skirmish_script::fighter_calls::{
    binding_args, change_action_args, change_action_plan, BindingArgs, clear_effect_args, effect_bone, effect_resource, fall_special_args,
    fighter_method, landing_special_args, projectile_args, projectile_move_id, set_velocity_args, ChangePlan,
    FighterMethod, MoveStaging, ProjectileKind,
};
use skirmish_script::fighter_writes::{fighter_write, lower_eq, FighterWrite, JumpInput, Number, StateRoot};
use skirmish_script::lifecycle_calls::{
    button_arg, helper_number, index_arg, lifecycle_route, pass_args, path_arg, ButtonArg, ButtonName,
    LifecycleRoute,
};
use skirmish_script::native::{render_value, Error, NativeKind, NativeObject, NativeValue};
use skirmish_script::selection::{ActionGeneration, MoveLifetimeId, PendingMoveSelection, SelectedMove};

fn f(x: f32) -> NativeValue {
    NativeValue::F32(x.to_bits())
}

fn s(x: &str) -> NativeValue {
    NativeValue::String(x.to_owned())
}

fn message(e: Error) -> String {
    match e {
        Error::Host(m) => m,
        Error::Invalid(m) => m,
    }
}

#[test]
fn fighter_write_decodes_each_field_kind() {
    assert_eq!(
        fighter_write("fighter.position", &NativeValue::List(vec![NativeValue::Int(3), f(1.5)])),
        Ok(FighterWrite::Position(Number::Int(3), Number::F32(1.5f32.to_bits())))
    );
    assert_eq!(
        fighter_write("fighter.velocity", &NativeValue::Vec2([2.0f32.to_bits(), 0.0f32.to_bits()])),
        Ok(FighterWrite::Velocity(Number::F32(2.0f32.to_bits()), Number::F32(0.0f32.to_bits())))
    );
    assert_eq!(fighter_write("fighter.hitstun", &NativeValue::Int(12)), Ok(FighterWrite::Hitstun(12)));
    assert_eq!(fighter_write("fighter.grounded", &NativeValue::Bool(true)), Ok(FighterWrite::Grounded(true)));
    assert_eq!(fighter_write("fighter.flags.reflecting", &NativeValue::Bool(true)), Ok(FighterWrite::Reflecting(true)));
    assert_eq!(fighter_write("fighter.ground_line", &NativeValue::Null), Ok(FighterWrite::GroundLine(None)));
    assert_eq!(fighter_write("fighter.ground_line", &NativeValue::Int(4)), Ok(FighterWrite::GroundLine(Some(4))));
    assert_eq!(fighter_write("fighter.locomotion.jumps_used", &NativeValue::Int(2)), Ok(FighterWrite::JumpsUsed(2)));
    assert_eq!(
        fighter_write("fighter.locomotion.jump_input", &s("C_Stick")),
        Ok(FighterWrite::JumpInput(JumpInput::CStick))
    );
    assert_eq!(fighter_write("fighter.state.meter", &NativeValue::Int(1)), Ok(FighterWrite::State(StateRoot::Persistent)));
    assert_eq!(
        fighter_write("fighter.action_state.timer", &NativeValue::Int(1)),
        Ok(FighterWrite::State(StateRoot::Action))
    );
    assert_eq!(
        fighter_write("fighter.floor_normal", &NativeValue::List(vec![f(0.0), f(1.0), NativeValue::Int(0)])),
        Ok(FighterWrite::FloorNormal(Number::F32(0.0f32.to_bits()), Number::F32(1.0f32.to_bits()), Number::Int(0)))
    );
}

#[test]
fn fighter_write_refusals() {
    let cases: Vec<(&str, NativeValue, &str)> = vec![
        ("fighter.depth", s("x"), "depth must be a number"),
        ("fighter.percent", NativeValue::Int(1_000_001), "invalid percent: non-finite or out of range"),
        ("fighter.facing", f(f32::NAN), "invalid facing: non-finite or out of range"),
        ("fighter.position", NativeValue::Int(1), "position must be a two element vector"),
        ("fighter.floor_normal", NativeValue::List(vec![f(0.0)]), "floor_normal must be a three element vector"),
        ("fighter.hitstun", NativeValue::Int(-1), "hitstun is out of range"),
        ("fighter.hitstun", f(1.0), "hitstun must be an integer"),
        ("fighter.grounded", NativeValue::Int(1), "grounded must be a boolean"),
        ("fighter.ground_line", NativeValue::Int(-3), "ground_line must be a non-negative line id"),
        ("fighter.locomotion.jumps_used", NativeValue::Int(256), "locomotion.jumps_used is out of range"),
        ("fighter.locomotion.jump_input", s("pedal"), "locomotion.jump_input is invalid"),
        ("fighter.action", NativeValue::Int(0), "fighter.action is read-only; use change_action"),
        ("fighter.wings", NativeValue::Int(0), "unsupported fighter write `fighter.wings`"),
    ];
    for (path, value, expected) in cases {
        assert_eq!(message(fighter_write(path, &value).unwrap_err()), expected, "{path}");
    }
    let got = message(fighter_write("fighter.ground_line", &s("a")).unwrap_err());
    assert!(got.starts_with("ground_line expects None or an integer, got "));
    let got = message(fighter_write("fighter.locomotion.jump_input", &NativeValue::Int(1)).unwrap_err());
    assert!(got.starts_with("locomotion.jump_input expects a string, got "));
}

#[test]
fn lower_eq_folds_ascii_only() {
    assert!(lower_eq("BUTTONS", "buttons"));
    assert!(!lower_eq("button", "buttons"));
}

#[test]
fn lifecycle_routes() {
    assert_eq!(lifecycle_route("next_action"), Ok(LifecycleRoute::ChangeAction));
    assert_eq!(lifecycle_route("context.next_action"), Ok(LifecycleRoute::ChangeAction));
    assert_eq!(lifecycle_route("fighter.emit_projectile"), Ok(LifecycleRoute::Fighter));
    assert_eq!(lifecycle_route("context.fall"), Ok(LifecycleRoute::Fall));
    assert_eq!(lifecycle_route("drift_clamp"), Ok(LifecycleRoute::DriftClamp));
    assert_eq!(lifecycle_route("input.just_pressed"), Ok(LifecycleRoute::JustPressed));
    assert_eq!(lifecycle_route("context.input.held"), Ok(LifecycleRoute::Held));
    assert_eq!(lifecycle_route("context.resource"), Ok(LifecycleRoute::Resource));
    assert_eq!(lifecycle_route("context.frames"), Ok(LifecycleRoute::Frames));
    assert_eq!(lifecycle_route("ctx.validate_attack"), Ok(LifecycleRoute::ValidateAttack));
    assert_eq!(lifecycle_route("array_length"), Ok(LifecycleRoute::ArrayLength));
    assert_eq!(lifecycle_route("x.sample"), Ok(LifecycleRoute::Sample));
    assert_eq!(message(lifecycle_route("teleport").unwrap_err()), "unknown native method `teleport`");
}

#[test]
fn helper_arguments() {
    assert_eq!(helper_number(&[f(2.0)], 0, "gravity"), Ok(Number::F32(2.0f32.to_bits())));
    assert_eq!(message(helper_number(&[], 1, "terminal velocity").unwrap_err()), "terminal velocity must be a number");
    assert_eq!(path_arg(&[s("attacks.jab")], "frames path must be a string"), Ok("attacks.jab".to_owned()));
    assert_eq!(message(path_arg(&[NativeValue::Int(1)], "frames path must be a string").unwrap_err()), "frames path must be a string");
    assert_eq!(index_arg(&[s("a"), NativeValue::Int(3)], 1), Some(3));
    assert_eq!(index_arg(&[s("a"), NativeValue::Int(-3)], 1), None);
    assert_eq!(index_arg(&[s("a")], 1), None);
}

#[test]
fn pass_as_arguments() {
    let p = pass_args(&[s("Wait"), f(-1.0), NativeValue::Bool(true)]).unwrap();
    assert_eq!(p.destination, Action::Wait);
    assert_eq!(p.velocity, Number::F32((-1.0f32).to_bits()));
    assert!(p.keep_frame);
    let p = pass_args(&[NativeValue::Int(2)]).unwrap();
    assert_eq!(p.destination, Action::Pass);
    assert_eq!(p.velocity, Number::Int(2));
    assert!(!p.keep_frame);
    assert_eq!(message(pass_args(&[s("Nowhere"), f(1.0)]).unwrap_err()), "unsupported pass action");
    assert_eq!(message(pass_args(&[f(1.0), NativeValue::Int(3)]).unwrap_err()), "action must be a string");
    assert_eq!(message(pass_args(&[f(1.0), s("Wait"), NativeValue::Int(1)]).unwrap_err()), "keep_frame must be a boolean");
}

#[test]
fn button_arguments() {
    assert_eq!(button_arg(&[NativeValue::Int(0x100)]), Ok(ButtonArg::Mask(0x100)));
    assert_eq!(button_arg(&[s("dpad_up")]), Ok(ButtonArg::Named(ButtonName::DpadUp)));
    assert_eq!(message(button_arg(&[]).unwrap_err()), "input query requires a button");
    assert_eq!(message(button_arg(&[NativeValue::Int(70_000)]).unwrap_err()), "button mask is out of range");
    assert_eq!(message(button_arg(&[s("start")]).unwrap_err()), "unknown button `start`");
    assert_eq!(message(button_arg(&[f(1.0)]).unwrap_err()), "button must be a name or mask");
}

fn selected(index: usize, action: Action, generation: u64) -> SelectedMove {
    SelectedMove { behavior_index: index, action, generation: ActionGeneration(generation), lifetime: MoveLifetimeId::from_raw(1) }
}

#[test]
fn resume_decisions() {
    let owner = Some(selected(2, Action::SpecialN, 5));
    assert_eq!(resume_step(Some(TimerId(1)), TimerId(2), owner, Action::SpecialN, ActionGeneration(5)), ResumeDecision::Ignore);
    assert_eq!(resume_step(None, TimerId(2), owner, Action::SpecialN, ActionGeneration(5)), ResumeDecision::Ignore);
    assert_eq!(resume_step(Some(TimerId(2)), TimerId(2), None, Action::SpecialN, ActionGeneration(5)), ResumeDecision::Cancel);
    assert_eq!(resume_step(Some(TimerId(2)), TimerId(2), owner, Action::SpecialN, ActionGeneration(6)), ResumeDecision::Cancel);
    assert_eq!(
        resume_step(Some(TimerId(2)), TimerId(2), owner, Action::SpecialN, ActionGeneration(5)),
        ResumeDecision::Resume { behavior_index: 2, generation: ActionGeneration(5) }
    );
}

#[test]
fn await_deadlines() {
    let awaitable = NativeValue::Dict(vec![("frames".to_owned(), NativeValue::Int(10))]);
    assert_eq!(await_deadline(&awaitable, 100, 7), Ok((110, 17)));
    assert_eq!(await_deadline(&awaitable, u32::MAX - 5, 7), Err(AsyncMoveError::FrameOverflow));
    assert_eq!(await_deadline(&awaitable, 0, u32::MAX), Err(AsyncMoveError::FrameOverflow));
    let negative = NativeValue::Dict(vec![("frames".to_owned(), NativeValue::Int(-1))]);
    assert_eq!(
        await_deadline(&negative, 0, 0),
        Err(AsyncMoveError::Data("async move awaitable is not a finite deadline".to_owned()))
    );
    assert!(matches!(await_deadline(&NativeValue::Int(3), 0, 0), Err(AsyncMoveError::Data(_))));
    assert_eq!(start_deadline(41), Ok(42));
    assert_eq!(start_deadline(u32::MAX), Err(AsyncMoveError::FrameOverflow));
}

#[test]
fn fighter_methods() {
    assert_eq!(fighter_method("fighter.emit_projectile"), Ok(FighterMethod::EmitProjectile));
    assert_eq!(fighter_method("next_action"), Ok(FighterMethod::ChangeAction));
    assert_eq!(fighter_method("fighter.action_finished"), Ok(FighterMethod::ActionFinished));
    assert_eq!(message(fighter_method("fighter.fly").unwrap_err()), "unknown fighter method `fighter.fly`");
}

fn projectile(kind: NativeValue) -> Vec<NativeValue> {
    vec![
        kind,
        NativeValue::List(vec![f(1.0), f(2.0), f(0.0)]),
        f(45.0),
        f(3.0),
        NativeValue::Int(30),
        NativeValue::Object(NativeObject { kind: NativeKind::Value, path: "context.neutral.hitboxes".to_owned() }),
        NativeValue::Int(7),
    ]
}

#[test]
fn projectile_emission_arguments() {
    let a = projectile_args(&projectile(s("laser")), 0, 4).unwrap();
    assert_eq!(a.kind, ProjectileKind::FoxLaser);
    assert_eq!(a.hitbox_path, "neutral.hitboxes");
    assert_eq!(a.lifetime, Number::Int(30));
    assert_eq!(projectile_args(&projectile(s("falco_laser")), 0, 4).unwrap().kind, ProjectileKind::FalcoLaser);
    assert_eq!(message(projectile_args(&projectile(s("laser")), 4, 4).unwrap_err()), "projectile emission queue is full");
    assert_eq!(
        message(projectile_args(&projectile(s("laser"))[..6], 0, 4).unwrap_err()),
        "emit_projectile expects kind, position, angle, speed, lifetime, hitboxes, and move_id"
    );
    assert!(message(projectile_args(&projectile(s("rock")), 0, 4).unwrap_err()).starts_with("unknown projectile kind "));
    assert_eq!(message(projectile_args(&projectile(NativeValue::Int(1)), 0, 4).unwrap_err()), "projectile kind must be a string");
    let mut bad = projectile(s("laser"));
    bad[5] = NativeValue::Object(NativeObject { kind: NativeKind::Value, path: "fighter.hitboxes".to_owned() });
    assert_eq!(message(projectile_args(&bad, 0, 4).unwrap_err()), "projectile hitboxes must be a resource handle");
    assert_eq!(projectile_move_id(&NativeValue::Int(7)), Ok(7));
    assert_eq!(message(projectile_move_id(&NativeValue::Int(70_000)).unwrap_err()), "projectile move_id is out of range");
    assert_eq!(message(projectile_move_id(&f(1.0)).unwrap_err()), "projectile move_id must be an integer");
}

#[test]
fn special_effect_arguments() {
    assert_eq!(effect_resource(&[s("effects.spark")]), Ok("effects.spark".to_owned()));
    assert_eq!(message(effect_resource(&[]).unwrap_err()), "spawn_special_effect expects one or two arguments");
    assert_eq!(message(effect_resource(&[s("")]).unwrap_err()), "spawn_special_effect requires a resource path");
    assert_eq!(effect_bone(&[s("e")], Some(3)), Ok(None));
    assert_eq!(effect_bone(&[s("e"), NativeValue::Int(2)], Some(3)), Ok(Some(2)));
    assert_eq!(effect_bone(&[s("e"), NativeValue::Int(9)], None), Ok(Some(9)));
    assert_eq!(message(effect_bone(&[s("e"), NativeValue::Int(3)], Some(3)).unwrap_err()), "effect bone is outside the loaded skeleton");
    assert_eq!(message(effect_bone(&[s("e"), NativeValue::Int(-1)], None).unwrap_err()), "effect bone is out of range");
    assert_eq!(message(effect_bone(&[s("e"), f(1.0)], None).unwrap_err()), "effect bone must be an integer or None");
    assert_eq!(clear_effect_args(&[]), Ok(()));
    assert_eq!(message(clear_effect_args(&[NativeValue::Null]).unwrap_err()), "clear_special_effect expects no arguments");
}

#[test]
fn velocity_and_special_fall_arguments() {
    assert_eq!(
        set_velocity_args(&[NativeValue::Vec2([1.0f32.to_bits(), 2.0f32.to_bits()])]),
        Ok((Number::F32(1.0f32.to_bits()), Number::F32(2.0f32.to_bits())))
    );
    assert_eq!(set_velocity_args(&[NativeValue::Int(1), NativeValue::Int(2)]), Ok((Number::Int(1), Number::Int(2))));
    assert_eq!(message(set_velocity_args(&[NativeValue::Int(1), s("y")]).unwrap_err()), "velocity.y must be a number");
    assert_eq!(fall_special_args(&[f(0.5)]), Ok((Number::F32(0.5f32.to_bits()), None)));
    assert_eq!(fall_special_args(&[f(0.5), NativeValue::Int(8)]), Ok((Number::F32(0.5f32.to_bits()), Some(Number::Int(8)))));
    assert_eq!(message(fall_special_args(&[]).unwrap_err()), "mobility must be a number");
    assert_eq!(landing_special_args(&[NativeValue::Int(20), NativeValue::Int(4)]), Ok((Number::Int(20), Number::Int(4))));
    assert_eq!(message(landing_special_args(&[NativeValue::Int(20)]).unwrap_err()), "landing_lag must be a number");
}

#[test]
fn change_action_arguments() {
    let c = change_action_args(&[s("Wait"), NativeValue::Bool(true), NativeValue::Null], None).unwrap();
    assert_eq!(c.action, Action::Wait);
    assert!(c.preserve_state);
    assert!(!c.keep_frame);
    assert_eq!(c.preserve_fields, None);
    let many = vec![s("Wait"), NativeValue::Null, NativeValue::Null, NativeValue::Null, NativeValue::Null];
    assert_eq!(message(change_action_args(&many, None).unwrap_err()), "fighter.change_action expects at most four arguments");
    assert_eq!(message(change_action_args(&[NativeValue::Int(1)], None).unwrap_err()), "action must be a string");
    assert_eq!(message(change_action_args(&[s("Wait"), NativeValue::Int(1)], None).unwrap_err()), "preserve_state must be a boolean");
    assert_eq!(
        message(change_action_args(&[s("Wait"), NativeValue::Null, s("no")], None).unwrap_err()),
        "keep_frame must be a boolean"
    );
    assert_eq!(message(change_action_args(&[s("Fly")], None).unwrap_err()), "unsupported action `Fly`");
    assert_eq!(
        message(change_action_args(&[s("Wait"), NativeValue::Null, NativeValue::Null, s("x")], None).unwrap_err()),
        "preserve_fields must be a sequence of state field names"
    );
}

#[test]
fn change_action_ownership_plan() {
    let active = Some(selected(1, Action::SpecialN, 3));
    // A preserving change keeps the move its behavior owns.
    assert_eq!(
        change_action_plan(true, 0, None, active, Some(1), true, true),
        Ok(ChangePlan { retains_move: true, staging: MoveStaging::Unchanged })
    );
    // Without preserve_state the callback's behavior is staged as the owner.
    assert_eq!(
        change_action_plan(false, 0, None, active, Some(1), true, true),
        Ok(ChangePlan { retains_move: false, staging: MoveStaging::Stage(1) })
    );
    // A callback of another behavior cannot retain the active move.
    assert_eq!(
        change_action_plan(true, 0, None, active, Some(4), true, false),
        Ok(ChangePlan { retains_move: false, staging: MoveStaging::Unchanged })
    );
    let pending = Some(PendingMoveSelection { behavior_index: 2, canonical: None, lifetime: MoveLifetimeId::from_raw(1) });
    assert_eq!(
        message(change_action_plan(false, 0, pending, active, Some(1), false, true).unwrap_err()),
        "pending move selection belongs to another behavior"
    );
    assert_eq!(
        change_action_plan(false, 0, pending, active, Some(2), false, true),
        Ok(ChangePlan { retains_move: false, staging: MoveStaging::Unchanged })
    );
    assert_eq!(
        message(change_action_plan(false, 8, None, active, Some(1), true, true).unwrap_err()),
        "native action transition queue is full"
    );
}

#[test]
fn motion_binding_arguments() {
    let record = NativeValue::Dict(vec![
        ("cosine".to_owned(), f(1.0)),
        ("facing".to_owned(), NativeValue::Int(-1)),
        ("ground_scale".to_owned(), NativeValue::Int(1)),
        ("sine".to_owned(), f(0.0)),
    ]);
    assert_eq!(
        binding_args(&[record]),
        Ok(BindingArgs {
            facing: Number::Int(-1),
            cosine: Number::F32(1.0f32.to_bits()),
            sine: Number::F32(0.0f32.to_bits()),
            ground_scale: Number::Int(1),
        })
    );
    assert_eq!(message(binding_args(&[NativeValue::Int(1)]).unwrap_err()), "set_motion_binding expects a binding dictionary");
    let partial = NativeValue::Dict(vec![("facing".to_owned(), NativeValue::Int(1))]);
    assert_eq!(message(binding_args(&[partial]).unwrap_err()), "cosine must be a number");
    let odd = NativeValue::Dict(vec![("facing".to_owned(), NativeValue::Int(1)), ("spin".to_owned(), NativeValue::Int(1))]);
    assert_eq!(message(binding_args(&[odd]).unwrap_err()), "unknown motion binding field `spin`");
    let two = vec![NativeValue::Dict(vec![]), NativeValue::Null];
    assert_eq!(message(binding_args(&two).unwrap_err()), "set_motion_binding expects one argument");
}

#[test]
fn refused_values_render_as_the_runtime_prints_them() {
    assert_eq!(render_value(&NativeValue::Null), "None");
    assert_eq!(render_value(&NativeValue::Int(-5)), "Int(-5)");
    assert_eq!(render_value(&NativeValue::Bool(false)), "Bool(false)");
    assert_eq!(render_value(&s("x")), "String(\"x\")");
    assert_eq!(render_value(&NativeValue::List(vec![NativeValue::Null, NativeValue::Int(1)])), "List([None, Int(1)])");
    assert_eq!(
        render_value(&NativeValue::Dict(vec![("a".to_owned(), NativeValue::Bool(true))])),
        "Dict({\"a\": Bool(true)})"
    );
    assert_eq!(
        message(fighter_write("fighter.locomotion.jump_input", &NativeValue::Null).unwrap_err()),
        "locomotion.jump_input expects a string, got None"
    );
    assert_eq!(
        message(fighter_write("fighter.ground_line", &NativeValue::Bool(true)).unwrap_err()),
        "ground_line expects None or an integer, got Bool(true)"
    );
    assert_eq!(
        message(projectile_args(&projectile(s("rock")), 0, 4).unwrap_err()),
        "unknown projectile kind \"rock\""
    );
}

#[test]
fn nested_values_render_item_by_item() {
    let object = NativeValue::Object(NativeObject { kind: NativeKind::Value, path: "context.a\"b".into() });
    assert_eq!(
        render_value(&NativeValue::Tuple(vec![NativeValue::Int(3), object])),
        "Tuple([Int(3), Object(NativeObject { kind: Value, path: \"context.a\\\"b\" })])"
    );
    assert_eq!(render_value(&NativeValue::F32(7)), "F32(7)");
    assert_eq!(render_value(&NativeValue::Vec2([1, 20])), "Vec2([1, 20])");
    assert_eq!(render_value(&NativeValue::List(vec![])), "List([])");
    assert_eq!(
        render_value(&NativeValue::Dict(vec![
            ("a".to_owned(), NativeValue::List(vec![NativeValue::Int(1), NativeValue::Int(2)])),
            ("b\n".to_owned(), NativeValue::Null),
        ])),
        "Dict({\"a\": List([Int(1), Int(2)]), \"b\\n\": None})"
    );
}
