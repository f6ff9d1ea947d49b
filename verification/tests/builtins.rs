use skirmish_script::builtins::{attack_requests, field_path, item_path, length_path, trace_requests, HostCall};
use skirmish_script::builtins::{attack_frames_ok, hitbox_answers_ok, interrupt_ok, trace_answers_ok, trace_counts, trace_row_ok};
use skirmish_script::builtins::{call, call_named, math_request, valid_command_value, Builtin, MathKernel, MathNumber};
use skirmish_script::native::{copy_value, Error, NativeHost, NativeObject, NativeKind, NativeValue};

struct TestHost;

impl NativeHost for TestHost {
    fn get(&mut self, path: &str) -> Result<NativeValue, Error> {
        Err(Error::Host(format!("unexpected get {path}")))
    }

    fn set(&mut self, path: &str, _value: NativeValue) -> Result<(), Error> {
        Err(Error::Host(format!("unexpected set {path}")))
    }

    fn call(&mut self, path: &str, _args: &[NativeValue]) -> Result<NativeValue, Error> {
        Err(Error::Host(format!("unexpected call {path}")))
    }
}

fn f(x: f32) -> NativeValue {
    NativeValue::F32(x.to_bits())
}

fn bool_result(value: Option<Builtin>) -> bool {
    matches!(value, Some(Builtin::Value(NativeValue::Bool(true))))
}

#[test]
fn command_trace_accepts_integral_json_numbers_within_u32_bounds() {
    assert!(valid_command_value(&NativeValue::Null));
    assert!(valid_command_value(&NativeValue::Int(1)));
    assert!(valid_command_value(&f(1.0)));
    assert!(valid_command_value(&f(65_536.0)));
    assert!(!valid_command_value(&f(1.5)));
    assert!(!valid_command_value(&f(-1.0)));
    assert!(!valid_command_value(&f(f32::INFINITY)));
}

#[test]
fn command_values_reject_out_of_range_integers_and_rounded_floats() {
    assert!(valid_command_value(&NativeValue::Int(4_294_967_295)));
    assert!(!valid_command_value(&NativeValue::Int(4_294_967_296)));
    assert!(!valid_command_value(&NativeValue::Int(-1)));
    // 4_294_967_295 rounds up to 2^32 as an f32.
    assert!(!valid_command_value(&f(4_294_967_295.0)));
    assert!(valid_command_value(&f(-0.0)));
    assert!(!valid_command_value(&NativeValue::Bool(true)));
}

#[test]
fn number_preserves_optional_flag_and_bounds() {
    let mut host = TestHost;
    assert!(bool_result(call(&mut host, "validation.number", &[NativeValue::Int(4)]).unwrap()));
    assert!(!bool_result(
        call(&mut host, "validation.number", &[NativeValue::Int(-4), NativeValue::Bool(true)]).unwrap()
    ));
    assert!(!bool_result(call(&mut host, "validation.number", &[f(1_000_001.0)]).unwrap()));
}

#[test]
fn number_refuses_a_non_boolean_flag_and_bad_arity() {
    let mut host = TestHost;
    assert_eq!(
        call(&mut host, "validation.number", &[NativeValue::Int(4), NativeValue::Int(1)]),
        Err(Error::Host("validation.number nonnegative must be a boolean".into()))
    );
    assert_eq!(
        call(&mut host, "validation.number", &[]),
        Err(Error::Host("validation.number expects one or two arguments".into()))
    );
    assert!(bool_result(call(&mut host, "validation.number", &[f(1_000_000.0)]).unwrap()));
    assert!(!bool_result(call(&mut host, "validation.number", &[f(f32::NAN)]).unwrap()));
}

#[test]
fn facing_uses_nonnegative_comparison_for_nan_and_signed_zero() {
    let mut host = TestHost;
    assert_eq!(call(&mut host, "math.facing", &[f(2.0)]).unwrap().unwrap(), Builtin::Value(f(1.0)));
    assert_eq!(call(&mut host, "math.facing", &[f(-0.0)]).unwrap().unwrap(), Builtin::Value(f(1.0)));
    assert_eq!(call(&mut host, "math.facing", &[f(f32::NAN)]).unwrap().unwrap(), Builtin::Value(f(-1.0)));
}

#[test]
fn finite_accepts_integers_and_finite_floats() {
    let mut host = TestHost;
    assert!(bool_result(call(&mut host, "validation.finite", &[NativeValue::Int(7)]).unwrap()));
    assert!(!bool_result(call(&mut host, "validation.finite", &[f(f32::INFINITY)]).unwrap()));
    assert_eq!(
        call(&mut host, "validation.finite", &[]),
        Err(Error::Host("validation.finite expects one argument".into()))
    );
}

#[test]
fn fields_reject_missing_and_malformed_values() {
    let mut host = TestHost;
    let record = NativeValue::Dict(vec![
        ("character".into(), NativeValue::String("test_fighter".into())),
        ("speed".into(), f(2.0)),
    ]);
    let names = NativeValue::List(vec![NativeValue::String("speed".into())]);
    assert!(bool_result(call(&mut host, "validation.fields", &[copy_value(&record), copy_value(&names)]).unwrap()));
    let named = vec![("nonnegative".to_string(), copy_value(&names))];
    assert!(bool_result(
        call_named(&mut host, "validation.fields", std::slice::from_ref(&record), &named).unwrap()
    ));
    let missing = NativeValue::List(vec![NativeValue::String("angle".into())]);
    assert!(!bool_result(call(&mut host, "validation.fields", &[record, missing]).unwrap()));
    assert!(!bool_result(
        call(
            &mut host,
            "validation.fields",
            &[NativeValue::Dict(vec![("speed".into(), NativeValue::String("bad".into()))]), names],
        )
        .unwrap()
    ));
}

#[test]
fn unknown_keyword_arguments_are_refused() {
    let mut host = TestHost;
    let named = vec![("bogus".to_string(), NativeValue::Bool(true))];
    assert_eq!(
        call_named(&mut host, "validation.number", &[NativeValue::Int(1)], &named),
        Err(Error::Host("unknown validation argument `bogus`".into()))
    );
    assert_eq!(call_named(&mut host, "math.facing", &[NativeValue::Int(1)], &named), Ok(None));
    let flag = vec![("nonnegative".to_string(), NativeValue::Bool(true))];
    assert!(!bool_result(call_named(&mut host, "validation.number", &[NativeValue::Int(-1)], &flag).unwrap()));
}

#[test]
fn hitboxes_validate_generic_shape_without_character_fields() {
    let mut host = TestHost;
    let hitbox = NativeValue::Dict(vec![
        ("angle".into(), f(45.0)),
        ("center".into(), NativeValue::List(vec![f(0.0), f(1.0), f(0.0)])),
        ("radius".into(), f(1.0)),
    ]);
    assert!(bool_result(call(&mut host, "validation.hitboxes", &[NativeValue::List(vec![hitbox])]).unwrap()));
    let malformed = NativeValue::Dict(vec![
        ("angle".into(), f(45.0)),
        ("center".into(), NativeValue::List(vec![f(0.0), f(1.0)])),
        ("radius".into(), f(1.0)),
    ]);
    assert!(!bool_result(call(&mut host, "validation.hitboxes", &[NativeValue::List(vec![malformed])]).unwrap()));
}

#[test]
fn attack_refuses_bad_arguments_before_asking_the_host() {
    let mut host = TestHost;
    let context = NativeValue::Object(NativeObject { kind: NativeKind::Value, path: "context".into() });
    assert!(!bool_result(call(&mut host, "validation.attack", &[copy_value(&context), NativeValue::String(String::new())]).unwrap()));
    assert!(!bool_result(call(&mut host, "validation.attack", &[NativeValue::Null, NativeValue::String("a".into())]).unwrap()));
    assert_eq!(
        call(&mut host, "validation.attack", &[context]),
        Err(Error::Host("validation.attack expects context and path".into()))
    );
}

#[test]
fn kernel_requests_decode_their_arguments() {
    let request = math_request("math.atan2", &[f(1.0), NativeValue::Int(2)]).unwrap().unwrap();
    assert_eq!(request.kernel, MathKernel::Atan2);
    assert_eq!(request.args, vec![MathNumber::F32(1.0f32.to_bits()), MathNumber::Int(2)]);
    let xy = math_request(
        "math.angle_xy",
        &[NativeValue::List(vec![f(1.0), f(0.0), f(0.0)]), NativeValue::Vec2([0.0f32.to_bits(), 1.0f32.to_bits()])],
    )
    .unwrap()
    .unwrap();
    assert_eq!(xy.args.len(), 5);
    assert_eq!(
        math_request("math.angle_xy", &[NativeValue::List(vec![f(1.0)]), NativeValue::Vec2([0, 0])]),
        Err(Error::Host("math.angle_xy first vector expects a 3-element vector".into()))
    );
    assert_eq!(
        math_request("math.sin", &[NativeValue::Bool(true)]),
        Err(Error::Host("math.sin expects a number".into()))
    );
    assert_eq!(math_request("math.facing", &[]), Ok(None));
}

#[test]
fn unknown_paths_belong_to_another_namespace() {
    let mut host = TestHost;
    assert_eq!(call(&mut host, "fighter.change_action", &[]), Ok(None));
}

#[test]
fn attack_and_trace_answers() {
    assert!(attack_frames_ok(&NativeValue::Int(1)));
    assert!(attack_frames_ok(&NativeValue::Int(4096)));
    assert!(!attack_frames_ok(&NativeValue::Int(0)));
    assert!(!attack_frames_ok(&NativeValue::Int(4097)));
    assert!(!attack_frames_ok(&f(10.0)));
    assert_eq!(trace_counts(&NativeValue::Int(2), Some(2), Some(2)), Some(2));
    assert_eq!(trace_counts(&NativeValue::Int(2), Some(3), Some(2)), None);
    assert_eq!(trace_counts(&NativeValue::Int(0), Some(0), Some(0)), None);
    let row = vec![NativeValue::Null, NativeValue::Int(4), f(2.0), NativeValue::Int(0)];
    assert!(trace_row_ok(&row));
    assert!(!trace_row_ok(&row[..3]));
    assert!(!trace_row_ok(&[NativeValue::Null, NativeValue::Int(-4), f(2.0), NativeValue::Int(0)]));
    assert!(interrupt_ok(&NativeValue::Bool(false)));
    assert!(!interrupt_ok(&NativeValue::Int(0)));
    let rows = vec![copy_rows(&row), copy_rows(&row)];
    let flags = vec![NativeValue::Bool(true), NativeValue::Bool(false)];
    assert!(trace_answers_ok(&NativeValue::Int(2), Some(2), Some(2), &rows, &flags));
    assert!(!trace_answers_ok(&NativeValue::Int(2), Some(2), Some(2), &rows, &[NativeValue::Bool(true), NativeValue::Int(1)]));
    assert!(!trace_answers_ok(&NativeValue::Int(2), Some(2), Some(2), &rows[..1], &flags[..1]));
}

fn copy_rows(row: &[NativeValue]) -> Vec<NativeValue> {
    row.iter().map(copy_value).collect()
}

#[test]
fn hitbox_answers_from_the_host() {
    let center = vec![f(0.0), NativeValue::Int(1), f(-2.0)];
    let radius = f(3.0);
    let angle = NativeValue::Int(45);
    assert!(hitbox_answers_ok(Some(&radius), Some(&angle), None, Some(3), &center));
    assert!(hitbox_answers_ok(Some(&radius), None, Some(&angle), Some(3), &center));
    assert!(!hitbox_answers_ok(None, Some(&angle), None, Some(3), &center));
    assert!(!hitbox_answers_ok(Some(&f(-1.0)), Some(&angle), None, Some(3), &center));
    assert!(!hitbox_answers_ok(Some(&radius), None, None, Some(3), &center));
    assert!(!hitbox_answers_ok(Some(&radius), Some(&angle), None, Some(2), &center));
    assert!(!hitbox_answers_ok(Some(&radius), Some(&angle), None, Some(3), &[f(0.0), f(f32::NAN), f(0.0)]));
}

struct RecordingHost {
    calls: Vec<(String, Vec<NativeValue>)>,
    valid: bool,
}

impl NativeHost for RecordingHost {
    fn get(&mut self, path: &str) -> Result<NativeValue, Error> {
        Err(Error::Host(format!("unexpected get {path}")))
    }

    fn set(&mut self, path: &str, _value: NativeValue) -> Result<(), Error> {
        Err(Error::Host(format!("unexpected set {path}")))
    }

    fn call(&mut self, path: &str, args: &[NativeValue]) -> Result<NativeValue, Error> {
        self.calls.push((path.to_owned(), args.iter().map(copy_value).collect()));
        if path.ends_with(".validate_attack") {
            Ok(NativeValue::Bool(self.valid))
        } else {
            Ok(NativeValue::Int(12))
        }
    }
}

fn string_call(method: &str, argument: &str) -> HostCall {
    HostCall { method: method.to_owned(), args: vec![NativeValue::String(argument.to_owned())] }
}

#[test]
fn attack_asks_the_context_in_order() {
    let context = NativeObject { kind: NativeKind::Value, path: "fighter.context".into() };
    let (validate, frames) = attack_requests(&context, "attacks.jab");
    assert_eq!(validate, string_call("fighter.context.validate_attack", "attacks.jab"));
    assert_eq!(frames, string_call("fighter.context.frames", "attacks.jab"));

    let mut host = RecordingHost { calls: Vec::new(), valid: true };
    let args = [NativeValue::Object(context.clone()), NativeValue::String("attacks.jab".into())];
    assert!(bool_result(call(&mut host, "validation.attack", &args).unwrap()));
    let asked: Vec<HostCall> = host.calls.into_iter().map(|(method, args)| HostCall { method, args }).collect();
    assert_eq!(asked, vec![validate, frames]);

    let mut refusing = RecordingHost { calls: Vec::new(), valid: false };
    assert!(!bool_result(call(&mut refusing, "validation.attack", &args).unwrap()));
    assert_eq!(refusing.calls.len(), 1);
}

#[test]
fn trace_requests_name_both_paths() {
    let context = NativeObject { kind: NativeKind::Value, path: "ctx".into() };
    let requests = trace_requests(&context, "commands.jab", "poses.jab");
    assert_eq!(requests.resource, string_call("ctx.resource", "commands.jab"));
    assert_eq!(requests.frames, string_call("ctx.frames", "poses.jab"));
    assert_eq!(requests.command_length, string_call("ctx.array_length", "commands.jab"));
    assert_eq!(requests.interrupt_length, string_call("ctx.array_length", "commands.jab.allow_interrupt"));
}

#[test]
fn host_read_paths() {
    assert_eq!(field_path("hitboxes[0]", "radius"), "hitboxes[0].radius");
    assert_eq!(length_path("hitboxes"), "hitboxes.length");
    assert_eq!(item_path("hitboxes", 0), "hitboxes[0]");
    assert_eq!(item_path("rows", 1203), "rows[1203]");
}
