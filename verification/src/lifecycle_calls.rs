//! Native method calls of a lifecycle callback that the generic builtins do
//! not answer: which handler a method path reaches, and the decoding of
//! the arguments of the movement, input, pass and resource helpers.
//!
//! The handlers themselves (floating-point movement steps, controller
//! reads, resource lookups) belong to the host.

use vstd::prelude::*;
use crate::action::{parse_action, spec_parse_action, Action};
use crate::fighter_writes::{ascii_lower, number_of, outcome_result, Number, WriteOutcome};
use crate::native::{Error, NativeValue, Val};
use crate::text::{chars_of, concat2, concat3, ends_with, has_prefix, has_suffix, starts_with, str_eq};

verus! {

/// The handler a lifecycle method path reaches.
#[derive(Clone, Copy, Debug, PartialEq, Eq, Structural)]
pub enum LifecycleRoute {
    /// `next_action`: a `fighter.change_action` call with the same arguments.
    ChangeAction,
    /// A `fighter.*` method.
    Fighter,
    Fall,
    FrictionAir,
    DriftClamp,
    DriftOrFriction,
    JumpInput,
    AerialJump,
    PassAs,
    JustPressed,
    Held,
    Resource,
    Frames,
    ValidateAttack,
    ArrayLength,
    Sample,
}

pub open spec fn either(path: Seq<char>, name: Seq<char>) -> bool {
    path == "context."@ + name || path == name
}

pub open spec fn suffix_or(path: Seq<char>, name: Seq<char>) -> bool {
    has_suffix(path, "."@ + name) || path == name
}

/// The handler for `path`, or `None` for an unknown method.
pub open spec fn route_of(path: Seq<char>) -> Option<LifecycleRoute> {
    if either(path, "next_action"@) {
        Some(LifecycleRoute::ChangeAction)
    } else if has_prefix(path, "fighter."@) {
        Some(LifecycleRoute::Fighter)
    } else if either(path, "fall"@) {
        Some(LifecycleRoute::Fall)
    } else if either(path, "friction_air"@) {
        Some(LifecycleRoute::FrictionAir)
    } else if either(path, "drift_clamp"@) {
        Some(LifecycleRoute::DriftClamp)
    } else if either(path, "drift_or_friction"@) {
        Some(LifecycleRoute::DriftOrFriction)
    } else if either(path, "jump_input"@) {
        Some(LifecycleRoute::JumpInput)
    } else if either(path, "aerial_jump"@) {
        Some(LifecycleRoute::AerialJump)
    } else if either(path, "pass_as"@) {
        Some(LifecycleRoute::PassAs)
    } else if either(path, "input.just_pressed"@) {
        Some(LifecycleRoute::JustPressed)
    } else if either(path, "input.held"@) {
        Some(LifecycleRoute::Held)
    } else if either(path, "resource"@) {
        Some(LifecycleRoute::Resource)
    } else if suffix_or(path, "frames"@) {
        Some(LifecycleRoute::Frames)
    } else if suffix_or(path, "validate_attack"@) {
        Some(LifecycleRoute::ValidateAttack)
    } else if suffix_or(path, "array_length"@) {
        Some(LifecycleRoute::ArrayLength)
    } else if suffix_or(path, "sample"@) {
        Some(LifecycleRoute::Sample)
    } else {
        None
    }
}

fn is_either(path: &str, name: &str) -> (r: bool)
    ensures
        r == either(path@, name@),
{
    let full = concat2("context.", name);
    str_eq(path, full.as_str()) || str_eq(path, name)
}

fn is_suffix_or(path: &str, name: &str) -> (r: bool)
    ensures
        r == suffix_or(path@, name@),
{
    let dotted = concat2(".", name);
    ends_with(path, dotted.as_str()) || str_eq(path, name)
}

/// The handler a lifecycle method path reaches; an unknown path is refused
/// as `unknown native method`.
pub fn lifecycle_route(path: &str) -> (r: Result<LifecycleRoute, Error>)
    ensures
        match route_of(path@) {
            Some(route) => r == Ok::<LifecycleRoute, Error>(route),
            None => r matches Err(Error::Host(m)) && m@ == "unknown native method `"@ + path@ + "`"@,
        },
{
    let route = if is_either(path, "next_action") {
        LifecycleRoute::ChangeAction
    } else if starts_with(path, "fighter.") {
        LifecycleRoute::Fighter
    } else if is_either(path, "fall") {
        LifecycleRoute::Fall
    } else if is_either(path, "friction_air") {
        LifecycleRoute::FrictionAir
    } else if is_either(path, "drift_clamp") {
        LifecycleRoute::DriftClamp
    } else if is_either(path, "drift_or_friction") {
        LifecycleRoute::DriftOrFriction
    } else if is_either(path, "jump_input") {
        LifecycleRoute::JumpInput
    } else if is_either(path, "aerial_jump") {
        LifecycleRoute::AerialJump
    } else if is_either(path, "pass_as") {
        LifecycleRoute::PassAs
    } else if is_either(path, "input.just_pressed") {
        LifecycleRoute::JustPressed
    } else if is_either(path, "input.held") {
        LifecycleRoute::Held
    } else if is_either(path, "resource") {
        LifecycleRoute::Resource
    } else if is_suffix_or(path, "frames") {
        LifecycleRoute::Frames
    } else if is_suffix_or(path, "validate_attack") {
        LifecycleRoute::ValidateAttack
    } else if is_suffix_or(path, "array_length") {
        LifecycleRoute::ArrayLength
    } else if is_suffix_or(path, "sample") {
        LifecycleRoute::Sample
    } else {
        return Err(Error::Host(concat3("unknown native method `", path, "`")));
    };
    Ok(route)
}

/// Argument `i`, or `None` (`Null`) when it is missing.
pub open spec fn arg_or_null(a: Seq<Val>, i: int) -> Val {
    if 0 <= i < a.len() {
        a[i]
    } else {
        Val::Null
    }
}

/// A numeric helper argument named `name`: argument `index` (missing reads
/// as `None`), finite and within the state limit.
pub fn helper_number(args: &[NativeValue], index: usize, name: &str) -> (r: Result<Number, Error>)
    ensures
        outcome_result(r, number_of(arg_or_null(crate::native::vals(args@), index as int), name@)),
{
    if index < args.len() {
        crate::fighter_writes::number_value(&args[index], name)
    } else {
        crate::fighter_writes::number_value(&NativeValue::Null, name)
    }
}

/// The first argument as a string path, or the error `message`.
pub fn path_arg(args: &[NativeValue], message: &str) -> (r: Result<String, Error>)
    ensures
        match arg_or_null(crate::native::vals(args@), 0) {
            Val::Str(s) => r matches Ok(p) && p@ == s,
            _ => r matches Err(Error::Host(m)) && m@ == message@,
        },
{
    if args.len() >= 1 {
        if let NativeValue::String(s) = &args[0] {
            return Ok(s.clone());
        }
    }
    Err(Error::Host(message.to_owned()))
}

/// A non-negative integer argument that fits in `usize`.
pub open spec fn index_of(v: Val) -> Option<usize> {
    match v {
        Val::Int(i) => if 0 <= i <= usize::MAX { Some(i as usize) } else { None },
        _ => None,
    }
}

/// Argument `index` as a non-negative index, if it is one.
pub fn index_arg(args: &[NativeValue], index: usize) -> (r: Option<usize>)
    ensures
        r == index_of(arg_or_null(crate::native::vals(args@), index as int)),
{
    if index < args.len() {
        if let NativeValue::Int(i) = &args[index] {
            if *i >= 0 && (*i as u64) <= (usize::MAX as u64) {
                return Some(*i as usize);
            }
        }
    }
    None
}

/// The decoded arguments of `pass_as`.
#[derive(Clone, Copy, Debug, PartialEq, Eq, Structural)]
pub struct PassArgs {
    pub velocity: Number,
    pub destination: Action,
    pub keep_frame: bool,
}

/// `pass_as(destination?, velocity, keep_frame?)`: when the first argument
/// is a string it names the destination and the velocity follows; else
/// the velocity comes first and the destination second.
pub open spec fn pass_args_of(a: Seq<Val>) -> WriteOutcome<PassArgs> {
    let first_is_name = a.len() >= 1 && a[0] is Str;
    let destination = if first_is_name { 0int } else { 1int };
    let velocity = if first_is_name { 1int } else { 0int };
    match number_of(arg_or_null(a, velocity), "pass velocity"@) {
        WriteOutcome::Done(v) => {
            let dest: WriteOutcome<Action> = if destination < a.len() {
                match a[destination] {
                    Val::Str(name) => match spec_parse_action(name) {
                        Some(action) => WriteOutcome::Done(action),
                        None => WriteOutcome::Refused("unsupported pass action"@),
                    },
                    _ => WriteOutcome::Refused("action must be a string"@),
                }
            } else {
                WriteOutcome::Done(Action::Pass)
            };
            match dest {
                WriteOutcome::Done(action) => if a.len() > 2 {
                    match a[2] {
                        Val::Bool(b) => WriteOutcome::Done(PassArgs { velocity: v, destination: action, keep_frame: b }),
                        _ => WriteOutcome::Refused("keep_frame must be a boolean"@),
                    }
                } else {
                    WriteOutcome::Done(PassArgs { velocity: v, destination: action, keep_frame: false })
                },
                WriteOutcome::Refused(m) => WriteOutcome::Refused(m),
            }
        },
        WriteOutcome::Refused(m) => WriteOutcome::Refused(m),
    }
}

/// Decodes the arguments of `pass_as`.
pub fn pass_args(args: &[NativeValue]) -> (r: Result<PassArgs, Error>)
    ensures
        outcome_result(r, pass_args_of(crate::native::vals(args@))),
{
    let first_is_name = args.len() >= 1 && matches!(&args[0], NativeValue::String(_));
    let (destination, velocity): (usize, usize) = if first_is_name { (0, 1) } else { (1, 0) };
    let v = helper_number(args, velocity, "pass velocity")?;
    let action = if destination < args.len() {
        match &args[destination] {
            NativeValue::String(name) => match parse_action(name.as_str()) {
                Some(action) => action,
                None => return Err(Error::Host("unsupported pass action".to_owned())),
            },
            _ => return Err(Error::Host("action must be a string".to_owned())),
        }
    } else {
        Action::Pass
    };
    let keep_frame = if args.len() > 2 {
        match &args[2] {
            NativeValue::Bool(b) => *b,
            _ => return Err(Error::Host("keep_frame must be a boolean".to_owned())),
        }
    } else {
        false
    };
    Ok(PassArgs { velocity: v, destination: action, keep_frame })
}

/// A controller button by name.
#[derive(Clone, Copy, Debug, PartialEq, Eq, Structural)]
pub enum ButtonName {
    A,
    B,
    Z,
    L,
    R,
    X,
    Y,
    DpadLeft,
    DpadRight,
    DpadDown,
    DpadUp,
}

/// The button argument of an input query: a raw mask or a named button.
#[derive(Clone, Copy, Debug, PartialEq, Eq, Structural)]
pub enum ButtonArg {
    Mask(u16),
    Named(ButtonName),
}

/// A character folded to ASCII upper case, as a code point.
pub open spec fn ascii_upper(c: char) -> u32 {
    if 'a' <= c <= 'z' {
        (c as u32 - 32) as u32
    } else {
        c as u32
    }
}

/// `s` folded to ASCII upper case equals the upper-case `t`.
pub open spec fn upper_equals(s: Seq<char>, t: Seq<char>) -> bool {
    s.len() == t.len() && forall|i: int| 0 <= i < s.len() ==> ascii_upper(#[trigger] s[i]) == t[i] as u32
}

pub open spec fn button_name_of(s: Seq<char>) -> Option<ButtonName> {
    if upper_equals(s, "A"@) {
        Some(ButtonName::A)
    } else if upper_equals(s, "B"@) {
        Some(ButtonName::B)
    } else if upper_equals(s, "Z"@) {
        Some(ButtonName::Z)
    } else if upper_equals(s, "L"@) {
        Some(ButtonName::L)
    } else if upper_equals(s, "R"@) {
        Some(ButtonName::R)
    } else if upper_equals(s, "X"@) {
        Some(ButtonName::X)
    } else if upper_equals(s, "Y"@) {
        Some(ButtonName::Y)
    } else if upper_equals(s, "DPAD_LEFT"@) {
        Some(ButtonName::DpadLeft)
    } else if upper_equals(s, "DPAD_RIGHT"@) {
        Some(ButtonName::DpadRight)
    } else if upper_equals(s, "DPAD_DOWN"@) {
        Some(ButtonName::DpadDown)
    } else if upper_equals(s, "DPAD_UP"@) {
        Some(ButtonName::DpadUp)
    } else {
        None
    }
}

/// The button of an input query, from its first argument.
pub open spec fn button_arg_of(a: Seq<Val>) -> WriteOutcome<ButtonArg> {
    if a.len() == 0 {
        WriteOutcome::Refused("input query requires a button"@)
    } else {
        match a[0] {
            Val::Int(i) => if 0 <= i <= u16::MAX {
                WriteOutcome::Done(ButtonArg::Mask(i as u16))
            } else {
                WriteOutcome::Refused("button mask is out of range"@)
            },
            Val::Str(name) => match button_name_of(name) {
                Some(b) => WriteOutcome::Done(ButtonArg::Named(b)),
                None => WriteOutcome::Refused("unknown button `"@ + name + "`"@),
            },
            _ => WriteOutcome::Refused("button must be a name or mask"@),
        }
    }
}

/// Whether `s`, folded to ASCII upper case, is `t`.
pub fn upper_eq(s: &str, t: &str) -> (r: bool)
    ensures
        r == upper_equals(s@, t@),
{
    let x = chars_of(s);
    let y = chars_of(t);
    if x.len() != y.len() {
        return false;
    }
    let mut i: usize = 0;
    while i < x.len()
        invariant
            x@ == s@,
            y@ == t@,
            x.len() == y.len(),
            i <= x.len(),
            forall|j: int| 0 <= j < i ==> ascii_upper(#[trigger] x@[j]) == y@[j] as u32,
        decreases x.len() - i,
    {
        let c = x[i];
        let raised: u32 = if 'a' <= c && c <= 'z' { c as u32 - 32 } else { c as u32 };
        if raised != y[i] as u32 {
            assert(ascii_upper(s@[i as int]) != t@[i as int] as u32);
            return false;
        }
        i = i + 1;
    }
    true
}

fn button_name(s: &str) -> (r: Option<ButtonName>)
    ensures
        r == button_name_of(s@),
{
    if upper_eq(s, "A") {
        Some(ButtonName::A)
    } else if upper_eq(s, "B") {
        Some(ButtonName::B)
    } else if upper_eq(s, "Z") {
        Some(ButtonName::Z)
    } else if upper_eq(s, "L") {
        Some(ButtonName::L)
    } else if upper_eq(s, "R") {
        Some(ButtonName::R)
    } else if upper_eq(s, "X") {
        Some(ButtonName::X)
    } else if upper_eq(s, "Y") {
        Some(ButtonName::Y)
    } else if upper_eq(s, "DPAD_LEFT") {
        Some(ButtonName::DpadLeft)
    } else if upper_eq(s, "DPAD_RIGHT") {
        Some(ButtonName::DpadRight)
    } else if upper_eq(s, "DPAD_DOWN") {
        Some(ButtonName::DpadDown)
    } else if upper_eq(s, "DPAD_UP") {
        Some(ButtonName::DpadUp)
    } else {
        None
    }
}

/// Decodes the button argument of `input.just_pressed` / `input.held`.
pub fn button_arg(args: &[NativeValue]) -> (r: Result<ButtonArg, Error>)
    ensures
        outcome_result(r, button_arg_of(crate::native::vals(args@))),
{
    if args.len() == 0 {
        return Err(Error::Host("input query requires a button".to_owned()));
    }
    match &args[0] {
        NativeValue::Int(i) => if 0 <= *i && *i <= 65535 {
            Ok(ButtonArg::Mask(*i as u16))
        } else {
            Err(Error::Host("button mask is out of range".to_owned()))
        },
        NativeValue::String(name) => match button_name(name.as_str()) {
            Some(b) => Ok(ButtonArg::Named(b)),
            None => Err(Error::Host(concat3("unknown button `", name.as_str(), "`"))),
        },
        _ => Err(Error::Host("button must be a name or mask".to_owned())),
    }
}

} // verus!
