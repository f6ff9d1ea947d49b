//! Writes to `fighter.*` paths: which fighter field a path names and the
//! checked value that is stored there.
//!
//! Numbers stay as written: an integer, which is exact in binary32 within
//! the state limit, or a binary32 bit pattern.  Applying the write (and
//! keeping the movement state in step with the velocity, ground speeds and
//! floor normal) is the caller's part.

use vstd::prelude::*;
use crate::builtins::MAX_NUMBER_INT;
use crate::float_bits::{f32_abs_within_million, f32_abs_within_million_exec, f32_is_finite, f32_is_finite_exec};
use crate::native::{lemma_list_view, render_value, rendering, Error, NativeValue, Val};
use crate::text::{chars_of, concat2, concat3, has_prefix, starts_with, str_eq};

verus! {

/// A number as written by a script.
#[derive(Clone, Copy, Debug, PartialEq, Eq, Structural)]
pub enum Number {
    Int(i64),
    F32(u32),
}

#[derive(Clone, Copy, Debug, PartialEq, Eq, Structural)]
pub enum JumpInput {
    Buttons,
    Stick,
    CStick,
}

/// The local state a `fighter.state.` or `fighter.action_state.` path
/// writes to.
#[derive(Clone, Copy, Debug, PartialEq, Eq, Structural)]
pub enum StateRoot {
    Persistent,
    Action,
}

/// One checked fighter write.
#[derive(Clone, Copy, Debug, PartialEq, Eq, Structural)]
pub enum FighterWrite {
    Position(Number, Number),
    Velocity(Number, Number),
    Knockback(Number, Number),
    Depth(Number),
    GroundVelocity(Number),
    GroundKnockback(Number),
    Facing(Number),
    Percent(Number),
    Hitlag(Number),
    Hitstun(u32),
    Grounded(bool),
    ShortHop(bool),
    FastFall(bool),
    Reflecting(bool),
    ShieldHealth(Number),
    FloorNormal(Number, Number, Number),
    GroundLine(Option<usize>),
    ActionFrame(u32),
    /// The value goes through `state_set` with the root's schema.
    State(StateRoot),
    AerialMobility(Number),
    AerialAllowInterrupt(bool),
    JumpsUsed(u8),
    JumpInput(JumpInput),
}

/// What a write comes to: the write, or a refusal with its message.
pub enum WriteOutcome<T> {
    Done(T),
    Refused(Seq<char>),
}

pub open spec fn out_of_range(name: Seq<char>) -> Seq<char> {
    "invalid "@ + name + ": non-finite or out of range"@
}

/// A number field named `name`: finite and within the state limit.
pub open spec fn number_of(v: Val, name: Seq<char>) -> WriteOutcome<Number> {
    match v {
        Val::Int(i) => if -MAX_NUMBER_INT <= i <= MAX_NUMBER_INT {
            WriteOutcome::Done(Number::Int(i))
        } else {
            WriteOutcome::Refused(out_of_range(name))
        },
        Val::F32(b) => if f32_is_finite(b) && f32_abs_within_million(b) {
            WriteOutcome::Done(Number::F32(b))
        } else {
            WriteOutcome::Refused(out_of_range(name))
        },
        _ => WriteOutcome::Refused(name + " must be a number"@),
    }
}

pub open spec fn pair_of(a: WriteOutcome<Number>, b: WriteOutcome<Number>) -> WriteOutcome<(Number, Number)> {
    match a {
        WriteOutcome::Done(x) => match b {
            WriteOutcome::Done(y) => WriteOutcome::Done((x, y)),
            WriteOutcome::Refused(m) => WriteOutcome::Refused(m),
        },
        WriteOutcome::Refused(m) => WriteOutcome::Refused(m),
    }
}

/// A two-component vector field: a vector value or a list of two numbers.
pub open spec fn vec2_of(v: Val, name: Seq<char>) -> WriteOutcome<(Number, Number)> {
    match v {
        Val::Vec2(x, y) => pair_of(number_of(Val::F32(x), name), number_of(Val::F32(y), name)),
        Val::List(l) => if l.len() == 2 {
            pair_of(number_of(l[0], name), number_of(l[1], name))
        } else {
            WriteOutcome::Refused(name + " must be a two element vector"@)
        },
        _ => WriteOutcome::Refused(name + " must be a two element vector"@),
    }
}

/// A three-component vector field: a list of three numbers.
pub open spec fn vec3_of(v: Val, name: Seq<char>) -> WriteOutcome<(Number, Number, Number)> {
    match v {
        Val::List(l) => if l.len() == 3 {
            match pair_of(number_of(l[0], name), number_of(l[1], name)) {
                WriteOutcome::Done((x, y)) => match number_of(l[2], name) {
                    WriteOutcome::Done(z) => WriteOutcome::Done((x, y, z)),
                    WriteOutcome::Refused(m) => WriteOutcome::Refused(m),
                },
                WriteOutcome::Refused(m) => WriteOutcome::Refused(m),
            }
        } else {
            WriteOutcome::Refused(name + " must be a three element vector"@)
        },
        _ => WriteOutcome::Refused(name + " must be a three element vector"@),
    }
}

/// An integer field that must fit in `0..=max`.
pub open spec fn bounded_int_of(v: Val, name: Seq<char>, max: int) -> WriteOutcome<int> {
    match v {
        Val::Int(i) => if 0 <= i <= max {
            WriteOutcome::Done(i as int)
        } else {
            WriteOutcome::Refused(name + " is out of range"@)
        },
        _ => WriteOutcome::Refused(name + " must be an integer"@),
    }
}

pub open spec fn bool_of(v: Val, name: Seq<char>) -> WriteOutcome<bool> {
    match v {
        Val::Bool(b) => WriteOutcome::Done(b),
        _ => WriteOutcome::Refused(name + " must be a boolean"@),
    }
}

/// A character folded to ASCII lower case, as a code point.
pub open spec fn ascii_lower(c: char) -> u32 {
    if 'A' <= c <= 'Z' {
        (c as u32 + 32) as u32
    } else {
        c as u32
    }
}

/// `s` folded to ASCII lower case equals the lower-case `t`.
pub open spec fn lower_equals(s: Seq<char>, t: Seq<char>) -> bool {
    s.len() == t.len() && forall|i: int| 0 <= i < s.len() ==> ascii_lower(#[trigger] s[i]) == t[i] as u32
}

pub open spec fn ground_line_of(v: Val) -> WriteOutcome<Option<usize>> {
    match v {
        Val::Null => WriteOutcome::Done(None),
        Val::Int(i) => if 0 <= i <= usize::MAX {
            WriteOutcome::Done(Some(i as usize))
        } else {
            WriteOutcome::Refused("ground_line must be a non-negative line id"@)
        },
        _ => WriteOutcome::Refused("ground_line expects None or an integer, got "@ + rendering(v)),
    }
}

pub open spec fn jump_input_of(v: Val) -> WriteOutcome<JumpInput> {
    match v {
        Val::Str(s) => if lower_equals(s, "buttons"@) {
            WriteOutcome::Done(JumpInput::Buttons)
        } else if lower_equals(s, "stick"@) {
            WriteOutcome::Done(JumpInput::Stick)
        } else if lower_equals(s, "c_stick"@) || lower_equals(s, "cstick"@) {
            WriteOutcome::Done(JumpInput::CStick)
        } else {
            WriteOutcome::Refused("locomotion.jump_input is invalid"@)
        },
        _ => WriteOutcome::Refused("locomotion.jump_input expects a string, got "@ + rendering(v)),
    }
}

pub open spec fn map_outcome<A, B>(o: WriteOutcome<A>, f: spec_fn(A) -> B) -> WriteOutcome<B> {
    match o {
        WriteOutcome::Done(a) => WriteOutcome::Done(f(a)),
        WriteOutcome::Refused(m) => WriteOutcome::Refused(m),
    }
}

/// What writing `value` to the fighter path `path` comes to.
pub open spec fn fighter_write_outcome(path: Seq<char>, value: Val) -> WriteOutcome<FighterWrite> {
    if path == "fighter.position"@ {
        map_outcome(vec2_of(value, "position"@), |p: (Number, Number)| FighterWrite::Position(p.0, p.1))
    } else if path == "fighter.velocity"@ {
        map_outcome(vec2_of(value, "velocity"@), |p: (Number, Number)| FighterWrite::Velocity(p.0, p.1))
    } else if path == "fighter.knockback"@ {
        map_outcome(vec2_of(value, "knockback"@), |p: (Number, Number)| FighterWrite::Knockback(p.0, p.1))
    } else if path == "fighter.depth"@ {
        map_outcome(number_of(value, "depth"@), |n: Number| FighterWrite::Depth(n))
    } else if path == "fighter.ground_velocity"@ {
        map_outcome(number_of(value, "ground_velocity"@), |n: Number| FighterWrite::GroundVelocity(n))
    } else if path == "fighter.ground_knockback"@ {
        map_outcome(number_of(value, "ground_knockback"@), |n: Number| FighterWrite::GroundKnockback(n))
    } else if path == "fighter.facing"@ {
        map_outcome(number_of(value, "facing"@), |n: Number| FighterWrite::Facing(n))
    } else if path == "fighter.percent"@ {
        map_outcome(number_of(value, "percent"@), |n: Number| FighterWrite::Percent(n))
    } else if path == "fighter.hitlag"@ {
        map_outcome(number_of(value, "hitlag"@), |n: Number| FighterWrite::Hitlag(n))
    } else if path == "fighter.hitstun"@ {
        map_outcome(bounded_int_of(value, "hitstun"@, u32::MAX as int), |i: int| FighterWrite::Hitstun(i as u32))
    } else if path == "fighter.grounded"@ {
        map_outcome(bool_of(value, "grounded"@), |b: bool| FighterWrite::Grounded(b))
    } else if path == "fighter.short_hop"@ {
        map_outcome(bool_of(value, "short_hop"@), |b: bool| FighterWrite::ShortHop(b))
    } else if path == "fighter.fast_fall"@ {
        map_outcome(bool_of(value, "fast_fall"@), |b: bool| FighterWrite::FastFall(b))
    } else if path == "fighter.flags.reflecting"@ {
        map_outcome(bool_of(value, "flags.reflecting"@), |b: bool| FighterWrite::Reflecting(b))
    } else if path == "fighter.shield.reflecting"@ {
        map_outcome(bool_of(value, "shield.reflecting"@), |b: bool| FighterWrite::Reflecting(b))
    } else if path == "fighter.shield.health"@ {
        map_outcome(number_of(value, "shield.health"@), |n: Number| FighterWrite::ShieldHealth(n))
    } else if path == "fighter.floor_normal"@ {
        map_outcome(vec3_of(value, "floor_normal"@), |p: (Number, Number, Number)| FighterWrite::FloorNormal(p.0, p.1, p.2))
    } else if path == "fighter.ground_line"@ {
        map_outcome(ground_line_of(value), |g: Option<usize>| FighterWrite::GroundLine(g))
    } else if path == "fighter.action_frame"@ {
        map_outcome(bounded_int_of(value, "action_frame"@, u32::MAX as int), |i: int| FighterWrite::ActionFrame(i as u32))
    } else if has_prefix(path, "fighter.state."@) {
        WriteOutcome::Done(FighterWrite::State(StateRoot::Persistent))
    } else if has_prefix(path, "fighter.action_state."@) {
        WriteOutcome::Done(FighterWrite::State(StateRoot::Action))
    } else if path == "fighter.aerial.mobility"@ {
        map_outcome(number_of(value, "aerial.mobility"@), |n: Number| FighterWrite::AerialMobility(n))
    } else if path == "fighter.aerial.allow_interrupt"@ {
        map_outcome(bool_of(value, "aerial.allow_interrupt"@), |b: bool| FighterWrite::AerialAllowInterrupt(b))
    } else if path == "fighter.locomotion.jumps_used"@ {
        map_outcome(bounded_int_of(value, "locomotion.jumps_used"@, u8::MAX as int), |i: int| FighterWrite::JumpsUsed(i as u8))
    } else if path == "fighter.locomotion.jump_input"@ {
        map_outcome(jump_input_of(value), |j: JumpInput| FighterWrite::JumpInput(j))
    } else if path == "fighter.action"@ {
        WriteOutcome::Refused("fighter.action is read-only; use change_action"@)
    } else {
        WriteOutcome::Refused("unsupported fighter write `"@ + path + "`"@)
    }
}

/// `r` is what the outcome `o` says.
pub open spec fn outcome_result<T>(r: Result<T, Error>, o: WriteOutcome<T>) -> bool {
    match o {
        WriteOutcome::Done(t) => r == Ok::<T, Error>(t),
        WriteOutcome::Refused(m) => r matches Err(Error::Host(e)) && e@ == m,
    }
}

/// A number field named `name`, checked as `number_of` says.
pub fn number_value(value: &NativeValue, name: &str) -> (r: Result<Number, Error>)
    ensures
        outcome_result(r, number_of(value@, name@)),
{
    match value {
        NativeValue::Int(i) => if -MAX_NUMBER_INT <= *i && *i <= MAX_NUMBER_INT {
            Ok(Number::Int(*i))
        } else {
            Err(Error::Host(concat3("invalid ", name, ": non-finite or out of range")))
        },
        NativeValue::F32(b) => if f32_is_finite_exec(*b) && f32_abs_within_million_exec(*b) {
            Ok(Number::F32(*b))
        } else {
            Err(Error::Host(concat3("invalid ", name, ": non-finite or out of range")))
        },
        _ => Err(Error::Host(concat2(name, " must be a number"))),
    }
}

/// A two-component vector field named `name`.
pub fn vec2_value(value: &NativeValue, name: &str) -> (r: Result<(Number, Number), Error>)
    ensures
        outcome_result(r, vec2_of(value@, name@)),
{
    match value {
        NativeValue::Vec2(xy) => {
            let x = number_value(&NativeValue::F32(xy[0]), name)?;
            let y = number_value(&NativeValue::F32(xy[1]), name)?;
            Ok((x, y))
        },
        NativeValue::List(l) => {
            if l.len() != 2 {
                return Err(Error::Host(concat2(name, " must be a two element vector")));
            }
            proof {
                lemma_list_view(*value);
            }
            let x = number_value(&l[0], name)?;
            let y = number_value(&l[1], name)?;
            Ok((x, y))
        },
        _ => Err(Error::Host(concat2(name, " must be a two element vector"))),
    }
}

/// A three-component vector field named `name`.
pub fn vec3_value(value: &NativeValue, name: &str) -> (r: Result<(Number, Number, Number), Error>)
    ensures
        outcome_result(r, vec3_of(value@, name@)),
{
    match value {
        NativeValue::List(l) => {
            if l.len() != 3 {
                return Err(Error::Host(concat2(name, " must be a three element vector")));
            }
            proof {
                lemma_list_view(*value);
            }
            let x = number_value(&l[0], name)?;
            let y = number_value(&l[1], name)?;
            let z = number_value(&l[2], name)?;
            Ok((x, y, z))
        },
        _ => Err(Error::Host(concat2(name, " must be a three element vector"))),
    }
}

fn bounded_int(value: &NativeValue, name: &str, max: i64) -> (r: Result<i64, Error>)
    requires
        max >= 0,
    ensures
        match bounded_int_of(value@, name@, max as int) {
            WriteOutcome::Done(i) => r == Ok::<i64, Error>(i as i64),
            WriteOutcome::Refused(m) => r matches Err(Error::Host(e)) && e@ == m,
        },
{
    match value {
        NativeValue::Int(i) => if 0 <= *i && *i <= max {
            Ok(*i)
        } else {
            Err(Error::Host(concat2(name, " is out of range")))
        },
        _ => Err(Error::Host(concat2(name, " must be an integer"))),
    }
}

fn boolean(value: &NativeValue, name: &str) -> (r: Result<bool, Error>)
    ensures
        outcome_result(r, bool_of(value@, name@)),
{
    match value {
        NativeValue::Bool(b) => Ok(*b),
        _ => Err(Error::Host(concat2(name, " must be a boolean"))),
    }
}

/// Whether `s`, folded to ASCII lower case, is `t`.
pub fn lower_eq(s: &str, t: &str) -> (r: bool)
    ensures
        r == lower_equals(s@, t@),
{
    let x = chars_of(s);
    let y = chars_of(t);
    if x.len() != y.len() {
        return false;
    }
    let mut i: usize = 0;
    while i < x.len()
        invariant
            x@ == s@,
            y@ == t@,
            x.len() == y.len(),
            i <= x.len(),
            forall|j: int| 0 <= j < i ==> ascii_lower(#[trigger] x@[j]) == y@[j] as u32,
        decreases x.len() - i,
    {
        let c = x[i];
        let lowered: u32 = if 'A' <= c && c <= 'Z' { c as u32 + 32 } else { c as u32 };
        if lowered != y[i] as u32 {
            assert(ascii_lower(s@[i as int]) != t@[i as int] as u32);
            return false;
        }
        i = i + 1;
    }
    true
}

/// `message` followed by the rendering of `value`.
fn refused_value(message: &str, value: &NativeValue) -> (r: Error)
    ensures
        r matches Error::Host(e) && e@ == message@ + rendering(value@),
{
    let text = render_value(value);
    Error::Host(concat2(message, text.as_str()))
}

fn ground_line(value: &NativeValue) -> (r: Result<Option<usize>, Error>)
    ensures
        outcome_result(r, ground_line_of(value@)),
{
    match value {
        NativeValue::Null => Ok(None),
        NativeValue::Int(i) => {
            if *i < 0 || (*i as u64) > (usize::MAX as u64) {
                return Err(Error::Host("ground_line must be a non-negative line id".to_owned()));
            }
            Ok(Some(*i as usize))
        },
        _ => Err(refused_value("ground_line expects None or an integer, got ", value)),
    }
}

fn jump_input(value: &NativeValue) -> (r: Result<JumpInput, Error>)
    ensures
        outcome_result(r, jump_input_of(value@)),
{
    match value {
        NativeValue::String(s) => {
            if lower_eq(s.as_str(), "buttons") {
                Ok(JumpInput::Buttons)
            } else if lower_eq(s.as_str(), "stick") {
                Ok(JumpInput::Stick)
            } else if lower_eq(s.as_str(), "c_stick") || lower_eq(s.as_str(), "cstick") {
                Ok(JumpInput::CStick)
            } else {
                Err(Error::Host("locomotion.jump_input is invalid".to_owned()))
            }
        },
        _ => Err(refused_value("locomotion.jump_input expects a string, got ", value)),
    }
}

/// The write that storing `value` at the fighter path `path` makes, or why
/// it is refused.
pub fn fighter_write(path: &str, value: &NativeValue) -> (r: Result<FighterWrite, Error>)
    ensures
        outcome_result(r, fighter_write_outcome(path@, value@)),
{
    if str_eq(path, "fighter.position") {
        let (x, y) = vec2_value(value, "position")?;
        Ok(FighterWrite::Position(x, y))
    } else if str_eq(path, "fighter.velocity") {
        let (x, y) = vec2_value(value, "velocity")?;
        Ok(FighterWrite::Velocity(x, y))
    } else if str_eq(path, "fighter.knockback") {
        let (x, y) = vec2_value(value, "knockback")?;
        Ok(FighterWrite::Knockback(x, y))
    } else if str_eq(path, "fighter.depth") {
        Ok(FighterWrite::Depth(number_value(value, "depth")?))
    } else if str_eq(path, "fighter.ground_velocity") {
        Ok(FighterWrite::GroundVelocity(number_value(value, "ground_velocity")?))
    } else if str_eq(path, "fighter.ground_knockback") {
        Ok(FighterWrite::GroundKnockback(number_value(value, "ground_knockback")?))
    } else if str_eq(path, "fighter.facing") {
        Ok(FighterWrite::Facing(number_value(value, "facing")?))
    } else if str_eq(path, "fighter.percent") {
        Ok(FighterWrite::Percent(number_value(value, "percent")?))
    } else if str_eq(path, "fighter.hitlag") {
        Ok(FighterWrite::Hitlag(number_value(value, "hitlag")?))
    } else if str_eq(path, "fighter.hitstun") {
        let i = bounded_int(value, "hitstun", 4_294_967_295)?;
        Ok(FighterWrite::Hitstun(i as u32))
    } else if str_eq(path, "fighter.grounded") {
        Ok(FighterWrite::Grounded(boolean(value, "grounded")?))
    } else if str_eq(path, "fighter.short_hop") {
        Ok(FighterWrite::ShortHop(boolean(value, "short_hop")?))
    } else if str_eq(path, "fighter.fast_fall") {
        Ok(FighterWrite::FastFall(boolean(value, "fast_fall")?))
    } else if str_eq(path, "fighter.flags.reflecting") {
        Ok(FighterWrite::Reflecting(boolean(value, "flags.reflecting")?))
    } else if str_eq(path, "fighter.shield.reflecting") {
        Ok(FighterWrite::Reflecting(boolean(value, "shield.reflecting")?))
    } else if str_eq(path, "fighter.shield.health") {
        Ok(FighterWrite::ShieldHealth(number_value(value, "shield.health")?))
    } else if str_eq(path, "fighter.floor_normal") {
        let (x, y, z) = vec3_value(value, "floor_normal")?;
        Ok(FighterWrite::FloorNormal(x, y, z))
    } else if str_eq(path, "fighter.ground_line") {
        Ok(FighterWrite::GroundLine(ground_line(value)?))
    } else if str_eq(path, "fighter.action_frame") {
        let i = bounded_int(value, "action_frame", 4_294_967_295)?;
        Ok(FighterWrite::ActionFrame(i as u32))
    } else if starts_with(path, "fighter.state.") {
        Ok(FighterWrite::State(StateRoot::Persistent))
    } else if starts_with(path, "fighter.action_state.") {
        Ok(FighterWrite::State(StateRoot::Action))
    } else if str_eq(path, "fighter.aerial.mobility") {
        Ok(FighterWrite::AerialMobility(number_value(value, "aerial.mobility")?))
    } else if str_eq(path, "fighter.aerial.allow_interrupt") {
        Ok(FighterWrite::AerialAllowInterrupt(boolean(value, "aerial.allow_interrupt")?))
    } else if str_eq(path, "fighter.locomotion.jumps_used") {
        let i = bounded_int(value, "locomotion.jumps_used", 255)?;
        Ok(FighterWrite::JumpsUsed(i as u8))
    } else if str_eq(path, "fighter.locomotion.jump_input") {
        Ok(FighterWrite::JumpInput(jump_input(value)?))
    } else if str_eq(path, "fighter.action") {
        Err(Error::Host("fighter.action is read-only; use change_action".to_owned()))
    } else {
        Err(Error::Host(concat3("unsupported fighter write `", path, "`")))
    }
}

} // verus!
