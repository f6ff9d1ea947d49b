//! Native `fighter.*` methods of a lifecycle callback: which method a path
//! names, the decoding of each method's arguments, and the ownership
//! decision an action change makes for the running class move.
//!
//! What only the host holds (resources, effect slots, the fighter's
//! simulation) is looked up or applied by the host between these steps.

use vstd::prelude::*;
use crate::action::{parse_action, spec_parse_action, Action};
use crate::events::MAX_PENDING_TRANSITIONS;
use crate::fighter_writes::{number_of, number_value, outcome_result, Number, WriteOutcome};
use crate::host_state::{decode_preserve_fields, names_of, preserve_outcome, schema_entries, StateSchema};
use crate::lifecycle_calls::{arg_or_null, helper_number};
use crate::native::{lemma_list_view, vals, Error, NativeKind, NativeValue, Val};
use crate::selection::{PendingMoveSelection, SelectedMove};
use crate::text::{concat3, has_prefix, starts_with, str_eq, strip_prefix_text};

verus! {

/// A `fighter.*` method.
#[derive(Clone, Copy, Debug, PartialEq, Eq, Structural)]
pub enum FighterMethod {
    EmitProjectile,
    SpawnSpecialEffect,
    ClearSpecialEffect,
    ChangeAction,
    SetVelocity,
    SetMotionBinding,
    RestorePreLanding,
    MaxJumps,
    EnterFallSpecial,
    EnterLandingSpecial,
    ActionFinished,
}

pub open spec fn fighter_method_of(path: Seq<char>) -> Option<FighterMethod> {
    if path == "fighter.emit_projectile"@ {
        Some(FighterMethod::EmitProjectile)
    } else if path == "fighter.spawn_special_effect"@ {
        Some(FighterMethod::SpawnSpecialEffect)
    } else if path == "fighter.clear_special_effect"@ {
        Some(FighterMethod::ClearSpecialEffect)
    } else if path == "fighter.change_action"@ || path == "context.next_action"@ || path == "next_action"@ {
        Some(FighterMethod::ChangeAction)
    } else if path == "fighter.set_velocity"@ {
        Some(FighterMethod::SetVelocity)
    } else if path == "fighter.set_motion_binding"@ {
        Some(FighterMethod::SetMotionBinding)
    } else if path == "fighter.restore_pre_landing"@ {
        Some(FighterMethod::RestorePreLanding)
    } else if path == "fighter.max_jumps"@ {
        Some(FighterMethod::MaxJumps)
    } else if path == "fighter.enter_fall_special"@ {
        Some(FighterMethod::EnterFallSpecial)
    } else if path == "fighter.enter_landing_special"@ {
        Some(FighterMethod::EnterLandingSpecial)
    } else if path == "fighter.action_finished"@ {
        Some(FighterMethod::ActionFinished)
    } else {
        None
    }
}

/// The `fighter.*` method `path` names; any other path is refused as an
/// unknown fighter method.
pub fn fighter_method(path: &str) -> (r: Result<FighterMethod, Error>)
    ensures
        match fighter_method_of(path@) {
            Some(m) => r == Ok::<FighterMethod, Error>(m),
            None => r matches Err(Error::Host(e)) && e@ == "unknown fighter method `"@ + path@ + "`"@,
        },
{
    if str_eq(path, "fighter.emit_projectile") {
        Ok(FighterMethod::EmitProjectile)
    } else if str_eq(path, "fighter.spawn_special_effect") {
        Ok(FighterMethod::SpawnSpecialEffect)
    } else if str_eq(path, "fighter.clear_special_effect") {
        Ok(FighterMethod::ClearSpecialEffect)
    } else if str_eq(path, "fighter.change_action") || str_eq(path, "context.next_action") || str_eq(path, "next_action") {
        Ok(FighterMethod::ChangeAction)
    } else if str_eq(path, "fighter.set_velocity") {
        Ok(FighterMethod::SetVelocity)
    } else if str_eq(path, "fighter.set_motion_binding") {
        Ok(FighterMethod::SetMotionBinding)
    } else if str_eq(path, "fighter.restore_pre_landing") {
        Ok(FighterMethod::RestorePreLanding)
    } else if str_eq(path, "fighter.max_jumps") {
        Ok(FighterMethod::MaxJumps)
    } else if str_eq(path, "fighter.enter_fall_special") {
        Ok(FighterMethod::EnterFallSpecial)
    } else if str_eq(path, "fighter.enter_landing_special") {
        Ok(FighterMethod::EnterLandingSpecial)
    } else if str_eq(path, "fighter.action_finished") {
        Ok(FighterMethod::ActionFinished)
    } else {
        Err(Error::Host(concat3("unknown fighter method `", path, "`")))
    }
}

pub open spec fn bind<A, B>(o: WriteOutcome<A>, f: spec_fn(A) -> WriteOutcome<B>) -> WriteOutcome<B> {
    match o {
        WriteOutcome::Done(a) => f(a),
        WriteOutcome::Refused(m) => WriteOutcome::Refused(m),
    }
}

// ---------------------------------------------------------------------
// Projectiles
// ---------------------------------------------------------------------

#[derive(Clone, Copy, Debug, PartialEq, Eq, Structural)]
pub enum ProjectileKind {
    FoxLaser,
    FalcoLaser,
}

/// The arguments of `emit_projectile` up to its hitbox resource, which the
/// host then resolves.
#[derive(Debug, PartialEq, Eq)]
pub struct ProjectileArgs {
    pub kind: ProjectileKind,
    pub position: (Number, Number, Number),
    pub angle: Number,
    pub speed: Number,
    pub lifetime: Number,
    /// The hitbox resource path, without its `context.` prefix.
    pub hitbox_path: String,
}

pub open spec fn projectile_kind_of(v: Val) -> WriteOutcome<ProjectileKind> {
    match v {
        Val::Str(s) => if s == "laser"@ || s == "fox_laser"@ {
            WriteOutcome::Done(ProjectileKind::FoxLaser)
        } else if s == "falco_laser"@ {
            WriteOutcome::Done(ProjectileKind::FalcoLaser)
        } else {
            WriteOutcome::Refused("unknown projectile kind "@ + crate::native::str_debug(s))
        },
        _ => WriteOutcome::Refused("projectile kind must be a string"@),
    }
}

/// The hitbox handle: a value object whose path lies under `context.`.
pub open spec fn hitbox_handle_of(v: Val) -> WriteOutcome<Seq<char>> {
    match v {
        Val::Object(p) => if has_prefix(p, "context."@) {
            WriteOutcome::Done(p.subrange(8, p.len() as int))
        } else {
            WriteOutcome::Refused("projectile hitboxes must be a resource handle"@)
        },
        _ => WriteOutcome::Refused("projectile hitboxes must be a resource handle"@),
    }
}

/// What `emit_projectile` decodes before the hitbox resource is resolved,
/// with `pending` projectiles queued and room for `capacity`.
pub open spec fn projectile_outcome(a: Seq<Val>, pending: usize, capacity: usize) -> WriteOutcome<(ProjectileKind, (Number, Number, Number), Number, Number, Number, Seq<char>)> {
    if a.len() != 7 {
        WriteOutcome::Refused("emit_projectile expects kind, position, angle, speed, lifetime, hitboxes, and move_id"@)
    } else if pending >= capacity {
        WriteOutcome::Refused("projectile emission queue is full"@)
    } else {
        bind(projectile_kind_of(a[0]), |k: ProjectileKind|
        bind(crate::fighter_writes::vec3_of(a[1], "projectile position"@), |p: (Number, Number, Number)|
        bind(number_of(a[2], "projectile angle"@), |angle: Number|
        bind(number_of(a[3], "projectile speed"@), |speed: Number|
        bind(number_of(a[4], "projectile lifetime"@), |lifetime: Number|
        bind(hitbox_handle_of(a[5]), |h: Seq<char>|
            WriteOutcome::Done((k, p, angle, speed, lifetime, h))))))))
    }
}

fn projectile_kind(value: &NativeValue) -> (r: Result<ProjectileKind, Error>)
    ensures
        outcome_result(r, projectile_kind_of(value@)),
{
    match value {
        NativeValue::String(s) => {
            if str_eq(s.as_str(), "laser") || str_eq(s.as_str(), "fox_laser") {
                Ok(ProjectileKind::FoxLaser)
            } else if str_eq(s.as_str(), "falco_laser") {
                Ok(ProjectileKind::FalcoLaser)
            } else {
                let text = crate::native::debug_str(s.as_str());
                Err(Error::Host(crate::text::concat2("unknown projectile kind ", text.as_str())))
            }
        },
        _ => Err(Error::Host("projectile kind must be a string".to_owned())),
    }
}

fn hitbox_handle(value: &NativeValue) -> (r: Result<String, Error>)
    ensures
        match hitbox_handle_of(value@) {
            WriteOutcome::Done(p) => r matches Ok(s) && s@ == p,
            WriteOutcome::Refused(m) => r matches Err(Error::Host(e)) && e@ == m,
        },
{
    match value {
        NativeValue::Object(o) => {
            if starts_with(o.path.as_str(), "context.") {
                proof {
                    reveal_strlit("context.");
                }
                let rest = strip_prefix_text(o.path.as_str(), "context.");
                Ok(rest)
            } else {
                Err(Error::Host("projectile hitboxes must be a resource handle".to_owned()))
            }
        },
        _ => Err(Error::Host("projectile hitboxes must be a resource handle".to_owned())),
    }
}

/// Decodes `emit_projectile(kind, position, angle, speed, lifetime,
/// hitboxes, move_id)` up to the hitbox handle, with `pending` projectiles
/// queued and room for `capacity`.
pub fn projectile_args(args: &[NativeValue], pending: usize, capacity: usize) -> (r: Result<ProjectileArgs, Error>)
    ensures
        match projectile_outcome(vals(args@), pending, capacity) {
            WriteOutcome::Done((k, p, angle, speed, lifetime, h)) => r matches Ok(a) && a.kind == k && a.position == p
                && a.angle == angle && a.speed == speed && a.lifetime == lifetime && a.hitbox_path@ == h,
            WriteOutcome::Refused(m) => r matches Err(Error::Host(e)) && e@ == m,
        },
{
    if args.len() != 7 {
        return Err(Error::Host("emit_projectile expects kind, position, angle, speed, lifetime, hitboxes, and move_id".to_owned()));
    }
    if pending >= capacity {
        return Err(Error::Host("projectile emission queue is full".to_owned()));
    }
    let ghost a = vals(args@);
    assert(a[0] == args@[0]@ && a[1] == args@[1]@ && a[2] == args@[2]@);
    assert(a[3] == args@[3]@ && a[4] == args@[4]@ && a[5] == args@[5]@);
    let kind = projectile_kind(&args[0])?;
    let position = crate::fighter_writes::vec3_value(&args[1], "projectile position")?;
    let angle = number_value(&args[2], "projectile angle")?;
    let speed = number_value(&args[3], "projectile speed")?;
    let lifetime = number_value(&args[4], "projectile lifetime")?;
    let hitbox_path = hitbox_handle(&args[5])?;
    Ok(ProjectileArgs { kind, position, angle, speed, lifetime, hitbox_path })
}

/// The `move_id` argument of `emit_projectile`, read after its hitboxes.
pub fn projectile_move_id(value: &NativeValue) -> (r: Result<u16, Error>)
    ensures
        match value@ {
            Val::Int(i) => if 0 <= i <= u16::MAX {
                r == Ok::<u16, Error>(i as u16)
            } else {
                r matches Err(Error::Host(e)) && e@ == "projectile move_id is out of range"@
            },
            _ => r matches Err(Error::Host(e)) && e@ == "projectile move_id must be an integer"@,
        },
{
    match value {
        NativeValue::Int(i) => if 0 <= *i && *i <= 65535 {
            Ok(*i as u16)
        } else {
            Err(Error::Host("projectile move_id is out of range".to_owned()))
        },
        _ => Err(Error::Host("projectile move_id must be an integer".to_owned())),
    }
}

// ---------------------------------------------------------------------
// Special effects
// ---------------------------------------------------------------------

/// The effect resource path of `spawn_special_effect(resource, bone?)`.
pub fn effect_resource(args: &[NativeValue]) -> (r: Result<String, Error>)
    ensures
        !(1 <= args@.len() <= 2) ==> (r matches Err(Error::Host(e)) && e@ == "spawn_special_effect expects one or two arguments"@),
        1 <= args@.len() <= 2 ==> match args@[0]@ {
            Val::Str(s) => if s.len() > 0 {
                r matches Ok(p) && p@ == s
            } else {
                r matches Err(Error::Host(e)) && e@ == "spawn_special_effect requires a resource path"@
            },
            _ => r matches Err(Error::Host(e)) && e@ == "spawn_special_effect requires a resource path"@,
        },
{
    if args.len() < 1 || args.len() > 2 {
        return Err(Error::Host("spawn_special_effect expects one or two arguments".to_owned()));
    }
    match &args[0] {
        NativeValue::String(s) => if s.as_str().unicode_len() > 0 {
            Ok(s.clone())
        } else {
            Err(Error::Host("spawn_special_effect requires a resource path".to_owned()))
        },
        _ => Err(Error::Host("spawn_special_effect requires a resource path".to_owned())),
    }
}

/// The bone an effect attaches to: none, or a `u16` bone index inside the
/// loaded skeleton of `bone_count` bones when one is loaded.
pub open spec fn effect_bone_of(v: Val, bone_count: Option<usize>) -> WriteOutcome<Option<u16>> {
    match v {
        Val::Null => WriteOutcome::Done(None),
        Val::Int(i) => if !(0 <= i <= u16::MAX) {
            WriteOutcome::Refused("effect bone is out of range"@)
        } else if bone_count matches Some(c) && i >= c {
            WriteOutcome::Refused("effect bone is outside the loaded skeleton"@)
        } else {
            WriteOutcome::Done(Some(i as u16))
        },
        _ => WriteOutcome::Refused("effect bone must be an integer or None"@),
    }
}

/// The bone argument of `spawn_special_effect` (a missing one reads as
/// `None`), checked against a loaded skeleton of `bone_count` bones.
pub fn effect_bone(args: &[NativeValue], bone_count: Option<usize>) -> (r: Result<Option<u16>, Error>)
    ensures
        outcome_result(r, effect_bone_of(arg_or_null(vals(args@), 1), bone_count)),
{
    let null = NativeValue::Null;
    let value = if args.len() > 1 { &args[1] } else { &null };
    match value {
        NativeValue::Null => Ok(None),
        NativeValue::Int(i) => {
            if *i < 0 || *i > 65535 {
                return Err(Error::Host("effect bone is out of range".to_owned()));
            }
            let bone = *i as u16;
            if let Some(count) = bone_count {
                if (bone as usize) >= count {
                    return Err(Error::Host("effect bone is outside the loaded skeleton".to_owned()));
                }
            }
            Ok(Some(bone))
        },
        _ => Err(Error::Host("effect bone must be an integer or None".to_owned())),
    }
}

/// `clear_special_effect()` takes no arguments.
pub fn clear_effect_args(args: &[NativeValue]) -> (r: Result<(), Error>)
    ensures
        args@.len() == 0 <==> r is Ok,
        args@.len() != 0 ==> (r matches Err(Error::Host(e)) && e@ == "clear_special_effect expects no arguments"@),
{
    if args.len() != 0 {
        return Err(Error::Host("clear_special_effect expects no arguments".to_owned()));
    }
    Ok(())
}

// ---------------------------------------------------------------------
// Velocity and special falls
// ---------------------------------------------------------------------

/// `set_velocity(v)` with one vector, or `set_velocity(x, y)`.
pub open spec fn set_velocity_of(a: Seq<Val>) -> WriteOutcome<(Number, Number)> {
    if a.len() == 1 {
        crate::fighter_writes::vec2_of(a[0], "velocity"@)
    } else {
        bind(number_of(arg_or_null(a, 0), "velocity.x"@), |x: Number|
        bind(number_of(arg_or_null(a, 1), "velocity.y"@), |y: Number| WriteOutcome::Done((x, y))))
    }
}

pub fn set_velocity_args(args: &[NativeValue]) -> (r: Result<(Number, Number), Error>)
    ensures
        outcome_result(r, set_velocity_of(vals(args@))),
{
    if args.len() == 1 {
        crate::fighter_writes::vec2_value(&args[0], "velocity")
    } else {
        let x = helper_number(args, 0, "velocity.x")?;
        let y = helper_number(args, 1, "velocity.y")?;
        Ok((x, y))
    }
}

/// `enter_fall_special(mobility, landing_lag?)`.
pub open spec fn fall_special_of(a: Seq<Val>) -> WriteOutcome<(Number, Option<Number>)> {
    bind(number_of(arg_or_null(a, 0), "mobility"@), |m: Number|
        if a.len() > 1 {
            bind(number_of(a[1], "landing_lag"@), |l: Number| WriteOutcome::Done((m, Some(l))))
        } else {
            WriteOutcome::Done((m, None))
        })
}

pub fn fall_special_args(args: &[NativeValue]) -> (r: Result<(Number, Option<Number>), Error>)
    ensures
        outcome_result(r, fall_special_of(vals(args@))),
{
    let mobility = helper_number(args, 0, "mobility")?;
    if args.len() > 1 {
        let lag = number_value(&args[1], "landing_lag")?;
        Ok((mobility, Some(lag)))
    } else {
        Ok((mobility, None))
    }
}

/// `enter_landing_special(animation_end, landing_lag)`.
pub open spec fn landing_special_of(a: Seq<Val>) -> WriteOutcome<(Number, Number)> {
    bind(number_of(arg_or_null(a, 0), "animation_end"@), |e: Number|
    bind(number_of(arg_or_null(a, 1), "landing_lag"@), |l: Number| WriteOutcome::Done((e, l))))
}

pub fn landing_special_args(args: &[NativeValue]) -> (r: Result<(Number, Number), Error>)
    ensures
        outcome_result(r, landing_special_of(vals(args@))),
{
    let end = helper_number(args, 0, "animation_end")?;
    let lag = helper_number(args, 1, "landing_lag")?;
    Ok((end, lag))
}

// ---------------------------------------------------------------------
// Action changes
// ---------------------------------------------------------------------

/// The decoded arguments of `change_action(action, preserve_state?,
/// keep_frame?, preserve_fields?)`.
#[derive(Debug)]
pub struct ChangeActionArgs {
    pub action: Action,
    pub preserve_state: bool,
    pub keep_frame: bool,
    pub preserve_fields: Option<Vec<String>>,
}

/// An optional boolean option at argument `i`: absent or `None` reads as
/// `false`.
pub open spec fn flag_of(a: Seq<Val>, i: int, name: Seq<char>) -> WriteOutcome<bool> {
    if i < a.len() && !(a[i] is Null) {
        match a[i] {
            Val::Bool(b) => WriteOutcome::Done(b),
            _ => WriteOutcome::Refused(name + " must be a boolean"@),
        }
    } else {
        WriteOutcome::Done(false)
    }
}

pub open spec fn from_result<T>(r: Result<T, Seq<char>>) -> WriteOutcome<T> {
    match r {
        Ok(t) => WriteOutcome::Done(t),
        Err(m) => WriteOutcome::Refused(m),
    }
}

pub open spec fn schema_view(schema: Option<&StateSchema>) -> Option<Seq<(Seq<char>, crate::host_state::StateField)>> {
    match schema {
        Some(sc) => Some(schema_entries(sc.fields@)),
        None => None,
    }
}

/// What `change_action` decodes from `a`, checking `preserve_fields`
/// against the action-state schema.
pub open spec fn change_action_outcome(a: Seq<Val>, schema: Option<Seq<(Seq<char>, crate::host_state::StateField)>>)
    -> WriteOutcome<(Action, bool, bool, Option<Seq<Seq<char>>>)> {
    if a.len() > 4 {
        WriteOutcome::Refused("fighter.change_action expects at most four arguments"@)
    } else {
        match arg_or_null(a, 0) {
            Val::Str(name) =>
                bind(flag_of(a, 1, "preserve_state"@), |p: bool|
                bind(flag_of(a, 2, "keep_frame"@), |k: bool|
                bind(from_result(preserve_outcome(if a.len() > 3 { Some(a[3]) } else { None }, schema, p)), |f: Option<Seq<Seq<char>>>|
                match spec_parse_action(name) {
                    Some(action) => WriteOutcome::Done((action, p, k, f)),
                    None => WriteOutcome::Refused("unsupported action `"@ + name + "`"@),
                }))),
            _ => WriteOutcome::Refused("action must be a string"@),
        }
    }
}

fn flag(args: &[NativeValue], i: usize, name: &str) -> (r: Result<bool, Error>)
    ensures
        outcome_result(r, flag_of(vals(args@), i as int, name@)),
{
    if i < args.len() {
        match &args[i] {
            NativeValue::Null => Ok(false),
            NativeValue::Bool(b) => Ok(*b),
            _ => Err(Error::Host(crate::text::concat2(name, " must be a boolean"))),
        }
    } else {
        Ok(false)
    }
}

/// Decodes the arguments of `change_action`; `schema` is the action-state
/// schema that `preserve_fields` names must be declared in.
pub fn change_action_args(args: &[NativeValue], schema: Option<&StateSchema>) -> (r: Result<ChangeActionArgs, Error>)
    ensures
        match change_action_outcome(vals(args@), schema_view(schema)) {
            WriteOutcome::Done((action, p, k, f)) => r matches Ok(c) && c.action == action && c.preserve_state == p
                && c.keep_frame == k && match c.preserve_fields {
                    Some(names) => f == Some(names_of(names@)),
                    None => f is None,
                },
            WriteOutcome::Refused(m) => r matches Err(Error::Host(e)) && e@ == m,
        },
{
    if args.len() > 4 {
        return Err(Error::Host("fighter.change_action expects at most four arguments".to_owned()));
    }
    let name = match crate::lifecycle_calls::path_arg(args, "action must be a string") {
        Ok(n) => n,
        Err(e) => return Err(e),
    };
    let preserve_state = flag(args, 1, "preserve_state")?;
    let keep_frame = flag(args, 2, "keep_frame")?;
    let fields_arg = if args.len() > 3 { Some(&args[3]) } else { None };
    let preserve_fields = match decode_preserve_fields(fields_arg, schema, preserve_state) {
        Ok(f) => f,
        Err(Error::Host(m)) => return Err(Error::Host(m)),
        Err(Error::Invalid(m)) => return Err(Error::Invalid(m)),
    };
    let Some(action) = parse_action(name.as_str()) else {
        return Err(Error::Host(concat3("unsupported action `", name.as_str(), "`")));
    };
    Ok(ChangeActionArgs { action, preserve_state, keep_frame, preserve_fields })
}

/// What an action change does to move selection.
#[derive(Clone, Copy, Debug, PartialEq, Eq, Structural)]
pub enum MoveStaging {
    /// Selection is left as it is.
    Unchanged,
    /// The callback's behavior is staged as the owner of the new action.
    Stage(usize),
}

/// The move-ownership decision of an action change.
#[derive(Clone, Copy, Debug, PartialEq, Eq, Structural)]
pub struct ChangePlan {
    /// The running class move keeps ownership across the change.
    pub retains_move: bool,
    pub staging: MoveStaging,
}

/// The running move is retained when the change preserves state, no other
/// selection is staged, and the active move's behavior (which must be the
/// callback's own, when the callback has one) owns the new action.
pub open spec fn retains_move_of(
    preserve_state: bool,
    pending_selection: Option<PendingMoveSelection>,
    active_move: Option<SelectedMove>,
    callback_owner: Option<usize>,
    active_owns_action: bool,
) -> bool {
    &&& preserve_state
    &&& pending_selection is None
    &&& active_move matches Some(owner)
    &&& (callback_owner is None || callback_owner == Some(owner.behavior_index))
    &&& active_owns_action
}

/// The move-ownership decision of an action change, given the number of
/// transitions already queued, the staged selection, the active move, the
/// behavior running the callback, whether the active move's behavior owns
/// the new action, and whether the callback's behavior is a registered
/// move that owns it.
pub open spec fn change_plan_of(
    preserve_state: bool,
    queued_transitions: usize,
    pending_selection: Option<PendingMoveSelection>,
    active_move: Option<SelectedMove>,
    callback_owner: Option<usize>,
    active_owns_action: bool,
    callback_owns_action: bool,
) -> Result<ChangePlan, Seq<char>> {
    if queued_transitions >= MAX_PENDING_TRANSITIONS {
        Err("native action transition queue is full"@)
    } else {
        let retains = retains_move_of(preserve_state, pending_selection, active_move, callback_owner, active_owns_action);
        match callback_owner {
            Some(owner) => if callback_owns_action && !retains {
                match pending_selection {
                    Some(pending) => if pending.behavior_index != owner {
                        Err("pending move selection belongs to another behavior"@)
                    } else {
                        Ok(ChangePlan { retains_move: retains, staging: MoveStaging::Unchanged })
                    },
                    None => Ok(ChangePlan { retains_move: retains, staging: MoveStaging::Stage(owner) }),
                }
            } else {
                Ok(ChangePlan { retains_move: retains, staging: MoveStaging::Unchanged })
            },
            None => Ok(ChangePlan { retains_move: retains, staging: MoveStaging::Unchanged }),
        }
    }
}

/// Decides move retention and owner staging for an action change.
pub fn change_action_plan(
    preserve_state: bool,
    queued_transitions: usize,
    pending_selection: Option<PendingMoveSelection>,
    active_move: Option<SelectedMove>,
    callback_owner: Option<usize>,
    active_owns_action: bool,
    callback_owns_action: bool,
) -> (r: Result<ChangePlan, Error>)
    ensures
        match change_plan_of(preserve_state, queued_transitions, pending_selection, active_move, callback_owner,
            active_owns_action, callback_owns_action) {
            Ok(plan) => r == Ok::<ChangePlan, Error>(plan),
            Err(m) => r matches Err(Error::Host(e)) && e@ == m,
        },
{
    if queued_transitions >= MAX_PENDING_TRANSITIONS {
        return Err(Error::Host("native action transition queue is full".to_owned()));
    }
    let callback_matches = |owner: SelectedMove| -> (b: bool)
        ensures
            b == (callback_owner is None || callback_owner == Some(owner.behavior_index)),
    {
        match callback_owner {
            None => true,
            Some(c) => c == owner.behavior_index,
        }
    };
    let retains = preserve_state && pending_selection.is_none() && match active_move {
        Some(owner) => callback_matches(owner) && active_owns_action,
        None => false,
    };
    let staging = match callback_owner {
        Some(owner) => if callback_owns_action && !retains {
            match pending_selection {
                Some(pending) => if pending.behavior_index != owner {
                    return Err(Error::Host("pending move selection belongs to another behavior".to_owned()));
                } else {
                    MoveStaging::Unchanged
                },
                None => MoveStaging::Stage(owner),
            }
        } else {
            MoveStaging::Unchanged
        },
        None => MoveStaging::Unchanged,
    };
    Ok(ChangePlan { retains_move: retains, staging })
}

// ---------------------------------------------------------------------
// Motion bindings
// ---------------------------------------------------------------------

/// The four numbers of a motion binding.
#[derive(Clone, Copy, Debug, PartialEq, Eq, Structural)]
pub struct BindingArgs {
    pub facing: Number,
    pub cosine: Number,
    pub sine: Number,
    pub ground_scale: Number,
}

pub open spec fn binding_field(name: Seq<char>) -> bool {
    name == "facing"@ || name == "cosine"@ || name == "sine"@ || name == "ground_scale"@
}

/// Entry `name` of a record, or `None` (`Null`) when it is missing.
pub open spec fn entry_or_null(entries: Seq<(Seq<char>, Val)>, name: Seq<char>) -> Val {
    match crate::native::dict_get(entries, name) {
        Some(v) => v,
        None => Val::Null,
    }
}

/// `set_motion_binding(binding)`: one record whose entries are among
/// `facing`, `cosine`, `sine` and `ground_scale`; a missing one reads as
/// `None` and is refused as a non-number.
pub open spec fn binding_args_of(a: Seq<Val>) -> WriteOutcome<BindingArgs> {
    if !(a.len() >= 1 && a[0] is Dict) {
        WriteOutcome::Refused("set_motion_binding expects a binding dictionary"@)
    } else if a.len() != 1 {
        WriteOutcome::Refused("set_motion_binding expects one argument"@)
    } else {
        let entries = a[0]->Dict_0;
        if exists|i: int| 0 <= i < entries.len() && !binding_field(#[trigger] entries[i].0) {
            let i = choose|i: int| 0 <= i < entries.len() && !binding_field(#[trigger] entries[i].0)
                && forall|j: int| 0 <= j < i ==> binding_field(#[trigger] entries[j].0);
            WriteOutcome::Refused("unknown motion binding field `"@ + entries[i].0 + "`"@)
        } else {
            bind(number_of(entry_or_null(entries, "facing"@), "facing"@), |f: Number|
            bind(number_of(entry_or_null(entries, "cosine"@), "cosine"@), |c: Number|
            bind(number_of(entry_or_null(entries, "sine"@), "sine"@), |s: Number|
            bind(number_of(entry_or_null(entries, "ground_scale"@), "ground_scale"@), |g: Number|
                WriteOutcome::Done(BindingArgs { facing: f, cosine: c, sine: s, ground_scale: g })))))
        }
    }
}

fn binding_number(entries: &Vec<(String, NativeValue)>, name: &str) -> (r: Result<Number, Error>)
    ensures
        outcome_result(r, number_of(entry_or_null(crate::native::vals_dict(entries@), name@), name@)),
{
    match crate::native::dict_lookup(entries, name) {
        Some(v) => number_value(&v, name),
        None => number_value(&NativeValue::Null, name),
    }
}

/// Decodes the argument of `set_motion_binding`.
pub fn binding_args(args: &[NativeValue]) -> (r: Result<BindingArgs, Error>)
    ensures
        outcome_result(r, binding_args_of(vals(args@))),
{
    if args.len() < 1 {
        return Err(Error::Host("set_motion_binding expects a binding dictionary".to_owned()));
    }
    let entries = match &args[0] {
        NativeValue::Dict(entries) => entries,
        _ => return Err(Error::Host("set_motion_binding expects a binding dictionary".to_owned())),
    };
    proof {
        crate::native::lemma_dict_view(args@[0]);
    }
    if args.len() != 1 {
        return Err(Error::Host("set_motion_binding expects one argument".to_owned()));
    }
    let ghost d = crate::native::vals_dict(entries@);
    assert(vals(args@)[0] == Val::Dict(d));
    let mut i: usize = 0;
    while i < entries.len()
        invariant
            i <= entries@.len(),
            d == crate::native::vals_dict(entries@),
            args@.len() == 1,
            vals(args@)[0] == Val::Dict(d),
            forall|j: int| 0 <= j < i ==> binding_field(#[trigger] d[j].0),
        decreases entries@.len() - i,
    {
        let name = entries[i].0.as_str();
        if !(str_eq(name, "facing") || str_eq(name, "cosine") || str_eq(name, "sine") || str_eq(name, "ground_scale")) {
            proof {
                assert(name@ == d[i as int].0);
                assert(!binding_field(d[i as int].0));
                let k = choose|k: int| 0 <= k < d.len() && !binding_field(#[trigger] d[k].0)
                    && forall|j: int| 0 <= j < k ==> binding_field(#[trigger] d[j].0);
                if k < i {
                    assert(binding_field(d[k].0));
                } else if k > i {
                    assert(binding_field(d[i as int].0));
                }
            }
            return Err(Error::Host(concat3("unknown motion binding field `", name, "`")));
        }
        i = i + 1;
    }
    let facing = binding_number(entries, "facing")?;
    let cosine = binding_number(entries, "cosine")?;
    let sine = binding_number(entries, "sine")?;
    let ground_scale = binding_number(entries, "ground_scale")?;
    Ok(BindingArgs { facing, cosine, sine, ground_scale })
}

} // verus!
