//! Generic, bounded native helpers shared by lifecycle and resource hosts.
//!
//! These helpers know only the validation ABI.  Resource names, fighter
//! identities and attack representations remain owned by the host; object
//! and sequence values are resolved through `NativeHost` paths so a
//! validation pass does not clone the cached resource tree.  Plain data
//! (records and lists) is inspected directly, and for it the outcome of each
//! builtin is stated exactly.
//!
//! The floating-point kernels `math.sin`, `math.cos`, `math.atan2` and
//! `math.angle_xy` are computed by the host; `math_request` decodes and
//! checks their arguments.

use vstd::prelude::*;
use crate::float_bits::{
    f32_abs_within_million, f32_abs_within_million_exec, f32_is_finite, f32_is_finite_exec,
    f32_is_zero, f32_is_zero_exec, f32_nonnegative, f32_nonnegative_exec, f32_positive,
    f32_positive_exec, f32_whole_u32, f32_whole_value, F32_MINUS_ONE, F32_ONE,
};
use crate::native::{
    copy_value, copy_values, dict_get, dict_lookup, lemma_dict_view, lemma_list_view, names_ascending, vals,
    vals_dict, Error, NativeHost, NativeObject, NativeValue, Val,
};
use crate::text::{concat2, concat3, decimal_string, decimal_text, str_eq};

verus! {

pub const MAX_ATTACK_FRAMES: i64 = 4_096;
pub const MAX_COMMAND_VALUE: i64 = 4_294_967_295;
pub const MAX_NUMBER_INT: i64 = 1_000_000;

/// How a numeric field is checked.
#[derive(Clone, Copy, Debug, PartialEq, Eq, Structural)]
pub enum FieldMode {
    Finite,
    Nonnegative,
    Positive,
    Nonzero,
}

/// A finite number whose magnitude is at most one million and which meets
/// `mode`.  An integer is read as the `f32` nearest to it, which keeps its
/// sign, its zeroness and its comparison with one million.
pub open spec fn numeric_check(v: Val, mode: FieldMode) -> bool {
    match v {
        Val::Int(i) => -MAX_NUMBER_INT <= i <= MAX_NUMBER_INT && match mode {
            FieldMode::Finite => true,
            FieldMode::Nonnegative => i >= 0,
            FieldMode::Positive => i > 0,
            FieldMode::Nonzero => i != 0,
        },
        Val::F32(b) => f32_is_finite(b) && f32_abs_within_million(b) && match mode {
            FieldMode::Finite => true,
            FieldMode::Nonnegative => f32_nonnegative(b),
            FieldMode::Positive => f32_positive(b),
            FieldMode::Nonzero => !f32_is_zero(b),
        },
        _ => false,
    }
}

/// An integer, or a finite binary32 number.
pub open spec fn finite_number(v: Val) -> bool {
    match v {
        Val::Int(_) => true,
        Val::F32(b) => f32_is_finite(b),
        _ => false,
    }
}

/// A command-trace cell: empty, or a whole number in `0..=u32::MAX`.
pub open spec fn command_value_ok(v: Val) -> bool {
    match v {
        Val::Null => true,
        Val::Int(i) => 0 <= i <= MAX_COMMAND_VALUE,
        Val::F32(b) => f32_is_finite(b) && f32_nonnegative(b) && f32_whole_value(b) is Some
            && f32_whole_value(b)->0 <= u32::MAX,
        _ => false,
    }
}

/// Field `name` of plain data: a record's entry, nothing for other values.
/// `None` for a host object, whose fields the host answers.
pub open spec fn data_field(v: Val, name: Seq<char>) -> Option<Option<Val>> {
    match v {
        Val::Dict(d) => Some(dict_get(d, name)),
        Val::Object(_) => None,
        _ => Some(None),
    }
}

/// Length of plain data: a list's length, nothing for other values.
pub open spec fn data_length(v: Val) -> Option<Option<nat>> {
    match v {
        Val::List(l) => Some(Some(l.len())),
        Val::Object(_) => None,
        _ => Some(None),
    }
}

/// Item `i` of plain data.
pub open spec fn data_item(v: Val, i: int) -> Option<Option<Val>> {
    match v {
        Val::List(l) => Some(if 0 <= i < l.len() { Some(l[i]) } else { None }),
        Val::Object(_) => None,
        _ => Some(None),
    }
}

pub open spec fn is_object(v: Val) -> bool {
    v is Object
}

/// `validation.number` for one value and the `nonnegative` flag.
pub open spec fn number_ok(v: Val, nonnegative: bool) -> bool {
    numeric_check(v, if nonnegative { FieldMode::Nonnegative } else { FieldMode::Finite })
}

pub open spec fn mode_of_category(k: int) -> FieldMode {
    if k == 0 {
        FieldMode::Finite
    } else if k == 1 {
        FieldMode::Nonnegative
    } else if k == 2 {
        FieldMode::Positive
    } else {
        FieldMode::Nonzero
    }
}

/// Every named field of the record is present and meets its category.
pub open spec fn names_ok(record: Val, names: Seq<Val>, mode: FieldMode) -> bool {
    forall|j: int| 0 <= j < names.len() ==> match #[trigger] names[j] {
        Val::Str(n) => match data_field(record, n) {
            Some(Some(value)) => numeric_check(value, mode),
            _ => false,
        },
        _ => false,
    }
}

/// `validation.fields` on a record that is plain data: every category
/// argument is a list, and every name in it is a string naming a present
/// field that meets the category.
pub open spec fn fields_ok(args: Seq<Val>) -> bool {
    forall|k: int| 1 <= k < args.len() ==> match #[trigger] args[k] {
        Val::List(names) => names_ok(args[0], names, mode_of_category(k - 1)),
        _ => false,
    }
}

/// The radius of a hitbox record: present, non-negative and bounded.
pub open spec fn hitbox_radius_ok(h: Val) -> bool {
    data_field(h, "radius"@) matches Some(Some(r)) && numeric_check(r, FieldMode::Nonnegative)
}

/// The angle of a hitbox record, named `angle`, else `angle_degrees`:
/// present and finite.
pub open spec fn hitbox_angle_ok(h: Val) -> bool {
    match data_field(h, "angle"@) {
        Some(Some(a)) => finite_number(a),
        _ => match data_field(h, "angle_degrees"@) {
            Some(Some(a)) => finite_number(a),
            _ => false,
        },
    }
}

/// A centre: a list of three finite numbers.
pub open spec fn center_ok(c: Val) -> bool {
    c matches Val::List(items) && items.len() == 3 && forall|i: int| 0 <= i < 3 ==> finite_number(#[trigger] items[i])
}

/// A hitbox record: a non-negative bounded radius, a finite angle and a
/// centre of three finite numbers.
pub open spec fn hitbox_ok(h: Val) -> bool {
    &&& hitbox_radius_ok(h)
    &&& hitbox_angle_ok(h)
    &&& data_field(h, "center"@) matches Some(Some(c)) && center_ok(c)
}

/// `validation.hitboxes` on plain data: one to four hitbox records.
pub open spec fn hitboxes_ok(v: Val) -> bool {
    v matches Val::List(l) && 1 <= l.len() <= 4 && forall|i: int| 0 <= i < l.len() ==> hitbox_ok(#[trigger] l[i])
}

/// No host object where `validation.hitboxes` looks.
pub open spec fn hitboxes_plain(v: Val) -> bool {
    !is_object(v) && (v matches Val::List(l) ==> forall|i: int| 0 <= i < l.len() ==> {
        &&& !is_object(#[trigger] l[i])
        &&& data_field(l[i], "center"@) matches Some(Some(c)) ==> !is_object(c)
    })
}

/// `math.facing`: `1.0` when the number is `>= 0.0`, else `-1.0` (NaN
/// compares false and faces negative).
pub open spec fn facing_of(v: Val) -> u32 {
    match v {
        Val::Int(i) => if i >= 0 { F32_ONE } else { F32_MINUS_ONE },
        Val::F32(b) => if f32_nonnegative(b) { F32_ONE } else { F32_MINUS_ONE },
        _ => F32_MINUS_ONE,
    }
}

pub open spec fn is_number(v: Val) -> bool {
    v is Int || v is F32
}

/// A non-empty string.
pub open spec fn nonempty_str(v: Val) -> bool {
    v matches Val::Str(s) && s.len() > 0
}

/// The shape `validation.command_trace` needs before it asks the host
/// anything: a context object and two non-empty paths.
pub open spec fn trace_args_ok(context: Val, command: Val, pose: Val) -> bool {
    context is Object && nonempty_str(command) && nonempty_str(pose)
}

/// The frame count that `validation.attack` accepts from the host: an
/// integer between one and `MAX_ATTACK_FRAMES`.
pub open spec fn attack_frames(frames: Val) -> bool {
    frames matches Val::Int(n) && 1 <= n <= MAX_ATTACK_FRAMES
}

/// The frame count of a command trace, given the host's frame count for the
/// pose and the lengths it reports for the command rows and the interrupt
/// flags: the frame count when it lies in `1..=MAX_ATTACK_FRAMES` and both
/// lengths equal it.
pub open spec fn trace_frame_count(frames: Val, command_count: Option<usize>, interrupt_count: Option<usize>) -> Option<nat> {
    match frames {
        Val::Int(n) => if 1 <= n <= MAX_ATTACK_FRAMES && command_count == Some(n as usize)
            && interrupt_count == Some(n as usize) {
            Some(n as nat)
        } else {
            None
        },
        _ => None,
    }
}

/// One command row: exactly four valid command cells.
pub open spec fn trace_row(cells: Seq<Val>) -> bool {
    cells.len() == 4 && forall|j: int| 0 <= j < 4 ==> command_value_ok(#[trigger] cells[j])
}

/// The host's answers make a valid command trace: an accepted frame count,
/// one valid row and one boolean interrupt flag per frame.
pub open spec fn trace_answers(
    frames: Val,
    command_count: Option<usize>,
    interrupt_count: Option<usize>,
    rows: Seq<Seq<Val>>,
    interrupts: Seq<Val>,
) -> bool {
    match trace_frame_count(frames, command_count, interrupt_count) {
        Some(n) => {
            &&& rows.len() == n
            &&& interrupts.len() == n
            &&& forall|i: int| 0 <= i < n ==> trace_row(#[trigger] rows[i])
            &&& forall|i: int| 0 <= i < n ==> (#[trigger] interrupts[i]) is Bool
        },
        None => false,
    }
}

pub open spec fn row_vals(rows: Seq<Vec<NativeValue>>) -> Seq<Seq<Val>> {
    Seq::new(rows.len(), |i: int| vals(rows[i]@))
}

pub open spec fn host_error(r: Result<bool, Error>, message: Seq<char>) -> bool {
    r matches Err(Error::Host(m)) && m@ == message
}

/// What `validation.finite` returns for `a`.
pub open spec fn finite_post(a: Seq<Val>, r: Result<bool, Error>) -> bool {
    &&& a.len() != 1 ==> host_error(r, "validation.finite expects one argument"@)
    &&& a.len() == 1 ==> r == Ok::<bool, Error>(finite_number(a[0]))
}

/// What `validation.number` returns for `a`.
pub open spec fn number_post(a: Seq<Val>, r: Result<bool, Error>) -> bool {
    &&& !(1 <= a.len() <= 2) ==> host_error(r, "validation.number expects one or two arguments"@)
    &&& a.len() == 2 && !(a[1] is Bool) ==> host_error(r, "validation.number nonnegative must be a boolean"@)
    &&& (a.len() == 1 || (a.len() == 2 && a[1] is Bool)) ==> r == Ok::<bool, Error>(
        number_ok(a[0], a.len() == 2 && a[1] == Val::Bool(true)),
    )
}

/// What `math.facing` returns for `a`.
pub open spec fn facing_post(a: Seq<Val>, r: Result<NativeValue, Error>) -> bool {
    &&& a.len() != 1 ==> (r matches Err(Error::Host(m)) && m@ == "math.facing expects one argument"@)
    &&& a.len() == 1 && !is_number(a[0]) ==> (r matches Err(Error::Host(m)) && m@ == "math.facing expects a number"@)
    &&& a.len() == 1 && is_number(a[0]) ==> (r matches Ok(v) && v@ == Val::F32(facing_of(a[0])))
}

/// What `validation.fields` returns for `a`; the outcome on a host object
/// depends on what the host answers, and is `true` only if every category
/// argument is a list.
pub open spec fn fields_post(a: Seq<Val>, r: Result<bool, Error>) -> bool {
    &&& !(1 <= a.len() <= 5) ==> host_error(r, "validation.fields expects one to five arguments"@)
    &&& 1 <= a.len() <= 5 && !is_object(a[0]) ==> r == Ok::<bool, Error>(fields_ok(a))
    &&& r == Ok::<bool, Error>(true) ==> 1 <= a.len() <= 5 && forall|k: int| 1 <= k < a.len() ==> (#[trigger] a[k]) is List
}

/// What `validation.hitboxes` returns for `a` when no host object is
/// involved.
pub open spec fn hitboxes_post(a: Seq<Val>, r: Result<bool, Error>) -> bool {
    &&& a.len() != 1 ==> host_error(r, "validation.hitboxes expects one argument"@)
    &&& a.len() == 1 && hitboxes_plain(a[0]) ==> r == Ok::<bool, Error>(hitboxes_ok(a[0]))
    &&& r == Ok::<bool, Error>(true) ==> a.len() == 1 && (a[0] is List || a[0] is Object)
}

/// What `validation.attack` returns for `a` before the host is asked.
pub open spec fn attack_post(a: Seq<Val>, r: Result<bool, Error>) -> bool {
    &&& a.len() != 2 ==> host_error(r, "validation.attack expects context and path"@)
    &&& a.len() == 2 && !(a[0] is Object && nonempty_str(a[1])) ==> r == Ok::<bool, Error>(false)
    &&& r == Ok::<bool, Error>(true) ==> a.len() == 2 && a[0] is Object && nonempty_str(a[1])
}

/// What `validation.command_trace` returns for `a` before the host is
/// asked.
pub open spec fn trace_post(a: Seq<Val>, r: Result<bool, Error>) -> bool {
    &&& a.len() != 3 ==> host_error(r, "validation.command_trace expects context and two paths"@)
    &&& a.len() == 3 && !trace_args_ok(a[0], a[1], a[2]) ==> r == Ok::<bool, Error>(false)
    &&& r == Ok::<bool, Error>(true) ==> a.len() == 3 && trace_args_ok(a[0], a[1], a[2])
}

// ---------------------------------------------------------------------
// Value accessors
// ---------------------------------------------------------------------

fn string(value: &NativeValue) -> (r: Option<&String>)
    ensures
        match r {
            Some(s) => value@ == Val::Str(s@),
            None => !(value@ is Str),
        },
{
    match value {
        NativeValue::String(s) => Some(s),
        _ => None,
    }
}

fn object(value: &NativeValue) -> (r: Option<&NativeObject>)
    ensures
        match r {
            Some(o) => value@ == Val::Object(o.path@),
            None => !(value@ is Object),
        },
{
    match value {
        NativeValue::Object(o) => Some(o),
        _ => None,
    }
}

fn sequence_values(value: &NativeValue) -> (r: Option<&Vec<NativeValue>>)
    ensures
        match r {
            Some(l) => value@ == Val::List(vals(l@)),
            None => !(value@ is List),
        },
{
    match value {
        NativeValue::List(l) => {
            proof {
                lemma_list_view(*value);
            }
            Some(l)
        },
        _ => None,
    }
}

pub fn is_finite_number(value: &NativeValue) -> (r: bool)
    ensures
        r == finite_number(value@),
{
    match value {
        NativeValue::Int(_) => true,
        NativeValue::F32(b) => f32_is_finite_exec(*b),
        _ => false,
    }
}

/// A number of magnitude at most one million; a binary32 number is read on
/// its encoding (`0x4974_2400` is `1_000_000.0`).
pub open spec fn million_bounded(v: Val) -> bool {
    match v {
        Val::Int(i) => -1_000_000 <= i <= 1_000_000,
        Val::F32(b) => (b as nat) % 0x8000_0000 <= 0x4974_2400,
        _ => false,
    }
}

/// A number from zero to one million (`-0.0` included).
pub open spec fn zero_to_million(v: Val) -> bool {
    match v {
        Val::Int(i) => 0 <= i <= 1_000_000,
        Val::F32(b) => b <= 0x4974_2400 || b == 0x8000_0000,
        _ => false,
    }
}

/// A number above zero and at most one million.
pub open spec fn above_zero_to_million(v: Val) -> bool {
    match v {
        Val::Int(i) => 0 < i <= 1_000_000,
        Val::F32(b) => 0 < b <= 0x4974_2400,
        _ => false,
    }
}

/// A number other than zero, of magnitude at most one million.
pub open spec fn nonzero_to_million(v: Val) -> bool {
    match v {
        Val::Int(i) => -1_000_000 <= i <= 1_000_000 && i != 0,
        Val::F32(b) => 0 < (b as nat) % 0x8000_0000 <= 0x4974_2400,
        _ => false,
    }
}

/// A numeric field check accepts exactly the numbers of magnitude at most
/// one million that meet its mode: any such number for `Finite`, those at
/// least zero for `Nonnegative`, those above zero for `Positive` and those
/// other than zero for `Nonzero`; anything but a number is refused.
pub proof fn law_numeric_checks_keep_their_mode(v: Val)
    ensures
        numeric_check(v, FieldMode::Finite) == million_bounded(v),
        numeric_check(v, FieldMode::Nonnegative) == zero_to_million(v),
        numeric_check(v, FieldMode::Positive) == above_zero_to_million(v),
        numeric_check(v, FieldMode::Nonzero) == nonzero_to_million(v),
{
    if let Val::F32(b) = v {
        crate::float_bits::lemma_bounded_encodings(b);
    }
}

/// `validation.number(v)` accepts the numbers of magnitude at most one
/// million, and `validation.number(v, True)` those from zero to one
/// million.
pub proof fn law_number_flag_selects_the_range(v: Val)
    ensures
        number_ok(v, false) == million_bounded(v),
        number_ok(v, true) == zero_to_million(v),
{
    law_numeric_checks_keep_their_mode(v);
}

/// When `validation.fields` accepts a record, every name in its `finite`,
/// `nonnegative`, `positive` and `nonzero` lists (arguments one to four)
/// names a field of the record that is, in turn, a number of magnitude at
/// most one million, one from zero to one million, one above zero, or one
/// other than zero.
pub proof fn law_fields_meet_their_category(args: Seq<Val>, k: int, j: int)
    requires
        1 <= k < args.len(),
        args[k] is List,
        0 <= j < args[k]->List_0.len(),
    ensures
        fields_ok(args) ==> (args[k]->List_0[j] matches Val::Str(n) && data_field(args[0], n) matches Some(Some(v)) && {
            &&& k == 1 ==> million_bounded(v)
            &&& k == 2 ==> zero_to_million(v)
            &&& k == 3 ==> above_zero_to_million(v)
            &&& k == 4 ==> nonzero_to_million(v)
        }),
{
    if fields_ok(args) {
        let names = args[k]->List_0;
        assert(names_ok(args[0], names, mode_of_category(k - 1)));
        assert(match names[j] {
            Val::Str(n) => match data_field(args[0], n) {
                Some(Some(value)) => numeric_check(value, mode_of_category(k - 1)),
                _ => false,
            },
            _ => false,
        });
        if let Val::Str(n) = names[j] {
            if let Some(Some(v)) = data_field(args[0], n) {
                law_numeric_checks_keep_their_mode(v);
            }
        }
    }
}

/// When `validation.hitboxes` accepts plain data, it is a list of one to
/// four records, each with a radius from zero to one million, and a centre
/// that is a list of three integers or finite binary32 numbers (exponent
/// field below `0xff`).
pub proof fn law_accepted_hitboxes_are_bounded(v: Val, i: int)
    ensures
        hitboxes_ok(v) ==> (v matches Val::List(l) && 1 <= l.len() <= 4),
        (hitboxes_ok(v) && v is List && 0 <= i < v->List_0.len()) ==> {
            let h = v->List_0[i];
            &&& (data_field(h, "radius"@) matches Some(Some(r)) && zero_to_million(r))
            &&& (data_field(h, "center"@) matches Some(Some(c)) && c is List && c->List_0.len() == 3
                && forall|q: int| 0 <= q < 3 ==> finite_encoding(#[trigger] c->List_0[q]))
        },
{
    if hitboxes_ok(v) {
        if let Val::List(l) = v {
            if 0 <= i < l.len() {
                let h = l[i];
                assert(hitbox_ok(h));
                if let Some(Some(r)) = data_field(h, "radius"@) {
                    law_numeric_checks_keep_their_mode(r);
                }
                if let Some(Some(c)) = data_field(h, "center"@) {
                    if let Val::List(items) = c {
                        assert forall|q: int| 0 <= q < 3 implies finite_encoding(#[trigger] items[q]) by {
                            assert(finite_number(items[q]));
                            if let Val::F32(b) = items[q] {
                                crate::float_bits::lemma_finite_encoding(b);
                            }
                        }
                    }
                }
            }
        }
    }
}

/// The host's answers that `validation.attack` and
/// `validation.command_trace` accept: a frame count is an integer from one
/// to 4096, and a trace's frame count stands only when both lengths the host
/// reports equal it.  `math.facing` gives `1.0` (`0x3f80_0000`) for a number
/// at least zero and `-1.0` (`0xbf80_0000`) otherwise, NaN included.  A
/// command cell that is not a binary32 number is valid only when empty or
/// an integer from zero to `u32::MAX`.
pub proof fn law_host_answers_are_range_checked(frames: Val, command_count: Option<usize>, interrupt_count: Option<usize>, v: Val)
    ensures
        attack_frames(frames) == (frames matches Val::Int(n) && 1 <= n <= 4096),
        trace_frame_count(frames, command_count, interrupt_count) matches Some(n) ==> (frames == Val::Int(n as i64)
            && 1 <= n <= 4096 && command_count == Some(n as usize) && interrupt_count == Some(n as usize)),
        (frames matches Val::Int(n) && 1 <= n <= 4096 && command_count == Some(n as usize) && interrupt_count == Some(n as usize))
            ==> trace_frame_count(frames, command_count, interrupt_count) is Some,
        !(v is F32) ==> command_value_ok(v) == (v is Null || (v matches Val::Int(i) && 0 <= i <= 4_294_967_295)),
        is_number(v) ==> facing_of(v) == if (match v {
            Val::Int(i) => i >= 0,
            Val::F32(b) => b <= 0x7f80_0000 || b == 0x8000_0000,
            _ => false,
        }) {
            0x3f80_0000u32
        } else {
            0xbf80_0000u32
        },
{
    if let Val::F32(b) = v {
        crate::float_bits::lemma_finite_encoding(b);
    }
}

/// Checks a numeric field value against `mode`.
pub fn check_field(value: &NativeValue, mode: FieldMode) -> (r: bool)
    ensures
        r == numeric_check(value@, mode),
{
    match value {
        NativeValue::Int(i) => {
            let i = *i;
            if i < -MAX_NUMBER_INT || i > MAX_NUMBER_INT {
                return false;
            }
            match mode {
                FieldMode::Finite => true,
                FieldMode::Nonnegative => i >= 0,
                FieldMode::Positive => i > 0,
                FieldMode::Nonzero => i != 0,
            }
        },
        NativeValue::F32(b) => {
            let b = *b;
            if !f32_is_finite_exec(b) || !f32_abs_within_million_exec(b) {
                return false;
            }
            match mode {
                FieldMode::Finite => true,
                FieldMode::Nonnegative => f32_nonnegative_exec(b),
                FieldMode::Positive => f32_positive_exec(b),
                FieldMode::Nonzero => !f32_is_zero_exec(b),
            }
        },
        _ => false,
    }
}

/// Whether the host's frame count for an attack is acceptable.
pub fn attack_frames_ok(frames: &NativeValue) -> (r: bool)
    ensures
        r == attack_frames(frames@),
{
    match frames {
        NativeValue::Int(n) => 1 <= *n && *n <= MAX_ATTACK_FRAMES,
        _ => false,
    }
}

/// The frame count of a command trace from the host's frame count and the
/// two lengths it reports, or `None` when they do not agree.
pub fn trace_counts(frames: &NativeValue, command_count: Option<usize>, interrupt_count: Option<usize>) -> (r: Option<usize>)
    ensures
        match r {
            Some(n) => trace_frame_count(frames@, command_count, interrupt_count) == Some(n as nat),
            None => trace_frame_count(frames@, command_count, interrupt_count) is None,
        },
{
    match frames {
        NativeValue::Int(n) => {
            if *n < 1 || *n > MAX_ATTACK_FRAMES {
                return None;
            }
            let count = *n as usize;
            if command_count == Some(count) && interrupt_count == Some(count) {
                Some(count)
            } else {
                None
            }
        },
        _ => None,
    }
}

/// Whether `cells` is one command row: four valid command cells.
pub fn trace_row_ok(cells: &[NativeValue]) -> (r: bool)
    ensures
        r == trace_row(vals(cells@)),
{
    if cells.len() != 4 {
        return false;
    }
    let mut j: usize = 0;
    while j < 4
        invariant
            j <= 4,
            cells@.len() == 4,
            forall|q: int| 0 <= q < j ==> command_value_ok(#[trigger] vals(cells@)[q]),
        decreases 4 - j,
    {
        if !valid_command_value(&cells[j]) {
            assert(!command_value_ok(vals(cells@)[j as int]));
            return false;
        }
        j = j + 1;
    }
    true
}

/// Whether an interrupt flag is a boolean.
pub fn interrupt_ok(value: &NativeValue) -> (r: bool)
    ensures
        r == (value@ is Bool),
{
    match value {
        NativeValue::Bool(_) => true,
        _ => false,
    }
}

/// The host's answers for one hitbox: its `radius`, `angle` and
/// `angle_degrees` fields (as read, `None` when absent), the length it
/// reports for the centre, and the centre's coordinates as read.
pub open spec fn hitbox_answers(
    radius: Option<Val>,
    angle: Option<Val>,
    angle_degrees: Option<Val>,
    center_length: Option<usize>,
    center: Seq<Val>,
) -> bool {
    &&& radius matches Some(r) && numeric_check(r, FieldMode::Nonnegative)
    &&& match angle {
        Some(a) => finite_number(a),
        None => angle_degrees matches Some(a) && finite_number(a),
    }
    &&& center_length == Some(3usize)
    &&& center.len() == 3
    &&& forall|i: int| 0 <= i < 3 ==> finite_number(#[trigger] center[i])
}

pub open spec fn opt_val(v: Option<&NativeValue>) -> Option<Val> {
    match v {
        Some(x) => Some(x@),
        None => None,
    }
}

/// An integer, or a binary32 number whose magnitude field lies below that
/// of infinity.
pub open spec fn finite_encoding(v: Val) -> bool {
    match v {
        Val::Int(_) => true,
        Val::F32(b) => (b as nat) % 0x8000_0000 < 0x7f80_0000,
        _ => false,
    }
}

/// Accepted host answers for a hitbox have a radius from zero to one
/// million, a finite angle (read from `angle`, else `angle_degrees`), and a
/// centre of exactly three finite coordinates; accepted answers for a
/// command trace have one row of four cells and one boolean flag per frame,
/// for an integer frame count from one to 4096 that both reported lengths
/// equal.
pub proof fn law_accepted_answers_are_well_formed(
    radius: Option<Val>,
    angle: Option<Val>,
    angle_degrees: Option<Val>,
    center_length: Option<usize>,
    center: Seq<Val>,
    frames: Val,
    command_count: Option<usize>,
    interrupt_count: Option<usize>,
    rows: Seq<Seq<Val>>,
    interrupts: Seq<Val>,
    i: int,
)
    ensures
        hitbox_answers(radius, angle, angle_degrees, center_length, center) ==> {
            &&& radius matches Some(r) && zero_to_million(r)
            &&& (match angle {
                Some(a) => finite_encoding(a),
                None => angle_degrees matches Some(a) && finite_encoding(a),
            })
            &&& center_length == Some(3usize) && center.len() == 3
            &&& (0 <= i < 3 ==> finite_encoding(center[i]))
        },
        trace_answers(frames, command_count, interrupt_count, rows, interrupts) ==> {
            &&& frames matches Val::Int(n) && 1 <= n <= 4096 && command_count == Some(n as usize)
                && interrupt_count == Some(n as usize) && rows.len() == n && interrupts.len() == n
            &&& (0 <= i < rows.len() ==> rows[i].len() == 4 && interrupts[i] is Bool)
        },
{
    if let Some(r) = radius {
        law_numeric_checks_keep_their_mode(r);
    }
    if let Some(Val::F32(b)) = angle {
        crate::float_bits::lemma_finite_encoding(b);
    }
    if let Some(Val::F32(b)) = angle_degrees {
        crate::float_bits::lemma_finite_encoding(b);
    }
    if 0 <= i < center.len() {
        if let Val::F32(b) = center[i] {
            crate::float_bits::lemma_finite_encoding(b);
        }
    }
}

/// Whether the host's answers for one hitbox make a valid hitbox.
pub fn hitbox_answers_ok(
    radius: Option<&NativeValue>,
    angle: Option<&NativeValue>,
    angle_degrees: Option<&NativeValue>,
    center_length: Option<usize>,
    center: &[NativeValue],
) -> (r: bool)
    ensures
        r == hitbox_answers(opt_val(radius), opt_val(angle), opt_val(angle_degrees), center_length, vals(center@)),
{
    let radius_ok = match radius {
        Some(v) => check_field(v, FieldMode::Nonnegative),
        None => false,
    };
    let angle_ok = match angle {
        Some(a) => is_finite_number(a),
        None => match angle_degrees {
            Some(a) => is_finite_number(a),
            None => false,
        },
    };
    if !radius_ok || !angle_ok || center_length != Some(3) || center.len() != 3 {
        return false;
    }
    let mut i: usize = 0;
    while i < 3
        invariant
            i <= 3,
            center@.len() == 3,
            forall|j: int| 0 <= j < i ==> finite_number(#[trigger] vals(center@)[j]),
        decreases 3 - i,
    {
        if !is_finite_number(&center[i]) {
            assert(!finite_number(vals(center@)[i as int]));
            return false;
        }
        i = i + 1;
    }
    true
}

/// Whether the host's answers make a valid command trace.
pub fn trace_answers_ok(
    frames: &NativeValue,
    command_count: Option<usize>,
    interrupt_count: Option<usize>,
    rows: &[Vec<NativeValue>],
    interrupts: &[NativeValue],
) -> (r: bool)
    ensures
        r == trace_answers(frames@, command_count, interrupt_count, row_vals(rows@), vals(interrupts@)),
{
    let Some(n) = trace_counts(frames, command_count, interrupt_count) else {
        return false;
    };
    if rows.len() != n || interrupts.len() != n {
        return false;
    }
    let mut i: usize = 0;
    while i < n
        invariant
            i <= n,
            rows@.len() == n,
            interrupts@.len() == n,
            forall|q: int| 0 <= q < i ==> trace_row(#[trigger] row_vals(rows@)[q]),
            forall|q: int| 0 <= q < i ==> (#[trigger] vals(interrupts@)[q]) is Bool,
        decreases n - i,
    {
        if !trace_row_ok(rows[i].as_slice()) {
            assert(!trace_row(row_vals(rows@)[i as int]));
            return false;
        }
        if !interrupt_ok(&interrupts[i]) {
            assert(!(vals(interrupts@)[i as int] is Bool));
            return false;
        }
        i = i + 1;
    }
    true
}

/// A command-trace cell: empty, an integer in `0..=u32::MAX`, or a
/// binary32 number holding such a whole value exactly (JSON-backed
/// resources expose numbers as `f32`).
pub fn valid_command_value(value: &NativeValue) -> (r: bool)
    ensures
        r == command_value_ok(value@),
{
    match value {
        NativeValue::Null => true,
        NativeValue::Int(i) => 0 <= *i && *i <= MAX_COMMAND_VALUE,
        NativeValue::F32(b) => f32_whole_u32(*b).is_some(),
        _ => false,
    }
}

/// Field `name` of `value`: a record entry directly, a host object's field
/// through the host (a refused read counts as absent).
fn field<H: NativeHost>(host: &mut H, value: &NativeValue, name: &str) -> (r: Result<Option<NativeValue>, Error>)
    ensures
        !is_object(value@) ==> (r matches Ok(o) && match o {
            Some(v) => data_field(value@, name@) == Some(Some(v@)),
            None => data_field(value@, name@) == Some(None::<Val>),
        }),
{
    if let NativeValue::Dict(entries) = value {
        proof {
            lemma_dict_view(*value);
        }
        return Ok(dict_lookup(entries, name));
    }
    let Some(object) = object(value) else {
        return Ok(None);
    };
    let path = field_path(object.path.as_str(), name);
    match host.get(path.as_str()) {
        Ok(v) => Ok(Some(v)),
        Err(Error::Host(_)) => Ok(None),
        Err(error) => Err(error),
    }
}

/// Length of a list directly, of a host object through its `length`.
fn sequence_length<H: NativeHost>(host: &mut H, value: &NativeValue) -> (r: Result<Option<usize>, Error>)
    ensures
        !is_object(value@) ==> (r matches Ok(o) && match o {
            Some(n) => data_length(value@) == Some(Some(n as nat)),
            None => data_length(value@) == Some(None::<nat>),
        }),
{
    if let Some(values) = sequence_values(value) {
        return Ok(Some(values.len()));
    }
    let Some(object) = object(value) else {
        return Ok(None);
    };
    let path = length_path(object.path.as_str());
    match host.get(path.as_str()) {
        Ok(NativeValue::Int(n)) => {
            if n >= 0 && (n as u64) <= (usize::MAX as u64) {
                Ok(Some(n as usize))
            } else {
                Ok(None)
            }
        },
        Ok(_) => Ok(None),
        Err(Error::Host(_)) => Ok(None),
        Err(error) => Err(error),
    }
}

/// Item `index` of a list directly, of a host object through `path[index]`.
fn sequence_item<H: NativeHost>(host: &mut H, value: &NativeValue, index: usize) -> (r: Result<Option<NativeValue>, Error>)
    ensures
        !is_object(value@) ==> (r matches Ok(o) && match o {
            Some(v) => data_item(value@, index as int) == Some(Some(v@)),
            None => data_item(value@, index as int) == Some(None::<Val>),
        }),
{
    if let Some(values) = sequence_values(value) {
        if index < values.len() {
            return Ok(Some(copy_value(&values[index])));
        }
        return Ok(None);
    }
    let Some(object) = object(value) else {
        return Ok(None);
    };
    let path = item_path(object.path.as_str(), index);
    match host.get(path.as_str()) {
        Ok(v) => Ok(Some(v)),
        Err(Error::Host(_)) => Ok(None),
        Err(error) => Err(error),
    }
}

/// What an answer to a boolean host method means: only `true` counts.
pub open spec fn true_answer(v: Val) -> bool {
    v == Val::Bool(true)
}

/// The length an answer to a length query gives: a non-negative integer
/// that fits `usize`.
pub open spec fn length_answer(v: Val) -> Option<nat> {
    match v {
        Val::Int(n) => if 0 <= n && n <= usize::MAX { Some(n as nat) } else { None },
        _ => None,
    }
}

/// Reads an answer as `true_answer` says.
fn bool_of(v: &NativeValue) -> (r: bool)
    ensures
        r == true_answer(v@),
{
    match v {
        NativeValue::Bool(b) => *b,
        _ => false,
    }
}

/// Reads an answer as `length_answer` says.
fn length_of(v: &NativeValue) -> (r: Option<usize>)
    ensures
        match length_answer(v@) {
            Some(n) => r == Some(n as usize),
            None => r is None,
        },
{
    match v {
        NativeValue::Int(n) => {
            if *n >= 0 && (*n as u64) <= (usize::MAX as u64) {
                Some(*n as usize)
            } else {
                None
            }
        },
        _ => None,
    }
}

/// A method call on a host object: the method's full path and the
/// arguments it is called with.
#[derive(Debug, PartialEq)]
pub struct HostCall {
    pub method: String,
    pub args: Vec<NativeValue>,
}

/// `c` calls method `method` of the object at `object_path` with the one
/// string argument `argument`.
pub open spec fn is_call(c: HostCall, object_path: Seq<char>, method: Seq<char>, argument: Seq<char>) -> bool {
    &&& c.method@ == object_path + "."@ + method
    &&& vals(c.args@) == seq![Val::Str(argument)]
}

/// The call of `method` on `object` with the string `argument`.
pub fn object_call(object: &NativeObject, method: &str, argument: &str) -> (r: HostCall)
    ensures
        is_call(r, object.path@, method@, argument@),
{
    let path = concat3(object.path.as_str(), ".", method);
    let mut args: Vec<NativeValue> = Vec::new();
    args.push(NativeValue::String(argument.to_owned()));
    assert(vals(args@) =~= seq![Val::Str(argument@)]);
    HostCall { method: path, args }
}

/// The calls `validation.attack` makes on `context` for the attack at
/// `path`: first `validate_attack(path)`, then `frames(path)`.
pub fn attack_requests(context: &NativeObject, path: &str) -> (r: (HostCall, HostCall))
    ensures
        is_call(r.0, context.path@, "validate_attack"@, path@),
        is_call(r.1, context.path@, "frames"@, path@),
{
    (object_call(context, "validate_attack", path), object_call(context, "frames", path))
}

/// The calls `validation.command_trace` makes on its context.
#[derive(Debug, PartialEq)]
pub struct TraceRequests {
    /// `resource(command_path)`: the command resource.
    pub resource: HostCall,
    /// `frames(pose_path)`: the frame count of the pose.
    pub frames: HostCall,
    /// `array_length(command_path)`: the number of command rows.
    pub command_length: HostCall,
    /// `array_length(command_path + ".allow_interrupt")`: the number of
    /// interrupt flags.
    pub interrupt_length: HostCall,
}

/// The calls `validation.command_trace` makes on `context` for the command
/// resource at `command_path` and the pose at `pose_path`.
pub fn trace_requests(context: &NativeObject, command_path: &str, pose_path: &str) -> (r: TraceRequests)
    ensures
        is_call(r.resource, context.path@, "resource"@, command_path@),
        is_call(r.frames, context.path@, "frames"@, pose_path@),
        is_call(r.command_length, context.path@, "array_length"@, command_path@),
        is_call(r.interrupt_length, context.path@, "array_length"@, command_path@ + ".allow_interrupt"@),
{
    let interrupt_path = concat2(command_path, ".allow_interrupt");
    TraceRequests {
        resource: object_call(context, "resource", command_path),
        frames: object_call(context, "frames", pose_path),
        command_length: object_call(context, "array_length", command_path),
        interrupt_length: object_call(context, "array_length", interrupt_path.as_str()),
    }
}

/// The path the host reads for field `name` of the object at `object_path`.
pub fn field_path(object_path: &str, name: &str) -> (r: String)
    ensures
        r@ == object_path@ + "."@ + name@,
{
    concat3(object_path, ".", name)
}

/// The path the host reads for the length of the sequence object at
/// `object_path`.
pub fn length_path(object_path: &str) -> (r: String)
    ensures
        r@ == object_path@ + ".length"@,
{
    concat2(object_path, ".length")
}

/// The path the host reads for item `index` of the sequence object at
/// `object_path`.
pub fn item_path(object_path: &str, index: usize) -> (r: String)
    ensures
        r@ == object_path@ + "["@ + decimal_text(index as nat) + "]"@,
{
    let digits = decimal_string(index as u64);
    let open = concat2(object_path, "[");
    concat3(open.as_str(), digits.as_str(), "]")
}

/// Whether the host answers `call` with `true`; the host decides, and its
/// error is passed on.
fn host_bool_call<H: NativeHost>(host: &mut H, call: &HostCall) -> (r: Result<bool, Error>) {
    let answer = host.call(call.method.as_str(), call.args.as_slice())?;
    Ok(bool_of(&answer))
}

/// The length the host answers to `call`, where it is a non-negative
/// integer; the host decides, and its error is passed on.
fn host_length_call<H: NativeHost>(host: &mut H, call: &HostCall) -> (r: Result<Option<usize>, Error>)
    ensures
        r matches Ok(Some(n)) ==> n <= i64::MAX,
{
    let answer = host.call(call.method.as_str(), call.args.as_slice())?;
    Ok(length_of(&answer))
}

// ---------------------------------------------------------------------
// Builtins
// ---------------------------------------------------------------------

/// `validation.finite(value)`.
pub fn finite(args: &[NativeValue]) -> (r: Result<bool, Error>)
    ensures
        finite_post(vals(args@), r),
{
    if args.len() != 1 {
        return Err(Error::Host("validation.finite expects one argument".to_owned()));
    }
    Ok(is_finite_number(&args[0]))
}

/// `validation.number(value, nonnegative=False)`.
pub fn number(args: &[NativeValue]) -> (r: Result<bool, Error>)
    ensures
        number_post(vals(args@), r),
{
    if args.len() < 1 || args.len() > 2 {
        return Err(Error::Host("validation.number expects one or two arguments".to_owned()));
    }
    let nonnegative = if args.len() == 2 {
        match &args[1] {
            NativeValue::Bool(b) => *b,
            _ => return Err(Error::Host("validation.number nonnegative must be a boolean".to_owned())),
        }
    } else {
        false
    };
    let mode = if nonnegative { FieldMode::Nonnegative } else { FieldMode::Finite };
    Ok(check_field(&args[0], mode))
}

/// `math.facing(value)`: `1.0` or `-1.0`, as binary32 encodings.
pub fn math_facing(args: &[NativeValue]) -> (r: Result<NativeValue, Error>)
    ensures
        facing_post(vals(args@), r),
{
    if args.len() != 1 {
        return Err(Error::Host("math.facing expects one argument".to_owned()));
    }
    match &args[0] {
        NativeValue::Int(i) => Ok(NativeValue::F32(if *i >= 0 { F32_ONE } else { F32_MINUS_ONE })),
        NativeValue::F32(b) => Ok(NativeValue::F32(if f32_nonnegative_exec(*b) { F32_ONE } else { F32_MINUS_ONE })),
        _ => Err(Error::Host("math.facing expects a number".to_owned())),
    }
}

/// Every name in `names` is a string naming a field of `record` that meets
/// `mode`.
fn names_check<H: NativeHost>(host: &mut H, record: &NativeValue, names: &Vec<NativeValue>, mode: FieldMode) -> (r: Result<bool, Error>)
    ensures
        !is_object(record@) ==> r == Ok::<bool, Error>(names_ok(record@, vals(names@), mode)),
{
    let ghost nv = vals(names@);
    let mut j: usize = 0;
    while j < names.len()
        invariant
            j <= names.len(),
            nv == vals(names@),
            !is_object(record@) ==> forall|q: int| 0 <= q < j ==> match #[trigger] nv[q] {
                Val::Str(n) => match data_field(record@, n) {
                    Some(Some(value)) => numeric_check(value, mode),
                    _ => false,
                },
                _ => false,
            },
        decreases names.len() - j,
    {
        assert(nv[j as int] == names@[j as int]@);
        let Some(name) = string(&names[j]) else {
            return Ok(false);
        };
        let found = field(host, record, name.as_str())?;
        let Some(value) = found else {
            return Ok(false);
        };
        if !check_field(&value, mode) {
            return Ok(false);
        }
        j = j + 1;
    }
    Ok(true)
}

/// `validation.fields(record, finite=[], nonnegative=[], positive=[],
/// nonzero=[])`.  A host object's fields are read at the paths `field_path`
/// gives; what the host answers is judged by `check_field`.
pub fn fields<H: NativeHost>(host: &mut H, args: &[NativeValue]) -> (r: Result<bool, Error>)
    ensures
        fields_post(vals(args@), r),
{
    if args.len() < 1 || args.len() > 5 {
        return Err(Error::Host("validation.fields expects one to five arguments".to_owned()));
    }
    let ghost av = vals(args@);
    let record = &args[0];
    // Every category argument must be a list before any field is read.
    let mut k: usize = 1;
    while k < args.len()
        invariant
            1 <= k <= args.len() <= 5,
            av == vals(args@),
            forall|q: int| 1 <= q < k ==> (#[trigger] args@[q])@ is List,
        decreases args.len() - k,
    {
        if sequence_values(&args[k]).is_none() {
            assert(!(av[k as int] is List));
            return Ok(false);
        }
        k = k + 1;
    }
    let mut c: usize = 1;
    while c < args.len()
        invariant
            1 <= c <= args.len() <= 5,
            av == vals(args@),
            forall|q: int| 1 <= q < args@.len() ==> (#[trigger] args@[q])@ is List,
            !is_object(record@) ==> forall|q: int| 1 <= q < c ==> match #[trigger] av[q] {
                Val::List(names) => names_ok(av[0], names, mode_of_category(q - 1)),
                _ => false,
            },
            record == &args@[0],
        decreases args.len() - c,
    {
        let names = sequence_values(&args[c]).unwrap();
        let mode = if c == 1 {
            FieldMode::Finite
        } else if c == 2 {
            FieldMode::Nonnegative
        } else if c == 3 {
            FieldMode::Positive
        } else {
            FieldMode::Nonzero
        };
        assert(mode == mode_of_category(c - 1));
        let ok = names_check(host, record, names, mode)?;
        if !ok {
            proof {
                assert(av[c as int] == Val::List(vals(names@)));
            }
            return Ok(false);
        }
        c = c + 1;
    }
    Ok(true)
}

/// `validation.hitboxes(value)`: one to four hitbox records.  A host
/// object is read at the paths `length_path`, `item_path` and `field_path`
/// give; what the host answers is judged as `hitbox_answers_ok` says.
pub fn hitboxes<H: NativeHost>(host: &mut H, args: &[NativeValue]) -> (r: Result<bool, Error>)
    ensures
        hitboxes_post(vals(args@), r),
{
    if args.len() != 1 {
        return Err(Error::Host("validation.hitboxes expects one argument".to_owned()));
    }
    let value = &args[0];
    let Some(length) = sequence_length(host, value)? else {
        return Ok(false);
    };
    if length < 1 || length > 4 {
        return Ok(false);
    }
    let mut index: usize = 0;
    while index < length
        invariant
            1 <= length <= 4,
            index <= length,
            args@.len() == 1,
            value == &args@[0],
            hitboxes_plain(value@) ==> data_length(value@) == Some(Some(length as nat)),
            hitboxes_plain(value@) ==> (value@ matches Val::List(l) && forall|i: int| 0 <= i < index ==> hitbox_ok(#[trigger] l[i])),
        decreases length - index,
    {
        let Some(hitbox) = sequence_item(host, value, index)? else {
            return Ok(false);
        };
        let ok = hitbox_check(host, &hitbox)?;
        if !ok {
            return Ok(false);
        }
        index = index + 1;
    }
    Ok(true)
}

fn hitbox_check<H: NativeHost>(host: &mut H, hitbox: &NativeValue) -> (r: Result<bool, Error>)
    ensures
        !is_object(hitbox@) && (data_field(hitbox@, "center"@) matches Some(Some(c)) ==> !is_object(c))
            ==> r == Ok::<bool, Error>(hitbox_ok(hitbox@)),
{
    let Some(radius) = field(host, hitbox, "radius")? else {
        return Ok(false);
    };
    if !check_field(&radius, FieldMode::Nonnegative) {
        return Ok(false);
    }
    let angle = field(host, hitbox, "angle")?;
    let degrees = field(host, hitbox, "angle_degrees")?;
    let angle = match angle {
        Some(a) => Some(a),
        None => degrees,
    };
    let Some(angle) = angle else {
        return Ok(false);
    };
    if !is_finite_number(&angle) {
        return Ok(false);
    }
    let Some(center) = field(host, hitbox, "center")? else {
        return Ok(false);
    };
    let n = sequence_length(host, &center)?;
    match n {
        Some(3) => {},
        _ => {
            proof {
                if let Val::List(items) = center@ {
                    assert(items.len() != 3);
                }
            }
            return Ok(false);
        },
    }
    let mut coordinate: usize = 0;
    while coordinate < 3
        invariant
            coordinate <= 3,
            !is_object(hitbox@) ==> hitbox_radius_ok(hitbox@) && hitbox_angle_ok(hitbox@)
                && data_field(hitbox@, "center"@) == Some(Some(center@)),
            !is_object(center@) ==> data_length(center@) == Some(Some(3nat)),
            !is_object(center@) ==> (center@ matches Val::List(items) && forall|i: int| 0 <= i < coordinate ==> finite_number(#[trigger] items[i])),
        decreases 3 - coordinate,
    {
        let Some(value) = sequence_item(host, &center, coordinate)? else {
            return Ok(false);
        };
        if !is_finite_number(&value) {
            return Ok(false);
        }
        coordinate = coordinate + 1;
    }
    Ok(true)
}

/// `validation.attack(context, path)`: the host validates the attack at
/// `path` and reports between one and `MAX_ATTACK_FRAMES` frames for it.
/// The calls are those of `attack_requests`, in order; the frame count is
/// judged by `attack_frames_ok`.
pub fn attack<H: NativeHost>(host: &mut H, args: &[NativeValue]) -> (r: Result<bool, Error>)
    ensures
        attack_post(vals(args@), r),
{
    if args.len() != 2 {
        return Err(Error::Host("validation.attack expects context and path".to_owned()));
    }
    let Some(path) = string(&args[1]) else {
        return Ok(false);
    };
    if path.as_str().is_empty() {
        return Ok(false);
    }
    let Some(context) = object(&args[0]) else {
        return Ok(false);
    };
    let (validate, frames_call) = attack_requests(context, path.as_str());
    let valid = host_bool_call(host, &validate)?;
    if !valid {
        return Ok(false);
    }
    let frames = host.call(frames_call.method.as_str(), frames_call.args.as_slice())?;
    Ok(attack_frames_ok(&frames))
}

/// `validation.command_trace(context, command_path, pose_path)`: the
/// command resource has one row of four command cells and one boolean
/// interrupt flag per frame of the pose.  The context is called as
/// `trace_requests` says, the resource's rows and cells are read at the
/// paths `field_path`, `length_path` and `item_path` give, and the answers
/// are judged as `trace_answers_ok` says.
pub fn command_trace<H: NativeHost>(host: &mut H, args: &[NativeValue]) -> (r: Result<bool, Error>)
    ensures
        trace_post(vals(args@), r),
{
    if args.len() != 3 {
        return Err(Error::Host("validation.command_trace expects context and two paths".to_owned()));
    }
    let (Some(context), Some(command_path), Some(pose_path)) = (object(&args[0]), string(&args[1]), string(&args[2])) else {
        return Ok(false);
    };
    if command_path.as_str().is_empty() || pose_path.as_str().is_empty() {
        return Ok(false);
    }
    let requests = trace_requests(context, command_path.as_str(), pose_path.as_str());
    let resource = host.call(requests.resource.method.as_str(), requests.resource.args.as_slice())?;
    if let NativeValue::Null = resource {
        return Ok(false);
    }
    let Some(command_rows) = field(host, &resource, "cmd_vars")? else {
        return Ok(false);
    };
    let Some(interrupt_rows) = field(host, &resource, "allow_interrupt")? else {
        return Ok(false);
    };
    let frames = host.call(requests.frames.method.as_str(), requests.frames.args.as_slice())?;
    let frame_count = match frames {
        NativeValue::Int(n) => n,
        _ => return Ok(false),
    };
    if frame_count < 1 || frame_count > MAX_ATTACK_FRAMES {
        return Ok(false);
    }
    let command_count = host_length_call(host, &requests.command_length)?;
    let interrupt_count = host_length_call(host, &requests.interrupt_length)?;
    let Some(count) = trace_counts(&frames, command_count, interrupt_count) else {
        return Ok(false);
    };
    // The rows and flags as the host hands them out, row by row; the trace
    // is refused at the first row or flag that does not fit.
    let mut rows: Vec<Vec<NativeValue>> = Vec::new();
    let mut interrupts: Vec<NativeValue> = Vec::new();
    let mut index: usize = 0;
    while index < count
        invariant
            index <= count,
            args@.len() == 3,
            trace_args_ok(args@[0]@, args@[1]@, args@[2]@),
        decreases count - index,
    {
        let Some(row) = sequence_item(host, &command_rows, index)? else {
            return Ok(false);
        };
        let row_length = sequence_length(host, &row)?;
        if row_length != Some(4) {
            return Ok(false);
        }
        let cells = match sequence_values(&row) {
            None => {
                let Some(row_object) = object(&row) else {
                    return Ok(false);
                };
                let mut read: Vec<NativeValue> = Vec::new();
                let mut column: usize = 0;
                while column < 4
                    invariant
                        column <= 4,
                        args@.len() == 3,
                        trace_args_ok(args@[0]@, args@[1]@, args@[2]@),
                    decreases 4 - column,
                {
                    let cell_path = item_path(row_object.path.as_str(), column);
                    let cell = host.get(cell_path.as_str())?;
                    if !valid_command_value(&cell) {
                        return Ok(false);
                    }
                    read.push(cell);
                    column = column + 1;
                }
                read
            },
            Some(cells) => copy_values(cells),
        };
        if !trace_row_ok(cells.as_slice()) {
            return Ok(false);
        }
        let Some(interrupt) = sequence_item(host, &interrupt_rows, index)? else {
            return Ok(false);
        };
        if !interrupt_ok(&interrupt) {
            return Ok(false);
        }
        rows.push(cells);
        interrupts.push(interrupt);
        index = index + 1;
    }
    Ok(trace_answers_ok(&frames, command_count, interrupt_count, rows.as_slice(), interrupts.as_slice()))
}

// ---------------------------------------------------------------------
// Floating-point kernels
// ---------------------------------------------------------------------

/// A floating-point kernel that the host evaluates.
#[derive(Clone, Copy, Debug, PartialEq, Eq, Structural)]
pub enum MathKernel {
    Sin,
    Cos,
    Atan2,
    AngleXy,
}

/// A numeric kernel argument: an integer, which the host converts to the
/// nearest `f32`, or a binary32 number as its encoding.
#[derive(Clone, Copy, Debug, PartialEq, Eq, Structural)]
pub enum MathNumber {
    Int(i64),
    F32(u32),
}

/// A decoded kernel call: `sin x`, `cos x`, `atan2 y x`, or `angle_xy`
/// of a three-component and a two-component vector, in that order.
#[derive(Clone, Debug, PartialEq, Eq)]
pub struct MathRequest {
    pub kernel: MathKernel,
    pub args: Vec<MathNumber>,
}

/// A builtin's answer: a value, or a kernel for the host to evaluate.
#[derive(Debug, PartialEq)]
pub enum Builtin {
    Value(NativeValue),
    Math(MathRequest),
}

pub open spec fn number_arg(v: Val) -> Option<MathNumber> {
    match v {
        Val::Int(i) => Some(MathNumber::Int(i)),
        Val::F32(b) => Some(MathNumber::F32(b)),
        _ => None,
    }
}

/// The numbers of a vector of `n` components: a list of `n` numbers, or
/// for `n == 2` a two-component vector value.
pub open spec fn vector_numbers(v: Val, n: nat, number_error: Seq<char>, shape_error: Seq<char>) -> Result<Seq<MathNumber>, Seq<char>> {
    match v {
        Val::List(l) => if l.len() == n {
            if forall|i: int| 0 <= i < n ==> (#[trigger] number_arg(l[i])) is Some {
                Ok(Seq::new(n, |i: int| number_arg(l[i])->0))
            } else {
                Err(number_error)
            }
        } else {
            Err(shape_error)
        },
        Val::Vec2(x, y) => if n == 2 {
            Ok(seq![MathNumber::F32(x), MathNumber::F32(y)])
        } else {
            Err(shape_error)
        },
        _ => Err(shape_error),
    }
}

pub open spec fn unary_kernel(kernel: MathKernel, name: Seq<char>, a: Seq<Val>) -> Result<(MathKernel, Seq<MathNumber>), Seq<char>> {
    if a.len() != 1 {
        Err(name + " expects one argument"@)
    } else {
        match number_arg(a[0]) {
            Some(x) => Ok((kernel, seq![x])),
            None => Err(name + " expects a number"@),
        }
    }
}

pub open spec fn atan2_kernel(a: Seq<Val>) -> Result<(MathKernel, Seq<MathNumber>), Seq<char>> {
    if a.len() != 2 {
        Err("math.atan2 expects two arguments"@)
    } else {
        match number_arg(a[0]) {
            None => Err("math.atan2 y expects a number"@),
            Some(y) => match number_arg(a[1]) {
                None => Err("math.atan2 x expects a number"@),
                Some(x) => Ok((MathKernel::Atan2, seq![y, x])),
            },
        }
    }
}

pub open spec fn angle_xy_kernel(a: Seq<Val>) -> Result<(MathKernel, Seq<MathNumber>), Seq<char>> {
    if a.len() != 2 {
        Err("math.angle_xy expects two vectors"@)
    } else {
        match vector_numbers(a[0], 3, "math.angle_xy first vector expects a number"@,
            "math.angle_xy first vector expects a 3-element vector"@) {
            Err(m) => Err(m),
            Ok(first) => match vector_numbers(a[1], 2, "math.angle_xy second vector expects a number"@,
                "math.angle_xy second vector expects a 2-element vector"@) {
                Err(m) => Err(m),
                Ok(second) => Ok((MathKernel::AngleXy, first + second)),
            },
        }
    }
}

/// The kernel paths.
pub open spec fn is_kernel_path(path: Seq<char>) -> bool {
    path == "math.sin"@ || path == "math.cos"@ || path == "math.atan2"@ || path == "math.angle_xy"@
}

/// The kernel call that `path` and `a` ask for, or the message it is
/// refused with.
pub open spec fn kernel_of(path: Seq<char>, a: Seq<Val>) -> Result<(MathKernel, Seq<MathNumber>), Seq<char>> {
    if path == "math.sin"@ {
        unary_kernel(MathKernel::Sin, "math.sin"@, a)
    } else if path == "math.cos"@ {
        unary_kernel(MathKernel::Cos, "math.cos"@, a)
    } else if path == "math.atan2"@ {
        atan2_kernel(a)
    } else {
        angle_xy_kernel(a)
    }
}

pub open spec fn kernel_post(path: Seq<char>, a: Seq<Val>, r: Result<MathRequest, Error>) -> bool {
    match kernel_of(path, a) {
        Ok((k, nums)) => r matches Ok(q) && q.kernel == k && q.args@ == nums,
        Err(m) => r matches Err(Error::Host(e)) && e@ == m,
    }
}

/// Kernel argument `n` carries the number `v`: the same integer, or the
/// same binary32 encoding.
pub open spec fn carries(v: Val, n: MathNumber) -> bool {
    match v {
        Val::Int(i) => n == MathNumber::Int(i),
        Val::F32(b) => n == MathNumber::F32(b),
        _ => false,
    }
}

/// The components of a vector argument, in order, carried by `nums`: a list
/// of `nums.len()` numbers, or a two-component vector value.
pub open spec fn vector_carried(v: Val, nums: Seq<MathNumber>) -> bool {
    match v {
        Val::List(l) => l.len() == nums.len() && forall|q: int| 0 <= q < l.len() ==> carries(#[trigger] l[q], nums[q]),
        Val::Vec2(x, y) => nums == seq![MathNumber::F32(x), MathNumber::F32(y)],
        _ => false,
    }
}

/// A decoded kernel call is the kernel its path names and carries the
/// call's numbers unchanged and in order: the one argument of `math.sin` and
/// `math.cos`, `y` then `x` for `math.atan2`, and the three components of
/// the first vector then the two of the second for `math.angle_xy`.
pub proof fn law_kernel_arguments_keep_their_order(path: Seq<char>, a: Seq<Val>)
    ensures
        kernel_of(path, a) matches Ok((k, nums)) ==> ((path == "math.sin"@ || path == "math.cos"@) ==> k == (if path
            == "math.sin"@ { MathKernel::Sin } else { MathKernel::Cos }) && a.len() == 1 && nums.len() == 1 && carries(a[0], nums[0])),
        kernel_of(path, a) matches Ok((k, nums)) ==> (path == "math.atan2"@ ==> k == MathKernel::Atan2 && a.len() == 2
            && nums.len() == 2 && carries(a[0], nums[0]) && carries(a[1], nums[1])),
        kernel_of(path, a) matches Ok((k, nums)) ==> (!(path == "math.sin"@ || path == "math.cos"@ || path == "math.atan2"@)
            ==> k == MathKernel::AngleXy && a.len() == 2 && nums.len() == 5 && vector_carried(a[0], nums.subrange(0, 3))
            && vector_carried(a[1], nums.subrange(3, 5))),
{
    reveal_strlit("math.sin");
    reveal_strlit("math.cos");
    reveal_strlit("math.atan2");
    if kernel_of(path, a) is Ok && path == "math.atan2"@ {
        assert("math.atan2"@.len() == 10 && "math.sin"@.len() == 8 && "math.cos"@.len() == 8);
        assert(kernel_of(path, a) == atan2_kernel(a));
        let nums = kernel_of(path, a)->Ok_0.1;
        let y = number_arg(a[0])->0;
        let x = number_arg(a[1])->0;
        assert(nums == seq![y, x]);
        assert(nums[0] == y && nums[1] == x);
    }
    if kernel_of(path, a) is Ok && !(path == "math.sin"@ || path == "math.cos"@ || path == "math.atan2"@) {
        let nums = kernel_of(path, a)->Ok_0.1;
        let first = vector_numbers(a[0], 3, "math.angle_xy first vector expects a number"@,
            "math.angle_xy first vector expects a 3-element vector"@)->Ok_0;
        let second = vector_numbers(a[1], 2, "math.angle_xy second vector expects a number"@,
            "math.angle_xy second vector expects a 2-element vector"@)->Ok_0;
        assert(nums == first + second);
        assert(nums.subrange(0, 3) =~= first);
        assert(nums.subrange(3, 5) =~= second);
        if let Val::List(l) = a[0] {
            assert forall|q: int| 0 <= q < l.len() implies carries(#[trigger] l[q], first[q]) by {
                assert(number_arg(l[q]) is Some);
            }
        }
        if let Val::List(l) = a[1] {
            assert forall|q: int| 0 <= q < l.len() implies carries(#[trigger] l[q], second[q]) by {
                assert(number_arg(l[q]) is Some);
            }
        }
    }
}

fn math_number(value: &NativeValue) -> (r: Option<MathNumber>)
    ensures
        r == number_arg(value@),
{
    match value {
        NativeValue::Int(i) => Some(MathNumber::Int(*i)),
        NativeValue::F32(b) => Some(MathNumber::F32(*b)),
        _ => None,
    }
}

fn math_vector(value: &NativeValue, n: usize, number_error: &str, shape_error: &str) -> (r: Result<Vec<MathNumber>, Error>)
    ensures
        match vector_numbers(value@, n as nat, number_error@, shape_error@) {
            Ok(nums) => r matches Ok(v) && v@ == nums,
            Err(m) => r matches Err(Error::Host(e)) && e@ == m,
        },
{
    match value {
        NativeValue::List(items) => {
            proof {
                lemma_list_view(*value);
            }
            if items.len() != n {
                return Err(Error::Host(shape_error.to_owned()));
            }
            let ghost l = vals(items@);
            let mut out: Vec<MathNumber> = Vec::new();
            let mut i: usize = 0;
            while i < items.len()
                invariant
                    i <= items.len() == n,
                    l == vals(items@),
                    value@ == Val::List(l),
                    out@.len() == i,
                    forall|j: int| 0 <= j < i ==> (#[trigger] number_arg(l[j])) is Some && out@[j] == number_arg(l[j])->0,
                decreases items.len() - i,
            {
                match math_number(&items[i]) {
                    Some(x) => out.push(x),
                    None => {
                        assert(number_arg(l[i as int]) is None);
                        return Err(Error::Host(number_error.to_owned()));
                    },
                }
                i = i + 1;
            }
            assert(out@ =~= Seq::new(n as nat, |j: int| number_arg(l[j])->0));
            Ok(out)
        },
        NativeValue::Vec2(xy) => {
            if n != 2 {
                return Err(Error::Host(shape_error.to_owned()));
            }
            let mut out: Vec<MathNumber> = Vec::new();
            out.push(MathNumber::F32(xy[0]));
            out.push(MathNumber::F32(xy[1]));
            assert(out@ =~= seq![MathNumber::F32(xy[0]), MathNumber::F32(xy[1])]);
            Ok(out)
        },
        _ => Err(Error::Host(shape_error.to_owned())),
    }
}

fn unary_request(kernel: MathKernel, name: &str, args: &[NativeValue]) -> (r: Result<MathRequest, Error>)
    ensures
        match unary_kernel(kernel, name@, vals(args@)) {
            Ok((k, nums)) => r matches Ok(q) && q.kernel == k && q.args@ == nums,
            Err(m) => r matches Err(Error::Host(e)) && e@ == m,
        },
{
    if args.len() != 1 {
        return Err(Error::Host(concat2(name, " expects one argument")));
    }
    match math_number(&args[0]) {
        Some(x) => {
            let mut nums: Vec<MathNumber> = Vec::new();
            nums.push(x);
            assert(nums@ =~= seq![x]);
            Ok(MathRequest { kernel, args: nums })
        },
        None => Err(Error::Host(concat2(name, " expects a number"))),
    }
}

/// Decodes the arguments of a floating-point kernel (`math.sin`,
/// `math.cos`, `math.atan2`, `math.angle_xy`); `None` for other paths.
pub fn math_request(path: &str, args: &[NativeValue]) -> (r: Result<Option<MathRequest>, Error>)
    ensures
        !is_kernel_path(path@) ==> r matches Ok(None),
        is_kernel_path(path@) ==> match r {
            Ok(Some(q)) => kernel_post(path@, vals(args@), Ok(q)),
            Err(e) => kernel_post(path@, vals(args@), Err(e)),
            Ok(None) => false,
        },
{
    if str_eq(path, "math.sin") {
        return match unary_request(MathKernel::Sin, "math.sin", args) {
            Ok(q) => Ok(Some(q)),
            Err(e) => Err(e),
        };
    }
    if str_eq(path, "math.cos") {
        return match unary_request(MathKernel::Cos, "math.cos", args) {
            Ok(q) => Ok(Some(q)),
            Err(e) => Err(e),
        };
    }
    if str_eq(path, "math.atan2") {
        if args.len() != 2 {
            return Err(Error::Host("math.atan2 expects two arguments".to_owned()));
        }
        let Some(y) = math_number(&args[0]) else {
            return Err(Error::Host("math.atan2 y expects a number".to_owned()));
        };
        let Some(x) = math_number(&args[1]) else {
            return Err(Error::Host("math.atan2 x expects a number".to_owned()));
        };
        let mut nums: Vec<MathNumber> = Vec::new();
        nums.push(y);
        nums.push(x);
        assert(nums@ =~= seq![y, x]);
        return Ok(Some(MathRequest { kernel: MathKernel::Atan2, args: nums }));
    }
    if str_eq(path, "math.angle_xy") {
        if args.len() != 2 {
            return Err(Error::Host("math.angle_xy expects two vectors".to_owned()));
        }
        let mut first = math_vector(&args[0], 3, "math.angle_xy first vector expects a number",
            "math.angle_xy first vector expects a 3-element vector")?;
        let mut second = math_vector(&args[1], 2, "math.angle_xy second vector expects a number",
            "math.angle_xy second vector expects a 2-element vector")?;
        first.append(&mut second);
        return Ok(Some(MathRequest { kernel: MathKernel::AngleXy, args: first }));
    }
    Ok(None)
}

// ---------------------------------------------------------------------
// Dispatch
// ---------------------------------------------------------------------

/// The boolean a validation builtin answered, or its error.
pub open spec fn bool_answer(r: Result<Option<Builtin>, Error>) -> Option<Result<bool, Error>> {
    match r {
        Ok(Some(Builtin::Value(NativeValue::Bool(b)))) => Some(Ok(b)),
        Err(e) => Some(Err(e)),
        _ => None,
    }
}

/// The value a builtin answered, or its error.
pub open spec fn value_answer(r: Result<Option<Builtin>, Error>) -> Option<Result<NativeValue, Error>> {
    match r {
        Ok(Some(Builtin::Value(v))) => Some(Ok(v)),
        Err(e) => Some(Err(e)),
        _ => None,
    }
}

/// The kernel call a builtin asked for, or its error.
pub open spec fn math_answer(r: Result<Option<Builtin>, Error>) -> Option<Result<MathRequest, Error>> {
    match r {
        Ok(Some(Builtin::Math(q))) => Some(Ok(q)),
        Err(e) => Some(Err(e)),
        _ => None,
    }
}

/// What `call` answers for `path` and the argument values `a`.
pub open spec fn call_post(path: Seq<char>, a: Seq<Val>, r: Result<Option<Builtin>, Error>) -> bool {
    if is_kernel_path(path) {
        math_answer(r) matches Some(x) && kernel_post(path, a, x)
    } else if path == "math.facing"@ {
        value_answer(r) matches Some(x) && facing_post(a, x)
    } else if path == "validation.finite"@ {
        bool_answer(r) matches Some(x) && finite_post(a, x)
    } else if path == "validation.number"@ {
        bool_answer(r) matches Some(x) && number_post(a, x)
    } else if path == "validation.fields"@ {
        bool_answer(r) matches Some(x) && fields_post(a, x)
    } else if path == "validation.attack"@ {
        bool_answer(r) matches Some(x) && attack_post(a, x)
    } else if path == "validation.command_trace"@ {
        bool_answer(r) matches Some(x) && trace_post(a, x)
    } else if path == "validation.hitboxes"@ {
        bool_answer(r) matches Some(x) && hitboxes_post(a, x)
    } else {
        r matches Ok(None)
    }
}

fn answer_bool(r: Result<bool, Error>) -> (o: Result<Option<Builtin>, Error>)
    ensures
        bool_answer(o) == Some(r),
{
    match r {
        Ok(b) => Ok(Some(Builtin::Value(NativeValue::Bool(b)))),
        Err(e) => Err(e),
    }
}

/// Dispatches one generic builtin.  `Ok(None)` means the path belongs to
/// another host namespace; a floating-point kernel comes back as the
/// request for the host to evaluate.
pub fn call<H: NativeHost>(host: &mut H, path: &str, args: &[NativeValue]) -> (r: Result<Option<Builtin>, Error>)
    ensures
        call_post(path@, vals(args@), r),
{
    let request = math_request(path, args)?;
    if let Some(q) = request {
        return Ok(Some(Builtin::Math(q)));
    }
    if str_eq(path, "math.facing") {
        return match math_facing(args) {
            Ok(v) => Ok(Some(Builtin::Value(v))),
            Err(e) => Err(e),
        };
    }
    if str_eq(path, "validation.finite") {
        return answer_bool(finite(args));
    }
    if str_eq(path, "validation.number") {
        return answer_bool(number(args));
    }
    if str_eq(path, "validation.fields") {
        return answer_bool(fields(host, args));
    }
    if str_eq(path, "validation.attack") {
        return answer_bool(attack(host, args));
    }
    if str_eq(path, "validation.command_trace") {
        return answer_bool(command_trace(host, args));
    }
    if str_eq(path, "validation.hitboxes") {
        return answer_bool(hitboxes(host, args));
    }
    Ok(None)
}

// ---------------------------------------------------------------------
// Keyword arguments
// ---------------------------------------------------------------------

/// The keyword names a validation builtin accepts, in positional order
/// after its first argument; `None` for a path with no keyword form.
pub open spec fn named_table(path: Seq<char>) -> Option<Seq<Seq<char>>> {
    if path == "validation.number"@ {
        Some(seq!["nonnegative"@])
    } else if path == "validation.fields"@ {
        Some(seq!["finite"@, "nonnegative"@, "positive"@, "nonzero"@])
    } else if path == "validation.finite"@ || path == "validation.attack"@
        || path == "validation.command_trace"@ || path == "validation.hitboxes"@ {
        Some(Seq::empty())
    } else {
        None
    }
}

/// What fills a skipped positional slot: an empty list of names for
/// `validation.fields`, nothing otherwise.
pub open spec fn fill_value(path: Seq<char>) -> Val {
    if path == "validation.fields"@ { Val::List(Seq::empty()) } else { Val::Null }
}

/// First position of `name` in `table`.
pub open spec fn position_of(table: Seq<Seq<char>>, name: Seq<char>) -> Option<int> {
    if exists|i: int| 0 <= i < table.len() && table[i] == name && forall|j: int| 0 <= j < i ==> table[j] != name {
        Some(choose|i: int| 0 <= i < table.len() && table[i] == name && forall|j: int| 0 <= j < i ==> table[j] != name)
    } else {
        None
    }
}

/// `pos` with `v` at `index`, padded with `fill` up to it.
pub open spec fn place(pos: Seq<Val>, index: nat, v: Val, fill: Val) -> Seq<Val> {
    let padded = if pos.len() <= index { pos + Seq::new((index + 1 - pos.len()) as nat, |i: int| fill) } else { pos };
    padded.update(index as int, v)
}

/// The positional arguments after each keyword entry is placed, in order,
/// or the first name that the table lacks.
pub open spec fn apply_named(pos: Seq<Val>, entries: Seq<(Seq<char>, Val)>, table: Seq<Seq<char>>, fill: Val) -> Result<Seq<Val>, Seq<char>>
    decreases entries.len(),
{
    if entries.len() == 0 {
        Ok(pos)
    } else {
        match position_of(table, entries[0].0) {
            None => Err(entries[0].0),
            Some(i) => apply_named(place(pos, (i + 1) as nat, entries[0].1, fill), entries.drop_first(), table, fill),
        }
    }
}

fn keyword_table(path: &str) -> (r: Option<Vec<&'static str>>)
    ensures
        match named_table(path@) {
            Some(t) => r matches Some(v) && v@.len() == t.len() && forall|i: int| 0 <= i < t.len() ==> (#[trigger] v@[i])@ == t[i],
            None => r is None,
        },
{
    let mut v: Vec<&'static str> = Vec::new();
    if str_eq(path, "validation.number") {
        v.push("nonnegative");
        proof { reveal_strlit("nonnegative"); }
        return Some(v);
    }
    if str_eq(path, "validation.fields") {
        v.push("finite");
        v.push("nonnegative");
        v.push("positive");
        v.push("nonzero");
        return Some(v);
    }
    if str_eq(path, "validation.finite") || str_eq(path, "validation.attack")
        || str_eq(path, "validation.command_trace") || str_eq(path, "validation.hitboxes") {
        return Some(v);
    }
    None
}

fn keyword_position(table: &Vec<&'static str>, name: &str) -> (r: Option<usize>)
    ensures
        match r {
            Some(i) => position_of(Seq::new(table@.len(), |k: int| table@[k]@), name@) == Some(i as int) && i < table@.len(),
            None => position_of(Seq::new(table@.len(), |k: int| table@[k]@), name@) is None,
        },
{
    let ghost t = Seq::new(table@.len(), |k: int| table@[k]@);
    let mut j: usize = 0;
    while j < table.len()
        invariant
            j <= table.len(),
            t == Seq::new(table@.len(), |k: int| table@[k]@),
            forall|k: int| 0 <= k < j ==> t[k] != name@,
        decreases table.len() - j,
    {
        if str_eq(table[j], name) {
            proof {
                assert(t[j as int] == name@);
                let c = choose|i: int| 0 <= i < t.len() && t[i] == name@ && forall|k: int| 0 <= k < i ==> t[k] != name@;
                if c < j {
                    assert(t[c] != name@);
                }
                if j < c {
                    assert(t[j as int] != name@);
                }
            }
            return Some(j);
        }
        j = j + 1;
    }
    None
}

/// Dispatches a validation builtin called with keyword arguments: each
/// entry of `named` (in ascending name order) moves to its positional slot,
/// skipped slots are filled, and the positional call follows.  `Ok(None)`
/// for paths that take no keywords.
pub fn call_named<H: NativeHost>(host: &mut H, path: &str, args: &[NativeValue], named: &[(String, NativeValue)]) -> (r: Result<Option<Builtin>, Error>)
    requires
        names_ascending(vals_dict(named@)),
    ensures
        named_table(path@) is None ==> r matches Ok(None),
        named_table(path@) matches Some(t) ==> match apply_named(vals(args@), vals_dict(named@), t, fill_value(path@)) {
            Err(name) => r matches Err(Error::Host(m)) && m@ == "unknown validation argument `"@ + name + "`"@,
            Ok(pos) => call_post(path@, pos, r),
        },
{
    let Some(table) = keyword_table(path) else {
        return Ok(None);
    };
    let ghost t = named_table(path@)->0;
    assert(Seq::new(table@.len(), |k: int| table@[k]@) =~= t);
    let fields_path = str_eq(path, "validation.fields");
    let ghost fill = fill_value(path@);
    let ghost entries = vals_dict(named@);
    let mut positional: Vec<NativeValue> = Vec::new();
    let mut a: usize = 0;
    while a < args.len()
        invariant
            a <= args.len(),
            positional@.len() == a,
            forall|k: int| 0 <= k < a ==> (#[trigger] positional@[k])@ == args@[k]@,
        decreases args.len() - a,
    {
        positional.push(copy_value(&args[a]));
        a = a + 1;
    }
    assert(vals(positional@) =~= vals(args@));
    assert(entries.subrange(0, entries.len() as int) =~= entries);
    let mut i: usize = 0;
    while i < named.len()
        invariant
            i <= named.len(),
            entries == vals_dict(named@),
            named_table(path@) is Some,
            t == named_table(path@)->0,
            Seq::new(table@.len(), |k: int| table@[k]@) == t,
            t.len() <= 4,
            fill == fill_value(path@),
            fields_path == (path@ == "validation.fields"@),
            positional@.len() <= 5 + args@.len(),
            apply_named(vals(args@), entries, t, fill)
                == apply_named(vals(positional@), entries.subrange(i as int, entries.len() as int), t, fill),
        decreases named.len() - i,
    {
        let ghost rest = entries.subrange(i as int, entries.len() as int);
        assert(rest[0] == entries[i as int]);
        assert(rest.drop_first() =~= entries.subrange(i + 1, entries.len() as int));
        let name = named[i].0.as_str();
        let Some(slot) = keyword_position(&table, name) else {
            let message = concat3("unknown validation argument `", name, "`");
            return Err(Error::Host(message));
        };
        let index = slot + 1;
        let ghost before = vals(positional@);
        while positional.len() <= index
            invariant
                index <= 5,
                before.len() <= positional@.len() <= if before.len() <= index { index + 1 } else { before.len() as int },
                forall|k: int| 0 <= k < before.len() ==> (#[trigger] positional@[k])@ == before[k],
                forall|k: int| before.len() <= k < positional@.len() ==> (#[trigger] positional@[k])@ == fill,
                fields_path == (path@ == "validation.fields"@),
                fill == fill_value(path@),
            decreases index + 1 - positional.len(),
        {
            if fields_path {
                let empty: Vec<NativeValue> = Vec::new();
                let v = NativeValue::List(empty);
                proof {
                    lemma_list_view(v);
                    assert(vals(Seq::<NativeValue>::empty()) =~= Seq::<Val>::empty());
                }
                positional.push(v);
            } else {
                positional.push(NativeValue::Null);
            }
        }
        let value = copy_value(&named[i].1);
        positional.set(index, value);
        proof {
            let placed = place(before, index as nat, entries[i as int].1, fill);
            assert(vals(positional@) =~= placed);
        }
        i = i + 1;
    }
    assert(entries.subrange(named.len() as int, entries.len() as int) =~= Seq::<(Seq<char>, Val)>::empty());
    call(host, path, positional.as_slice())
}

} // verus!
