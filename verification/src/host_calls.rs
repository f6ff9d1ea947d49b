//! Keyword arguments of the lifecycle host's own calls.
//!
//! A lifecycle call made with keyword arguments (and served by no generic
//! builtin) is turned into a positional call before the host runs it.  Each
//! call names the keywords it accepts; an unknown keyword is refused before
//! anything is placed.  `fighter.emit_projectile` takes its arguments by
//! keyword only, all of them.

use vstd::prelude::*;
use crate::builtins::place;
use crate::native::{copy_value, vals, vals_dict, Error, NativeValue, Val};
use crate::text::{concat3, str_eq};

verus! {

/// The keyword form of a lifecycle call: the name it is reported under,
/// its keywords in the order they are placed, and the positional slot of
/// each.
pub open spec fn keyword_slots(path: Seq<char>) -> Option<(Seq<char>, Seq<Seq<char>>, Seq<nat>)> {
    if path == "fighter.change_action"@ {
        Some(("change_action"@, seq!["preserve_state"@, "keep_frame"@, "preserve_fields"@], seq![1nat, 2nat, 3nat]))
    } else if path == "context.pass_as"@ || path == "pass_as"@ {
        Some(("pass_as"@, seq!["action"@, "keep_frame"@], seq![1nat, 2nat]))
    } else if path == "fighter.enter_fall_special"@ {
        Some(("enter_fall_special"@, seq!["mobility"@, "landing_lag"@], seq![0nat, 1nat]))
    } else {
        None
    }
}

/// The keywords of `fighter.emit_projectile`, in positional order.
pub open spec fn projectile_keywords() -> Seq<Seq<char>> {
    seq!["kind"@, "position"@, "angle"@, "speed"@, "lifetime"@, "hitboxes"@, "move_id"@]
}

/// The first keyword (in the order given) that `allowed` lacks.
pub open spec fn first_unknown(entries: Seq<(Seq<char>, Val)>, allowed: Seq<Seq<char>>) -> Option<Seq<char>>
    decreases entries.len(),
{
    if entries.len() == 0 {
        None
    } else if !allowed.contains(entries[0].0) {
        Some(entries[0].0)
    } else {
        first_unknown(entries.drop_first(), allowed)
    }
}

/// The value given for keyword `name`.
pub open spec fn keyword_value(entries: Seq<(Seq<char>, Val)>, name: Seq<char>) -> Option<Val>
    decreases entries.len(),
{
    if entries.len() == 0 {
        None
    } else if entries[0].0 == name {
        Some(entries[0].1)
    } else {
        keyword_value(entries.drop_first(), name)
    }
}

/// `pos` with each given keyword placed at its slot, padding with null.
pub open spec fn place_keywords(pos: Seq<Val>, entries: Seq<(Seq<char>, Val)>, names: Seq<Seq<char>>, slots: Seq<nat>) -> Seq<Val>
    decreases names.len(),
{
    if names.len() == 0 || slots.len() == 0 {
        pos
    } else {
        let placed = match keyword_value(entries, names[0]) {
            Some(v) => place(pos, slots[0], v, Val::Null),
            None => pos,
        };
        place_keywords(placed, entries, names.drop_first(), slots.drop_first())
    }
}

/// The first of `names` with no value.
pub open spec fn first_missing(entries: Seq<(Seq<char>, Val)>, names: Seq<Seq<char>>) -> Option<Seq<char>>
    decreases names.len(),
{
    if names.len() == 0 {
        None
    } else if keyword_value(entries, names[0]) is None {
        Some(names[0])
    } else {
        first_missing(entries, names.drop_first())
    }
}

/// The positional arguments of lifecycle call `path` made with positional
/// arguments `pos` and keyword arguments `entries`, or the message that
/// refuses it.
pub open spec fn spec_named_arguments(path: Seq<char>, pos: Seq<Val>, entries: Seq<(Seq<char>, Val)>) -> Result<Seq<Val>, Seq<char>> {
    if entries.len() == 0 {
        Ok(pos)
    } else if path == "fighter.emit_projectile"@ {
        let names = projectile_keywords();
        match first_unknown(entries, names) {
            Some(n) => Err("unknown emit_projectile argument `"@ + n + "`"@),
            None => if pos.len() != 0 {
                Err("emit_projectile expects named arguments"@)
            } else {
                match first_missing(entries, names) {
                    Some(n) => Err("emit_projectile missing required argument `"@ + n + "`"@),
                    None => Ok(Seq::new(names.len(), |i: int| keyword_value(entries, names[i])->0)),
                }
            },
        }
    } else {
        match keyword_slots(path) {
            Some((kind, names, slots)) => match first_unknown(entries, names) {
                Some(n) => Err("unknown "@ + kind + " argument `"@ + n + "`"@),
                None => Ok(place_keywords(pos, entries, names, slots)),
            },
            None => Err("native call `"@ + path + "` does not accept named arguments"@),
        }
    }
}

/// Index of the first entry named `name`.
fn find_keyword(named: &[(String, NativeValue)], name: &str) -> (r: Option<usize>)
    ensures
        match keyword_value(vals_dict(named@), name@) {
            Some(v) => r matches Some(i) && i < named@.len() && named@[i as int].1@ == v,
            None => r is None,
        },
{
    let ghost e = vals_dict(named@);
    let mut i: usize = 0;
    assert(e.subrange(0, e.len() as int) =~= e);
    while i < named.len()
        invariant
            i <= named.len(),
            e == vals_dict(named@),
            keyword_value(e, name@) == keyword_value(e.subrange(i as int, e.len() as int), name@),
        decreases named.len() - i,
    {
        let ghost rest = e.subrange(i as int, e.len() as int);
        assert(rest[0] == e[i as int]);
        assert(rest.drop_first() =~= e.subrange(i + 1, e.len() as int));
        if str_eq(named[i].0.as_str(), name) {
            return Some(i);
        }
        i = i + 1;
    }
    assert(e.subrange(i as int, e.len() as int) =~= Seq::<(Seq<char>, Val)>::empty());
    None
}

fn contains_name(allowed: &Vec<&'static str>, name: &str) -> (r: bool)
    ensures
        r == Seq::new(allowed@.len(), |k: int| allowed@[k]@).contains(name@),
{
    let ghost t = Seq::new(allowed@.len(), |k: int| allowed@[k]@);
    let mut j: usize = 0;
    while j < allowed.len()
        invariant
            j <= allowed.len(),
            t == Seq::new(allowed@.len(), |k: int| allowed@[k]@),
            forall|k: int| 0 <= k < j ==> t[k] != name@,
        decreases allowed.len() - j,
    {
        if str_eq(allowed[j], name) {
            assert(t[j as int] == name@);
            return true;
        }
        j = j + 1;
    }
    false
}

/// The first keyword `allowed` lacks.
fn find_unknown(named: &[(String, NativeValue)], allowed: &Vec<&'static str>) -> (r: Option<usize>)
    ensures
        match first_unknown(vals_dict(named@), Seq::new(allowed@.len(), |k: int| allowed@[k]@)) {
            Some(n) => r matches Some(i) && i < named@.len() && named@[i as int].0@ == n,
            None => r is None,
        },
{
    let ghost e = vals_dict(named@);
    let ghost t = Seq::new(allowed@.len(), |k: int| allowed@[k]@);
    let mut i: usize = 0;
    assert(e.subrange(0, e.len() as int) =~= e);
    while i < named.len()
        invariant
            i <= named.len(),
            e == vals_dict(named@),
            t == Seq::new(allowed@.len(), |k: int| allowed@[k]@),
            first_unknown(e, t) == first_unknown(e.subrange(i as int, e.len() as int), t),
        decreases named.len() - i,
    {
        let ghost rest = e.subrange(i as int, e.len() as int);
        assert(rest[0] == e[i as int]);
        assert(rest.drop_first() =~= e.subrange(i + 1, e.len() as int));
        if !contains_name(allowed, named[i].0.as_str()) {
            return Some(i);
        }
        i = i + 1;
    }
    assert(e.subrange(i as int, e.len() as int) =~= Seq::<(Seq<char>, Val)>::empty());
    None
}


/// `pos` with `v` placed at `index`, padded with null.
fn place_value(positional: &mut Vec<NativeValue>, index: usize, v: &NativeValue)
    requires
        index < 8,
    ensures
        vals(final(positional)@) == place(vals(old(positional)@), index as nat, v@, Val::Null),
{
    let ghost before = vals(positional@);
    while positional.len() <= index
        invariant
            index < 8,
            before.len() <= positional@.len() <= if before.len() <= index { index + 1 } else { before.len() as int },
            forall|k: int| 0 <= k < before.len() ==> (#[trigger] positional@[k])@ == before[k],
            forall|k: int| before.len() <= k < positional@.len() ==> (#[trigger] positional@[k])@ == Val::Null,
        decreases index + 1 - positional.len(),
    {
        positional.push(NativeValue::Null);
    }
    positional.set(index, copy_value(v));
    assert(vals(positional@) =~= place(before, index as nat, v@, Val::Null));
}

fn projectile_arguments(args: &[NativeValue], named: &[(String, NativeValue)]) -> (r: Result<Vec<NativeValue>, Error>)
    requires
        named@.len() > 0,
    ensures
        match spec_named_arguments("fighter.emit_projectile"@, vals(args@), vals_dict(named@)) {
            Ok(pos) => r matches Ok(v) && vals(v@) == pos,
            Err(m) => r matches Err(Error::Host(msg)) && msg@ == m,
        },
{
    proof {
        reveal_strlit("fighter.emit_projectile");
    }
    let names: Vec<&'static str> = vec!["kind", "position", "angle", "speed", "lifetime", "hitboxes", "move_id"];
    let ghost t = Seq::new(names@.len(), |k: int| names@[k]@);
    proof {
        reveal_strlit("kind");
        reveal_strlit("position");
        reveal_strlit("angle");
        reveal_strlit("speed");
        reveal_strlit("lifetime");
        reveal_strlit("hitboxes");
        reveal_strlit("move_id");
        assert(t =~= projectile_keywords());
    }
    let ghost e = vals_dict(named@);
    if let Some(i) = find_unknown(named, &names) {
        return Err(Error::Host(concat3("unknown emit_projectile argument `", named[i].0.as_str(), "`")));
    }
    if args.len() != 0 {
        return Err(Error::Host("emit_projectile expects named arguments".to_owned()));
    }
    let mut out: Vec<NativeValue> = Vec::new();
    let mut k: usize = 0;
    assert(t.subrange(0, t.len() as int) =~= t);
    while k < names.len()
        invariant
            k <= names.len(),
            names@.len() == 7,
            named@.len() > 0,
            first_unknown(e, t) is None,
            args@.len() == 0,
            t == Seq::new(names@.len(), |j: int| names@[j]@),
            t == projectile_keywords(),
            e == vals_dict(named@),
            first_missing(e, t) == first_missing(e, t.subrange(k as int, t.len() as int)),
            out@.len() == k,
            forall|j: int| 0 <= j < k ==> (keyword_value(e, t[j]) matches Some(v) && (#[trigger] out@[j])@ == v),
        decreases names.len() - k,
    {
        let ghost rest = t.subrange(k as int, t.len() as int);
        assert(rest[0] == t[k as int]);
        assert(rest.drop_first() =~= t.subrange(k + 1, t.len() as int));
        match find_keyword(named, names[k]) {
            None => {
                return Err(Error::Host(concat3("emit_projectile missing required argument `", names[k], "`")));
            },
            Some(i) => {
                out.push(copy_value(&named[i].1));
            },
        }
        k = k + 1;
    }
    assert(t.subrange(7, 7) =~= Seq::<Seq<char>>::empty());
    assert(vals(out@) =~= Seq::new(t.len(), |i: int| keyword_value(e, t[i])->0));
    Ok(out)
}

/// A copy of the positional arguments.
fn copy_args(args: &[NativeValue]) -> (r: Vec<NativeValue>)
    ensures
        vals(r@) == vals(args@),
{
    let mut positional: Vec<NativeValue> = Vec::new();
    let mut a: usize = 0;
    while a < args.len()
        invariant
            a <= args.len(),
            positional@.len() == a,
            forall|k: int| 0 <= k < a ==> (#[trigger] positional@[k])@ == args@[k]@,
        decreases args.len() - a,
    {
        positional.push(copy_value(&args[a]));
        a = a + 1;
    }
    assert(vals(positional@) =~= vals(args@));
    positional
}

/// The positional arguments a lifecycle call made with keyword arguments
/// resolves to, as `spec_named_arguments` says; a refusal is a host error
/// with its message.
pub fn lifecycle_named_arguments(path: &str, args: &[NativeValue], named: &[(String, NativeValue)]) -> (r: Result<Vec<NativeValue>, Error>)
    requires
        crate::native::names_ascending(vals_dict(named@)),
    ensures
        match spec_named_arguments(path@, vals(args@), vals_dict(named@)) {
            Ok(pos) => r matches Ok(v) && vals(v@) == pos,
            Err(m) => r matches Err(Error::Host(msg)) && msg@ == m,
        },
{
    if named.len() == 0 {
        return Ok(copy_args(args));
    }
    if str_eq(path, "fighter.emit_projectile") {
        return projectile_arguments(args, named);
    }
    proof {
        reveal_strlit("fighter.emit_projectile");
        reveal_strlit("fighter.change_action");
        reveal_strlit("context.pass_as");
        reveal_strlit("pass_as");
        reveal_strlit("fighter.enter_fall_special");
        reveal_strlit("change_action");
        reveal_strlit("enter_fall_special");
        reveal_strlit("preserve_state");
        reveal_strlit("keep_frame");
        reveal_strlit("preserve_fields");
        reveal_strlit("action");
        reveal_strlit("mobility");
        reveal_strlit("landing_lag");
    }
    let kind: &str;
    let names: Vec<&'static str>;
    let slots: Vec<usize>;
    if str_eq(path, "fighter.change_action") {
        kind = "change_action";
        names = vec!["preserve_state", "keep_frame", "preserve_fields"];
        slots = vec![1, 2, 3];
    } else if str_eq(path, "context.pass_as") || str_eq(path, "pass_as") {
        kind = "pass_as";
        names = vec!["action", "keep_frame"];
        slots = vec![1, 2];
    } else if str_eq(path, "fighter.enter_fall_special") {
        kind = "enter_fall_special";
        names = vec!["mobility", "landing_lag"];
        slots = vec![0, 1];
    } else {
        return Err(Error::Host(concat3("native call `", path, "` does not accept named arguments")));
    }
    let ghost t = Seq::new(names@.len(), |k: int| names@[k]@);
    let ghost sl = Seq::new(slots@.len(), |k: int| slots@[k] as nat);
    assert(keyword_slots(path@) == Some((kind@, t, sl)));
    let ghost e = vals_dict(named@);
    if let Some(i) = find_unknown(named, &names) {
        let head = concat3("unknown ", kind, " argument `");
        return Err(Error::Host(concat3(head.as_str(), named[i].0.as_str(), "`")));
    }
    let mut positional = copy_args(args);
    let mut k: usize = 0;
    assert(t.subrange(0, t.len() as int) =~= t);
    assert(sl.subrange(0, sl.len() as int) =~= sl);
    while k < names.len()
        invariant
            k <= names.len(),
            names@.len() == slots@.len() <= 3,
            forall|j: int| 0 <= j < slots@.len() ==> #[trigger] slots@[j] <= 3,
            t == Seq::new(names@.len(), |j: int| names@[j]@),
            sl == Seq::new(slots@.len(), |j: int| slots@[j] as nat),
            e == vals_dict(named@),
            place_keywords(vals(args@), e, t, sl)
                == place_keywords(vals(positional@), e, t.subrange(k as int, t.len() as int), sl.subrange(k as int, sl.len() as int)),
        decreases names.len() - k,
    {
        let ghost rest = t.subrange(k as int, t.len() as int);
        let ghost srest = sl.subrange(k as int, sl.len() as int);
        assert(rest[0] == t[k as int]);
        assert(srest[0] == sl[k as int]);
        assert(rest.drop_first() =~= t.subrange(k + 1, t.len() as int));
        assert(srest.drop_first() =~= sl.subrange(k + 1, sl.len() as int));
        if let Some(i) = find_keyword(named, names[k]) {
            place_value(&mut positional, slots[k], &named[i].1);
        }
        k = k + 1;
    }
    assert(t.subrange(k as int, t.len() as int) =~= Seq::<Seq<char>>::empty());
    Ok(positional)
}

} // verus!
