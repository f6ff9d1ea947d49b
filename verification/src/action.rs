//! Native fighter actions and their authoring spellings.
//!
//! An action is either one of the engine's named states or a custom state
//! allocated for a fighter-defined (source) action.  Authoring data names
//! actions by their variant spelling (`SpecialNStart`) or by a source
//! reference (`Source.<external id>:<state>`).

use vstd::prelude::*;
use crate::text::{
    chars_of, concat3, decimal_string, decimal_text, has_prefix, parse_unsigned, parse_unsigned_text,
    slice_chars, starts_with, str_eq,
};

verus! {

/// Identity of a custom (fighter-defined) native action.
#[derive(Clone, Copy, Debug, PartialEq, Eq, Structural, Hash)]
pub struct CustomActionId(pub u64);

impl CustomActionId {
    pub fn new(value: u64) -> (r: Self)
        ensures
            r.0 == value,
    {
        CustomActionId(value)
    }

    pub fn get(self) -> (r: u64)
        ensures
            r == self.0,
    {
        self.0
    }
}

/// A native fighter action.
#[derive(Clone, Copy, Debug, PartialEq, Eq, Structural, Hash)]
pub enum Action {
    Wait,
    Walk,
    Pass,
    FallSpecial,
    SpecialN,
    SpecialNStart,
    SpecialNLoop,
    SpecialNEnd,
    SpecialAirNStart,
    SpecialS,
    SpecialHi,
    SpecialHiBound,
    SpecialLw,
    SpecialLwTurn,
    Eliminated,
    Custom(CustomActionId),
}

/// The custom action id of the source state `state` owned by the fighter
/// with external id `external_id`: the external id in the high half and the
/// state in the low half.
pub open spec fn spec_source_action_id(external_id: u8, state: u32) -> u64 {
    ((external_id as u64) * 0x1_0000_0000u64 + (state as u64)) as u64
}

pub fn source_action_id(external_id: u8, state: u32) -> (r: CustomActionId)
    ensures
        r.0 == spec_source_action_id(external_id, state),
{
    CustomActionId((external_id as u64) * 0x1_0000_0000u64 + (state as u64))
}

/// The `Debug` spelling of an action, which is also its authoring name.
pub open spec fn action_text(a: Action) -> Seq<char> {
    match a {
        Action::Wait => "Wait"@,
        Action::Walk => "Walk"@,
        Action::Pass => "Pass"@,
        Action::FallSpecial => "FallSpecial"@,
        Action::SpecialN => "SpecialN"@,
        Action::SpecialNStart => "SpecialNStart"@,
        Action::SpecialNLoop => "SpecialNLoop"@,
        Action::SpecialNEnd => "SpecialNEnd"@,
        Action::SpecialAirNStart => "SpecialAirNStart"@,
        Action::SpecialS => "SpecialS"@,
        Action::SpecialHi => "SpecialHi"@,
        Action::SpecialHiBound => "SpecialHiBound"@,
        Action::SpecialLw => "SpecialLw"@,
        Action::SpecialLwTurn => "SpecialLwTurn"@,
        Action::Eliminated => "Eliminated"@,
        Action::Custom(id) => "Custom(CustomActionId("@ + decimal_text(id.0 as nat) + "))"@,
    }
}

/// The named action whose variant spelling is `name`.
pub open spec fn spec_named_action(name: Seq<char>) -> Option<Action> {
    if name == "Wait"@ { Some(Action::Wait) }
    else if name == "Walk"@ { Some(Action::Walk) }
    else if name == "Pass"@ { Some(Action::Pass) }
    else if name == "FallSpecial"@ { Some(Action::FallSpecial) }
    else if name == "SpecialN"@ { Some(Action::SpecialN) }
    else if name == "SpecialNStart"@ { Some(Action::SpecialNStart) }
    else if name == "SpecialNLoop"@ { Some(Action::SpecialNLoop) }
    else if name == "SpecialNEnd"@ { Some(Action::SpecialNEnd) }
    else if name == "SpecialAirNStart"@ { Some(Action::SpecialAirNStart) }
    else if name == "SpecialS"@ { Some(Action::SpecialS) }
    else if name == "SpecialHi"@ { Some(Action::SpecialHi) }
    else if name == "SpecialHiBound"@ { Some(Action::SpecialHiBound) }
    else if name == "SpecialLw"@ { Some(Action::SpecialLw) }
    else if name == "SpecialLwTurn"@ { Some(Action::SpecialLwTurn) }
    else if name == "Eliminated"@ { Some(Action::Eliminated) }
    else { None }
}

/// Position of the first `c` in `s`, if any.
pub open spec fn first_index_of(s: Seq<char>, c: char) -> Option<int> {
    if exists|i: int| 0 <= i < s.len() && s[i] == c {
        Some(choose|i: int| 0 <= i < s.len() && s[i] == c && forall|j: int| 0 <= j < i ==> s[j] != c)
    } else {
        None
    }
}

/// The external id and state of a `Source.<external id>:<state>` reference.
pub open spec fn spec_source_reference(name: Seq<char>) -> Option<(u8, u32)> {
    if has_prefix(name, "Source."@) {
        let rest = name.subrange(7, name.len() as int);
        match first_index_of(rest, ':') {
            Some(k) => {
                let ext = parse_unsigned(rest.subrange(0, k), 0xff);
                let state = parse_unsigned(rest.subrange(k + 1, rest.len() as int), 0xffff_ffff);
                if ext is Some && state is Some {
                    Some((ext->0 as u8, state->0 as u32))
                } else {
                    None
                }
            },
            None => None,
        }
    } else {
        None
    }
}

/// What an authoring action name (without any `Action.` prefix) denotes.
pub open spec fn spec_parse_action(name: Seq<char>) -> Option<Action> {
    match spec_named_action(name) {
        Some(a) => Some(a),
        None => match spec_source_reference(name) {
            Some((ext, state)) => Some(Action::Custom(CustomActionId(spec_source_action_id(ext, state)))),
            None => None,
        },
    }
}

impl Action {
    /// The custom id of a custom action.
    pub fn custom_id(self) -> (r: Option<CustomActionId>)
        ensures
            r == (match self {
                Action::Custom(id) => Some(id),
                _ => None,
            }),
    {
        match self {
            Action::Custom(id) => Some(id),
            _ => None,
        }
    }
}

/// The `Debug` spelling of `action`.
pub fn action_name(action: Action) -> (r: String)
    ensures
        r@ == action_text(action),
{
    match action {
        Action::Wait => "Wait".to_owned(),
        Action::Walk => "Walk".to_owned(),
        Action::Pass => "Pass".to_owned(),
        Action::FallSpecial => "FallSpecial".to_owned(),
        Action::SpecialN => "SpecialN".to_owned(),
        Action::SpecialNStart => "SpecialNStart".to_owned(),
        Action::SpecialNLoop => "SpecialNLoop".to_owned(),
        Action::SpecialNEnd => "SpecialNEnd".to_owned(),
        Action::SpecialAirNStart => "SpecialAirNStart".to_owned(),
        Action::SpecialS => "SpecialS".to_owned(),
        Action::SpecialHi => "SpecialHi".to_owned(),
        Action::SpecialHiBound => "SpecialHiBound".to_owned(),
        Action::SpecialLw => "SpecialLw".to_owned(),
        Action::SpecialLwTurn => "SpecialLwTurn".to_owned(),
        Action::Eliminated => "Eliminated".to_owned(),
        Action::Custom(id) => {
            let digits = decimal_string(id.0);
            concat3("Custom(CustomActionId(", digits.as_str(), "))")
        },
    }
}

fn named_action(name: &str) -> (r: Option<Action>)
    ensures
        r == spec_named_action(name@),
{
    if str_eq(name, "Wait") {
        Some(Action::Wait)
    } else if str_eq(name, "Walk") {
        Some(Action::Walk)
    } else if str_eq(name, "Pass") {
        Some(Action::Pass)
    } else if str_eq(name, "FallSpecial") {
        Some(Action::FallSpecial)
    } else if str_eq(name, "SpecialN") {
        Some(Action::SpecialN)
    } else if str_eq(name, "SpecialNStart") {
        Some(Action::SpecialNStart)
    } else if str_eq(name, "SpecialNLoop") {
        Some(Action::SpecialNLoop)
    } else if str_eq(name, "SpecialNEnd") {
        Some(Action::SpecialNEnd)
    } else if str_eq(name, "SpecialAirNStart") {
        Some(Action::SpecialAirNStart)
    } else if str_eq(name, "SpecialS") {
        Some(Action::SpecialS)
    } else if str_eq(name, "SpecialHi") {
        Some(Action::SpecialHi)
    } else if str_eq(name, "SpecialHiBound") {
        Some(Action::SpecialHiBound)
    } else if str_eq(name, "SpecialLw") {
        Some(Action::SpecialLw)
    } else if str_eq(name, "SpecialLwTurn") {
        Some(Action::SpecialLwTurn)
    } else if str_eq(name, "Eliminated") {
        Some(Action::Eliminated)
    } else {
        None
    }
}

/// Position of the first `c` in `s`.
pub fn find_char(s: &str, c: char) -> (r: Option<usize>)
    ensures
        match r {
            Some(k) => first_index_of(s@, c) == Some(k as int) && k < s@.len() && s@[k as int] == c,
            None => first_index_of(s@, c) is None,
        },
{
    let x = chars_of(s);
    let mut i: usize = 0;
    while i < x.len()
        invariant
            x@ == s@,
            i <= x.len(),
            forall|j: int| 0 <= j < i ==> s@[j] != c,
        decreases x.len() - i,
    {
        if x[i] == c {
            assert(forall|j: int| 0 <= j < i ==> s@[j] != c);
            let ghost w = choose|k: int| 0 <= k < s@.len() && s@[k] == c && forall|j: int| 0 <= j < k ==> s@[j] != c;
            assert(0 <= i < s@.len() && s@[i as int] == c && forall|j: int| 0 <= j < i ==> s@[j] != c);
            assert(w == i) by {
                if w < i {
                } else if w > i {
                    assert(s@[i as int] != c);
                }
            }
            return Some(i);
        }
        i = i + 1;
    }
    None
}

fn source_reference(name: &str) -> (r: Option<(u8, u32)>)
    ensures
        r == spec_source_reference(name@),
{
    proof {
        reveal_strlit("Source.");
    }
    if !starts_with(name, "Source.") {
        return None;
    }
    let n = name.unicode_len();
    let rest = slice_chars(name, 7, n);
    let ghost rv = name@.subrange(7, name@.len() as int);
    match find_char(rest.as_str(), ':') {
        None => None,
        Some(k) => {
            let head = slice_chars(rest.as_str(), 0, k);
            let tail = slice_chars(rest.as_str(), k + 1, rest.unicode_len());
            let ext = parse_unsigned_text(head.as_str(), 0xff);
            let state = parse_unsigned_text(tail.as_str(), 0xffff_ffff);
            match (ext, state) {
                (Some(e), Some(s)) => Some((e as u8, s as u32)),
                _ => None,
            }
        },
    }
}

/// The action an authoring name denotes: a named action's variant spelling,
/// or `Source.<external id>:<state>` for a custom source state.
pub fn parse_action(name: &str) -> (r: Option<Action>)
    ensures
        r == spec_parse_action(name@),
{
    match named_action(name) {
        Some(a) => Some(a),
        None => match source_reference(name) {
            Some((ext, state)) => Some(Action::Custom(source_action_id(ext, state))),
            None => None,
        },
    }
}

} // verus!
