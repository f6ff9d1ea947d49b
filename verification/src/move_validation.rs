//! Registration-time validation for canonical class move destinations.

use vstd::prelude::*;
use crate::action::{action_name, action_text, Action};
use crate::text::{concat3, decimal_string, decimal_text};

verus! {

/// A native motion state profile of a fighter's data.
#[derive(Clone, Copy, Debug, PartialEq, Eq, Structural)]
pub struct MotionStateProfile {
    pub state_id: u32,
    pub animation_id: i32,
    pub move_id: u32,
    pub flags: u32,
}

/// A refused fighter data resource.
#[derive(Clone, Debug, PartialEq, Eq)]
pub enum Error {
    Data(String),
}

/// A canonical source (custom) action must name its Slippi state.
pub fn validate_source_state_reference(action: Action, state: Option<u32>) -> (r: Result<(), Error>)
    ensures
        (action is Custom && state is None) ==> (r matches Err(Error::Data(m))
            && m@ == "canonical source action "@ + action_text(action) + " has no Slippi state"@),
        !(action is Custom && state is None) ==> r is Ok,
{
    if action.custom_id().is_some() && state.is_none() {
        let name = action_name(action);
        return Err(Error::Data(concat3("canonical source action ", name.as_str(), " has no Slippi state")));
    }
    Ok(())
}

/// Whether some profile is for state `s`.
pub open spec fn has_profile(p: Seq<MotionStateProfile>, s: u32) -> bool {
    exists|i: int| 0 <= i < p.len() && #[trigger] p[i].state_id == s
}

/// The profile check of a canonical destination: a custom action needs a
/// Slippi state, and a destination with a state needs a motion state
/// profile for that state.
pub open spec fn profile_fault(action: Action, state: Option<u32>, profiles: Option<Seq<MotionStateProfile>>) -> Option<Seq<char>> {
    if action is Custom && state is None {
        Some("canonical source action "@ + action_text(action) + " has no Slippi state"@)
    } else {
        match state {
            None => None,
            Some(s) => match profiles {
                None => Some("canonical source action "@ + action_text(action) + " has no motion state profile"@),
                Some(p) => if has_profile(p, s) {
                    None
                } else {
                    Some("canonical source action "@ + action_text(action) + " state "@ + decimal_text(s as nat)
                        + " has no motion state profile"@)
                },
            },
        }
    }
}

pub fn validate_source_state_profile(action: Action, state: Option<u32>, profiles: Option<&[MotionStateProfile]>)
    -> (r: Result<(), Error>)
    ensures
        match profile_fault(action, state, match profiles { Some(p) => Some(p@), None => None }) {
            Some(m) => r matches Err(Error::Data(e)) && e@ == m,
            None => r is Ok,
        },
{
    validate_source_state_reference(action, state)?;
    let Some(s) = state else {
        return Ok(());
    };
    let Some(ps) = profiles else {
        let name = action_name(action);
        return Err(Error::Data(concat3("canonical source action ", name.as_str(), " has no motion state profile")));
    };
    let mut i: usize = 0;
    while i < ps.len()
        invariant
            i <= ps@.len(),
            state == Some(s),
            profiles == Some(ps),
            forall|j: int| 0 <= j < i ==> ps@[j].state_id != s,
        decreases ps.len() - i,
    {
        if ps[i].state_id == s {
            assert(ps@[i as int].state_id == s);
            assert(has_profile(ps@, s));
            return Ok(());
        }
        i = i + 1;
    }
    let name = action_name(action);
    let head = concat3("canonical source action ", name.as_str(), " state ");
    let digits = decimal_string(s as u64);
    Err(Error::Data(concat3(head.as_str(), digits.as_str(), " has no motion state profile")))
}

} // verus!
