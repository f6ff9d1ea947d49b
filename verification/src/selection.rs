//! Rollback-safe identity for a selected class move.
//!
//! Native actions are canonical engine states and therefore are not unique
//! move identities.  A moveset entry supplies the behavior index that owns
//! the callbacks; this record travels with the action generation so callback
//! routing cannot fall back to behavior declaration order.

use vstd::prelude::*;
use crate::action::Action;
use crate::move_registry::MoveEntry;

verus! {

/// Counter of native action entries; every entry, re-entry included, gets
/// a fresh generation.
#[derive(Clone, Copy, Debug, Default, PartialEq, Eq, Structural, Hash)]
pub struct ActionGeneration(pub u64);

impl ActionGeneration {
    pub fn get(self) -> (r: u64)
        ensures
            r == self.0,
    {
        self.0
    }

    /// The following generation, unless the counter is exhausted.
    pub fn next(self) -> (r: Option<ActionGeneration>)
        ensures
            self.0 < u64::MAX ==> r == Some(ActionGeneration((self.0 + 1) as u64)),
            self.0 == u64::MAX ==> r is None,
    {
        if self.0 < u64::MAX {
            Some(ActionGeneration(self.0 + 1))
        } else {
            None
        }
    }
}

/// Logical lifetime of a selected class move. This is independent of the
/// native action generation: an owned move may cross several declared native
/// phases while retaining this value.
#[derive(Clone, Copy, Debug, Default, PartialEq, Eq, Structural)]
pub struct MoveLifetimeId(u64);

impl MoveLifetimeId {
    pub closed spec fn value(self) -> u64 {
        self.0
    }

    pub fn get(self) -> (r: u64)
        ensures
            r == self.value(),
    {
        self.0
    }

    pub fn from_raw(value: u64) -> (r: Self)
        ensures
            r.value() == value,
    {
        MoveLifetimeId(value)
    }
}

/// A move owner staged by a selector before its native transition.
#[derive(Clone, Copy, Debug, PartialEq, Eq, Structural)]
pub struct PendingMoveSelection {
    pub behavior_index: usize,
    pub canonical: Option<Action>,
    pub lifetime: MoveLifetimeId,
}

/// The behavior selected for the current native action generation.
#[derive(Clone, Copy, Debug, PartialEq, Eq, Structural)]
pub struct SelectedMove {
    pub behavior_index: usize,
    pub action: Action,
    pub generation: ActionGeneration,
    pub lifetime: MoveLifetimeId,
}

impl SelectedMove {
    /// The owner record for an entry with a canonical action, after the
    /// native transition generation has been staged; `None` for a move
    /// entered by its callback policy.
    pub fn new(entry: MoveEntry, generation: ActionGeneration) -> (r: Option<SelectedMove>)
        ensures
            match entry.canonical {
                Some(action) => r matches Some(m) && m.behavior_index == entry.behavior_index
                    && m.action == action && m.generation == generation && m.lifetime.value() == 0,
                None => r is None,
            },
    {
        match entry.canonical {
            Some(action) => Some(SelectedMove {
                behavior_index: entry.behavior_index,
                action,
                generation,
                lifetime: MoveLifetimeId::from_raw(0),
            }),
            None => None,
        }
    }

    pub fn with_lifetime(entry: MoveEntry, action: Action, generation: ActionGeneration, lifetime: MoveLifetimeId) -> (r: SelectedMove)
        ensures
            r == (SelectedMove { behavior_index: entry.behavior_index, action, generation, lifetime }),
    {
        SelectedMove { behavior_index: entry.behavior_index, action, generation, lifetime }
    }

    /// Whether this owner belongs to `action` at `generation`.
    pub fn matches(self, action: Action, generation: ActionGeneration) -> (r: bool)
        ensures
            r == (self.action == action && self.generation == generation),
    {
        self.action == action && self.generation.0 == generation.0
    }
}

} // verus!
