//! Native runtime event state: transition staging, deadline queues,
//! animation delivery and availability gates.
//!
//! Dispatch returns identities rather than invoking user code, so a handler
//! cannot mutate the scheduler while an event is being delivered.  The state
//! here is small rollback data owned by the native fighter lifecycle; it
//! holds no evaluator or callback data.

use vstd::prelude::*;
use crate::action::Action;
use crate::motion::MotionProfileId;
use crate::move_registry::MoveEntry;
use crate::selection::{ActionGeneration, MoveLifetimeId, PendingMoveSelection, SelectedMove};

verus! {

pub const MAX_SUBSCRIPTIONS: usize = 256;
pub const MAX_PENDING_TRANSITIONS: usize = 8;
pub const MAX_PENDING_DEADLINES: usize = 64;
/// Maximum number of post-commit native events drained in one phase.
pub const MAX_EVENT_CASCADE: usize = 32;

/// A scheduler timer.
#[derive(Clone, Copy, Debug, PartialEq, Eq, Structural, Hash)]
pub struct TimerId(pub u64);

/// The owner of scheduled work.
#[derive(Clone, Copy, Debug, PartialEq, Eq, Structural, Hash)]
pub struct OwnerId(pub u64);

/// Native transition metadata staged by the action entry path.  Callbacks
/// are delivered only after the native transition commits.
#[derive(Clone, Copy, Debug, PartialEq, Eq, Structural)]
pub struct PendingActionTransition {
    pub from: Option<Action>,
    pub to: Action,
    pub generation: ActionGeneration,
    pub preserve_state: bool,
    pub keep_frame: bool,
    pub behavior_index: Option<usize>,
    pub move_lifetime: Option<MoveLifetimeId>,
    pub retain_move: bool,
}

/// Generic native eligibility gates supplied by the host.
#[derive(Clone, Copy, Debug, PartialEq, Eq, Structural)]
pub enum GateKind {
    GroundOpen,
    AirOpen,
    JumpAvailable,
}

/// Identities of a combat hook's participants.
#[derive(Clone, Copy, Debug, PartialEq, Eq, Structural)]
pub struct HitIdentity {
    pub attacker: u8,
    pub victim: u8,
    pub hitbox_group: u8,
    pub projectile: bool,
}

/// A subscription to a native event kind.
#[derive(Clone, Copy, Debug, PartialEq, Eq, Structural, Hash, PartialOrd, Ord)]
pub struct SubscriptionId(pub u64);

impl SubscriptionId {
    pub fn get(self) -> (r: u64)
        ensures
            r == self.0,
    {
        self.0
    }
}

/// Why a subscription was refused.
#[derive(Clone, Copy, Debug, PartialEq, Eq, Structural)]
pub enum DispatchError {
    TooManySubscriptions,
    IdExhausted,
}

impl DispatchError {
    /// The message the error is shown with.
    pub fn message(&self) -> (r: String)
        ensures
            match self {
                DispatchError::TooManySubscriptions => r@ == "event subscription limit of 256 exceeded"@,
                DispatchError::IdExhausted => r@ == "subscription ID space exhausted"@,
            },
    {
        match self {
            DispatchError::TooManySubscriptions => "event subscription limit of 256 exceeded".to_owned(),
            DispatchError::IdExhausted => "subscription ID space exhausted".to_owned(),
        }
    }
}

pub const GROUND_OPEN: u8 = 1;
pub const AIR_OPEN: u8 = 2;
pub const JUMP_AVAILABLE: u8 = 4;

/// The availability bit of a gate.
pub open spec fn gate_bit(gate: GateKind) -> u8 {
    match gate {
        GateKind::GroundOpen => GROUND_OPEN,
        GateKind::AirOpen => AIR_OPEN,
        GateKind::JumpAvailable => JUMP_AVAILABLE,
    }
}

/// Whether `mask` marks `gate` available.
pub open spec fn gate_open(mask: u8, gate: GateKind) -> bool {
    mask & gate_bit(gate) != 0
}

/// `mask` with `gate` marked available or not.
pub open spec fn with_gate(mask: u8, gate: GateKind, available: bool) -> u8 {
    if available { mask | gate_bit(gate) } else { mask & !gate_bit(gate) }
}

/// Small rollback state owned by the native fighter lifecycle dispatcher.
#[derive(Debug, PartialEq)]
pub struct NativeEventState {
    pub action_generation: ActionGeneration,
    /// Full selected-move owner staged by a selector, kept until the
    /// transition boundary.
    pub pending_move_selection: Option<PendingMoveSelection>,
    pub next_move_lifetime: u64,
    /// A native selection failure, carried so the frame can report it
    /// without committing.
    pub native_error: Option<String>,
    pub active_move: Option<SelectedMove>,
    /// Bit 0 = ground open, bit 1 = air open, bit 2 = jump available.
    pub availability_mask: u8,
    /// The generation whose terminal animation notification was committed.
    pub animation_delivered_generation: Option<ActionGeneration>,
    /// Last action animation sample whose authored command row was applied.
    pub command_trace_sample: Option<(ActionGeneration, Action, u32)>,
    /// Forward-filled source values from the preceding animation sample.
    pub command_trace_values: [Option<u32>; 4],
    /// Transition records drained by the native event phase; bounded.
    pub pending_transitions: Vec<PendingActionTransition>,
    /// Delivered deadline events with the timer that produced them.
    pub pending_deadline_events: Vec<(u64, Option<TimerId>)>,
    pub motion_profile_id: Option<MotionProfileId>,
}

impl NativeEventState {
    /// The delivered-animation generation is never ahead of the action
    /// generation.
    pub open spec fn generations_ordered(&self) -> bool {
        self.animation_delivered_generation matches Some(g) ==> g.0 <= self.action_generation.0
    }

    /// A state with no action entered yet.
    pub fn new() -> (r: Self)
        ensures
            r.action_generation.0 == 0,
            r.pending_move_selection is None,
            r.next_move_lifetime == 0,
            r.native_error is None,
            r.active_move is None,
            r.availability_mask == 0,
            r.animation_delivered_generation is None,
            r.command_trace_sample is None,
            r.command_trace_values@ == seq![None::<u32>, None, None, None],
            r.pending_transitions@.len() == 0,
            r.pending_deadline_events@.len() == 0,
            r.motion_profile_id is None,
    {
        let r = NativeEventState {
            action_generation: ActionGeneration(0),
            pending_move_selection: None,
            next_move_lifetime: 0,
            native_error: None,
            active_move: None,
            availability_mask: 0,
            animation_delivered_generation: None,
            command_trace_sample: None,
            command_trace_values: [None, None, None, None],
            pending_transitions: Vec::new(),
            pending_deadline_events: Vec::new(),
            motion_profile_id: None,
        };
        assert(r.command_trace_values@ =~= seq![None::<u32>, None, None, None]);
        r
    }

    /// Advances the action generation and stages its post-commit event.  The
    /// generation changes even on same-action re-entry.  A staged move owner
    /// is consumed by this attempt whether or not it succeeds.
    pub fn begin_action(&mut self, from: Option<Action>, to: Action) -> (r: Result<ActionGeneration, &'static str>)
        ensures
            final(self).pending_move_selection is None,
            final(self).animation_delivered_generation == old(self).animation_delivered_generation,
            final(self).availability_mask == old(self).availability_mask,
            final(self).next_move_lifetime == old(self).next_move_lifetime,
            final(self).native_error == old(self).native_error,
            final(self).active_move == old(self).active_move,
            final(self).command_trace_sample == old(self).command_trace_sample,
            final(self).command_trace_values == old(self).command_trace_values,
            final(self).pending_deadline_events == old(self).pending_deadline_events,
            final(self).motion_profile_id == old(self).motion_profile_id,
            old(self).pending_transitions@.len() >= MAX_PENDING_TRANSITIONS ==> (r matches Err(m)
                && m@ == "native action transition queue is full"@
                && final(self).action_generation == old(self).action_generation
                && final(self).pending_transitions@ == old(self).pending_transitions@),
            old(self).pending_transitions@.len() < MAX_PENDING_TRANSITIONS && old(self).action_generation.0 == u64::MAX
                ==> (r matches Err(m) && m@ == "native action generation exhausted"@
                && final(self).action_generation == old(self).action_generation
                && final(self).pending_transitions@ == old(self).pending_transitions@),
            old(self).pending_transitions@.len() < MAX_PENDING_TRANSITIONS && old(self).action_generation.0 < u64::MAX
                ==> (r == Ok::<ActionGeneration, &'static str>(final(self).action_generation)
                && final(self).action_generation.0 == old(self).action_generation.0 + 1
                && final(self).pending_transitions@ == old(self).pending_transitions@.push(PendingActionTransition {
                    from,
                    to,
                    generation: final(self).action_generation,
                    preserve_state: false,
                    keep_frame: false,
                    behavior_index: match old(self).pending_move_selection {
                        Some(s) => Some(s.behavior_index),
                        None => None,
                    },
                    move_lifetime: match old(self).pending_move_selection {
                        Some(s) => Some(s.lifetime),
                        None => None,
                    },
                    retain_move: false,
                })),
    {
        let staged = self.pending_move_selection.take();
        let (behavior_index, move_lifetime) = match staged {
            Some(s) => (Some(s.behavior_index), Some(s.lifetime)),
            None => (None, None),
        };
        if self.pending_transitions.len() >= MAX_PENDING_TRANSITIONS {
            return Err("native action transition queue is full");
        }
        let generation = match self.action_generation.next() {
            Some(g) => g,
            None => return Err("native action generation exhausted"),
        };
        self.action_generation = generation;
        self.pending_transitions.push(PendingActionTransition {
            from,
            to,
            generation,
            preserve_state: false,
            keep_frame: false,
            behavior_index,
            move_lifetime,
            retain_move: false,
        });
        Ok(generation)
    }

    /// Allocates a logical move lifetime and stages its owner, to be
    /// promoted at the transition boundary.
    pub fn stage_move_selection(&mut self, entry: MoveEntry, native_action: Action) -> (r: Result<MoveLifetimeId, &'static str>)
        ensures
            old(self).next_move_lifetime == u64::MAX ==> (r matches Err(m) && m@ == "native move lifetime exhausted"@
                && *final(self) == *old(self)),
            old(self).next_move_lifetime < u64::MAX ==> (r matches Ok(l)
                && l.value() == old(self).next_move_lifetime + 1
                && final(self).next_move_lifetime == old(self).next_move_lifetime + 1
                && final(self).pending_move_selection == Some(PendingMoveSelection {
                    behavior_index: entry.behavior_index,
                    canonical: entry.canonical,
                    lifetime: l,
                })
                && final(self).action_generation == old(self).action_generation
                && final(self).pending_transitions@ == old(self).pending_transitions@
                && final(self).animation_delivered_generation == old(self).animation_delivered_generation),
    {
        if self.next_move_lifetime == u64::MAX {
            return Err("native move lifetime exhausted");
        }
        let lifetime = self.next_move_lifetime + 1;
        self.next_move_lifetime = lifetime;
        let lifetime = MoveLifetimeId::from_raw(lifetime);
        self.pending_move_selection = Some(PendingMoveSelection {
            behavior_index: entry.behavior_index,
            canonical: entry.canonical,
            lifetime,
        });
        Ok(lifetime)
    }

    /// Keeps the first native error of the frame.
    pub fn record_native_error(&mut self, error: &'static str)
        ensures
            match old(self).native_error {
                Some(e) => final(self).native_error == Some(e),
                None => final(self).native_error matches Some(e) && e@ == error@,
            },
            final(self).action_generation == old(self).action_generation,
            final(self).pending_transitions@ == old(self).pending_transitions@,
            final(self).animation_delivered_generation == old(self).animation_delivered_generation,
    {
        if self.native_error.is_none() {
            self.native_error = Some(error.to_owned());
        }
    }

    pub fn take_pending_move_selection(&mut self) -> (r: Option<PendingMoveSelection>)
        ensures
            r == old(self).pending_move_selection,
            final(self).pending_move_selection is None,
            final(self).action_generation == old(self).action_generation,
            final(self).pending_transitions@ == old(self).pending_transitions@,
    {
        self.pending_move_selection.take()
    }

    /// Sets the native flags of the most recent staged transition.
    pub fn set_last_transition_flags(&mut self, preserve_state: bool, keep_frame: bool)
        ensures
            final(self).action_generation == old(self).action_generation,
            final(self).animation_delivered_generation == old(self).animation_delivered_generation,
            old(self).pending_transitions@.len() == 0 ==> final(self).pending_transitions@ == old(self).pending_transitions@,
            old(self).pending_transitions@.len() > 0 ==> final(self).pending_transitions@ == old(self).pending_transitions@.update(
                old(self).pending_transitions@.len() - 1,
                PendingActionTransition {
                    preserve_state,
                    keep_frame,
                    ..old(self).pending_transitions@.last()
                },
            ),
    {
        let n = self.pending_transitions.len();
        if n > 0 {
            let mut t = self.pending_transitions[n - 1];
            t.preserve_state = preserve_state;
            t.keep_frame = keep_frame;
            self.pending_transitions.set(n - 1, t);
        }
    }

    /// Lets an explicitly declared internal phase retain the active move
    /// owner across its native transition.
    pub fn set_last_transition_move_retention(&mut self, retain: bool)
        ensures
            final(self).action_generation == old(self).action_generation,
            final(self).animation_delivered_generation == old(self).animation_delivered_generation,
            old(self).pending_transitions@.len() == 0 ==> final(self).pending_transitions@ == old(self).pending_transitions@,
            old(self).pending_transitions@.len() > 0 ==> final(self).pending_transitions@ == old(self).pending_transitions@.update(
                old(self).pending_transitions@.len() - 1,
                PendingActionTransition { retain_move: retain, ..old(self).pending_transitions@.last() },
            ),
    {
        let n = self.pending_transitions.len();
        if n > 0 {
            let mut t = self.pending_transitions[n - 1];
            t.retain_move = retain;
            self.pending_transitions.set(n - 1, t);
        }
    }

    /// Drains the staged transitions, oldest first.
    pub fn take_pending_transitions(&mut self) -> (r: Vec<PendingActionTransition>)
        ensures
            r@ == old(self).pending_transitions@,
            final(self).pending_transitions@.len() == 0,
            final(self).action_generation == old(self).action_generation,
            final(self).animation_delivered_generation == old(self).animation_delivered_generation,
    {
        let mut taken: Vec<PendingActionTransition> = Vec::new();
        std::mem::swap(&mut taken, &mut self.pending_transitions);
        taken
    }

    /// Queues a script countdown deadline.
    pub fn push_deadline_token(&mut self, token: u64) -> (r: Result<(), &'static str>)
        ensures
            old(self).pending_deadline_events@.len() >= MAX_PENDING_DEADLINES ==> (r matches Err(m)
                && m@ == "native deadline event queue is full"@
                && final(self).pending_deadline_events@ == old(self).pending_deadline_events@),
            old(self).pending_deadline_events@.len() < MAX_PENDING_DEADLINES ==> (r is Ok
                && final(self).pending_deadline_events@ == old(self).pending_deadline_events@.push((token, None))),
            final(self).action_generation == old(self).action_generation,
            final(self).pending_transitions@ == old(self).pending_transitions@,
    {
        self.push_deadline_event(token, None)
    }

    /// Queues a deadline produced by `timer` (`None` for a script
    /// countdown).
    pub fn push_deadline_event(&mut self, token: u64, timer: Option<TimerId>) -> (r: Result<(), &'static str>)
        ensures
            old(self).pending_deadline_events@.len() >= MAX_PENDING_DEADLINES ==> (r matches Err(m)
                && m@ == "native deadline event queue is full"@
                && final(self).pending_deadline_events@ == old(self).pending_deadline_events@),
            old(self).pending_deadline_events@.len() < MAX_PENDING_DEADLINES ==> (r is Ok
                && final(self).pending_deadline_events@ == old(self).pending_deadline_events@.push((token, timer))),
            final(self).action_generation == old(self).action_generation,
            final(self).pending_transitions@ == old(self).pending_transitions@,
    {
        if self.pending_deadline_events.len() >= MAX_PENDING_DEADLINES {
            return Err("native deadline event queue is full");
        }
        self.pending_deadline_events.push((token, timer));
        Ok(())
    }

    /// Drains the queued deadlines, oldest first.
    pub fn take_deadline_events(&mut self) -> (r: Vec<(u64, Option<TimerId>)>)
        ensures
            r@ == old(self).pending_deadline_events@,
            final(self).pending_deadline_events@.len() == 0,
            final(self).action_generation == old(self).action_generation,
    {
        let mut taken: Vec<(u64, Option<TimerId>)> = Vec::new();
        std::mem::swap(&mut taken, &mut self.pending_deadline_events);
        taken
    }

    /// Whether the terminal animation notification of the current
    /// generation is still to be delivered.
    pub fn animation_due(&self) -> (r: bool)
        ensures
            r == (self.animation_delivered_generation != Some(self.action_generation)),
    {
        match self.animation_delivered_generation {
            Some(g) => g.0 != self.action_generation.0,
            None => true,
        }
    }

    pub fn mark_animation_delivered(&mut self)
        ensures
            final(self).animation_delivered_generation == Some(old(self).action_generation),
            final(self).action_generation == old(self).action_generation,
            final(self).pending_transitions@ == old(self).pending_transitions@,
    {
        self.animation_delivered_generation = Some(self.action_generation);
    }

    pub fn gate_available(&self, gate: GateKind) -> (r: bool)
        ensures
            r == gate_open(self.availability_mask, gate),
    {
        let bit: u8 = match gate {
            GateKind::GroundOpen => GROUND_OPEN,
            GateKind::AirOpen => AIR_OPEN,
            GateKind::JumpAvailable => JUMP_AVAILABLE,
        };
        self.availability_mask & bit != 0
    }

    pub fn set_gate(&mut self, gate: GateKind, available: bool)
        ensures
            final(self).availability_mask == with_gate(old(self).availability_mask, gate, available),
            final(self).action_generation == old(self).action_generation,
            final(self).animation_delivered_generation == old(self).animation_delivered_generation,
    {
        let bit: u8 = match gate {
            GateKind::GroundOpen => GROUND_OPEN,
            GateKind::AirOpen => AIR_OPEN,
            GateKind::JumpAvailable => JUMP_AVAILABLE,
        };
        if available {
            self.availability_mask = self.availability_mask | bit;
        } else {
            self.availability_mask = self.availability_mask & !bit;
        }
    }
}

impl Default for NativeEventState {
    fn default() -> (r: Self)
        ensures
            r.action_generation.0 == 0,
            r.pending_move_selection is None,
            r.next_move_lifetime == 0,
            r.native_error is None,
            r.active_move is None,
            r.availability_mask == 0,
            r.animation_delivered_generation is None,
            r.command_trace_sample is None,
            r.pending_transitions@.len() == 0,
            r.pending_deadline_events@.len() == 0,
            r.motion_profile_id is None,
    {
        NativeEventState::new()
    }
}

/// Setting a gate decides that gate and leaves the others as they were.
pub proof fn law_set_gate_reads_back(mask: u8, gate: GateKind, available: bool, other: GateKind)
    ensures
        gate_open(with_gate(mask, gate, available), gate) == available,
        other != gate ==> gate_open(with_gate(mask, gate, available), other) == gate_open(mask, other),
{
    assert(forall|m: u8, b: u8| (b == 1u8 || b == 2u8 || b == 4u8) ==> #[trigger] ((m | b) & b) != 0u8) by (bit_vector);
    assert(forall|m: u8, b: u8| (b == 1u8 || b == 2u8 || b == 4u8) ==> #[trigger] ((m & !b) & b) == 0u8) by (bit_vector);
    assert(forall|m: u8, b: u8, c: u8| (b == 1u8 || b == 2u8 || b == 4u8) && (c == 1u8 || c == 2u8 || c == 4u8) && b != c
        ==> #[trigger] ((m | b) & c) == m & c) by (bit_vector);
    assert(forall|m: u8, b: u8, c: u8| (b == 1u8 || b == 2u8 || b == 4u8) && (c == 1u8 || c == 2u8 || c == 4u8) && b != c
        ==> #[trigger] ((m & !b) & c) == m & c) by (bit_vector);
}

/// Every successful action entry moves to a strictly later generation,
/// after which the terminal animation of the new generation is due, even
/// if the previous one was delivered.
pub proof fn law_entry_rearms_animation(before: NativeEventState, after: NativeEventState)
    requires
        before.generations_ordered(),
        after.action_generation.0 == before.action_generation.0 + 1,
        after.animation_delivered_generation == before.animation_delivered_generation,
    ensures
        after.action_generation.0 > before.action_generation.0,
        after.animation_delivered_generation != Some(after.action_generation),
        after.generations_ordered(),
{
}

/// Once the animation of a generation is marked delivered it is not due
/// again until the generation changes.
pub proof fn law_animation_delivered_once(before: NativeEventState, after: NativeEventState)
    requires
        after.animation_delivered_generation == Some(before.action_generation),
        after.action_generation == before.action_generation,
    ensures
        !(after.animation_delivered_generation != Some(after.action_generation)),
        after.generations_ordered(),
{
}

} // verus!
