//! Binding of class moves to their lowered asynchronous `run` methods.
//!
//! A prepared move owns an immutable lowered plan on the gameplay thread;
//! preparation happens at an explicit thread boundary, never during
//! gameplay lookup.  This module decides which behaviors need an image and
//! carries the metadata that binds a move to its `run` method.

use vstd::prelude::*;
use crate::action::Action;
use crate::events::TimerId;
use crate::native::{dict_get, dict_lookup, lemma_dict_view, vals_dict, NativeValue, Val};
use crate::selection::{ActionGeneration, SelectedMove};

verus! {

/// Metadata needed to bind a class move to its lowered `run` method.
#[derive(Clone, Debug, PartialEq, Eq)]
pub struct MoveRunMetadata {
    pub identity: String,
    pub function_name: String,
    pub module_name: String,
}

impl MoveRunMetadata {
    /// Metadata for a `run` method of the root module.
    pub fn new(identity: String, function_name: String) -> (r: Self)
        ensures
            r.identity@ == identity@,
            r.function_name@ == function_name@,
            r.module_name@ == "__root__"@,
    {
        Self::with_module(identity, function_name, "__root__".to_owned())
    }

    pub fn with_module(identity: String, function_name: String, module_name: String) -> (r: Self)
        ensures
            r.identity@ == identity@,
            r.function_name@ == function_name@,
            r.module_name@ == module_name@,
    {
        MoveRunMetadata { identity, function_name, module_name }
    }
}

/// The behaviors whose move image must be prepared for a linked program:
/// each one that has a `run` method and is not prepared yet, in order.
/// `has_run[i]` tells whether behavior `i` has a `run` method and
/// `prepared[i]` (when present) whether this thread already holds its image.
pub fn prepare_program(linked: bool, has_run: &Vec<bool>, prepared: &Vec<bool>) -> (r: Result<Vec<usize>, String>)
    ensures
        !linked ==> (r matches Err(m) && m@ == "program is not linked"@),
        linked ==> (r matches Ok(v) && v@ == Seq::new(has_run@.len(), |i: int| i as usize).filter(
            |i: usize| has_run@[i as int] && !(i < prepared@.len() && prepared@[i as int]))),
{
    if !linked {
        return Err("program is not linked".to_owned());
    }
    let ghost all = Seq::new(has_run@.len(), |i: int| i as usize);
    let ghost keep = |i: usize| has_run@[i as int] && !(i < prepared@.len() && prepared@[i as int]);
    let mut out: Vec<usize> = Vec::new();
    let mut i: usize = 0;
    assert(all.take(0) =~= Seq::<usize>::empty());
    while i < has_run.len()
        invariant
            i <= has_run.len(),
            all == Seq::new(has_run@.len(), |i: int| i as usize),
            keep == (|i: usize| has_run@[i as int] && !(i < prepared@.len() && prepared@[i as int])),
            out@ == all.take(i as int).filter(keep),
        decreases has_run.len() - i,
    {
        let cached = i < prepared.len() && prepared[i];
        assert(all.take(i + 1).drop_last() =~= all.take(i as int));
        assert(all.take(i + 1).last() == i);
        assert(keep(i) == (has_run@[i as int] && !cached));
        proof {
            reveal(Seq::filter);
        }
        assert(all.take(i + 1).filter(keep) == (if keep(i) {
            all.take(i as int).filter(keep).push(i)
        } else {
            all.take(i as int).filter(keep)
        }));
        if has_run[i] && !cached {
            out.push(i);
        }
        i = i + 1;
    }
    assert(all.take(has_run@.len() as int) =~= all);
    Ok(out)
}

/// A failure of an asynchronous move step.
#[derive(Clone, Debug, PartialEq, Eq)]
pub enum AsyncMoveError {
    Data(String),
    FrameOverflow,
}

/// What a delivered deadline does to the pending move before any script
/// runs.
#[derive(Clone, Copy, Debug, PartialEq, Eq, Structural)]
pub enum ResumeDecision {
    /// The timer is not the pending move's: nothing happens.
    Ignore,
    /// The move's owner is gone or stale: the pending move and its timer
    /// are dropped.
    Cancel,
    /// The move resumes in the selected behavior for its generation.
    Resume { behavior_index: usize, generation: ActionGeneration },
}

/// The decision for a deadline delivered by `timer`, with `pending_timer`
/// the pending move's timer, `active_move` the selected move and `action` /
/// `generation` the fighter's current action and its generation.
pub open spec fn resume_decision(
    pending_timer: Option<TimerId>,
    timer: TimerId,
    active_move: Option<SelectedMove>,
    action: Action,
    generation: ActionGeneration,
) -> ResumeDecision {
    if pending_timer != Some(timer) {
        ResumeDecision::Ignore
    } else {
        match active_move {
            None => ResumeDecision::Cancel,
            Some(selected) => if selected.action == action && selected.generation == generation {
                ResumeDecision::Resume { behavior_index: selected.behavior_index, generation: selected.generation }
            } else {
                ResumeDecision::Cancel
            },
        }
    }
}

/// Decides what a delivered deadline does to the pending move.
pub fn resume_step(
    pending_timer: Option<TimerId>,
    timer: TimerId,
    active_move: Option<SelectedMove>,
    action: Action,
    generation: ActionGeneration,
) -> (r: ResumeDecision)
    ensures
        r == resume_decision(pending_timer, timer, active_move, action, generation),
{
    let same_timer = match pending_timer {
        Some(t) => t.0 == timer.0,
        None => false,
    };
    if !same_timer {
        return ResumeDecision::Ignore;
    }
    match active_move {
        None => ResumeDecision::Cancel,
        Some(selected) => if selected.matches(action, generation) {
            ResumeDecision::Resume { behavior_index: selected.behavior_index, generation: selected.generation }
        } else {
            ResumeDecision::Cancel
        },
    }
}

/// The frame count an awaitable asks for: a record whose `frames` entry is
/// an integer in `0..=u32::MAX`.
pub open spec fn awaited_frames(awaitable: Val) -> Option<u32> {
    match awaitable {
        Val::Dict(entries) => match dict_get(entries, "frames"@) {
            Some(Val::Int(v)) => if 0 <= v <= u32::MAX { Some(v as u32) } else { None },
            _ => None,
        },
        _ => None,
    }
}

/// The deadline of an awaited move step: the absolute frame `frame + n` and
/// the action frame `action_frame + n`, for the `n` frames the awaitable
/// asks for.
pub open spec fn deadline_of(awaitable: Val, frame: u32, action_frame: u32) -> Option<Option<(u32, u32)>> {
    match awaited_frames(awaitable) {
        None => None,
        Some(n) => if frame + n <= u32::MAX && action_frame + n <= u32::MAX {
            Some(Some(((frame + n) as u32, (action_frame + n) as u32)))
        } else {
            Some(None)
        },
    }
}

/// The absolute and action-relative deadline frames of an awaited step.
/// An awaitable without a finite frame count is refused, and a deadline
/// past `u32::MAX` overflows.
pub fn await_deadline(awaitable: &NativeValue, frame: u32, action_frame: u32) -> (r: Result<(u32, u32), AsyncMoveError>)
    ensures
        match deadline_of(awaitable@, frame, action_frame) {
            None => r matches Err(AsyncMoveError::Data(m)) && m@ == "async move awaitable is not a finite deadline"@,
            Some(None) => r == Err::<(u32, u32), AsyncMoveError>(AsyncMoveError::FrameOverflow),
            Some(Some(d)) => r == Ok::<(u32, u32), AsyncMoveError>(d),
        },
{
    let frames: Option<u32> = match awaitable {
        NativeValue::Dict(entries) => {
            proof {
                lemma_dict_view(*awaitable);
            }
            match dict_lookup(entries, "frames") {
                Some(NativeValue::Int(v)) => if 0 <= v && v <= 4_294_967_295 { Some(v as u32) } else { None },
                _ => None,
            }
        },
        _ => None,
    };
    let Some(n) = frames else {
        return Err(AsyncMoveError::Data("async move awaitable is not a finite deadline".to_owned()));
    };
    let Some(deadline) = frame.checked_add(n) else {
        return Err(AsyncMoveError::FrameOverflow);
    };
    let Some(action_deadline) = action_frame.checked_add(n) else {
        return Err(AsyncMoveError::FrameOverflow);
    };
    Ok((deadline, action_deadline))
}

/// The deadline of the token a move starts with: the next frame.
pub fn start_deadline(frame: u32) -> (r: Result<u64, AsyncMoveError>)
    ensures
        frame < u32::MAX ==> r == Ok::<u64, AsyncMoveError>((frame + 1) as u64),
        frame == u32::MAX ==> r == Err::<u64, AsyncMoveError>(AsyncMoveError::FrameOverflow),
{
    match frame.checked_add(1) {
        Some(next) => Ok(next as u64),
        None => Err(AsyncMoveError::FrameOverflow),
    }
}

} // verus!
