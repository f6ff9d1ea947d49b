//! Identifiers and small descriptors of native motion profiles.
//!
//! A profile describes the continuous movement operations that the native
//! simulation advances after a script has selected a phase.  The profile
//! arithmetic itself is binary32 and runs on the host; this module holds
//! the handles and the integer/enumerated parts of its descriptors.

use vstd::prelude::*;

verus! {

/// A native profile identifier.  The resource cache owns the corresponding
/// immutable profile; rollback state only needs this small handle.
#[derive(Clone, Copy, Debug, Default, PartialEq, Eq, Structural, Hash)]
pub struct MotionProfileId(pub u16);

impl MotionProfileId {
    pub fn new(value: u16) -> (r: Self)
        ensures
            r.0 == value,
    {
        MotionProfileId(value)
    }
}

/// How a track behaves after its supplied samples end.
#[derive(Clone, Copy, Debug, Default, PartialEq, Eq, Structural)]
pub enum TrackEnd {
    /// Do nothing when the requested frame is outside the track.
    #[default]
    NoOp,
    /// Reuse the final sample for all later frames.
    HoldLast,
    /// Wrap at the sample count.
    Loop,
}

/// Transform applied to a native track component when it is selected.
#[derive(Clone, Copy, Debug, Default, PartialEq, Eq, Structural)]
pub enum TrackTransform {
    #[default]
    Absolute,
    BindingScale,
}

/// A refused motion profile field.
#[derive(Clone, Copy, Debug, PartialEq, Eq)]
pub enum MotionProfileError {
    Invalid(&'static str),
}

impl MotionProfileError {
    /// The message the error is shown with.
    pub fn message(&self) -> (r: String)
        ensures
            match self {
                MotionProfileError::Invalid(field) => r@ == "invalid motion profile field: "@ + field@,
            },
    {
        match self {
            MotionProfileError::Invalid(field) => crate::text::concat2("invalid motion profile field: ", field),
        }
    }
}

} // verus!
