//! Static action markers and native countdown descriptors.
//!
//! The script compiler lowers `@hook.marker(name, track, actions)`,
//! `@hook.countdown(field, actions)`, `clock(field, actions)` and
//! `@hook.frame` into this immutable table at resource registration.  The
//! native host schedules marker rising edges and frame deadlines on action
//! entry and advances declared state fields in the existing action state.
//! There is no runtime callback registration, recurring timer, or raw
//! animation-track polling surface here.

use vstd::prelude::*;
use crate::action::Action;
use crate::action_index::{bindings_for, copy_actions, index_actions, lemma_bindings_in_range, ActionIndex};
use crate::text::{byte_len, longer_than_bytes, str_eq};
use crate::host_state::{entry_get, LVal, LocalState, LocalValue};

verus! {

pub const MAX_MARKERS: usize = 64;
pub const MAX_COUNTDOWNS: usize = 32;
pub const MAX_CLOCKS: usize = 32;
pub const MAX_FRAMES: usize = 64;
pub const MAX_MARKER_EDGES: usize = 512;
pub const MAX_ACTIONS_PER_BINDING: usize = 8;
pub const MAX_FIELD_BYTES: usize = 64;
pub const MAX_TRACK_BYTES: usize = 256;

#[derive(Clone, Copy, Debug, PartialEq, Eq, Structural, Hash)]
pub struct MarkerId(u16);

impl MarkerId {
    pub closed spec fn value(self) -> u16 {
        self.0
    }

    pub fn new(value: u16) -> (r: Self)
        ensures
            r.value() == value,
    {
        MarkerId(value)
    }

    pub fn get(self) -> (r: u16)
        ensures
            r == self.value(),
    {
        self.0
    }
}

#[derive(Clone, Debug)]
pub struct MarkerSpec {
    pub id: MarkerId,
    pub name: String,
    pub track: String,
    pub actions: Vec<Action>,
    pub flags: Vec<bool>,
    pub token: u64,
}

#[derive(Clone, Copy, Debug, PartialEq, Eq, Structural, Hash)]
pub enum CountdownPhase {
    Animation,
    Physics,
}

impl CountdownPhase {
    /// The phase a countdown declaration gets when it names none.
    pub fn default_phase() -> (r: Self)
        ensures
            r == CountdownPhase::Physics,
    {
        CountdownPhase::Physics
    }
}

#[derive(Clone, Debug)]
pub struct CountdownSpec {
    pub field: String,
    pub actions: Vec<Action>,
    pub token: u64,
    pub phase: CountdownPhase,
}

/// A native phase clock declaration. The field remains ordinary typed action
/// state; the host adds exactly one f32 frame per active action phase.
#[derive(Clone, Debug)]
pub struct ClockSpec {
    pub field: String,
    pub actions: Vec<Action>,
}

/// A finite action-frame deadline emitted by `@hook.frame`. Unlike a clock it
/// schedules one native event on action entry and never polls from a callback.
#[derive(Clone, Debug)]
pub struct FrameSpec {
    pub action: Action,
    pub frame: u32,
    pub token: u64,
}

#[derive(Clone, Debug)]
pub struct ActionMarker {
    pub id: MarkerId,
    pub name: String,
    pub track: String,
    pub actions: Vec<Action>,
    /// Authored action-frame rising edges only. Consecutive true samples are
    /// intentionally represented by one edge.
    pub true_edges: Vec<u32>,
    pub token: u64,
}

#[derive(Clone, Debug)]
pub struct CountdownBinding {
    pub field: String,
    pub actions: Vec<Action>,
    pub token: u64,
    pub phase: CountdownPhase,
}

#[derive(Clone, Debug)]
pub struct ClockBinding {
    pub field: String,
    pub actions: Vec<Action>,
}

#[derive(Clone, Debug)]
pub struct FrameBinding {
    pub action: Action,
    pub frame: u32,
    pub token: u64,
}

/// One timer the host schedules at action entry: fire `token` when the
/// action `action` reaches action frame `frame`.
#[derive(Clone, Copy, Debug, PartialEq, Eq, Structural)]
pub struct ActionTimer {
    pub action: Action,
    pub frame: u32,
    pub token: u64,
}

#[verifier::ext_equal]
pub struct MarkerView {
    pub id: u16,
    pub name: Seq<char>,
    pub track: Seq<char>,
    pub actions: Seq<Action>,
    pub edges: Seq<u32>,
    pub token: u64,
}

#[verifier::ext_equal]
pub struct CountdownView {
    pub field: Seq<char>,
    pub actions: Seq<Action>,
    pub token: u64,
    pub phase: CountdownPhase,
}

#[verifier::ext_equal]
pub struct ClockView {
    pub field: Seq<char>,
    pub actions: Seq<Action>,
}

pub struct FrameView {
    pub action: Action,
    pub frame: u32,
    pub token: u64,
}

#[verifier::ext_equal]
pub struct TableView {
    pub markers: Seq<MarkerView>,
    pub countdowns: Seq<CountdownView>,
    pub clocks: Seq<ClockView>,
    pub frames: Seq<FrameView>,
}

impl View for ActionMarker {
    type V = MarkerView;

    open spec fn view(&self) -> MarkerView {
        MarkerView {
            id: self.id.value(),
            name: self.name@,
            track: self.track@,
            actions: self.actions@,
            edges: self.true_edges@,
            token: self.token,
        }
    }
}

impl View for CountdownBinding {
    type V = CountdownView;

    open spec fn view(&self) -> CountdownView {
        CountdownView { field: self.field@, actions: self.actions@, token: self.token, phase: self.phase }
    }
}

impl View for ClockBinding {
    type V = ClockView;

    open spec fn view(&self) -> ClockView {
        ClockView { field: self.field@, actions: self.actions@ }
    }
}

impl View for FrameBinding {
    type V = FrameView;

    open spec fn view(&self) -> FrameView {
        FrameView { action: self.action, frame: self.frame, token: self.token }
    }
}

#[derive(Debug)]
pub struct ActionEventTable {
    markers: Vec<ActionMarker>,
    countdowns: Vec<CountdownBinding>,
    clocks: Vec<ClockBinding>,
    frames: Vec<FrameBinding>,
    /// Registration-time dispatch indexes. Values remain binding indexes so
    /// iteration keeps authored callback order at equal action frames.
    marker_actions: ActionIndex,
    countdown_animation_actions: ActionIndex,
    countdown_physics_actions: ActionIndex,
    clock_actions: ActionIndex,
    frame_actions: ActionIndex,
}

#[derive(Debug, Clone, PartialEq, Eq)]
pub enum ActionEventError {
    TooManyMarkers,
    TooManyCountdowns,
    TooManyClocks,
    TooManyMarkerEdges(String),
    TooManyEdges,
    EmptyMarkerName(String),
    MarkerNameTooLong(String),
    TrackPathTooLong(String),
    MarkerWithoutAction(String),
    MarkerHasTooManyActions(String),
    DuplicateMarkerAction(String),
    DuplicateMarkerId(u16),
    EmptyCountdownField,
    CountdownFieldTooLong(String),
    DuplicateCountdownField(String),
    CountdownWithoutAction(String),
    CountdownHasTooManyActions(String),
    DuplicateCountdownAction(String),
    EmptyClockField,
    ClockFieldTooLong(String),
    DuplicateClockField(String),
    ClockWithoutAction(String),
    ClockHasTooManyActions(String),
    DuplicateClockAction(String),
    DuplicateToken(u64),
    TooManyFrames,
    MissingCountdownField(String),
    MissingClockField(String),
    InvalidCountdownValue(String),
    InvalidClockValue(String),
}

/// The error a table compilation reports, with its text payloads as
/// character sequences.
pub enum Fault {
    TooManyMarkers,
    TooManyCountdowns,
    TooManyClocks,
    TooManyMarkerEdges(Seq<char>),
    TooManyEdges,
    EmptyMarkerName(Seq<char>),
    MarkerNameTooLong(Seq<char>),
    TrackPathTooLong(Seq<char>),
    MarkerWithoutAction(Seq<char>),
    MarkerHasTooManyActions(Seq<char>),
    DuplicateMarkerAction(Seq<char>),
    DuplicateMarkerId(u16),
    EmptyCountdownField,
    CountdownFieldTooLong(Seq<char>),
    DuplicateCountdownField(Seq<char>),
    CountdownWithoutAction(Seq<char>),
    CountdownHasTooManyActions(Seq<char>),
    DuplicateCountdownAction(Seq<char>),
    EmptyClockField,
    ClockFieldTooLong(Seq<char>),
    DuplicateClockField(Seq<char>),
    ClockWithoutAction(Seq<char>),
    ClockHasTooManyActions(Seq<char>),
    DuplicateClockAction(Seq<char>),
    DuplicateToken(u64),
    TooManyFrames,
    MissingCountdownField(Seq<char>),
    MissingClockField(Seq<char>),
    InvalidCountdownValue(Seq<char>),
    InvalidClockValue(Seq<char>),
}

impl View for ActionEventError {
    type V = Fault;

    open spec fn view(&self) -> Fault {
        match self {
            ActionEventError::TooManyMarkers => Fault::TooManyMarkers,
            ActionEventError::TooManyCountdowns => Fault::TooManyCountdowns,
            ActionEventError::TooManyClocks => Fault::TooManyClocks,
            ActionEventError::TooManyMarkerEdges(s) => Fault::TooManyMarkerEdges(s@),
            ActionEventError::TooManyEdges => Fault::TooManyEdges,
            ActionEventError::EmptyMarkerName(s) => Fault::EmptyMarkerName(s@),
            ActionEventError::MarkerNameTooLong(s) => Fault::MarkerNameTooLong(s@),
            ActionEventError::TrackPathTooLong(s) => Fault::TrackPathTooLong(s@),
            ActionEventError::MarkerWithoutAction(s) => Fault::MarkerWithoutAction(s@),
            ActionEventError::MarkerHasTooManyActions(s) => Fault::MarkerHasTooManyActions(s@),
            ActionEventError::DuplicateMarkerAction(s) => Fault::DuplicateMarkerAction(s@),
            ActionEventError::DuplicateMarkerId(id) => Fault::DuplicateMarkerId(*id),
            ActionEventError::EmptyCountdownField => Fault::EmptyCountdownField,
            ActionEventError::CountdownFieldTooLong(s) => Fault::CountdownFieldTooLong(s@),
            ActionEventError::DuplicateCountdownField(s) => Fault::DuplicateCountdownField(s@),
            ActionEventError::CountdownWithoutAction(s) => Fault::CountdownWithoutAction(s@),
            ActionEventError::CountdownHasTooManyActions(s) => Fault::CountdownHasTooManyActions(s@),
            ActionEventError::DuplicateCountdownAction(s) => Fault::DuplicateCountdownAction(s@),
            ActionEventError::EmptyClockField => Fault::EmptyClockField,
            ActionEventError::ClockFieldTooLong(s) => Fault::ClockFieldTooLong(s@),
            ActionEventError::DuplicateClockField(s) => Fault::DuplicateClockField(s@),
            ActionEventError::ClockWithoutAction(s) => Fault::ClockWithoutAction(s@),
            ActionEventError::ClockHasTooManyActions(s) => Fault::ClockHasTooManyActions(s@),
            ActionEventError::DuplicateClockAction(s) => Fault::DuplicateClockAction(s@),
            ActionEventError::DuplicateToken(t) => Fault::DuplicateToken(*t),
            ActionEventError::TooManyFrames => Fault::TooManyFrames,
            ActionEventError::MissingCountdownField(s) => Fault::MissingCountdownField(s@),
            ActionEventError::MissingClockField(s) => Fault::MissingClockField(s@),
            ActionEventError::InvalidCountdownValue(s) => Fault::InvalidCountdownValue(s@),
            ActionEventError::InvalidClockValue(s) => Fault::InvalidClockValue(s@),
        }
    }
}

// ---------------------------------------------------------------------
// What compilation accepts
// ---------------------------------------------------------------------

pub open spec fn has_repeat(actions: Seq<Action>) -> bool {
    exists|i: int, j: int| 0 <= i < j < actions.len() && actions[i] == actions[j]
}

/// Why an owner action list is refused: `0` empty, `1` too long,
/// `2` an action repeated; `None` when it is accepted.
pub open spec fn action_list_fault(actions: Seq<Action>) -> Option<int> {
    if actions.len() == 0 {
        Some(0)
    } else if actions.len() > MAX_ACTIONS_PER_BINDING {
        Some(1)
    } else if has_repeat(actions) {
        Some(2)
    } else {
        None
    }
}

pub open spec fn marker_fault(m: MarkerSpec, tokens: Set<u64>, ids: Set<u16>) -> Option<Fault> {
    if m.name@.len() == 0 {
        Some(Fault::EmptyMarkerName(m.name@))
    } else if byte_len(m.name@) > MAX_FIELD_BYTES {
        Some(Fault::MarkerNameTooLong(m.name@))
    } else if byte_len(m.track@) > MAX_TRACK_BYTES {
        Some(Fault::TrackPathTooLong(m.track@))
    } else if action_list_fault(m.actions@) == Some(0int) {
        Some(Fault::MarkerWithoutAction(m.name@))
    } else if action_list_fault(m.actions@) == Some(1int) {
        Some(Fault::MarkerHasTooManyActions(m.name@))
    } else if action_list_fault(m.actions@) == Some(2int) {
        Some(Fault::DuplicateMarkerAction(m.name@))
    } else if ids.contains(m.id.value()) {
        Some(Fault::DuplicateMarkerId(m.id.value()))
    } else if tokens.contains(m.token) {
        Some(Fault::DuplicateToken(m.token))
    } else {
        None
    }
}

/// A sample starts a run of true samples.
pub open spec fn is_rising(flags: Seq<bool>, i: int) -> bool {
    flags[i] && (i == 0 || !flags[i - 1])
}

/// Positions below `n` at which a run of true samples starts, ascending.
pub open spec fn rising_positions(flags: Seq<bool>, n: nat) -> Seq<int>
    decreases n,
{
    if n == 0 {
        Seq::empty()
    } else {
        rising_positions(flags, (n - 1) as nat) + if is_rising(flags, n - 1) {
            seq![n - 1]
        } else {
            Seq::empty()
        }
    }
}

pub open spec fn edges_of(flags: Seq<bool>) -> Seq<int> {
    rising_positions(flags, flags.len())
}

pub open spec fn fits_u32(positions: Seq<int>) -> bool {
    forall|j: int| 0 <= j < positions.len() ==> positions[j] <= u32::MAX
}

pub struct MarkerAcc {
    pub tokens: Set<u64>,
    pub ids: Set<u16>,
    pub edge_count: nat,
    pub markers: Seq<MarkerView>,
}

pub open spec fn marker_view_of(m: MarkerSpec, edges: Seq<int>) -> MarkerView {
    MarkerView {
        id: m.id.value(),
        name: m.name@,
        track: m.track@,
        actions: m.actions@,
        edges: edges.map_values(|p: int| p as u32),
        token: m.token,
    }
}

pub open spec fn marker_step(acc: MarkerAcc, m: MarkerSpec) -> Result<MarkerAcc, Fault> {
    match marker_fault(m, acc.tokens, acc.ids) {
        Some(f) => Err(f),
        None => {
            let edges = edges_of(m.flags@);
            if !fits_u32(edges) || edges.len() > MAX_MARKER_EDGES {
                Err(Fault::TooManyMarkerEdges(m.name@))
            } else if acc.edge_count + edges.len() > MAX_MARKER_EDGES {
                Err(Fault::TooManyEdges)
            } else {
                Ok(MarkerAcc {
                    tokens: acc.tokens.insert(m.token),
                    ids: acc.ids.insert(m.id.value()),
                    edge_count: acc.edge_count + edges.len(),
                    markers: acc.markers.push(marker_view_of(m, edges)),
                })
            }
        },
    }
}

/// Markers are checked in declaration order against the tokens, ids and
/// edge budget of the markers before them.
pub open spec fn compile_markers(specs: Seq<MarkerSpec>) -> Result<MarkerAcc, Fault>
    decreases specs.len(),
{
    if specs.len() == 0 {
        Ok(MarkerAcc { tokens: Set::empty(), ids: Set::empty(), edge_count: 0, markers: Seq::empty() })
    } else {
        match compile_markers(specs.drop_last()) {
            Err(f) => Err(f),
            Ok(acc) => marker_step(acc, specs.last()),
        }
    }
}

pub struct FieldAcc {
    pub tokens: Set<u64>,
    pub fields: Set<Seq<char>>,
    pub countdowns: Seq<CountdownView>,
    pub clocks: Seq<ClockView>,
}

pub open spec fn countdown_fault(c: CountdownSpec, tokens: Set<u64>, fields: Set<Seq<char>>) -> Option<Fault> {
    if c.field@.len() == 0 {
        Some(Fault::EmptyCountdownField)
    } else if byte_len(c.field@) > MAX_FIELD_BYTES {
        Some(Fault::CountdownFieldTooLong(c.field@))
    } else if fields.contains(c.field@) {
        Some(Fault::DuplicateCountdownField(c.field@))
    } else if action_list_fault(c.actions@) == Some(0int) {
        Some(Fault::CountdownWithoutAction(c.field@))
    } else if action_list_fault(c.actions@) == Some(1int) {
        Some(Fault::CountdownHasTooManyActions(c.field@))
    } else if action_list_fault(c.actions@) == Some(2int) {
        Some(Fault::DuplicateCountdownAction(c.field@))
    } else if tokens.contains(c.token) {
        Some(Fault::DuplicateToken(c.token))
    } else {
        None
    }
}

pub open spec fn compile_countdowns(tokens: Set<u64>, specs: Seq<CountdownSpec>) -> Result<FieldAcc, Fault>
    decreases specs.len(),
{
    if specs.len() == 0 {
        Ok(FieldAcc { tokens, fields: Set::empty(), countdowns: Seq::empty(), clocks: Seq::empty() })
    } else {
        match compile_countdowns(tokens, specs.drop_last()) {
            Err(f) => Err(f),
            Ok(acc) => {
                let c = specs.last();
                match countdown_fault(c, acc.tokens, acc.fields) {
                    Some(f) => Err(f),
                    None => Ok(FieldAcc {
                        tokens: acc.tokens.insert(c.token),
                        fields: acc.fields.insert(c.field@),
                        countdowns: acc.countdowns.push(
                            CountdownView { field: c.field@, actions: c.actions@, token: c.token, phase: c.phase },
                        ),
                        clocks: acc.clocks,
                    }),
                }
            },
        }
    }
}

pub open spec fn clock_fault(c: ClockSpec, fields: Set<Seq<char>>) -> Option<Fault> {
    if c.field@.len() == 0 {
        Some(Fault::EmptyClockField)
    } else if byte_len(c.field@) > MAX_FIELD_BYTES {
        Some(Fault::ClockFieldTooLong(c.field@))
    } else if fields.contains(c.field@) {
        Some(Fault::DuplicateClockField(c.field@))
    } else if action_list_fault(c.actions@) == Some(0int) {
        Some(Fault::ClockWithoutAction(c.field@))
    } else if action_list_fault(c.actions@) == Some(1int) {
        Some(Fault::ClockHasTooManyActions(c.field@))
    } else if action_list_fault(c.actions@) == Some(2int) {
        Some(Fault::DuplicateClockAction(c.field@))
    } else {
        None
    }
}

pub open spec fn compile_clocks(start: FieldAcc, specs: Seq<ClockSpec>) -> Result<FieldAcc, Fault>
    decreases specs.len(),
{
    if specs.len() == 0 {
        Ok(start)
    } else {
        match compile_clocks(start, specs.drop_last()) {
            Err(f) => Err(f),
            Ok(acc) => {
                let c = specs.last();
                match clock_fault(c, acc.fields) {
                    Some(f) => Err(f),
                    None => Ok(FieldAcc {
                        tokens: acc.tokens,
                        fields: acc.fields.insert(c.field@),
                        countdowns: acc.countdowns,
                        clocks: acc.clocks.push(ClockView { field: c.field@, actions: c.actions@ }),
                    }),
                }
            },
        }
    }
}

pub open spec fn compile_frames(tokens: Set<u64>, specs: Seq<FrameSpec>) -> Result<(Set<u64>, Seq<FrameView>), Fault>
    decreases specs.len(),
{
    if specs.len() == 0 {
        Ok((tokens, Seq::empty()))
    } else {
        match compile_frames(tokens, specs.drop_last()) {
            Err(f) => Err(f),
            Ok(acc) => {
                let f = specs.last();
                if acc.0.contains(f.token) {
                    Err(Fault::DuplicateToken(f.token))
                } else {
                    Ok((acc.0.insert(f.token), acc.1.push(FrameView { action: f.action, frame: f.frame, token: f.token })))
                }
            },
        }
    }
}

/// The table that compilation produces from its declarations, or the first
/// error it meets: declaration counts first, then markers, countdowns,
/// clocks and frame deadlines, each in declaration order.
pub open spec fn spec_compile(
    markers: Seq<MarkerSpec>,
    countdowns: Seq<CountdownSpec>,
    clocks: Seq<ClockSpec>,
    frames: Seq<FrameSpec>,
) -> Result<TableView, Fault> {
    if markers.len() > MAX_MARKERS {
        Err(Fault::TooManyMarkers)
    } else if countdowns.len() > MAX_COUNTDOWNS {
        Err(Fault::TooManyCountdowns)
    } else if clocks.len() > MAX_CLOCKS {
        Err(Fault::TooManyClocks)
    } else if frames.len() > MAX_FRAMES {
        Err(Fault::TooManyFrames)
    } else {
        match compile_markers(markers) {
            Err(f) => Err(f),
            Ok(m) => match compile_countdowns(m.tokens, countdowns) {
                Err(f) => Err(f),
                Ok(c) => match compile_clocks(c, clocks) {
                    Err(f) => Err(f),
                    Ok(k) => match compile_frames(k.tokens, frames) {
                        Err(f) => Err(f),
                        Ok(fr) => Ok(TableView {
                            markers: m.markers,
                            countdowns: k.countdowns,
                            clocks: k.clocks,
                            frames: fr.1,
                        }),
                    },
                },
            },
        }
    }
}

// ---------------------------------------------------------------------
// Index views
// ---------------------------------------------------------------------

pub open spec fn marker_sets(markers: Seq<MarkerView>) -> Seq<Seq<Action>> {
    markers.map_values(|m: MarkerView| m.actions)
}

pub open spec fn countdown_sets(countdowns: Seq<CountdownView>, phase: CountdownPhase) -> Seq<Seq<Action>> {
    countdowns.map_values(|c: CountdownView| if c.phase == phase { c.actions } else { Seq::empty() })
}

pub open spec fn clock_sets(clocks: Seq<ClockView>) -> Seq<Seq<Action>> {
    clocks.map_values(|c: ClockView| c.actions)
}

pub open spec fn frame_sets(frames: Seq<FrameView>) -> Seq<Seq<Action>> {
    frames.map_values(|f: FrameView| seq![f.action])
}

/// Timers of the markers at positions `idx`, in that order, each marker
/// contributing one timer per rising edge.
pub open spec fn marker_timers(markers: Seq<MarkerView>, idx: Seq<usize>, a: Action) -> Seq<ActionTimer>
    decreases idx.len(),
{
    if idx.len() == 0 {
        Seq::empty()
    } else {
        let m = markers[idx.last() as int];
        marker_timers(markers, idx.drop_last(), a) + m.edges.map_values(
            |f: u32| ActionTimer { action: a, frame: f, token: m.token },
        )
    }
}

/// Timers of the frame deadlines at positions `idx`, in that order.
pub open spec fn frame_timers(frames: Seq<FrameView>, idx: Seq<usize>, a: Action) -> Seq<ActionTimer>
    decreases idx.len(),
{
    if idx.len() == 0 {
        Seq::empty()
    } else {
        let f = frames[idx.last() as int];
        frame_timers(frames, idx.drop_last(), a).push(ActionTimer { action: a, frame: f.frame, token: f.token })
    }
}

impl View for ActionEventTable {
    type V = TableView;

    closed spec fn view(&self) -> TableView {
        TableView {
            markers: self.markers@.map_values(|m: ActionMarker| m@),
            countdowns: self.countdowns@.map_values(|c: CountdownBinding| c@),
            clocks: self.clocks@.map_values(|c: ClockBinding| c@),
            frames: self.frames@.map_values(|f: FrameBinding| f@),
        }
    }
}

impl ActionEventTable {
    #[verifier::type_invariant]
    closed spec fn indexed(&self) -> bool {
        &&& self.marker_actions.indexes(marker_sets(self@.markers))
        &&& self.countdown_animation_actions.indexes(countdown_sets(self@.countdowns, CountdownPhase::Animation))
        &&& self.countdown_physics_actions.indexes(countdown_sets(self@.countdowns, CountdownPhase::Physics))
        &&& self.clock_actions.indexes(clock_sets(self@.clocks))
        &&& self.frame_actions.indexes(frame_sets(self@.frames))
    }
}

// ---------------------------------------------------------------------
// Compilation
// ---------------------------------------------------------------------

fn set_contains_u64(set: &Vec<u64>, value: u64) -> (r: bool)
    ensures
        r == set@.to_set().contains(value),
{
    let mut i: usize = 0;
    while i < set.len()
        invariant
            i <= set.len(),
            forall|j: int| 0 <= j < i ==> set@[j] != value,
        decreases set.len() - i,
    {
        if set[i] == value {
            assert(set@.contains(value));
            return true;
        }
        i = i + 1;
    }
    assert(!set@.contains(value));
    false
}

fn set_contains_u16(set: &Vec<u16>, value: u16) -> (r: bool)
    ensures
        r == set@.to_set().contains(value),
{
    let mut i: usize = 0;
    while i < set.len()
        invariant
            i <= set.len(),
            forall|j: int| 0 <= j < i ==> set@[j] != value,
        decreases set.len() - i,
    {
        if set[i] == value {
            assert(set@.contains(value));
            return true;
        }
        i = i + 1;
    }
    assert(!set@.contains(value));
    false
}

pub open spec fn string_set(v: Seq<String>) -> Set<Seq<char>> {
    v.map_values(|s: String| s@).to_set()
}

fn set_contains_string(set: &Vec<String>, value: &String) -> (r: bool)
    ensures
        r == string_set(set@).contains(value@),
{
    let mut i: usize = 0;
    while i < set.len()
        invariant
            i <= set.len(),
            forall|j: int| 0 <= j < i ==> set@[j]@ != value@,
        decreases set.len() - i,
    {
        if str_eq(set[i].as_str(), value.as_str()) {
            assert(set@.map_values(|s: String| s@)[i as int] == value@);
            return true;
        }
        i = i + 1;
    }
    assert(!set@.map_values(|s: String| s@).contains(value@));
    false
}

/// Refuse an empty, overlong or repeating owner action list.  The fault
/// kind is reported as `action_list_fault` numbers it.
fn validate_actions(actions: &Vec<Action>) -> (r: Option<u8>)
    ensures
        match r {
            Some(k) => action_list_fault(actions@) == Some(k as int),
            None => action_list_fault(actions@) is None,
        },
{
    if actions.len() == 0 {
        return Some(0);
    }
    if actions.len() > MAX_ACTIONS_PER_BINDING {
        return Some(1);
    }
    let mut i: usize = 0;
    while i < actions.len()
        invariant
            i <= actions.len(),
            0 < actions.len() <= MAX_ACTIONS_PER_BINDING,
            forall|p: int, q: int| 0 <= p < q < i ==> actions@[p] != actions@[q],
        decreases actions.len() - i,
    {
        let mut j: usize = 0;
        while j < i
            invariant
                j <= i < actions.len(),
                0 < actions.len() <= MAX_ACTIONS_PER_BINDING,
                forall|p: int| 0 <= p < j ==> actions@[p] != actions@[i as int],
            decreases i - j,
        {
            if actions[j] == actions[i] {
                assert(actions@[j as int] == actions@[i as int]);
                assert(has_repeat(actions@));
                assert(action_list_fault(actions@) == Some(2int));
                return Some(2);
            }
            j = j + 1;
        }
        i = i + 1;
    }
    assert(!has_repeat(actions@));
    None
}

fn validate_marker(spec: &MarkerSpec, tokens: &mut Vec<u64>, marker_ids: &mut Vec<u16>) -> (r: Result<(), ActionEventError>)
    ensures
        match r {
            Ok(()) => marker_fault(*spec, old(tokens)@.to_set(), old(marker_ids)@.to_set()) is None
                && final(tokens)@ == old(tokens)@.push(spec.token)
                && final(marker_ids)@ == old(marker_ids)@.push(spec.id.value()),
            Err(e) => marker_fault(*spec, old(tokens)@.to_set(), old(marker_ids)@.to_set()) == Some(e@),
        },
{
    if spec.name.as_str().is_empty() {
        return Err(ActionEventError::EmptyMarkerName(spec.name.clone()));
    }
    if longer_than_bytes(spec.name.as_str(), MAX_FIELD_BYTES) {
        return Err(ActionEventError::MarkerNameTooLong(spec.name.clone()));
    }
    if longer_than_bytes(spec.track.as_str(), MAX_TRACK_BYTES) {
        return Err(ActionEventError::TrackPathTooLong(spec.track.clone()));
    }
    match validate_actions(&spec.actions) {
        Some(0) => return Err(ActionEventError::MarkerWithoutAction(spec.name.clone())),
        Some(1) => return Err(ActionEventError::MarkerHasTooManyActions(spec.name.clone())),
        Some(_) => return Err(ActionEventError::DuplicateMarkerAction(spec.name.clone())),
        None => {},
    }
    if set_contains_u16(marker_ids, spec.id.get()) {
        return Err(ActionEventError::DuplicateMarkerId(spec.id.get()));
    }
    marker_ids.push(spec.id.get());
    if set_contains_u64(tokens, spec.token) {
        return Err(ActionEventError::DuplicateToken(spec.token));
    }
    tokens.push(spec.token);
    Ok(())
}

fn validate_countdown(spec: &CountdownSpec, tokens: &mut Vec<u64>, fields: &mut Vec<String>) -> (r: Result<(), ActionEventError>)
    ensures
        match r {
            Ok(()) => countdown_fault(*spec, old(tokens)@.to_set(), string_set(old(fields)@)) is None
                && final(tokens)@ == old(tokens)@.push(spec.token)
                && final(fields)@ == old(fields)@.push(spec.field),
            Err(e) => countdown_fault(*spec, old(tokens)@.to_set(), string_set(old(fields)@)) == Some(e@),
        },
{
    if spec.field.as_str().is_empty() {
        return Err(ActionEventError::EmptyCountdownField);
    }
    if longer_than_bytes(spec.field.as_str(), MAX_FIELD_BYTES) {
        return Err(ActionEventError::CountdownFieldTooLong(spec.field.clone()));
    }
    if set_contains_string(fields, &spec.field) {
        return Err(ActionEventError::DuplicateCountdownField(spec.field.clone()));
    }
    fields.push(spec.field.clone());
    match validate_actions(&spec.actions) {
        Some(0) => return Err(ActionEventError::CountdownWithoutAction(spec.field.clone())),
        Some(1) => return Err(ActionEventError::CountdownHasTooManyActions(spec.field.clone())),
        Some(_) => return Err(ActionEventError::DuplicateCountdownAction(spec.field.clone())),
        None => {},
    }
    if set_contains_u64(tokens, spec.token) {
        return Err(ActionEventError::DuplicateToken(spec.token));
    }
    tokens.push(spec.token);
    Ok(())
}

fn validate_clock(spec: &ClockSpec, fields: &mut Vec<String>) -> (r: Result<(), ActionEventError>)
    ensures
        match r {
            Ok(()) => clock_fault(*spec, string_set(old(fields)@)) is None
                && final(fields)@ == old(fields)@.push(spec.field),
            Err(e) => clock_fault(*spec, string_set(old(fields)@)) == Some(e@),
        },
{
    if spec.field.as_str().is_empty() {
        return Err(ActionEventError::EmptyClockField);
    }
    if longer_than_bytes(spec.field.as_str(), MAX_FIELD_BYTES) {
        return Err(ActionEventError::ClockFieldTooLong(spec.field.clone()));
    }
    if set_contains_string(fields, &spec.field) {
        return Err(ActionEventError::DuplicateClockField(spec.field.clone()));
    }
    fields.push(spec.field.clone());
    match validate_actions(&spec.actions) {
        Some(0) => return Err(ActionEventError::ClockWithoutAction(spec.field.clone())),
        Some(1) => return Err(ActionEventError::ClockHasTooManyActions(spec.field.clone())),
        Some(_) => return Err(ActionEventError::DuplicateClockAction(spec.field.clone())),
        None => {},
    }
    Ok(())
}

proof fn lemma_rising_positions_step(flags: Seq<bool>, n: nat)
    ensures
        rising_positions(flags, n + 1) == rising_positions(flags, n) + if is_rising(flags, n as int) {
            seq![n as int]
        } else {
            Seq::<int>::empty()
        },
{
}

proof fn lemma_rising_positions_bounded(flags: Seq<bool>, n: nat)
    ensures
        forall|j: int| 0 <= j < rising_positions(flags, n).len() ==> #[trigger] rising_positions(flags, n)[j] < n,
        rising_positions(flags, n).len() <= n,
    decreases n,
{
    if n > 0 {
        lemma_rising_positions_bounded(flags, (n - 1) as nat);
    }
}

/// The action frames at which a run of true samples starts.  A frame that
/// does not fit a `u32` is refused as too many edges for `name`.
fn rising_edges(flags: &Vec<bool>, name: &String) -> (r: Result<Vec<u32>, ActionEventError>)
    ensures
        match r {
            Ok(edges) => fits_u32(edges_of(flags@)) && edges@ == edges_of(flags@).map_values(|p: int| p as u32),
            Err(e) => !fits_u32(edges_of(flags@)) && e@ == Fault::TooManyMarkerEdges(name@),
        },
{
    let mut edges: Vec<u32> = Vec::new();
    let mut i: usize = 0;
    while i < flags.len()
        invariant
            i <= flags.len(),
            fits_u32(rising_positions(flags@, i as nat)),
            edges@ == rising_positions(flags@, i as nat).map_values(|p: int| p as u32),
        decreases flags.len() - i,
    {
        proof {
            lemma_rising_positions_step(flags@, i as nat);
        }
        let rising = flags[i] && (i == 0 || !flags[i - 1]);
        if rising {
            if i > 0xffff_ffffusize {
                proof {
                    let pos = rising_positions(flags@, (i + 1) as nat);
                    lemma_later_positions_contain(flags@, (i + 1) as nat, flags@.len());
                    assert(pos[pos.len() - 1] == i);
                }
                return Err(ActionEventError::TooManyMarkerEdges(name.clone()));
            }
            edges.push(i as u32);
        }
        i = i + 1;
        assert(edges@ =~= rising_positions(flags@, i as nat).map_values(|p: int| p as u32));
    }
    Ok(edges)
}

proof fn lemma_later_positions_contain(flags: Seq<bool>, n: nat, m: nat)
    requires
        n <= m,
        rising_positions(flags, n).len() > 0,
        rising_positions(flags, n).last() > u32::MAX,
    ensures
        !fits_u32(rising_positions(flags, m)),
    decreases m - n,
{
    if n < m {
        lemma_later_positions_contain(flags, n, (m - 1) as nat);
        let p = rising_positions(flags, (m - 1) as nat);
        let q = rising_positions(flags, m);
        assert(q == p + if is_rising(flags, m - 1) { seq![m - 1] } else { Seq::<int>::empty() });
        let j = choose|j: int| 0 <= j < p.len() && p[j] > u32::MAX;
        assert(q[j] == p[j]);
    } else {
        let p = rising_positions(flags, n);
        assert(p[p.len() - 1] > u32::MAX);
    }
}


proof fn lemma_markers_err_extends(specs: Seq<MarkerSpec>, n: int, f: Fault)
    requires
        0 <= n <= specs.len(),
        compile_markers(specs.subrange(0, n)) == Err::<MarkerAcc, Fault>(f),
    ensures
        compile_markers(specs) == Err::<MarkerAcc, Fault>(f),
    decreases specs.len() - n,
{
    if n < specs.len() {
        assert(specs.subrange(0, n + 1).drop_last() =~= specs.subrange(0, n));
        lemma_markers_err_extends(specs, n + 1, f);
    } else {
        assert(specs.subrange(0, n) =~= specs);
    }
}

proof fn lemma_countdowns_err_extends(tokens: Set<u64>, specs: Seq<CountdownSpec>, n: int, f: Fault)
    requires
        0 <= n <= specs.len(),
        compile_countdowns(tokens, specs.subrange(0, n)) == Err::<FieldAcc, Fault>(f),
    ensures
        compile_countdowns(tokens, specs) == Err::<FieldAcc, Fault>(f),
    decreases specs.len() - n,
{
    if n < specs.len() {
        assert(specs.subrange(0, n + 1).drop_last() =~= specs.subrange(0, n));
        lemma_countdowns_err_extends(tokens, specs, n + 1, f);
    } else {
        assert(specs.subrange(0, n) =~= specs);
    }
}

proof fn lemma_clocks_err_extends(start: FieldAcc, specs: Seq<ClockSpec>, n: int, f: Fault)
    requires
        0 <= n <= specs.len(),
        compile_clocks(start, specs.subrange(0, n)) == Err::<FieldAcc, Fault>(f),
    ensures
        compile_clocks(start, specs) == Err::<FieldAcc, Fault>(f),
    decreases specs.len() - n,
{
    if n < specs.len() {
        assert(specs.subrange(0, n + 1).drop_last() =~= specs.subrange(0, n));
        lemma_clocks_err_extends(start, specs, n + 1, f);
    } else {
        assert(specs.subrange(0, n) =~= specs);
    }
}

proof fn lemma_frames_err_extends(tokens: Set<u64>, specs: Seq<FrameSpec>, n: int, f: Fault)
    requires
        0 <= n <= specs.len(),
        compile_frames(tokens, specs.subrange(0, n)) == Err::<(Set<u64>, Seq<FrameView>), Fault>(f),
    ensures
        compile_frames(tokens, specs) == Err::<(Set<u64>, Seq<FrameView>), Fault>(f),
    decreases specs.len() - n,
{
    if n < specs.len() {
        assert(specs.subrange(0, n + 1).drop_last() =~= specs.subrange(0, n));
        lemma_frames_err_extends(tokens, specs, n + 1, f);
    } else {
        assert(specs.subrange(0, n) =~= specs);
    }
}

/// Indexes of a table's bindings, built from its declaration lists.
fn rebuild_indexes(
    markers: Vec<ActionMarker>,
    countdowns: Vec<CountdownBinding>,
    clocks: Vec<ClockBinding>,
    frames: Vec<FrameBinding>,
) -> (r: ActionEventTable)
    ensures
        r@.markers == markers@.map_values(|m: ActionMarker| m@),
        r@.countdowns == countdowns@.map_values(|c: CountdownBinding| c@),
        r@.clocks == clocks@.map_values(|c: ClockBinding| c@),
        r@.frames == frames@.map_values(|f: FrameBinding| f@),
{
    let marker_actions = index_marker_actions(&markers);
    let countdown_animation_actions = index_phased_actions(&countdowns, CountdownPhase::Animation);
    let countdown_physics_actions = index_phased_actions(&countdowns, CountdownPhase::Physics);
    let clock_actions = index_clock_actions(&clocks);
    let frame_actions = index_single_actions(&frames);
    ActionEventTable {
        markers,
        countdowns,
        clocks,
        frames,
        marker_actions,
        countdown_animation_actions,
        countdown_physics_actions,
        clock_actions,
        frame_actions,
    }
}

fn index_marker_actions(markers: &Vec<ActionMarker>) -> (r: ActionIndex)
    ensures
        r.indexes(marker_sets(markers@.map_values(|m: ActionMarker| m@))),
{
    let mut sets: Vec<Vec<Action>> = Vec::new();
    let mut i: usize = 0;
    while i < markers.len()
        invariant
            i <= markers.len(),
            sets@.len() == i,
            marker_sets(markers@.map_values(|m: ActionMarker| m@)).len() == markers@.len(),
            forall|j: int| 0 <= j < i ==> #[trigger] sets@[j]@ == marker_sets(markers@.map_values(|m: ActionMarker| m@))[j],
        decreases markers.len() - i,
    {
        let ghost prev = sets@;
        let copied = copy_actions(&markers[i].actions);
        assert(marker_sets(markers@.map_values(|m: ActionMarker| m@))[i as int] == copied@);
        sets.push(copied);
        assert(sets@ == prev.push(copied));
        i = i + 1;
    }
    let r = index_actions(&sets);
    assert(sets@.map_values(|s: Vec<Action>| s@) =~= marker_sets(markers@.map_values(|m: ActionMarker| m@)));
    r
}

fn index_phased_actions(countdowns: &Vec<CountdownBinding>, phase: CountdownPhase) -> (r: ActionIndex)
    ensures
        r.indexes(countdown_sets(countdowns@.map_values(|c: CountdownBinding| c@), phase)),
{
    let mut sets: Vec<Vec<Action>> = Vec::new();
    let mut i: usize = 0;
    while i < countdowns.len()
        invariant
            i <= countdowns.len(),
            sets@.len() == i,
            countdown_sets(countdowns@.map_values(|c: CountdownBinding| c@), phase).len() == countdowns@.len(),
            forall|j: int| 0 <= j < i ==> #[trigger] sets@[j]@ == countdown_sets(countdowns@.map_values(|c: CountdownBinding| c@), phase)[j],
        decreases countdowns.len() - i,
    {
        let ghost prev = sets@;
        let chosen = if countdowns[i].phase == phase {
            copy_actions(&countdowns[i].actions)
        } else {
            Vec::new()
        };
        assert(chosen@ =~= countdown_sets(countdowns@.map_values(|c: CountdownBinding| c@), phase)[i as int]);
        sets.push(chosen);
        assert(sets@ == prev.push(chosen));
        i = i + 1;
    }
    let r = index_actions(&sets);
    assert(sets@.map_values(|s: Vec<Action>| s@) =~= countdown_sets(countdowns@.map_values(|c: CountdownBinding| c@), phase));
    r
}

fn index_clock_actions(clocks: &Vec<ClockBinding>) -> (r: ActionIndex)
    ensures
        r.indexes(clock_sets(clocks@.map_values(|c: ClockBinding| c@))),
{
    let mut sets: Vec<Vec<Action>> = Vec::new();
    let mut i: usize = 0;
    while i < clocks.len()
        invariant
            i <= clocks.len(),
            sets@.len() == i,
            clock_sets(clocks@.map_values(|c: ClockBinding| c@)).len() == clocks@.len(),
            forall|j: int| 0 <= j < i ==> #[trigger] sets@[j]@ == clock_sets(clocks@.map_values(|c: ClockBinding| c@))[j],
        decreases clocks.len() - i,
    {
        let ghost prev = sets@;
        let copied = copy_actions(&clocks[i].actions);
        assert(clock_sets(clocks@.map_values(|c: ClockBinding| c@))[i as int] == copied@);
        sets.push(copied);
        assert(sets@ == prev.push(copied));
        i = i + 1;
    }
    let r = index_actions(&sets);
    assert(sets@.map_values(|s: Vec<Action>| s@) =~= clock_sets(clocks@.map_values(|c: ClockBinding| c@)));
    r
}

fn index_single_actions(frames: &Vec<FrameBinding>) -> (r: ActionIndex)
    ensures
        r.indexes(frame_sets(frames@.map_values(|f: FrameBinding| f@))),
{
    let mut sets: Vec<Vec<Action>> = Vec::new();
    let mut i: usize = 0;
    while i < frames.len()
        invariant
            i <= frames.len(),
            sets@.len() == i,
            frame_sets(frames@.map_values(|f: FrameBinding| f@)).len() == frames@.len(),
            forall|j: int| 0 <= j < i ==> #[trigger] sets@[j]@ == frame_sets(frames@.map_values(|f: FrameBinding| f@))[j],
        decreases frames.len() - i,
    {
        let ghost prev = sets@;
        let mut one: Vec<Action> = Vec::new();
        one.push(frames[i].action);
        assert(one@ =~= frame_sets(frames@.map_values(|f: FrameBinding| f@))[i as int]);
        sets.push(one);
        assert(sets@ == prev.push(one));
        i = i + 1;
    }
    let r = index_actions(&sets);
    assert(sets@.map_values(|s: Vec<Action>| s@) =~= frame_sets(frames@.map_values(|f: FrameBinding| f@)));
    r
}

impl ActionEventTable {
    /// Compile resource tracks and static countdown declarations once at
    /// registration. Inputs are consumed into an immutable bounded table.
    pub fn compile(
        marker_specs: Vec<MarkerSpec>,
        countdown_specs: Vec<CountdownSpec>,
        clock_specs: Vec<ClockSpec>,
    ) -> (r: Result<Self, ActionEventError>)
        ensures
            match r {
                Ok(t) => spec_compile(marker_specs@, countdown_specs@, clock_specs@, Seq::empty()) == Ok::<TableView, Fault>(t@),
                Err(e) => spec_compile(marker_specs@, countdown_specs@, clock_specs@, Seq::empty()) == Err::<TableView, Fault>(e@),
            },
    {
        let frames: Vec<FrameSpec> = Vec::new();
        assert(frames@ =~= Seq::<FrameSpec>::empty());
        Self::compile_with_frames(marker_specs, countdown_specs, clock_specs, frames)
    }

    /// Compile markers, clocks, countdowns, and finite action-frame deadlines
    /// into one immutable event table.
    pub fn compile_with_frames(
        marker_specs: Vec<MarkerSpec>,
        countdown_specs: Vec<CountdownSpec>,
        clock_specs: Vec<ClockSpec>,
        frame_specs: Vec<FrameSpec>,
    ) -> (r: Result<Self, ActionEventError>)
        ensures
            match r {
                Ok(t) => spec_compile(marker_specs@, countdown_specs@, clock_specs@, frame_specs@) == Ok::<TableView, Fault>(t@),
                Err(e) => spec_compile(marker_specs@, countdown_specs@, clock_specs@, frame_specs@) == Err::<TableView, Fault>(e@),
            },
    {
        if marker_specs.len() > MAX_MARKERS {
            return Err(ActionEventError::TooManyMarkers);
        }
        if countdown_specs.len() > MAX_COUNTDOWNS {
            return Err(ActionEventError::TooManyCountdowns);
        }
        if clock_specs.len() > MAX_CLOCKS {
            return Err(ActionEventError::TooManyClocks);
        }
        if frame_specs.len() > MAX_FRAMES {
            return Err(ActionEventError::TooManyFrames);
        }
        let ghost ms = marker_specs@;
        let ghost cs = countdown_specs@;
        let ghost ks = clock_specs@;
        let ghost fs = frame_specs@;
        let mut tokens: Vec<u64> = Vec::new();
        let mut marker_ids: Vec<u16> = Vec::new();
        let mut edge_count: usize = 0;
        let mut markers: Vec<ActionMarker> = Vec::new();
        let mut i: usize = 0;
        assert(ms.subrange(0, 0) =~= Seq::<MarkerSpec>::empty());
        assert(tokens@.to_set() =~= Set::<u64>::empty());
        assert(marker_ids@.to_set() =~= Set::<u16>::empty());
        assert(markers@.map_values(|m: ActionMarker| m@) =~= Seq::<MarkerView>::empty());
        while i < marker_specs.len()
            invariant
                i <= marker_specs.len(),
                ms == marker_specs@,
                marker_specs.len() <= MAX_MARKERS,
                countdown_specs.len() <= MAX_COUNTDOWNS,
                clock_specs.len() <= MAX_CLOCKS,
                frame_specs.len() <= MAX_FRAMES,
                edge_count <= MAX_MARKER_EDGES,
                compile_markers(ms.subrange(0, i as int)) == Ok::<MarkerAcc, Fault>(MarkerAcc {
                    tokens: tokens@.to_set(),
                    ids: marker_ids@.to_set(),
                    edge_count: edge_count as nat,
                    markers: markers@.map_values(|m: ActionMarker| m@),
                }),
            decreases marker_specs.len() - i,
        {
            let spec = &marker_specs[i];
            let ghost acc = MarkerAcc {
                tokens: tokens@.to_set(),
                ids: marker_ids@.to_set(),
                edge_count: edge_count as nat,
                markers: markers@.map_values(|m: ActionMarker| m@),
            };
            let ghost old_tokens = tokens@;
            let ghost old_ids = marker_ids@;
            let ghost old_markers = markers@;
            assert(ms.subrange(0, i + 1).drop_last() =~= ms.subrange(0, i as int));
            assert(ms.subrange(0, i + 1).last() == *spec);
            match validate_marker(spec, &mut tokens, &mut marker_ids) {
                Err(e) => {
                    proof {
                        lemma_markers_err_extends(ms, i + 1, e@);
                    }
                    return Err(e);
                },
                Ok(()) => {},
            }
            let true_edges = match rising_edges(&spec.flags, &spec.name) {
                Err(e) => {
                    proof {
                        lemma_markers_err_extends(ms, i + 1, e@);
                    }
                    return Err(e);
                },
                Ok(edges) => edges,
            };
            if true_edges.len() > MAX_MARKER_EDGES {
                let e = ActionEventError::TooManyMarkerEdges(spec.name.clone());
                proof {
                    lemma_markers_err_extends(ms, i + 1, e@);
                }
                return Err(e);
            }
            if true_edges.len() > MAX_MARKER_EDGES - edge_count {
                proof {
                    lemma_markers_err_extends(ms, i + 1, Fault::TooManyEdges);
                }
                return Err(ActionEventError::TooManyEdges);
            }
            edge_count = edge_count + true_edges.len();
            let marker = ActionMarker {
                id: spec.id,
                name: spec.name.clone(),
                track: spec.track.clone(),
                actions: copy_actions(&spec.actions),
                true_edges,
                token: spec.token,
            };
            markers.push(marker);
            proof {
                old_tokens.lemma_push_to_set_commute(spec.token);
                assert(tokens@.to_set() =~= old_tokens.to_set().insert(spec.token));
                old_ids.lemma_push_to_set_commute(spec.id.value());
                assert(marker_ids@.to_set() =~= old_ids.to_set().insert(spec.id.value()));
                assert(markers@.map_values(|m: ActionMarker| m@) =~= acc.markers.push(
                    marker_view_of(*spec, edges_of(spec.flags@)),
                ));
            }
            i = i + 1;
        }
        assert(ms.subrange(0, i as int) =~= ms);
        let ghost macc = compile_markers(ms)->Ok_0;

        let mut fields: Vec<String> = Vec::new();
        let mut countdowns: Vec<CountdownBinding> = Vec::new();
        let mut j: usize = 0;
        assert(cs.subrange(0, 0) =~= Seq::<CountdownSpec>::empty());
        assert(string_set(fields@) =~= Set::<Seq<char>>::empty());
        assert(countdowns@.map_values(|c: CountdownBinding| c@) =~= Seq::<CountdownView>::empty());
        while j < countdown_specs.len()
            invariant
                j <= countdown_specs.len(),
                marker_specs.len() <= MAX_MARKERS,
                countdown_specs.len() <= MAX_COUNTDOWNS,
                clock_specs.len() <= MAX_CLOCKS,
                frame_specs.len() <= MAX_FRAMES,
                cs == countdown_specs@,
                ms == marker_specs@,
                compile_markers(ms) == Ok::<MarkerAcc, Fault>(macc),
                compile_countdowns(macc.tokens, cs.subrange(0, j as int)) == Ok::<FieldAcc, Fault>(FieldAcc {
                    tokens: tokens@.to_set(),
                    fields: string_set(fields@),
                    countdowns: countdowns@.map_values(|c: CountdownBinding| c@),
                    clocks: Seq::empty(),
                }),
            decreases countdown_specs.len() - j,
        {
            let spec = &countdown_specs[j];
            let ghost old_tokens = tokens@;
            let ghost old_fields = fields@;
            let ghost old_countdowns = countdowns@.map_values(|c: CountdownBinding| c@);
            assert(cs.subrange(0, j + 1).drop_last() =~= cs.subrange(0, j as int));
            assert(cs.subrange(0, j + 1).last() == *spec);
            match validate_countdown(spec, &mut tokens, &mut fields) {
                Err(e) => {
                    proof {
                        lemma_countdowns_err_extends(macc.tokens, cs, j + 1, e@);
                    }
                    return Err(e);
                },
                Ok(()) => {},
            }
            countdowns.push(CountdownBinding {
                field: spec.field.clone(),
                actions: copy_actions(&spec.actions),
                token: spec.token,
                phase: spec.phase,
            });
            proof {
                old_tokens.lemma_push_to_set_commute(spec.token);
                assert(tokens@.to_set() =~= old_tokens.to_set().insert(spec.token));
                assert(fields@.map_values(|s: String| s@) =~= old_fields.map_values(|s: String| s@).push(spec.field@));
                old_fields.map_values(|s: String| s@).lemma_push_to_set_commute(spec.field@);
                assert(string_set(fields@) =~= string_set(old_fields).insert(spec.field@));
                assert(countdowns@.map_values(|c: CountdownBinding| c@) =~= old_countdowns.push(
                    CountdownView { field: spec.field@, actions: spec.actions@, token: spec.token, phase: spec.phase },
                ));
            }
            j = j + 1;
        }
        assert(cs.subrange(0, j as int) =~= cs);
        let ghost cacc = compile_countdowns(macc.tokens, cs)->Ok_0;

        let mut clocks: Vec<ClockBinding> = Vec::new();
        let mut k: usize = 0;
        assert(ks.subrange(0, 0) =~= Seq::<ClockSpec>::empty());
        assert(clocks@.map_values(|c: ClockBinding| c@) =~= Seq::<ClockView>::empty());
        while k < clock_specs.len()
            invariant
                k <= clock_specs.len(),
                marker_specs.len() <= MAX_MARKERS,
                countdown_specs.len() <= MAX_COUNTDOWNS,
                clock_specs.len() <= MAX_CLOCKS,
                frame_specs.len() <= MAX_FRAMES,
                ks == clock_specs@,
                cs == countdown_specs@,
                ms == marker_specs@,
                compile_markers(ms) == Ok::<MarkerAcc, Fault>(macc),
                compile_countdowns(macc.tokens, cs) == Ok::<FieldAcc, Fault>(cacc),
                tokens@.to_set() == cacc.tokens,
                compile_clocks(cacc, ks.subrange(0, k as int)) == Ok::<FieldAcc, Fault>(FieldAcc {
                    tokens: cacc.tokens,
                    fields: string_set(fields@),
                    countdowns: cacc.countdowns,
                    clocks: clocks@.map_values(|c: ClockBinding| c@),
                }),
            decreases clock_specs.len() - k,
        {
            let spec = &clock_specs[k];
            let ghost old_fields = fields@;
            let ghost old_clocks = clocks@.map_values(|c: ClockBinding| c@);
            assert(ks.subrange(0, k + 1).drop_last() =~= ks.subrange(0, k as int));
            assert(ks.subrange(0, k + 1).last() == *spec);
            match validate_clock(spec, &mut fields) {
                Err(e) => {
                    proof {
                        lemma_clocks_err_extends(cacc, ks, k + 1, e@);
                    }
                    return Err(e);
                },
                Ok(()) => {},
            }
            clocks.push(ClockBinding { field: spec.field.clone(), actions: copy_actions(&spec.actions) });
            proof {
                assert(fields@.map_values(|s: String| s@) =~= old_fields.map_values(|s: String| s@).push(spec.field@));
                old_fields.map_values(|s: String| s@).lemma_push_to_set_commute(spec.field@);
                assert(string_set(fields@) =~= string_set(old_fields).insert(spec.field@));
                assert(clocks@.map_values(|c: ClockBinding| c@) =~= old_clocks.push(
                    ClockView { field: spec.field@, actions: spec.actions@ },
                ));
            }
            k = k + 1;
        }
        assert(ks.subrange(0, k as int) =~= ks);
        let ghost kacc = compile_clocks(cacc, ks)->Ok_0;

        let mut frames: Vec<FrameBinding> = Vec::new();
        let mut f: usize = 0;
        assert(fs.subrange(0, 0) =~= Seq::<FrameSpec>::empty());
        assert(frames@.map_values(|b: FrameBinding| b@) =~= Seq::<FrameView>::empty());
        while f < frame_specs.len()
            invariant
                f <= frame_specs.len(),
                marker_specs.len() <= MAX_MARKERS,
                countdown_specs.len() <= MAX_COUNTDOWNS,
                clock_specs.len() <= MAX_CLOCKS,
                frame_specs.len() <= MAX_FRAMES,
                fs == frame_specs@,
                ks == clock_specs@,
                cs == countdown_specs@,
                ms == marker_specs@,
                compile_markers(ms) == Ok::<MarkerAcc, Fault>(macc),
                compile_countdowns(macc.tokens, cs) == Ok::<FieldAcc, Fault>(cacc),
                compile_clocks(cacc, ks) == Ok::<FieldAcc, Fault>(kacc),
                kacc.tokens == cacc.tokens,
                compile_frames(kacc.tokens, fs.subrange(0, f as int)) == Ok::<(Set<u64>, Seq<FrameView>), Fault>(
                    (tokens@.to_set(), frames@.map_values(|b: FrameBinding| b@)),
                ),
            decreases frame_specs.len() - f,
        {
            let spec = &frame_specs[f];
            let ghost old_tokens = tokens@;
            let ghost old_frames = frames@.map_values(|b: FrameBinding| b@);
            assert(fs.subrange(0, f + 1).drop_last() =~= fs.subrange(0, f as int));
            assert(fs.subrange(0, f + 1).last() == *spec);
            if set_contains_u64(&tokens, spec.token) {
                proof {
                    lemma_frames_err_extends(kacc.tokens, fs, f + 1, Fault::DuplicateToken(spec.token));
                }
                return Err(ActionEventError::DuplicateToken(spec.token));
            }
            tokens.push(spec.token);
            frames.push(FrameBinding { action: spec.action, frame: spec.frame, token: spec.token });
            proof {
                old_tokens.lemma_push_to_set_commute(spec.token);
                assert(tokens@.to_set() =~= old_tokens.to_set().insert(spec.token));
                assert(frames@.map_values(|b: FrameBinding| b@) =~= old_frames.push(
                    FrameView { action: spec.action, frame: spec.frame, token: spec.token },
                ));
            }
            f = f + 1;
        }
        assert(fs.subrange(0, f as int) =~= fs);
        let table = rebuild_indexes(markers, countdowns, clocks, frames);
        assert(table@ =~= spec_compile(ms, cs, ks, fs)->Ok_0);
        Ok(table)
    }

    /// Rebuild a table, with its dispatch indexes, from serialized binding
    /// lists.  The bindings are taken as they are.
    pub fn from_wire(
        markers: Vec<ActionMarker>,
        countdowns: Vec<CountdownBinding>,
        clocks: Vec<ClockBinding>,
        frames: Vec<FrameBinding>,
    ) -> (r: Self)
        ensures
            r@.markers == markers@.map_values(|m: ActionMarker| m@),
            r@.countdowns == countdowns@.map_values(|c: CountdownBinding| c@),
            r@.clocks == clocks@.map_values(|c: ClockBinding| c@),
            r@.frames == frames@.map_values(|f: FrameBinding| f@),
    {
        rebuild_indexes(markers, countdowns, clocks, frames)
    }

    pub fn markers(&self) -> (r: &[ActionMarker])
        ensures
            r@.map_values(|m: ActionMarker| m@) == self@.markers,
    {
        self.markers.as_slice()
    }

    pub fn countdowns(&self) -> (r: &[CountdownBinding])
        ensures
            r@.map_values(|c: CountdownBinding| c@) == self@.countdowns,
    {
        self.countdowns.as_slice()
    }

    pub fn clocks(&self) -> (r: &[ClockBinding])
        ensures
            r@.map_values(|c: ClockBinding| c@) == self@.clocks,
    {
        self.clocks.as_slice()
    }

    pub fn frames(&self) -> (r: &[FrameBinding])
        ensures
            r@.map_values(|f: FrameBinding| f@) == self@.frames,
    {
        self.frames.as_slice()
    }

    /// Marker timers the host schedules when an action generation starts:
    /// every rising edge of every marker owned by `action`, markers in
    /// declaration order and edges ascending.
    pub fn schedule_action_markers(&self, action: Action) -> (r: Vec<ActionTimer>)
        ensures
            r@ == marker_timers(self@.markers, bindings_for(marker_sets(self@.markers), action), action),
    {
        proof {
            use_type_invariant(self);
            lemma_bindings_in_range(marker_sets(self@.markers), action);
        }
        let idx = self.marker_actions.get(action);
        let ghost views = self@.markers;
        let mut timers: Vec<ActionTimer> = Vec::new();
        let mut i: usize = 0;
        assert(idx@.subrange(0, 0) =~= Seq::<usize>::empty());
        while i < idx.len()
            invariant
                i <= idx.len(),
                views == self@.markers,
                views.len() == self.markers@.len(),
                idx@ == bindings_for(marker_sets(views), action),
                forall|j: int| 0 <= j < idx@.len() ==> #[trigger] idx@[j] < views.len(),
                timers@ == marker_timers(views, idx@.subrange(0, i as int), action),
            decreases idx.len() - i,
        {
            let marker = &self.markers[idx[i]];
            let ghost before = timers@;
            let mut e: usize = 0;
            assert(views[idx@[i as int] as int] == marker@);
            while e < marker.true_edges.len()
                invariant
                    e <= marker.true_edges.len(),
                    timers@ == before + marker.true_edges@.subrange(0, e as int).map_values(
                        |f: u32| ActionTimer { action, frame: f, token: marker.token },
                    ),
                decreases marker.true_edges.len() - e,
            {
                timers.push(ActionTimer { action, frame: marker.true_edges[e], token: marker.token });
                e = e + 1;
                assert(timers@ =~= before + marker.true_edges@.subrange(0, e as int).map_values(
                    |f: u32| ActionTimer { action, frame: f, token: marker.token },
                ));
            }
            assert(marker.true_edges@.subrange(0, e as int) =~= marker.true_edges@);
            assert(idx@.subrange(0, i + 1).drop_last() =~= idx@.subrange(0, i as int));
            i = i + 1;
        }
        assert(idx@.subrange(0, i as int) =~= idx@);
        timers
    }

    /// Frame-deadline timers the host schedules when an action generation
    /// starts, in declaration order.
    pub fn schedule_action_frames(&self, action: Action) -> (r: Vec<ActionTimer>)
        ensures
            r@ == frame_timers(self@.frames, bindings_for(frame_sets(self@.frames), action), action),
    {
        proof {
            use_type_invariant(self);
            lemma_bindings_in_range(frame_sets(self@.frames), action);
        }
        let idx = self.frame_actions.get(action);
        let ghost views = self@.frames;
        let mut timers: Vec<ActionTimer> = Vec::new();
        let mut i: usize = 0;
        assert(idx@.subrange(0, 0) =~= Seq::<usize>::empty());
        while i < idx.len()
            invariant
                i <= idx.len(),
                views == self@.frames,
                views.len() == self.frames@.len(),
                idx@ == bindings_for(frame_sets(views), action),
                forall|j: int| 0 <= j < idx@.len() ==> #[trigger] idx@[j] < views.len(),
                timers@ == frame_timers(views, idx@.subrange(0, i as int), action),
            decreases idx.len() - i,
        {
            let frame = &self.frames[idx[i]];
            assert(views[idx@[i as int] as int] == frame@);
            timers.push(ActionTimer { action, frame: frame.frame, token: frame.token });
            assert(idx@.subrange(0, i + 1).drop_last() =~= idx@.subrange(0, i as int));
            i = i + 1;
        }
        assert(idx@.subrange(0, i as int) =~= idx@);
        timers
    }

    /// Countdown bindings the host advances for `action` in `phase`, in
    /// declaration order.
    pub fn countdown_indices(&self, action: Action, phase: CountdownPhase) -> (r: &[usize])
        ensures
            r@ == bindings_for(countdown_sets(self@.countdowns, phase), action),
            forall|j: int| 0 <= j < r@.len() ==> #[trigger] r@[j] < self@.countdowns.len(),
    {
        proof {
            use_type_invariant(self);
            lemma_bindings_in_range(countdown_sets(self@.countdowns, phase), action);
        }
        match phase {
            CountdownPhase::Animation => self.countdown_animation_actions.get(action),
            CountdownPhase::Physics => self.countdown_physics_actions.get(action),
        }
    }

    /// Clock bindings the host advances for `action`, in declaration order.
    pub fn clock_indices(&self, action: Action) -> (r: &[usize])
        ensures
            r@ == bindings_for(clock_sets(self@.clocks), action),
            forall|j: int| 0 <= j < r@.len() ==> #[trigger] r@[j] < self@.clocks.len(),
    {
        proof {
            use_type_invariant(self);
            lemma_bindings_in_range(clock_sets(self@.clocks), action);
        }
        self.clock_actions.get(action)
    }
}

proof fn lemma_rising_positions(flags: Seq<bool>, n: nat)
    requires
        n <= flags.len(),
    ensures
        forall|i: int, j: int| 0 <= i < j < rising_positions(flags, n).len() ==>
            (#[trigger] rising_positions(flags, n)[i]) < (#[trigger] rising_positions(flags, n)[j]),
        forall|i: int| 0 <= i < rising_positions(flags, n).len() ==>
            0 <= (#[trigger] rising_positions(flags, n)[i]) < n && is_rising(flags, rising_positions(flags, n)[i]),
        forall|p: int| 0 <= p < n && #[trigger] is_rising(flags, p) ==> rising_positions(flags, n).contains(p),
    decreases n,
{
    if n > 0 {
        lemma_rising_positions(flags, (n - 1) as nat);
        let prev = rising_positions(flags, (n - 1) as nat);
        let r = rising_positions(flags, n);
        assert forall|i: int| 0 <= i < prev.len() implies r[i] == prev[i] by {}
        assert forall|p: int| 0 <= p < n && #[trigger] is_rising(flags, p) implies r.contains(p) by {
            if p < n - 1 {
                let k = choose|k: int| 0 <= k < prev.len() && prev[k] == p;
                assert(r[k] == p);
            } else {
                assert(r[r.len() - 1] == p);
            }
        }
    }
}

/// A compiled marker keeps exactly the rising edges of its track: the
/// frames, in ascending order, at which a run of true samples starts.
/// Consecutive true samples give one edge.
pub proof fn law_edges_are_run_starts(flags: Seq<bool>)
    ensures
        forall|i: int, j: int| 0 <= i < j < edges_of(flags).len() ==> (#[trigger] edges_of(flags)[i]) < (#[trigger] edges_of(flags)[j]),
        forall|i: int| 0 <= i < edges_of(flags).len() ==> 0 <= (#[trigger] edges_of(flags)[i]) < flags.len()
            && flags[edges_of(flags)[i]] && (edges_of(flags)[i] == 0 || !flags[edges_of(flags)[i] - 1]),
        forall|p: int| 0 <= p < flags.len() && flags[p] && (p == 0 || !flags[p - 1]) ==> #[trigger] edges_of(flags).contains(p),
{
    lemma_rising_positions(flags, flags.len());
    assert forall|p: int| 0 <= p < flags.len() && flags[p] && (p == 0 || !flags[p - 1]) implies #[trigger] edges_of(flags).contains(p) by {
        assert(is_rising(flags, p));
    }
}


pub open spec fn distinct_tokens(s: Seq<u64>) -> bool {
    forall|i: int, j: int| 0 <= i < j < s.len() ==> s[i] != s[j]
}

/// The scheduling tokens of a table: its markers', countdowns' and frame
/// deadlines', in that order.
pub open spec fn table_tokens(t: TableView) -> Seq<u64> {
    t.markers.map_values(|m: MarkerView| m.token) + t.countdowns.map_values(|c: CountdownView| c.token)
        + t.frames.map_values(|f: FrameView| f.token)
}

proof fn lemma_push_distinct(s: Seq<u64>, x: u64)
    requires
        distinct_tokens(s),
        !s.contains(x),
    ensures
        distinct_tokens(s.push(x)),
{
    assert forall|i: int, j: int| 0 <= i < j < s.push(x).len() implies s.push(x)[i] != s.push(x)[j] by {
        if j == s.len() {
            assert(s.push(x)[i] == s[i]);
            if s[i] == x {
                assert(s.contains(x));
            }
        } else {
            assert(s.push(x)[i] == s[i] && s.push(x)[j] == s[j]);
        }
    }
}

#[verifier::rlimit(30)]
proof fn lemma_marker_tokens(specs: Seq<MarkerSpec>)
    ensures
        compile_markers(specs) matches Ok(acc) ==> {
            let t = acc.markers.map_values(|m: MarkerView| m.token);
            &&& distinct_tokens(t)
            &&& forall|x: u64| acc.tokens.contains(x) <==> t.contains(x)
        },
    decreases specs.len(),
{
    if specs.len() > 0 {
        lemma_marker_tokens(specs.drop_last());
        if let Ok(acc) = compile_markers(specs.drop_last()) {
            if let Ok(next) = marker_step(acc, specs.last()) {
                let t = acc.markers.map_values(|m: MarkerView| m.token);
                let m = specs.last();
                let edges = edges_of(m.flags@);
                assert(next.markers.map_values(|v: MarkerView| v.token) =~= t.push(m.token));
                lemma_push_distinct(t, m.token);
                assert forall|x: u64| next.tokens.contains(x) <==> t.push(m.token).contains(x) by {
                    if t.push(m.token).contains(x) && x != m.token {
                        let k = choose|k: int| 0 <= k < t.push(m.token).len() && t.push(m.token)[k] == x;
                        assert(t[k] == x);
                    }
                    if t.contains(x) {
                        let k = choose|k: int| 0 <= k < t.len() && t[k] == x;
                        assert(t.push(m.token)[k] == x);
                    }
                    assert(t.push(m.token)[t.len() as int] == m.token);
                }
            }
        }
    }
}

#[verifier::rlimit(30)]
proof fn lemma_countdown_tokens(tokens: Set<u64>, specs: Seq<CountdownSpec>)
    ensures
        compile_countdowns(tokens, specs) matches Ok(acc) ==> {
            let t = acc.countdowns.map_values(|c: CountdownView| c.token);
            &&& distinct_tokens(t)
            &&& forall|x: u64| t.contains(x) ==> !tokens.contains(x)
            &&& forall|x: u64| acc.tokens.contains(x) <==> (tokens.contains(x) || t.contains(x))
        },
    decreases specs.len(),
{
    if specs.len() > 0 {
        lemma_countdown_tokens(tokens, specs.drop_last());
        if let Ok(acc) = compile_countdowns(tokens, specs.drop_last()) {
            let c = specs.last();
            if countdown_fault(c, acc.tokens, acc.fields) is None {
                let t = acc.countdowns.map_values(|v: CountdownView| v.token);
                let next = compile_countdowns(tokens, specs)->Ok_0;
                assert(next.countdowns.map_values(|v: CountdownView| v.token) =~= t.push(c.token));
                lemma_push_distinct(t, c.token);
                assert forall|x: u64| t.push(c.token).contains(x) implies !tokens.contains(x) by {
                    if x != c.token {
                        let k = choose|k: int| 0 <= k < t.push(c.token).len() && t.push(c.token)[k] == x;
                        assert(t[k] == x);
                    }
                }
                assert forall|x: u64| next.tokens.contains(x) <==> (tokens.contains(x) || t.push(c.token).contains(x)) by {
                    if t.push(c.token).contains(x) && x != c.token {
                        let k = choose|k: int| 0 <= k < t.push(c.token).len() && t.push(c.token)[k] == x;
                        assert(t[k] == x);
                    }
                    if t.contains(x) {
                        let k = choose|k: int| 0 <= k < t.len() && t[k] == x;
                        assert(t.push(c.token)[k] == x);
                    }
                    assert(t.push(c.token)[t.len() as int] == c.token);
                }
            }
        }
    }
}

proof fn lemma_clocks_keep(start: FieldAcc, specs: Seq<ClockSpec>)
    ensures
        compile_clocks(start, specs) matches Ok(acc) ==> acc.tokens == start.tokens && acc.countdowns == start.countdowns,
    decreases specs.len(),
{
    if specs.len() > 0 {
        lemma_clocks_keep(start, specs.drop_last());
    }
}

#[verifier::rlimit(30)]
proof fn lemma_frame_tokens(tokens: Set<u64>, specs: Seq<FrameSpec>)
    ensures
        compile_frames(tokens, specs) matches Ok(acc) ==> {
            let t = acc.1.map_values(|f: FrameView| f.token);
            &&& distinct_tokens(t)
            &&& forall|x: u64| t.contains(x) ==> !tokens.contains(x)
            &&& forall|x: u64| acc.0.contains(x) <==> (tokens.contains(x) || t.contains(x))
        },
    decreases specs.len(),
{
    if specs.len() > 0 {
        lemma_frame_tokens(tokens, specs.drop_last());
        if let Ok(acc) = compile_frames(tokens, specs.drop_last()) {
            let f = specs.last();
            if !acc.0.contains(f.token) {
                let t = acc.1.map_values(|v: FrameView| v.token);
                let next = compile_frames(tokens, specs)->Ok_0;
                assert(next.0 == acc.0.insert(f.token));
                assert(next.1 == acc.1.push(FrameView { action: f.action, frame: f.frame, token: f.token }));
                assert(next.1.map_values(|v: FrameView| v.token) =~= t.push(f.token));
                lemma_push_distinct(t, f.token);
                assert forall|x: u64| t.push(f.token).contains(x) implies !tokens.contains(x) by {
                    if x != f.token {
                        let k = choose|k: int| 0 <= k < t.push(f.token).len() && t.push(f.token)[k] == x;
                        assert(t[k] == x);
                    }
                }
                assert forall|x: u64| next.0.contains(x) <==> (tokens.contains(x) || t.push(f.token).contains(x)) by {
                    if t.push(f.token).contains(x) && x != f.token {
                        let k = choose|k: int| 0 <= k < t.push(f.token).len() && t.push(f.token)[k] == x;
                        assert(t[k] == x);
                    }
                    if t.contains(x) {
                        let k = choose|k: int| 0 <= k < t.len() && t[k] == x;
                        assert(t.push(f.token)[k] == x);
                    }
                    assert(t.push(f.token)[t.len() as int] == f.token);
                }
            }
        }
    }
}

/// No two scheduled bindings of a compiled table share a token, so a
/// delivered token names exactly one marker, countdown or frame deadline.
pub proof fn law_compiled_tokens_are_distinct(
    markers: Seq<MarkerSpec>,
    countdowns: Seq<CountdownSpec>,
    clocks: Seq<ClockSpec>,
    frames: Seq<FrameSpec>,
)
    ensures
        spec_compile(markers, countdowns, clocks, frames) matches Ok(t) ==> distinct_tokens(table_tokens(t)),
{
    if let Ok(tv) = spec_compile(markers, countdowns, clocks, frames) {
        let m = compile_markers(markers)->Ok_0;
        lemma_marker_tokens(markers);
        let c = compile_countdowns(m.tokens, countdowns)->Ok_0;
        lemma_countdown_tokens(m.tokens, countdowns);
        let k = compile_clocks(c, clocks)->Ok_0;
        lemma_clocks_keep(c, clocks);
        let fr = compile_frames(k.tokens, frames)->Ok_0;
        lemma_frame_tokens(k.tokens, frames);
        let a = tv.markers.map_values(|x: MarkerView| x.token);
        let b = tv.countdowns.map_values(|x: CountdownView| x.token);
        let d = tv.frames.map_values(|x: FrameView| x.token);
        let all = table_tokens(tv);
        assert(all =~= a + b + d);
        assert forall|i: int, j: int| 0 <= i < j < all.len() implies all[i] != all[j] by {
            let la = a.len() as int;
            let lb = b.len() as int;
            if j < la {
                assert(all[i] == a[i] && all[j] == a[j]);
            } else if j < la + lb {
                assert(all[j] == b[j - la]);
                assert(b.contains(b[j - la]));
                if i < la {
                    assert(all[i] == a[i]);
                    assert(a.contains(a[i]));
                } else {
                    assert(all[i] == b[i - la]);
                }
            } else {
                assert(all[j] == d[j - la - lb]);
                assert(d.contains(d[j - la - lb]));
                if i < la {
                    assert(all[i] == a[i]);
                    assert(a.contains(a[i]));
                } else if i < la + lb {
                    assert(all[i] == b[i - la]);
                    assert(b.contains(b[i - la]));
                } else {
                    assert(all[i] == d[i - la - lb]);
                }
            }
        }
    }
}

// ---------------------------------------------------------------------
// Bounds of a compiled table
// ---------------------------------------------------------------------

pub open spec fn all_distinct<T>(s: Seq<T>) -> bool {
    forall|i: int, j: int| 0 <= i < j < s.len() ==> s[i] != s[j]
}

/// An accepted owner action list: one to `MAX_ACTIONS_PER_BINDING`
/// actions, none repeated.
pub open spec fn actions_ok(actions: Seq<Action>) -> bool {
    1 <= actions.len() <= MAX_ACTIONS_PER_BINDING && !has_repeat(actions)
}

pub open spec fn marker_ok(m: MarkerView) -> bool {
    &&& 1 <= m.name.len()
    &&& byte_len(m.name) <= MAX_FIELD_BYTES
    &&& byte_len(m.track) <= MAX_TRACK_BYTES
    &&& actions_ok(m.actions)
}

pub open spec fn field_ok(field: Seq<char>, actions: Seq<Action>) -> bool {
    1 <= field.len() && byte_len(field) <= MAX_FIELD_BYTES && actions_ok(actions)
}

/// The number of true edges over all markers.
pub open spec fn edge_total(markers: Seq<MarkerView>) -> nat
    decreases markers.len(),
{
    if markers.len() == 0 {
        0
    } else {
        edge_total(markers.drop_last()) + markers.last().edges.len()
    }
}

/// The state fields a table binds: its countdowns' and then its clocks'.
pub open spec fn table_fields(t: TableView) -> Seq<Seq<char>> {
    t.countdowns.map_values(|c: CountdownView| c.field) + t.clocks.map_values(|c: ClockView| c.field)
}

pub open spec fn acc_fields(acc: FieldAcc) -> Seq<Seq<char>> {
    acc.countdowns.map_values(|c: CountdownView| c.field) + acc.clocks.map_values(|c: ClockView| c.field)
}

/// What every compiled table satisfies.
pub open spec fn table_bounded(t: TableView) -> bool {
    &&& t.markers.len() <= MAX_MARKERS
    &&& t.countdowns.len() <= MAX_COUNTDOWNS
    &&& t.clocks.len() <= MAX_CLOCKS
    &&& t.frames.len() <= MAX_FRAMES
    &&& forall|i: int| 0 <= i < t.markers.len() ==> marker_ok(#[trigger] t.markers[i])
    &&& all_distinct(t.markers.map_values(|m: MarkerView| m.id))
    &&& forall|i: int| 0 <= i < t.countdowns.len() ==> field_ok((#[trigger] t.countdowns[i]).field, t.countdowns[i].actions)
    &&& forall|i: int| 0 <= i < t.clocks.len() ==> field_ok((#[trigger] t.clocks[i]).field, t.clocks[i].actions)
    &&& all_distinct(table_fields(t))
    &&& edge_total(t.markers) <= MAX_MARKER_EDGES
}

proof fn lemma_action_list_ok(actions: Seq<Action>)
    requires
        action_list_fault(actions) != Some(0int),
        action_list_fault(actions) != Some(1int),
        action_list_fault(actions) != Some(2int),
    ensures
        actions_ok(actions),
{
}

#[verifier::rlimit(40)]
proof fn lemma_markers_bounded(specs: Seq<MarkerSpec>)
    ensures
        compile_markers(specs) matches Ok(acc) ==> {
            let ids = acc.markers.map_values(|m: MarkerView| m.id);
            &&& acc.markers.len() == specs.len()
            &&& forall|i: int| 0 <= i < acc.markers.len() ==> marker_ok(#[trigger] acc.markers[i])
            &&& all_distinct(ids)
            &&& forall|i: int| 0 <= i < ids.len() ==> acc.ids.contains(#[trigger] ids[i])
            &&& acc.edge_count == edge_total(acc.markers)
            &&& acc.edge_count <= MAX_MARKER_EDGES
        },
    decreases specs.len(),
{
    if specs.len() > 0 {
        lemma_markers_bounded(specs.drop_last());
        if let Ok(acc) = compile_markers(specs.drop_last()) {
            if let Ok(next) = marker_step(acc, specs.last()) {
                let m = specs.last();
                let edges = edges_of(m.flags@);
                let v = marker_view_of(m, edges);
                let ids = acc.markers.map_values(|x: MarkerView| x.id);
                assert(next.markers == acc.markers.push(v));
                lemma_action_list_ok(m.actions@);
                assert(marker_ok(v));
                assert(next.markers.map_values(|x: MarkerView| x.id) =~= ids.push(v.id));
                assert(!acc.ids.contains(v.id));
                assert forall|i: int, j: int| 0 <= i < j < ids.push(v.id).len() implies ids.push(v.id)[i] != ids.push(v.id)[j] by {
                    if j == ids.len() {
                        assert(acc.ids.contains(ids[i]));
                    }
                }
                assert(next.markers.drop_last() =~= acc.markers);
                assert(v.edges.len() == edges.len());
            }
        }
    }
}

#[verifier::rlimit(40)]
proof fn lemma_countdowns_bounded(tokens: Set<u64>, specs: Seq<CountdownSpec>)
    ensures
        compile_countdowns(tokens, specs) matches Ok(acc) ==> {
            let fields = acc_fields(acc);
            &&& acc.countdowns.len() == specs.len()
            &&& acc.clocks.len() == 0
            &&& forall|i: int| 0 <= i < acc.countdowns.len() ==> field_ok((#[trigger] acc.countdowns[i]).field, acc.countdowns[i].actions)
            &&& all_distinct(fields)
            &&& forall|i: int| 0 <= i < fields.len() ==> acc.fields.contains(#[trigger] fields[i])
        },
    decreases specs.len(),
{
    if specs.len() > 0 {
        lemma_countdowns_bounded(tokens, specs.drop_last());
        if let Ok(acc) = compile_countdowns(tokens, specs.drop_last()) {
            let c = specs.last();
            if countdown_fault(c, acc.tokens, acc.fields) is None {
                let next = compile_countdowns(tokens, specs)->Ok_0;
                let fields = acc_fields(acc);
                lemma_action_list_ok(c.actions@);
                assert(acc.clocks.map_values(|k: ClockView| k.field) =~= Seq::<Seq<char>>::empty());
                assert(next.clocks.map_values(|k: ClockView| k.field) =~= Seq::<Seq<char>>::empty());
                assert(fields =~= acc.countdowns.map_values(|k: CountdownView| k.field));
                assert(acc_fields(next) =~= fields.push(c.field@));
                assert forall|i: int, j: int| 0 <= i < j < fields.push(c.field@).len() implies fields.push(c.field@)[i] != fields.push(c.field@)[j] by {
                    if j == fields.len() {
                        assert(acc.fields.contains(fields[i]));
                    }
                }
                assert forall|i: int| 0 <= i < next.countdowns.len() implies field_ok((#[trigger] next.countdowns[i]).field, next.countdowns[i].actions) by {
                    if i < acc.countdowns.len() {
                        assert(next.countdowns[i] == acc.countdowns[i]);
                    }
                }
            }
        }
    }
}

#[verifier::rlimit(40)]
proof fn lemma_clocks_bounded(start: FieldAcc, specs: Seq<ClockSpec>)
    requires
        all_distinct(acc_fields(start)),
        forall|i: int| 0 <= i < acc_fields(start).len() ==> start.fields.contains(#[trigger] acc_fields(start)[i]),
        forall|i: int| 0 <= i < start.clocks.len() ==> field_ok((#[trigger] start.clocks[i]).field, start.clocks[i].actions),
    ensures
        compile_clocks(start, specs) matches Ok(acc) ==> {
            let fields = acc_fields(acc);
            &&& acc.clocks.len() == start.clocks.len() + specs.len()
            &&& forall|i: int| 0 <= i < acc.clocks.len() ==> field_ok((#[trigger] acc.clocks[i]).field, acc.clocks[i].actions)
            &&& all_distinct(fields)
            &&& forall|i: int| 0 <= i < fields.len() ==> acc.fields.contains(#[trigger] fields[i])
        },
    decreases specs.len(),
{
    if specs.len() > 0 {
        lemma_clocks_bounded(start, specs.drop_last());
        lemma_clocks_keep(start, specs.drop_last());
        if let Ok(acc) = compile_clocks(start, specs.drop_last()) {
            let c = specs.last();
            if clock_fault(c, acc.fields) is None {
                let next = compile_clocks(start, specs)->Ok_0;
                let fields = acc_fields(acc);
                lemma_action_list_ok(c.actions@);
                assert(next.clocks == acc.clocks.push(ClockView { field: c.field@, actions: c.actions@ }));
                assert(next.countdowns == acc.countdowns);
                assert(acc_fields(next) =~= fields.push(c.field@));
                assert forall|i: int, j: int| 0 <= i < j < fields.push(c.field@).len() implies fields.push(c.field@)[i] != fields.push(c.field@)[j] by {
                    if j == fields.len() {
                        assert(acc.fields.contains(fields[i]));
                    }
                }
                assert forall|i: int| 0 <= i < acc_fields(next).len() implies next.fields.contains(#[trigger] acc_fields(next)[i]) by {
                    if i < fields.len() {
                        assert(acc.fields.contains(fields[i]));
                    }
                }
                assert forall|i: int| 0 <= i < next.clocks.len() implies field_ok((#[trigger] next.clocks[i]).field, next.clocks[i].actions) by {
                    if i < acc.clocks.len() {
                        assert(next.clocks[i] == acc.clocks[i]);
                    }
                }
            }
        }
    }
}

proof fn lemma_frames_length(tokens: Set<u64>, specs: Seq<FrameSpec>)
    ensures
        compile_frames(tokens, specs) matches Ok(acc) ==> acc.1.len() == specs.len(),
    decreases specs.len(),
{
    if specs.len() > 0 {
        lemma_frames_length(tokens, specs.drop_last());
    }
}

/// Every table that compilation accepts stays within its declaration
/// limits: at most `MAX_MARKERS` markers, `MAX_COUNTDOWNS` countdowns,
/// `MAX_CLOCKS` clocks and `MAX_FRAMES` frame deadlines; every marker name
/// and state field is non-empty and at most `MAX_FIELD_BYTES` bytes, every
/// track path at most `MAX_TRACK_BYTES`; every binding owns one to
/// `MAX_ACTIONS_PER_BINDING` distinct actions; marker ids are distinct, as
/// are the state fields of countdowns and clocks together; and all markers
/// together have at most `MAX_MARKER_EDGES` true edges.
pub proof fn law_compiled_table_is_bounded(
    markers: Seq<MarkerSpec>,
    countdowns: Seq<CountdownSpec>,
    clocks: Seq<ClockSpec>,
    frames: Seq<FrameSpec>,
)
    ensures
        spec_compile(markers, countdowns, clocks, frames) matches Ok(t) ==> table_bounded(t),
{
    if let Ok(tv) = spec_compile(markers, countdowns, clocks, frames) {
        let m = compile_markers(markers)->Ok_0;
        lemma_markers_bounded(markers);
        let c = compile_countdowns(m.tokens, countdowns)->Ok_0;
        lemma_countdowns_bounded(m.tokens, countdowns);
        assert forall|i: int| 0 <= i < c.clocks.len() implies field_ok((#[trigger] c.clocks[i]).field, c.clocks[i].actions) by {}
        let k = compile_clocks(c, clocks)->Ok_0;
        lemma_clocks_bounded(c, clocks);
        lemma_clocks_keep(c, clocks);
        let fr = compile_frames(k.tokens, frames)->Ok_0;
        lemma_frames_length(k.tokens, frames);
        assert(table_fields(tv) == acc_fields(k));
    }
}

// ---------------------------------------------------------------------
// Reading countdown and clock fields
// ---------------------------------------------------------------------

/// The stored number (as its binary64 bits) of the state field a countdown
/// or clock advances: a missing field and a field that is not a number are
/// refused with the binding kind's error.
pub open spec fn stepped_number(state: Seq<(Seq<char>, LVal)>, field: Seq<char>, clock: bool) -> Result<u64, Fault> {
    match entry_get(state, field) {
        None => Err(if clock { Fault::MissingClockField(field) } else { Fault::MissingCountdownField(field) }),
        Some(LVal::Number(bits)) => Ok(bits),
        Some(_) => Err(if clock { Fault::InvalidClockValue(field) } else { Fault::InvalidCountdownValue(field) }),
    }
}

/// The stored number of the field a countdown (`clock == false`) or a
/// clock advances; the caller converts it to `f32`, refuses a non-finite
/// value with the same kind of error, and steps it.
pub fn stepped_field(state: &LocalState, field: &String, clock: bool) -> (r: Result<u64, ActionEventError>)
    ensures
        match stepped_number(state@, field@, clock) {
            Ok(bits) => r == Ok::<u64, ActionEventError>(bits),
            Err(f) => r matches Err(e) && e@ == f,
        },
{
    match state.get(field.as_str()) {
        None => Err(if clock {
            ActionEventError::MissingClockField(field.clone())
        } else {
            ActionEventError::MissingCountdownField(field.clone())
        }),
        Some(LocalValue::Number(bits)) => Ok(*bits),
        Some(_) => Err(if clock {
            ActionEventError::InvalidClockValue(field.clone())
        } else {
            ActionEventError::InvalidCountdownValue(field.clone())
        }),
    }
}

} // verus!
