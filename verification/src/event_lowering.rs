//! Lowering of declared callback bindings into the action event table.
//!
//! Bindings are read once, at resource load: the global callbacks first,
//! then each behavior whose resource is present (its callbacks, then its
//! clocks), in declaration order.  Every binding takes the next token.  A
//! marker binding reads its boolean track; countdown and clock bindings
//! must name a declared numeric action-state field; a frame deadline is
//! owned by the binding's first action.

use vstd::prelude::*;
use crate::action::{parse_action, spec_parse_action, Action};
use crate::action_index::copy_actions;
use crate::action_events::{
    ActionEventError, ActionEventTable, ClockSpec, CountdownPhase, CountdownSpec, Fault, FrameSpec, MarkerId, MarkerSpec,
    TableView, spec_compile,
};
use crate::definition::{ClockBinding, EventBinding};
use crate::host_state::{entry_get, schema_entries, StateSchema, StateType};
use crate::text::{str_eq, strip_prefix_or_self, strip_prefix_text};

verus! {

/// The value a resource path holds, as far as a marker track needs it.
#[derive(Clone, Debug, PartialEq, Eq)]
pub enum TrackValue {
    /// Missing, or not an array.
    NotArray,
    /// An array; `None` for an element that is not a boolean.
    Items(Vec<Option<bool>>),
}

/// The event declarations of one behavior.
#[derive(Clone, Debug, PartialEq)]
pub struct BehaviorEvents {
    /// Whether the behavior's resource, if it names one, is present.
    pub resource_present: bool,
    pub callbacks: Vec<EventBinding>,
    pub clocks: Vec<ClockBinding>,
}

/// The declarations of a program that the event table is built from.
#[derive(Debug, PartialEq)]
pub struct EventProgram {
    pub callbacks: Vec<EventBinding>,
    pub behaviors: Vec<BehaviorEvents>,
    /// Authoring action aliases with the action reference each names: the
    /// definition's own actions first, then each behavior's, in order.
    pub aliases: Vec<(String, Option<String>)>,
    pub action_state: StateSchema,
}

/// Why bindings could not be lowered.
#[derive(Clone, Debug, PartialEq, Eq)]
pub enum LoweringError {
    TooManyBindings,
    UnknownOwner(String),
    MarkerWithoutTrack(String),
    TrackNotArray(String),
    TrackNotBooleans(String),
    TooManyMarkerBindings,
    CountdownNotNumber(String),
    DeadlineWithoutOwner,
    UnknownFrameOwner(String),
    ClockNotNumber(String),
    UnknownClockOwner(String),
    Table(ActionEventError),
}

/// The content of a `LoweringError`.
pub enum LoweringFault {
    TooManyBindings,
    UnknownOwner(Seq<char>),
    MarkerWithoutTrack(Seq<char>),
    TrackNotArray(Seq<char>),
    TrackNotBooleans(Seq<char>),
    TooManyMarkerBindings,
    CountdownNotNumber(Seq<char>),
    DeadlineWithoutOwner,
    UnknownFrameOwner(Seq<char>),
    ClockNotNumber(Seq<char>),
    UnknownClockOwner(Seq<char>),
    Table(Fault),
}

impl View for LoweringError {
    type V = LoweringFault;

    open spec fn view(&self) -> LoweringFault {
        match self {
            LoweringError::TooManyBindings => LoweringFault::TooManyBindings,
            LoweringError::UnknownOwner(s) => LoweringFault::UnknownOwner(s@),
            LoweringError::MarkerWithoutTrack(s) => LoweringFault::MarkerWithoutTrack(s@),
            LoweringError::TrackNotArray(s) => LoweringFault::TrackNotArray(s@),
            LoweringError::TrackNotBooleans(s) => LoweringFault::TrackNotBooleans(s@),
            LoweringError::TooManyMarkerBindings => LoweringFault::TooManyMarkerBindings,
            LoweringError::CountdownNotNumber(s) => LoweringFault::CountdownNotNumber(s@),
            LoweringError::DeadlineWithoutOwner => LoweringFault::DeadlineWithoutOwner,
            LoweringError::UnknownFrameOwner(s) => LoweringFault::UnknownFrameOwner(s@),
            LoweringError::ClockNotNumber(s) => LoweringFault::ClockNotNumber(s@),
            LoweringError::UnknownClockOwner(s) => LoweringFault::UnknownClockOwner(s@),
            LoweringError::Table(e) => LoweringFault::Table(e@),
        }
    }
}

pub struct MarkerDecl {
    pub id: u16,
    pub name: Seq<char>,
    pub track: Seq<char>,
    pub actions: Seq<Action>,
    pub flags: Seq<bool>,
    pub token: u64,
}

pub struct CountdownDecl {
    pub field: Seq<char>,
    pub actions: Seq<Action>,
    pub token: u64,
    pub phase: CountdownPhase,
}

pub struct ClockDecl {
    pub field: Seq<char>,
    pub actions: Seq<Action>,
}

pub struct FrameDecl {
    pub action: Action,
    pub frame: u32,
    pub token: u64,
}

/// Declarations lowered so far, and the last token handed out.
pub struct Lowered {
    pub markers: Seq<MarkerDecl>,
    pub countdowns: Seq<CountdownDecl>,
    pub clocks: Seq<ClockDecl>,
    pub frames: Seq<FrameDecl>,
    pub token: u64,
}

pub open spec fn alias_views(a: Seq<(String, Option<String>)>) -> Seq<(Seq<char>, Option<Seq<char>>)> {
    Seq::new(a.len(), |i: int| (a[i].0@, match a[i].1 { Some(r) => Some(r@), None => None }))
}

/// The action an alias reference names.
pub open spec fn reference_action(reference: Option<Seq<char>>) -> Option<Action> {
    match reference {
        Some(r) => spec_parse_action(strip_prefix_or_self(r, "Action."@)),
        None => None,
    }
}

/// The first alias named `name` whose reference names an action.
pub open spec fn alias_action(aliases: Seq<(Seq<char>, Option<Seq<char>>)>, name: Seq<char>) -> Option<Action>
    decreases aliases.len(),
{
    if aliases.len() == 0 {
        None
    } else if aliases[0].0 == name && reference_action(aliases[0].1) is Some {
        reference_action(aliases[0].1)
    } else {
        alias_action(aliases.drop_first(), name)
    }
}

/// The action an authoring name denotes: an action spelling (with or
/// without `Action.`), else an alias.
pub open spec fn resolve_name(aliases: Seq<(Seq<char>, Option<Seq<char>>)>, name: Seq<char>) -> Option<Action> {
    match spec_parse_action(strip_prefix_or_self(name, "Action."@)) {
        Some(a) => Some(a),
        None => alias_action(aliases, name),
    }
}

/// The actions of `names`, or the first name that denotes none.
pub open spec fn resolve_all(aliases: Seq<(Seq<char>, Option<Seq<char>>)>, names: Seq<Seq<char>>) -> Result<Seq<Action>, Seq<char>>
    decreases names.len(),
{
    if names.len() == 0 {
        Ok(Seq::empty())
    } else {
        match resolve_all(aliases, names.drop_last()) {
            Err(n) => Err(n),
            Ok(s) => match resolve_name(aliases, names.last()) {
                Some(a) => Ok(s.push(a)),
                None => Err(names.last()),
            },
        }
    }
}

pub open spec fn names_of(v: Seq<String>) -> Seq<Seq<char>> {
    Seq::new(v.len(), |i: int| v[i]@)
}

/// The owner names of a binding: its action list, else its single action.
pub open spec fn owner_names(b: EventBinding) -> Seq<Seq<char>> {
    if b.actions@.len() == 0 {
        match b.action {
            Some(a) => seq![a@],
            None => Seq::empty(),
        }
    } else {
        names_of(b.actions@)
    }
}

pub open spec fn track_views(t: Seq<(String, TrackValue)>) -> Seq<(Seq<char>, TrackValue)> {
    Seq::new(t.len(), |i: int| (t[i].0@, t[i].1))
}

/// The boolean samples of track `path`, or why it has none.
pub open spec fn track_flags(tracks: Seq<(Seq<char>, TrackValue)>, path: Seq<char>) -> Result<Seq<bool>, LoweringFault> {
    match entry_get(tracks, path) {
        Some(TrackValue::Items(items)) => if forall|i: int| 0 <= i < items@.len() ==> (#[trigger] items@[i]) is Some {
            Ok(Seq::new(items@.len(), |i: int| items@[i]->0))
        } else {
            Err(LoweringFault::TrackNotBooleans(path))
        },
        _ => Err(LoweringFault::TrackNotArray(path)),
    }
}

/// Whether `field` is a declared numeric action-state field.
pub open spec fn numeric_field(schema: StateSchema, field: Seq<char>) -> bool {
    entry_get(schema_entries(schema.fields@), field) matches Some(f) && f.value_type == StateType::Number
}

/// The marker part of a binding.
pub open spec fn marker_part(acc: Lowered, b: EventBinding, actions: Seq<Action>, token: u64,
    tracks: Seq<(Seq<char>, TrackValue)>) -> Result<Seq<MarkerDecl>, LoweringFault> {
    match b.marker {
        None => Ok(acc.markers),
        Some(name) => match b.track {
            None => Err(LoweringFault::MarkerWithoutTrack(name@)),
            Some(track) => match track_flags(tracks, track@) {
                Err(f) => Err(f),
                Ok(flags) => if acc.markers.len() > u16::MAX {
                    Err(LoweringFault::TooManyMarkerBindings)
                } else {
                    Ok(acc.markers.push(MarkerDecl {
                        id: acc.markers.len() as u16,
                        name: name@,
                        track: track@,
                        actions,
                        flags,
                        token,
                    }))
                },
            },
        },
    }
}

/// Lowering one callback binding.
pub open spec fn binding_step(acc: Lowered, b: EventBinding, p: EventProgram, tracks: Seq<(Seq<char>, TrackValue)>)
    -> Result<Lowered, LoweringFault> {
    if acc.token == u64::MAX {
        Err(LoweringFault::TooManyBindings)
    } else {
        let token = (acc.token + 1) as u64;
        let aliases = alias_views(p.aliases@);
        let names = owner_names(b);
        match resolve_all(aliases, names) {
            Err(n) => Err(LoweringFault::UnknownOwner(n)),
            Ok(actions) => match marker_part(acc, b, actions, token, tracks) {
                Err(f) => Err(f),
                Ok(markers) => {
                    let countdowns = match b.countdown {
                        None => Ok(acc.countdowns),
                        Some(field) => if numeric_field(p.action_state, field@) {
                            Ok(acc.countdowns.push(CountdownDecl { field: field@, actions, token, phase: b.countdown_phase }))
                        } else {
                            Err(LoweringFault::CountdownNotNumber(field@))
                        },
                    };
                    match countdowns {
                        Err(f) => Err(f),
                        Ok(countdowns) => {
                            let frames = match b.deadline {
                                None => Ok(acc.frames),
                                Some(frame) => if names.len() == 0 {
                                    Err(LoweringFault::DeadlineWithoutOwner)
                                } else {
                                    match resolve_name(aliases, names[0]) {
                                        None => Err(LoweringFault::UnknownFrameOwner(names[0])),
                                        Some(action) => Ok(acc.frames.push(FrameDecl { action, frame, token })),
                                    }
                                },
                            };
                            match frames {
                                Err(f) => Err(f),
                                Ok(frames) => Ok(Lowered { markers, countdowns, clocks: acc.clocks, frames, token }),
                            }
                        },
                    }
                },
            },
        }
    }
}

/// Lowering the first `n` bindings of `bs` after `acc`.
pub open spec fn lower_bindings(acc: Lowered, bs: Seq<EventBinding>, p: EventProgram, tracks: Seq<(Seq<char>, TrackValue)>, n: nat)
    -> Result<Lowered, LoweringFault>
    decreases n,
{
    if n == 0 {
        Ok(acc)
    } else {
        match lower_bindings(acc, bs, p, tracks, (n - 1) as nat) {
            Err(f) => Err(f),
            Ok(a) => binding_step(a, bs[n - 1], p, tracks),
        }
    }
}

/// Lowering one clock binding.
pub open spec fn clock_step(acc: Lowered, c: ClockBinding, p: EventProgram) -> Result<Lowered, LoweringFault> {
    if !numeric_field(p.action_state, c.field@) {
        Err(LoweringFault::ClockNotNumber(c.field@))
    } else {
        match resolve_all(alias_views(p.aliases@), names_of(c.actions@)) {
            Err(n) => Err(LoweringFault::UnknownClockOwner(n)),
            Ok(actions) => Ok(Lowered { clocks: acc.clocks.push(ClockDecl { field: c.field@, actions }), ..acc }),
        }
    }
}

pub open spec fn lower_clocks(acc: Lowered, cs: Seq<ClockBinding>, p: EventProgram, n: nat) -> Result<Lowered, LoweringFault>
    decreases n,
{
    if n == 0 {
        Ok(acc)
    } else {
        match lower_clocks(acc, cs, p, (n - 1) as nat) {
            Err(f) => Err(f),
            Ok(a) => clock_step(a, cs[n - 1], p),
        }
    }
}

pub open spec fn behavior_step(acc: Lowered, b: BehaviorEvents, p: EventProgram, tracks: Seq<(Seq<char>, TrackValue)>)
    -> Result<Lowered, LoweringFault> {
    if !b.resource_present {
        Ok(acc)
    } else {
        match lower_bindings(acc, b.callbacks@, p, tracks, b.callbacks@.len()) {
            Err(f) => Err(f),
            Ok(a) => lower_clocks(a, b.clocks@, p, b.clocks@.len()),
        }
    }
}

pub open spec fn lower_behaviors(acc: Lowered, p: EventProgram, tracks: Seq<(Seq<char>, TrackValue)>, n: nat)
    -> Result<Lowered, LoweringFault>
    decreases n,
{
    if n == 0 {
        Ok(acc)
    } else {
        match lower_behaviors(acc, p, tracks, (n - 1) as nat) {
            Err(f) => Err(f),
            Ok(a) => behavior_step(a, p.behaviors@[n - 1], p, tracks),
        }
    }
}

pub open spec fn empty_lowered() -> Lowered {
    Lowered { markers: Seq::empty(), countdowns: Seq::empty(), clocks: Seq::empty(), frames: Seq::empty(), token: 0 }
}

/// The declarations a program's bindings lower to, or the first reason
/// they cannot.
pub open spec fn lower_program(p: EventProgram, tracks: Seq<(Seq<char>, TrackValue)>) -> Result<Lowered, LoweringFault> {
    match lower_bindings(empty_lowered(), p.callbacks@, p, tracks, p.callbacks@.len()) {
        Err(f) => Err(f),
        Ok(a) => lower_behaviors(a, p, tracks, p.behaviors@.len()),
    }
}

/// The exec declarations carry the lowered ones.
pub open spec fn markers_carry(v: Seq<MarkerSpec>, d: Seq<MarkerDecl>) -> bool {
    &&& v.len() == d.len()
    &&& forall|i: int| 0 <= i < v.len() ==> {
        &&& (#[trigger] v[i]).id.value() == d[i].id
        &&& v[i].name@ == d[i].name
        &&& v[i].track@ == d[i].track
        &&& v[i].actions@ == d[i].actions
        &&& v[i].flags@ == d[i].flags
        &&& v[i].token == d[i].token
    }
}

pub open spec fn countdowns_carry(v: Seq<CountdownSpec>, d: Seq<CountdownDecl>) -> bool {
    &&& v.len() == d.len()
    &&& forall|i: int| 0 <= i < v.len() ==> {
        &&& (#[trigger] v[i]).field@ == d[i].field
        &&& v[i].actions@ == d[i].actions
        &&& v[i].token == d[i].token
        &&& v[i].phase == d[i].phase
    }
}

pub open spec fn clocks_carry(v: Seq<ClockSpec>, d: Seq<ClockDecl>) -> bool {
    &&& v.len() == d.len()
    &&& forall|i: int| 0 <= i < v.len() ==> (#[trigger] v[i]).field@ == d[i].field && v[i].actions@ == d[i].actions
}

pub open spec fn frames_carry(v: Seq<FrameSpec>, d: Seq<FrameDecl>) -> bool {
    &&& v.len() == d.len()
    &&& forall|i: int| 0 <= i < v.len() ==> (#[trigger] v[i]).action == d[i].action && v[i].frame == d[i].frame && v[i].token == d[i].token
}

/// Exec declarations under construction.
pub struct Lowering {
    pub markers: Vec<MarkerSpec>,
    pub countdowns: Vec<CountdownSpec>,
    pub clocks: Vec<ClockSpec>,
    pub frames: Vec<FrameSpec>,
    pub token: u64,
}

pub open spec fn carries(l: Lowering, d: Lowered) -> bool {
    &&& markers_carry(l.markers@, d.markers)
    &&& countdowns_carry(l.countdowns@, d.countdowns)
    &&& clocks_carry(l.clocks@, d.clocks)
    &&& frames_carry(l.frames@, d.frames)
    &&& l.token == d.token
}

fn resolve_alias(aliases: &Vec<(String, Option<String>)>, name: &str) -> (r: Option<Action>)
    ensures
        r == alias_action(alias_views(aliases@), name@),
{
    let ghost a = alias_views(aliases@);
    let mut i: usize = 0;
    assert(a.subrange(0, a.len() as int) =~= a);
    while i < aliases.len()
        invariant
            i <= aliases.len(),
            a == alias_views(aliases@),
            alias_action(a, name@) == alias_action(a.subrange(i as int, a.len() as int), name@),
        decreases aliases.len() - i,
    {
        let ghost rest = a.subrange(i as int, a.len() as int);
        assert(rest[0] == a[i as int]);
        assert(rest.drop_first() =~= a.subrange(i + 1, a.len() as int));
        if str_eq(aliases[i].0.as_str(), name) {
            if let Some(reference) = &aliases[i].1 {
                let stripped = strip_prefix_text(reference.as_str(), "Action.");
                if let Some(action) = parse_action(stripped.as_str()) {
                    return Some(action);
                }
            }
        }
        i = i + 1;
    }
    assert(a.subrange(i as int, a.len() as int) =~= Seq::<(Seq<char>, Option<Seq<char>>)>::empty());
    None
}

/// The action an authoring name denotes: an action spelling (with or
/// without `Action.`), else the first alias with that name that names one.
pub fn resolve_action_name(aliases: &Vec<(String, Option<String>)>, name: &str) -> (r: Option<Action>)
    ensures
        r == resolve_name(alias_views(aliases@), name@),
{
    let canonical = strip_prefix_text(name, "Action.");
    match parse_action(canonical.as_str()) {
        Some(a) => Some(a),
        None => resolve_alias(aliases, name),
    }
}

fn resolve_names(aliases: &Vec<(String, Option<String>)>, names: &Vec<String>) -> (r: Result<Vec<Action>, String>)
    ensures
        match r {
            Ok(v) => resolve_all(alias_views(aliases@), names_of(names@)) == Ok::<Seq<Action>, Seq<char>>(v@),
            Err(n) => resolve_all(alias_views(aliases@), names_of(names@)) == Err::<Seq<Action>, Seq<char>>(n@),
        },
{
    let ghost nv = names_of(names@);
    let ghost al = alias_views(aliases@);
    let mut out: Vec<Action> = Vec::new();
    let mut i: usize = 0;
    assert(nv.take(0) =~= Seq::<Seq<char>>::empty());
    while i < names.len()
        invariant
            i <= names.len(),
            nv == names_of(names@),
            al == alias_views(aliases@),
            resolve_all(al, nv.take(i as int)) == Ok::<Seq<Action>, Seq<char>>(out@),
        decreases names.len() - i,
    {
        assert(nv.take(i + 1).drop_last() =~= nv.take(i as int));
        assert(nv.take(i + 1).last() == names@[i as int]@);
        match resolve_action_name(aliases, names[i].as_str()) {
            Some(a) => out.push(a),
            None => {
                proof {
                    lemma_resolve_all_err_persists(al, nv, (i + 1) as nat);
                }
                return Err(names[i].clone());
            },
        }
        i = i + 1;
    }
    assert(nv.take(names@.len() as int) =~= nv);
    Ok(out)
}

proof fn lemma_resolve_all_err_persists(al: Seq<(Seq<char>, Option<Seq<char>>)>, names: Seq<Seq<char>>, k: nat)
    requires
        k <= names.len(),
        resolve_all(al, names.take(k as int)) is Err,
    ensures
        resolve_all(al, names) == resolve_all(al, names.take(k as int)),
    decreases names.len() - k,
{
    if k < names.len() {
        assert(names.take((k + 1) as int).drop_last() =~= names.take(k as int));
        lemma_resolve_all_err_persists(al, names, k + 1);
    } else {
        assert(names.take(k as int) =~= names);
    }
}

fn owners_of(b: &EventBinding) -> (r: Vec<String>)
    ensures
        names_of(r@) == owner_names(*b),
{
    if b.actions.len() == 0 {
        let mut v: Vec<String> = Vec::new();
        if let Some(a) = &b.action {
            v.push(a.clone());
            assert(names_of(v@) =~= seq![a@]);
        } else {
            assert(names_of(v@) =~= Seq::<Seq<char>>::empty());
        }
        v
    } else {
        let mut v: Vec<String> = Vec::new();
        let mut i: usize = 0;
        while i < b.actions.len()
            invariant
                i <= b.actions.len(),
                v@.len() == i,
                forall|j: int| 0 <= j < i ==> (#[trigger] v@[j])@ == b.actions@[j]@,
            decreases b.actions.len() - i,
        {
            v.push(b.actions[i].clone());
            i = i + 1;
        }
        assert(names_of(v@) =~= names_of(b.actions@));
        v
    }
}

fn track_items<'a>(tracks: &'a Vec<(String, TrackValue)>, path: &str) -> (r: Option<&'a TrackValue>)
    ensures
        match r {
            Some(t) => entry_get(track_views(tracks@), path@) == Some(*t),
            None => entry_get(track_views(tracks@), path@) is None,
        },
{
    let ghost e = track_views(tracks@);
    let mut i: usize = 0;
    assert(e.subrange(0, e.len() as int) =~= e);
    while i < tracks.len()
        invariant
            i <= tracks.len(),
            e == track_views(tracks@),
            entry_get(e, path@) == entry_get(e.subrange(i as int, e.len() as int), path@),
        decreases tracks.len() - i,
    {
        let ghost rest = e.subrange(i as int, e.len() as int);
        if str_eq(tracks[i].0.as_str(), path) {
            assert(rest[0] == e[i as int]);
            return Some(&tracks[i].1);
        }
        assert(rest.drop_first() =~= e.subrange(i + 1, e.len() as int));
        i = i + 1;
    }
    assert(e.subrange(i as int, e.len() as int) =~= Seq::<(Seq<char>, TrackValue)>::empty());
    None
}

fn flags_of(tracks: &Vec<(String, TrackValue)>, path: &String) -> (r: Result<Vec<bool>, LoweringError>)
    ensures
        match r {
            Ok(f) => track_flags(track_views(tracks@), path@) == Ok::<Seq<bool>, LoweringFault>(f@),
            Err(e) => track_flags(track_views(tracks@), path@) == Err::<Seq<bool>, LoweringFault>(e@),
        },
{
    match track_items(tracks, path.as_str()) {
        Some(TrackValue::Items(items)) => {
            let mut flags: Vec<bool> = Vec::new();
            let mut i: usize = 0;
            while i < items.len()
                invariant
                    i <= items.len(),
                    flags@.len() == i,
                    entry_get(track_views(tracks@), path@) == Some(TrackValue::Items(*items)),
                    forall|j: int| 0 <= j < i ==> (#[trigger] items@[j]) is Some && flags@[j] == items@[j]->0,
                decreases items.len() - i,
            {
                match items[i] {
                    Some(b) => flags.push(b),
                    None => {
                        assert(items@[i as int] is None);
                        return Err(LoweringError::TrackNotBooleans(path.clone()));
                    },
                }
                i = i + 1;
            }
            assert(flags@ =~= Seq::new(items@.len(), |j: int| items@[j]->0));
            Ok(flags)
        },
        _ => Err(LoweringError::TrackNotArray(path.clone())),
    }
}

fn field_is_number(schema: &StateSchema, field: &str) -> (r: bool)
    ensures
        r == numeric_field(*schema, field@),
{
    match schema.field(field) {
        Some(f) => matches!(f.value_type, StateType::Number),
        None => false,
    }
}

/// Lowers one callback binding onto `l`, which carries `acc`.
fn lower_binding(
    l: &mut Lowering,
    b: &EventBinding,
    p: &EventProgram,
    tracks: &Vec<(String, TrackValue)>,
    Ghost(acc): Ghost<Lowered>,
) -> (r: Result<(), LoweringError>)
    requires
        carries(*old(l), acc),
    ensures
        match binding_step(acc, *b, *p, track_views(tracks@)) {
            Ok(d) => r is Ok && carries(*final(l), d),
            Err(f) => r matches Err(e) && e@ == f,
        },
{
    if l.token == u64::MAX {
        return Err(LoweringError::TooManyBindings);
    }
    let token = l.token + 1;
    let names = owners_of(b);
    let actions = match resolve_names(&p.aliases, &names) {
        Ok(a) => a,
        Err(n) => {
            return Err(LoweringError::UnknownOwner(n));
        },
    };
    let mut new_marker: Option<MarkerSpec> = None;
    if let Some(name) = &b.marker {
        let track = match &b.track {
            Some(t) => t,
            None => {
                return Err(LoweringError::MarkerWithoutTrack(name.clone()));
            },
        };
        let flags = flags_of(tracks, track)?;
        if l.markers.len() > 65535 {
            return Err(LoweringError::TooManyMarkerBindings);
        }
        let id = MarkerId::new(l.markers.len() as u16);
        new_marker = Some(MarkerSpec {
            id,
            name: name.clone(),
            track: track.clone(),
            actions: copy_actions(&actions),
            flags,
            token,
        });
    }
    let mut new_countdown: Option<CountdownSpec> = None;
    if let Some(field) = &b.countdown {
        if !field_is_number(&p.action_state, field.as_str()) {
            return Err(LoweringError::CountdownNotNumber(field.clone()));
        }
        new_countdown = Some(CountdownSpec { field: field.clone(), actions: copy_actions(&actions), token, phase: b.countdown_phase });
    }
    let mut new_frame: Option<FrameSpec> = None;
    if let Some(frame) = b.deadline {
        if names.len() == 0 {
            return Err(LoweringError::DeadlineWithoutOwner);
        }
        match resolve_action_name(&p.aliases, names[0].as_str()) {
            None => {
                return Err(LoweringError::UnknownFrameOwner(names[0].clone()));
            },
            Some(action) => {
                new_frame = Some(FrameSpec { action, frame, token });
            },
        }
    }
    let ghost old_l = *l;
    if let Some(m) = new_marker {
        l.markers.push(m);
    }
    if let Some(c) = new_countdown {
        l.countdowns.push(c);
    }
    if let Some(f) = new_frame {
        l.frames.push(f);
    }
    l.token = token;
    proof {
        let d = binding_step(acc, *b, *p, track_views(tracks@))->Ok_0;
        assert(markers_carry(l.markers@, d.markers)) by {
            if b.marker is Some {
                assert forall|i: int| 0 <= i < l.markers@.len() implies {
                    &&& (#[trigger] l.markers@[i]).id.value() == d.markers[i].id
                    &&& l.markers@[i].name@ == d.markers[i].name
                    &&& l.markers@[i].track@ == d.markers[i].track
                    &&& l.markers@[i].actions@ == d.markers[i].actions
                    &&& l.markers@[i].flags@ == d.markers[i].flags
                    &&& l.markers@[i].token == d.markers[i].token
                } by {
                    if i < old_l.markers@.len() {
                        assert(l.markers@[i] == old_l.markers@[i]);
                    }
                }
            }
        }
        assert(countdowns_carry(l.countdowns@, d.countdowns)) by {
            if b.countdown is Some {
                assert forall|i: int| 0 <= i < l.countdowns@.len() implies {
                    &&& (#[trigger] l.countdowns@[i]).field@ == d.countdowns[i].field
                    &&& l.countdowns@[i].actions@ == d.countdowns[i].actions
                    &&& l.countdowns@[i].token == d.countdowns[i].token
                    &&& l.countdowns@[i].phase == d.countdowns[i].phase
                } by {
                    if i < old_l.countdowns@.len() {
                        assert(l.countdowns@[i] == old_l.countdowns@[i]);
                    }
                }
            }
        }
        assert(frames_carry(l.frames@, d.frames)) by {
            if b.deadline is Some {
                assert forall|i: int| 0 <= i < l.frames@.len() implies
                    (#[trigger] l.frames@[i]).action == d.frames[i].action && l.frames@[i].frame == d.frames[i].frame
                    && l.frames@[i].token == d.frames[i].token by {
                    if i < old_l.frames@.len() {
                        assert(l.frames@[i] == old_l.frames@[i]);
                    }
                }
            }
        }
    }
    Ok(())
}

fn lower_clock(l: &mut Lowering, c: &ClockBinding, p: &EventProgram, Ghost(acc): Ghost<Lowered>) -> (r: Result<(), LoweringError>)
    requires
        carries(*old(l), acc),
    ensures
        match clock_step(acc, *c, *p) {
            Ok(d) => r is Ok && carries(*final(l), d),
            Err(f) => r matches Err(e) && e@ == f,
        },
{
    if !field_is_number(&p.action_state, c.field.as_str()) {
        return Err(LoweringError::ClockNotNumber(c.field.clone()));
    }
    let actions = match resolve_names(&p.aliases, &c.actions) {
        Ok(a) => a,
        Err(n) => {
            return Err(LoweringError::UnknownClockOwner(n));
        },
    };
    let ghost old_l = *l;
    l.clocks.push(ClockSpec { field: c.field.clone(), actions });
    proof {
        let d = clock_step(acc, *c, *p)->Ok_0;
        assert forall|i: int| 0 <= i < l.clocks@.len() implies
            (#[trigger] l.clocks@[i]).field@ == d.clocks[i].field && l.clocks@[i].actions@ == d.clocks[i].actions by {
            if i < old_l.clocks@.len() {
                assert(l.clocks@[i] == old_l.clocks@[i]);
            }
        }
    }
    Ok(())
}

proof fn lemma_lower_bindings_err(acc: Lowered, bs: Seq<EventBinding>, p: EventProgram, tracks: Seq<(Seq<char>, TrackValue)>, k: nat, n: nat)
    requires
        k <= n,
        lower_bindings(acc, bs, p, tracks, k) is Err,
    ensures
        lower_bindings(acc, bs, p, tracks, n) == lower_bindings(acc, bs, p, tracks, k),
    decreases n - k,
{
    if k < n {
        lemma_lower_bindings_err(acc, bs, p, tracks, k, (n - 1) as nat);
    }
}

proof fn lemma_lower_clocks_err(acc: Lowered, cs: Seq<ClockBinding>, p: EventProgram, k: nat, n: nat)
    requires
        k <= n,
        lower_clocks(acc, cs, p, k) is Err,
    ensures
        lower_clocks(acc, cs, p, n) == lower_clocks(acc, cs, p, k),
    decreases n - k,
{
    if k < n {
        lemma_lower_clocks_err(acc, cs, p, k, (n - 1) as nat);
    }
}

proof fn lemma_lower_behaviors_err(acc: Lowered, p: EventProgram, tracks: Seq<(Seq<char>, TrackValue)>, k: nat, n: nat)
    requires
        k <= n,
        lower_behaviors(acc, p, tracks, k) is Err,
    ensures
        lower_behaviors(acc, p, tracks, n) == lower_behaviors(acc, p, tracks, k),
    decreases n - k,
{
    if k < n {
        lemma_lower_behaviors_err(acc, p, tracks, k, (n - 1) as nat);
    }
}

fn lower_all_bindings(
    l: &mut Lowering,
    bs: &Vec<EventBinding>,
    p: &EventProgram,
    tracks: &Vec<(String, TrackValue)>,
    Ghost(acc): Ghost<Lowered>,
) -> (r: Result<(), LoweringError>)
    requires
        carries(*old(l), acc),
    ensures
        match lower_bindings(acc, bs@, *p, track_views(tracks@), bs@.len()) {
            Ok(d) => r is Ok && carries(*final(l), d),
            Err(f) => r matches Err(e) && e@ == f,
        },
{
    let ghost tv = track_views(tracks@);
    let mut i: usize = 0;
    while i < bs.len()
        invariant
            i <= bs.len(),
            tv == track_views(tracks@),
            lower_bindings(acc, bs@, *p, tv, i as nat) matches Ok(d) && carries(*l, d),
        decreases bs.len() - i,
    {
        let ghost d = lower_bindings(acc, bs@, *p, tv, i as nat)->Ok_0;
        match lower_binding(l, &bs[i], p, tracks, Ghost(d)) {
            Ok(()) => {},
            Err(e) => {
                proof {
                    lemma_lower_bindings_err(acc, bs@, *p, tv, (i + 1) as nat, bs@.len());
                }
                return Err(e);
            },
        }
        i = i + 1;
    }
    Ok(())
}

fn lower_all_clocks(l: &mut Lowering, cs: &Vec<ClockBinding>, p: &EventProgram, Ghost(acc): Ghost<Lowered>) -> (r: Result<(), LoweringError>)
    requires
        carries(*old(l), acc),
    ensures
        match lower_clocks(acc, cs@, *p, cs@.len()) {
            Ok(d) => r is Ok && carries(*final(l), d),
            Err(f) => r matches Err(e) && e@ == f,
        },
{
    let mut i: usize = 0;
    while i < cs.len()
        invariant
            i <= cs.len(),
            lower_clocks(acc, cs@, *p, i as nat) matches Ok(d) && carries(*l, d),
        decreases cs.len() - i,
    {
        let ghost d = lower_clocks(acc, cs@, *p, i as nat)->Ok_0;
        match lower_clock(l, &cs[i], p, Ghost(d)) {
            Ok(()) => {},
            Err(e) => {
                proof {
                    lemma_lower_clocks_err(acc, cs@, *p, (i + 1) as nat, cs@.len());
                }
                return Err(e);
            },
        }
        i = i + 1;
    }
    Ok(())
}

fn lower_behavior(
    l: &mut Lowering,
    behavior: &BehaviorEvents,
    p: &EventProgram,
    tracks: &Vec<(String, TrackValue)>,
    Ghost(acc): Ghost<Lowered>,
) -> (r: Result<(), LoweringError>)
    requires
        carries(*old(l), acc),
    ensures
        match behavior_step(acc, *behavior, *p, track_views(tracks@)) {
            Ok(d) => r is Ok && carries(*final(l), d),
            Err(f) => r matches Err(e) && e@ == f,
        },
{
    if !behavior.resource_present {
        return Ok(());
    }
    let ghost tv = track_views(tracks@);
    match lower_all_bindings(l, &behavior.callbacks, p, tracks, Ghost(acc)) {
        Ok(()) => {},
        Err(e) => {
            return Err(e);
        },
    }
    let ghost d2 = lower_bindings(acc, behavior.callbacks@, *p, tv, behavior.callbacks@.len())->Ok_0;
    lower_all_clocks(l, &behavior.clocks, p, Ghost(d2))
}

/// Lowers a program's callback bindings into table declarations.
pub fn lower_event_bindings(p: &EventProgram, tracks: &Vec<(String, TrackValue)>) -> (r: Result<Lowering, LoweringError>)
    ensures
        match lower_program(*p, track_views(tracks@)) {
            Ok(d) => r matches Ok(l) && carries(l, d),
            Err(f) => r matches Err(e) && e@ == f,
        },
{
    let ghost tv = track_views(tracks@);
    let mut l = Lowering { markers: Vec::new(), countdowns: Vec::new(), clocks: Vec::new(), frames: Vec::new(), token: 0 };
    assert(carries(l, empty_lowered()));
    match lower_all_bindings(&mut l, &p.callbacks, p, tracks, Ghost(empty_lowered())) {
        Ok(()) => {},
        Err(e) => {
            return Err(e);
        },
    }
    let ghost start = lower_bindings(empty_lowered(), p.callbacks@, *p, tv, p.callbacks@.len())->Ok_0;
    let mut k: usize = 0;
    while k < p.behaviors.len()
        invariant
            k <= p.behaviors.len(),
            tv == track_views(tracks@),
            lower_program(*p, tv) == lower_behaviors(start, *p, tv, p.behaviors@.len()),
            lower_behaviors(start, *p, tv, k as nat) matches Ok(d) && carries(l, d),
        decreases p.behaviors.len() - k,
    {
        let ghost d = lower_behaviors(start, *p, tv, k as nat)->Ok_0;
        match lower_behavior(&mut l, &p.behaviors[k], p, tracks, Ghost(d)) {
            Ok(()) => {},
            Err(e) => {
                proof {
                    lemma_lower_behaviors_err(start, *p, tv, (k + 1) as nat, p.behaviors@.len());
                }
                return Err(e);
            },
        }
        k = k + 1;
    }
    Ok(l)
}

/// The declarations that exec lists carry, compiled.
pub open spec fn compiles_to(d: Lowered, r: Result<ActionEventTable, LoweringError>) -> bool {
    exists|ms: Seq<MarkerSpec>, cs: Seq<CountdownSpec>, ks: Seq<ClockSpec>, fs: Seq<FrameSpec>| {
        &&& markers_carry(ms, d.markers)
        &&& countdowns_carry(cs, d.countdowns)
        &&& clocks_carry(ks, d.clocks)
        &&& frames_carry(fs, d.frames)
        &&& match spec_compile(ms, cs, ks, fs) {
            Ok(tv) => r matches Ok(t) && t@ == tv,
            Err(f) => r matches Err(LoweringError::Table(e)) && e@ == f,
        }
    }
}

/// Builds the action event table of a program's bindings (an empty table
/// when there is no program).
pub fn compile_action_events(p: Option<&EventProgram>, tracks: &Vec<(String, TrackValue)>) -> (r: Result<ActionEventTable, LoweringError>)
    ensures
        p is None ==> compiles_to(empty_lowered(), r),
        p matches Some(prog) ==> match lower_program(*prog, track_views(tracks@)) {
            Ok(d) => compiles_to(d, r),
            Err(f) => r matches Err(e) && e@ == f,
        },
{
    let Some(prog) = p else {
        let ms: Vec<MarkerSpec> = Vec::new();
        let cs: Vec<CountdownSpec> = Vec::new();
        let ks: Vec<ClockSpec> = Vec::new();
        let r = match ActionEventTable::compile(ms, cs, ks) {
            Ok(t) => Ok(t),
            Err(e) => Err(LoweringError::Table(e)),
        };
        assert(markers_carry(ms@, empty_lowered().markers));
        assert(countdowns_carry(cs@, empty_lowered().countdowns));
        assert(clocks_carry(ks@, empty_lowered().clocks));
        assert(frames_carry(Seq::<FrameSpec>::empty(), empty_lowered().frames));
        return r;
    };
    let l = lower_event_bindings(prog, tracks)?;
    let ghost ms = l.markers@;
    let ghost cs = l.countdowns@;
    let ghost ks = l.clocks@;
    let ghost fs = l.frames@;
    let r = match ActionEventTable::compile_with_frames(l.markers, l.countdowns, l.clocks, l.frames) {
        Ok(t) => Ok(t),
        Err(e) => Err(LoweringError::Table(e)),
    };
    assert(markers_carry(ms, lower_program(*prog, track_views(tracks@))->Ok_0.markers));
    r
}

} // verus!
