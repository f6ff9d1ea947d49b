//! Immutable callback binding selectors.
//!
//! Callback handles are linked while a definition is loaded.  This module
//! answers the other half of the question: whether a linked binding applies
//! to one delivered event.  It reads the small event records emitted by the
//! native event producers instead of reconstructing event state or parsing
//! callback names during dispatch.

use vstd::prelude::*;
use crate::action::{parse_action, spec_parse_action, Action, CustomActionId};
use crate::action_events::{ActionEventTable, TableView};
use crate::definition::{EventBinding, Hook};
use crate::event_lowering::names_of;
use crate::text::{
    ends_with, has_prefix, has_suffix, parse_unsigned, parse_unsigned_text, slice_chars, starts_with, str_eq,
    strip_prefix_or_self, strip_prefix_text,
};

verus! {

/// The spelling a native action snapshot takes for a custom action:
/// `Custom(CustomActionId(<id>))`.
pub open spec fn custom_debug_open() -> Seq<char> {
    "Custom(CustomActionId("@
}

pub open spec fn custom_debug_close() -> Seq<char> {
    "))"@
}

/// The custom action id a snapshot spelling carries, if it is one.
pub open spec fn spec_custom_debug_id(name: Seq<char>) -> Option<u64> {
    let open = custom_debug_open();
    let close = custom_debug_close();
    if has_prefix(name, open) {
        let rest = name.subrange(open.len() as int, name.len() as int);
        if has_suffix(rest, close) {
            match parse_unsigned(rest.subrange(0, rest.len() - close.len()), u64::MAX as nat) {
                Some(v) => Some(v as u64),
                None => None,
            }
        } else {
            None
        }
    } else {
        None
    }
}

/// What an action name in a binding or an event denotes: the name without
/// any `Action.` prefix read as a custom snapshot spelling, else as an
/// authoring action name.
pub open spec fn spec_parse_action_name(name: Seq<char>) -> Option<Action> {
    let n = strip_prefix_or_self(name, "Action."@);
    match spec_custom_debug_id(n) {
        Some(id) => Some(Action::Custom(CustomActionId(id))),
        None => spec_parse_action(n),
    }
}

fn custom_debug_id(name: &str) -> (r: Option<u64>)
    ensures
        r == spec_custom_debug_id(name@),
{
    let open = "Custom(CustomActionId(";
    let close = "))";
    proof {
        reveal_strlit("Custom(CustomActionId(");
        reveal_strlit("))");
    }
    if !starts_with(name, open) {
        return None;
    }
    let rest = strip_prefix_text(name, open);
    if !ends_with(rest.as_str(), close) {
        return None;
    }
    let n = rest.unicode_len();
    let digits = slice_chars(rest.as_str(), 0, n - 2);
    parse_unsigned_text(digits.as_str(), u64::MAX)
}

/// Reads an action name as `spec_parse_action_name` says.
pub fn parse_action_name(name: &str) -> (r: Option<Action>)
    ensures
        r == spec_parse_action_name(name@),
{
    proof {
        reveal_strlit("Action.");
    }
    let n = strip_prefix_text(name, "Action.");
    match custom_debug_id(n.as_str()) {
        Some(id) => Some(Action::Custom(CustomActionId(id))),
        None => parse_action(n.as_str()),
    }
}

/// The statically resolved filters on one callback binding.
#[derive(Clone, Debug, Default, PartialEq, Eq)]
pub struct CallbackSelector {
    pub action: Option<Action>,
    pub actions: Vec<Action>,
    pub marker: Option<String>,
    pub countdown: Option<String>,
    pub buttons: Option<u16>,
    pub command_index: Option<u8>,
    pub deadline: Option<u32>,
    pub event_id: Option<u8>,
    pub gate: Option<String>,
}

/// Why a binding has no selector.
#[derive(Clone, Debug, PartialEq, Eq)]
pub enum SelectorError {
    /// An animation-event callback without an event id in `0..8`.
    EventIdRequired,
    /// An event id on a callback of another hook.
    EventIdNotAllowed,
    /// An action name that denotes no action.
    UnknownAction(String),
}

pub enum SelectorFault {
    EventIdRequired,
    EventIdNotAllowed,
    UnknownAction(Seq<char>),
}

impl View for SelectorError {
    type V = SelectorFault;

    open spec fn view(&self) -> SelectorFault {
        match self {
            SelectorError::EventIdRequired => SelectorFault::EventIdRequired,
            SelectorError::EventIdNotAllowed => SelectorFault::EventIdNotAllowed,
            SelectorError::UnknownAction(s) => SelectorFault::UnknownAction(s@),
        }
    }
}

pub open spec fn opt_text(o: Option<String>) -> Option<Seq<char>> {
    match o {
        Some(s) => Some(s@),
        None => None,
    }
}

/// The actions `names` denote, each once, in order of first mention; or
/// the first name that denotes none.
pub open spec fn parse_names(names: Seq<Seq<char>>) -> Result<Seq<Action>, Seq<char>>
    decreases names.len(),
{
    if names.len() == 0 {
        Ok(Seq::empty())
    } else {
        match parse_names(names.drop_last()) {
            Err(e) => Err(e),
            Ok(p) => match spec_parse_action_name(names.last()) {
                Some(a) => Ok(if p.contains(a) { p } else { p.push(a) }),
                None => Err(names.last()),
            },
        }
    }
}

/// The single action a binding names, read.
pub open spec fn binding_action(b: EventBinding) -> Option<Action> {
    match b.action {
        Some(n) => spec_parse_action_name(n@),
        None => None,
    }
}

/// Why `b` has no selector, if it has none.
pub open spec fn selector_fault(b: EventBinding) -> Option<SelectorFault> {
    if b.hook == Hook::AnimationEvent && (b.event_id is None || b.event_id->0 >= 8) {
        Some(SelectorFault::EventIdRequired)
    } else if b.hook != Hook::AnimationEvent && b.event_id is Some {
        Some(SelectorFault::EventIdNotAllowed)
    } else if b.action is Some && binding_action(b) is None {
        Some(SelectorFault::UnknownAction(b.action->0@))
    } else {
        match parse_names(names_of(b.actions@)) {
            Err(n) => Some(SelectorFault::UnknownAction(n)),
            Ok(_) => None,
        }
    }
}

/// `s` is the selector of binding `b`.
pub open spec fn selector_of(b: EventBinding, s: CallbackSelector) -> bool {
    &&& s.action == binding_action(b)
    &&& parse_names(names_of(b.actions@)) == Ok::<Seq<Action>, Seq<char>>(s.actions@)
    &&& opt_text(s.marker) == opt_text(b.marker)
    &&& opt_text(s.countdown) == opt_text(b.countdown)
    &&& s.buttons == b.buttons
    &&& s.command_index == b.command_index
    &&& s.deadline == b.deadline
    &&& s.event_id == b.event_id
    &&& opt_text(s.gate) == opt_text(b.gate)
}

fn copy_text(o: &Option<String>) -> (r: Option<String>)
    ensures
        opt_text(r) == opt_text(*o),
{
    match o {
        Some(s) => Some(s.clone()),
        None => None,
    }
}

fn contains_action(v: &Vec<Action>, a: Action) -> (r: bool)
    ensures
        r == v@.contains(a),
{
    let mut i: usize = 0;
    while i < v.len()
        invariant
            i <= v.len(),
            forall|j: int| 0 <= j < i ==> v@[j] != a,
        decreases v.len() - i,
    {
        if v[i] == a {
            assert(v@[i as int] == a);
            return true;
        }
        i = i + 1;
    }
    false
}

impl CallbackSelector {
    /// Resolves a binding's authoring action names once, at definition
    /// load; an invalid declaration is refused rather than broadened into a
    /// wildcard.
    pub fn from_binding(binding: &EventBinding) -> (r: Result<Self, SelectorError>)
        ensures
            match selector_fault(*binding) {
                Some(f) => r matches Err(e) && e@ == f,
                None => r matches Ok(s) && selector_of(*binding, s),
            },
    {
        if binding.hook == Hook::AnimationEvent {
            match binding.event_id {
                None => {
                    return Err(SelectorError::EventIdRequired);
                },
                Some(id) => {
                    if id >= 8 {
                        return Err(SelectorError::EventIdRequired);
                    }
                },
            }
        } else if binding.event_id.is_some() {
            return Err(SelectorError::EventIdNotAllowed);
        }
        let action = match &binding.action {
            Some(name) => {
                let parsed = parse_action_name(name.as_str());
                if parsed.is_none() {
                    return Err(SelectorError::UnknownAction(name.clone()));
                }
                parsed
            },
            None => None,
        };
        let ghost names = names_of(binding.actions@);
        let mut actions: Vec<Action> = Vec::new();
        let mut i: usize = 0;
        assert(names.subrange(0, 0) =~= Seq::<Seq<char>>::empty());
        while i < binding.actions.len()
            invariant
                i <= binding.actions.len(),
                names == names_of(binding.actions@),
                parse_names(names.subrange(0, i as int)) == Ok::<Seq<Action>, Seq<char>>(actions@),
                !(binding.hook == Hook::AnimationEvent && (binding.event_id is None || binding.event_id->0 >= 8)),
                !(binding.hook != Hook::AnimationEvent && binding.event_id is Some),
                action == binding_action(*binding),
                binding.action is Some ==> action is Some,
            decreases binding.actions.len() - i,
        {
            let name = &binding.actions[i];
            assert(names.subrange(0, i + 1).drop_last() =~= names.subrange(0, i as int));
            assert(names.subrange(0, i + 1).last() == name@);
            match parse_action_name(name.as_str()) {
                None => {
                    proof {
                        lemma_parse_names_err(names, (i + 1) as int);
                    }
                    assert(parse_names(names) == Err::<Seq<Action>, Seq<char>>(name@));
                    let unknown = name.clone();
                    assert(unknown@ == name@);
                    return Err(SelectorError::UnknownAction(unknown));
                },
                Some(parsed) => {
                    if !contains_action(&actions, parsed) {
                        actions.push(parsed);
                    }
                },
            }
            i = i + 1;
        }
        assert(names.subrange(0, names.len() as int) =~= names);
        Ok(CallbackSelector {
            action,
            actions,
            marker: copy_text(&binding.marker),
            countdown: copy_text(&binding.countdown),
            buttons: binding.buttons,
            command_index: binding.command_index,
            deadline: binding.deadline,
            event_id: binding.event_id,
            gate: copy_text(&binding.gate),
        })
    }
}

/// Once a prefix of names fails, every longer prefix fails with the same
/// name.
proof fn lemma_parse_names_err(names: Seq<Seq<char>>, k: int)
    requires
        0 < k <= names.len(),
        parse_names(names.subrange(0, k)) is Err,
    ensures
        parse_names(names) == parse_names(names.subrange(0, k)),
    decreases names.len() - k,
{
    if k < names.len() {
        assert(names.subrange(0, k + 1).drop_last() =~= names.subrange(0, k));
        assert(parse_names(names.subrange(0, k + 1)) == parse_names(names.subrange(0, k)));
        lemma_parse_names_err(names, k + 1);
    } else {
        assert(names.subrange(0, k) =~= names);
    }
}

/// An action field of a delivered event: a spelled name, or an object
/// carrying a custom action id.
#[derive(Clone, Debug, PartialEq, Eq)]
pub enum EventAction {
    Name(String),
    Custom(u64),
}

/// The fields of a delivered event record that selectors read.  A field
/// that is absent, or of another shape, is `None`.
#[derive(Clone, Debug, Default, PartialEq, Eq)]
pub struct EventRecord {
    pub action: Option<EventAction>,
    pub to: Option<EventAction>,
    pub from: Option<EventAction>,
    pub marker: Option<String>,
    pub token: Option<u64>,
    pub countdown: Option<String>,
    pub gate: Option<String>,
    pub pressed: Option<u64>,
    pub released: Option<u64>,
    pub command_index: Option<u64>,
    pub event_id: Option<u64>,
    pub deadline: Option<u64>,
    pub frame: Option<u64>,
}

/// The action an event field denotes.
pub open spec fn event_action(v: Option<EventAction>) -> Option<Action> {
    match v {
        Some(EventAction::Name(n)) => spec_parse_action_name(n@),
        Some(EventAction::Custom(id)) => Some(Action::Custom(CustomActionId(id))),
        None => None,
    }
}

/// Whether `s` names action `a`.
pub open spec fn selects(s: CallbackSelector, a: Action) -> bool {
    s.action == Some(a) || s.actions@.contains(a)
}

pub open spec fn candidate_selects(s: CallbackSelector, c: Option<Action>) -> bool {
    match c {
        Some(a) => selects(s, a),
        None => false,
    }
}

/// The action fields a hook's events carry, in the order they are read.
pub open spec fn action_candidates(hook: Hook, e: EventRecord) -> (Option<Action>, Option<Action>) {
    match hook {
        Hook::ActionEntered => (event_action(e.to), event_action(e.action)),
        Hook::ActionExited => (event_action(e.from), event_action(e.action)),
        _ => (event_action(e.action), event_action(e.to)),
    }
}

/// A selector without action filters takes every event.  Otherwise an
/// action the event carries must be selected; the fighter's current action
/// stands in only when the event carries none.
pub open spec fn spec_action_matches(hook: Hook, s: CallbackSelector, e: EventRecord, current: Option<Action>) -> bool {
    if s.action is None && s.actions@.len() == 0 {
        true
    } else {
        let (c0, c1) = action_candidates(hook, e);
        ||| candidate_selects(s, c0)
        ||| candidate_selects(s, c1)
        ||| (c0 is None && c1 is None && candidate_selects(s, current))
    }
}

pub open spec fn marker_token(t: Option<TableView>, marker: Seq<char>, token: Option<u64>) -> bool {
    &&& t is Some
    &&& token is Some
    &&& exists|i: int| 0 <= i < t->0.markers.len() && (#[trigger] t->0.markers[i]).name == marker && t->0.markers[i].token == token->0
}

pub open spec fn countdown_token(t: Option<TableView>, field: Seq<char>, token: Option<u64>) -> bool {
    &&& t is Some
    &&& token is Some
    &&& exists|i: int| 0 <= i < t->0.countdowns.len() && (#[trigger] t->0.countdowns[i]).field == field && t->0.countdowns[i].token == token->0
}

pub open spec fn frame_token(t: Option<TableView>, frame: u32, token: Option<u64>) -> bool {
    &&& t is Some
    &&& token is Some
    &&& exists|i: int| 0 <= i < t->0.frames.len() && (#[trigger] t->0.frames[i]).frame == frame && t->0.frames[i].token == token->0
}

/// Whether selector `s` takes event `e` of `hook`: every filter it
/// declares holds.  A marker, countdown or deadline filter also accepts an
/// event whose token the table gives to that marker, field or frame.
pub open spec fn spec_matches(hook: Hook, s: CallbackSelector, e: EventRecord, current: Option<Action>, t: Option<TableView>) -> bool {
    &&& spec_action_matches(hook, s, e, current)
    &&& (s.marker matches Some(m) ==> (opt_text(e.marker) == Some(m@) || marker_token(t, m@, e.token)))
    &&& (s.countdown matches Some(f) ==> (opt_text(e.countdown) == Some(f@) || countdown_token(t, f@, e.token)))
    &&& (s.gate matches Some(g) ==> opt_text(e.gate) == Some(g@))
    &&& (s.buttons matches Some(mask) ==> ({
        let field = if hook == Hook::InputReleased { e.released } else { e.pressed };
        field matches Some(b) && b & (mask as u64) != 0
    }))
    &&& (s.command_index matches Some(i) ==> e.command_index == Some(i as u64))
    &&& (s.event_id matches Some(i) ==> e.event_id == Some(i as u64))
    &&& (s.deadline matches Some(d) ==> (e.deadline == Some(d as u64) || e.frame == Some(d as u64) || frame_token(t, d, e.token)))
}

pub open spec fn table_view(t: Option<&ActionEventTable>) -> Option<TableView> {
    match t {
        Some(x) => Some(x@),
        None => None,
    }
}

fn event_action_of(v: &Option<EventAction>) -> (r: Option<Action>)
    ensures
        r == event_action(*v),
{
    match v {
        Some(EventAction::Name(n)) => parse_action_name(n.as_str()),
        Some(EventAction::Custom(id)) => Some(Action::Custom(CustomActionId(*id))),
        None => None,
    }
}

fn selects_exec(s: &CallbackSelector, a: Action) -> (r: bool)
    ensures
        r == selects(*s, a),
{
    s.action == Some(a) || contains_action(&s.actions, a)
}

fn candidate_selects_exec(s: &CallbackSelector, c: Option<Action>) -> (r: bool)
    ensures
        r == candidate_selects(*s, c),
{
    match c {
        Some(a) => selects_exec(s, a),
        None => false,
    }
}

fn text_is(o: &Option<String>, s: &str) -> (r: bool)
    ensures
        r == (opt_text(*o) == Some(s@)),
{
    match o {
        Some(x) => str_eq(x.as_str(), s),
        None => false,
    }
}

fn action_matches(hook: Hook, s: &CallbackSelector, e: &EventRecord, current: Option<Action>) -> (r: bool)
    ensures
        r == spec_action_matches(hook, *s, *e, current),
{
    if s.action.is_none() && s.actions.len() == 0 {
        return true;
    }
    let (c0, c1) = match hook {
        Hook::ActionEntered => (event_action_of(&e.to), event_action_of(&e.action)),
        Hook::ActionExited => (event_action_of(&e.from), event_action_of(&e.action)),
        _ => (event_action_of(&e.action), event_action_of(&e.to)),
    };
    candidate_selects_exec(s, c0) || candidate_selects_exec(s, c1)
        || (c0.is_none() && c1.is_none() && candidate_selects_exec(s, current))
}

fn marker_token_exec(t: Option<&ActionEventTable>, name: &str, token: Option<u64>) -> (r: bool)
    ensures
        r == marker_token(table_view(t), name@, token),
{
    let (Some(table), Some(k)) = (t, token) else {
        return false;
    };
    let ms = table.markers();
    let mut i: usize = 0;
    while i < ms.len()
        invariant
            i <= ms.len(),
            table_view(t) == Some(table@),
            token == Some(k),
            ms@.map_values(|m: crate::action_events::ActionMarker| m@) == table@.markers,
            forall|j: int| 0 <= j < i ==> !((#[trigger] table@.markers[j]).name == name@ && table@.markers[j].token == k),
        decreases ms.len() - i,
    {
        assert(table@.markers[i as int] == ms@[i as int]@);
        if str_eq(ms[i].name.as_str(), name) && ms[i].token == k {
            let ghost tv = Some(table@);
            assert(tv->0 == table@);
            assert(tv->0.markers[i as int].name == name@ && tv->0.markers[i as int].token == k);
            assert(marker_token(tv, name@, Some(k)));
            return true;
        }
        i = i + 1;
    }
    false
}

fn countdown_token_exec(t: Option<&ActionEventTable>, field: &str, token: Option<u64>) -> (r: bool)
    ensures
        r == countdown_token(table_view(t), field@, token),
{
    let (Some(table), Some(k)) = (t, token) else {
        return false;
    };
    let cs = table.countdowns();
    let mut i: usize = 0;
    while i < cs.len()
        invariant
            i <= cs.len(),
            table_view(t) == Some(table@),
            token == Some(k),
            cs@.map_values(|c: crate::action_events::CountdownBinding| c@) == table@.countdowns,
            forall|j: int| 0 <= j < i ==> !((#[trigger] table@.countdowns[j]).field == field@ && table@.countdowns[j].token == k),
        decreases cs.len() - i,
    {
        assert(table@.countdowns[i as int] == cs@[i as int]@);
        if str_eq(cs[i].field.as_str(), field) && cs[i].token == k {
            return true;
        }
        i = i + 1;
    }
    false
}

fn frame_token_exec(t: Option<&ActionEventTable>, frame: u32, token: Option<u64>) -> (r: bool)
    ensures
        r == frame_token(table_view(t), frame, token),
{
    let (Some(table), Some(k)) = (t, token) else {
        return false;
    };
    let fs = table.frames();
    let mut i: usize = 0;
    while i < fs.len()
        invariant
            i <= fs.len(),
            table_view(t) == Some(table@),
            token == Some(k),
            fs@.map_values(|f: crate::action_events::FrameBinding| f@) == table@.frames,
            forall|j: int| 0 <= j < i ==> !((#[trigger] table@.frames[j]).frame == frame && table@.frames[j].token == k),
        decreases fs.len() - i,
    {
        assert(table@.frames[i as int] == fs@[i as int]@);
        if fs[i].frame == frame && fs[i].token == k {
            return true;
        }
        i = i + 1;
    }
    false
}

/// Matches one pre-resolved selector against a delivered event.
/// `current_action` is the fighter's native action, read only for events
/// that carry no action (an animation end, for one).
pub fn matches_event(
    hook: Hook,
    selector: &CallbackSelector,
    event: &EventRecord,
    current_action: Option<Action>,
    table: Option<&ActionEventTable>,
) -> (r: bool)
    ensures
        r == spec_matches(hook, *selector, *event, current_action, table_view(table)),
{
    if !action_matches(hook, selector, event, current_action) {
        return false;
    }
    if let Some(marker) = &selector.marker {
        if !text_is(&event.marker, marker.as_str()) && !marker_token_exec(table, marker.as_str(), event.token) {
            return false;
        }
    }
    if let Some(field) = &selector.countdown {
        if !countdown_token_exec(table, field.as_str(), event.token) && !text_is(&event.countdown, field.as_str()) {
            return false;
        }
    }
    if let Some(gate) = &selector.gate {
        if !text_is(&event.gate, gate.as_str()) {
            return false;
        }
    }
    if let Some(mask) = selector.buttons {
        let field = if hook == Hook::InputReleased { event.released } else { event.pressed };
        match field {
            None => {
                return false;
            },
            Some(buttons) => {
                if buttons & (mask as u64) == 0 {
                    return false;
                }
            },
        }
    }
    if let Some(index) = selector.command_index {
        if event.command_index != Some(index as u64) {
            return false;
        }
    }
    if let Some(id) = selector.event_id {
        if event.event_id != Some(id as u64) {
            return false;
        }
    }
    if let Some(deadline) = selector.deadline {
        let direct = event.deadline == Some(deadline as u64) || event.frame == Some(deadline as u64);
        if !direct && !frame_token_exec(table, deadline, event.token) {
            return false;
        }
    }
    true
}


/// The fighter's current action stands in for an action filter only when
/// the event carries no action: an event that carries one is judged by it
/// alone, so an explicit custom action is never rebound to the current
/// action.
pub proof fn law_snapshot_only_without_event_action(hook: Hook, s: CallbackSelector, e: EventRecord, current: Option<Action>)
    requires
        s.action is Some || s.actions@.len() > 0,
    ensures
        ({
            let (c0, c1) = action_candidates(hook, e);
            &&& (c0 is None && c1 is None) ==> spec_action_matches(hook, s, e, current) == candidate_selects(s, current)
            &&& (c0 is Some || c1 is Some) ==> spec_action_matches(hook, s, e, current)
                == (candidate_selects(s, c0) || candidate_selects(s, c1))
        }),
{
}

} // verus!
