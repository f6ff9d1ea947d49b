//! A fighter's action and behavior descriptors, and the lookups the
//! simulation makes on them.
//!
//! Descriptors are keyed by authoring names, in key order.  An entry
//! denotes the native action its `action` reference names, else the one its
//! key names.  Several entries may denote one action; the entry keyed by
//! the action's own spelling wins, else the first in key order.  Top-level
//! descriptors take precedence over behavior descriptors, and behaviors are
//! consulted in declaration order.

use vstd::prelude::*;
use crate::action::{action_name, parse_action, spec_parse_action, action_text, Action};
use crate::action_events::{ActionEventTable, TableView};
use crate::callback_routing::{matches_event, opt_text, spec_matches, CallbackSelector, EventRecord};
use crate::definition::{CallbackHandle, ClockBinding, CollisionMode, EdgeMode, EventBinding, Hook, OwnedCallback};
use crate::motion_links::{path_is_valid, valid_path};
use crate::host_state::StateSchema;
use crate::text::{str_eq, strip_prefix_or_self, strip_prefix_text};

verus! {

/// Static metadata of one action.
#[derive(Clone, Debug, Default, PartialEq)]
pub struct ActionDefinition {
    /// Authoring class name, for diagnostics only.
    pub move_name: Option<String>,
    pub resource: Option<String>,
    /// Canonical engine action reference, such as `Action.SpecialNStart`.
    pub action: Option<String>,
    pub id: Option<u16>,
    pub slippi_state: Option<u32>,
    pub animation: Option<u32>,
    pub collision_mode: CollisionMode,
    pub ledge_catchable: bool,
    pub wants_redirect: bool,
    pub hold_frame_var: Option<String>,
    /// Declared state field used as an action-specific delay gate.
    pub profile_delay_field: Option<String>,
    /// Whether finite animation samples cycle while the action is active.
    pub animation_loop: bool,
    pub attack: Option<String>,
    pub command_trace: Option<String>,
    /// Behavior the descriptor was flattened from, when it was.
    pub source_behavior: Option<String>,
}

/// One composed move: its callbacks, clocks and action descriptors.
#[derive(Clone, Debug, Default, PartialEq)]
pub struct BehaviorDefinition {
    pub id: Option<String>,
    /// Native action entered when an input selector enters this move.
    pub entry_action: Option<String>,
    pub run: Option<String>,
    pub run_module: Option<String>,
    /// Root resource that enables this behavior.
    pub resource: Option<String>,
    /// Action descriptors in key order.
    pub actions: Vec<(String, ActionDefinition)>,
    pub callbacks: Vec<EventBinding>,
    pub clocks: Vec<ClockBinding>,
    pub validate: Option<String>,
}

/// The descriptors of one fighter.
#[derive(Debug, Default, PartialEq)]
pub struct FighterDefinition {
    pub name: String,
    pub external_ids: Vec<u8>,
    pub state: StateSchema,
    pub action_state: StateSchema,
    pub behaviors: Vec<BehaviorDefinition>,
    /// Top-level action descriptors in key order.
    pub actions: Vec<(String, ActionDefinition)>,
    pub callbacks: Vec<EventBinding>,
    pub projectile_contact_resource: Option<String>,
}

/// The action a reference names, with or without `Action.`.
pub open spec fn action_ref(name: Seq<char>) -> Option<Action> {
    spec_parse_action(strip_prefix_or_self(name, "Action."@))
}

/// The action descriptor `d` under key `key` denotes: its reference, else
/// its key.
pub open spec fn entry_action(key: Seq<char>, d: ActionDefinition) -> Option<Action> {
    match d.action {
        Some(n) => match action_ref(n@) {
            Some(a) => Some(a),
            None => action_ref(key),
        },
        None => action_ref(key),
    }
}

/// Which of the first `n` entries defines `a`: the last one keyed by the
/// action's own spelling, else the first that denotes it.
pub open spec fn defining_entry(entries: Seq<(String, ActionDefinition)>, a: Action, n: nat) -> Option<int>
    decreases n,
{
    if n == 0 {
        None
    } else {
        let prev = defining_entry(entries, a, (n - 1) as nat);
        let k = n - 1;
        if entry_action(entries[k].0@, entries[k].1) == Some(a) && (prev is None || entries[k].0@ == action_text(a)) {
            Some(k)
        } else {
            prev
        }
    }
}

pub open spec fn defining(entries: Seq<(String, ActionDefinition)>, a: Action) -> Option<int> {
    defining_entry(entries, a, entries.len())
}

/// The first behavior from `k` on that defines `a`, with the entry.
pub open spec fn behavior_defining(bs: Seq<BehaviorDefinition>, a: Action, k: int) -> Option<(int, int)>
    decreases bs.len() - k,
{
    if k < 0 || k >= bs.len() {
        None
    } else {
        match defining(bs[k].actions@, a) {
            Some(i) => Some((k, i)),
            None => behavior_defining(bs, a, k + 1),
        }
    }
}

/// Whether behavior `b` owns action `a`: its entry action, or one of its
/// descriptors, denotes it.
pub open spec fn owns(b: BehaviorDefinition, a: Action) -> bool {
    ||| (b.entry_action matches Some(n) && action_ref(n@) == Some(a))
    ||| exists|i: int| 0 <= i < b.actions@.len() && entry_action(b.actions@[i].0@, b.actions@[i].1) == Some(a)
}

fn action_ref_exec(name: &str) -> (r: Option<Action>)
    ensures
        r == action_ref(name@),
{
    proof {
        reveal_strlit("Action.");
    }
    let stripped = strip_prefix_text(name, "Action.");
    parse_action(stripped.as_str())
}

fn entry_action_exec(key: &str, d: &ActionDefinition) -> (r: Option<Action>)
    ensures
        r == entry_action(key@, *d),
{
    match &d.action {
        Some(n) => match action_ref_exec(n.as_str()) {
            Some(a) => Some(a),
            None => action_ref_exec(key),
        },
        None => action_ref_exec(key),
    }
}

proof fn lemma_defining_bound(entries: Seq<(String, ActionDefinition)>, a: Action, n: nat)
    ensures
        defining_entry(entries, a, n) matches Some(i) ==> 0 <= i < n,
    decreases n,
{
    if n > 0 {
        lemma_defining_bound(entries, a, (n - 1) as nat);
    }
}

/// The index of the entry defining `a`.
fn find_defining(entries: &Vec<(String, ActionDefinition)>, a: Action) -> (r: Option<usize>)
    ensures
        r matches Some(i) ==> defining(entries@, a) == Some(i as int) && i < entries@.len(),
        r is None ==> defining(entries@, a) is None,
{
    proof {
        lemma_defining_bound(entries@, a, entries@.len());
    }
    let canonical = action_name(a);
    let mut found: Option<usize> = None;
    let mut k: usize = 0;
    while k < entries.len()
        invariant
            k <= entries.len(),
            canonical@ == action_text(a),
            found matches Some(i) ==> defining_entry(entries@, a, k as nat) == Some(i as int) && i < k,
            found is None ==> defining_entry(entries@, a, k as nat) is None,
        decreases entries.len() - k,
    {
        if entry_action_exec(entries[k].0.as_str(), &entries[k].1) == Some(a) {
            if found.is_none() || str_eq(entries[k].0.as_str(), canonical.as_str()) {
                found = Some(k);
            }
        }
        k = k + 1;
    }
    found
}

impl BehaviorDefinition {
    /// The first callback bound to `hook`.
    pub fn callback(&self, hook: Hook) -> (r: Option<&str>)
        ensures
            match r {
                Some(name) => exists|i: int| 0 <= i < self.callbacks@.len() && self.callbacks@[i].hook == hook
                    && name@ == self.callbacks@[i].callback@
                    && forall|j: int| 0 <= j < i ==> (#[trigger] self.callbacks@[j]).hook != hook,
                None => forall|i: int| 0 <= i < self.callbacks@.len() ==> (#[trigger] self.callbacks@[i]).hook != hook,
            },
    {
        let mut i: usize = 0;
        while i < self.callbacks.len()
            invariant
                i <= self.callbacks.len(),
                forall|j: int| 0 <= j < i ==> (#[trigger] self.callbacks@[j]).hook != hook,
            decreases self.callbacks.len() - i,
        {
            if self.callbacks[i].hook == hook {
                return Some(self.callbacks[i].callback.as_str());
            }
            i = i + 1;
        }
        None
    }

    /// The callbacks bound to `hook`, in declaration order.
    pub fn callbacks_for_hook(&self, hook: Hook) -> (r: Vec<&EventBinding>)
        ensures
            r@.map_values(|b: &EventBinding| *b) == self.callbacks@.filter(|b: EventBinding| b.hook == hook),
    {
        bindings_for_hook(&self.callbacks, hook)
    }
}

fn bindings_for_hook(bindings: &Vec<EventBinding>, hook: Hook) -> (r: Vec<&EventBinding>)
    ensures
        r@.map_values(|b: &EventBinding| *b) == bindings@.filter(|b: EventBinding| b.hook == hook),
{
    let ghost f = |b: EventBinding| b.hook == hook;
    let mut out: Vec<&EventBinding> = Vec::new();
    let mut i: usize = 0;
    proof {
        reveal(Seq::filter);
        assert(bindings@.subrange(0, 0) =~= Seq::<EventBinding>::empty());
    }
    while i < bindings.len()
        invariant
            i <= bindings.len(),
            f == (|b: EventBinding| b.hook == hook),
            out@.map_values(|b: &EventBinding| *b) == bindings@.subrange(0, i as int).filter(f),
        decreases bindings.len() - i,
    {
        proof {
            reveal(Seq::filter);
            assert(bindings@.subrange(0, i + 1).drop_last() =~= bindings@.subrange(0, i as int));
        }
        if bindings[i].hook == hook {
            out.push(&bindings[i]);
        }
        i = i + 1;
    }
    assert(bindings@.subrange(0, bindings.len() as int) =~= bindings@);
    out
}

/// Where the descriptor of `a` lives: a top-level entry (`None`, entry) or
/// an entry of a behavior (`Some(behavior)`, entry).
pub open spec fn action_location(d: FighterDefinition, a: Action) -> Option<(Option<int>, int)> {
    match defining(d.actions@, a) {
        Some(i) => Some((None, i)),
        None => match behavior_defining(d.behaviors@, a, 0) {
            Some((b, i)) => Some((Some(b), i)),
            None => None,
        },
    }
}

/// The descriptor at a location.
pub open spec fn descriptor_at(d: FighterDefinition, loc: (Option<int>, int)) -> ActionDefinition {
    match loc.0 {
        None => d.actions@[loc.1].1,
        Some(b) => d.behaviors@[b].actions@[loc.1].1,
    }
}

/// The descriptor of `a`, if the fighter has one.
pub open spec fn spec_action(d: FighterDefinition, a: Action) -> Option<ActionDefinition> {
    match action_location(d, a) {
        Some(loc) => Some(descriptor_at(d, loc)),
        None => None,
    }
}

impl FighterDefinition {
    /// Whether behavior `index` owns action `a`; `false` for an index with
    /// no behavior.
    pub fn behavior_owns_action(&self, index: usize, a: Action) -> (r: bool)
        ensures
            r == (index < self.behaviors@.len() && owns(self.behaviors@[index as int], a)),
    {
        if index >= self.behaviors.len() {
            return false;
        }
        let b = &self.behaviors[index];
        assert(*b == self.behaviors@[index as int]);
        if let Some(n) = &b.entry_action {
            if action_ref_exec(n.as_str()) == Some(a) {
                return true;
            }
        }
        let mut i: usize = 0;
        while i < b.actions.len()
            invariant
                i <= b.actions.len(),
                index < self.behaviors@.len(),
                *b == self.behaviors@[index as int],
                !(b.entry_action matches Some(n) && action_ref(n@) == Some(a)),
                forall|j: int| 0 <= j < i ==> entry_action(#[trigger] b.actions@[j].0@, b.actions@[j].1) != Some(a),
            decreases b.actions.len() - i,
        {
            if entry_action_exec(b.actions[i].0.as_str(), &b.actions[i].1) == Some(a) {
                assert(entry_action(b.actions@[i as int].0@, b.actions@[i as int].1) == Some(a));
                return true;
            }
            i = i + 1;
        }
        false
    }

    /// The descriptor of action `a`.
    pub fn action(&self, a: Action) -> (r: Option<&ActionDefinition>)
        ensures
            match action_location(*self, a) {
                Some(loc) => r == Some(&descriptor_at(*self, loc)),
                None => r is None,
            },
    {
        if let Some(i) = find_defining(&self.actions, a) {
            assert(action_location(*self, a) == Some((None::<int>, i as int)));
            assert(descriptor_at(*self, (None::<int>, i as int)) == self.actions@[i as int].1);
            return Some(&self.actions[i].1);
        }
        let mut k: usize = 0;
        while k < self.behaviors.len()
            invariant
                k <= self.behaviors.len(),
                defining(self.actions@, a) is None,
                behavior_defining(self.behaviors@, a, 0) == behavior_defining(self.behaviors@, a, k as int),
            decreases self.behaviors.len() - k,
        {
            if let Some(i) = find_defining(&self.behaviors[k].actions, a) {
                assert(behavior_defining(self.behaviors@, a, k as int) == Some((k as int, i as int)));
                assert(action_location(*self, a) == Some((Some(k as int), i as int)));
                return Some(&self.behaviors[k].actions[i].1);
            }
            k = k + 1;
        }
        None
    }

    /// The descriptor of action `a` in behavior `owner`.
    pub fn action_for_owner(&self, owner: usize, a: Action) -> (r: Option<&ActionDefinition>)
        ensures
            owner < self.behaviors@.len() && defining(self.behaviors@[owner as int].actions@, a) is Some
                ==> r == Some(&self.behaviors@[owner as int].actions@[defining(self.behaviors@[owner as int].actions@, a)->0].1),
            !(owner < self.behaviors@.len() && defining(self.behaviors@[owner as int].actions@, a) is Some) ==> r is None,
    {
        if owner >= self.behaviors.len() {
            return None;
        }
        let b = &self.behaviors[owner];
        assert(*b == self.behaviors@[owner as int]);
        match find_defining(&b.actions, a) {
            Some(i) => Some(&b.actions[i].1),
            None => None,
        }
    }

    /// The first top-level callback bound to `hook`.
    pub fn callback(&self, hook: Hook) -> (r: Option<&str>)
        ensures
            match r {
                Some(name) => exists|i: int| 0 <= i < self.callbacks@.len() && self.callbacks@[i].hook == hook
                    && name@ == self.callbacks@[i].callback@
                    && forall|j: int| 0 <= j < i ==> (#[trigger] self.callbacks@[j]).hook != hook,
                None => forall|i: int| 0 <= i < self.callbacks@.len() ==> (#[trigger] self.callbacks@[i]).hook != hook,
            },
    {
        let mut i: usize = 0;
        while i < self.callbacks.len()
            invariant
                i <= self.callbacks.len(),
                forall|j: int| 0 <= j < i ==> (#[trigger] self.callbacks@[j]).hook != hook,
            decreases self.callbacks.len() - i,
        {
            if self.callbacks[i].hook == hook {
                return Some(self.callbacks[i].callback.as_str());
            }
            i = i + 1;
        }
        None
    }

    /// The top-level callbacks bound to `hook`, in declaration order.
    pub fn callbacks_for_hook(&self, hook: Hook) -> (r: Vec<&EventBinding>)
        ensures
            r@.map_values(|b: &EventBinding| *b) == self.callbacks@.filter(|b: EventBinding| b.hook == hook),
    {
        bindings_for_hook(&self.callbacks, hook)
    }

    /// The native edge behavior of action `a`.
    pub fn collision_mode(&self, a: Action) -> (r: Option<EdgeMode>)
        ensures
            r == match spec_action(*self, a) {
                Some(d) => Some(match d.collision_mode {
                    CollisionMode::Normal => EdgeMode::Plain,
                    CollisionMode::Clamp => EdgeMode::Clamp,
                    CollisionMode::Teeter => EdgeMode::Teeter,
                }),
                None => None,
            },
    {
        match self.action(a) {
            Some(d) => Some(d.collision_mode.native()),
            None => None,
        }
    }

    /// Whether a ledge can be caught during action `a`.
    pub fn ledge_catchable(&self, a: Action) -> (r: bool)
        ensures
            r == (spec_action(*self, a) matches Some(d) && d.ledge_catchable),
    {
        match self.action(a) {
            Some(d) => d.ledge_catchable,
            None => false,
        }
    }

    /// The replay state and animation ids of action `a`, when both are
    /// declared.
    pub fn slippi_ids(&self, a: Action) -> (r: Option<(u32, u32)>)
        ensures
            r == match spec_action(*self, a) {
                Some(d) => if d.slippi_state is Some && d.animation is Some {
                    Some((d.slippi_state->0, d.animation->0))
                } else {
                    None
                },
                None => None,
            },
    {
        match self.action(a) {
            Some(d) => match (d.slippi_state, d.animation) {
                (Some(s), Some(an)) => Some((s, an)),
                _ => None,
            },
            None => None,
        }
    }

    /// The replay state id of action `a`, which needs no animation id.
    pub fn slippi_state(&self, a: Action) -> (r: Option<u32>)
        ensures
            r == match spec_action(*self, a) {
                Some(d) => d.slippi_state,
                None => None,
            },
    {
        match self.action(a) {
            Some(d) => d.slippi_state,
            None => None,
        }
    }
}


/// A callback linked at load, with its resolved selector.
#[derive(Clone, Debug)]
pub struct ResolvedCallback {
    pub callback: CallbackHandle,
    pub selector: CallbackSelector,
}

/// What callback routing reads of a fighter's registered resources.
pub struct DispatchResources {
    /// The root resource paths that hold a value.
    pub roots: Vec<String>,
    pub action_events: ActionEventTable,
}

/// Whether `path` names a root resource that holds a value.
pub open spec fn resource_available(r: Option<&DispatchResources>, path: Seq<char>) -> bool {
    &&& valid_path(path)
    &&& r is Some
    &&& exists|i: int| 0 <= i < r->0.roots@.len() && (#[trigger] r->0.roots@[i])@ == path
}

/// A behavior is enabled unless it names a root resource that is absent.
pub open spec fn behavior_enabled(b: BehaviorDefinition, r: Option<&DispatchResources>) -> bool {
    match b.resource {
        None => true,
        Some(p) => resource_available(r, p@),
    }
}

pub open spec fn resource_table(r: Option<&DispatchResources>) -> Option<TableView> {
    match r {
        Some(x) => Some(x.action_events@),
        None => None,
    }
}

/// Hooks of player input, which every enabled behavior hears.
pub open spec fn spec_is_input_hook(hook: Hook) -> bool {
    hook == Hook::InputPressed || hook == Hook::InputReleased || hook == Hook::StickChanged
        || hook == Hook::ActionAvailabilityChanged
}

pub fn is_input_hook(hook: Hook) -> (r: bool)
    ensures
        r == spec_is_input_hook(hook),
{
    match hook {
        Hook::InputPressed | Hook::InputReleased | Hook::StickChanged | Hook::ActionAvailabilityChanged => true,
        _ => false,
    }
}

/// A routed callback: its name, the resource and index of its behavior.
pub open spec fn owned_view(c: OwnedCallback) -> (Seq<char>, Option<Seq<char>>, Option<usize>) {
    (c.callback.name@, opt_text(c.resource), c.behavior_index)
}

/// The callbacks among `bs` whose selectors take the event, in order,
/// owned by `resource` and `index`.
pub open spec fn routed(
    bs: Seq<ResolvedCallback>,
    hook: Hook,
    e: EventRecord,
    action: Action,
    t: Option<TableView>,
    resource: Option<Seq<char>>,
    index: Option<usize>,
) -> Seq<(Seq<char>, Option<Seq<char>>, Option<usize>)>
    decreases bs.len(),
{
    if bs.len() == 0 {
        Seq::empty()
    } else {
        routed(bs.drop_last(), hook, e, action, t, resource, index) + if spec_matches(hook, bs.last().selector, e, Some(action), t) {
            seq![(bs.last().callback.name@, resource, index)]
        } else {
            Seq::empty()
        }
    }
}

/// The linked callbacks of behavior `k` for the hook (none when there are
/// none linked for it).
pub open spec fn linked_at(owned: Seq<Vec<ResolvedCallback>>, k: int) -> Seq<ResolvedCallback> {
    if 0 <= k < owned.len() { owned[k]@ } else { Seq::empty() }
}

/// The routed callbacks of every enabled behavior from `k` on, in order.
pub open spec fn routed_from(
    bs: Seq<BehaviorDefinition>,
    owned: Seq<Vec<ResolvedCallback>>,
    hook: Hook,
    e: EventRecord,
    action: Action,
    r: Option<&DispatchResources>,
    k: int,
) -> Seq<(Seq<char>, Option<Seq<char>>, Option<usize>)>
    decreases bs.len() - k,
{
    if k < 0 || k >= bs.len() {
        Seq::empty()
    } else {
        (if behavior_enabled(bs[k], r) {
            routed(linked_at(owned, k), hook, e, action, resource_table(r), opt_text(bs[k].resource), Some(k as usize))
        } else {
            Seq::empty()
        }) + routed_from(bs, owned, hook, e, action, r, k + 1)
    }
}

/// The first enabled behavior from `k` on that owns `action`.
pub open spec fn first_owner(bs: Seq<BehaviorDefinition>, action: Action, r: Option<&DispatchResources>, k: int) -> Option<int>
    decreases bs.len() - k,
{
    if k < 0 || k >= bs.len() {
        None
    } else if behavior_enabled(bs[k], r) && owns(bs[k], action) {
        Some(k)
    } else {
        first_owner(bs, action, r, k + 1)
    }
}

/// The callbacks a hook reaches: the global ones whose selectors take the
/// event, then those of the behaviors it concerns.  A hook that concerns
/// every behavior (a fighter-hit hook, or an input hook) reaches each
/// enabled behavior in order.  Otherwise an explicit owner decides alone;
/// without one, the first enabled behavior that owns the action does.
pub open spec fn spec_behavior_callbacks(
    d: FighterDefinition,
    global: Seq<ResolvedCallback>,
    owned: Seq<Vec<ResolvedCallback>>,
    hook: Hook,
    fighter_hit: bool,
    action: Action,
    owner: Option<usize>,
    r: Option<&DispatchResources>,
    e: EventRecord,
) -> Seq<(Seq<char>, Option<Seq<char>>, Option<usize>)> {
    let t = resource_table(r);
    let g = routed(global, hook, e, action, t, None, None);
    let all = fighter_hit || spec_is_input_hook(hook);
    let bs = d.behaviors@;
    if owner is Some && !all {
        let o = owner->0 as int;
        if o < bs.len() && behavior_enabled(bs[o], r) {
            g + routed(linked_at(owned, o), hook, e, action, t, opt_text(bs[o].resource), Some(o as usize))
        } else {
            g
        }
    } else if all {
        g + routed_from(bs, owned, hook, e, action, r, 0)
    } else {
        match first_owner(bs, action, r, 0) {
            Some(k) => g + routed(linked_at(owned, k), hook, e, action, t, opt_text(bs[k].resource), Some(k as usize)),
            None => g,
        }
    }
}

fn copy_opt(o: &Option<String>) -> (r: Option<String>)
    ensures
        opt_text(r) == opt_text(*o),
{
    match o {
        Some(s) => Some(s.clone()),
        None => None,
    }
}

fn resource_available_exec(r: Option<&DispatchResources>, path: &str) -> (b: bool)
    ensures
        b == resource_available(r, path@),
{
    if !path_is_valid(path) {
        return false;
    }
    let Some(res) = r else {
        return false;
    };
    let mut i: usize = 0;
    while i < res.roots.len()
        invariant
            i <= res.roots.len(),
            r == Some(res),
            valid_path(path@),
            forall|j: int| 0 <= j < i ==> (#[trigger] res.roots@[j])@ != path@,
        decreases res.roots.len() - i,
    {
        if str_eq(res.roots[i].as_str(), path) {
            assert(r->0 == res);
            assert(r->0.roots@[i as int]@ == path@);
            return true;
        }
        i = i + 1;
    }
    false
}

fn behavior_enabled_exec(b: &BehaviorDefinition, r: Option<&DispatchResources>) -> (e: bool)
    ensures
        e == behavior_enabled(*b, r),
{
    match &b.resource {
        None => true,
        Some(p) => resource_available_exec(r, p.as_str()),
    }
}

fn table_of(r: Option<&DispatchResources>) -> (t: Option<&ActionEventTable>)
    ensures
        match t {
            Some(x) => resource_table(r) == Some(x@),
            None => resource_table(r) is None,
        },
{
    match r {
        Some(x) => Some(&x.action_events),
        None => None,
    }
}

fn append_routed(
    out: &mut Vec<OwnedCallback>,
    bs: &Vec<ResolvedCallback>,
    hook: Hook,
    e: &EventRecord,
    action: Action,
    table: Option<&ActionEventTable>,
    resource: &Option<String>,
    index: Option<usize>,
)
    ensures
        final(out)@.map_values(|c: OwnedCallback| owned_view(c)) == old(out)@.map_values(|c: OwnedCallback| owned_view(c))
            + routed(bs@, hook, *e, action, match table { Some(x) => Some(x@), None => None }, opt_text(*resource), index),
{
    let ghost t = match table { Some(x) => Some(x@), None => None::<TableView> };
    let ghost start = out@.map_values(|c: OwnedCallback| owned_view(c));
    let mut i: usize = 0;
    assert(bs@.subrange(0, 0) =~= Seq::<ResolvedCallback>::empty());
    assert(start + Seq::empty() =~= start);
    while i < bs.len()
        invariant
            i <= bs.len(),
            t == match table { Some(x) => Some(x@), None => None::<TableView> },
            out@.map_values(|c: OwnedCallback| owned_view(c)) == start
                + routed(bs@.subrange(0, i as int), hook, *e, action, t, opt_text(*resource), index),
        decreases bs.len() - i,
    {
        let ghost before = out@.map_values(|c: OwnedCallback| owned_view(c));
        assert(bs@.subrange(0, i + 1).drop_last() =~= bs@.subrange(0, i as int));
        assert(bs@.subrange(0, i + 1).last() == bs@[i as int]);
        if matches_event(hook, &bs[i].selector, e, Some(action), table) {
            let c = OwnedCallback {
                callback: CallbackHandle { name: bs[i].callback.name.clone() },
                resource: copy_opt(resource),
                behavior_index: index,
            };
            out.push(c);
            assert(out@.map_values(|c: OwnedCallback| owned_view(c)) =~= before.push(owned_view(c)));
        }
        assert(out@.map_values(|c: OwnedCallback| owned_view(c)) =~= start
            + routed(bs@.subrange(0, i + 1), hook, *e, action, t, opt_text(*resource), index));
        i = i + 1;
    }
    assert(bs@.subrange(0, bs.len() as int) =~= bs@);
}


impl FighterDefinition {
    /// The callbacks `hook` reaches for a native action transition, with
    /// the behavior that owns each; `spec_behavior_callbacks` says which.
    /// `global` and `owned` are the callbacks linked for the hook, globally
    /// and per behavior; `fighter_hit` is whether the hook's arguments are
    /// a fighter-hit record; `owner` is the behavior selected when the
    /// action was entered.
    pub fn behavior_callbacks_for_owner(
        &self,
        global: &Vec<ResolvedCallback>,
        owned: &Vec<Vec<ResolvedCallback>>,
        hook: Hook,
        fighter_hit: bool,
        action: Action,
        owner: Option<usize>,
        resources: Option<&DispatchResources>,
        event: &EventRecord,
    ) -> (r: Vec<OwnedCallback>)
        ensures
            r@.map_values(|c: OwnedCallback| owned_view(c))
                == spec_behavior_callbacks(*self, global@, owned@, hook, fighter_hit, action, owner, resources, *event),
    {
        let table = table_of(resources);
        let ghost t = resource_table(resources);
        let no_resource: Option<String> = None;
        let mut result: Vec<OwnedCallback> = Vec::new();
        assert(result@.map_values(|c: OwnedCallback| owned_view(c)) =~= Seq::empty());
        append_routed(&mut result, global, hook, event, action, table, &no_resource, None);
        let ghost g = routed(global@, hook, *event, action, t, None, None);
        assert(result@.map_values(|c: OwnedCallback| owned_view(c)) =~= g);
        let all = fighter_hit || is_input_hook(hook);
        let empty: Vec<ResolvedCallback> = Vec::new();
        assert(empty@ =~= Seq::<ResolvedCallback>::empty());
        if let Some(o) = owner {
            if !all {
                if o >= self.behaviors.len() {
                    return result;
                }
                if behavior_enabled_exec(&self.behaviors[o], resources) {
                    let linked = if o < owned.len() { &owned[o] } else { &empty };
                    append_routed(&mut result, linked, hook, event, action, table, &self.behaviors[o].resource, Some(o));
                }
                return result;
            }
        }
        if all {
            let mut k: usize = 0;
            while k < self.behaviors.len()
                invariant
                    k <= self.behaviors.len(),
                    t == resource_table(resources),
                    match table { Some(x) => t == Some(x@), None => t is None },
                    empty@ == Seq::<ResolvedCallback>::empty(),
                    g + routed_from(self.behaviors@, owned@, hook, *event, action, resources, 0)
                        == result@.map_values(|c: OwnedCallback| owned_view(c))
                        + routed_from(self.behaviors@, owned@, hook, *event, action, resources, k as int),
                decreases self.behaviors.len() - k,
            {
                let ghost before = result@.map_values(|c: OwnedCallback| owned_view(c));
                let ghost rest = routed_from(self.behaviors@, owned@, hook, *event, action, resources, k + 1);
                let b = &self.behaviors[k];
                if behavior_enabled_exec(b, resources) {
                    let linked = if k < owned.len() { &owned[k] } else { &empty };
                    assert(linked@ == linked_at(owned@, k as int));
                    append_routed(&mut result, linked, hook, event, action, table, &b.resource, Some(k));
                    assert(before + routed_from(self.behaviors@, owned@, hook, *event, action, resources, k as int)
                        =~= result@.map_values(|c: OwnedCallback| owned_view(c)) + rest);
                } else {
                    assert(routed_from(self.behaviors@, owned@, hook, *event, action, resources, k as int) =~= rest);
                }
                k = k + 1;
            }
            assert(result@.map_values(|c: OwnedCallback| owned_view(c))
                + routed_from(self.behaviors@, owned@, hook, *event, action, resources, k as int)
                =~= result@.map_values(|c: OwnedCallback| owned_view(c)));
            return result;
        }
        let mut k: usize = 0;
        while k < self.behaviors.len()
            invariant
                k <= self.behaviors.len(),
                t == resource_table(resources),
                match table { Some(x) => t == Some(x@), None => t is None },
                empty@ == Seq::<ResolvedCallback>::empty(),
                result@.map_values(|c: OwnedCallback| owned_view(c)) == g,
                g == routed(global@, hook, *event, action, t, None, None),
                !(fighter_hit || spec_is_input_hook(hook)),
                owner is None,
                first_owner(self.behaviors@, action, resources, 0) == first_owner(self.behaviors@, action, resources, k as int),
            decreases self.behaviors.len() - k,
        {
            let b = &self.behaviors[k];
            if behavior_enabled_exec(b, resources) && self.behavior_owns_action(k, action) {
                let linked = if k < owned.len() { &owned[k] } else { &empty };
                assert(linked@ == linked_at(owned@, k as int));
                append_routed(&mut result, linked, hook, event, action, table, &b.resource, Some(k));
                assert(first_owner(self.behaviors@, action, resources, k as int) == Some(k as int));
                return result;
            }
            k = k + 1;
        }
        result
    }
}


proof fn lemma_canonical_prefix(entries: Seq<(String, ActionDefinition)>, a: Action, i: int, n: nat)
    requires
        0 <= i < n <= entries.len(),
        entries[i].0@ == action_text(a),
        entry_action(entries[i].0@, entries[i].1) == Some(a),
        forall|j: int| 0 <= j < entries.len() && j != i ==> (#[trigger] entries[j]).0@ != entries[i].0@,
    ensures
        defining_entry(entries, a, n) == Some(i),
    decreases n,
{
    if n > i + 1 {
        lemma_canonical_prefix(entries, a, i, (n - 1) as nat);
        assert(entries[n - 1].0@ != entries[i].0@);
    }
}

/// Among descriptors with distinct keys, the one keyed by an action's own
/// spelling defines that action, whatever aliases also denote it.
pub proof fn law_canonical_key_wins(entries: Seq<(String, ActionDefinition)>, a: Action, i: int)
    requires
        0 <= i < entries.len(),
        entries[i].0@ == action_text(a),
        entry_action(entries[i].0@, entries[i].1) == Some(a),
        forall|j: int, k: int| 0 <= j < k < entries.len() ==> (#[trigger] entries[j]).0@ != (#[trigger] entries[k]).0@,
    ensures
        defining(entries, a) == Some(i),
{
    assert forall|j: int| 0 <= j < entries.len() && j != i implies (#[trigger] entries[j]).0@ != entries[i].0@ by {
        if j < i {
            assert(entries[j].0@ != entries[i].0@);
        } else {
            assert(entries[i].0@ != entries[j].0@);
        }
    }
    lemma_canonical_prefix(entries, a, i, entries.len());
}


/// Which of the first `n` entries a resource linker selects for `a`: as
/// `defining_entry`, except that a key spelled with `Action.` before the
/// action's own spelling also counts as canonical.
pub open spec fn selected_entry(entries: Seq<(String, ActionDefinition)>, a: Action, n: nat) -> Option<int>
    decreases n,
{
    if n == 0 {
        None
    } else {
        let prev = selected_entry(entries, a, (n - 1) as nat);
        let k = n - 1;
        if entry_action(entries[k].0@, entries[k].1) == Some(a)
            && (prev is None || strip_prefix_or_self(entries[k].0@, "Action."@) == action_text(a)) {
            Some(k)
        } else {
            prev
        }
    }
}

/// The entry selected for `a` in `s`, a list of actions with entry
/// indexes.
pub open spec fn selection_of(s: Seq<(Action, usize)>, a: Action) -> Option<int> {
    if exists|i: int| 0 <= i < s.len() && (#[trigger] s[i]).0 == a {
        Some(s[choose|i: int| 0 <= i < s.len() && (#[trigger] s[i]).0 == a].1 as int)
    } else {
        None
    }
}

/// The descriptor each action selects among `entries` (in key order), as
/// action and entry index, each action once, in order of first mention.
pub fn selected_action_definitions(entries: &Vec<(String, ActionDefinition)>) -> (r: Vec<(Action, usize)>)
    ensures
        forall|i: int, j: int| 0 <= i < j < r@.len() ==> (#[trigger] r@[i]).0 != (#[trigger] r@[j]).0,
        forall|a: Action| #[trigger] selection_of(r@, a) == selected_entry(entries@, a, entries@.len()),
{
    proof {
        reveal_strlit("Action.");
    }
    let mut out: Vec<(Action, usize)> = Vec::new();
    let mut k: usize = 0;
    while k < entries.len()
        invariant
            k <= entries.len(),
            forall|i: int, j: int| 0 <= i < j < out@.len() ==> (#[trigger] out@[i]).0 != (#[trigger] out@[j]).0,
            forall|a: Action| #[trigger] selection_of(out@, a) == selected_entry(entries@, a, k as nat),
        decreases entries.len() - k,
    {
        let ghost before = out@;
        match entry_action_exec(entries[k].0.as_str(), &entries[k].1) {
            None => {
                assert forall|a: Action| #[trigger] selection_of(out@, a) == selected_entry(entries@, a, (k + 1) as nat) by {
                    assert(selection_of(out@, a) == selected_entry(entries@, a, k as nat));
                }
            },
            Some(a) => {
                let stripped = strip_prefix_text(entries[k].0.as_str(), "Action.");
                let name = action_name(a);
                let canonical = str_eq(stripped.as_str(), name.as_str());
                let mut i: usize = 0;
                let mut found = false;
                while i < out.len()
                    invariant_except_break
                        !found,
                    invariant
                        i <= out.len(),
                        out@ == before,
                        forall|j: int| 0 <= j < i ==> (#[trigger] out@[j]).0 != a,
                    ensures
                        found ==> i < out.len() && out@[i as int].0 == a,
                        !found ==> i == out.len(),
                    decreases out.len() - i,
                {
                    if out[i].0 == a {
                        found = true;
                        break;
                    }
                    i = i + 1;
                }
                if !found {
                    proof {
                        assert(selection_of(before, a) is None);
                    }
                    out.push((a, k));
                    proof {
                        assert forall|b: Action| #[trigger] selection_of(out@, b) == selected_entry(entries@, b, (k + 1) as nat) by {
                            assert(selection_of(before, b) == selected_entry(entries@, b, k as nat));
                            if b == a {
                                assert(out@[before.len() as int].0 == a);
                                assert forall|j: int| 0 <= j < out@.len() && (#[trigger] out@[j]).0 == a implies j == before.len() by {
                                    if j < before.len() {
                                        assert(out@[j] == before[j]);
                                    }
                                }
                            } else {
                                if exists|j: int| 0 <= j < out@.len() && (#[trigger] out@[j]).0 == b {
                                    let j = choose|j: int| 0 <= j < out@.len() && (#[trigger] out@[j]).0 == b;
                                    assert(out@[j] == before[j]);
                                }
                                if exists|j: int| 0 <= j < before.len() && (#[trigger] before[j]).0 == b {
                                    let j = choose|j: int| 0 <= j < before.len() && (#[trigger] before[j]).0 == b;
                                    assert(out@[j] == before[j]);
                                }
                                assert forall|j: int| 0 <= j < out@.len() && (#[trigger] out@[j]).0 == b implies out@[j] == before[j] by {}
                            }
                        }
                        assert forall|x: int, y: int| 0 <= x < y < out@.len() implies (#[trigger] out@[x]).0 != (#[trigger] out@[y]).0 by {
                            if y < before.len() {
                                assert(out@[x] == before[x] && out@[y] == before[y]);
                            } else {
                                assert(out@[x] == before[x]);
                            }
                        }
                    }
                } else {
                    if canonical {
                        out.set(i, (a, k));
                    }
                    proof {
                        assert(before[i as int].0 == a);
                        assert forall|b: Action| #[trigger] selection_of(out@, b) == selected_entry(entries@, b, (k + 1) as nat) by {
                            assert(selection_of(before, b) == selected_entry(entries@, b, k as nat));
                            assert forall|j: int| 0 <= j < out@.len() && j != i implies #[trigger] out@[j] == before[j] by {}
                            if b == a {
                                assert forall|j: int| 0 <= j < before.len() && (#[trigger] before[j]).0 == a implies j == i by {
                                    if j != i {
                                        if j < i {
                                            assert(before[j].0 != before[i as int].0);
                                        } else {
                                            assert(before[i as int].0 != before[j].0);
                                        }
                                    }
                                }
                                assert forall|j: int| 0 <= j < out@.len() && (#[trigger] out@[j]).0 == a implies j == i by {
                                    if j != i {
                                        assert(out@[j] == before[j]);
                                    }
                                }
                                assert(out@[i as int].0 == a);
                            } else {
                                if exists|j: int| 0 <= j < out@.len() && (#[trigger] out@[j]).0 == b {
                                    let j = choose|j: int| 0 <= j < out@.len() && (#[trigger] out@[j]).0 == b;
                                    assert(j != i);
                                    assert(out@[j] == before[j]);
                                }
                                if exists|j: int| 0 <= j < before.len() && (#[trigger] before[j]).0 == b {
                                    let j = choose|j: int| 0 <= j < before.len() && (#[trigger] before[j]).0 == b;
                                    assert(j != i);
                                    assert(out@[j] == before[j]);
                                }
                            }
                        }
                        assert forall|x: int, y: int| 0 <= x < y < out@.len() implies (#[trigger] out@[x]).0 != (#[trigger] out@[y]).0 by {
                            assert(out@[x].0 == before[x].0 && out@[y].0 == before[y].0);
                        }
                    }
                }
            },
        }
        k = k + 1;
    }
    out
}

} // verus!
