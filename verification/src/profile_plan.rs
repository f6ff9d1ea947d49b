//! Which declared actions get a motion profile when a program's motion is
//! linked, in which order the profiles are numbered, and the checks on
//! their delay fields.
//!
//! Root actions come first, then each behavior's actions in behavior
//! order; a profile's id is its position.  Linking each motion descriptor
//! into its executable profile is the host's part.

use vstd::prelude::*;
use crate::action::{find_char, first_index_of, parse_action, spec_parse_action, Action};
use crate::fighter_writes::ascii_lower;
use crate::host_state::{entry_get, schema_entries, StateSchema, StateType};
use crate::text::{chars_of, seq_lt, slice_chars, str_eq, str_lt, strip_prefix_or_self, strip_prefix_text};

verus! {

/// What linking reads of one declared action.
#[derive(Clone, Debug, PartialEq, Eq)]
pub struct ActionMeta {
    /// The action's name in its table.
    pub name: String,
    /// The native action it stands for (`Action.<name>` or a bare name).
    pub action: Option<String>,
    pub has_motion: bool,
    pub delay_field: Option<String>,
}

/// What linking reads of one behavior.
#[derive(Clone, Debug, PartialEq, Eq)]
pub struct BehaviorMeta {
    pub id: Option<String>,
    /// The behavior names a resource that the fighter does not have.
    pub resource_missing: bool,
    pub actions: Vec<ActionMeta>,
}

/// One motion profile to link: the action it belongs to (`behavior` is
/// `None` for a root action) and the key it is registered under.
#[derive(Clone, Debug, PartialEq, Eq)]
pub struct ProfileSlot {
    pub behavior: Option<usize>,
    pub action: usize,
    pub key: String,
}

pub open spec fn strip_action(r: Seq<char>) -> Seq<char> {
    strip_prefix_or_self(r, "Action."@)
}

/// The key an action's profile is registered under: its native action
/// without the `Action.` prefix, or its name.
pub open spec fn key_of(a: ActionMeta) -> Seq<char> {
    match a.action {
        Some(r) => strip_action(r@),
        None => a.name@,
    }
}

/// Equal after folding ASCII letters to lower case.
pub open spec fn same_folded(a: Seq<char>, b: Seq<char>) -> bool {
    a.len() == b.len() && forall|i: int| 0 <= i < a.len() ==> ascii_lower(#[trigger] a[i]) == ascii_lower(b[i])
}

pub open spec fn names_action(actions: Seq<ActionMeta>, name: Seq<char>) -> bool {
    exists|k: int| 0 <= k < actions.len() && (#[trigger] actions[k]).name@ == name
}

/// The native action `reference` belongs to a behavior whose resource is
/// missing.
pub open spec fn action_disabled(bs: Seq<BehaviorMeta>, reference: Seq<char>) -> bool {
    exists|b: int, k: int| 0 <= b < bs.len() && bs[b].resource_missing && 0 <= k < bs[b].actions@.len()
        && stands_for(#[trigger] bs[b].actions@[k], reference)
}

/// Action `a` stands for the native action `reference`, letter case aside.
pub open spec fn stands_for(a: ActionMeta, reference: Seq<char>) -> bool {
    a.action matches Some(r) && same_folded(strip_action(r@), strip_action(reference))
}

pub open spec fn has_id(b: BehaviorMeta, owner: Seq<char>) -> bool {
    b.id matches Some(id) && id@ == owner
}

/// Behavior `b` claims the action name `name`: it declares it, or `name`
/// is `<owner>.<local>` and the behavior declares `local` or has id `owner`.
pub open spec fn claims(b: BehaviorMeta, name: Seq<char>) -> bool {
    ||| names_action(b.actions@, name)
    ||| first_index_of(name, '.') is Some && {
        let d = first_index_of(name, '.')->0;
        names_action(b.actions@, name.subrange(d + 1, name.len() as int)) || has_id(b, name.subrange(0, d))
    }
}

/// The first behavior claiming `name`.
pub open spec fn first_claim(bs: Seq<BehaviorMeta>, name: Seq<char>) -> Option<int> {
    if exists|b: int| 0 <= b < bs.len() && claims(bs[b], name) {
        Some(choose|b: int| 0 <= b < bs.len() && claims(bs[b], name) && forall|c: int| 0 <= c < b ==> !claims(bs[c], name))
    } else {
        None
    }
}

/// A root action is enabled unless the first behavior claiming its name
/// has a missing resource.
pub open spec fn action_enabled(bs: Seq<BehaviorMeta>, name: Seq<char>) -> bool {
    match first_claim(bs, name) {
        Some(b) => !bs[b].resource_missing,
        None => true,
    }
}

pub open spec fn root_selected(bs: Seq<BehaviorMeta>, a: ActionMeta) -> bool {
    &&& action_enabled(bs, a.name@)
    &&& !(a.action matches Some(r) && action_disabled(bs, r@))
    &&& a.has_motion
}

pub struct SlotView {
    pub behavior: Option<usize>,
    pub action: usize,
    pub key: Seq<char>,
}

pub open spec fn slot_view(s: ProfileSlot) -> SlotView {
    SlotView { behavior: s.behavior, action: s.action, key: s.key@ }
}

pub open spec fn root_slots(root: Seq<ActionMeta>, bs: Seq<BehaviorMeta>, n: nat) -> Seq<SlotView>
    decreases n,
{
    if n == 0 {
        Seq::empty()
    } else {
        root_slots(root, bs, (n - 1) as nat) + if root_selected(bs, root[n - 1]) {
            seq![SlotView { behavior: None, action: (n - 1) as usize, key: key_of(root[n - 1]) }]
        } else {
            Seq::empty()
        }
    }
}

pub open spec fn behavior_slots(b: BehaviorMeta, bi: usize, n: nat) -> Seq<SlotView>
    decreases n,
{
    if n == 0 {
        Seq::empty()
    } else {
        behavior_slots(b, bi, (n - 1) as nat) + if b.actions@[n - 1].has_motion {
            seq![SlotView { behavior: Some(bi), action: (n - 1) as usize, key: key_of(b.actions@[n - 1]) }]
        } else {
            Seq::empty()
        }
    }
}

pub open spec fn all_behavior_slots(bs: Seq<BehaviorMeta>, n: nat) -> Seq<SlotView>
    decreases n,
{
    if n == 0 {
        Seq::empty()
    } else {
        all_behavior_slots(bs, (n - 1) as nat) + if bs[n - 1].resource_missing {
            Seq::empty()
        } else {
            behavior_slots(bs[n - 1], (n - 1) as usize, bs[n - 1].actions@.len())
        }
    }
}

/// The profiles a program links, in id order.
pub open spec fn profile_slots_of(root: Seq<ActionMeta>, bs: Seq<BehaviorMeta>) -> Seq<SlotView> {
    root_slots(root, bs, root.len()) + all_behavior_slots(bs, bs.len())
}

/// Whether `a` and `b` are equal after folding ASCII letters to lower case.
pub fn folded_eq(a: &str, b: &str) -> (r: bool)
    ensures
        r == same_folded(a@, b@),
{
    let x = chars_of(a);
    let y = chars_of(b);
    if x.len() != y.len() {
        return false;
    }
    let mut i: usize = 0;
    while i < x.len()
        invariant
            x@ == a@,
            y@ == b@,
            x.len() == y.len(),
            i <= x.len(),
            forall|j: int| 0 <= j < i ==> ascii_lower(#[trigger] x@[j]) == ascii_lower(y@[j]),
        decreases x.len() - i,
    {
        let c = x[i];
        let d = y[i];
        let lc: u32 = if 'A' <= c && c <= 'Z' { c as u32 + 32 } else { c as u32 };
        let ld: u32 = if 'A' <= d && d <= 'Z' { d as u32 + 32 } else { d as u32 };
        if lc != ld {
            assert(ascii_lower(a@[i as int]) != ascii_lower(b@[i as int]));
            return false;
        }
        i = i + 1;
    }
    true
}

fn declares(actions: &Vec<ActionMeta>, name: &str) -> (r: bool)
    ensures
        r == names_action(actions@, name@),
{
    let mut k: usize = 0;
    while k < actions.len()
        invariant
            k <= actions@.len(),
            forall|j: int| 0 <= j < k ==> (#[trigger] actions@[j]).name@ != name@,
        decreases actions@.len() - k,
    {
        if str_eq(actions[k].name.as_str(), name) {
            return true;
        }
        k = k + 1;
    }
    false
}

fn behavior_claims(b: &BehaviorMeta, name: &str) -> (r: bool)
    ensures
        r == claims(*b, name@),
{
    if declares(&b.actions, name) {
        return true;
    }
    match find_char(name, '.') {
        None => false,
        Some(d) => {
            let n = name.unicode_len();
            let local = slice_chars(name, d + 1, n);
            let owner = slice_chars(name, 0, d);
            if declares(&b.actions, local.as_str()) {
                return true;
            }
            match &b.id {
                Some(id) => str_eq(id.as_str(), owner.as_str()),
                None => false,
            }
        },
    }
}

/// Whether a root action named `name` is enabled.
pub fn root_action_enabled(behaviors: &Vec<BehaviorMeta>, name: &str) -> (r: bool)
    ensures
        r == action_enabled(behaviors@, name@),
{
    let mut b: usize = 0;
    while b < behaviors.len()
        invariant
            b <= behaviors@.len(),
            forall|c: int| 0 <= c < b ==> !claims(#[trigger] behaviors@[c], name@),
        decreases behaviors@.len() - b,
    {
        if behavior_claims(&behaviors[b], name) {
            proof {
                let bi = b as int;
                assert(claims(behaviors@[bi], name@));
                let f = first_claim(behaviors@, name@)->0;
                if f < bi {
                    assert(!claims(behaviors@[f], name@));
                } else if f > bi {
                    assert(!claims(behaviors@[bi], name@));
                }
            }
            return !behaviors[b].resource_missing;
        }
        b = b + 1;
    }
    true
}

/// Whether the native action `reference` belongs to a behavior whose
/// resource is missing.
pub fn reference_disabled(behaviors: &Vec<BehaviorMeta>, reference: &str) -> (r: bool)
    ensures
        r == action_disabled(behaviors@, reference@),
{
    let target = strip_prefix_text(reference, "Action.");
    let mut b: usize = 0;
    while b < behaviors.len()
        invariant
            b <= behaviors@.len(),
            target@ == strip_action(reference@),
            forall|c: int, k: int| 0 <= c < b && behaviors@[c].resource_missing && 0 <= k < behaviors@[c].actions@.len()
                ==> !stands_for(#[trigger] behaviors@[c].actions@[k], reference@),
        decreases behaviors@.len() - b,
    {
        if behaviors[b].resource_missing {
            let actions = &behaviors[b].actions;
            let mut k: usize = 0;
            while k < actions.len()
                invariant
                    k <= actions@.len(),
                    b < behaviors@.len(),
                    behaviors@[b as int].resource_missing,
                    actions@ == behaviors@[b as int].actions@,
                    target@ == strip_action(reference@),
                    forall|j: int| 0 <= j < k ==> !stands_for(#[trigger] actions@[j], reference@),
                decreases actions@.len() - k,
            {
                if let Some(r) = &actions[k].action {
                    let stripped = strip_prefix_text(r.as_str(), "Action.");
                    if folded_eq(stripped.as_str(), target.as_str()) {
                        assert(behaviors@[b as int].actions@[k as int] == actions@[k as int]);
                        assert(stands_for(behaviors@[b as int].actions@[k as int], reference@));
                        return true;
                    }
                }
                k = k + 1;
            }
        }
        b = b + 1;
    }
    false
}

fn key_for(a: &ActionMeta) -> (r: String)
    ensures
        r@ == key_of(*a),
{
    match &a.action {
        Some(r) => strip_prefix_text(r.as_str(), "Action."),
        None => a.name.clone(),
    }
}

/// The motion profiles a program links, in id order: each enabled root
/// action with motion, then the actions with motion of every behavior
/// whose resource is present.
#[verifier::rlimit(40)]
#[verifier::spinoff_prover]
pub fn profile_slots(root: &Vec<ActionMeta>, behaviors: &Vec<BehaviorMeta>) -> (r: Vec<ProfileSlot>)
    ensures
        r@.map_values(|s: ProfileSlot| slot_view(s)) == profile_slots_of(root@, behaviors@),
{
    let mut out: Vec<ProfileSlot> = Vec::new();
    let mut i: usize = 0;
    while i < root.len()
        invariant
            i <= root@.len(),
            out@.map_values(|s: ProfileSlot| slot_view(s)) == root_slots(root@, behaviors@, i as nat),
        decreases root@.len() - i,
    {
        let a = &root[i];
        let enabled = root_action_enabled(behaviors, a.name.as_str());
        let disabled = match &a.action {
            Some(r) => reference_disabled(behaviors, r.as_str()),
            None => false,
        };
        let ghost before = out@;
        if enabled && !disabled && a.has_motion {
            out.push(ProfileSlot { behavior: None, action: i, key: key_for(a) });
            assert(out@.map_values(|s: ProfileSlot| slot_view(s)) =~= before.map_values(|s: ProfileSlot| slot_view(s))
                + seq![SlotView { behavior: None, action: i, key: key_of(root@[i as int]) }]);
        } else {
            assert(root_slots(root@, behaviors@, (i + 1) as nat) =~= root_slots(root@, behaviors@, i as nat));
        }
        i = i + 1;
    }
    let ghost rootpart = out@.map_values(|s: ProfileSlot| slot_view(s));
    let mut b: usize = 0;
    while b < behaviors.len()
        invariant
            b <= behaviors@.len(),
            rootpart == root_slots(root@, behaviors@, root@.len()),
            out@.map_values(|s: ProfileSlot| slot_view(s)) == rootpart + all_behavior_slots(behaviors@, b as nat),
        decreases behaviors@.len() - b,
    {
        let behavior = &behaviors[b];
        if !behavior.resource_missing {
            let mut k: usize = 0;
            let ghost start = out@.map_values(|s: ProfileSlot| slot_view(s));
            while k < behavior.actions.len()
                invariant
                    k <= behavior.actions@.len(),
                    *behavior == behaviors@[b as int],
                    b < behaviors@.len(),
                    out@.map_values(|s: ProfileSlot| slot_view(s)) == start + behavior_slots(*behavior, b, k as nat),
                decreases behavior.actions@.len() - k,
            {
                let a = &behavior.actions[k];
                let ghost before = out@;
                if a.has_motion {
                    out.push(ProfileSlot { behavior: Some(b), action: k, key: key_for(a) });
                    assert(out@.map_values(|s: ProfileSlot| slot_view(s)) =~= before.map_values(|s: ProfileSlot| slot_view(s))
                        + seq![SlotView { behavior: Some(b), action: k, key: key_of(behavior.actions@[k as int]) }]);
                    assert(start + behavior_slots(*behavior, b, (k + 1) as nat) =~= start + behavior_slots(*behavior, b, k as nat)
                        + seq![SlotView { behavior: Some(b), action: k, key: key_of(behavior.actions@[k as int]) }]);
                } else {
                    assert(behavior_slots(*behavior, b, (k + 1) as nat) =~= behavior_slots(*behavior, b, k as nat));
                }
                k = k + 1;
            }
            assert(rootpart + all_behavior_slots(behaviors@, (b + 1) as nat) =~= rootpart + all_behavior_slots(behaviors@, b as nat)
                + behavior_slots(*behavior, b, behavior.actions@.len()));
        } else {
            assert(all_behavior_slots(behaviors@, (b + 1) as nat) =~= all_behavior_slots(behaviors@, b as nat));
        }
        b = b + 1;
    }
    out
}

/// A delay field must name a declared number field of the action-state
/// schema.
pub open spec fn delay_field_declared(schema: Seq<(Seq<char>, crate::host_state::StateField)>, field: Seq<char>) -> bool {
    entry_get(schema, field) matches Some(f) && f.value_type is Number
}

pub fn delay_field_ok(schema: &StateSchema, field: &str) -> (r: bool)
    ensures
        r == delay_field_declared(schema_entries(schema.fields@), field@),
{
    match schema.field(field) {
        Some(f) => match f.value_type {
            StateType::Number => true,
            _ => false,
        },
        None => false,
    }
}

/// The id of the profile at `position`: ids are `u16`, so the 65537th
/// profile is refused.
pub fn profile_id(position: usize) -> (r: Result<u16, String>)
    ensures
        position <= u16::MAX ==> r == Ok::<u16, String>(position as u16),
        position > u16::MAX ==> (r matches Err(m) && m@ == "too many motion profiles"@),
{
    if position > 65535 {
        return Err("too many motion profiles".to_owned());
    }
    Ok(position as u16)
}

// ---------------------------------------------------------------------
// Lookups by native action
// ---------------------------------------------------------------------

pub open spec fn key_views(keys: Seq<String>) -> Seq<Seq<char>> {
    Seq::new(keys.len(), |i: int| keys[i]@)
}

/// The entry that answers for native action `a` among the first `n`
/// keyed entries: entries are stored by key (a later entry replaces an
/// earlier one under the same key) and then taken in key order, so among
/// the keys that name `a` the greatest wins, with its last entry.
pub open spec fn action_winner(keys: Seq<Seq<char>>, a: Action, n: nat) -> Option<int>
    decreases n,
{
    if n == 0 {
        None
    } else {
        let prev = action_winner(keys, a, (n - 1) as nat);
        if spec_parse_action(keys[n - 1]) != Some(a) {
            prev
        } else {
            match prev {
                None => Some(n - 1),
                Some(p) => if seq_lt(keys[n - 1], keys[p]) { prev } else { Some(n - 1) },
            }
        }
    }
}

/// The position of the entry that answers for `action` among entries
/// keyed by `keys` (profile ids, delay fields or animation loops).
pub fn action_entry(keys: &Vec<String>, action: Action) -> (r: Option<usize>)
    ensures
        match r {
            Some(i) => action_winner(key_views(keys@), action, keys@.len()) == Some(i as int),
            None => action_winner(key_views(keys@), action, keys@.len()) is None,
        },
{
    let ghost kv = key_views(keys@);
    let mut best: Option<usize> = None;
    let mut i: usize = 0;
    while i < keys.len()
        invariant
            i <= keys@.len(),
            kv == key_views(keys@),
            match best {
                Some(b) => action_winner(kv, action, i as nat) == Some(b as int) && b < i,
                None => action_winner(kv, action, i as nat) is None,
            },
        decreases keys@.len() - i,
    {
        assert(kv[i as int] == keys@[i as int]@);
        match parse_action(keys[i].as_str()) {
            Some(a) if a == action => {
                best = match best {
                    None => Some(i),
                    Some(b) => if str_lt(keys[i].as_str(), keys[b].as_str()) { Some(b) } else { Some(i) },
                };
            },
            _ => {},
        }
        i = i + 1;
    }
    best
}

/// The last of the first `n` entries owned by `behavior` whose key names
/// native action `a`.
pub open spec fn owner_winner(keys: Seq<Seq<char>>, owners: Seq<Option<usize>>, behavior: usize, a: Action, n: nat) -> Option<int>
    decreases n,
{
    if n == 0 {
        None
    } else if owners[n - 1] == Some(behavior) && spec_parse_action(keys[n - 1]) == Some(a) {
        Some(n - 1)
    } else {
        owner_winner(keys, owners, behavior, a, (n - 1) as nat)
    }
}

/// The position of the entry that answers for `action` owned by
/// `behavior`, among entries keyed by `keys` and owned by `owners` (`None`
/// for a root action).
pub fn owner_entry(keys: &Vec<String>, owners: &Vec<Option<usize>>, behavior: usize, action: Action) -> (r: Option<usize>)
    requires
        keys@.len() == owners@.len(),
    ensures
        match r {
            Some(i) => owner_winner(key_views(keys@), owners@, behavior, action, keys@.len()) == Some(i as int),
            None => owner_winner(key_views(keys@), owners@, behavior, action, keys@.len()) is None,
        },
{
    let ghost kv = key_views(keys@);
    let mut i: usize = keys.len();
    while i > 0
        invariant
            i <= keys@.len(),
            keys@.len() == owners@.len(),
            kv == key_views(keys@),
            owner_winner(kv, owners@, behavior, action, keys@.len()) == owner_winner(kv, owners@, behavior, action, i as nat),
        decreases i,
    {
        let k = i - 1;
        assert(kv[k as int] == keys@[k as int]@);
        if owners[k] == Some(behavior) {
            match parse_action(keys[k].as_str()) {
                Some(a) if a == action => {
                    return Some(k);
                },
                _ => {},
            }
        }
        i = k;
    }
    None
}

} // verus!
