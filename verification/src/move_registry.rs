//! Immutable links between class move identities and native entry actions.
//!
//! A fighter's movesets name, per group and slot, the behavior that serves
//! the move.  `MoveRegistry::compile` validates that shape once at the
//! resource boundary and keeps cheap typed lookups for gameplay: a dense
//! table for the native group/slot vocabulary and a keyed list that also
//! carries extension groups and slots.

use vstd::prelude::*;
use crate::action::{parse_action, spec_parse_action, first_index_of, find_char, Action};
use crate::text::{has_prefix, parse_unsigned, parse_unsigned_text, slice_chars, starts_with, str_eq, strip_prefix_or_self, strip_prefix_text};

verus! {

pub const GROUP_COUNT: usize = 11;
pub const SLOT_COUNT: usize = 22;

/// A moveset group: a native group, or an extension group kept by name.
#[derive(Clone, Debug, PartialEq, Eq, PartialOrd, Ord, Hash)]
pub enum MoveGroup {
    Specials,
    Aerials,
    Grounded,
    Tilts,
    Smashes,
    Grabs,
    Throws,
    Defense,
    Ledge,
    Getup,
    Taunt,
    Extension(String),
}

/// A moveset slot: a native slot, or an extension slot kept by name.
#[derive(Clone, Debug, PartialEq, Eq, PartialOrd, Ord, Hash)]
pub enum MoveSlot {
    Neutral,
    Forward,
    Side,
    Back,
    Up,
    Down,
    Jab,
    RapidJab,
    Dash,
    Standing,
    Pummel,
    Shield,
    SpotDodge,
    RollForward,
    RollBack,
    AirDodge,
    Wait,
    Getup,
    Roll,
    Attack,
    Jump,
    Taunt,
    Extension(String),
}

/// The identity of a group: its index in the native vocabulary, or `-1`
/// and the extension name.
pub open spec fn group_code(x: MoveGroup) -> (int, Seq<char>) {
    match x {
        MoveGroup::Specials => (0, Seq::empty()),
        MoveGroup::Aerials => (1, Seq::empty()),
        MoveGroup::Grounded => (2, Seq::empty()),
        MoveGroup::Tilts => (3, Seq::empty()),
        MoveGroup::Smashes => (4, Seq::empty()),
        MoveGroup::Grabs => (5, Seq::empty()),
        MoveGroup::Throws => (6, Seq::empty()),
        MoveGroup::Defense => (7, Seq::empty()),
        MoveGroup::Ledge => (8, Seq::empty()),
        MoveGroup::Getup => (9, Seq::empty()),
        MoveGroup::Taunt => (10, Seq::empty()),
        MoveGroup::Extension(s) => (-1, s@),
    }
}

/// The identity of a slot: its index in the native vocabulary, or `-1`
/// and the extension name.
pub open spec fn slot_code(x: MoveSlot) -> (int, Seq<char>) {
    match x {
        MoveSlot::Neutral => (0, Seq::empty()),
        MoveSlot::Forward => (1, Seq::empty()),
        MoveSlot::Side => (2, Seq::empty()),
        MoveSlot::Back => (3, Seq::empty()),
        MoveSlot::Up => (4, Seq::empty()),
        MoveSlot::Down => (5, Seq::empty()),
        MoveSlot::Jab => (6, Seq::empty()),
        MoveSlot::RapidJab => (7, Seq::empty()),
        MoveSlot::Dash => (8, Seq::empty()),
        MoveSlot::Standing => (9, Seq::empty()),
        MoveSlot::Pummel => (10, Seq::empty()),
        MoveSlot::Shield => (11, Seq::empty()),
        MoveSlot::SpotDodge => (12, Seq::empty()),
        MoveSlot::RollForward => (13, Seq::empty()),
        MoveSlot::RollBack => (14, Seq::empty()),
        MoveSlot::AirDodge => (15, Seq::empty()),
        MoveSlot::Wait => (16, Seq::empty()),
        MoveSlot::Getup => (17, Seq::empty()),
        MoveSlot::Roll => (18, Seq::empty()),
        MoveSlot::Attack => (19, Seq::empty()),
        MoveSlot::Jump => (20, Seq::empty()),
        MoveSlot::Taunt => (21, Seq::empty()),
        MoveSlot::Extension(s) => (-1, s@),
    }
}

/// The identity of the group an authoring name denotes.
#[verifier::opaque]
pub open spec fn group_name_code(name: Seq<char>) -> (int, Seq<char>) {
    if name == "specials"@ {
        (0, Seq::empty())
    } else if name == "aerials"@ {
        (1, Seq::empty())
    } else if name == "grounded"@ {
        (2, Seq::empty())
    } else if name == "tilts"@ {
        (3, Seq::empty())
    } else if name == "smashes"@ {
        (4, Seq::empty())
    } else if name == "grabs"@ {
        (5, Seq::empty())
    } else if name == "throws"@ {
        (6, Seq::empty())
    } else if name == "defense"@ {
        (7, Seq::empty())
    } else if name == "ledge"@ {
        (8, Seq::empty())
    } else if name == "getup"@ {
        (9, Seq::empty())
    } else if name == "taunt"@ {
        (10, Seq::empty())
    } else {
        (-1, name)
    }
}

/// The identity of the slot an authoring name denotes.
#[verifier::opaque]
pub open spec fn slot_name_code(name: Seq<char>) -> (int, Seq<char>) {
    if name == "neutral"@ {
        (0, Seq::empty())
    } else if name == "forward"@ {
        (1, Seq::empty())
    } else if name == "side"@ {
        (2, Seq::empty())
    } else if name == "back"@ {
        (3, Seq::empty())
    } else if name == "up"@ {
        (4, Seq::empty())
    } else if name == "down"@ {
        (5, Seq::empty())
    } else if name == "jab"@ {
        (6, Seq::empty())
    } else if name == "rapid_jab"@ {
        (7, Seq::empty())
    } else if name == "dash"@ {
        (8, Seq::empty())
    } else if name == "standing"@ {
        (9, Seq::empty())
    } else if name == "pummel"@ {
        (10, Seq::empty())
    } else if name == "shield"@ {
        (11, Seq::empty())
    } else if name == "spot_dodge"@ {
        (12, Seq::empty())
    } else if name == "roll_forward"@ {
        (13, Seq::empty())
    } else if name == "roll_back"@ {
        (14, Seq::empty())
    } else if name == "air_dodge"@ {
        (15, Seq::empty())
    } else if name == "wait"@ {
        (16, Seq::empty())
    } else if name == "getup"@ {
        (17, Seq::empty())
    } else if name == "roll"@ {
        (18, Seq::empty())
    } else if name == "attack"@ {
        (19, Seq::empty())
    } else if name == "jump"@ {
        (20, Seq::empty())
    } else if name == "taunt"@ {
        (21, Seq::empty())
    } else {
        (-1, name)
    }
}

impl MoveGroup {
    /// The MoveGroup an authoring name denotes; unknown names are extensions.
    pub fn parse(value: &str) -> (r: MoveGroup)
        ensures
            group_code(r) == group_name_code(value@),
    {
        proof {
            reveal(group_name_code);
        }
        if str_eq(value, "specials") {
            MoveGroup::Specials
        } else if str_eq(value, "aerials") {
            MoveGroup::Aerials
        } else if str_eq(value, "grounded") {
            MoveGroup::Grounded
        } else if str_eq(value, "tilts") {
            MoveGroup::Tilts
        } else if str_eq(value, "smashes") {
            MoveGroup::Smashes
        } else if str_eq(value, "grabs") {
            MoveGroup::Grabs
        } else if str_eq(value, "throws") {
            MoveGroup::Throws
        } else if str_eq(value, "defense") {
            MoveGroup::Defense
        } else if str_eq(value, "ledge") {
            MoveGroup::Ledge
        } else if str_eq(value, "getup") {
            MoveGroup::Getup
        } else if str_eq(value, "taunt") {
            MoveGroup::Taunt
        } else {
            MoveGroup::Extension(value.to_owned())
        }
    }
}

impl MoveSlot {
    /// The MoveSlot an authoring name denotes; unknown names are extensions.
    pub fn parse(value: &str) -> (r: MoveSlot)
        ensures
            slot_code(r) == slot_name_code(value@),
    {
        proof {
            reveal(slot_name_code);
        }
        if str_eq(value, "neutral") {
            MoveSlot::Neutral
        } else if str_eq(value, "forward") {
            MoveSlot::Forward
        } else if str_eq(value, "side") {
            MoveSlot::Side
        } else if str_eq(value, "back") {
            MoveSlot::Back
        } else if str_eq(value, "up") {
            MoveSlot::Up
        } else if str_eq(value, "down") {
            MoveSlot::Down
        } else if str_eq(value, "jab") {
            MoveSlot::Jab
        } else if str_eq(value, "rapid_jab") {
            MoveSlot::RapidJab
        } else if str_eq(value, "dash") {
            MoveSlot::Dash
        } else if str_eq(value, "standing") {
            MoveSlot::Standing
        } else if str_eq(value, "pummel") {
            MoveSlot::Pummel
        } else if str_eq(value, "shield") {
            MoveSlot::Shield
        } else if str_eq(value, "spot_dodge") {
            MoveSlot::SpotDodge
        } else if str_eq(value, "roll_forward") {
            MoveSlot::RollForward
        } else if str_eq(value, "roll_back") {
            MoveSlot::RollBack
        } else if str_eq(value, "air_dodge") {
            MoveSlot::AirDodge
        } else if str_eq(value, "wait") {
            MoveSlot::Wait
        } else if str_eq(value, "getup") {
            MoveSlot::Getup
        } else if str_eq(value, "roll") {
            MoveSlot::Roll
        } else if str_eq(value, "attack") {
            MoveSlot::Attack
        } else if str_eq(value, "jump") {
            MoveSlot::Jump
        } else if str_eq(value, "taunt") {
            MoveSlot::Taunt
        } else {
            MoveSlot::Extension(value.to_owned())
        }
    }
}

fn group_index(x: &MoveGroup) -> (r: Option<usize>)
    ensures
        match r {
            Some(i) => i < GROUP_COUNT && group_code(*x) == (i as int, Seq::<char>::empty()),
            None => group_code(*x).0 == -1,
        },
{
    match x {
        MoveGroup::Specials => Some(0),
        MoveGroup::Aerials => Some(1),
        MoveGroup::Grounded => Some(2),
        MoveGroup::Tilts => Some(3),
        MoveGroup::Smashes => Some(4),
        MoveGroup::Grabs => Some(5),
        MoveGroup::Throws => Some(6),
        MoveGroup::Defense => Some(7),
        MoveGroup::Ledge => Some(8),
        MoveGroup::Getup => Some(9),
        MoveGroup::Taunt => Some(10),
        MoveGroup::Extension(_) => None,
    }
}

fn slot_index(x: &MoveSlot) -> (r: Option<usize>)
    ensures
        match r {
            Some(i) => i < SLOT_COUNT && slot_code(*x) == (i as int, Seq::<char>::empty()),
            None => slot_code(*x).0 == -1,
        },
{
    match x {
        MoveSlot::Neutral => Some(0),
        MoveSlot::Forward => Some(1),
        MoveSlot::Side => Some(2),
        MoveSlot::Back => Some(3),
        MoveSlot::Up => Some(4),
        MoveSlot::Down => Some(5),
        MoveSlot::Jab => Some(6),
        MoveSlot::RapidJab => Some(7),
        MoveSlot::Dash => Some(8),
        MoveSlot::Standing => Some(9),
        MoveSlot::Pummel => Some(10),
        MoveSlot::Shield => Some(11),
        MoveSlot::SpotDodge => Some(12),
        MoveSlot::RollForward => Some(13),
        MoveSlot::RollBack => Some(14),
        MoveSlot::AirDodge => Some(15),
        MoveSlot::Wait => Some(16),
        MoveSlot::Getup => Some(17),
        MoveSlot::Roll => Some(18),
        MoveSlot::Attack => Some(19),
        MoveSlot::Jump => Some(20),
        MoveSlot::Taunt => Some(21),
        MoveSlot::Extension(_) => None,
    }
}

fn group_eq(a: &MoveGroup, b: &MoveGroup) -> (r: bool)
    ensures
        r == (group_code(*a) == group_code(*b)),
{
    match (a, b) {
        (MoveGroup::Extension(x), MoveGroup::Extension(y)) => str_eq(x.as_str(), y.as_str()),
        (MoveGroup::Extension(_), _) => false,
        (_, MoveGroup::Extension(_)) => false,
        _ => {
            let i = group_index(a).unwrap();
            let j = group_index(b).unwrap();
            i == j
        },
    }
}

fn slot_eq(a: &MoveSlot, b: &MoveSlot) -> (r: bool)
    ensures
        r == (slot_code(*a) == slot_code(*b)),
{
    match (a, b) {
        (MoveSlot::Extension(x), MoveSlot::Extension(y)) => str_eq(x.as_str(), y.as_str()),
        (MoveSlot::Extension(_), _) => false,
        (_, MoveSlot::Extension(_)) => false,
        _ => {
            let i = slot_index(a).unwrap();
            let j = slot_index(b).unwrap();
            i == j
        },
    }
}

/// What a moveset resolves a group and slot to.
#[derive(Clone, Copy, Debug, PartialEq, Eq)]
pub struct MoveEntry {
    pub behavior_index: usize,
    /// `None` means this move is entered by its callback policy.
    pub canonical: Option<Action>,
}

/// The value a moveset gives a slot.
#[derive(Clone, Debug, PartialEq, Eq)]
pub enum MoveRef {
    /// A move identity: the id of a behavior.
    Id(String),
    /// Anything but a string.
    NotString,
}

/// The value a moveset gives a group.
#[derive(Clone, Debug, PartialEq, Eq)]
pub enum MovesetGroup {
    /// An object of slots, in key order.
    Slots(Vec<(String, MoveRef)>),
    /// Anything but an object.
    NotObject,
}

/// The move-related part of a behavior definition.
#[derive(Clone, Debug, PartialEq, Eq, Default)]
pub struct BehaviorLink {
    /// Stable authoring identity.
    pub id: Option<String>,
    /// Native action entered when an input selector picks this move.
    pub entry_action: Option<String>,
}

/// The parts of a fighter definition that the move registry reads.
#[derive(Clone, Debug, PartialEq, Eq, Default)]
pub struct FighterMoves {
    /// External ids whose source actions the fighter owns.
    pub external_ids: Vec<u8>,
    /// Moveset groups, in key order.
    pub movesets: Vec<(String, MovesetGroup)>,
    pub behaviors: Vec<BehaviorLink>,
}

/// Why a moveset was refused.
#[derive(Clone, Debug, PartialEq, Eq)]
pub enum MoveRegistryError {
    GroupMustBeObject(String),
    SlotMustBeString { group: String, slot: String },
    EmptyMoveId { group: String, slot: String },
    DuplicateBehaviorId(String),
    UnknownMoveId { group: String, slot: String, id: String },
    UnknownEntryAction { id: String, action: String },
    SourceActionNamespaceMismatch { id: String, action: String, external_id: u8 },
}

/// The content of a `MoveRegistryError`.
pub enum RegistryFault {
    GroupMustBeObject(Seq<char>),
    SlotMustBeString(Seq<char>, Seq<char>),
    EmptyMoveId(Seq<char>, Seq<char>),
    DuplicateBehaviorId(Seq<char>),
    UnknownMoveId(Seq<char>, Seq<char>, Seq<char>),
    UnknownEntryAction(Seq<char>, Seq<char>),
    SourceActionNamespaceMismatch(Seq<char>, Seq<char>, u8),
}

impl View for MoveRegistryError {
    type V = RegistryFault;

    open spec fn view(&self) -> RegistryFault {
        match self {
            MoveRegistryError::GroupMustBeObject(g) => RegistryFault::GroupMustBeObject(g@),
            MoveRegistryError::SlotMustBeString { group, slot } => RegistryFault::SlotMustBeString(group@, slot@),
            MoveRegistryError::EmptyMoveId { group, slot } => RegistryFault::EmptyMoveId(group@, slot@),
            MoveRegistryError::DuplicateBehaviorId(id) => RegistryFault::DuplicateBehaviorId(id@),
            MoveRegistryError::UnknownMoveId { group, slot, id } => RegistryFault::UnknownMoveId(group@, slot@, id@),
            MoveRegistryError::UnknownEntryAction { id, action } => RegistryFault::UnknownEntryAction(id@, action@),
            MoveRegistryError::SourceActionNamespaceMismatch { id, action, external_id } =>
                RegistryFault::SourceActionNamespaceMismatch(id@, action@, *external_id),
        }
    }
}

/// A resolved link: group identity, slot identity and entry.
pub type Link = ((int, Seq<char>), (int, Seq<char>), MoveEntry);

/// The external id named by a `Source.<external id>:<state>` action
/// reference (with or without the `Action.` prefix).
#[verifier::opaque]
pub open spec fn spec_source_external_id(name: Seq<char>) -> Option<u8> {
    let n = strip_prefix_or_self(name, "Action."@);
    if has_prefix(n, "Source."@) {
        let rest = n.subrange(7, n.len() as int);
        match first_index_of(rest, ':') {
            Some(k) => match parse_unsigned(rest.subrange(0, k), 0xff) {
                Some(v) => Some(v as u8),
                None => None,
            },
            None => None,
        }
    } else {
        None
    }
}

pub open spec fn id_of(b: BehaviorLink) -> Option<Seq<char>> {
    match b.id {
        Some(s) => Some(s@),
        None => None,
    }
}

/// The identity a behavior is reported under.
pub open spec fn diagnostic_id(b: BehaviorLink) -> Seq<char> {
    match b.id {
        Some(s) => s@,
        None => "<unnamed>"@,
    }
}

/// The native action a behavior is entered with, or why it has none.
#[verifier::opaque]
pub open spec fn canonical_result(external_ids: Seq<u8>, b: BehaviorLink) -> Result<Option<Action>, RegistryFault> {
    match b.entry_action {
        None => Ok(None),
        Some(name) => {
            let parsed = match spec_parse_action(strip_prefix_or_self(name@, "Action."@)) {
                Some(a) => Ok(Some(a)),
                None => Err(RegistryFault::UnknownEntryAction(diagnostic_id(b), name@)),
            };
            match spec_source_external_id(name@) {
                Some(x) => if external_ids.contains(x) {
                    parsed
                } else {
                    Err(RegistryFault::SourceActionNamespaceMismatch(diagnostic_id(b), name@, x))
                },
                None => parsed,
            }
        },
    }
}

/// Whether behavior `i` repeats the id of an earlier one.
pub open spec fn repeats_id(bs: Seq<BehaviorLink>, i: int) -> bool {
    id_of(bs[i]) is Some && exists|j: int| 0 <= j < i && id_of(bs[j]) == id_of(bs[i])
}

/// What is wrong with behavior `i`, if anything.
pub open spec fn behavior_fault(external_ids: Seq<u8>, bs: Seq<BehaviorLink>, i: int) -> Option<RegistryFault> {
    match canonical_result(external_ids, bs[i]) {
        Err(f) => Some(f),
        Ok(_) => if repeats_id(bs, i) {
            Some(RegistryFault::DuplicateBehaviorId(id_of(bs[i])->0))
        } else {
            None
        },
    }
}

/// The first fault among the first `n` behaviors.
pub open spec fn behaviors_fault(external_ids: Seq<u8>, bs: Seq<BehaviorLink>, n: nat) -> Option<RegistryFault>
    decreases n,
{
    if n == 0 {
        None
    } else {
        match behaviors_fault(external_ids, bs, (n - 1) as nat) {
            Some(f) => Some(f),
            None => behavior_fault(external_ids, bs, n - 1),
        }
    }
}

/// The behavior with id `id`: the first one that has it.
#[verifier::opaque]
pub open spec fn behavior_index_of(bs: Seq<BehaviorLink>, id: Seq<char>) -> Option<int> {
    if exists|i: int| 0 <= i < bs.len() && id_of(bs[i]) == Some(id) {
        Some(choose|i: int| 0 <= i < bs.len() && id_of(bs[i]) == Some(id)
            && forall|j: int| 0 <= j < i ==> id_of(bs[j]) != Some(id))
    } else {
        None
    }
}

/// What is wrong with slot `slot` of group `group`, if anything.
pub open spec fn slot_fault(group: Seq<char>, slot: Seq<char>, value: MoveRef, bs: Seq<BehaviorLink>) -> Option<RegistryFault> {
    match value {
        MoveRef::NotString => Some(RegistryFault::SlotMustBeString(group, slot)),
        MoveRef::Id(id) => if id@.len() == 0 {
            Some(RegistryFault::EmptyMoveId(group, slot))
        } else if behavior_index_of(bs, id@) is None {
            Some(RegistryFault::UnknownMoveId(group, slot, id@))
        } else {
            None
        },
    }
}

/// The first fault among the first `n` slots of a group.
pub open spec fn slots_fault(group: Seq<char>, slots: Seq<(String, MoveRef)>, bs: Seq<BehaviorLink>, n: nat) -> Option<RegistryFault>
    decreases n,
{
    if n == 0 {
        None
    } else {
        match slots_fault(group, slots, bs, (n - 1) as nat) {
            Some(f) => Some(f),
            None => slot_fault(group, slots[n - 1].0@, slots[n - 1].1, bs),
        }
    }
}

pub open spec fn group_fault(name: Seq<char>, group: MovesetGroup, bs: Seq<BehaviorLink>) -> Option<RegistryFault> {
    match group {
        MovesetGroup::NotObject => Some(RegistryFault::GroupMustBeObject(name)),
        MovesetGroup::Slots(v) => slots_fault(name, v@, bs, v@.len()),
    }
}

/// The first fault among the first `n` groups.
pub open spec fn groups_fault(ms: Seq<(String, MovesetGroup)>, bs: Seq<BehaviorLink>, n: nat) -> Option<RegistryFault>
    decreases n,
{
    if n == 0 {
        None
    } else {
        match groups_fault(ms, bs, (n - 1) as nat) {
            Some(f) => Some(f),
            None => group_fault(ms[n - 1].0@, ms[n - 1].1, bs),
        }
    }
}

/// Why `compile` refuses `d`, if it does: behaviors are checked first, in
/// order, then moveset groups and their slots, in order.
pub open spec fn compile_fault(d: FighterMoves) -> Option<RegistryFault> {
    match behaviors_fault(d.external_ids@, d.behaviors@, d.behaviors@.len()) {
        Some(f) => Some(f),
        None => groups_fault(d.movesets@, d.behaviors@, d.movesets@.len()),
    }
}

/// The entry for the move identity `id`.
pub open spec fn entry_for(d: FighterMoves, id: Seq<char>) -> MoveEntry {
    let i = behavior_index_of(d.behaviors@, id)->0;
    MoveEntry {
        behavior_index: i as usize,
        canonical: canonical_result(d.external_ids@, d.behaviors@[i])->Ok_0,
    }
}

/// The links of one group, in slot order.
pub open spec fn group_links(d: FighterMoves, name: Seq<char>, slots: Seq<(String, MoveRef)>) -> Seq<Link> {
    Seq::new(slots.len(), |j: int| (group_name_code(name), slot_name_code(slots[j].0@), entry_for(d, slots[j].1->Id_0@)))
}

/// The links of the first `n` groups, in order.
pub open spec fn links_upto(d: FighterMoves, n: nat) -> Seq<Link>
    decreases n,
{
    if n == 0 {
        Seq::empty()
    } else {
        links_upto(d, (n - 1) as nat) + match d.movesets@[n - 1].1 {
            MovesetGroup::Slots(v) => group_links(d, d.movesets@[n - 1].0@, v@),
            MovesetGroup::NotObject => Seq::empty(),
        }
    }
}

pub open spec fn same_key(l: Link, g: (int, Seq<char>), s: (int, Seq<char>)) -> bool {
    l.0 == g && l.1 == s
}

/// The position of the link keyed by `g` and `s`.
#[verifier::opaque]
pub open spec fn key_pos(t: Seq<Link>, g: (int, Seq<char>), s: (int, Seq<char>)) -> Option<int> {
    if exists|i: int| 0 <= i < t.len() && same_key(t[i], g, s) {
        Some(choose|i: int| 0 <= i < t.len() && same_key(t[i], g, s)
            && forall|j: int| 0 <= j < i ==> !same_key(t[j], g, s))
    } else {
        None
    }
}

/// `t` with `l` stored under its key: replacing the link there, or added
/// at the end.
pub open spec fn upsert(t: Seq<Link>, l: Link) -> Seq<Link> {
    match key_pos(t, l.0, l.1) {
        Some(i) => t.update(i, l),
        None => t.push(l),
    }
}

/// The keyed table that storing each link in turn builds.
pub open spec fn table_of(links: Seq<Link>) -> Seq<Link>
    decreases links.len(),
{
    if links.len() == 0 {
        Seq::empty()
    } else {
        upsert(table_of(links.drop_last()), links.last())
    }
}

/// The entry stored under `g` and `s` (the last one, if several).
pub open spec fn lookup(t: Seq<Link>, g: (int, Seq<char>), s: (int, Seq<char>)) -> Option<MoveEntry>
    decreases t.len(),
{
    if t.len() == 0 {
        None
    } else if same_key(t.last(), g, s) {
        Some(t.last().2)
    } else {
        lookup(t.drop_last(), g, s)
    }
}

/// Whether some link names behavior `i`.
pub open spec fn references(links: Seq<Link>, i: int) -> bool {
    exists|k: int| 0 <= k < links.len() && links[k].2.behavior_index == i
}

/// Compiled moveset links.
pub struct MoveRegistry {
    /// Dense links for the native vocabulary, `GROUP_COUNT` rows of
    /// `SLOT_COUNT`.
    known: Vec<Option<MoveEntry>>,
    /// Every link, one per key, extension keys included.
    entries: Vec<(MoveGroup, MoveSlot, MoveEntry)>,
    /// Which behaviors some moveset slot names.
    registered_behaviors: Vec<bool>,
}

pub open spec fn links_of_entries(e: Seq<(MoveGroup, MoveSlot, MoveEntry)>) -> Seq<Link> {
    Seq::new(e.len(), |i: int| (group_code(e[i].0), slot_code(e[i].1), e[i].2))
}

/// The mathematical content of a registry.
pub struct RegistryView {
    pub table: Seq<Link>,
    pub registered: Seq<bool>,
}

impl View for MoveRegistry {
    type V = RegistryView;

    closed spec fn view(&self) -> RegistryView {
        RegistryView { table: links_of_entries(self.entries@), registered: self.registered_behaviors@ }
    }
}

impl MoveRegistry {
    /// The dense table agrees with the keyed list.
    #[verifier::type_invariant]
    closed spec fn dense_agrees(self) -> bool {
        &&& self.known@.len() == GROUP_COUNT * SLOT_COUNT
        &&& forall|g: int, s: int| 0 <= g < GROUP_COUNT && 0 <= s < SLOT_COUNT ==>
            #[trigger] self.known@[g * 22 + s] == lookup(links_of_entries(self.entries@), (g, Seq::empty()), (s, Seq::empty()))
    }
}

pub proof fn lemma_behaviors_fault_persists(external_ids: Seq<u8>, bs: Seq<BehaviorLink>, k: nat, n: nat)
    requires
        k <= n,
        behaviors_fault(external_ids, bs, k) is Some,
    ensures
        behaviors_fault(external_ids, bs, n) == behaviors_fault(external_ids, bs, k),
    decreases n - k,
{
    if k < n {
        lemma_behaviors_fault_persists(external_ids, bs, k, (n - 1) as nat);
    }
}

pub proof fn lemma_slots_fault_persists(group: Seq<char>, slots: Seq<(String, MoveRef)>, bs: Seq<BehaviorLink>, k: nat, n: nat)
    requires
        k <= n,
        slots_fault(group, slots, bs, k) is Some,
    ensures
        slots_fault(group, slots, bs, n) == slots_fault(group, slots, bs, k),
    decreases n - k,
{
    if k < n {
        lemma_slots_fault_persists(group, slots, bs, k, (n - 1) as nat);
    }
}

pub proof fn lemma_groups_fault_persists(ms: Seq<(String, MovesetGroup)>, bs: Seq<BehaviorLink>, k: nat, n: nat)
    requires
        k <= n,
        groups_fault(ms, bs, k) is Some,
    ensures
        groups_fault(ms, bs, n) == groups_fault(ms, bs, k),
    decreases n - k,
{
    if k < n {
        lemma_groups_fault_persists(ms, bs, k, (n - 1) as nat);
    }
}

proof fn lemma_first_behavior(bs: Seq<BehaviorLink>, id: Seq<char>, j: int)
    requires
        0 <= j < bs.len(),
        id_of(bs[j]) == Some(id),
        forall|k: int| 0 <= k < j ==> id_of(bs[k]) != Some(id),
    ensures
        behavior_index_of(bs, id) == Some(j),
{
    reveal(behavior_index_of);
    let w = choose|i: int| 0 <= i < bs.len() && id_of(bs[i]) == Some(id)
        && forall|k: int| 0 <= k < i ==> id_of(bs[k]) != Some(id);
    assert(0 <= j < bs.len() && id_of(bs[j]) == Some(id) && forall|k: int| 0 <= k < j ==> id_of(bs[k]) != Some(id));
    if w < j {
        assert(id_of(bs[w]) != Some(id));
    }
    if j < w {
        assert(id_of(bs[j]) != Some(id));
    }
}

proof fn lemma_no_behavior(bs: Seq<BehaviorLink>, id: Seq<char>)
    requires
        forall|k: int| 0 <= k < bs.len() ==> id_of(bs[k]) != Some(id),
    ensures
        behavior_index_of(bs, id) is None,
{
    reveal(behavior_index_of);
}

proof fn lemma_no_key(t: Seq<Link>, g: (int, Seq<char>), s: (int, Seq<char>))
    requires
        forall|k: int| 0 <= k < t.len() ==> !same_key(t[k], g, s),
    ensures
        key_pos(t, g, s) is None,
{
    reveal(key_pos);
}

proof fn lemma_first_key(t: Seq<Link>, g: (int, Seq<char>), s: (int, Seq<char>), j: int)
    requires
        0 <= j < t.len(),
        same_key(t[j], g, s),
        forall|k: int| 0 <= k < j ==> !same_key(t[k], g, s),
    ensures
        key_pos(t, g, s) == Some(j),
{
    reveal(key_pos);
    let w = choose|i: int| 0 <= i < t.len() && same_key(t[i], g, s)
        && forall|k: int| 0 <= k < i ==> !same_key(t[k], g, s);
    assert(0 <= j < t.len() && same_key(t[j], g, s) && forall|k: int| 0 <= k < j ==> !same_key(t[k], g, s));
    if w < j {
        assert(!same_key(t[w], g, s));
    }
    if j < w {
        assert(!same_key(t[j], g, s));
    }
}

proof fn lemma_references_push(links: Seq<Link>, l: Link, i: int)
    ensures
        references(links.push(l), i) == (references(links, i) || l.2.behavior_index == i),
{
    let p = links.push(l);
    if references(links, i) {
        let k = choose|k: int| 0 <= k < links.len() && links[k].2.behavior_index == i;
        assert(p[k] == links[k]);
    }
    if l.2.behavior_index == i {
        assert(p[links.len() as int] == l);
    }
    if references(p, i) {
        let k = choose|k: int| 0 <= k < p.len() && p[k].2.behavior_index == i;
        if k < links.len() {
            assert(p[k] == links[k]);
        }
    }
}

fn contains_u8(values: &Vec<u8>, x: u8) -> (r: bool)
    ensures
        r == values@.contains(x),
{
    let mut i: usize = 0;
    while i < values.len()
        invariant
            i <= values.len(),
            forall|j: int| 0 <= j < i ==> values@[j] != x,
        decreases values.len() - i,
    {
        if values[i] == x {
            assert(values@[i as int] == x);
            return true;
        }
        i = i + 1;
    }
    false
}

/// The external id a `Source.<external id>:<state>` action reference names.
pub fn source_action_external_id(name: &str) -> (r: Option<u8>)
    ensures
        r == spec_source_external_id(name@),
{
    proof {
        reveal(spec_source_external_id);
        reveal_strlit("Source.");
    }
    let n = strip_prefix_text(name, "Action.");
    if !starts_with(n.as_str(), "Source.") {
        return None;
    }
    let len = n.unicode_len();
    let rest = slice_chars(n.as_str(), 7, len);
    match find_char(rest.as_str(), ':') {
        None => None,
        Some(k) => {
            let head = slice_chars(rest.as_str(), 0, k);
            match parse_unsigned_text(head.as_str(), 0xff) {
                Some(v) => Some(v as u8),
                None => None,
            }
        },
    }
}

fn diagnostic_name(b: &BehaviorLink) -> (r: String)
    ensures
        r@ == diagnostic_id(*b),
{
    match &b.id {
        Some(s) => s.clone(),
        None => "<unnamed>".to_owned(),
    }
}

/// The native action behavior `b` is entered with.
fn canonical_action(external_ids: &Vec<u8>, b: &BehaviorLink) -> (r: Result<Option<Action>, MoveRegistryError>)
    ensures
        match r {
            Ok(c) => canonical_result(external_ids@, *b) == Ok::<Option<Action>, RegistryFault>(c),
            Err(e) => canonical_result(external_ids@, *b) == Err::<Option<Action>, RegistryFault>(e@),
        },
{
    proof {
        reveal(canonical_result);
    }
    match &b.entry_action {
        None => Ok(None),
        Some(name) => {
            if let Some(x) = source_action_external_id(name.as_str()) {
                if !contains_u8(external_ids, x) {
                    return Err(MoveRegistryError::SourceActionNamespaceMismatch {
                        id: diagnostic_name(b),
                        action: name.clone(),
                        external_id: x,
                    });
                }
            }
            let stripped = strip_prefix_text(name.as_str(), "Action.");
            match parse_action(stripped.as_str()) {
                Some(a) => Ok(Some(a)),
                None => Err(MoveRegistryError::UnknownEntryAction { id: diagnostic_name(b), action: name.clone() }),
            }
        },
    }
}

/// The first of the first `limit` behaviors whose id is `id`.
fn find_behavior(bs: &Vec<BehaviorLink>, id: &str, limit: usize) -> (r: Option<usize>)
    requires
        limit <= bs@.len(),
    ensures
        match r {
            Some(j) => j < limit && id_of(bs@[j as int]) == Some(id@)
                && forall|k: int| 0 <= k < j ==> id_of(bs@[k]) != Some(id@),
            None => forall|k: int| 0 <= k < limit ==> id_of(bs@[k]) != Some(id@),
        },
{
    let mut j: usize = 0;
    while j < limit
        invariant
            j <= limit <= bs@.len(),
            forall|k: int| 0 <= k < j ==> id_of(bs@[k]) != Some(id@),
        decreases limit - j,
    {
        match &bs[j].id {
            Some(s) => {
                if str_eq(s.as_str(), id) {
                    return Some(j);
                }
            },
            None => {},
        }
        j = j + 1;
    }
    None
}

/// The position of the entry keyed by `g` and `s`.
fn key_position(entries: &Vec<(MoveGroup, MoveSlot, MoveEntry)>, g: &MoveGroup, s: &MoveSlot) -> (r: Option<usize>)
    ensures
        match r {
            Some(i) => i < entries@.len() && key_pos(links_of_entries(entries@), group_code(*g), slot_code(*s)) == Some(i as int),
            None => key_pos(links_of_entries(entries@), group_code(*g), slot_code(*s)) is None,
        },
{
    let ghost t = links_of_entries(entries@);
    let mut i: usize = 0;
    while i < entries.len()
        invariant
            i <= entries.len(),
            t == links_of_entries(entries@),
            forall|k: int| 0 <= k < i ==> !same_key(t[k], group_code(*g), slot_code(*s)),
        decreases entries.len() - i,
    {
        if group_eq(&entries[i].0, g) && slot_eq(&entries[i].1, s) {
            proof {
                lemma_first_key(t, group_code(*g), slot_code(*s), i as int);
            }
            return Some(i);
        }
        i = i + 1;
    }
    proof {
        lemma_no_key(t, group_code(*g), slot_code(*s));
    }
    None
}

/// Stores `entry` under `g` and `s`.
fn store(entries: &mut Vec<(MoveGroup, MoveSlot, MoveEntry)>, g: MoveGroup, s: MoveSlot, entry: MoveEntry)
    ensures
        links_of_entries(final(entries)@) == upsert(links_of_entries(old(entries)@), (group_code(g), slot_code(s), entry)),
{
    let ghost t = links_of_entries(entries@);
    let ghost l = (group_code(g), slot_code(s), entry);
    match key_position(entries, &g, &s) {
        Some(i) => {
            entries.set(i, (g, s, entry));
            assert(links_of_entries(entries@) =~= t.update(i as int, l));
        },
        None => {
            entries.push((g, s, entry));
            assert(links_of_entries(entries@) =~= t.push(l));
        },
    }
}

/// Checks the behaviors in order and gives each its entry action.
fn check_behaviors(definition: &FighterMoves) -> (r: Result<Vec<Option<Action>>, MoveRegistryError>)
    ensures
        match r {
            Ok(c) => {
                &&& behaviors_fault(definition.external_ids@, definition.behaviors@, definition.behaviors@.len()) is None
                &&& c@.len() == definition.behaviors@.len()
                &&& forall|j: int| 0 <= j < c@.len() ==> canonical_result(definition.external_ids@, definition.behaviors@[j])
                    == Ok::<Option<Action>, RegistryFault>(#[trigger] c@[j])
            },
            Err(e) => behaviors_fault(definition.external_ids@, definition.behaviors@, definition.behaviors@.len()) == Some(e@),
        },
{
    let ghost ext = definition.external_ids@;
    let ghost bs = definition.behaviors@;
    let behaviors = &definition.behaviors;
    let mut canonical_by_index: Vec<Option<Action>> = Vec::new();
    let mut i: usize = 0;
    while i < behaviors.len()
        invariant
            i <= behaviors.len(),
            bs == behaviors@,
            bs == definition.behaviors@,
            ext == definition.external_ids@,
            behaviors_fault(ext, bs, i as nat) is None,
            canonical_by_index@.len() == i,
            forall|j: int| 0 <= j < i ==> canonical_result(ext, bs[j]) == Ok::<Option<Action>, RegistryFault>(#[trigger] canonical_by_index@[j]),
        decreases behaviors.len() - i,
    {
        let canonical = match canonical_action(&definition.external_ids, &behaviors[i]) {
            Ok(c) => c,
            Err(e) => {
                proof {
                    assert(behaviors_fault(ext, bs, (i + 1) as nat) == Some(e@));
                    lemma_behaviors_fault_persists(ext, bs, (i + 1) as nat, bs.len());
                }
                return Err(e);
            },
        };
        match &behaviors[i].id {
            Some(id) => {
                match find_behavior(behaviors, id.as_str(), i) {
                    Some(j) => {
                        proof {
                            assert(repeats_id(bs, i as int));
                            assert(behaviors_fault(ext, bs, (i + 1) as nat) == Some(RegistryFault::DuplicateBehaviorId(id@)));
                            lemma_behaviors_fault_persists(ext, bs, (i + 1) as nat, bs.len());
                        }
                        return Err(MoveRegistryError::DuplicateBehaviorId(id.clone()));
                    },
                    None => {
                        assert(!repeats_id(bs, i as int));
                    },
                }
            },
            None => {},
        }
        canonical_by_index.push(canonical);
        i = i + 1;
    }
    Ok(canonical_by_index)
}

/// The links of group `gi` (none for a group that is not an object).
pub open spec fn links_of_group(d: FighterMoves, gi: int) -> Seq<Link> {
    match d.movesets@[gi].1 {
        MovesetGroup::Slots(v) => group_links(d, d.movesets@[gi].0@, v@),
        MovesetGroup::NotObject => Seq::empty(),
    }
}

/// Links the slots of group `gi`, which must be an object whose slots name
/// known behaviors.
fn link_group(
    definition: &FighterMoves,
    gi: usize,
    canonical_by_index: &Vec<Option<Action>>,
    entries: &mut Vec<(MoveGroup, MoveSlot, MoveEntry)>,
    registered: &mut Vec<bool>,
    Ghost(before): Ghost<Seq<Link>>,
) -> (r: Result<(), MoveRegistryError>)
    requires
        gi < definition.movesets@.len(),
        canonical_by_index@.len() == definition.behaviors@.len(),
        forall|j: int| 0 <= j < definition.behaviors@.len() ==> canonical_result(definition.external_ids@, definition.behaviors@[j])
            == Ok::<Option<Action>, RegistryFault>(#[trigger] canonical_by_index@[j]),
        links_of_entries(old(entries)@) == table_of(before),
        old(registered)@.len() == definition.behaviors@.len(),
        forall|q: int| 0 <= q < definition.behaviors@.len() ==> (#[trigger] old(registered)@[q]) == references(before, q),
    ensures
        r is Ok ==> group_fault(definition.movesets@[gi as int].0@, definition.movesets@[gi as int].1, definition.behaviors@) is None,
        r is Ok ==> links_of_entries(final(entries)@) == table_of(before + links_of_group(*definition, gi as int)),
        r is Ok ==> final(registered)@.len() == definition.behaviors@.len(),
        r is Ok ==> forall|q: int| 0 <= q < definition.behaviors@.len() ==>
            (#[trigger] final(registered)@[q]) == references(before + links_of_group(*definition, gi as int), q),
        r matches Err(e) ==> group_fault(definition.movesets@[gi as int].0@, definition.movesets@[gi as int].1, definition.behaviors@) == Some(e@),
{
    let ghost d = *definition;
    let ghost bs = definition.behaviors@;
    let ghost ext = definition.external_ids@;
    let behaviors = &definition.behaviors;
    let name = &definition.movesets[gi].0;
    let slots = match &definition.movesets[gi].1 {
        MovesetGroup::NotObject => {
            return Err(MoveRegistryError::GroupMustBeObject(name.clone()));
        },
        MovesetGroup::Slots(v) => v,
    };
    let ghost gl = group_links(d, name@, slots@);
    assert(gl == links_of_group(d, gi as int));
    assert(before + gl.take(0) =~= before);
    let mut j: usize = 0;
    while j < slots.len()
        invariant
            j <= slots.len(),
            d == *definition,
            bs == behaviors@,
            bs == definition.behaviors@,
            ext == definition.external_ids@,
            canonical_by_index@.len() == bs.len(),
            forall|q: int| 0 <= q < bs.len() ==> canonical_result(ext, bs[q]) == Ok::<Option<Action>, RegistryFault>(#[trigger] canonical_by_index@[q]),
            gl == group_links(d, name@, slots@),
            gi < definition.movesets@.len(),
            definition.movesets@[gi as int].1 == MovesetGroup::Slots(*slots),
            definition.movesets@[gi as int].0 == *name,
            slots_fault(name@, slots@, bs, j as nat) is None,
            links_of_entries(entries@) == table_of(before + gl.take(j as int)),
            registered@.len() == bs.len(),
            forall|q: int| 0 <= q < bs.len() ==> (#[trigger] registered@[q]) == references(before + gl.take(j as int), q),
        decreases slots.len() - j,
    {
        let slot_name = &slots[j].0;
        let id = match &slots[j].1 {
            MoveRef::NotString => {
                proof {
                    assert(slots_fault(name@, slots@, bs, (j + 1) as nat) == Some(RegistryFault::SlotMustBeString(name@, slot_name@)));
                    lemma_slots_fault_persists(name@, slots@, bs, (j + 1) as nat, slots@.len());
                }
                return Err(MoveRegistryError::SlotMustBeString { group: name.clone(), slot: slot_name.clone() });
            },
            MoveRef::Id(id) => id,
        };
        if id.as_str().is_empty() {
            proof {
                assert(slots_fault(name@, slots@, bs, (j + 1) as nat) == Some(RegistryFault::EmptyMoveId(name@, slot_name@)));
                lemma_slots_fault_persists(name@, slots@, bs, (j + 1) as nat, slots@.len());
            }
            return Err(MoveRegistryError::EmptyMoveId { group: name.clone(), slot: slot_name.clone() });
        }
        let behavior_index = match find_behavior(behaviors, id.as_str(), behaviors.len()) {
            Some(b) => b,
            None => {
                proof {
                    lemma_no_behavior(bs, id@);
                    assert(slots_fault(name@, slots@, bs, (j + 1) as nat) == Some(RegistryFault::UnknownMoveId(name@, slot_name@, id@)));
                    lemma_slots_fault_persists(name@, slots@, bs, (j + 1) as nat, slots@.len());
                }
                return Err(MoveRegistryError::UnknownMoveId { group: name.clone(), slot: slot_name.clone(), id: id.clone() });
            },
        };
        proof {
            lemma_first_behavior(bs, id@, behavior_index as int);
        }
        let entry = MoveEntry { behavior_index, canonical: canonical_by_index[behavior_index] };
        let group = MoveGroup::parse(name.as_str());
        let slot = MoveSlot::parse(slot_name.as_str());
        let ghost l = (group_code(group), slot_code(slot), entry);
        assert(l == gl[j as int]);
        let ghost prev = before + gl.take(j as int);
        assert((before + gl.take(j + 1)) =~= prev.push(l));
        assert(prev.push(l).drop_last() =~= prev);
        store(entries, group, slot, entry);
        registered.set(behavior_index, true);
        proof {
            assert forall|q: int| 0 <= q < bs.len() implies (#[trigger] registered@[q]) == references(prev.push(l), q) by {
                lemma_references_push(prev, l, q);
            }
        }
        j = j + 1;
    }
    assert(gl.take(slots@.len() as int) =~= gl);
    Ok(())
}

/// The dense table of `entries` over the native vocabulary.
fn dense_table(entries: &Vec<(MoveGroup, MoveSlot, MoveEntry)>) -> (known: Vec<Option<MoveEntry>>)
    ensures
        known@.len() == GROUP_COUNT * SLOT_COUNT,
        forall|g: int, s: int| 0 <= g < GROUP_COUNT && 0 <= s < SLOT_COUNT ==>
            #[trigger] known@[g * 22 + s] == lookup(links_of_entries(entries@), (g, Seq::empty()), (s, Seq::empty())),
{
    let ghost table = links_of_entries(entries@);
    let mut known: Vec<Option<MoveEntry>> = Vec::new();
    let mut c: usize = 0;
    while c < GROUP_COUNT * SLOT_COUNT
        invariant
            c <= GROUP_COUNT * SLOT_COUNT,
            known@.len() == c,
            forall|q: int| 0 <= q < c ==> (#[trigger] known@[q]) is None,
        decreases GROUP_COUNT * SLOT_COUNT - c,
    {
        known.push(None);
        c = c + 1;
    }
    assert(table.take(0) =~= Seq::<Link>::empty());
    let mut e: usize = 0;
    while e < entries.len()
        invariant
            e <= entries.len(),
            table == links_of_entries(entries@),
            known@.len() == GROUP_COUNT * SLOT_COUNT,
            forall|g: int, s: int| 0 <= g < GROUP_COUNT && 0 <= s < SLOT_COUNT ==>
                #[trigger] known@[g * 22 + s] == lookup(table.take(e as int), (g, Seq::empty()), (s, Seq::empty())),
        decreases entries.len() - e,
    {
        assert(table.take(e + 1).drop_last() =~= table.take(e as int));
        assert(table.take(e + 1).last() == table[e as int]);
        match (group_index(&entries[e].0), slot_index(&entries[e].1)) {
            (Some(g), Some(s)) => {
                known.set(g * 22 + s, Some(entries[e].2));
            },
            _ => {},
        }
        e = e + 1;
    }
    assert(table.take(entries@.len() as int) =~= table);
    known
}

proof fn lemma_lookup_at(t: Seq<Link>, g: (int, Seq<char>), s: (int, Seq<char>), i: int)
    requires
        0 <= i < t.len(),
        same_key(t[i], g, s),
        forall|j: int| 0 <= j < t.len() && j != i ==> !same_key(t[j], g, s),
    ensures
        lookup(t, g, s) == Some(t[i].2),
    decreases t.len(),
{
    if i < t.len() - 1 {
        let u = t.drop_last();
        assert forall|j: int| 0 <= j < u.len() && j != i implies !same_key(u[j], g, s) by {
            assert(u[j] == t[j]);
        }
        assert(!same_key(t.last(), g, s));
        lemma_lookup_at(u, g, s, i);
    }
}

proof fn lemma_lookup_none(t: Seq<Link>, g: (int, Seq<char>), s: (int, Seq<char>))
    requires
        forall|j: int| 0 <= j < t.len() ==> !same_key(t[j], g, s),
    ensures
        lookup(t, g, s) is None,
    decreases t.len(),
{
    if t.len() > 0 {
        let u = t.drop_last();
        assert forall|j: int| 0 <= j < u.len() implies !same_key(u[j], g, s) by {
            assert(u[j] == t[j]);
        }
        lemma_lookup_none(u, g, s);
    }
}

/// The table keeps one link per key, and each key resolves to the last
/// link given for it.
proof fn lemma_table_of(links: Seq<Link>)
    ensures
        forall|i: int, j: int| 0 <= i < j < table_of(links).len() ==>
            !same_key(#[trigger] table_of(links)[i], #[trigger] table_of(links)[j].0, table_of(links)[j].1),
        forall|g: (int, Seq<char>), s: (int, Seq<char>)| lookup(#[trigger] table_of(links), g, s) == lookup(links, g, s),
    decreases links.len(),
{
    if links.len() == 0 {
        assert forall|g: (int, Seq<char>), s: (int, Seq<char>)| lookup(#[trigger] table_of(links), g, s) == lookup(links, g, s) by {
        }
    } else {
        let prev = links.drop_last();
        let l = links.last();
        lemma_table_of(prev);
        let t = table_of(prev);
        let r = table_of(links);
        assert(r == upsert(t, l));
        reveal(key_pos);
        if exists|i: int| 0 <= i < t.len() && same_key(t[i], l.0, l.1) {
            let i = choose|i: int| 0 <= i < t.len() && same_key(t[i], l.0, l.1)
                && forall|j: int| 0 <= j < i ==> !same_key(t[j], l.0, l.1);
            assert(key_pos(t, l.0, l.1) == Some(i));
            assert(r == t.update(i, l));
            assert forall|a: int, b: int| 0 <= a < b < r.len() implies !same_key(#[trigger] r[a], #[trigger] r[b].0, r[b].1) by {
                if a == i {
                    assert(!same_key(t[a], t[b].0, t[b].1));
                } else if b == i {
                    assert(!same_key(t[a], t[b].0, t[b].1));
                } else {
                    assert(!same_key(t[a], t[b].0, t[b].1));
                }
            }
            assert forall|g: (int, Seq<char>), s: (int, Seq<char>)| lookup(#[trigger] table_of(links), g, s) == lookup(links, g, s) by {
                assert(lookup(links, g, s) == if same_key(l, g, s) { Some(l.2) } else { lookup(prev, g, s) });
                if same_key(l, g, s) {
                    assert forall|j: int| 0 <= j < r.len() && j != i implies !same_key(r[j], g, s) by {
                        if j < i {
                            assert(!same_key(t[j], t[i].0, t[i].1));
                        } else {
                            assert(!same_key(t[i], t[j].0, t[j].1));
                        }
                    }
                    lemma_lookup_at(r, g, s, i);
                } else if exists|j: int| 0 <= j < t.len() && same_key(t[j], g, s) {
                    let j = choose|j: int| 0 <= j < t.len() && same_key(t[j], g, s);
                    assert forall|k: int| 0 <= k < t.len() && k != j implies !same_key(t[k], g, s) by {
                        if k < j {
                            assert(!same_key(t[k], t[j].0, t[j].1));
                        } else {
                            assert(!same_key(t[j], t[k].0, t[k].1));
                        }
                    }
                    lemma_lookup_at(t, g, s, j);
                    assert forall|k: int| 0 <= k < r.len() && k != j implies !same_key(r[k], g, s) by {
                        if k != i {
                            assert(r[k] == t[k]);
                        }
                    }
                    lemma_lookup_at(r, g, s, j);
                } else {
                    lemma_lookup_none(t, g, s);
                    assert forall|k: int| 0 <= k < r.len() implies !same_key(r[k], g, s) by {
                        if k != i {
                            assert(r[k] == t[k]);
                        }
                    }
                    lemma_lookup_none(r, g, s);
                }
            }
        } else {
            assert(key_pos(t, l.0, l.1) is None);
            assert(r == t.push(l));
            assert forall|a: int, b: int| 0 <= a < b < r.len() implies !same_key(#[trigger] r[a], #[trigger] r[b].0, r[b].1) by {
                if b == t.len() {
                    assert(r[a] == t[a]);
                } else {
                    assert(!same_key(t[a], t[b].0, t[b].1));
                }
            }
            assert forall|g: (int, Seq<char>), s: (int, Seq<char>)| lookup(#[trigger] table_of(links), g, s) == lookup(links, g, s) by {
                assert(r.drop_last() =~= t);
                assert(r.last() == l);
                assert(lookup(r, g, s) == if same_key(l, g, s) { Some(l.2) } else { lookup(t, g, s) });
                assert(lookup(t, g, s) == lookup(prev, g, s));
                assert(lookup(links, g, s) == if same_key(l, g, s) { Some(l.2) } else { lookup(prev, g, s) });
            }
        }
    }
}

/// Each group and slot resolves to the last moveset link given for it: a
/// later slot naming the same group and slot replaces an earlier one.
pub proof fn law_resolve_gives_last_link(links: Seq<Link>, g: (int, Seq<char>), s: (int, Seq<char>))
    ensures
        lookup(table_of(links), g, s) == lookup(links, g, s),
{
    lemma_table_of(links);
}

/// The group and slot keys of `links`, in order.
pub open spec fn link_keys(links: Seq<Link>) -> Seq<((int, Seq<char>), (int, Seq<char>))> {
    links.map_values(|l: Link| (l.0, l.1))
}

proof fn lemma_lookup_some(t: Seq<Link>, g: (int, Seq<char>), s: (int, Seq<char>))
    ensures
        lookup(t, g, s) is Some <==> exists|i: int| 0 <= i < t.len() && same_key(t[i], g, s),
    decreases t.len(),
{
    if t.len() > 0 {
        lemma_lookup_some(t.drop_last(), g, s);
        if exists|i: int| 0 <= i < t.drop_last().len() && same_key(t.drop_last()[i], g, s) {
            let i = choose|i: int| 0 <= i < t.drop_last().len() && same_key(t.drop_last()[i], g, s);
            assert(same_key(t[i], g, s));
        }
        if exists|i: int| 0 <= i < t.len() && same_key(t[i], g, s) {
            let i = choose|i: int| 0 <= i < t.len() && same_key(t[i], g, s);
            if i < t.len() - 1 {
                assert(same_key(t.drop_last()[i], g, s));
            }
        }
    }
}

proof fn lemma_keys_contain(t: Seq<Link>, g: (int, Seq<char>), s: (int, Seq<char>))
    ensures
        link_keys(t).contains((g, s)) <==> exists|i: int| 0 <= i < t.len() && same_key(t[i], g, s),
{
    if link_keys(t).contains((g, s)) {
        let i = choose|i: int| 0 <= i < link_keys(t).len() && link_keys(t)[i] == (g, s);
        assert(same_key(t[i], g, s));
    }
    if exists|i: int| 0 <= i < t.len() && same_key(t[i], g, s) {
        let i = choose|i: int| 0 <= i < t.len() && same_key(t[i], g, s);
        assert(link_keys(t)[i] == (g, s));
    }
}

/// A compiled table holds exactly one link per distinct group and slot
/// key among the links it was built from, so the registry's length is
/// the number of distinct (group, slot) pairs its movesets name.
pub proof fn law_one_link_per_key(links: Seq<Link>)
    ensures
        table_of(links).len() == link_keys(links).to_set().len(),
        link_keys(table_of(links)).to_set() == link_keys(links).to_set(),
{
    lemma_table_of(links);
    let t = table_of(links);
    let k = link_keys(t);
    assert forall|i: int, j: int| 0 <= i < k.len() && 0 <= j < k.len() && i != j implies k[i] != k[j] by {
        if i < j {
            assert(!same_key(t[i], t[j].0, t[j].1));
        } else {
            assert(!same_key(t[j], t[i].0, t[i].1));
        }
    }
    assert(k.no_duplicates());
    k.unique_seq_to_set();
    assert forall|key: ((int, Seq<char>), (int, Seq<char>))| k.to_set().contains(key) <==> link_keys(links).to_set().contains(key) by {
        let (g, s) = key;
        lemma_keys_contain(t, g, s);
        lemma_keys_contain(links, g, s);
        lemma_lookup_some(t, g, s);
        lemma_lookup_some(links, g, s);
    }
    assert(k.to_set() =~= link_keys(links).to_set());
}

/// The slots of group `i` (none for a group that is not an object).
pub open spec fn slots_of(d: FighterMoves, i: int) -> Seq<(String, MoveRef)> {
    match d.movesets@[i].1 {
        MovesetGroup::Slots(v) => v@,
        MovesetGroup::NotObject => Seq::empty(),
    }
}

/// The key of slot `j` of group `i`: the group's and the slot's identity.
pub open spec fn slot_key(d: FighterMoves, i: int, j: int) -> ((int, Seq<char>), (int, Seq<char>)) {
    (group_name_code(d.movesets@[i].0@), slot_name_code(slots_of(d, i)[j].0@))
}

pub open spec fn names_slot(d: FighterMoves, n: int, k: ((int, Seq<char>), (int, Seq<char>))) -> bool {
    exists|i: int, j: int| 0 <= i < n && 0 <= j < slots_of(d, i).len() && k == #[trigger] slot_key(d, i, j)
}

/// The distinct (group, slot) pairs a definition's movesets name.
pub open spec fn moveset_keys(d: FighterMoves) -> Set<((int, Seq<char>), (int, Seq<char>))> {
    Set::new(|k: ((int, Seq<char>), (int, Seq<char>))| names_slot(d, d.movesets@.len() as int, k))
}

proof fn lemma_keys_upto(d: FighterMoves, n: nat)
    requires
        n <= d.movesets@.len(),
    ensures
        forall|k: ((int, Seq<char>), (int, Seq<char>))| #[trigger] link_keys(links_upto(d, n)).contains(k) <==> names_slot(d, n as int, k),
    decreases n,
{
    if n > 0 {
        lemma_keys_upto(d, (n - 1) as nat);
        let prev = links_upto(d, (n - 1) as nat);
        let g = links_of_group(d, n - 1);
        let all = links_upto(d, n);
        assert(all == prev + g);
        assert forall|k: ((int, Seq<char>), (int, Seq<char>))| #[trigger] link_keys(all).contains(k) <==> names_slot(d, n as int, k) by {
            if link_keys(all).contains(k) {
                let p = choose|p: int| 0 <= p < link_keys(all).len() && link_keys(all)[p] == k;
                if p < prev.len() {
                    assert(link_keys(prev)[p] == k);
                    assert(link_keys(prev).contains(k));
                    let (i, j) = choose|i: int, j: int| 0 <= i < n - 1 && 0 <= j < slots_of(d, i).len() && k == #[trigger] slot_key(d, i, j);
                    assert(k == slot_key(d, i, j));
                } else {
                    let j = p - prev.len();
                    assert(all[p] == g[j]);
                    assert(k == slot_key(d, n - 1, j));
                }
            }
            if names_slot(d, n as int, k) {
                let (i, j) = choose|i: int, j: int| 0 <= i < n && 0 <= j < slots_of(d, i).len() && k == #[trigger] slot_key(d, i, j);
                if i < n - 1 {
                    assert(names_slot(d, n - 1, k));
                    assert(link_keys(prev).contains(k));
                    let p = choose|p: int| 0 <= p < link_keys(prev).len() && link_keys(prev)[p] == k;
                    assert(all[p] == prev[p]);
                    assert(link_keys(all)[p] == k);
                } else {
                    let p = prev.len() + j;
                    assert(all[p] == g[j]);
                    assert(link_keys(all)[p] == k);
                }
            }
        }
    }
}

/// A compiled definition holds one link for each distinct (group, slot)
/// pair its movesets name, so a registry's length is the number of those
/// pairs; and every slot of every group resolves, to the last link given
/// for its pair.
pub proof fn law_every_slot_resolves(d: FighterMoves)
    ensures
        link_keys(table_of(links_upto(d, d.movesets@.len()))).to_set() == moveset_keys(d),
        table_of(links_upto(d, d.movesets@.len())).len() == moveset_keys(d).len(),
        forall|i: int, j: int| 0 <= i < d.movesets@.len() && 0 <= j < slots_of(d, i).len() ==> {
            let k = #[trigger] slot_key(d, i, j);
            &&& lookup(table_of(links_upto(d, d.movesets@.len())), k.0, k.1) is Some
            &&& lookup(table_of(links_upto(d, d.movesets@.len())), k.0, k.1) == lookup(links_upto(d, d.movesets@.len()), k.0, k.1)
        },
{
    let n = d.movesets@.len();
    let links = links_upto(d, n);
    lemma_keys_upto(d, n);
    law_one_link_per_key(links);
    assert(link_keys(links).to_set() =~= moveset_keys(d));
    lemma_table_of(links);
    assert forall|i: int, j: int| 0 <= i < n && 0 <= j < slots_of(d, i).len() implies {
        let k = #[trigger] slot_key(d, i, j);
        &&& lookup(table_of(links), k.0, k.1) is Some
        &&& lookup(table_of(links), k.0, k.1) == lookup(links, k.0, k.1)
    } by {
        let k = slot_key(d, i, j);
        assert(names_slot(d, n as int, k));
        assert(link_keys(links).contains(k));
        lemma_keys_contain(links, k.0, k.1);
        lemma_lookup_some(links, k.0, k.1);
    }
}

impl MoveRegistry {
    /// Validates a fighter's movesets against its behaviors and links each
    /// group and slot to the behavior that serves it.
    pub fn compile(definition: &FighterMoves) -> (r: Result<MoveRegistry, MoveRegistryError>)
        ensures
            match r {
                Ok(registry) => {
                    &&& compile_fault(*definition) is None
                    &&& registry@.table == table_of(links_upto(*definition, definition.movesets@.len()))
                    &&& registry@.registered.len() == definition.behaviors@.len()
                    &&& forall|i: int| 0 <= i < definition.behaviors@.len() ==>
                        (#[trigger] registry@.registered[i]) == references(links_upto(*definition, definition.movesets@.len()), i)
                },
                Err(e) => compile_fault(*definition) == Some(e@),
            },
    {
        let ghost d = *definition;
        let ghost bs = definition.behaviors@;
        let ghost ms = definition.movesets@;
        let canonical_by_index = check_behaviors(definition)?;
        let mut registered: Vec<bool> = Vec::new();
        let mut k: usize = 0;
        while k < definition.behaviors.len()
            invariant
                k <= definition.behaviors@.len(),
                registered@.len() == k,
                forall|j: int| 0 <= j < k ==> !(#[trigger] registered@[j]),
            decreases definition.behaviors.len() - k,
        {
            registered.push(false);
            k = k + 1;
        }
        let mut entries: Vec<(MoveGroup, MoveSlot, MoveEntry)> = Vec::new();
        assert(links_of_entries(entries@) =~= table_of(links_upto(d, 0)));
        let mut gi: usize = 0;
        while gi < definition.movesets.len()
            invariant
                gi <= definition.movesets@.len(),
                d == *definition,
                bs == definition.behaviors@,
                ms == definition.movesets@,
                behaviors_fault(definition.external_ids@, bs, bs.len()) is None,
                canonical_by_index@.len() == bs.len(),
                forall|j: int| 0 <= j < bs.len() ==> canonical_result(definition.external_ids@, bs[j])
                    == Ok::<Option<Action>, RegistryFault>(#[trigger] canonical_by_index@[j]),
                groups_fault(ms, bs, gi as nat) is None,
                links_of_entries(entries@) == table_of(links_upto(d, gi as nat)),
                registered@.len() == bs.len(),
                forall|j: int| 0 <= j < bs.len() ==> (#[trigger] registered@[j]) == references(links_upto(d, gi as nat), j),
            decreases definition.movesets.len() - gi,
        {
            let linked = link_group(definition, gi, &canonical_by_index, &mut entries, &mut registered, Ghost(links_upto(d, gi as nat)));
            match linked {
                Ok(()) => {},
                Err(e) => {
                    proof {
                        assert(groups_fault(ms, bs, (gi + 1) as nat) == Some(e@));
                        lemma_groups_fault_persists(ms, bs, (gi + 1) as nat, ms.len());
                    }
                    return Err(e);
                },
            }
            assert(links_upto(d, (gi + 1) as nat) == links_upto(d, gi as nat) + links_of_group(d, gi as int));
            gi = gi + 1;
        }
        let known = dense_table(&entries);
        Ok(MoveRegistry { known, entries, registered_behaviors: registered })
    }

    /// The entry for a typed group and slot, without parsing or allocating.
    pub fn resolve_typed(&self, group: &MoveGroup, slot: &MoveSlot) -> (r: Option<MoveEntry>)
        ensures
            r == lookup(self@.table, group_code(*group), slot_code(*slot)),
    {
        proof {
            use_type_invariant(self);
        }
        match (group_index(group), slot_index(slot)) {
            (Some(g), Some(s)) => self.known[g * 22 + s],
            _ => {
                let ghost t = links_of_entries(self.entries@);
                let ghost gk = group_code(*group);
                let ghost sk = slot_code(*slot);
                let mut k: usize = self.entries.len();
                assert(t.take(k as int) =~= t);
                while k > 0
                    invariant
                        k <= self.entries@.len(),
                        t == links_of_entries(self.entries@),
                        gk == group_code(*group),
                        sk == slot_code(*slot),
                        lookup(t, gk, sk) == lookup(t.take(k as int), gk, sk),
                    decreases k,
                {
                    assert(t.take(k as int).drop_last() =~= t.take(k - 1));
                    if group_eq(&self.entries[k - 1].0, group) && slot_eq(&self.entries[k - 1].1, slot) {
                        return Some(self.entries[k - 1].2);
                    }
                    k = k - 1;
                }
                None
            },
        }
    }

    /// The entry an authoring group and slot name resolve to.
    pub fn resolve(&self, group: &str, slot: &str) -> (r: Option<MoveEntry>)
        ensures
            r == lookup(self@.table, group_name_code(group@), slot_name_code(slot@)),
    {
        self.resolve_typed(&MoveGroup::parse(group), &MoveSlot::parse(slot))
    }

    /// The number of distinct group/slot links.
    pub fn len(&self) -> (r: usize)
        ensures
            r == self@.table.len(),
    {
        self.entries.len()
    }

    pub fn is_empty(&self) -> (r: bool)
        ensures
            r == (self@.table.len() == 0),
    {
        self.entries.len() == 0
    }

    /// Whether some moveset slot names behavior `behavior_index`.
    pub fn is_registered_behavior(&self, behavior_index: usize) -> (r: bool)
        ensures
            r == (behavior_index < self@.registered.len() && self@.registered[behavior_index as int]),
    {
        if behavior_index < self.registered_behaviors.len() {
            self.registered_behaviors[behavior_index]
        } else {
            false
        }
    }
}

} // verus!
