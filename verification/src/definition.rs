//! Generic fighter-script resource declarations: callback bindings, edge
//! collision modes, callback ownership and the registry of script sources.
//!
//! This module contains data only.  The simulation asks a definition for
//! action metadata; it never dispatches on a character name.

use vstd::prelude::*;
use crate::action_events::CountdownPhase;
use crate::host_state::entry_get;
use crate::text::{concat2, lemma_seq_lt_asymmetric, lemma_seq_lt_irreflexive, lemma_seq_lt_total, lemma_seq_lt_transitive, seq_lt, str_eq, str_lt};

verus! {

/// Native edge handling of an action.
#[derive(Clone, Copy, Debug, Default, PartialEq, Eq, Structural)]
pub enum CollisionMode {
    #[default]
    Normal,
    Clamp,
    Teeter,
}

/// The native edge behaviors.
#[derive(Clone, Copy, Debug, PartialEq, Eq, Structural)]
pub enum EdgeMode {
    Plain,
    Clamp,
    Teeter,
}

impl CollisionMode {
    /// The native edge behavior of this mode.
    pub fn native(self) -> (r: EdgeMode)
        ensures
            r == match self {
                CollisionMode::Normal => EdgeMode::Plain,
                CollisionMode::Clamp => EdgeMode::Clamp,
                CollisionMode::Teeter => EdgeMode::Teeter,
            },
    {
        match self {
            CollisionMode::Normal => EdgeMode::Plain,
            CollisionMode::Clamp => EdgeMode::Clamp,
            CollisionMode::Teeter => EdgeMode::Teeter,
        }
    }
}

/// The finite runtime hook vocabulary a callback can bind.
#[derive(Clone, Copy, Debug, PartialEq, Eq, Structural)]
pub enum Hook {
    InputPressed,
    InputReleased,
    StickChanged,
    ActionAvailabilityChanged,
    ActionEntered,
    ActionExited,
    AnimationEnded,
    AnimationEvent,
    ScheduledDeadline,
    CommandTraceChanged,
    BeforeHit,
    BeforeReceiveHit,
    AfterHit,
    AfterReceiveHit,
    ProjectileContact,
    Landed,
    SurfaceContact,
    GroundAirChanged,
    PlatformDropDecision,
}

/// A callback bound to a hook, with the filters it was declared with.
#[derive(Clone, Debug, PartialEq)]
pub struct EventBinding {
    pub hook: Hook,
    pub callback: String,
    pub action: Option<String>,
    pub marker: Option<String>,
    pub track: Option<String>,
    pub countdown: Option<String>,
    pub countdown_phase: CountdownPhase,
    pub actions: Vec<String>,
    pub buttons: Option<u16>,
    pub command_index: Option<u8>,
    pub deadline: Option<u32>,
    /// The animation event an `AnimationEvent` callback listens for.
    pub event_id: Option<u8>,
    /// Optional native availability gate declared by a lifecycle callback.
    pub gate: Option<String>,
}

/// A state field that advances as a clock while one of `actions` is active.
#[derive(Clone, Debug, Default, PartialEq)]
pub struct ClockBinding {
    pub field: String,
    pub actions: Vec<String>,
}

/// A linked script callback.
#[derive(Clone, Debug, PartialEq, Eq)]
pub struct CallbackHandle {
    pub name: String,
}

impl CallbackHandle {
    pub fn new(name: &str) -> (r: Self)
        ensures
            r.name@ == name@,
    {
        CallbackHandle { name: name.to_owned() }
    }
}

/// A callback together with the behavior that owns it, if any.
#[derive(Clone, Debug, PartialEq, Eq)]
pub struct OwnedCallback {
    pub callback: CallbackHandle,
    pub resource: Option<String>,
    pub behavior_index: Option<usize>,
}

/// The behavior identity kept while a callback runs: global callbacks
/// carry `None`, behavior callbacks the index metadata routing selected,
/// whatever the hook.
pub fn callback_owner_for_dispatch(callback: &OwnedCallback) -> (r: Option<usize>)
    ensures
        r == callback.behavior_index,
{
    callback.behavior_index
}

/// Named sources.
pub open spec fn source_entries(s: Seq<(String, String)>) -> Seq<(Seq<char>, Seq<char>)> {
    Seq::new(s.len(), |i: int| (s[i].0@, s[i].1@))
}

/// Sources available to loading.  No filesystem or module search is
/// performed; callers register the exact embedded resources they permit.
#[derive(Debug)]
pub struct AssetStore {
    sources: Vec<(String, String)>,
    shared_sources: Vec<(String, String)>,
}

/// The mathematical content of an asset store.
pub struct AssetView {
    pub sources: Seq<(Seq<char>, Seq<char>)>,
    pub shared: Seq<(Seq<char>, Seq<char>)>,
}

impl View for AssetStore {
    type V = AssetView;

    closed spec fn view(&self) -> AssetView {
        AssetView { sources: source_entries(self.sources@), shared: source_entries(self.shared_sources@) }
    }
}

fn lookup_source<'a>(entries: &'a Vec<(String, String)>, name: &str) -> (r: Option<&'a str>)
    ensures
        match r {
            Some(s) => entry_get(source_entries(entries@), name@) == Some(s@),
            None => entry_get(source_entries(entries@), name@) is None,
        },
{
    let ghost e = source_entries(entries@);
    let mut i: usize = 0;
    assert(e.subrange(0, e.len() as int) =~= e);
    while i < entries.len()
        invariant
            i <= entries.len(),
            e == source_entries(entries@),
            entry_get(e, name@) == entry_get(e.subrange(i as int, e.len() as int), name@),
        decreases entries.len() - i,
    {
        let ghost rest = e.subrange(i as int, e.len() as int);
        if str_eq(entries[i].0.as_str(), name) {
            assert(rest[0] == e[i as int]);
            return Some(entries[i].1.as_str());
        }
        assert(rest.drop_first() =~= e.subrange(i + 1, e.len() as int));
        i = i + 1;
    }
    assert(e.subrange(i as int, e.len() as int) =~= Seq::<(Seq<char>, Seq<char>)>::empty());
    None
}

/// Keys in strictly ascending order.
pub open spec fn sorted_keys(s: Seq<(Seq<char>, Seq<char>)>) -> bool {
    forall|i: int, j: int| 0 <= i < j < s.len() ==> seq_lt(#[trigger] s[i].0, #[trigger] s[j].0)
}

/// `s` with `key` set to `value`, keeping keys in ascending order: the
/// entry under `key` is replaced, or a new one goes before the first
/// greater key.
pub open spec fn sorted_insert(s: Seq<(Seq<char>, Seq<char>)>, key: Seq<char>, value: Seq<char>) -> Seq<(Seq<char>, Seq<char>)>
    decreases s.len(),
{
    if s.len() == 0 {
        seq![(key, value)]
    } else if s[0].0 == key {
        s.update(0, (key, value))
    } else if seq_lt(key, s[0].0) {
        seq![(key, value)] + s
    } else {
        seq![s[0]] + sorted_insert(s.drop_first(), key, value)
    }
}

proof fn lemma_insert_position(s: Seq<(Seq<char>, Seq<char>)>, key: Seq<char>, value: Seq<char>, p: int)
    requires
        0 <= p <= s.len(),
        forall|j: int| 0 <= j < p ==> seq_lt(#[trigger] s[j].0, key),
        p < s.len() ==> !seq_lt(s[p].0, key),
    ensures
        sorted_insert(s, key, value) == if p < s.len() && s[p].0 == key {
            s.update(p, (key, value))
        } else {
            s.insert(p, (key, value))
        },
    decreases p,
{
    if p == 0 {
        if s.len() == 0 {
            assert(seq![(key, value)] =~= s.insert(0, (key, value)));
        } else if s[0].0 != key {
            lemma_seq_lt_total(s[0].0, key);
            assert(seq![(key, value)] + s =~= s.insert(0, (key, value)));
        }
    } else {
        let t = s.drop_first();
        assert(seq_lt(s[0].0, key));
        lemma_seq_lt_irreflexive(key);
        lemma_seq_lt_asymmetric(s[0].0, key);
        assert forall|j: int| 0 <= j < p - 1 implies seq_lt(#[trigger] t[j].0, key) by {
            assert(t[j] == s[j + 1]);
        }
        lemma_insert_position(t, key, value, p - 1);
        if p < s.len() && s[p].0 == key {
            assert(seq![s[0]] + t.update(p - 1, (key, value)) =~= s.update(p, (key, value)));
        } else {
            assert(seq![s[0]] + t.insert(p - 1, (key, value)) =~= s.insert(p, (key, value)));
        }
    }
}

/// Every key of `s` is above `lo`.
pub open spec fn keys_above(s: Seq<(Seq<char>, Seq<char>)>, lo: Option<Seq<char>>) -> bool {
    lo matches Some(l) ==> forall|i: int| 0 <= i < s.len() ==> seq_lt(l, #[trigger] s[i].0)
}

proof fn lemma_sorted_insert_sorted(s: Seq<(Seq<char>, Seq<char>)>, key: Seq<char>, value: Seq<char>, lo: Option<Seq<char>>)
    requires
        sorted_keys(s),
        keys_above(s, lo),
        lo matches Some(l) ==> seq_lt(l, key),
    ensures
        sorted_keys(sorted_insert(s, key, value)),
        keys_above(sorted_insert(s, key, value), lo),
    decreases s.len(),
{
    let r = sorted_insert(s, key, value);
    if s.len() == 0 {
    } else if s[0].0 == key {
        assert forall|i: int, j: int| 0 <= i < j < r.len() implies seq_lt(#[trigger] r[i].0, #[trigger] r[j].0) by {
            assert(seq_lt(s[i].0, s[j].0));
        }
    } else if seq_lt(key, s[0].0) {
        assert forall|i: int, j: int| 0 <= i < j < r.len() implies seq_lt(#[trigger] r[i].0, #[trigger] r[j].0) by {
            if i == 0 {
                if j > 1 {
                    assert(seq_lt(s[0].0, s[j - 1].0));
                    lemma_seq_lt_transitive(key, s[0].0, s[j - 1].0);
                }
            } else {
                assert(seq_lt(s[i - 1].0, s[j - 1].0));
            }
        }
    } else {
        let t = s.drop_first();
        lemma_seq_lt_total(s[0].0, key);
        assert forall|i: int, j: int| 0 <= i < j < t.len() implies seq_lt(#[trigger] t[i].0, #[trigger] t[j].0) by {
            assert(seq_lt(s[i + 1].0, s[j + 1].0));
        }
        assert forall|i: int| 0 <= i < t.len() implies seq_lt(s[0].0, #[trigger] t[i].0) by {
            assert(seq_lt(s[0].0, s[i + 1].0));
        }
        lemma_sorted_insert_sorted(t, key, value, Some(s[0].0));
        let rest = sorted_insert(t, key, value);
        assert(r == seq![s[0]] + rest);
        assert forall|i: int, j: int| 0 <= i < j < r.len() implies seq_lt(#[trigger] r[i].0, #[trigger] r[j].0) by {
            if i == 0 {
                assert(r[j] == rest[j - 1]);
            } else {
                assert(r[i] == rest[i - 1]);
                assert(r[j] == rest[j - 1]);
            }
        }
        if lo is Some {
            let l = lo->0;
            assert forall|i: int| 0 <= i < r.len() implies seq_lt(l, #[trigger] r[i].0) by {
                if i > 0 {
                    assert(r[i] == rest[i - 1]);
                    lemma_seq_lt_transitive(l, s[0].0, rest[i - 1].0);
                }
            }
        }
    }
}

proof fn lemma_sorted_insert_get(s: Seq<(Seq<char>, Seq<char>)>, key: Seq<char>, value: Seq<char>, x: Seq<char>)
    ensures
        entry_get(sorted_insert(s, key, value), x) == if x == key { Some(value) } else { entry_get(s, x) },
    decreases s.len(),
{
    let r = sorted_insert(s, key, value);
    let goal = if x == key { Some(value) } else { entry_get(s, x) };
    if s.len() == 0 {
        assert(r == seq![(key, value)]);
        assert(r.len() == 1);
        assert(r[0] == (key, value));
        assert(entry_get(s, x) is None);
        assert(r.drop_first() =~= Seq::<(Seq<char>, Seq<char>)>::empty());
        assert(entry_get(r.drop_first(), x) is None);
        assert(entry_get(r, x) == goal);
    } else if s[0].0 == key {
        assert(r[0] == (key, value));
        assert(r.drop_first() =~= s.drop_first());
        assert(entry_get(r, x) == goal);
    } else if seq_lt(key, s[0].0) {
        assert(r[0] == (key, value));
        assert(r.drop_first() =~= s);
        assert(entry_get(r, x) == goal);
    } else {
        lemma_sorted_insert_get(s.drop_first(), key, value, x);
        assert(r[0] == s[0]);
        assert(r.drop_first() =~= sorted_insert(s.drop_first(), key, value));
        assert(entry_get(r, x) == goal);
    }
}

proof fn lemma_sorted_get_tail(s: Seq<(Seq<char>, Seq<char>)>, i: int)
    requires
        sorted_keys(s),
        0 <= i < s.len(),
    ensures
        entry_get(s, s[i].0) == Some(s[i].1),
    decreases i,
{
    if i > 0 {
        assert(seq_lt(s[0].0, s[i].0));
        lemma_seq_lt_irreflexive(s[i].0);
        let t = s.drop_first();
        assert forall|a: int, b: int| 0 <= a < b < t.len() implies seq_lt(#[trigger] t[a].0, #[trigger] t[b].0) by {
            assert(seq_lt(s[a + 1].0, s[b + 1].0));
        }
        lemma_sorted_get_tail(t, i - 1);
    }
}

proof fn lemma_get_some_index(s: Seq<(Seq<char>, Seq<char>)>, x: Seq<char>)
    requires
        entry_get(s, x) is Some,
    ensures
        exists|i: int| 0 <= i < s.len() && s[i].0 == x && s[i].1 == entry_get(s, x)->0,
    decreases s.len(),
{
    if s[0].0 != x {
        lemma_get_some_index(s.drop_first(), x);
        let i = choose|i: int| 0 <= i < s.drop_first().len() && s.drop_first()[i].0 == x
            && s.drop_first()[i].1 == entry_get(s.drop_first(), x)->0;
        assert(s[i + 1] == s.drop_first()[i]);
    }
}

/// Two sorted tables with the same entries are the same table.
proof fn lemma_sorted_unique(a: Seq<(Seq<char>, Seq<char>)>, b: Seq<(Seq<char>, Seq<char>)>)
    requires
        sorted_keys(a),
        sorted_keys(b),
        forall|x: Seq<char>| entry_get(a, x) == entry_get(b, x),
    ensures
        a == b,
    decreases a.len(),
{
    if a.len() == 0 {
        if b.len() > 0 {
            lemma_sorted_get_tail(b, 0);
            assert(entry_get(a, b[0].0) is None);
        }
        assert(a =~= b);
    } else if b.len() == 0 {
        lemma_sorted_get_tail(a, 0);
        assert(entry_get(b, a[0].0) is None);
    } else {
        lemma_sorted_get_tail(a, 0);
        lemma_sorted_get_tail(b, 0);
        lemma_get_some_index(b, a[0].0);
        lemma_get_some_index(a, b[0].0);
        let ib = choose|i: int| 0 <= i < b.len() && b[i].0 == a[0].0 && b[i].1 == entry_get(b, a[0].0)->0;
        let ia = choose|i: int| 0 <= i < a.len() && a[i].0 == b[0].0 && a[i].1 == entry_get(a, b[0].0)->0;
        if a[0].0 != b[0].0 {
            assert(ib > 0 && ia > 0);
            assert(seq_lt(b[0].0, b[ib].0));
            assert(seq_lt(a[0].0, a[ia].0));
            lemma_seq_lt_asymmetric(a[0].0, b[0].0);
        }
        assert(a[0] == b[0]);
        let ta = a.drop_first();
        let tb = b.drop_first();
        assert forall|p: int, q: int| 0 <= p < q < ta.len() implies seq_lt(#[trigger] ta[p].0, #[trigger] ta[q].0) by {
            assert(seq_lt(a[p + 1].0, a[q + 1].0));
        }
        assert forall|p: int, q: int| 0 <= p < q < tb.len() implies seq_lt(#[trigger] tb[p].0, #[trigger] tb[q].0) by {
            assert(seq_lt(b[p + 1].0, b[q + 1].0));
        }
        assert forall|x: Seq<char>| entry_get(ta, x) == entry_get(tb, x) by {
            if x != a[0].0 {
                assert(entry_get(a, x) == entry_get(ta, x));
                assert(entry_get(b, x) == entry_get(tb, x));
            } else {
                if entry_get(ta, x) is Some {
                    lemma_get_some_index(ta, x);
                    let k = choose|i: int| 0 <= i < ta.len() && ta[i].0 == x && ta[i].1 == entry_get(ta, x)->0;
                    assert(seq_lt(a[0].0, a[k + 1].0));
                    lemma_seq_lt_irreflexive(x);
                }
                if entry_get(tb, x) is Some {
                    lemma_get_some_index(tb, x);
                    let k = choose|i: int| 0 <= i < tb.len() && tb[i].0 == x && tb[i].1 == entry_get(tb, x)->0;
                    assert(seq_lt(b[0].0, b[k + 1].0));
                    lemma_seq_lt_irreflexive(x);
                }
            }
        }
        lemma_sorted_unique(ta, tb);
        assert(a =~= seq![a[0]] + ta);
        assert(b =~= seq![b[0]] + tb);
    }
}

/// Registering two sources under different names gives the same table in
/// either order.
pub proof fn law_registration_order_independent(
    s: Seq<(Seq<char>, Seq<char>)>,
    k1: Seq<char>,
    v1: Seq<char>,
    k2: Seq<char>,
    v2: Seq<char>,
)
    requires
        sorted_keys(s),
        k1 != k2,
    ensures
        sorted_insert(sorted_insert(s, k1, v1), k2, v2) == sorted_insert(sorted_insert(s, k2, v2), k1, v1),
{
    lemma_sorted_insert_sorted(s, k1, v1, None);
    lemma_sorted_insert_sorted(s, k2, v2, None);
    let a = sorted_insert(sorted_insert(s, k1, v1), k2, v2);
    let b = sorted_insert(sorted_insert(s, k2, v2), k1, v1);
    lemma_sorted_insert_sorted(sorted_insert(s, k1, v1), k2, v2, None);
    lemma_sorted_insert_sorted(sorted_insert(s, k2, v2), k1, v1, None);
    assert forall|x: Seq<char>| entry_get(a, x) == entry_get(b, x) by {
        lemma_sorted_insert_get(sorted_insert(s, k1, v1), k2, v2, x);
        lemma_sorted_insert_get(s, k1, v1, x);
        lemma_sorted_insert_get(sorted_insert(s, k2, v2), k1, v1, x);
        lemma_sorted_insert_get(s, k2, v2, x);
    }
    lemma_sorted_unique(a, b);
}

fn store_source(entries: &mut Vec<(String, String)>, name: String, source: String)
    requires
        sorted_keys(source_entries(old(entries)@)),
    ensures
        source_entries(final(entries)@) == sorted_insert(source_entries(old(entries)@), name@, source@),
        sorted_keys(source_entries(final(entries)@)),
{
    let ghost e = source_entries(entries@);
    proof {
        lemma_sorted_insert_sorted(e, name@, source@, None);
    }
    let mut p: usize = 0;
    while p < entries.len() && str_lt(entries[p].0.as_str(), name.as_str())
        invariant
            p <= entries.len(),
            e == source_entries(entries@),
            forall|j: int| 0 <= j < p ==> seq_lt(#[trigger] e[j].0, name@),
        decreases entries.len() - p,
    {
        p = p + 1;
    }
    proof {
        lemma_insert_position(e, name@, source@, p as int);
    }
    if p < entries.len() && str_eq(entries[p].0.as_str(), name.as_str()) {
        entries.set(p, (name, source));
        assert(source_entries(entries@) =~= e.update(p as int, (name@, source@)));
    } else {
        entries.insert(p, (name, source));
        assert(source_entries(entries@) =~= e.insert(p as int, (name@, source@)));
    }
}

/// `base` with every shared source added under `shared/<name>`, in order.
pub open spec fn with_shared(base: Seq<(Seq<char>, Seq<char>)>, shared: Seq<(Seq<char>, Seq<char>)>) -> Seq<(Seq<char>, Seq<char>)>
    decreases shared.len(),
{
    if shared.len() == 0 {
        base
    } else {
        sorted_insert(with_shared(base, shared.drop_last()), "shared/"@ + shared.last().0, shared.last().1)
    }
}

impl AssetStore {
    /// Both tables keep their names in ascending order.
    #[verifier::type_invariant]
    closed spec fn ordered(self) -> bool {
        sorted_keys(source_entries(self.sources@)) && sorted_keys(source_entries(self.shared_sources@))
    }

    pub fn new() -> (r: Self)
        ensures
            r@.sources.len() == 0,
            r@.shared.len() == 0,
    {
        let r = AssetStore { sources: Vec::new(), shared_sources: Vec::new() };
        assert(r@.sources =~= Seq::<(Seq<char>, Seq<char>)>::empty());
        r
    }

    /// Registers a fighter source under `name`, replacing an earlier one;
    /// names stay in ascending order.
    pub fn register(&mut self, name: String, source: String)
        ensures
            final(self)@.sources == sorted_insert(old(self)@.sources, name@, source@),
            final(self)@.shared == old(self)@.shared,
            sorted_keys(final(self)@.sources),
    {
        proof {
            use_type_invariant(&*self);
        }
        let mut sources: Vec<(String, String)> = Vec::new();
        std::mem::swap(&mut sources, &mut self.sources);
        store_source(&mut sources, name, source);
        self.sources = sources;
    }

    pub fn get(&self, name: &str) -> (r: Option<&str>)
        ensures
            match r {
                Some(s) => entry_get(self@.sources, name@) == Some(s@),
                None => entry_get(self@.sources, name@) is None,
            },
    {
        lookup_source(&self.sources, name)
    }

    /// Registers a shared authoring library.  Shared libraries are available
    /// to the loader but kept out of the fighter import namespace.
    pub fn register_shared(&mut self, name: String, source: String)
        ensures
            final(self)@.shared == sorted_insert(old(self)@.shared, name@, source@),
            final(self)@.sources == old(self)@.sources,
            sorted_keys(final(self)@.shared),
    {
        proof {
            use_type_invariant(&*self);
        }
        let mut shared: Vec<(String, String)> = Vec::new();
        std::mem::swap(&mut shared, &mut self.shared_sources);
        store_source(&mut shared, name, source);
        self.shared_sources = shared;
    }

    pub fn shared(&self, name: &str) -> (r: Option<&str>)
        ensures
            match r {
                Some(s) => entry_get(self@.shared, name@) == Some(s@),
                None => entry_get(self@.shared, name@) is None,
            },
    {
        lookup_source(&self.shared_sources, name)
    }

    /// The shared libraries, in ascending name order.
    pub fn shared_sources(&self) -> (r: &Vec<(String, String)>)
        ensures
            source_entries(r@) == self@.shared,
    {
        &self.shared_sources
    }

    /// Every registered source, with each shared library under the prefix
    /// `shared/` so a same-named private module cannot collide with it, in
    /// ascending name order.
    pub fn dependencies(&self, source: &str) -> (r: Result<Vec<(String, String)>, String>)
        ensures
            r matches Ok(d) && source_entries(d@) == with_shared(self@.sources, self@.shared)
                && sorted_keys(source_entries(d@)),
    {
        proof {
            use_type_invariant(self);
        }
        let mut dependencies: Vec<(String, String)> = Vec::new();
        let mut i: usize = 0;
        while i < self.sources.len()
            invariant
                i <= self.sources.len(),
                dependencies@.len() == i,
                forall|j: int| 0 <= j < i ==> (#[trigger] dependencies@[j]).0@ == self.sources@[j].0@
                    && dependencies@[j].1@ == self.sources@[j].1@,
            decreases self.sources.len() - i,
        {
            dependencies.push((self.sources[i].0.clone(), self.sources[i].1.clone()));
            i = i + 1;
        }
        assert(source_entries(dependencies@) =~= self@.sources);
        let ghost shared = self@.shared;
        let mut k: usize = 0;
        assert(shared.take(0) =~= Seq::<(Seq<char>, Seq<char>)>::empty());
        while k < self.shared_sources.len()
            invariant
                k <= self.shared_sources.len(),
                shared == source_entries(self.shared_sources@),
                source_entries(dependencies@) == with_shared(self@.sources, shared.take(k as int)),
                sorted_keys(source_entries(dependencies@)),
            decreases self.shared_sources.len() - k,
        {
            assert(shared.take(k + 1).drop_last() =~= shared.take(k as int));
            let name = concat2("shared/", self.shared_sources[k].0.as_str());
            store_source(&mut dependencies, name, self.shared_sources[k].1.clone());
            k = k + 1;
        }
        assert(shared.take(self.shared_sources@.len() as int) =~= shared);
        Ok(dependencies)
    }
}

impl Default for AssetStore {
    fn default() -> (r: Self)
        ensures
            r@.sources.len() == 0,
            r@.shared.len() == 0,
    {
        AssetStore::new()
    }
}

/// A registered source reads back; other names read as before.
pub proof fn law_register_reads_back(sources: Seq<(Seq<char>, Seq<char>)>, name: Seq<char>, source: Seq<char>, other: Seq<char>)
    ensures
        entry_get(sorted_insert(sources, name, source), name) == Some(source),
        other != name ==> entry_get(sorted_insert(sources, name, source), other) == entry_get(sources, other),
{
    lemma_sorted_insert_get(sources, name, source, name);
    lemma_sorted_insert_get(sources, name, source, other);
}

} // verus!
