//! The registry of loaded fighter definitions, by name and by the external
//! character ids a definition claims.
//!
//! An insertion is validated completely before either index changes, so a
//! rejected definition never leaves a stale external-id route behind.

use vstd::prelude::*;
use crate::action::Action;
use crate::fighter_definition::{spec_action, FighterDefinition};
use crate::text::str_eq;

verus! {

/// Why the registry refused a request.
#[derive(Clone, Debug, PartialEq, Eq)]
pub enum FighterRegistryError {
    DuplicateName(String),
    DuplicateExternalId(u8),
    UnknownFighter(String),
}

pub enum FighterRegistryFault {
    DuplicateName(Seq<char>),
    DuplicateExternalId(u8),
    UnknownFighter(Seq<char>),
}

impl View for FighterRegistryError {
    type V = FighterRegistryFault;

    open spec fn view(&self) -> FighterRegistryFault {
        match self {
            FighterRegistryError::DuplicateName(s) => FighterRegistryFault::DuplicateName(s@),
            FighterRegistryError::DuplicateExternalId(id) => FighterRegistryFault::DuplicateExternalId(*id),
            FighterRegistryError::UnknownFighter(s) => FighterRegistryFault::UnknownFighter(s@),
        }
    }
}

/// Loaded definitions.
#[derive(Debug, Default)]
pub struct Registry {
    by_name: Vec<(String, FighterDefinition)>,
    by_id: Vec<(u8, String)>,
}

/// The mathematical content of a registry: each name's definition, and
/// the name each external id routes to.
pub struct RegistryView {
    pub by_name: Map<Seq<char>, FighterDefinition>,
    pub by_id: Map<u8, Seq<char>>,
}

pub open spec fn name_map(s: Seq<(String, FighterDefinition)>) -> Map<Seq<char>, FighterDefinition>
    decreases s.len(),
{
    if s.len() == 0 {
        Map::empty()
    } else {
        name_map(s.drop_last()).insert(s.last().0@, s.last().1)
    }
}

pub open spec fn id_map(s: Seq<(u8, String)>) -> Map<u8, Seq<char>>
    decreases s.len(),
{
    if s.len() == 0 {
        Map::empty()
    } else {
        id_map(s.drop_last()).insert(s.last().0, s.last().1@)
    }
}

impl View for Registry {
    type V = RegistryView;

    closed spec fn view(&self) -> RegistryView {
        RegistryView { by_name: name_map(self.by_name@), by_id: id_map(self.by_id@) }
    }
}

/// The first id of `ids` that is repeated earlier in `ids` or already
/// routed, if any.
pub open spec fn first_taken_id(ids: Seq<u8>, routed: Map<u8, Seq<char>>, n: nat) -> Option<u8>
    decreases n,
{
    if n == 0 {
        None
    } else {
        match first_taken_id(ids, routed, (n - 1) as nat) {
            Some(x) => Some(x),
            None => {
                let id = ids[n - 1];
                if routed.contains_key(id) || ids.subrange(0, n - 1).contains(id) {
                    Some(id)
                } else {
                    None
                }
            },
        }
    }
}

/// What inserting `d` into `r` gives: the duplicate name, or the first
/// duplicate external id, refuses it; otherwise the name maps to `d` and
/// each of its ids routes to the name.
pub open spec fn spec_insert(r: RegistryView, d: FighterDefinition) -> Result<RegistryView, FighterRegistryFault> {
    if r.by_name.contains_key(d.name@) {
        Err(FighterRegistryFault::DuplicateName(d.name@))
    } else {
        match first_taken_id(d.external_ids@, r.by_id, d.external_ids@.len()) {
            Some(id) => Err(FighterRegistryFault::DuplicateExternalId(id)),
            None => Ok(RegistryView {
                by_name: r.by_name.insert(d.name@, d),
                by_id: Map::new(
                    |id: u8| r.by_id.contains_key(id) || d.external_ids@.contains(id),
                    |id: u8| if d.external_ids@.contains(id) { d.name@ } else { r.by_id[id] },
                ),
            }),
        }
    }
}

/// Every external id routes to a registered name.
pub open spec fn routes_registered(r: RegistryView) -> bool {
    routes_into(r.by_name, r.by_id)
}

pub open spec fn routes_into(by_name: Map<Seq<char>, FighterDefinition>, by_id: Map<u8, Seq<char>>) -> bool {
    forall|id: u8| #[trigger] by_id.contains_key(id) ==> by_name.contains_key(by_id[id])
}

/// The definition external id `id` routes to.
pub open spec fn route(r: RegistryView, id: u8) -> Option<FighterDefinition> {
    if r.by_id.contains_key(id) && r.by_name.contains_key(r.by_id[id]) {
        Some(r.by_name[r.by_id[id]])
    } else {
        None
    }
}

pub open spec fn names_distinct(s: Seq<(String, FighterDefinition)>) -> bool {
    forall|i: int, j: int| 0 <= i < j < s.len() ==> (#[trigger] s[i]).0@ != (#[trigger] s[j]).0@
}

pub open spec fn ids_distinct(s: Seq<(u8, String)>) -> bool {
    forall|i: int, j: int| 0 <= i < j < s.len() ==> (#[trigger] s[i]).0 != (#[trigger] s[j]).0
}

proof fn lemma_name_map(s: Seq<(String, FighterDefinition)>, key: Seq<char>)
    requires
        names_distinct(s),
    ensures
        name_map(s).contains_key(key) <==> exists|i: int| 0 <= i < s.len() && (#[trigger] s[i]).0@ == key,
        forall|i: int| 0 <= i < s.len() && (#[trigger] s[i]).0@ == key ==> name_map(s)[key] == s[i].1,
    decreases s.len(),
{
    if s.len() > 0 {
        let d = s.drop_last();
        assert(names_distinct(d)) by {
            assert forall|i: int, j: int| 0 <= i < j < d.len() implies (#[trigger] d[i]).0@ != (#[trigger] d[j]).0@ by {
                assert(d[i] == s[i] && d[j] == s[j]);
            }
        }
        lemma_name_map(d, key);
        let last = s.len() - 1;
        assert(s[last] == s.last());
        assert forall|i: int| 0 <= i < s.len() && (#[trigger] s[i]).0@ == key implies name_map(s)[key] == s[i].1 by {
            if i < last {
                assert(d[i] == s[i]);
                assert(s[i].0@ != s[last].0@);
            }
        }
        if exists|i: int| 0 <= i < s.len() && (#[trigger] s[i]).0@ == key {
            let i = choose|i: int| 0 <= i < s.len() && (#[trigger] s[i]).0@ == key;
            if i < last {
                assert(d[i] == s[i]);
            }
        }
        if exists|i: int| 0 <= i < d.len() && (#[trigger] d[i]).0@ == key {
            let i = choose|i: int| 0 <= i < d.len() && (#[trigger] d[i]).0@ == key;
            assert(d[i] == s[i]);
        }
    }
}

proof fn lemma_id_map(s: Seq<(u8, String)>, key: u8)
    requires
        ids_distinct(s),
    ensures
        id_map(s).contains_key(key) <==> exists|i: int| 0 <= i < s.len() && (#[trigger] s[i]).0 == key,
        forall|i: int| 0 <= i < s.len() && (#[trigger] s[i]).0 == key ==> id_map(s)[key] == s[i].1@,
    decreases s.len(),
{
    if s.len() > 0 {
        let d = s.drop_last();
        assert(ids_distinct(d)) by {
            assert forall|i: int, j: int| 0 <= i < j < d.len() implies (#[trigger] d[i]).0 != (#[trigger] d[j]).0 by {
                assert(d[i] == s[i] && d[j] == s[j]);
            }
        }
        lemma_id_map(d, key);
        let last = s.len() - 1;
        assert(s[last] == s.last());
        assert forall|i: int| 0 <= i < s.len() && (#[trigger] s[i]).0 == key implies id_map(s)[key] == s[i].1@ by {
            if i < last {
                assert(d[i] == s[i]);
                assert(s[i].0 != s[last].0);
            }
        }
        if exists|i: int| 0 <= i < s.len() && (#[trigger] s[i]).0 == key {
            let i = choose|i: int| 0 <= i < s.len() && (#[trigger] s[i]).0 == key;
            if i < last {
                assert(d[i] == s[i]);
            }
        }
        if exists|i: int| 0 <= i < d.len() && (#[trigger] d[i]).0 == key {
            let i = choose|i: int| 0 <= i < d.len() && (#[trigger] d[i]).0 == key;
            assert(d[i] == s[i]);
        }
    }
}

fn contains_id(v: &Vec<u8>, upto: usize, id: u8) -> (r: bool)
    requires
        upto <= v@.len(),
    ensures
        r == v@.subrange(0, upto as int).contains(id),
{
    let mut i: usize = 0;
    while i < upto
        invariant
            i <= upto <= v@.len(),
            forall|j: int| 0 <= j < i ==> v@[j] != id,
        decreases upto - i,
    {
        if v[i] == id {
            assert(v@.subrange(0, upto as int)[i as int] == id);
            return true;
        }
        i = i + 1;
    }
    assert forall|j: int| 0 <= j < upto implies v@.subrange(0, upto as int)[j] != id by {
        assert(v@.subrange(0, upto as int)[j] == v@[j]);
    }
    false
}

proof fn lemma_first_taken_stays(ids: Seq<u8>, routed: Map<u8, Seq<char>>, k: nat, n: nat)
    requires
        k <= n,
        first_taken_id(ids, routed, k) is Some,
    ensures
        first_taken_id(ids, routed, n) == first_taken_id(ids, routed, k),
    decreases n - k,
{
    if k < n {
        lemma_first_taken_stays(ids, routed, k, (n - 1) as nat);
    }
}

/// Where an id's entry lies in the table after the new ids were appended.
proof fn lemma_id_entry(table: Seq<(u8, String)>, old_ids: Seq<(u8, String)>, ids: Seq<u8>, name: Seq<char>, id: u8)
    requires
        table.len() == old_ids.len() + ids.len(),
        forall|i: int| 0 <= i < old_ids.len() ==> #[trigger] table[i] == old_ids[i],
        forall|i: int| 0 <= i < ids.len() ==> (#[trigger] table[old_ids.len() + i]).0 == ids[i] && table[old_ids.len() + i].1@ == name,
    ensures
        ids.contains(id) ==> exists|i: int| 0 <= i < table.len() && (#[trigger] table[i]).0 == id && table[i].1@ == name,
        !ids.contains(id) ==> forall|i: int| 0 <= i < table.len() && (#[trigger] table[i]).0 == id ==> i < old_ids.len(),
        (exists|i: int| 0 <= i < table.len() && (#[trigger] table[i]).0 == id)
            <==> (ids.contains(id) || exists|i: int| 0 <= i < old_ids.len() && (#[trigger] old_ids[i]).0 == id),
{
    let n = old_ids.len() as int;
    if ids.contains(id) {
        let p = choose|p: int| 0 <= p < ids.len() && ids[p] == id;
        assert(table[n + p].0 == id);
    }
    assert forall|i: int| 0 <= i < table.len() && !ids.contains(id) && (#[trigger] table[i]).0 == id implies i < n by {
        if i >= n {
            assert(table[n + (i - n)].0 == ids[i - n]);
            assert(ids.contains(ids[i - n]));
        }
    }
    if exists|i: int| 0 <= i < table.len() && (#[trigger] table[i]).0 == id {
        let i = choose|i: int| 0 <= i < table.len() && (#[trigger] table[i]).0 == id;
        if i >= n {
            assert(table[n + (i - n)].0 == ids[i - n]);
            assert(ids.contains(ids[i - n]));
        } else {
            assert(old_ids[i].0 == id);
        }
    }
    if exists|i: int| 0 <= i < old_ids.len() && (#[trigger] old_ids[i]).0 == id {
        let i = choose|i: int| 0 <= i < old_ids.len() && (#[trigger] old_ids[i]).0 == id;
        assert(table[i].0 == id);
    }
}

/// Adding a name keeps every route registered.
proof fn lemma_routes_extend(old_names: Seq<(String, FighterDefinition)>, names: Seq<(String, FighterDefinition)>, ids: Seq<(u8, String)>)
    requires
        names.len() == old_names.len() + 1,
        names.drop_last() == old_names,
        routes_into(name_map(old_names), id_map(ids)),
    ensures
        routes_into(name_map(names), id_map(ids)),
{
    assert forall|id: u8| #[trigger] id_map(ids).contains_key(id) implies name_map(names).contains_key(id_map(ids)[id]) by {
        assert(name_map(old_names).contains_key(id_map(ids)[id]));
    }
}

/// After the insertion both indexes are in place, every route is
/// registered.
proof fn lemma_routes_after_insert(
    old_names: Seq<(String, FighterDefinition)>,
    names: Seq<(String, FighterDefinition)>,
    old_ids: Seq<(u8, String)>,
    table: Seq<(u8, String)>,
    ids: Seq<u8>,
    name: Seq<char>,
)
    requires
        names_distinct(names),
        names.len() == old_names.len() + 1,
        names.drop_last() == old_names,
        names.last().0@ == name,
        ids_distinct(old_ids),
        ids_distinct(table),
        routes_into(name_map(old_names), id_map(old_ids)),
        table.len() == old_ids.len() + ids.len(),
        forall|i: int| 0 <= i < old_ids.len() ==> #[trigger] table[i] == old_ids[i],
        forall|i: int| 0 <= i < ids.len() ==> (#[trigger] table[old_ids.len() + i]).0 == ids[i] && table[old_ids.len() + i].1@ == name,
    ensures
        routes_into(name_map(names), id_map(table)),
{
    assert forall|id: u8| #[trigger] id_map(table).contains_key(id) implies name_map(names).contains_key(id_map(table)[id]) by {
        lemma_id_map(table, id);
        lemma_id_map(old_ids, id);
        lemma_id_entry(table, old_ids, ids, name, id);
        if ids.contains(id) {
            let i = choose|i: int| 0 <= i < table.len() && (#[trigger] table[i]).0 == id && table[i].1@ == name;
            assert(id_map(table)[id] == name);
        } else {
            let i = choose|i: int| 0 <= i < table.len() && (#[trigger] table[i]).0 == id;
            assert(i < old_ids.len());
            assert(old_ids[i].0 == id);
            assert(id_map(table)[id] == id_map(old_ids)[id]);
            assert(name_map(old_names).contains_key(id_map(old_ids)[id]));
        }
    }
}

impl Registry {
    #[verifier::type_invariant]
    closed spec fn keys_distinct(self) -> bool {
        &&& names_distinct(self.by_name@)
        &&& ids_distinct(self.by_id@)
        &&& routes_registered(self@)
    }

    pub fn new() -> (r: Self)
        ensures
            r@.by_name == Map::<Seq<char>, FighterDefinition>::empty(),
            r@.by_id == Map::<u8, Seq<char>>::empty(),
            routes_registered(r@),
    {
        Registry { by_name: Vec::new(), by_id: Vec::new() }
    }

    fn name_index(&self, name: &str) -> (r: Option<usize>)
        ensures
            match r {
                Some(i) => i < self.by_name@.len() && self.by_name@[i as int].0@ == name@,
                None => forall|i: int| 0 <= i < self.by_name@.len() ==> (#[trigger] self.by_name@[i]).0@ != name@,
            },
    {
        let mut i: usize = 0;
        while i < self.by_name.len()
            invariant
                i <= self.by_name.len(),
                forall|j: int| 0 <= j < i ==> (#[trigger] self.by_name@[j]).0@ != name@,
            decreases self.by_name.len() - i,
        {
            if str_eq(self.by_name[i].0.as_str(), name) {
                return Some(i);
            }
            i = i + 1;
        }
        None
    }

    fn id_index(&self, id: u8) -> (r: Option<usize>)
        ensures
            match r {
                Some(i) => i < self.by_id@.len() && self.by_id@[i as int].0 == id,
                None => forall|i: int| 0 <= i < self.by_id@.len() ==> (#[trigger] self.by_id@[i]).0 != id,
            },
    {
        let mut i: usize = 0;
        while i < self.by_id.len()
            invariant
                i <= self.by_id.len(),
                forall|j: int| 0 <= j < i ==> (#[trigger] self.by_id@[j]).0 != id,
            decreases self.by_id.len() - i,
        {
            if self.by_id[i].0 == id {
                return Some(i);
            }
            i = i + 1;
        }
        None
    }

    /// Registers `definition` under its name and external ids.  A
    /// duplicate name, or the first external id that repeats or is already
    /// routed, refuses it and leaves the registry unchanged.
    pub fn insert(&mut self, definition: FighterDefinition) -> (r: Result<(), FighterRegistryError>)
        ensures
            match spec_insert(old(self)@, definition) {
                Ok(v) => r is Ok && final(self)@ == v,
                Err(f) => r matches Err(e) && e@ == f && final(self)@ == old(self)@,
            },
            routes_registered(final(self)@),
    {
        proof {
            use_type_invariant(&*self);
            lemma_name_map(self.by_name@, definition.name@);
        }
        assert(routes_registered(old(self)@));
        if self.name_index(definition.name.as_str()).is_some() {
            return Err(FighterRegistryError::DuplicateName(definition.name.clone()));
        }
        let ghost routed = id_map(self.by_id@);
        let ghost ids = definition.external_ids@;
        let mut k: usize = 0;
        while k < definition.external_ids.len()
            invariant
                k <= definition.external_ids.len(),
                ids == definition.external_ids@,
                routed == id_map(self.by_id@),
                ids_distinct(self.by_id@),
                self@ == old(self)@,
                routes_registered(old(self)@),
                !old(self)@.by_name.contains_key(definition.name@),
                first_taken_id(ids, routed, k as nat) is None,
                forall|j: int| 0 <= j < k ==> !routed.contains_key(#[trigger] ids[j]) && !ids.subrange(0, j).contains(ids[j]),
            decreases definition.external_ids.len() - k,
        {
            let id = definition.external_ids[k];
            proof {
                lemma_id_map(self.by_id@, id);
            }
            let routed_here = self.id_index(id).is_some();
            let repeated = contains_id(&definition.external_ids, k, id);
            if routed_here || repeated {
                assert(first_taken_id(ids, routed, (k + 1) as nat) == Some(id));
                proof {
                    lemma_first_taken_stays(ids, routed, (k + 1) as nat, ids.len());
                }
                return Err(FighterRegistryError::DuplicateExternalId(id));
            }
            k = k + 1;
        }
        let ghost old_ids = self.by_id@;
        let ghost old_len = old_ids.len();
        let name = definition.name.clone();
        let mut table: Vec<(u8, String)> = Vec::new();
        std::mem::swap(&mut table, &mut self.by_id);
        let mut k: usize = 0;
        while k < definition.external_ids.len()
            invariant
                k <= definition.external_ids.len(),
                ids == definition.external_ids@,
                name@ == definition.name@,
                old_ids.len() == old_len,
                routed == id_map(old_ids),
                ids_distinct(old_ids),
                forall|j: int| 0 <= j < ids.len() ==> !routed.contains_key(#[trigger] ids[j]) && !ids.subrange(0, j).contains(ids[j]),
                table@.len() == old_len + k,
                forall|i: int| 0 <= i < old_len ==> #[trigger] table@[i] == old_ids[i],
                forall|i: int| 0 <= i < k ==> (#[trigger] table@[old_len + i]).0 == ids[i] && table@[old_len + i].1@ == name@,
                ids_distinct(table@),
            decreases definition.external_ids.len() - k,
        {
            let id = definition.external_ids[k];
            proof {
                lemma_id_map(old_ids, id);
                assert(id == ids[k as int]);
                assert(!routed.contains_key(id));
                assert(!ids.subrange(0, k as int).contains(id));
                assert forall|i: int| 0 <= i < table@.len() implies (#[trigger] table@[i]).0 != id by {
                    if i < old_len {
                        if old_ids[i].0 == id {
                            assert(routed.contains_key(id));
                        }
                    } else {
                        let j = i - old_len;
                        assert(table@[old_len + j].0 == ids[j]);
                        assert(ids.subrange(0, k as int)[j] == ids[j]);
                    }
                }
            }
            let ghost before = table@;
            table.push((id, name.clone()));
            proof {
                assert forall|i: int, j: int| 0 <= i < j < table@.len() implies (#[trigger] table@[i]).0 != (#[trigger] table@[j]).0 by {
                    if j < before.len() {
                        assert(table@[i] == before[i] && table@[j] == before[j]);
                    } else {
                        assert(table@[i] == before[i]);
                    }
                }
                assert forall|i: int| 0 <= i < old_len implies #[trigger] table@[i] == old_ids[i] by {
                    assert(table@[i] == before[i]);
                }
                assert forall|i: int| 0 <= i < k + 1 implies (#[trigger] table@[old_len + i]).0 == ids[i] && table@[old_len + i].1@ == name@ by {
                    if i < k {
                        assert(table@[old_len + i] == before[old_len + i]);
                    }
                }
            }
            k = k + 1;
        }
        let ghost old_names = self.by_name@;
        let mut names: Vec<(String, FighterDefinition)> = Vec::new();
        std::mem::swap(&mut names, &mut self.by_name);
        proof {
            lemma_name_map(old_names, definition.name@);
            assert forall|i: int, j: int| 0 <= i < j < old_names.push((name, definition)).len()
                implies (#[trigger] old_names.push((name, definition))[i]).0@ != (#[trigger] old_names.push((name, definition))[j]).0@ by {
                if j < old_names.len() {
                    assert(old_names.push((name, definition))[i] == old_names[i]);
                    assert(old_names.push((name, definition))[j] == old_names[j]);
                } else {
                    assert(old_names.push((name, definition))[i] == old_names[i]);
                }
            }
        }
        let ghost def = definition;
        names.push((name, definition));
        assert(names@.drop_last() =~= old_names);
        proof {
            lemma_routes_extend(old_names, names@, self.by_id@);
        }
        self.by_name = names;
        proof {
            lemma_routes_after_insert(old_names, names@, old_ids, table@, ids, def.name@);
        }
        self.by_id = table;
        proof {
            let target = Map::new(
                |id: u8| routed.contains_key(id) || ids.contains(id),
                |id: u8| if ids.contains(id) { def.name@ } else { routed[id] },
            );
            assert forall|id: u8| #[trigger] id_map(self.by_id@).contains_key(id) == target.contains_key(id) by {
                lemma_id_map(self.by_id@, id);
                lemma_id_map(old_ids, id);
                lemma_id_entry(self.by_id@, old_ids, ids, def.name@, id);
            }
            assert forall|id: u8| #[trigger] id_map(self.by_id@).contains_key(id) implies id_map(self.by_id@)[id] == target[id] by {
                lemma_id_map(self.by_id@, id);
                lemma_id_map(old_ids, id);
                lemma_id_entry(self.by_id@, old_ids, ids, def.name@, id);
            }
            assert(id_map(self.by_id@) =~= target);
        }
        Ok(())
    }

    /// The definition registered under `name`.
    pub fn get(&self, name: &str) -> (r: Option<&FighterDefinition>)
        ensures
            match r {
                Some(d) => self@.by_name.contains_key(name@) && self@.by_name[name@] == *d,
                None => !self@.by_name.contains_key(name@),
            },
    {
        proof {
            use_type_invariant(self);
            lemma_name_map(self.by_name@, name@);
        }
        match self.name_index(name) {
            Some(i) => Some(&self.by_name[i].1),
            None => None,
        }
    }

    /// The definition external id `id` routes to.
    pub fn by_external_id(&self, id: u8) -> (r: Option<&FighterDefinition>)
        ensures
            match r {
                Some(d) => route(self@, id) == Some(*d),
                None => route(self@, id) is None,
            },
    {
        proof {
            use_type_invariant(self);
            lemma_id_map(self.by_id@, id);
        }
        match self.id_index(id) {
            Some(i) => self.get(self.by_id[i].1.as_str()),
            None => None,
        }
    }

    /// The definition registered under `name`, or why there is none.
    pub fn resolve(&self, name: &str) -> (r: Result<&FighterDefinition, FighterRegistryError>)
        ensures
            match r {
                Ok(d) => self@.by_name.contains_key(name@) && self@.by_name[name@] == *d,
                Err(e) => !self@.by_name.contains_key(name@) && e@ == FighterRegistryFault::UnknownFighter(name@),
            },
    {
        match self.get(name) {
            Some(d) => Ok(d),
            None => Err(FighterRegistryError::UnknownFighter(name.to_owned())),
        }
    }
}


/// After a definition is registered, each of its external ids routes to it,
/// its name resolves to it, and every other id routes where it did before.
pub proof fn law_insert_routes(r: RegistryView, d: FighterDefinition, id: u8, other: Seq<char>)
    requires
        routes_registered(r),
    ensures
        spec_insert(r, d) matches Ok(v) ==> {
            &&& v.by_name.contains_key(d.name@) && v.by_name[d.name@] == d
            &&& other != d.name@ ==> (v.by_name.contains_key(other) == r.by_name.contains_key(other)
                && (r.by_name.contains_key(other) ==> v.by_name[other] == r.by_name[other]))
            &&& d.external_ids@.contains(id) ==> route(v, id) == Some(d)
            &&& !d.external_ids@.contains(id) ==> route(v, id) == route(r, id)
            &&& routes_registered(v)
        },
{
    if let Ok(v) = spec_insert(r, d) {
        if r.by_id.contains_key(id) {
            assert(r.by_name.contains_key(r.by_id[id]));
        }
        assert forall|x: u8| #[trigger] v.by_id.contains_key(x) implies v.by_name.contains_key(v.by_id[x]) by {
            if !d.external_ids@.contains(x) {
                assert(r.by_name.contains_key(r.by_id[x]));
            }
        }
    }
}

/// The replay state and animation ids of `action` for the fighter that
/// external character id `character` routes to in `registry`.
pub fn builtin_slippi_ids(registry: &Registry, character: Option<u8>, action: Action) -> (r: Option<(u32, u32)>)
    ensures
        r == match character {
            Some(id) => match route(registry@, id) {
                Some(d) => match spec_action(d, action) {
                    Some(a) => if a.slippi_state is Some && a.animation is Some {
                        Some((a.slippi_state->0, a.animation->0))
                    } else {
                        None
                    },
                    None => None,
                },
                None => None,
            },
            None => None,
        },
{
    let id = match character {
        Some(id) => id,
        None => {
            return None;
        },
    };
    match registry.by_external_id(id) {
        Some(d) => d.slippi_ids(action),
        None => None,
    }
}

/// The replay state id of `action` for the fighter that external
/// character id `character` routes to in `registry`; no animation id is
/// needed.
pub fn builtin_slippi_state(registry: &Registry, character: Option<u8>, action: Action) -> (r: Option<u32>)
    ensures
        r == match character {
            Some(id) => match route(registry@, id) {
                Some(d) => match spec_action(d, action) {
                    Some(a) => a.slippi_state,
                    None => None,
                },
                None => None,
            },
            None => None,
        },
{
    let id = match character {
        Some(id) => id,
        None => {
            return None;
        },
    };
    match registry.by_external_id(id) {
        Some(d) => d.slippi_state(action),
        None => None,
    }
}

} // verus!
