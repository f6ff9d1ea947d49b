//! Registration-time dispatch index from an action to the bindings that
//! name it.
//!
//! A binding is one entry of an ordered declaration list (a marker, a
//! countdown, a clock or a frame deadline) together with the actions that
//! own it.  The index answers, for one action, the binding positions in
//! declaration order, so dispatch keeps authored order at equal frames.

use vstd::prelude::*;
use crate::action::Action;

verus! {

/// Number of times `a` occurs in `s`.
pub open spec fn occurrences(s: Seq<Action>, a: Action) -> nat
    decreases s.len(),
{
    if s.len() == 0 {
        0
    } else {
        occurrences(s.drop_last(), a) + if s.last() == a { 1nat } else { 0nat }
    }
}

/// The binding positions that `a` selects, in declaration order: binding
/// `i` appears once for every time `a` occurs in its action list.
pub open spec fn bindings_for(sets: Seq<Seq<Action>>, a: Action) -> Seq<usize>
    decreases sets.len(),
{
    if sets.len() == 0 {
        Seq::empty()
    } else {
        bindings_for(sets.drop_last(), a) + Seq::new(
            occurrences(sets.last(), a),
            |_k: int| (sets.len() - 1) as usize,
        )
    }
}

/// One index record: an action and the binding positions it selects.
#[derive(Debug)]
pub struct IndexEntry {
    pub action: Action,
    pub bindings: Vec<usize>,
}

/// Bindings recorded for `a`: those of the first entry keyed by `a`.
pub open spec fn lookup(entries: Seq<IndexEntry>, a: Action) -> Seq<usize>
    decreases entries.len(),
{
    if entries.len() == 0 {
        Seq::empty()
    } else if entries[0].action == a {
        entries[0].bindings@
    } else {
        lookup(entries.drop_first(), a)
    }
}

/// An action-to-bindings index.
#[derive(Debug)]
pub struct ActionIndex {
    pub entries: Vec<IndexEntry>,
}

impl ActionIndex {
    /// The index answers `bindings_for(sets, a)` for every action `a`.
    pub open spec fn indexes(&self, sets: Seq<Seq<Action>>) -> bool {
        forall|a: Action| #[trigger] lookup(self.entries@, a) == bindings_for(sets, a)
    }

    /// The binding positions recorded for `action`, in declaration order.
    pub fn get(&self, action: Action) -> (r: &[usize])
        ensures
            r@ == lookup(self.entries@, action),
    {
        let mut k: usize = 0;
        assert(self.entries@.subrange(0, self.entries@.len() as int) =~= self.entries@);
        while k < self.entries.len()
            invariant
                k <= self.entries.len(),
                lookup(self.entries@, action) == lookup(self.entries@.subrange(k as int, self.entries@.len() as int), action),
            decreases self.entries.len() - k,
        {
            let ghost rest = self.entries@.subrange(k as int, self.entries@.len() as int);
            if self.entries[k].action == action {
                assert(rest[0] == self.entries@[k as int]);
                return self.entries[k].bindings.as_slice();
            }
            assert(rest.drop_first() =~= self.entries@.subrange(k + 1, self.entries@.len() as int));
            k = k + 1;
        }
        assert(self.entries@.subrange(k as int, self.entries@.len() as int) =~= Seq::<IndexEntry>::empty());
        let empty: &[usize] = &[];
        assert(empty@ =~= Seq::<usize>::empty());
        empty
    }
}

proof fn lemma_lookup_update(entries: Seq<IndexEntry>, k: int, e: IndexEntry, a: Action)
    requires
        0 <= k < entries.len(),
        entries[k].action == e.action,
        forall|j: int| 0 <= j < k ==> entries[j].action != e.action,
    ensures
        lookup(entries.update(k, e), a) == if a == e.action { e.bindings@ } else { lookup(entries, a) },
    decreases k,
{
    let u = entries.update(k, e);
    if k == 0 {
        if a != e.action {
            assert(u.drop_first() =~= entries.drop_first());
        }
    } else {
        assert(u.drop_first() =~= entries.drop_first().update(k - 1, e));
        lemma_lookup_update(entries.drop_first(), k - 1, e, a);
    }
}

proof fn lemma_lookup_push(entries: Seq<IndexEntry>, e: IndexEntry, a: Action)
    requires
        forall|j: int| 0 <= j < entries.len() ==> entries[j].action != e.action,
    ensures
        lookup(entries.push(e), a) == if a == e.action { e.bindings@ } else { lookup(entries, a) },
    decreases entries.len(),
{
    let p = entries.push(e);
    if entries.len() == 0 {
        assert(p[0] == e);
        if a != e.action {
            assert(p.drop_first() =~= Seq::<IndexEntry>::empty());
            assert(lookup(p.drop_first(), a) == Seq::<usize>::empty());
        }
    } else {
        assert(p[0] == entries[0]);
        if entries[0].action != a {
            assert(p.drop_first() =~= entries.drop_first().push(e));
            lemma_lookup_push(entries.drop_first(), e, a);
        } else {
            assert(entries[0].action != e.action);
        }
    }
}

proof fn lemma_occurrences_push(s: Seq<Action>, b: Action, a: Action)
    ensures
        occurrences(s.push(b), a) == occurrences(s, a) + if b == a { 1nat } else { 0nat },
{
    assert(s.push(b).drop_last() =~= s);
}

/// Every binding position that `bindings_for` yields is a position of `sets`.
pub proof fn lemma_bindings_in_range(sets: Seq<Seq<Action>>, a: Action)
    ensures
        forall|j: int| 0 <= j < bindings_for(sets, a).len() ==> #[trigger] bindings_for(sets, a)[j] < sets.len(),
    decreases sets.len(),
{
    if sets.len() > 0 {
        lemma_bindings_in_range(sets.drop_last(), a);
        let front = bindings_for(sets.drop_last(), a);
        let back = Seq::new(occurrences(sets.last(), a), |_k: int| (sets.len() - 1) as usize);
        assert forall|j: int| 0 <= j < bindings_for(sets, a).len() implies #[trigger] bindings_for(sets, a)[j] < sets.len() by {
            if j < front.len() {
                assert(bindings_for(sets, a)[j] == front[j]);
            } else {
                assert(bindings_for(sets, a)[j] == back[j - front.len()]);
            }
        }
    }
}

/// Copy of an action list.
pub fn copy_actions(actions: &Vec<Action>) -> (r: Vec<Action>)
    ensures
        r@ == actions@,
{
    let mut r: Vec<Action> = Vec::new();
    let mut i: usize = 0;
    while i < actions.len()
        invariant
            i <= actions.len(),
            r@ == actions@.subrange(0, i as int),
        decreases actions.len() - i,
    {
        r.push(actions[i]);
        i = i + 1;
        assert(r@ =~= actions@.subrange(0, i as int));
    }
    assert(r@ =~= actions@);
    r
}

/// Build the index of `sets`: binding `i` is recorded under every action of
/// `sets[i]`, in declaration order.
pub fn index_actions(sets: &Vec<Vec<Action>>) -> (r: ActionIndex)
    ensures
        r.indexes(sets@.map_values(|s: Vec<Action>| s@)),
{
    let ghost views = sets@.map_values(|s: Vec<Action>| s@);
    let mut entries: Vec<IndexEntry> = Vec::new();
    let mut i: usize = 0;
    while i < sets.len()
        invariant
            i <= sets.len(),
            views == sets@.map_values(|s: Vec<Action>| s@),
            forall|a: Action| #[trigger] lookup(entries@, a) == bindings_for(views.subrange(0, i as int), a),
        decreases sets.len() - i,
    {
        let actions = &sets[i];
        let ghost before = views.subrange(0, i as int);
        let mut j: usize = 0;
        while j < actions.len()
            invariant
                i < sets.len(),
                actions@ == views[i as int],
                j <= actions.len(),
                before == views.subrange(0, i as int),
                forall|a: Action| #[trigger] lookup(entries@, a) == bindings_for(before, a) + Seq::new(
                    occurrences(actions@.subrange(0, j as int), a),
                    |_k: int| i,
                ),
            decreases actions.len() - j,
        {
            let b = actions[j];
            let ghost prior = entries@;
            let mut k: usize = 0;
            while k < entries.len() && entries[k].action != b
                invariant
                    k <= entries.len(),
                    forall|m: int| 0 <= m < k ==> entries@[m].action != b,
                decreases entries.len() - k,
            {
                k = k + 1;
            }
            if k < entries.len() {
                let mut entry = entries.remove(k);
                let ghost old_bindings = entry.bindings@;
                entry.bindings.push(i);
                let ghost new_entry = entry;
                entries.insert(k, entry);
                assert(entries@ =~= prior.update(k as int, new_entry));
                assert forall|a: Action| #[trigger] lookup(entries@, a) == bindings_for(before, a) + Seq::new(
                    occurrences(actions@.subrange(0, j + 1), a),
                    |_k: int| i,
                ) by {
                    lemma_lookup_update(prior, k as int, new_entry, a);
                    assert(actions@.subrange(0, j + 1) =~= actions@.subrange(0, j as int).push(b));
                    lemma_occurrences_push(actions@.subrange(0, j as int), b, a);
                    if a == b {
                        lemma_lookup_first(prior, k as int);
                        assert(lookup(prior, a) == old_bindings);
                        assert(new_entry.bindings@ =~= bindings_for(before, a) + Seq::new(
                            occurrences(actions@.subrange(0, j + 1), a),
                            |_k: int| i,
                        ));
                    }
                }
            } else {
                let mut fresh: Vec<usize> = Vec::new();
                fresh.push(i);
                let new_entry = IndexEntry { action: b, bindings: fresh };
                let ghost ne = new_entry;
                entries.push(new_entry);
                assert forall|a: Action| #[trigger] lookup(entries@, a) == bindings_for(before, a) + Seq::new(
                    occurrences(actions@.subrange(0, j + 1), a),
                    |_k: int| i,
                ) by {
                    lemma_lookup_push(prior, ne, a);
                    assert(actions@.subrange(0, j + 1) =~= actions@.subrange(0, j as int).push(b));
                    lemma_occurrences_push(actions@.subrange(0, j as int), b, a);
                    if a == b {
                        assert(lookup(prior, a) == Seq::<usize>::empty()) by {
                            lemma_lookup_absent(prior, a);
                        }
                        assert(bindings_for(before, a) + Seq::new(
                            occurrences(actions@.subrange(0, j as int), a),
                            |_k: int| i,
                        ) == Seq::<usize>::empty());
                        assert(Seq::new(occurrences(actions@.subrange(0, j + 1), a), |_k: int| i) =~= seq![i]);
                        assert(bindings_for(before, a).len() == 0);
                        assert(ne.bindings@ =~= bindings_for(before, a) + Seq::new(
                            occurrences(actions@.subrange(0, j + 1), a),
                            |_k: int| i,
                        ));
                    }
                }
            }
            j = j + 1;
        }
        proof {
            let next = views.subrange(0, i + 1);
            assert(next.drop_last() =~= before);
            assert(next.last() == views[i as int]);
            assert(actions@.subrange(0, j as int) =~= actions@);
            assert forall|a: Action| #[trigger] lookup(entries@, a) == bindings_for(next, a) by {
                assert(Seq::new(occurrences(actions@.subrange(0, j as int), a), |_k: int| i)
                    =~= Seq::new(occurrences(next.last(), a), |_k: int| (next.len() - 1) as usize));
            }
        }
        i = i + 1;
    }
    assert(views.subrange(0, i as int) =~= views);
    ActionIndex { entries }
}

proof fn lemma_lookup_first(entries: Seq<IndexEntry>, k: int)
    requires
        0 <= k < entries.len(),
        forall|j: int| 0 <= j < k ==> entries[j].action != entries[k].action,
    ensures
        lookup(entries, entries[k].action) == entries[k].bindings@,
    decreases k,
{
    if k > 0 {
        assert(entries.drop_first()[k - 1] == entries[k]);
        lemma_lookup_first(entries.drop_first(), k - 1);
    }
}

proof fn lemma_lookup_absent(entries: Seq<IndexEntry>, a: Action)
    requires
        forall|j: int| 0 <= j < entries.len() ==> entries[j].action != a,
    ensures
        lookup(entries, a) == Seq::<usize>::empty(),
    decreases entries.len(),
{
    if entries.len() > 0 {
        lemma_lookup_absent(entries.drop_first(), a);
    }
}

} // verus!
