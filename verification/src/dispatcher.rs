//! A fixed native event table: which subscriptions an event kind reaches.
//!
//! There is no wildcard key and no callback value to invoke, which keeps
//! dispatch structurally unable to self-register work.  Frontends compile
//! their event declarations into this table once at resource load.

use vstd::prelude::*;
use crate::definition::Hook;
use crate::events::{DispatchError, OwnerId, SubscriptionId, MAX_SUBSCRIPTIONS};

verus! {

/// A live subscription: its identity, its owner and the hook it listens to.
pub type Subscription = (SubscriptionId, OwnerId, Hook);

/// Subscriptions in ascending identity order, below `next`.
pub open spec fn ordered_below(s: Seq<Subscription>, next: u64) -> bool {
    &&& forall|i: int, j: int| 0 <= i < j < s.len() ==> (#[trigger] s[i]).0.0 < (#[trigger] s[j]).0.0
    &&& forall|i: int| 0 <= i < s.len() ==> (#[trigger] s[i]).0.0 < next
}

/// The identities of the subscriptions to `kind`, in order.
pub open spec fn subscribers(s: Seq<Subscription>, kind: Hook) -> Seq<SubscriptionId>
    decreases s.len(),
{
    if s.len() == 0 {
        Seq::empty()
    } else {
        subscribers(s.drop_last(), kind) + if s.last().2 == kind { seq![s.last().0] } else { Seq::empty() }
    }
}

/// The subscriptions that `keep` accepts, in order.
pub open spec fn retain(s: Seq<Subscription>, keep: spec_fn(Subscription) -> bool) -> Seq<Subscription>
    decreases s.len(),
{
    if s.len() == 0 {
        Seq::empty()
    } else {
        retain(s.drop_last(), keep) + if keep(s.last()) { seq![s.last()] } else { Seq::empty() }
    }
}

/// The native event table.
#[derive(Debug)]
pub struct Dispatcher {
    entries: Vec<Subscription>,
    next_id: u64,
}

/// The mathematical content of a dispatcher.
pub struct DispatcherView {
    pub entries: Seq<Subscription>,
    pub next_id: u64,
}

impl View for Dispatcher {
    type V = DispatcherView;

    closed spec fn view(&self) -> DispatcherView {
        DispatcherView { entries: self.entries@, next_id: self.next_id }
    }
}

proof fn lemma_retain_below(s: Seq<Subscription>, keep: spec_fn(Subscription) -> bool, bound: u64)
    requires
        forall|i: int| 0 <= i < s.len() ==> (#[trigger] s[i]).0.0 < bound,
    ensures
        forall|i: int| 0 <= i < retain(s, keep).len() ==> (#[trigger] retain(s, keep)[i]).0.0 < bound,
    decreases s.len(),
{
    if s.len() > 0 {
        let d = s.drop_last();
        assert forall|i: int| 0 <= i < d.len() implies (#[trigger] d[i]).0.0 < bound by {
            assert(d[i] == s[i]);
        }
        lemma_retain_below(d, keep, bound);
        let r = retain(s, keep);
        let p = retain(d, keep);
        assert forall|i: int| 0 <= i < r.len() implies (#[trigger] r[i]).0.0 < bound by {
            if i < p.len() {
                assert(r[i] == p[i]);
            } else {
                assert(s[s.len() - 1].0.0 < bound);
            }
        }
    }
}

proof fn lemma_retain_ordered(s: Seq<Subscription>, keep: spec_fn(Subscription) -> bool, next: u64)
    requires
        ordered_below(s, next),
    ensures
        ordered_below(retain(s, keep), next),
    decreases s.len(),
{
    if s.len() > 0 {
        let d = s.drop_last();
        assert forall|i: int, j: int| 0 <= i < j < d.len() implies (#[trigger] d[i]).0.0 < (#[trigger] d[j]).0.0 by {
            assert(d[i] == s[i] && d[j] == s[j]);
        }
        assert forall|i: int| 0 <= i < d.len() implies (#[trigger] d[i]).0.0 < next by {
            assert(d[i] == s[i]);
        }
        lemma_retain_ordered(d, keep, next);
        assert forall|i: int| 0 <= i < d.len() implies (#[trigger] d[i]).0.0 < s.last().0.0 by {
            assert(d[i] == s[i]);
            assert(s[s.len() - 1] == s.last());
        }
        lemma_retain_below(d, keep, s.last().0.0);
        let p = retain(d, keep);
        let r = retain(s, keep);
        if keep(s.last()) {
            assert(r == p.push(s.last()));
            assert forall|i: int, j: int| 0 <= i < j < r.len() implies (#[trigger] r[i]).0.0 < (#[trigger] r[j]).0.0 by {
                if j == r.len() - 1 {
                    assert(r[i] == p[i]);
                } else {
                    assert(r[i] == p[i] && r[j] == p[j]);
                }
            }
            assert forall|i: int| 0 <= i < r.len() implies (#[trigger] r[i]).0.0 < next by {
                if i < p.len() {
                    assert(r[i] == p[i]);
                } else {
                    assert(s[s.len() - 1].0.0 < next);
                }
            }
        } else {
            assert(r =~= p);
        }
    }
}

impl Dispatcher {
    #[verifier::type_invariant]
    closed spec fn well_ordered(self) -> bool {
        ordered_below(self.entries@, self.next_id)
    }

    /// An empty table whose first identity is `1`.
    pub fn new() -> (r: Self)
        ensures
            r@.entries.len() == 0,
            r@.next_id == 1,
    {
        Dispatcher { entries: Vec::new(), next_id: 1 }
    }

    /// Subscribes `owner` to `kind`.
    pub fn subscribe(&mut self, owner: OwnerId, kind: Hook) -> (r: Result<SubscriptionId, DispatchError>)
        ensures
            old(self)@.entries.len() >= MAX_SUBSCRIPTIONS ==> (r == Err::<SubscriptionId, DispatchError>(DispatchError::TooManySubscriptions)
                && final(self)@ == old(self)@),
            old(self)@.entries.len() < MAX_SUBSCRIPTIONS && old(self)@.next_id == u64::MAX
                ==> (r == Err::<SubscriptionId, DispatchError>(DispatchError::IdExhausted) && final(self)@ == old(self)@),
            old(self)@.entries.len() < MAX_SUBSCRIPTIONS && old(self)@.next_id < u64::MAX ==> (
                r == Ok::<SubscriptionId, DispatchError>(SubscriptionId(old(self)@.next_id))
                && final(self)@.entries == old(self)@.entries.push((SubscriptionId(old(self)@.next_id), owner, kind))
                && final(self)@.next_id == old(self)@.next_id + 1),
    {
        proof {
            use_type_invariant(&*self);
        }
        if self.entries.len() >= MAX_SUBSCRIPTIONS {
            return Err(DispatchError::TooManySubscriptions);
        }
        if self.next_id == u64::MAX {
            return Err(DispatchError::IdExhausted);
        }
        let id = SubscriptionId(self.next_id);
        let mut entries: Vec<Subscription> = Vec::new();
        std::mem::swap(&mut entries, &mut self.entries);
        let ghost old_entries = entries@;
        entries.push((id, owner, kind));
        proof {
            assert forall|i: int, j: int| 0 <= i < j < entries@.len() implies (#[trigger] entries@[i]).0.0 < (#[trigger] entries@[j]).0.0 by {
                if j < old_entries.len() {
                    assert(entries@[i] == old_entries[i] && entries@[j] == old_entries[j]);
                } else {
                    assert(entries@[i] == old_entries[i]);
                }
            }
        }
        self.next_id = self.next_id + 1;
        self.entries = entries;
        Ok(id)
    }

    /// Cancels subscription `id`; whether it was live.
    pub fn cancel(&mut self, id: SubscriptionId) -> (r: bool)
        ensures
            r == exists|i: int| 0 <= i < old(self)@.entries.len() && (#[trigger] old(self)@.entries[i]).0 == id,
            final(self)@.entries == retain(old(self)@.entries, |e: Subscription| e.0 != id),
            final(self)@.next_id == old(self)@.next_id,
    {
        proof {
            use_type_invariant(&*self);
        }
        let ghost keep = |e: Subscription| e.0 != id;
        let ghost old_entries = self.entries@;
        let mut kept: Vec<Subscription> = Vec::new();
        let mut found = false;
        let mut i: usize = 0;
        assert(old_entries.take(0) =~= Seq::<Subscription>::empty());
        while i < self.entries.len()
            invariant
                i <= self.entries.len(),
                old_entries == self.entries@,
                keep == (|e: Subscription| e.0 != id),
                kept@ == retain(old_entries.take(i as int), keep),
                found == exists|k: int| 0 <= k < i && (#[trigger] old_entries[k]).0 == id,
            decreases self.entries.len() - i,
        {
            let e = self.entries[i];
            assert(old_entries.take(i + 1).drop_last() =~= old_entries.take(i as int));
            assert(old_entries.take(i + 1).last() == e);
            if e.0.0 == id.0 {
                found = true;
            } else {
                kept.push(e);
            }
            i = i + 1;
        }
        assert(old_entries.take(old_entries.len() as int) =~= old_entries);
        assert(i == old_entries.len());
        assert(old_entries == old(self)@.entries);
        assert(found == exists|k: int| 0 <= k < old_entries.len() && (#[trigger] old_entries[k]).0 == id);
        proof {
            lemma_retain_ordered(old_entries, keep, self.next_id);
        }
        self.entries = kept;
        found
    }

    /// Cancels every subscription of `owner`.
    pub fn cancel_owner(&mut self, owner: OwnerId)
        ensures
            final(self)@.entries == retain(old(self)@.entries, |e: Subscription| e.1 != owner),
            final(self)@.next_id == old(self)@.next_id,
    {
        proof {
            use_type_invariant(&*self);
        }
        let ghost keep = |e: Subscription| e.1 != owner;
        let ghost old_entries = self.entries@;
        let mut kept: Vec<Subscription> = Vec::new();
        let mut i: usize = 0;
        assert(old_entries.take(0) =~= Seq::<Subscription>::empty());
        while i < self.entries.len()
            invariant
                i <= self.entries.len(),
                old_entries == self.entries@,
                keep == (|e: Subscription| e.1 != owner),
                kept@ == retain(old_entries.take(i as int), keep),
            decreases self.entries.len() - i,
        {
            let e = self.entries[i];
            assert(old_entries.take(i + 1).drop_last() =~= old_entries.take(i as int));
            assert(old_entries.take(i + 1).last() == e);
            if e.1.0 != owner.0 {
                kept.push(e);
            }
            i = i + 1;
        }
        assert(old_entries.take(old_entries.len() as int) =~= old_entries);
        proof {
            lemma_retain_ordered(old_entries, keep, self.next_id);
        }
        self.entries = kept;
    }

    /// The subscriptions `kind` reaches, in ascending identity order.
    pub fn dispatch(&self, kind: Hook) -> (r: Vec<SubscriptionId>)
        ensures
            r@ == subscribers(self@.entries, kind),
            forall|i: int, j: int| 0 <= i < j < r.len() ==> (#[trigger] r@[i]).0 < (#[trigger] r@[j]).0,
    {
        proof {
            use_type_invariant(self);
            law_dispatch_in_registration_order(self.entries@, self.next_id, kind);
        }
        let ghost all = self.entries@;
        let mut out: Vec<SubscriptionId> = Vec::new();
        let mut i: usize = 0;
        assert(all.take(0) =~= Seq::<Subscription>::empty());
        while i < self.entries.len()
            invariant
                i <= self.entries.len(),
                all == self.entries@,
                out@ == subscribers(all.take(i as int), kind),
            decreases self.entries.len() - i,
        {
            let e = self.entries[i];
            assert(all.take(i + 1).drop_last() =~= all.take(i as int));
            assert(all.take(i + 1).last() == e);
            if e.2 == kind {
                out.push(e.0);
            }
            i = i + 1;
        }
        assert(all.take(all.len() as int) =~= all);
        out
    }

    /// The number of live subscriptions.
    pub fn len(&self) -> (r: usize)
        ensures
            r == self@.entries.len(),
    {
        self.entries.len()
    }

    pub fn is_empty(&self) -> (r: bool)
        ensures
            r == (self@.entries.len() == 0),
    {
        self.entries.len() == 0
    }
}

impl Default for Dispatcher {
    fn default() -> (r: Self)
        ensures
            r@.entries.len() == 0,
            r@.next_id == 1,
    {
        Dispatcher::new()
    }
}

/// Dispatch returns subscriptions in ascending identity order, which is
/// the order they were made in.
pub proof fn law_dispatch_in_registration_order(s: Seq<Subscription>, next: u64, kind: Hook)
    requires
        ordered_below(s, next),
    ensures
        forall|i: int, j: int| 0 <= i < j < subscribers(s, kind).len() ==>
            (#[trigger] subscribers(s, kind)[i]).0 < (#[trigger] subscribers(s, kind)[j]).0,
    decreases s.len(),
{
    if s.len() > 0 {
        let d = s.drop_last();
        assert forall|i: int, j: int| 0 <= i < j < d.len() implies (#[trigger] d[i]).0.0 < (#[trigger] d[j]).0.0 by {
            assert(d[i] == s[i] && d[j] == s[j]);
        }
        assert forall|i: int| 0 <= i < d.len() implies (#[trigger] d[i]).0.0 < next by {
            assert(d[i] == s[i]);
        }
        law_dispatch_in_registration_order(d, next, kind);
        lemma_subscribers_below(d, kind, s.last().0.0);
        let p = subscribers(d, kind);
        let r = subscribers(s, kind);
        if s.last().2 == kind {
            assert forall|i: int, j: int| 0 <= i < j < r.len() implies (#[trigger] r[i]).0 < (#[trigger] r[j]).0 by {
                assert(r[i] == p[i]);
                if j < p.len() {
                    assert(r[j] == p[j]);
                }
            }
        } else {
            assert(r =~= p);
        }
    }
}

proof fn lemma_subscribers_below(s: Seq<Subscription>, kind: Hook, bound: u64)
    requires
        forall|i: int| 0 <= i < s.len() ==> (#[trigger] s[i]).0.0 < bound,
    ensures
        forall|i: int| 0 <= i < subscribers(s, kind).len() ==> (#[trigger] subscribers(s, kind)[i]).0 < bound,
    decreases s.len(),
{
    if s.len() > 0 {
        let d = s.drop_last();
        assert forall|i: int| 0 <= i < d.len() implies (#[trigger] d[i]).0.0 < bound by {
            assert(d[i] == s[i]);
        }
        lemma_subscribers_below(d, kind, bound);
        let r = subscribers(s, kind);
        let p = subscribers(d, kind);
        assert forall|i: int| 0 <= i < r.len() implies (#[trigger] r[i]).0 < bound by {
            if i < p.len() {
                assert(r[i] == p[i]);
            } else {
                assert(s[s.len() - 1].0.0 < bound);
            }
        }
    }
}

/// After a subscription is made, the kind it listens to reaches it.
pub proof fn law_subscribe_then_dispatch(s: Seq<Subscription>, id: SubscriptionId, owner: OwnerId, kind: Hook)
    ensures
        subscribers(s.push((id, owner, kind)), kind) == subscribers(s, kind).push(id),
{
    assert(s.push((id, owner, kind)).drop_last() =~= s);
}


proof fn lemma_retain_keeps(s: Seq<Subscription>, keep: spec_fn(Subscription) -> bool)
    ensures
        forall|i: int| 0 <= i < retain(s, keep).len() ==> keep(#[trigger] retain(s, keep)[i]),
    decreases s.len(),
{
    if s.len() > 0 {
        lemma_retain_keeps(s.drop_last(), keep);
        let p = retain(s.drop_last(), keep);
        let r = retain(s, keep);
        assert forall|i: int| 0 <= i < r.len() implies keep(#[trigger] r[i]) by {
            if i < p.len() {
                assert(r[i] == p[i]);
            }
        }
    }
}

proof fn lemma_subscribers_exclude(s: Seq<Subscription>, kind: Hook, id: SubscriptionId)
    requires
        forall|i: int| 0 <= i < s.len() ==> (#[trigger] s[i]).0 != id,
    ensures
        !subscribers(s, kind).contains(id),
    decreases s.len(),
{
    if s.len() > 0 {
        let d = s.drop_last();
        assert forall|i: int| 0 <= i < d.len() implies (#[trigger] d[i]).0 != id by {
            assert(d[i] == s[i]);
        }
        lemma_subscribers_exclude(d, kind, id);
        let p = subscribers(d, kind);
        let r = subscribers(s, kind);
        assert(s[s.len() - 1] == s.last());
        if r.contains(id) {
            let k = choose|k: int| 0 <= k < r.len() && r[k] == id;
            if k < p.len() {
                assert(r[k] == p[k]);
            }
        }
    }
}

/// A cancelled subscription is reached by no event kind.
pub proof fn law_cancelled_not_dispatched(s: Seq<Subscription>, id: SubscriptionId, kind: Hook)
    ensures
        !subscribers(retain(s, |e: Subscription| e.0 != id), kind).contains(id),
{
    let keep = |e: Subscription| e.0 != id;
    lemma_retain_keeps(s, keep);
    lemma_subscribers_exclude(retain(s, keep), kind, id);
}

} // verus!
