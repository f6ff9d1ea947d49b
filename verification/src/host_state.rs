//! Script-local state held by the lifecycle host: typed state schemas,
//! action-state carry-over across action changes, and atomic state writes
//! from the native boundary.

use vstd::prelude::*;
use crate::float_bits::{f32_widen, f32_widened};
use crate::native::{vals, Error, NativeValue, Val, lemma_list_view, lemma_tuple_view};
use crate::text::{concat3, has_prefix, starts_with, slice_chars, str_eq, strip_prefix_or_self};

verus! {

/// A script state value.  Numbers are binary64, held as their encoding.
#[derive(Debug, PartialEq)]
pub enum LocalValue {
    Bool(bool),
    Integer(i64),
    Number(u64),
    String(String),
    Tuple(Vec<LocalValue>),
}

/// The mathematical content of a state value.
pub enum LVal {
    Bool(bool),
    Integer(i64),
    Number(u64),
    Str(Seq<char>),
    Tuple(Seq<LVal>),
}

pub open spec fn lval_of(v: LocalValue) -> LVal
    decreases v,
{
    match v {
        LocalValue::Bool(b) => LVal::Bool(b),
        LocalValue::Integer(i) => LVal::Integer(i),
        LocalValue::Number(n) => LVal::Number(n),
        LocalValue::String(s) => LVal::Str(s@),
        LocalValue::Tuple(t) => LVal::Tuple(Seq::new(t@.len(), |i: int| {
            if 0 <= i < t@.len() {
                lval_of(t@[i])
            } else {
                LVal::Bool(false)
            }
        })),
    }
}

impl View for LocalValue {
    type V = LVal;

    open spec fn view(&self) -> LVal {
        lval_of(*self)
    }
}

pub open spec fn lvals(s: Seq<LocalValue>) -> Seq<LVal> {
    Seq::new(s.len(), |i: int| s[i]@)
}

pub proof fn lemma_local_tuple_view(v: LocalValue)
    requires
        v is Tuple,
    ensures
        v@ == LVal::Tuple(lvals(v->Tuple_0@)),
{
    assert(lvals(v->Tuple_0@) =~= match v@ {
        LVal::Tuple(t) => t,
        _ => Seq::empty(),
    });
}

/// A copy of a state value.
pub fn copy_local(v: &LocalValue) -> (r: LocalValue)
    ensures
        r@ == v@,
    decreases v,
{
    match v {
        LocalValue::Bool(b) => LocalValue::Bool(*b),
        LocalValue::Integer(i) => LocalValue::Integer(*i),
        LocalValue::Number(n) => LocalValue::Number(*n),
        LocalValue::String(s) => LocalValue::String(s.clone()),
        LocalValue::Tuple(t) => {
            let c = copy_locals(t);
            let r = LocalValue::Tuple(c);
            proof {
                lemma_local_tuple_view(r);
                lemma_local_tuple_view(*v);
            }
            r
        },
    }
}

/// Copies of `t`, in order.
pub fn copy_locals(t: &Vec<LocalValue>) -> (r: Vec<LocalValue>)
    ensures
        lvals(r@) == lvals(t@),
    decreases t,
{
    let mut c: Vec<LocalValue> = Vec::new();
    let mut i: usize = 0;
    while i < t.len()
        invariant
            i <= t.len(),
            c@.len() == i,
            forall|j: int| 0 <= j < i ==> (#[trigger] c@[j])@ == t@[j]@,
        decreases t.len() - i,
    {
        proof {
            vstd::std_specs::vec::axiom_vec_index_decreases(*t, i as int);
        }
        c.push(copy_local(&t[i]));
        i = i + 1;
    }
    assert(lvals(c@) =~= lvals(t@));
    c
}

/// The declared type of a state field.
#[derive(Debug, PartialEq)]
pub enum StateType {
    Bool,
    Integer,
    Number,
    String,
    FixedTuple { element: Box<StateType>, length: usize },
}

/// Whether `v` is a value of type `t`: the same scalar kind, or a tuple of
/// exactly the declared length whose elements all have the element type.
pub open spec fn value_matches(t: StateType, v: LVal) -> bool
    decreases t,
{
    match t {
        StateType::Bool => v is Bool,
        StateType::Integer => v is Integer,
        StateType::Number => v is Number,
        StateType::String => v is Str,
        StateType::FixedTuple { element, length } => match v {
            LVal::Tuple(items) => items.len() == length
                && forall|i: int| 0 <= i < items.len() ==> value_matches(*element, #[trigger] items[i]),
            _ => false,
        },
    }
}

/// Whether `value` is a value of type `value_type`.
pub fn state_value_matches(value_type: &StateType, value: &LocalValue) -> (r: bool)
    ensures
        r == value_matches(*value_type, value@),
    decreases value_type, 0nat,
{
    match value_type {
        StateType::Bool => matches!(value, LocalValue::Bool(_)),
        StateType::Integer => matches!(value, LocalValue::Integer(_)),
        StateType::Number => matches!(value, LocalValue::Number(_)),
        StateType::String => matches!(value, LocalValue::String(_)),
        StateType::FixedTuple { element, length } => match value {
            LocalValue::Tuple(items) => {
                proof {
                    lemma_local_tuple_view(*value);
                }
                if items.len() != *length {
                    return false;
                }
                all_match(element, items)
            },
            _ => false,
        },
    }
}

/// Whether every item is a value of type `element`.
fn all_match(element: &StateType, items: &Vec<LocalValue>) -> (r: bool)
    ensures
        r == forall|i: int| 0 <= i < items@.len() ==> value_matches(*element, #[trigger] lvals(items@)[i]),
    decreases element, 1nat,
{
    let ghost iv = lvals(items@);
    let mut i: usize = 0;
    while i < items.len()
        invariant
            i <= items.len(),
            iv == lvals(items@),
            forall|j: int| 0 <= j < i ==> value_matches(*element, #[trigger] iv[j]),
        decreases items.len() - i,
    {
        assert(iv[i as int] == items@[i as int]@);
        if !state_value_matches(element, &items[i]) {
            return false;
        }
        i = i + 1;
    }
    true
}

/// A declared state field: its type and the value it starts from.
#[derive(Debug, PartialEq)]
pub struct StateField {
    pub value_type: StateType,
    pub default: LocalValue,
}

/// The type a default value declares: its own kind, and for a tuple the
/// kind of its first element (an empty tuple declares integers) and its
/// length.
pub open spec fn type_of_default(v: LVal) -> StateType
    decreases v,
{
    match v {
        LVal::Bool(_) => StateType::Bool,
        LVal::Integer(_) => StateType::Integer,
        LVal::Number(_) => StateType::Number,
        LVal::Str(_) => StateType::String,
        LVal::Tuple(items) => StateType::FixedTuple {
            element: Box::new(if items.len() > 0 { type_of_default(items[0]) } else { StateType::Integer }),
            length: items.len() as usize,
        },
    }
}

fn declared_type(v: &LocalValue) -> (r: StateType)
    ensures
        r == type_of_default(v@),
    decreases v,
{
    match v {
        LocalValue::Bool(_) => StateType::Bool,
        LocalValue::Integer(_) => StateType::Integer,
        LocalValue::Number(_) => StateType::Number,
        LocalValue::String(_) => StateType::String,
        LocalValue::Tuple(items) => {
            proof {
                lemma_local_tuple_view(*v);
            }
            let element = if items.len() > 0 {
                proof {
                    vstd::std_specs::vec::axiom_vec_index_decreases(*items, 0);
                }
                declared_type(&items[0])
            } else {
                StateType::Integer
            };
            StateType::FixedTuple { element: Box::new(element), length: items.len() }
        },
    }
}

impl StateField {
    /// A field whose type is the one its default value has.
    pub fn from_default(default: LocalValue) -> (r: StateField)
        ensures
            r.value_type == type_of_default(default@),
            r.default@ == default@,
    {
        let value_type = declared_type(&default);
        StateField { value_type, default }
    }
}

/// The first entry of `entries` under `key`.
pub open spec fn entry_get<V>(entries: Seq<(Seq<char>, V)>, key: Seq<char>) -> Option<V>
    decreases entries.len(),
{
    if entries.len() == 0 {
        None
    } else if entries[0].0 == key {
        Some(entries[0].1)
    } else {
        entry_get(entries.drop_first(), key)
    }
}

/// Script state: named values.
#[derive(Debug, PartialEq)]
pub struct LocalState {
    entries: Vec<(String, LocalValue)>,
}

pub open spec fn state_entries(e: Seq<(String, LocalValue)>) -> Seq<(Seq<char>, LVal)> {
    Seq::new(e.len(), |i: int| (e[i].0@, e[i].1@))
}

/// `entries` with `key` set to `value`: replacing the first entry under
/// `key`, or added at the end.
pub open spec fn entry_set<V>(entries: Seq<(Seq<char>, V)>, key: Seq<char>, value: V) -> Seq<(Seq<char>, V)>
    decreases entries.len(),
{
    if entries.len() == 0 {
        seq![(key, value)]
    } else if entries[0].0 == key {
        entries.update(0, (key, value))
    } else {
        seq![entries[0]] + entry_set(entries.drop_first(), key, value)
    }
}

/// Reading a key after setting it gives the value set; other keys read as
/// before.
pub proof fn law_entry_set_get<V>(entries: Seq<(Seq<char>, V)>, key: Seq<char>, value: V, other: Seq<char>)
    ensures
        entry_get(entry_set(entries, key, value), key) == Some(value),
        other != key ==> entry_get(entry_set(entries, key, value), other) == entry_get(entries, other),
    decreases entries.len(),
{
    let r = entry_set(entries, key, value);
    if entries.len() == 0 {
        assert(r == seq![(key, value)]);
        assert(r[0].0 == key);
        assert(r.drop_first() =~= Seq::<(Seq<char>, V)>::empty());
        assert(entry_get(r.drop_first(), other) is None);
    } else if entries[0].0 == key {
        assert(r == entries.update(0, (key, value)));
        assert(r[0] == (key, value));
        assert(r.drop_first() =~= entries.drop_first());
    } else {
        law_entry_set_get(entries.drop_first(), key, value, other);
        assert(r[0] == entries[0]);
        assert(r.drop_first() =~= entry_set(entries.drop_first(), key, value));
    }
}

impl View for LocalState {
    type V = Seq<(Seq<char>, LVal)>;

    closed spec fn view(&self) -> Seq<(Seq<char>, LVal)> {
        state_entries(self.entries@)
    }
}

impl LocalState {
    pub fn new() -> (r: Self)
        ensures
            r@ == Seq::<(Seq<char>, LVal)>::empty(),
    {
        let r = LocalState { entries: Vec::new() };
        assert(r@ =~= Seq::<(Seq<char>, LVal)>::empty());
        r
    }

    /// The value under `key`.
    pub fn get(&self, key: &str) -> (r: Option<&LocalValue>)
        ensures
            match r {
                Some(v) => entry_get(self@, key@) == Some(v@),
                None => entry_get(self@, key@) is None,
            },
    {
        let ghost e = self@;
        let mut i: usize = 0;
        assert(e.subrange(0, e.len() as int) =~= e);
        while i < self.entries.len()
            invariant
                i <= self.entries.len(),
                e == self@,
                e == state_entries(self.entries@),
                entry_get(e, key@) == entry_get(e.subrange(i as int, e.len() as int), key@),
            decreases self.entries.len() - i,
        {
            let ghost rest = e.subrange(i as int, e.len() as int);
            if str_eq(self.entries[i].0.as_str(), key) {
                assert(rest[0] == e[i as int]);
                return Some(&self.entries[i].1);
            }
            assert(rest.drop_first() =~= e.subrange(i + 1, e.len() as int));
            i = i + 1;
        }
        assert(e.subrange(i as int, e.len() as int) =~= Seq::<(Seq<char>, LVal)>::empty());
        None
    }

    /// Sets `key` to `value`.
    pub fn insert(&mut self, key: String, value: LocalValue)
        ensures
            final(self)@ == entry_set(old(self)@, key@, value@),
    {
        let ghost e = self@;
        let mut i: usize = 0;
        assert(e.subrange(0, 0) =~= Seq::<(Seq<char>, LVal)>::empty());
        while i < self.entries.len()
            invariant
                i <= self.entries.len(),
                e == old(self)@,
                self@ == e,
                forall|j: int| 0 <= j < i ==> e[j].0 != key@,
            decreases self.entries.len() - i,
        {
            if str_eq(self.entries[i].0.as_str(), key.as_str()) {
                proof {
                    lemma_entry_set_at(e, key@, value@, i as int);
                }
                self.entries.set(i, (key, value));
                assert(self@ =~= e.update(i as int, (key@, value@)));
                return;
            }
            i = i + 1;
        }
        proof {
            lemma_entry_set_absent(e, key@, value@);
        }
        self.entries.push((key, value));
        assert(self@ =~= e.push((key@, value@)));
    }

    /// A state holding `entries`; a later entry under a key replaces an
    /// earlier one.
    pub fn from_entries(entries: Vec<(String, LocalValue)>) -> (r: Self)
        ensures
            r@ == set_all(Seq::empty(), state_entries(entries@)),
    {
        let mut r = LocalState::new();
        let mut rest = entries;
        let ghost all = state_entries(rest@);
        let n = rest.len();
        let mut i: usize = 0;
        assert(set_all(Seq::empty(), all.take(0)) =~= Seq::<(Seq<char>, LVal)>::empty());
        assert(state_entries(rest@) =~= all.skip(0));
        while i < n
            invariant
                i <= n == all.len(),
                rest@.len() == n - i,
                state_entries(rest@) == all.skip(i as int),
                r@ == set_all(Seq::empty(), all.take(i as int)),
            decreases n - i,
        {
            assert(state_entries(rest@)[0] == all[i as int]);
            let ghost before = rest@;
            let (k, v) = rest.remove(0);
            proof {
                assert(all.take(i + 1).drop_last() =~= all.take(i as int));
                assert(rest@ =~= before.subrange(1, before.len() as int));
                assert forall|j: int| 0 <= j < rest@.len() implies state_entries(rest@)[j] == all.skip(i + 1)[j] by {
                    assert(state_entries(before)[j + 1] == all.skip(i as int)[j + 1]);
                }
                assert(state_entries(rest@) =~= all.skip(i + 1));
            }
            r.insert(k, v);
            i = i + 1;
        }
        assert(all.take(n as int) =~= all);
        r
    }

    /// The entries, in order.
    pub fn entries(&self) -> (r: &Vec<(String, LocalValue)>)
        ensures
            state_entries(r@) == self@,
    {
        &self.entries
    }
}

/// Setting each entry in turn.
pub open spec fn set_all(start: Seq<(Seq<char>, LVal)>, entries: Seq<(Seq<char>, LVal)>) -> Seq<(Seq<char>, LVal)>
    decreases entries.len(),
{
    if entries.len() == 0 {
        start
    } else {
        entry_set(set_all(start, entries.drop_last()), entries.last().0, entries.last().1)
    }
}

proof fn lemma_entry_set_at<V>(e: Seq<(Seq<char>, V)>, key: Seq<char>, value: V, i: int)
    requires
        0 <= i < e.len(),
        e[i].0 == key,
        forall|j: int| 0 <= j < i ==> e[j].0 != key,
    ensures
        entry_set(e, key, value) == e.update(i, (key, value)),
    decreases e.len(),
{
    if i > 0 {
        lemma_entry_set_at(e.drop_first(), key, value, i - 1);
        assert(seq![e[0]] + e.drop_first().update(i - 1, (key, value)) =~= e.update(i, (key, value)));
    }
}

proof fn lemma_entry_set_absent<V>(e: Seq<(Seq<char>, V)>, key: Seq<char>, value: V)
    requires
        forall|j: int| 0 <= j < e.len() ==> e[j].0 != key,
    ensures
        entry_set(e, key, value) == e.push((key, value)),
    decreases e.len(),
{
    if e.len() > 0 {
        lemma_entry_set_absent(e.drop_first(), key, value);
        assert(seq![e[0]] + e.drop_first().push((key, value)) =~= e.push((key, value)));
    }
}

/// The declared fields of a state.
#[derive(Debug, Default, PartialEq)]
pub struct StateSchema {
    /// Fields in name order.
    pub fields: Vec<(String, StateField)>,
}

pub open spec fn schema_entries(f: Seq<(String, StateField)>) -> Seq<(Seq<char>, StateField)> {
    Seq::new(f.len(), |i: int| (f[i].0@, f[i].1))
}

pub open spec fn default_entries(f: Seq<(String, StateField)>) -> Seq<(Seq<char>, LVal)> {
    Seq::new(f.len(), |i: int| (f[i].0@, f[i].1.default@))
}

impl StateSchema {
    /// The field declared as `key`.
    pub fn field(&self, key: &str) -> (r: Option<&StateField>)
        ensures
            match r {
                Some(f) => entry_get(schema_entries(self.fields@), key@) == Some(*f),
                None => entry_get(schema_entries(self.fields@), key@) is None,
            },
    {
        let ghost e = schema_entries(self.fields@);
        let mut i: usize = 0;
        assert(e.subrange(0, e.len() as int) =~= e);
        while i < self.fields.len()
            invariant
                i <= self.fields.len(),
                e == schema_entries(self.fields@),
                entry_get(e, key@) == entry_get(e.subrange(i as int, e.len() as int), key@),
            decreases self.fields.len() - i,
        {
            let ghost rest = e.subrange(i as int, e.len() as int);
            if str_eq(self.fields[i].0.as_str(), key) {
                assert(rest[0] == e[i as int]);
                return Some(&self.fields[i].1);
            }
            assert(rest.drop_first() =~= e.subrange(i + 1, e.len() as int));
            i = i + 1;
        }
        assert(e.subrange(i as int, e.len() as int) =~= Seq::<(Seq<char>, StateField)>::empty());
        None
    }

    /// Every declared field at its default.
    pub fn defaults(&self) -> (r: LocalState)
        ensures
            r@ == set_all(Seq::empty(), default_entries(self.fields@)),
    {
        let ghost all = default_entries(self.fields@);
        let mut r = LocalState::new();
        let mut i: usize = 0;
        assert(all.take(0) =~= Seq::<(Seq<char>, LVal)>::empty());
        while i < self.fields.len()
            invariant
                i <= self.fields.len(),
                all == default_entries(self.fields@),
                r@ == set_all(Seq::empty(), all.take(i as int)),
            decreases self.fields.len() - i,
        {
            assert(all.take(i + 1).drop_last() =~= all.take(i as int));
            r.insert(self.fields[i].0.clone(), copy_local(&self.fields[i].1.default));
            i = i + 1;
        }
        assert(all.take(self.fields@.len() as int) =~= all);
        r
    }
}

// ---------------------------------------------------------------------
// Carrying action state across an action change
// ---------------------------------------------------------------------

/// What is wrong with entry `i` of a `preserve_fields` list.
pub open spec fn preserve_item_fault(items: Seq<Val>, schema: Seq<(Seq<char>, StateField)>, i: int) -> Option<Seq<char>> {
    match items[i] {
        Val::Str(f) => if f.len() == 0 || entry_get(schema, f) is None {
            Some("preserve_fields contains undeclared field `"@ + f + "`"@)
        } else if exists|j: int| 0 <= j < i && items[j] == Val::Str(f) {
            Some("preserve_fields contains duplicate field `"@ + f + "`"@)
        } else {
            None
        },
        _ => Some("preserve_fields entries must be strings"@),
    }
}

/// The first fault among the first `n` entries.
pub open spec fn preserve_items_fault(items: Seq<Val>, schema: Seq<(Seq<char>, StateField)>, n: nat) -> Option<Seq<char>>
    decreases n,
{
    if n == 0 {
        None
    } else {
        match preserve_items_fault(items, schema, (n - 1) as nat) {
            Some(m) => Some(m),
            None => preserve_item_fault(items, schema, n - 1),
        }
    }
}

proof fn lemma_preserve_fault_persists(items: Seq<Val>, schema: Seq<(Seq<char>, StateField)>, k: nat, n: nat)
    requires
        k <= n,
        preserve_items_fault(items, schema, k) is Some,
    ensures
        preserve_items_fault(items, schema, n) == preserve_items_fault(items, schema, k),
    decreases n - k,
{
    if k < n {
        lemma_preserve_fault_persists(items, schema, k, (n - 1) as nat);
    }
}

/// The field names a `preserve_fields` argument selects (`None` when it is
/// absent), or the message it is refused with.
pub open spec fn preserve_outcome(value: Option<Val>, schema: Option<Seq<(Seq<char>, StateField)>>, preserve_state: bool)
    -> Result<Option<Seq<Seq<char>>>, Seq<char>> {
    match value {
        None => Ok(None),
        Some(Val::Null) => Ok(None),
        Some(Val::List(items)) => if preserve_state && items.len() > 0 {
            Err("preserve_state and preserve_fields are mutually exclusive"@)
        } else {
            match schema {
                None => if items.len() == 0 {
                    Ok(Some(Seq::empty()))
                } else {
                    Err("preserve_fields requires a declared action_state schema"@)
                },
                Some(sc) => match preserve_items_fault(items, sc, items.len()) {
                    Some(m) => Err(m),
                    None => Ok(Some(Seq::new(items.len(), |i: int| items[i]->Str_0))),
                },
            }
        },
        Some(_) => Err("preserve_fields must be a sequence of state field names"@),
    }
}

pub open spec fn names_of(v: Seq<String>) -> Seq<Seq<char>> {
    Seq::new(v.len(), |i: int| v[i]@)
}

/// Decodes the `preserve_fields` argument of an action change: a list of
/// distinct declared field names, refused together with `preserve_state`.
pub fn decode_preserve_fields(value: Option<&NativeValue>, schema: Option<&StateSchema>, preserve_state: bool)
    -> (r: Result<Option<Vec<String>>, Error>)
    ensures
        match r {
            Ok(Some(names)) => preserve_outcome(match value { Some(v) => Some(v@), None => None },
                match schema { Some(sc) => Some(schema_entries(sc.fields@)), None => None }, preserve_state)
                == Ok::<Option<Seq<Seq<char>>>, Seq<char>>(Some(names_of(names@))),
            Ok(None) => preserve_outcome(match value { Some(v) => Some(v@), None => None },
                match schema { Some(sc) => Some(schema_entries(sc.fields@)), None => None }, preserve_state)
                == Ok::<Option<Seq<Seq<char>>>, Seq<char>>(None),
            Err(Error::Host(m)) => preserve_outcome(match value { Some(v) => Some(v@), None => None },
                match schema { Some(sc) => Some(schema_entries(sc.fields@)), None => None }, preserve_state)
                == Err::<Option<Seq<Seq<char>>>, Seq<char>>(m@),
            Err(Error::Invalid(_)) => false,
        },
{
    let Some(arg) = value else {
        return Ok(None);
    };
    let values = match arg {
        NativeValue::List(values) => values,
        NativeValue::Null => return Ok(None),
        _ => return Err(Error::Host("preserve_fields must be a sequence of state field names".to_owned())),
    };
    proof {
        lemma_list_view(*arg);
    }
    if preserve_state && values.len() > 0 {
        return Err(Error::Host("preserve_state and preserve_fields are mutually exclusive".to_owned()));
    }
    let Some(sch) = schema else {
        if values.len() == 0 {
            let empty: Vec<String> = Vec::new();
            assert(names_of(empty@) =~= Seq::<Seq<char>>::empty());
            return Ok(Some(empty));
        }
        return Err(Error::Host("preserve_fields requires a declared action_state schema".to_owned()));
    };
    let ghost items = vals(values@);
    let ghost sc = schema_entries(sch.fields@);
    let mut fields: Vec<String> = Vec::new();
    let mut i: usize = 0;
    while i < values.len()
        invariant
            i <= values.len(),
            items == vals(values@),
            value == Some(arg),
                arg@ == Val::List(items),
            preserve_state ==> values@.len() == 0,
            schema == Some(sch),
            sc == schema_entries(sch.fields@),
            preserve_items_fault(items, sc, i as nat) is None,
            fields@.len() == i,
            forall|j: int| 0 <= j < i ==> items[j] == Val::Str((#[trigger] fields@[j])@),
        decreases values.len() - i,
    {
        assert(items[i as int] == values@[i as int]@);
        let field = match &values[i] {
            NativeValue::String(f) => f,
            _ => {
                proof {
                    lemma_preserve_fault_persists(items, sc, (i + 1) as nat, items.len());
                }
                return Err(Error::Host("preserve_fields entries must be strings".to_owned()));
            },
        };
        if field.as_str().is_empty() || sch.field(field.as_str()).is_none() {
            proof {
                lemma_preserve_fault_persists(items, sc, (i + 1) as nat, items.len());
            }
            return Err(Error::Host(concat3("preserve_fields contains undeclared field `", field.as_str(), "`")));
        }
        let mut k: usize = 0;
        while k < fields.len()
            invariant
                k <= fields.len(),
                fields@.len() == i,
                i < values@.len(),
                items == vals(values@),
                value == Some(arg),
                arg@ == Val::List(items),
                preserve_state ==> values@.len() == 0,
                schema == Some(sch),
                sc == schema_entries(sch.fields@),
                forall|j: int| 0 <= j < i ==> items[j] == Val::Str((#[trigger] fields@[j])@),
                items[i as int] == Val::Str(field@),
                preserve_items_fault(items, sc, i as nat) is None,
                !(field@.len() == 0 || entry_get(sc, field@) is None),
                forall|j: int| 0 <= j < k ==> fields@[j]@ != field@,
            decreases fields.len() - k,
        {
            if str_eq(fields[k].as_str(), field.as_str()) {
                proof {
                    assert(items[k as int] == Val::Str(field@));
                    lemma_preserve_fault_persists(items, sc, (i + 1) as nat, items.len());
                }
                return Err(Error::Host(concat3("preserve_fields contains duplicate field `", field.as_str(), "`")));
            }
            k = k + 1;
        }
        proof {
            assert forall|j: int| 0 <= j < i implies items[j] != Val::Str(field@) by {
                assert(items[j] == Val::Str(fields@[j]@));
            }
        }
        fields.push(field.clone());
        i = i + 1;
    }
    proof {
        assert(names_of(fields@) =~= Seq::new(items.len(), |j: int| items[j]->Str_0));
    }
    Ok(Some(fields))
}

/// `state` with each named field that `prior` holds copied from `prior`,
/// in order.
pub open spec fn carry_fields(state: Seq<(Seq<char>, LVal)>, prior: Seq<(Seq<char>, LVal)>, fields: Seq<Seq<char>>) -> Seq<(Seq<char>, LVal)>
    decreases fields.len(),
{
    if fields.len() == 0 {
        state
    } else {
        let s = carry_fields(state, prior, fields.drop_last());
        match entry_get(prior, fields.last()) {
            Some(v) => entry_set(s, fields.last(), v),
            None => s,
        }
    }
}

/// The action state after an action change: the prior state when it is
/// preserved whole, otherwise the reset state with the selected fields
/// carried over from the prior state.
pub fn action_state_after_change(prior: &LocalState, reset: LocalState, preserve_state: bool, preserve_fields: Option<&Vec<String>>)
    -> (r: LocalState)
    ensures
        preserve_state ==> r@ == prior@,
        !preserve_state ==> r@ == match preserve_fields {
            Some(f) => carry_fields(reset@, prior@, names_of(f@)),
            None => reset@,
        },
{
    if preserve_state {
        return LocalState::copy_of(prior);
    }
    let mut state = reset;
    if let Some(fields) = preserve_fields {
        let ghost names = names_of(fields@);
        let ghost start = state@;
        let mut i: usize = 0;
        assert(names.take(0) =~= Seq::<Seq<char>>::empty());
        while i < fields.len()
            invariant
                i <= fields.len(),
                names == names_of(fields@),
                state@ == carry_fields(start, prior@, names.take(i as int)),
            decreases fields.len() - i,
        {
            assert(names.take(i + 1).drop_last() =~= names.take(i as int));
            assert(names.take(i + 1).last() == fields@[i as int]@);
            match prior.get(fields[i].as_str()) {
                Some(v) => {
                    state.insert(fields[i].clone(), copy_local(v));
                },
                None => {},
            }
            i = i + 1;
        }
        assert(names.take(fields@.len() as int) =~= names);
    }
    state
}

/// After a selective carry-over, a selected field that the prior state
/// holds has its prior value; every other field has its reset value.
pub proof fn law_selective_preserve(reset: Seq<(Seq<char>, LVal)>, prior: Seq<(Seq<char>, LVal)>, fields: Seq<Seq<char>>, key: Seq<char>)
    ensures
        entry_get(carry_fields(reset, prior, fields), key) == if fields.contains(key) && entry_get(prior, key) is Some {
            entry_get(prior, key)
        } else {
            entry_get(reset, key)
        },
    decreases fields.len(),
{
    if fields.len() > 0 {
        let rest = fields.drop_last();
        law_selective_preserve(reset, prior, rest, key);
        let s = carry_fields(reset, prior, rest);
        let f = fields.last();
        match entry_get(prior, f) {
            Some(v) => {
                law_entry_set_get(s, f, v, key);
            },
            None => {},
        }
        assert(fields.contains(key) == (rest.contains(key) || f == key)) by {
            if fields.contains(key) {
                let i = choose|i: int| 0 <= i < fields.len() && fields[i] == key;
                if i < fields.len() - 1 {
                    assert(rest[i] == key);
                }
            }
            if rest.contains(key) {
                let i = choose|i: int| 0 <= i < rest.len() && rest[i] == key;
                assert(fields[i] == key);
            }
            if f == key {
                assert(fields[fields.len() - 1] == key);
            }
        }
    }
}

impl LocalState {
    /// A copy of `other`.
    pub fn copy_of(other: &LocalState) -> (r: LocalState)
        ensures
            r@ == other@,
    {
        let mut entries: Vec<(String, LocalValue)> = Vec::new();
        let mut i: usize = 0;
        while i < other.entries.len()
            invariant
                i <= other.entries.len(),
                entries@.len() == i,
                forall|j: int| 0 <= j < i ==> (#[trigger] entries@[j]).0@ == other.entries@[j].0@ && entries@[j].1@ == other.entries@[j].1@,
            decreases other.entries.len() - i,
        {
            entries.push((other.entries[i].0.clone(), copy_local(&other.entries[i].1)));
            i = i + 1;
        }
        let r = LocalState { entries };
        assert(r@ =~= other@);
        r
    }
}

// ---------------------------------------------------------------------
// Writes from the native boundary
// ---------------------------------------------------------------------

/// The state value a native value denotes: scalars map one to one (a
/// binary32 number widens to binary64) and tuples element by element;
/// `None` for anything else.
pub open spec fn local_of(v: Val) -> Option<LVal>
    decreases v,
{
    match v {
        Val::Bool(b) => Some(LVal::Bool(b)),
        Val::Int(i) => Some(LVal::Integer(i)),
        Val::F32(b) => Some(LVal::Number(f32_widened(b))),
        Val::Str(s) => Some(LVal::Str(s)),
        Val::Tuple(items) => match locals_of(items) {
            Some(t) => Some(LVal::Tuple(t)),
            None => None,
        },
        _ => None,
    }
}

/// The state values of a sequence of native values, if each has one.
pub open spec fn locals_of(items: Seq<Val>) -> Option<Seq<LVal>>
    decreases items,
{
    if items.len() == 0 {
        Some(Seq::empty())
    } else {
        match locals_of(items.drop_last()) {
            Some(s) => match local_of(items.last()) {
                Some(x) => Some(s.push(x)),
                None => None,
            },
            None => None,
        }
    }
}

proof fn lemma_locals_none_persists(items: Seq<Val>, k: int)
    requires
        0 <= k <= items.len(),
        locals_of(items.take(k)) is None,
    ensures
        locals_of(items) is None,
    decreases items.len() - k,
{
    if k < items.len() {
        assert(items.take(k + 1).drop_last() =~= items.take(k));
        lemma_locals_none_persists(items, k + 1);
    } else {
        assert(items.take(k) =~= items);
    }
}

/// Converts a native tuple element.
pub fn native_to_local(value: &NativeValue) -> (r: Result<LocalValue, Error>)
    ensures
        match r {
            Ok(v) => local_of(value@) == Some(v@),
            Err(Error::Host(m)) => local_of(value@) is None && m@ == "tuple elements must be scalar or fixed tuple"@,
            Err(Error::Invalid(_)) => false,
        },
    decreases value,
{
    match value {
        NativeValue::Bool(b) => Ok(LocalValue::Bool(*b)),
        NativeValue::Int(i) => Ok(LocalValue::Integer(*i)),
        NativeValue::F32(b) => Ok(LocalValue::Number(f32_widen(*b))),
        NativeValue::String(s) => Ok(LocalValue::String(s.clone())),
        NativeValue::Tuple(items) => {
            proof {
                lemma_tuple_view(*value);
            }
            let converted = natives_to_locals(items)?;
            let r = LocalValue::Tuple(converted);
            proof {
                lemma_local_tuple_view(r);
            }
            Ok(r)
        },
        _ => Err(Error::Host("tuple elements must be scalar or fixed tuple".to_owned())),
    }
}

/// Converts native tuple elements, in order.
pub fn natives_to_locals(items: &Vec<NativeValue>) -> (r: Result<Vec<LocalValue>, Error>)
    ensures
        match r {
            Ok(c) => locals_of(vals(items@)) == Some(lvals(c@)),
            Err(Error::Host(m)) => locals_of(vals(items@)) is None && m@ == "tuple elements must be scalar or fixed tuple"@,
            Err(Error::Invalid(_)) => false,
        },
    decreases items,
{
    let ghost iv = vals(items@);
    let mut c: Vec<LocalValue> = Vec::new();
    let mut i: usize = 0;
    assert(iv.take(0) =~= Seq::<Val>::empty());
    assert(lvals(c@) =~= Seq::<LVal>::empty());
    while i < items.len()
        invariant
            i <= items.len(),
            iv == vals(items@),
            locals_of(iv.take(i as int)) == Some(lvals(c@)),
        decreases items.len() - i,
    {
        proof {
            vstd::std_specs::vec::axiom_vec_index_decreases(*items, i as int);
        }
        assert(iv[i as int] == items@[i as int]@);
        assert(iv.take(i + 1).drop_last() =~= iv.take(i as int));
        assert(iv.take(i + 1).last() == iv[i as int]);
        match native_to_local(&items[i]) {
            Ok(v) => {
                let ghost before = c@;
                c.push(v);
                assert(lvals(c@) =~= lvals(before).push(v@));
            },
            Err(e) => {
                proof {
                    lemma_locals_none_persists(iv, i + 1);
                }
                return Err(e);
            },
        }
        i = i + 1;
    }
    assert(iv.take(items@.len() as int) =~= iv);
    Ok(c)
}

/// The state key a host path names below `root` (`<root>.<key>`).
pub open spec fn state_key(path: Seq<char>, root: Seq<char>) -> Option<Seq<char>> {
    let prefix = root + "."@;
    if has_prefix(path, prefix) {
        Some(path.subrange(prefix.len() as int, path.len() as int))
    } else {
        None
    }
}

fn key_of(path: &str, root: &str) -> (r: Option<String>)
    ensures
        match r {
            Some(k) => state_key(path@, root@) == Some(k@),
            None => state_key(path@, root@) is None,
        },
{
    let prefix = crate::text::concat2(root, ".");
    if starts_with(path, prefix.as_str()) {
        let n = path.unicode_len();
        let k = prefix.unicode_len();
        Some(slice_chars(path, k, n))
    } else {
        None
    }
}

/// Whether the schema declares `key` as a fixed tuple.
pub open spec fn declared_tuple(schema: Option<Seq<(Seq<char>, StateField)>>, key: Seq<char>) -> bool {
    schema matches Some(sc) && entry_get(sc, key) matches Some(f) && f.value_type is FixedTuple
}

/// The key and value a state write stores, or the message it is refused
/// with.
pub open spec fn state_write(path: Seq<char>, root: Seq<char>, value: Val, schema: Option<Seq<(Seq<char>, StateField)>>)
    -> Result<(Seq<char>, LVal), Seq<char>> {
    match state_key(path, root) {
        None => Err("invalid state path"@),
        Some(key) => {
            let converted = match value {
                Val::Bool(_) | Val::Int(_) | Val::F32(_) | Val::Str(_) => Ok(local_of(value)->0),
                Val::Tuple(_) => match local_of(value) {
                    Some(v) => Ok(v),
                    None => Err("tuple elements must be scalar or fixed tuple"@),
                },
                Val::List(items) => if declared_tuple(schema, key) {
                    match local_of(Val::Tuple(items)) {
                        Some(v) => Ok(v),
                        None => Err("tuple elements must be scalar or fixed tuple"@),
                    }
                } else {
                    Err("state fields must be scalar or fixed tuple"@)
                },
                _ => Err("state fields must be scalar or fixed tuple"@),
            };
            match converted {
                Err(m) => Err(m),
                Ok(v) => match schema {
                    None => Ok((key, v)),
                    Some(sc) => match entry_get(sc, key) {
                        None => Err("undeclared state field `"@ + key + "`"@),
                        Some(f) => if value_matches(f.value_type, v) {
                            Ok((key, v))
                        } else {
                            Err("state field `"@ + key + "` has the wrong type"@)
                        },
                    },
                },
            }
        },
    }
}

pub open spec fn schema_view(schema: Option<&StateSchema>) -> Option<Seq<(Seq<char>, StateField)>> {
    match schema {
        Some(sc) => Some(schema_entries(sc.fields@)),
        None => None,
    }
}

/// Writes a native value to the state field `path` names below `root`.
/// The write is atomic: a refused write leaves the state as it was.
pub fn state_set(path: &str, root: &str, value: NativeValue, state: &mut LocalState, schema: Option<&StateSchema>)
    -> (r: Result<(), Error>)
    ensures
        match state_write(path@, root@, value@, schema_view(schema)) {
            Ok((key, v)) => r is Ok && final(state)@ == entry_set(old(state)@, key, v),
            Err(m) => r matches Err(Error::Host(e)) && e@ == m && final(state)@ == old(state)@,
        },
{
    let Some(key) = key_of(path, root) else {
        return Err(Error::Host("invalid state path".to_owned()));
    };
    let ghost v = value@;
    let converted = match value {
        NativeValue::Bool(b) => LocalValue::Bool(b),
        NativeValue::Int(i) => LocalValue::Integer(i),
        NativeValue::F32(b) => LocalValue::Number(f32_widen(b)),
        NativeValue::String(s) => LocalValue::String(s),
        NativeValue::Tuple(items) => {
            proof {
                lemma_tuple_view(NativeValue::Tuple(items));
            }
            let c = natives_to_locals(&items)?;
            let t = LocalValue::Tuple(c);
            proof {
                lemma_local_tuple_view(t);
            }
            t
        },
        NativeValue::List(items) => {
            proof {
                lemma_list_view(NativeValue::List(items));
            }
            let tuple_declared = match schema {
                Some(sc) => match sc.field(key.as_str()) {
                    Some(f) => matches!(f.value_type, StateType::FixedTuple { .. }),
                    None => false,
                },
                None => false,
            };
            if !tuple_declared {
                return Err(Error::Host("state fields must be scalar or fixed tuple".to_owned()));
            }
            let c = natives_to_locals(&items)?;
            let t = LocalValue::Tuple(c);
            proof {
                lemma_local_tuple_view(t);
            }
            t
        },
        _ => {
            return Err(Error::Host("state fields must be scalar or fixed tuple".to_owned()));
        },
    };
    if let Some(sc) = schema {
        let Some(field) = sc.field(key.as_str()) else {
            return Err(Error::Host(concat3("undeclared state field `", key.as_str(), "`")));
        };
        if !state_value_matches(&field.value_type, &converted) {
            return Err(Error::Host(concat3("state field `", key.as_str(), "` has the wrong type")));
        }
    }
    state.insert(key, converted);
    Ok(())
}

/// The state value at the field `path` names below `root`.
pub fn state_get(path: &str, root: &str, state: &LocalState) -> (r: Option<LocalValue>)
    ensures
        match state_key(path@, root@) {
            Some(key) => match r {
                Some(v) => entry_get(state@, key) == Some(v@),
                None => entry_get(state@, key) is None,
            },
            None => r is None,
        },
{
    let key = key_of(path, root)?;
    match state.get(key.as_str()) {
        Some(v) => Some(copy_local(v)),
        None => None,
    }
}

/// A value written through `state_set` reads back through `state_get`.
pub proof fn law_state_write_reads_back(state: Seq<(Seq<char>, LVal)>, path: Seq<char>, root: Seq<char>, value: Val,
    schema: Option<Seq<(Seq<char>, StateField)>>)
    requires
        state_write(path, root, value, schema) is Ok,
    ensures
        state_key(path, root) matches Some(key) && entry_get(entry_set(state, key, state_write(path, root, value, schema)->Ok_0.1), key)
            == Some(state_write(path, root, value, schema)->Ok_0.1),
{
    let key = state_key(path, root)->0;
    law_entry_set_get(state, key, state_write(path, root, value, schema)->Ok_0.1, key);
}

/// The action name argument of a native call.
pub fn action_arg(value: Option<&NativeValue>) -> (r: Result<String, Error>)
    ensures
        match value {
            Some(NativeValue::String(s)) => r matches Ok(a) && a@ == s@,
            _ => r matches Err(Error::Host(m)) && m@ == "action must be a string"@,
        },
{
    match value {
        Some(NativeValue::String(s)) => Ok(s.clone()),
        _ => Err(Error::Host("action must be a string".to_owned())),
    }
}

/// An integer argument named `name`.
pub fn int_value(value: NativeValue, name: &str) -> (r: Result<i64, Error>)
    ensures
        match value {
            NativeValue::Int(i) => r == Ok::<i64, Error>(i),
            _ => r matches Err(Error::Host(m)) && m@ == name@ + " must be an integer"@,
        },
{
    match value {
        NativeValue::Int(i) => Ok(i),
        _ => Err(Error::Host(crate::text::concat2(name, " must be an integer"))),
    }
}

/// A boolean argument named `name`.
pub fn bool_value(value: NativeValue, name: &str) -> (r: Result<bool, Error>)
    ensures
        match value {
            NativeValue::Bool(b) => r == Ok::<bool, Error>(b),
            _ => r matches Err(Error::Host(m)) && m@ == name@ + " must be a boolean"@,
        },
{
    match value {
        NativeValue::Bool(b) => Ok(b),
        _ => Err(Error::Host(crate::text::concat2(name, " must be a boolean"))),
    }
}

} // verus!
