//! Bounds on script state before it is copied into a checkpoint: state is
//! scalar and bounded, with tuples as the only nesting.

use vstd::prelude::*;
use crate::host_state::{lemma_local_tuple_view, lvals, LVal, LocalState, LocalValue};
use crate::native::{debug_str, str_debug, Error};
use crate::text::{byte_len, concat2, concat3, longer_than_bytes};

verus! {

/// Deepest nesting of tuple items.
pub const MAX_STATE_DEPTH: usize = 64;
/// Values nested in tuples, over the whole state.
pub const MAX_STATE_VALUE_NODES: usize = 4096;
/// Largest magnitude of a numeric state value.
pub const STATE_INT_LIMIT: i64 = 1_000_000;
/// The binary64 encoding of `1_000_000.0`.
pub const F64_ONE_MILLION: u64 = 0x412E_8480_0000_0000;

/// The host's size limits on script state.
#[derive(Clone, Copy, Debug, PartialEq, Eq)]
pub struct StateLimits {
    /// Fields in a state, and items in one tuple.
    pub max_fields: usize,
    /// Bytes in a field name.
    pub max_key_bytes: usize,
    /// Bytes in a string value.
    pub max_string_bytes: usize,
}

/// What is wrong with one state value.
#[derive(Clone, Copy, Debug, PartialEq, Eq, Structural)]
pub enum ValueFault {
    Integer,
    Number,
    StringTooLong,
    TupleTooLong,
    TooDeep,
    TooManyValues,
}

/// Why a state is refused.
pub enum StateFault {
    TooManyFields,
    KeyTooLong,
    InvalidKey(Seq<char>),
    Value(Seq<char>, ValueFault),
}

/// A binary64 encoding that is finite with magnitude at most one million.
pub open spec fn f64_within_million(b: u64) -> bool {
    (b as nat) % 0x8000_0000_0000_0000 <= F64_ONE_MILLION
}

/// A field name character: an ASCII letter or digit, or `_`.
pub open spec fn key_char(c: char) -> bool {
    ('a' <= c && c <= 'z') || ('A' <= c && c <= 'Z') || ('0' <= c && c <= '9') || c == '_'
}

/// What is wrong with `v` by itself, without looking into a tuple's items.
pub open spec fn shape_fault(v: LVal, limits: StateLimits) -> Option<ValueFault> {
    match v {
        LVal::Bool(_) => None,
        LVal::Integer(i) => if -STATE_INT_LIMIT <= i <= STATE_INT_LIMIT { None } else { Some(ValueFault::Integer) },
        LVal::Number(b) => if f64_within_million(b) { None } else { Some(ValueFault::Number) },
        LVal::Str(s) => if byte_len(s) <= limits.max_string_bytes { None } else { Some(ValueFault::StringTooLong) },
        LVal::Tuple(t) => if t.len() <= limits.max_fields { None } else { Some(ValueFault::TupleTooLong) },
    }
}

/// Checks a tuple item at `depth` with `budget` nested values left: the
/// budget that is left after it and its items, or the first fault.
pub open spec fn item_check(v: LVal, depth: usize, budget: usize, limits: StateLimits) -> Result<usize, ValueFault>
    decreases v,
{
    if depth > MAX_STATE_DEPTH {
        Err(ValueFault::TooDeep)
    } else if budget == 0 {
        Err(ValueFault::TooManyValues)
    } else {
        match shape_fault(v, limits) {
            Some(f) => Err(f),
            None => match v {
                LVal::Tuple(t) => items_check(t, (depth + 1) as usize, (budget - 1) as usize, limits),
                _ => Ok((budget - 1) as usize),
            },
        }
    }
}

/// Checks tuple items at `depth` in order.
pub open spec fn items_check(items: Seq<LVal>, depth: usize, budget: usize, limits: StateLimits) -> Result<usize, ValueFault>
    decreases items,
{
    if items.len() == 0 {
        Ok(budget)
    } else {
        match item_check(items[0], depth, budget, limits) {
            Err(f) => Err(f),
            Ok(b) => items_check(items.drop_first(), depth, b, limits),
        }
    }
}

/// Checks state entries in order, with `budget` nested values left.
pub open spec fn entries_check(entries: Seq<(Seq<char>, LVal)>, budget: usize, limits: StateLimits) -> Result<(), StateFault>
    decreases entries.len(),
{
    if entries.len() == 0 {
        Ok(())
    } else {
        let key = entries[0].0;
        let v = entries[0].1;
        if key.len() == 0 || byte_len(key) > limits.max_key_bytes {
            Err(StateFault::KeyTooLong)
        } else if !(forall|i: int| 0 <= i < key.len() ==> key_char(#[trigger] key[i])) {
            Err(StateFault::InvalidKey(key))
        } else {
            match shape_fault(v, limits) {
                Some(f) => Err(StateFault::Value(key, f)),
                None => match (match v {
                    LVal::Tuple(t) => items_check(t, 1, budget, limits),
                    _ => Ok(budget),
                }) {
                    Err(f) => Err(StateFault::Value(key, f)),
                    Ok(b) => entries_check(entries.drop_first(), b, limits),
                },
            }
        }
    }
}

/// What `validate_state` finds of `state`: its entries are checked in the
/// order the state holds them, and the first fault counts.
pub open spec fn state_check(state: Seq<(Seq<char>, LVal)>, limits: StateLimits) -> Result<(), StateFault> {
    if state.len() > limits.max_fields {
        Err(StateFault::TooManyFields)
    } else {
        entries_check(state, MAX_STATE_VALUE_NODES, limits)
    }
}

/// The message of a refusal.
pub open spec fn fault_message(f: StateFault) -> Seq<char> {
    match f {
        StateFault::TooManyFields => "too many script state fields"@,
        StateFault::KeyTooLong => "script state key is too long"@,
        StateFault::InvalidKey(k) => "invalid script state key "@ + str_debug(k),
        StateFault::Value(k, ValueFault::Integer) => "invalid integer state field "@ + str_debug(k),
        StateFault::Value(k, ValueFault::Number) => "invalid numeric state field "@ + str_debug(k),
        StateFault::Value(k, ValueFault::StringTooLong) => "script state string "@ + str_debug(k) + " is too long"@,
        StateFault::Value(k, ValueFault::TupleTooLong) => "script state tuple "@ + str_debug(k) + " is too long"@,
        StateFault::Value(k, ValueFault::TooDeep) => "script state tuple "@ + str_debug(k) + " is too deeply nested"@,
        StateFault::Value(_, ValueFault::TooManyValues) => "script state contains too many tuple values"@,
    }
}

fn shape_check(v: &LocalValue, limits: &StateLimits) -> (r: Option<ValueFault>)
    ensures
        r == shape_fault(v@, *limits),
{
    match v {
        LocalValue::Bool(_) => None,
        LocalValue::Integer(i) => if -STATE_INT_LIMIT <= *i && *i <= STATE_INT_LIMIT {
            None
        } else {
            Some(ValueFault::Integer)
        },
        LocalValue::Number(b) => if *b % 0x8000_0000_0000_0000 <= F64_ONE_MILLION {
            None
        } else {
            Some(ValueFault::Number)
        },
        LocalValue::String(s) => if longer_than_bytes(s.as_str(), limits.max_string_bytes) {
            Some(ValueFault::StringTooLong)
        } else {
            None
        },
        LocalValue::Tuple(t) => {
            proof {
                lemma_local_tuple_view(*v);
            }
            if t.len() <= limits.max_fields {
                None
            } else {
                Some(ValueFault::TupleTooLong)
            }
        },
    }
}

fn check_item(v: &LocalValue, depth: usize, budget: usize, limits: &StateLimits) -> (r: Result<usize, ValueFault>)
    requires
        depth <= MAX_STATE_DEPTH + 1,
    ensures
        r == item_check(v@, depth, budget, *limits),
    decreases v,
{
    if depth > MAX_STATE_DEPTH {
        return Err(ValueFault::TooDeep);
    }
    if budget == 0 {
        return Err(ValueFault::TooManyValues);
    }
    if let Some(f) = shape_check(v, limits) {
        return Err(f);
    }
    match v {
        LocalValue::Tuple(t) => {
            proof {
                lemma_local_tuple_view(*v);
            }
            check_items(t, depth + 1, budget - 1, limits)
        },
        _ => Ok(budget - 1),
    }
}

fn check_items(items: &Vec<LocalValue>, depth: usize, budget: usize, limits: &StateLimits) -> (r: Result<usize, ValueFault>)
    requires
        depth <= MAX_STATE_DEPTH + 1,
    ensures
        r == items_check(lvals(items@), depth, budget, *limits),
    decreases items,
{
    let ghost vs = lvals(items@);
    let mut b = budget;
    let mut i: usize = 0;
    assert(vs.skip(0) =~= vs);
    while i < items.len()
        invariant
            i <= items.len(),
            vs == lvals(items@),
            depth <= MAX_STATE_DEPTH + 1,
            items_check(vs, depth, budget, *limits) == items_check(vs.skip(i as int), depth, b, *limits),
        decreases items.len() - i,
    {
        proof {
            vstd::std_specs::vec::axiom_vec_index_decreases(*items, i as int);
            assert(vs.skip(i as int)[0] == vs[i as int]);
            assert(vs.skip(i as int).drop_first() =~= vs.skip(i + 1));
        }
        match check_item(&items[i], depth, b, limits) {
            Err(f) => {
                return Err(f);
            },
            Ok(nb) => {
                b = nb;
            },
        }
        i = i + 1;
    }
    assert(vs.skip(i as int) =~= Seq::<LVal>::empty());
    Ok(b)
}

/// The refusal for a fault `f` of the value under `key`.
fn value_error(key: &str, f: ValueFault) -> (r: Error)
    ensures
        r matches Error::Invalid(m) && m@ == fault_message(StateFault::Value(key@, f)),
{
    let quoted = debug_str(key);
    let m = match f {
        ValueFault::Integer => concat2("invalid integer state field ", quoted.as_str()),
        ValueFault::Number => concat2("invalid numeric state field ", quoted.as_str()),
        ValueFault::StringTooLong => concat3("script state string ", quoted.as_str(), " is too long"),
        ValueFault::TupleTooLong => concat3("script state tuple ", quoted.as_str(), " is too long"),
        ValueFault::TooDeep => concat3("script state tuple ", quoted.as_str(), " is too deeply nested"),
        ValueFault::TooManyValues => "script state contains too many tuple values".to_owned(),
    };
    Error::Invalid(m)
}

/// Whether every character of `key` is a field name character.
fn key_chars_ok(key: &str) -> (r: bool)
    ensures
        r == (forall|i: int| 0 <= i < key@.len() ==> key_char(#[trigger] key@[i])),
{
    let chars = crate::text::chars_of(key);
    let mut i: usize = 0;
    while i < chars.len()
        invariant
            i <= chars.len(),
            chars@ == key@,
            forall|j: int| 0 <= j < i ==> key_char(#[trigger] key@[j]),
        decreases chars.len() - i,
    {
        let c = chars[i];
        if !(('a' <= c && c <= 'z') || ('A' <= c && c <= 'Z') || ('0' <= c && c <= '9') || c == '_') {
            assert(!key_char(key@[i as int]));
            return false;
        }
        i = i + 1;
    }
    true
}

/// Checks `state` against `limits` before it is copied into a checkpoint:
/// at most `max_fields` fields; each name of one to `max_key_bytes` bytes
/// of ASCII letters, digits and `_`; integers and numbers finite with
/// magnitude at most one million; strings of at most `max_string_bytes`
/// bytes; tuples of at most `max_fields` items, nested at most
/// `MAX_STATE_DEPTH` deep, with at most `MAX_STATE_VALUE_NODES` tuple items
/// over the whole state.  The entries are checked in the order the state
/// holds them and the first fault is reported, as `state_check` and
/// `fault_message` say.
pub fn validate_state(state: &LocalState, limits: &StateLimits) -> (r: Result<(), Error>)
    ensures
        match state_check(state@, *limits) {
            Ok(()) => r == Ok::<(), Error>(()),
            Err(f) => r matches Err(Error::Invalid(m)) && m@ == fault_message(f),
        },
{
    let entries = state.entries();
    if entries.len() > limits.max_fields {
        return Err(Error::Invalid("too many script state fields".to_owned()));
    }
    let ghost es = state@;
    let mut budget: usize = MAX_STATE_VALUE_NODES;
    let mut i: usize = 0;
    assert(es.skip(0) =~= es);
    while i < entries.len()
        invariant
            i <= entries.len(),
            es == state@,
            crate::host_state::state_entries(entries@) == es,
            state_check(es, *limits) == entries_check(es.skip(i as int), budget, *limits),
        decreases entries.len() - i,
    {
        let ghost rest = es.skip(i as int);
        proof {
            assert(rest[0] == es[i as int]);
            assert(rest.drop_first() =~= es.skip(i + 1));
        }
        let key = entries[i].0.as_str();
        let value = &entries[i].1;
        if key.is_empty() || longer_than_bytes(key, limits.max_key_bytes) {
            return Err(Error::Invalid("script state key is too long".to_owned()));
        }
        if !key_chars_ok(key) {
            let quoted = debug_str(key);
            return Err(Error::Invalid(concat2("invalid script state key ", quoted.as_str())));
        }
        if let Some(f) = shape_check(value, limits) {
            return Err(value_error(key, f));
        }
        match value {
            LocalValue::Tuple(t) => {
                proof {
                    lemma_local_tuple_view(*value);
                }
                match check_items(t, 1, budget, limits) {
                    Err(f) => {
                        return Err(value_error(key, f));
                    },
                    Ok(b) => {
                        budget = b;
                    },
                }
            },
            _ => {},
        }
        i = i + 1;
    }
    assert(es.skip(i as int) =~= Seq::<(Seq<char>, LVal)>::empty());
    Ok(())
}

} // verus!
