//! Values exchanged with the script runtime at the native host boundary.
//!
//! A value is a scalar, a string, a sequence, a string-keyed record, a
//! two-component vector or an opaque object that the host resolves by path.
//! Numbers are `i64` integers or binary32 floats held as their encoding.

use vstd::prelude::*;
use crate::text::str_eq;

verus! {

#[derive(Clone, Copy, Debug, PartialEq, Eq, Structural)]
pub enum NativeKind {
    Value,
}

/// A host object: the host answers reads and calls below `path`.
#[derive(Clone, Debug, PartialEq, Eq)]
pub struct NativeObject {
    pub kind: NativeKind,
    pub path: String,
}

#[derive(Debug, PartialEq)]
pub enum NativeValue {
    Null,
    Bool(bool),
    Int(i64),
    /// A binary32 number, as its bit pattern.
    F32(u32),
    String(String),
    List(Vec<NativeValue>),
    Tuple(Vec<NativeValue>),
    /// A record; the first entry with a name is the one that counts.
    Dict(Vec<(String, NativeValue)>),
    /// A two-component vector of binary32 bit patterns.
    Vec2([u32; 2]),
    Object(NativeObject),
}

/// The mathematical content of a native value.
pub enum Val {
    Null,
    Bool(bool),
    Int(i64),
    F32(u32),
    Str(Seq<char>),
    List(Seq<Val>),
    Tuple(Seq<Val>),
    Dict(Seq<(Seq<char>, Val)>),
    Vec2(u32, u32),
    Object(Seq<char>),
}

pub open spec fn val_of(v: NativeValue) -> Val
    decreases v,
{
    match v {
        NativeValue::Null => Val::Null,
        NativeValue::Bool(b) => Val::Bool(b),
        NativeValue::Int(i) => Val::Int(i),
        NativeValue::F32(f) => Val::F32(f),
        NativeValue::String(s) => Val::Str(s@),
        NativeValue::List(l) => Val::List(Seq::new(l@.len(), |i: int| {
            if 0 <= i < l@.len() {
                val_of(l@[i])
            } else {
                Val::Null
            }
        })),
        NativeValue::Tuple(l) => Val::Tuple(Seq::new(l@.len(), |i: int| {
            if 0 <= i < l@.len() {
                val_of(l@[i])
            } else {
                Val::Null
            }
        })),
        NativeValue::Dict(d) => Val::Dict(Seq::new(d@.len(), |i: int| {
            if 0 <= i < d@.len() {
                (d@[i].0@, val_of(d@[i].1))
            } else {
                (Seq::empty(), Val::Null)
            }
        })),
        NativeValue::Vec2(a) => Val::Vec2(a[0], a[1]),
        NativeValue::Object(o) => Val::Object(o.path@),
    }
}

impl View for NativeValue {
    type V = Val;

    open spec fn view(&self) -> Val {
        val_of(*self)
    }
}

/// Views of a sequence of native values.
pub open spec fn vals(s: Seq<NativeValue>) -> Seq<Val> {
    Seq::new(s.len(), |i: int| s[i]@)
}

/// Failure reported by a native host or a builtin.
#[derive(Debug, Clone, PartialEq, Eq)]
pub enum Error {
    /// The host refused the request; builtins treat a refused read as an
    /// absent field.
    Host(String),
    /// A value broke the callback ABI.
    Invalid(String),
}

impl Error {
    /// The message the error carries.
    pub fn message(&self) -> (r: String)
        ensures
            r@ == match self {
                Error::Host(m) => m@,
                Error::Invalid(m) => m@,
            },
    {
        match self {
            Error::Host(m) => m.clone(),
            Error::Invalid(m) => m.clone(),
        }
    }
}

/// The native side of the script boundary: the host that answers reads,
/// writes and method calls by path.  Lifecycle and validation hosts
/// implement it.
pub trait NativeHost {
    fn get(&mut self, path: &str) -> Result<NativeValue, Error>;

    fn set(&mut self, path: &str, value: NativeValue) -> Result<(), Error>;

    fn call(&mut self, path: &str, args: &[NativeValue]) -> Result<NativeValue, Error>;
}

/// First record entry named `name`.
pub open spec fn dict_get(entries: Seq<(Seq<char>, Val)>, name: Seq<char>) -> Option<Val>
    decreases entries.len(),
{
    if entries.len() == 0 {
        None
    } else if entries[0].0 == name {
        Some(entries[0].1)
    } else {
        dict_get(entries.drop_first(), name)
    }
}

/// The text std's `Debug` gives for a string: the string quoted, with
/// std's escapes.  It depends on the string alone.
pub uninterp spec fn str_debug(s: Seq<char>) -> Seq<char>;

/// `format!("{value:?}")` for the string `value`, through std's `Debug`
/// for `str`.  Its text is named `str_debug` of the string and not spelled
/// out.
#[verifier::external_body]
pub(crate) fn debug_str(value: &str) -> (r: String)
    ensures
        r@ == str_debug(value@),
{
    format!("{value:?}")
}

/// A signed integer in decimal.
pub open spec fn signed_text(i: i64) -> Seq<char> {
    if i < 0 {
        "-"@ + crate::text::decimal_text((-i) as nat)
    } else {
        crate::text::decimal_text(i as nat)
    }
}

fn signed_string(i: i64) -> (r: String)
    ensures
        r@ == signed_text(i),
{
    if i < 0 {
        let magnitude: u64 = ((-(i + 1)) as u64) + 1;
        let digits = crate::text::decimal_string(magnitude);
        crate::text::concat2("-", digits.as_str())
    } else {
        crate::text::decimal_string(i as u64)
    }
}

/// How `value` prints in error messages, as the script runtime's values
/// print: each variant by name, strings and paths quoted as `str_debug`
/// says, the items of a list, tuple or record separated by `, `, and a
/// binary32 number by its encoding.
pub open spec fn rendering(value: Val) -> Seq<char>
    decreases value,
{
    match value {
        Val::Null => "None"@,
        Val::Bool(b) => if b { "Bool(true)"@ } else { "Bool(false)"@ },
        Val::Int(i) => "Int("@ + signed_text(i) + ")"@,
        Val::F32(b) => "F32("@ + crate::text::decimal_text(b as nat) + ")"@,
        Val::Str(s) => "String("@ + str_debug(s) + ")"@,
        Val::List(l) => "List(["@ + items_rendering(l) + "])"@,
        Val::Tuple(l) => "Tuple(["@ + items_rendering(l) + "])"@,
        Val::Dict(d) => "Dict({"@ + entries_rendering(d) + "})"@,
        Val::Vec2(x, y) => "Vec2(["@ + crate::text::decimal_text(x as nat) + ", "@
            + crate::text::decimal_text(y as nat) + "])"@,
        Val::Object(p) => "Object(NativeObject { kind: Value, path: "@ + str_debug(p) + " })"@,
    }
}

/// The renderings of `items`, separated by `, `.
pub open spec fn items_rendering(items: Seq<Val>) -> Seq<char>
    decreases items,
{
    if items.len() == 0 {
        Seq::empty()
    } else if items.len() == 1 {
        rendering(items[0])
    } else {
        items_rendering(items.drop_last()) + ", "@ + rendering(items.last())
    }
}

/// Record entries as `"name": value`, separated by `, `.
pub open spec fn entries_rendering(entries: Seq<(Seq<char>, Val)>) -> Seq<char>
    decreases entries,
{
    if entries.len() == 0 {
        Seq::empty()
    } else if entries.len() == 1 {
        str_debug(entries[0].0) + ": "@ + rendering(entries[0].1)
    } else {
        entries_rendering(entries.drop_last()) + ", "@ + str_debug(entries.last().0) + ": "@ + rendering(entries.last().1)
    }
}

/// The rendering of `value` in error messages, as `rendering` says.
pub fn render_value(value: &NativeValue) -> (r: String)
    ensures
        r@ == rendering(value@),
    decreases value,
{
    match value {
        NativeValue::Null => "None".to_owned(),
        NativeValue::Bool(b) => if *b { "Bool(true)".to_owned() } else { "Bool(false)".to_owned() },
        NativeValue::Int(i) => {
            let digits = signed_string(*i);
            crate::text::concat3("Int(", digits.as_str(), ")")
        },
        NativeValue::F32(b) => {
            let digits = crate::text::decimal_string(*b as u64);
            crate::text::concat3("F32(", digits.as_str(), ")")
        },
        NativeValue::String(s) => {
            let quoted = debug_str(s.as_str());
            crate::text::concat3("String(", quoted.as_str(), ")")
        },
        NativeValue::List(l) => {
            proof {
                lemma_list_view(*value);
            }
            let items = render_items(l);
            crate::text::concat3("List([", items.as_str(), "])")
        },
        NativeValue::Tuple(l) => {
            proof {
                lemma_tuple_view(*value);
            }
            let items = render_items(l);
            crate::text::concat3("Tuple([", items.as_str(), "])")
        },
        NativeValue::Dict(d) => {
            proof {
                lemma_dict_view(*value);
            }
            let items = render_entries(d);
            crate::text::concat3("Dict({", items.as_str(), "})")
        },
        NativeValue::Vec2(a) => {
            let x = crate::text::decimal_string(a[0] as u64);
            let y = crate::text::decimal_string(a[1] as u64);
            let open = crate::text::concat3("Vec2([", x.as_str(), ", ");
            crate::text::concat3(open.as_str(), y.as_str(), "])")
        },
        NativeValue::Object(o) => {
            let path = debug_str(o.path.as_str());
            crate::text::concat3("Object(NativeObject { kind: Value, path: ", path.as_str(), " })")
        },
    }
}

/// The renderings of `l`, separated by `, `.
fn render_items(l: &Vec<NativeValue>) -> (r: String)
    ensures
        r@ == items_rendering(vals(l@)),
    decreases l,
{
    let ghost items = vals(l@);
    let mut out = String::new();
    let mut i: usize = 0;
    while i < l.len()
        invariant
            i <= l.len(),
            items == vals(l@),
            out@ == items_rendering(items.take(i as int)),
        decreases l.len() - i,
    {
        proof {
            vstd::std_specs::vec::axiom_vec_index_decreases(*l, i as int);
            assert(items.take(i + 1).drop_last() =~= items.take(i as int));
        }
        let ghost before = out@;
        if i > 0 {
            out = crate::text::concat2(out.as_str(), ", ");
        }
        let item = render_value(&l[i]);
        out = crate::text::concat2(out.as_str(), item.as_str());
        proof {
            if i == 0 {
                assert(before =~= Seq::<char>::empty());
                assert(out@ =~= items_rendering(items.take(1)));
            }
        }
        i = i + 1;
    }
    assert(items.take(l@.len() as int) =~= items);
    out
}

/// The entries of `d` as `"name": value`, separated by `, `.
fn render_entries(d: &Vec<(String, NativeValue)>) -> (r: String)
    ensures
        r@ == entries_rendering(vals_dict(d@)),
    decreases d,
{
    let ghost entries = vals_dict(d@);
    let mut out = String::new();
    let mut i: usize = 0;
    while i < d.len()
        invariant
            i <= d.len(),
            entries == vals_dict(d@),
            out@ == entries_rendering(entries.take(i as int)),
        decreases d.len() - i,
    {
        proof {
            vstd::std_specs::vec::axiom_vec_index_decreases(*d, i as int);
            assert(entries.take(i + 1).drop_last() =~= entries.take(i as int));
        }
        let ghost before = out@;
        if i > 0 {
            out = crate::text::concat2(out.as_str(), ", ");
        }
        let key = debug_str(d[i].0.as_str());
        let item = render_value(&d[i].1);
        let entry = crate::text::concat3(key.as_str(), ": ", item.as_str());
        out = crate::text::concat2(out.as_str(), entry.as_str());
        proof {
            if i == 0 {
                assert(before =~= Seq::<char>::empty());
                assert(out@ =~= entries_rendering(entries.take(1)));
            } else {
                assert(out@ =~= entries_rendering(entries.take(i + 1)));
            }
        }
        i = i + 1;
    }
    assert(entries.take(d@.len() as int) =~= entries);
    out
}

/// A copy of `v` with the same content.
pub fn copy_value(v: &NativeValue) -> (r: NativeValue)
    ensures
        r@ == v@,
    decreases v,
{
    match v {
        NativeValue::Null => NativeValue::Null,
        NativeValue::Bool(b) => NativeValue::Bool(*b),
        NativeValue::Int(i) => NativeValue::Int(*i),
        NativeValue::F32(f) => NativeValue::F32(*f),
        NativeValue::String(s) => NativeValue::String(s.clone()),
        NativeValue::List(l) => {
            let c = copy_values(l);
            let r = NativeValue::List(c);
            proof {
                lemma_list_view(r);
                lemma_list_view(*v);
            }
            r
        },
        NativeValue::Tuple(l) => {
            let c = copy_values(l);
            let r = NativeValue::Tuple(c);
            proof {
                lemma_tuple_view(r);
                lemma_tuple_view(*v);
            }
            r
        },
        NativeValue::Dict(d) => {
            let c = copy_entries(d);
            let r = NativeValue::Dict(c);
            proof {
                lemma_dict_view(r);
                lemma_dict_view(*v);
            }
            r
        },
        NativeValue::Vec2(a) => NativeValue::Vec2([a[0], a[1]]),
        NativeValue::Object(o) => NativeValue::Object(NativeObject { kind: o.kind, path: o.path.clone() }),
    }
}

/// Copies of record entries, in order.
pub fn copy_entries(d: &Vec<(String, NativeValue)>) -> (r: Vec<(String, NativeValue)>)
    ensures
        vals_dict(r@) == vals_dict(d@),
    decreases d,
{
    let mut c: Vec<(String, NativeValue)> = Vec::new();
    let mut i: usize = 0;
    while i < d.len()
        invariant
            i <= d.len(),
            c@.len() == i,
            forall|j: int| 0 <= j < i ==> (#[trigger] c@[j]).0@ == d@[j].0@ && c@[j].1@ == d@[j].1@,
        decreases d.len() - i,
    {
        proof {
            vstd::std_specs::vec::axiom_vec_index_decreases(*d, i as int);
        }
        let entry = (d[i].0.clone(), copy_value(&d[i].1));
        c.push(entry);
        i = i + 1;
    }
    assert(vals_dict(c@) =~= vals_dict(d@));
    c
}

/// Copies of `l`, in order.
pub fn copy_values(l: &Vec<NativeValue>) -> (r: Vec<NativeValue>)
    ensures
        vals(r@) == vals(l@),
    decreases l,
{
    let mut c: Vec<NativeValue> = Vec::new();
    let mut i: usize = 0;
    while i < l.len()
        invariant
            i <= l.len(),
            c@.len() == i,
            forall|j: int| 0 <= j < i ==> (#[trigger] c@[j])@ == l@[j]@,
        decreases l.len() - i,
    {
        proof {
            vstd::std_specs::vec::axiom_vec_index_decreases(*l, i as int);
        }
        c.push(copy_value(&l[i]));
        i = i + 1;
    }
    assert(vals(c@) =~= vals(l@));
    c
}

/// The first record entry named `name`, copied.
pub fn dict_lookup(entries: &Vec<(String, NativeValue)>, name: &str) -> (r: Option<NativeValue>)
    ensures
        match r {
            Some(v) => dict_get(vals_dict(entries@), name@) == Some(v@),
            None => dict_get(vals_dict(entries@), name@) is None,
        },
{
    let mut i: usize = 0;
    assert(vals_dict(entries@).subrange(0, entries@.len() as int) =~= vals_dict(entries@));
    while i < entries.len()
        invariant
            i <= entries.len(),
            dict_get(vals_dict(entries@), name@) == dict_get(
                vals_dict(entries@).subrange(i as int, entries@.len() as int),
                name@,
            ),
        decreases entries.len() - i,
    {
        let ghost rest = vals_dict(entries@).subrange(i as int, entries@.len() as int);
        if str_eq(entries[i].0.as_str(), name) {
            assert(rest[0] == (entries@[i as int].0@, entries@[i as int].1@));
            return Some(copy_value(&entries[i].1));
        }
        assert(rest.drop_first() =~= vals_dict(entries@).subrange(i + 1, entries@.len() as int));
        i = i + 1;
    }
    assert(vals_dict(entries@).subrange(i as int, entries@.len() as int) =~= Seq::<(Seq<char>, Val)>::empty());
    None
}

/// Views of record entries.
pub open spec fn vals_dict(s: Seq<(String, NativeValue)>) -> Seq<(Seq<char>, Val)> {
    Seq::new(s.len(), |i: int| (s[i].0@, s[i].1@))
}

/// Keyword names in strictly ascending order, as a sorted map holds them:
/// each name occurs once.
pub open spec fn names_ascending(entries: Seq<(Seq<char>, Val)>) -> bool {
    forall|i: int, j: int| 0 <= i < j < entries.len() ==> crate::text::seq_lt(#[trigger] entries[i].0, #[trigger] entries[j].0)
}

pub proof fn lemma_dict_view(v: NativeValue)
    requires
        v is Dict,
    ensures
        v@ == Val::Dict(vals_dict(v->Dict_0@)),
{
    assert(vals_dict(v->Dict_0@) =~= match v@ {
        Val::Dict(d) => d,
        _ => Seq::empty(),
    });
}

pub proof fn lemma_list_view(v: NativeValue)
    requires
        v is List,
    ensures
        v@ == Val::List(vals(v->List_0@)),
{
    assert(vals(v->List_0@) =~= match v@ {
        Val::List(d) => d,
        _ => Seq::empty(),
    });
}

pub proof fn lemma_tuple_view(v: NativeValue)
    requires
        v is Tuple,
    ensures
        v@ == Val::Tuple(vals(v->Tuple_0@)),
{
    assert(vals(v->Tuple_0@) =~= match v@ {
        Val::Tuple(d) => d,
        _ => Seq::empty(),
    });
}

} // verus!
