//! The grammar of air motion operations in a motion manifest.
//!
//! A manifest operation is a constructor object `{callee, args, kwargs}`;
//! each air constructor takes keyword arguments only, and scalar operands
//! are literals or `resource(..)`, `parameter(..)` and
//! `special_attribute(..)` references.

use vstd::prelude::*;
use crate::float_bits::{f32_abs_within_million, f32_abs_within_million_exec, f32_is_finite, f32_is_finite_exec};
use crate::host_state::entry_get;
use crate::motion::{TrackEnd, TrackTransform};
use crate::motion_links::{
    invalid_type, valid_path, FieldRef, LinkFault, MotionLinkError, ScalarTrackDescriptor, SpecialAttributeRef,
    TrackComponent, VelocityTrackDescriptor,
};
use crate::text::{parse_unsigned, parse_unsigned_text, str_eq};

verus! {

/// A manifest (JSON) value.
#[derive(Debug)]
pub enum ManifestValue {
    Null,
    Bool(bool),
    /// A number: its value when it is a non-negative integer, and the
    /// binary32 number nearest to it (as its encoding).
    Number { whole: Option<u64>, nearest: u32 },
    String(String),
    /// An array, and the special attribute reference it deserializes to.
    Array { items: Vec<ManifestValue>, special: Option<SpecialAttributeRef> },
    /// An object's entries in key order (keys are distinct), and the
    /// special attribute reference it deserializes to.
    Object { entries: Vec<(String, ManifestValue)>, special: Option<SpecialAttributeRef> },
}

/// The mathematical content of a manifest value.
pub enum Mv {
    Null,
    Bool(bool),
    Number(Option<u64>, u32),
    Str(Seq<char>),
    Array(Seq<Mv>, Option<SpecialAttributeRef>),
    Object(Seq<(Seq<char>, Mv)>, Option<SpecialAttributeRef>),
}

pub open spec fn mv_of(v: ManifestValue) -> Mv
    decreases v,
{
    match v {
        ManifestValue::Null => Mv::Null,
        ManifestValue::Bool(b) => Mv::Bool(b),
        ManifestValue::Number { whole, nearest } => Mv::Number(whole, nearest),
        ManifestValue::String(s) => Mv::Str(s@),
        ManifestValue::Array { items, special } => Mv::Array(Seq::new(items@.len(), |i: int| {
            if 0 <= i < items@.len() {
                mv_of(items@[i])
            } else {
                Mv::Null
            }
        }), special),
        ManifestValue::Object { entries, special } => Mv::Object(Seq::new(entries@.len(), |i: int| {
            if 0 <= i < entries@.len() {
                (entries@[i].0@, mv_of(entries@[i].1))
            } else {
                (Seq::empty(), Mv::Null)
            }
        }), special),
    }
}

impl View for ManifestValue {
    type V = Mv;

    open spec fn view(&self) -> Mv {
        mv_of(*self)
    }
}

pub open spec fn mv_items(s: Seq<ManifestValue>) -> Seq<Mv> {
    Seq::new(s.len(), |i: int| s[i]@)
}

pub open spec fn mv_entries(s: Seq<(String, ManifestValue)>) -> Seq<(Seq<char>, Mv)> {
    Seq::new(s.len(), |i: int| (s[i].0@, s[i].1@))
}

pub proof fn lemma_array_view(v: ManifestValue)
    requires
        v is Array,
    ensures
        v@ == Mv::Array(mv_items(v->items@), v->Array_special),
{
    assert(mv_items(v->items@) =~= match v@ {
        Mv::Array(d, _) => d,
        _ => Seq::empty(),
    });
}

pub proof fn lemma_object_view(v: ManifestValue)
    requires
        v is Object,
    ensures
        v@ == Mv::Object(mv_entries(v->entries@), v->Object_special),
{
    assert(mv_entries(v->entries@) =~= match v@ {
        Mv::Object(d, _) => d,
        _ => Seq::empty(),
    });
}

/// A constructor's name, positional arguments and keyword arguments.
pub struct PartsView {
    pub constructor: Seq<char>,
    pub args: Seq<Mv>,
    pub kwargs: Seq<(Seq<char>, Mv)>,
}

pub open spec fn itype(c: Seq<char>, k: Seq<char>) -> LinkFault {
    LinkFault::InvalidKeywordType(c, k)
}

pub open spec fn constructor_key(k: Seq<char>) -> bool {
    k == "callee"@ || k == "args"@ || k == "kwargs"@
}

/// The parts of a constructor object.
pub open spec fn parts_of(v: Mv) -> Result<PartsView, LinkFault> {
    match v {
        Mv::Object(entries, _) => match entry_get(entries, "callee"@) {
            Some(Mv::Str(c)) => {
                let args: Result<Seq<Mv>, LinkFault> = match entry_get(entries, "args"@) {
                    None => Ok(Seq::empty()),
                    Some(Mv::Array(items, _)) => Ok(items),
                    Some(_) => Err(itype(c, "args"@)),
                };
                let kwargs: Result<Seq<(Seq<char>, Mv)>, LinkFault> = match entry_get(entries, "kwargs"@) {
                    None => Ok(Seq::empty()),
                    Some(Mv::Object(kw, _)) => Ok(kw),
                    Some(_) => Err(itype(c, "kwargs"@)),
                };
                match args {
                    Err(f) => Err(f),
                    Ok(a) => match kwargs {
                        Err(f) => Err(f),
                        Ok(kw) => if exists|i: int| 0 <= i < entries.len() && !constructor_key(#[trigger] entries[i].0) {
                            Err(LinkFault::UnknownKeyword(c, "object field"@))
                        } else {
                            Ok(PartsView { constructor: c, args: a, kwargs: kw })
                        },
                    },
                }
            },
            _ => Err(LinkFault::ConstructorNotObject),
        },
        _ => Err(LinkFault::ConstructorNotObject),
    }
}

/// A constructor's parts, borrowed from the manifest value.
pub struct Parts<'a> {
    pub constructor: &'a String,
    pub args: Option<&'a Vec<ManifestValue>>,
    pub kwargs: Option<&'a Vec<(String, ManifestValue)>>,
}

pub open spec fn parts_view(p: Parts) -> PartsView {
    PartsView {
        constructor: p.constructor@,
        args: match p.args { Some(a) => mv_items(a@), None => Seq::empty() },
        kwargs: match p.kwargs { Some(k) => mv_entries(k@), None => Seq::empty() },
    }
}

/// The entry under `key`.
pub fn entry<'a>(entries: &'a Vec<(String, ManifestValue)>, key: &str) -> (r: Option<&'a ManifestValue>)
    ensures
        match r {
            Some(v) => entry_get(mv_entries(entries@), key@) == Some(v@),
            None => entry_get(mv_entries(entries@), key@) is None,
        },
{
    let ghost e = mv_entries(entries@);
    let mut i: usize = 0;
    assert(e.subrange(0, e.len() as int) =~= e);
    while i < entries.len()
        invariant
            i <= entries.len(),
            e == mv_entries(entries@),
            entry_get(e, key@) == entry_get(e.subrange(i as int, e.len() as int), key@),
        decreases entries.len() - i,
    {
        let ghost rest = e.subrange(i as int, e.len() as int);
        if str_eq(entries[i].0.as_str(), key) {
            assert(rest[0] == e[i as int]);
            return Some(&entries[i].1);
        }
        assert(rest.drop_first() =~= e.subrange(i + 1, e.len() as int));
        i = i + 1;
    }
    assert(e.subrange(i as int, e.len() as int) =~= Seq::<(Seq<char>, Mv)>::empty());
    None
}

/// The parts of the constructor object `value`.
#[verifier::loop_isolation(false)]
pub fn constructor_parts(value: &ManifestValue) -> (r: Result<Parts<'_>, MotionLinkError>)
    ensures
        match parts_of(value@) {
            Ok(p) => r matches Ok(q) && parts_view(q) == p,
            Err(f) => r matches Err(e) && e@ == f,
        },
{
    let entries = match value {
        ManifestValue::Object { entries, .. } => entries,
        _ => return Err(MotionLinkError::ConstructorNotObject),
    };
    proof {
        lemma_object_view(*value);
    }
    let constructor = match entry(entries, "callee") {
        Some(ManifestValue::String(c)) => c,
        _ => return Err(MotionLinkError::ConstructorNotObject),
    };
    let args = match entry(entries, "args") {
        None => None,
        Some(a) => match a {
            ManifestValue::Array { items, .. } => {
                proof {
                    lemma_array_view(*a);
                }
                Some(items)
            },
            _ => return Err(invalid_type(constructor.as_str(), "args")),
        },
    };
    let kwargs = match entry(entries, "kwargs") {
        None => None,
        Some(k) => match k {
            ManifestValue::Object { entries: kw, .. } => {
                proof {
                    lemma_object_view(*k);
                }
                Some(kw)
            },
            _ => return Err(invalid_type(constructor.as_str(), "kwargs")),
        },
    };
    let ghost e = mv_entries(entries@);
    let mut i: usize = 0;
    while i < entries.len()
        invariant
            i <= entries.len(),
            e == mv_entries(entries@),
            forall|j: int| 0 <= j < i ==> constructor_key(#[trigger] e[j].0),
        decreases entries.len() - i,
    {
        let key = entries[i].0.as_str();
        if !(str_eq(key, "callee") || str_eq(key, "args") || str_eq(key, "kwargs")) {
            assert(!constructor_key(e[i as int].0));
            return Err(MotionLinkError::UnknownKeyword {
                constructor: constructor.clone(),
                keyword: "object field".to_owned(),
            });
        }
        i = i + 1;
    }
    let r = Parts { constructor, args, kwargs };
    proof {
        assert(parts_view(r).args =~= match parts_of(value@) { Ok(p) => p.args, Err(_) => Seq::empty() });
    }
    Ok(r)
}

// ---------------------------------------------------------------------
// Keywords and scalar operands
// ---------------------------------------------------------------------

/// A scalar operand of an operation.
#[derive(Clone, Debug, PartialEq)]
pub enum ScalarRef {
    /// A binary32 literal, as its encoding.
    Literal(u32),
    Resource(FieldRef),
    Parameter(FieldRef),
    SpecialAttribute(SpecialAttributeRef),
}

pub enum ScalarView {
    Literal(u32),
    Resource(Seq<char>),
    Parameter(Seq<char>),
    SpecialAttribute(SpecialAttributeRef),
}

impl View for ScalarRef {
    type V = ScalarView;

    open spec fn view(&self) -> ScalarView {
        match self {
            ScalarRef::Literal(b) => ScalarView::Literal(*b),
            ScalarRef::Resource(f) => ScalarView::Resource(f@),
            ScalarRef::Parameter(f) => ScalarView::Parameter(f@),
            ScalarRef::SpecialAttribute(r) => ScalarView::SpecialAttribute(*r),
        }
    }
}

/// `r` is what `o` says, errors taken by their view.
pub open spec fn link_result<T, V>(r: Result<T, MotionLinkError>, o: Result<V, LinkFault>, view: spec_fn(T) -> V) -> bool {
    match o {
        Ok(v) => r matches Ok(t) && view(t) == v,
        Err(f) => r matches Err(e) && e@ == f,
    }
}

/// The first keyword not in `allowed`, as an unknown-keyword fault.
pub open spec fn unknown_keyword(c: Seq<char>, kw: Seq<(Seq<char>, Mv)>, allowed: Seq<Seq<char>>) -> Option<LinkFault> {
    if exists|i: int| 0 <= i < kw.len() && !allowed.contains(#[trigger] kw[i].0) {
        let i = choose|i: int| 0 <= i < kw.len() && !allowed.contains(#[trigger] kw[i].0)
            && forall|j: int| 0 <= j < i ==> allowed.contains(#[trigger] kw[j].0);
        Some(LinkFault::UnknownKeyword(c, kw[i].0))
    } else {
        None
    }
}

pub open spec fn special_of(v: Mv) -> Option<SpecialAttributeRef> {
    match v {
        Mv::Array(_, s) => s,
        Mv::Object(_, s) => s,
        _ => None,
    }
}

pub open spec fn bounded(b: u32) -> bool {
    f32_is_finite(b) && f32_abs_within_million(b)
}

/// A scalar operand: a literal within the state limit, or a reference
/// constructor with one argument.
pub open spec fn scalar_of(v: Mv) -> Result<ScalarView, LinkFault> {
    match v {
        Mv::Number(_, n) => if bounded(n) {
            Ok(ScalarView::Literal(n))
        } else {
            Err(LinkFault::InvalidNumber("literal"@))
        },
        _ => match parts_of(v) {
            Err(_) => Err(LinkFault::UntypedScalarReference),
            Ok(p) => if p.kwargs.len() > 0 || p.args.len() != 1 {
                Err(LinkFault::MalformedScalarReference)
            } else if p.constructor == "special_attribute"@ || p.constructor == "motion.special_attribute"@ {
                match special_of(p.args[0]) {
                    Some(r) => Ok(ScalarView::SpecialAttribute(r)),
                    None => Err(LinkFault::MalformedScalarReference),
                }
            } else {
                match p.args[0] {
                    Mv::Str(path) => if !valid_path(path) {
                        Err(LinkFault::InvalidPath(path))
                    } else if p.constructor == "resource"@ || p.constructor == "motion.resource"@ {
                        Ok(ScalarView::Resource(path))
                    } else if p.constructor == "parameter"@ || p.constructor == "motion.parameter"@ {
                        Ok(ScalarView::Parameter(path))
                    } else {
                        Err(LinkFault::UntypedScalarReference)
                    },
                    _ => Err(LinkFault::UntypedScalarReference),
                }
            },
        },
    }
}

/// Refuses the first keyword argument not in `allowed`.
pub fn reject_unknown(constructor: &str, kwargs: &Vec<(String, ManifestValue)>, allowed: &Vec<&str>) -> (r: Result<(), MotionLinkError>)
    ensures
        match unknown_keyword(constructor@, mv_entries(kwargs@), allowed@.map_values(|a: &str| a@)) {
            Some(f) => r matches Err(e) && e@ == f,
            None => r is Ok,
        },
{
    let ghost kw = mv_entries(kwargs@);
    let ghost al = allowed@.map_values(|a: &str| a@);
    let mut i: usize = 0;
    while i < kwargs.len()
        invariant
            i <= kwargs.len(),
            kw == mv_entries(kwargs@),
            al == allowed@.map_values(|a: &str| a@),
            forall|j: int| 0 <= j < i ==> al.contains(#[trigger] kw[j].0),
        decreases kwargs.len() - i,
    {
        let key = kwargs[i].0.as_str();
        let mut k: usize = 0;
        let mut found = false;
        while k < allowed.len()
            invariant
                k <= allowed.len(),
                al == allowed@.map_values(|a: &str| a@),
                found ==> al.contains(key@),
                !found ==> forall|j: int| 0 <= j < k ==> al[j] != key@,
            decreases allowed.len() - k,
        {
            if !found && str_eq(allowed[k], key) {
                found = true;
                assert(al[k as int] == key@);
            }
            k = k + 1;
        }
        if !found {
            proof {
                assert(kw[i as int].0 == key@);
                assert(!al.contains(key@)) by {
                    if al.contains(key@) {
                        let j = choose|j: int| 0 <= j < al.len() && al[j] == key@;
                        assert(al[j] != key@);
                    }
                }
                let c = choose|c: int| 0 <= c < kw.len() && !al.contains(#[trigger] kw[c].0)
                    && forall|j: int| 0 <= j < c ==> al.contains(#[trigger] kw[j].0);
                if c < i {
                    assert(al.contains(kw[c].0));
                } else if c > i {
                    assert(al.contains(kw[i as int].0));
                }
            }
            return Err(MotionLinkError::UnknownKeyword { constructor: constructor.to_owned(), keyword: kwargs[i].0.clone() });
        }
        i = i + 1;
    }
    Ok(())
}

fn special_attribute(v: &ManifestValue) -> (r: Option<SpecialAttributeRef>)
    ensures
        r == special_of(v@),
{
    match v {
        ManifestValue::Array { special, .. } => {
            proof {
                lemma_array_view(*v);
            }
            *special
        },
        ManifestValue::Object { special, .. } => {
            proof {
                lemma_object_view(*v);
            }
            *special
        },
        _ => None,
    }
}

/// A scalar operand.
pub fn parse_scalar(value: &ManifestValue) -> (r: Result<ScalarRef, MotionLinkError>)
    ensures
        link_result(r, scalar_of(value@), |s: ScalarRef| s@),
{
    if let ManifestValue::Number { nearest, .. } = value {
        if f32_is_finite_exec(*nearest) && f32_abs_within_million_exec(*nearest) {
            return Ok(ScalarRef::Literal(*nearest));
        }
        return Err(MotionLinkError::InvalidNumber { path: "literal".to_owned() });
    }
    let parts = match constructor_parts(value) {
        Ok(p) => p,
        Err(_) => return Err(MotionLinkError::UntypedScalarReference),
    };
    let ghost pv = parts_view(parts);
    let kw_count = match parts.kwargs { Some(k) => k.len(), None => 0 };
    let args = match parts.args {
        Some(a) => a,
        None => return Err(MotionLinkError::MalformedScalarReference),
    };
    if kw_count > 0 || args.len() != 1 {
        return Err(MotionLinkError::MalformedScalarReference);
    }
    assert(pv.args[0] == args@[0]@);
    let c = parts.constructor.as_str();
    if str_eq(c, "special_attribute") || str_eq(c, "motion.special_attribute") {
        return match special_attribute(&args[0]) {
            Some(r) => Ok(ScalarRef::SpecialAttribute(r)),
            None => Err(MotionLinkError::MalformedScalarReference),
        };
    }
    let path = match &args[0] {
        ManifestValue::String(p) => p,
        _ => return Err(MotionLinkError::UntypedScalarReference),
    };
    let field = FieldRef::new(path.clone())?;
    if str_eq(c, "resource") || str_eq(c, "motion.resource") {
        Ok(ScalarRef::Resource(field))
    } else if str_eq(c, "parameter") || str_eq(c, "motion.parameter") {
        Ok(ScalarRef::Parameter(field))
    } else {
        Err(MotionLinkError::UntypedScalarReference)
    }
}

pub open spec fn required_scalar_of(c: Seq<char>, kw: Seq<(Seq<char>, Mv)>, key: Seq<char>) -> Result<ScalarView, LinkFault> {
    match entry_get(kw, key) {
        None => Err(LinkFault::MissingKeyword(c, key)),
        Some(v) => scalar_of(v),
    }
}

/// A command slot index: a whole number below `COMMAND_SLOTS`.
pub open spec fn command_index_of(c: Seq<char>, kw: Seq<(Seq<char>, Mv)>, key: Seq<char>) -> Result<usize, LinkFault> {
    match entry_get(kw, key) {
        None => Err(LinkFault::MissingKeyword(c, key)),
        Some(Mv::Number(Some(n), _)) => if n < COMMAND_SLOTS { Ok(n as usize) } else { Err(itype(c, key)) },
        Some(_) => Err(itype(c, key)),
    }
}

/// A command value: a whole number at most `MAX_COMMAND_VALUE`.
pub open spec fn command_value_of(c: Seq<char>, kw: Seq<(Seq<char>, Mv)>, key: Seq<char>) -> Result<u32, LinkFault> {
    match entry_get(kw, key) {
        None => Err(LinkFault::MissingKeyword(c, key)),
        Some(Mv::Number(Some(n), _)) => if n <= MAX_COMMAND_VALUE { Ok(n as u32) } else { Err(itype(c, key)) },
        Some(_) => Err(itype(c, key)),
    }
}

pub open spec fn path_scalar_of(v: Mv) -> Result<ScalarView, LinkFault> {
    match v {
        Mv::Str(p) => if valid_path(p) { Ok(ScalarView::Resource(p)) } else { Err(LinkFault::InvalidPath(p)) },
        _ => Err(itype("motion"@, "path"@)),
    }
}

/// A scalar given either as `scalar_key` or as a resource path under
/// `path_key`, not both.
pub open spec fn keyword_or_path_of(c: Seq<char>, kw: Seq<(Seq<char>, Mv)>, scalar_key: Seq<char>, path_key: Seq<char>) -> Result<ScalarView, LinkFault> {
    match (entry_get(kw, scalar_key), entry_get(kw, path_key)) {
        (Some(_), Some(_)) => Err(itype(c, scalar_key)),
        (Some(v), None) => scalar_of(v),
        (None, Some(v)) => path_scalar_of(v),
        (None, None) => Err(LinkFault::MissingKeyword(c, scalar_key)),
    }
}

pub const COMMAND_SLOTS: u64 = 4;
pub const MAX_COMMAND_VALUE: u64 = 1_000_000;

pub(crate) fn keyword<'a>(kwargs: Option<&'a Vec<(String, ManifestValue)>>, key: &str) -> (r: Option<&'a ManifestValue>)
    ensures
        match r {
            Some(v) => entry_get(kw_view(kwargs), key@) == Some(v@),
            None => entry_get(kw_view(kwargs), key@) is None,
        },
{
    match kwargs {
        Some(k) => entry(k, key),
        None => None,
    }
}

pub open spec fn kw_view(kwargs: Option<&Vec<(String, ManifestValue)>>) -> Seq<(Seq<char>, Mv)> {
    match kwargs {
        Some(k) => mv_entries(k@),
        None => Seq::empty(),
    }
}

pub fn required_scalar(kwargs: Option<&Vec<(String, ManifestValue)>>, constructor: &str, key: &str) -> (r: Result<ScalarRef, MotionLinkError>)
    ensures
        link_result(r, required_scalar_of(constructor@, kw_view(kwargs), key@), |s: ScalarRef| s@),
{
    match keyword(kwargs, key) {
        None => Err(MotionLinkError::MissingKeyword { constructor: constructor.to_owned(), keyword: key.to_owned() }),
        Some(v) => parse_scalar(v),
    }
}

pub fn command_index(kwargs: Option<&Vec<(String, ManifestValue)>>, constructor: &str, key: &str) -> (r: Result<usize, MotionLinkError>)
    ensures
        link_result(r, command_index_of(constructor@, kw_view(kwargs), key@), |n: usize| n),
{
    match keyword(kwargs, key) {
        None => Err(MotionLinkError::MissingKeyword { constructor: constructor.to_owned(), keyword: key.to_owned() }),
        Some(ManifestValue::Number { whole: Some(n), .. }) => if *n < COMMAND_SLOTS {
            Ok(*n as usize)
        } else {
            Err(invalid_type(constructor, key))
        },
        Some(_) => Err(invalid_type(constructor, key)),
    }
}

pub fn command_value(kwargs: Option<&Vec<(String, ManifestValue)>>, constructor: &str, key: &str) -> (r: Result<u32, MotionLinkError>)
    ensures
        link_result(r, command_value_of(constructor@, kw_view(kwargs), key@), |n: u32| n),
{
    match keyword(kwargs, key) {
        None => Err(MotionLinkError::MissingKeyword { constructor: constructor.to_owned(), keyword: key.to_owned() }),
        Some(ManifestValue::Number { whole: Some(n), .. }) => if *n <= MAX_COMMAND_VALUE {
            Ok(*n as u32)
        } else {
            Err(invalid_type(constructor, key))
        },
        Some(_) => Err(invalid_type(constructor, key)),
    }
}

pub fn keyword_or_path(kwargs: Option<&Vec<(String, ManifestValue)>>, constructor: &str, scalar_key: &str, path_key: &str)
    -> (r: Result<ScalarRef, MotionLinkError>)
    ensures
        link_result(r, keyword_or_path_of(constructor@, kw_view(kwargs), scalar_key@, path_key@), |s: ScalarRef| s@),
{
    match (keyword(kwargs, scalar_key), keyword(kwargs, path_key)) {
        (Some(_), Some(_)) => Err(invalid_type(constructor, scalar_key)),
        (Some(v), None) => parse_scalar(v),
        (None, Some(v)) => match v {
            ManifestValue::String(p) => Ok(ScalarRef::Resource(FieldRef::new(p.clone())?)),
            _ => Err(invalid_type("motion", "path")),
        },
        (None, None) => Err(MotionLinkError::MissingKeyword { constructor: constructor.to_owned(), keyword: scalar_key.to_owned() }),
    }
}

// ---------------------------------------------------------------------
// Velocity tracks
// ---------------------------------------------------------------------

pub open spec fn optional_string_of(c: Seq<char>, kw: Seq<(Seq<char>, Mv)>, key: Seq<char>) -> Result<Option<Seq<char>>, LinkFault> {
    match entry_get(kw, key) {
        None => Ok(None),
        Some(Mv::Str(s)) => Ok(Some(s)),
        Some(_) => Err(itype(c, key)),
    }
}

pub open spec fn component_of(s: Seq<char>) -> Option<TrackComponent> {
    if s == "x"@ { Some(TrackComponent::X) } else if s == "y"@ { Some(TrackComponent::Y) }
    else if s == "xy"@ || s == "both"@ { Some(TrackComponent::Both) } else { None }
}

pub open spec fn end_of(s: Seq<char>) -> Option<TrackEnd> {
    if s == "no_op"@ { Some(TrackEnd::NoOp) } else if s == "hold_last"@ { Some(TrackEnd::HoldLast) }
    else if s == "loop"@ { Some(TrackEnd::Loop) } else { None }
}

pub open spec fn transform_name_of(s: Seq<char>) -> Option<TrackTransform> {
    if s == "absolute"@ { Some(TrackTransform::Absolute) }
    else if s == "binding_scale"@ || s == "facing"@ { Some(TrackTransform::BindingScale) } else { None }
}

/// An optional named transform.
pub open spec fn named_transform_of(c: Seq<char>, kw: Seq<(Seq<char>, Mv)>, key: Seq<char>) -> Result<Option<TrackTransform>, LinkFault> {
    match optional_string_of(c, kw, key) {
        Err(f) => Err(f),
        Ok(None) => Ok(None),
        Ok(Some(s)) => match transform_name_of(s) {
            Some(t) => Ok(Some(t)),
            None => Err(itype(c, "transform"@)),
        },
    }
}

/// A transform given by name under `transform_key` or by the legacy flag
/// `boolean_key` (which must agree when both are given).
pub open spec fn transform_of(c: Seq<char>, kw: Seq<(Seq<char>, Mv)>, transform_key: Seq<char>, boolean_key: Seq<char>, default: TrackTransform)
    -> Result<TrackTransform, LinkFault> {
    match named_transform_of(c, kw, transform_key) {
        Err(f) => Err(f),
        Ok(t) => match entry_get(kw, boolean_key) {
            Some(Mv::Bool(flag)) => match t {
                Some(t) => if (t == TrackTransform::BindingScale) == flag { Ok(t) } else { Err(itype(c, boolean_key)) },
                None => if flag { Ok(TrackTransform::BindingScale) } else { Ok(default) },
            },
            Some(_) => Err(itype(c, boolean_key)),
            None => match t {
                Some(t) => Ok(t),
                None => Ok(default),
            },
        },
    }
}

/// A field path: a path string or a `resource(path)` constructor.
pub open spec fn field_value_of(v: Mv, c: Seq<char>, key: Seq<char>) -> Result<Seq<char>, LinkFault> {
    let checked = |p: Seq<char>| if valid_path(p) { Ok(p) } else { Err(LinkFault::InvalidPath(p)) };
    match v {
        Mv::Str(p) => checked(p),
        _ => match parts_of(v) {
            Err(_) => Err(itype(c, key)),
            Ok(parts) => if !(parts.constructor == "resource"@ || parts.constructor == "motion.resource"@)
                || parts.kwargs.len() > 0 || parts.args.len() != 1 || !(parts.args[0] is Str) {
                Err(itype(c, key))
            } else {
                checked(parts.args[0]->Str_0)
            },
        },
    }
}

pub struct TrackView {
    pub path: Seq<char>,
    pub component: TrackComponent,
    pub end: TrackEnd,
    pub x_transform: TrackTransform,
    pub y_transform: TrackTransform,
}

pub open spec fn track_view(t: VelocityTrackDescriptor) -> TrackView {
    TrackView { path: t.path@, component: t.component, end: t.end, x_transform: t.x_transform, y_transform: t.y_transform }
}

pub open spec fn velocity_keys() -> Seq<Seq<char>> {
    seq!["path"@, "component"@, "end"@, "transform"@, "x_transform"@, "y_transform"@, "multiply_x_by_facing"@,
        "multiply_y_by_facing"@]
}

/// `motion.velocity_track(path, component?, end?, transform?,
/// x_transform?, y_transform?, multiply_x_by_facing?,
/// multiply_y_by_facing?)`.
pub open spec fn velocity_track_of(c: Seq<char>, kw: Seq<(Seq<char>, Mv)>) -> Result<TrackView, LinkFault> {
    match unknown_keyword(c, kw, velocity_keys()) {
        Some(f) => Err(f),
        None => match entry_get(kw, "path"@) {
            None => Err(LinkFault::MissingKeyword(c, "path"@)),
            Some(pv) => match field_value_of(pv, c, "path"@) {
                Err(f) => Err(f),
                Ok(path) => match optional_string_of(c, kw, "component"@) {
                    Err(f) => Err(f),
                    Ok(cs) => {
                        let component: Result<TrackComponent, LinkFault> = match cs {
                            None => Ok(TrackComponent::Both),
                            Some(s) => match component_of(s) { Some(x) => Ok(x), None => Err(itype(c, "component"@)) },
                        };
                        match component {
                            Err(f) => Err(f),
                            Ok(component) => match optional_string_of(c, kw, "end"@) {
                                Err(f) => Err(f),
                                Ok(es) => {
                                    let end: Result<TrackEnd, LinkFault> = match es {
                                        None => Ok(TrackEnd::NoOp),
                                        Some(s) => match end_of(s) { Some(x) => Ok(x), None => Err(itype(c, "end"@)) },
                                    };
                                    match end {
                                        Err(f) => Err(f),
                                        Ok(end) => match named_transform_of(c, kw, "transform"@) {
                                            Err(f) => Err(f),
                                            Ok(dt) => {
                                                let default = match dt { Some(t) => t, None => TrackTransform::Absolute };
                                                match transform_of(c, kw, "x_transform"@, "multiply_x_by_facing"@, default) {
                                                    Err(f) => Err(f),
                                                    Ok(x) => match transform_of(c, kw, "y_transform"@, "multiply_y_by_facing"@, default) {
                                                        Err(f) => Err(f),
                                                        Ok(y) => Ok(TrackView { path, component, end, x_transform: x, y_transform: y }),
                                                    },
                                                }
                                            },
                                        },
                                    }
                                },
                            },
                        }
                    },
                },
            },
        },
    }
}

fn optional_string<'a>(kwargs: Option<&'a Vec<(String, ManifestValue)>>, constructor: &str, key: &str)
    -> (r: Result<Option<&'a String>, MotionLinkError>)
    ensures
        match optional_string_of(constructor@, kw_view(kwargs), key@) {
            Ok(Some(s)) => r matches Ok(Some(t)) && t@ == s,
            Ok(None) => r matches Ok(None),
            Err(f) => r matches Err(e) && e@ == f,
        },
{
    match keyword(kwargs, key) {
        None => Ok(None),
        Some(ManifestValue::String(s)) => Ok(Some(s)),
        Some(_) => Err(invalid_type(constructor, key)),
    }
}

fn named_transform(kwargs: Option<&Vec<(String, ManifestValue)>>, constructor: &str, key: &str)
    -> (r: Result<Option<TrackTransform>, MotionLinkError>)
    ensures
        link_result(r, named_transform_of(constructor@, kw_view(kwargs), key@), |t: Option<TrackTransform>| t),
{
    match optional_string(kwargs, constructor, key)? {
        None => Ok(None),
        Some(s) => Ok(Some(crate::motion_links::parse_transform(constructor, s.as_str())?)),
    }
}

fn transform(kwargs: Option<&Vec<(String, ManifestValue)>>, constructor: &str, transform_key: &str, boolean_key: &str, default: TrackTransform)
    -> (r: Result<TrackTransform, MotionLinkError>)
    ensures
        link_result(r, transform_of(constructor@, kw_view(kwargs), transform_key@, boolean_key@, default), |t: TrackTransform| t),
{
    let t = named_transform(kwargs, constructor, transform_key)?;
    match keyword(kwargs, boolean_key) {
        Some(ManifestValue::Bool(flag)) => match t {
            Some(t) => {
                let binding_scale = match t {
                    TrackTransform::BindingScale => true,
                    TrackTransform::Absolute => false,
                };
                if binding_scale == *flag { Ok(t) } else { Err(invalid_type(constructor, boolean_key)) }
            },
            None => if *flag { Ok(TrackTransform::BindingScale) } else { Ok(default) },
        },
        Some(_) => Err(invalid_type(constructor, boolean_key)),
        None => match t {
            Some(t) => Ok(t),
            None => Ok(default),
        },
    }
}

fn field_value(value: &ManifestValue, constructor: &str, key: &str) -> (r: Result<FieldRef, MotionLinkError>)
    ensures
        link_result(r, field_value_of(value@, constructor@, key@), |f: FieldRef| f@),
{
    if let ManifestValue::String(p) = value {
        return FieldRef::new(p.clone());
    }
    let parts = match constructor_parts(value) {
        Ok(p) => p,
        Err(_) => return Err(invalid_type(constructor, key)),
    };
    let ghost pv = parts_view(parts);
    let c = parts.constructor.as_str();
    let kw_count = match parts.kwargs { Some(k) => k.len(), None => 0 };
    let args = match parts.args {
        Some(a) => a,
        None => return Err(invalid_type(constructor, key)),
    };
    if !(str_eq(c, "resource") || str_eq(c, "motion.resource")) || kw_count > 0 || args.len() != 1 {
        return Err(invalid_type(constructor, key));
    }
    assert(pv.args[0] == args@[0]@);
    match &args[0] {
        ManifestValue::String(p) => FieldRef::new(p.clone()),
        _ => Err(invalid_type(constructor, key)),
    }
}

/// Parses the keyword arguments of `motion.velocity_track`.
pub fn velocity_track(constructor: &str, kwargs: Option<&Vec<(String, ManifestValue)>>) -> (r: Result<VelocityTrackDescriptor, MotionLinkError>)
    ensures
        link_result(r, velocity_track_of(constructor@, kw_view(kwargs)), |t: VelocityTrackDescriptor| track_view(t)),
{
    let allowed: Vec<&str> = vec!["path", "component", "end", "transform", "x_transform", "y_transform",
        "multiply_x_by_facing", "multiply_y_by_facing"];
    proof {
        assert(allowed@.map_values(|a: &str| a@) =~= velocity_keys());
    }
    match kwargs {
        Some(k) => reject_unknown(constructor, k, &allowed)?,
        None => {
            assert(unknown_keyword(constructor@, kw_view(kwargs), velocity_keys()) is None);
        },
    }
    let path = match keyword(kwargs, "path") {
        None => return Err(MotionLinkError::MissingKeyword { constructor: constructor.to_owned(), keyword: "path".to_owned() }),
        Some(v) => field_value(v, constructor, "path")?,
    };
    let component = match optional_string(kwargs, constructor, "component")? {
        None => TrackComponent::Both,
        Some(s) => crate::motion_links::parse_component(constructor, s.as_str())?,
    };
    let end = match optional_string(kwargs, constructor, "end")? {
        None => TrackEnd::NoOp,
        Some(s) => crate::motion_links::parse_end(constructor, s.as_str())?,
    };
    let default = match named_transform(kwargs, constructor, "transform")? {
        Some(t) => t,
        None => TrackTransform::Absolute,
    };
    let x_transform = transform(kwargs, constructor, "x_transform", "multiply_x_by_facing", default)?;
    let y_transform = transform(kwargs, constructor, "y_transform", "multiply_y_by_facing", default)?;
    Ok(VelocityTrackDescriptor { path, component, end, x_transform, y_transform })
}

pub struct ScalarTrackView {
    pub path: Seq<char>,
    pub end: TrackEnd,
    pub transform: TrackTransform,
}

pub open spec fn scalar_track_view(t: ScalarTrackDescriptor) -> ScalarTrackView {
    ScalarTrackView { path: t.path@, end: t.end, transform: t.transform }
}

pub open spec fn scalar_track_keys() -> Seq<Seq<char>> {
    seq!["path"@, "end"@, "transform"@, "multiply_by_facing"@]
}

/// `motion.target_track(path, end?, transform?, multiply_by_facing?)`.
pub open spec fn scalar_track_of(c: Seq<char>, kw: Seq<(Seq<char>, Mv)>) -> Result<ScalarTrackView, LinkFault> {
    match unknown_keyword(c, kw, scalar_track_keys()) {
        Some(f) => Err(f),
        None => match entry_get(kw, "path"@) {
            None => Err(LinkFault::MissingKeyword(c, "path"@)),
            Some(pv) => match field_value_of(pv, c, "path"@) {
                Err(f) => Err(f),
                Ok(path) => match optional_string_of(c, kw, "end"@) {
                    Err(f) => Err(f),
                    Ok(es) => {
                        let end: Result<TrackEnd, LinkFault> = match es {
                            None => Ok(TrackEnd::NoOp),
                            Some(s) => match end_of(s) { Some(x) => Ok(x), None => Err(itype(c, "end"@)) },
                        };
                        match end {
                            Err(f) => Err(f),
                            Ok(end) => match transform_of(c, kw, "transform"@, "multiply_by_facing"@, TrackTransform::Absolute) {
                                Err(f) => Err(f),
                                Ok(t) => Ok(ScalarTrackView { path, end, transform: t }),
                            },
                        }
                    },
                },
            },
        },
    }
}

/// Parses the keyword arguments of `motion.target_track`.
pub fn scalar_track(constructor: &str, kwargs: Option<&Vec<(String, ManifestValue)>>) -> (r: Result<ScalarTrackDescriptor, MotionLinkError>)
    ensures
        link_result(r, scalar_track_of(constructor@, kw_view(kwargs)), |t: ScalarTrackDescriptor| scalar_track_view(t)),
{
    let allowed: Vec<&str> = vec!["path", "end", "transform", "multiply_by_facing"];
    proof {
        assert(allowed@.map_values(|a: &str| a@) =~= scalar_track_keys());
    }
    match kwargs {
        Some(k) => reject_unknown(constructor, k, &allowed)?,
        None => {
            assert(unknown_keyword(constructor@, kw_view(kwargs), scalar_track_keys()) is None);
        },
    }
    let path = match keyword(kwargs, "path") {
        None => return Err(MotionLinkError::MissingKeyword { constructor: constructor.to_owned(), keyword: "path".to_owned() }),
        Some(v) => field_value(v, constructor, "path")?,
    };
    let end = match optional_string(kwargs, constructor, "end")? {
        None => TrackEnd::NoOp,
        Some(s) => crate::motion_links::parse_end(constructor, s.as_str())?,
    };
    let t = transform(kwargs, constructor, "transform", "multiply_by_facing", TrackTransform::Absolute)?;
    Ok(ScalarTrackDescriptor { path, end, transform: t })
}

// ---------------------------------------------------------------------
// Air operations
// ---------------------------------------------------------------------

/// One air motion operation.
#[derive(Debug, PartialEq)]
pub enum AirOperationDescriptor {
    Gravity { acceleration: ScalarRef, terminal_velocity: ScalarRef, delay: ScalarRef },
    GravityMultiplier { index: usize, value: u32, multiplier: ScalarRef },
    Friction { amount: ScalarRef },
    VerticalGravity { gravity: ScalarRef },
    StickSteering { threshold: ScalarRef, acceleration: ScalarRef, target: ScalarRef },
    VelocityTrack(VelocityTrackDescriptor),
    DirectionalAcceleration { starts_at: ScalarRef, magnitude: ScalarRef },
    DriftClamp { maximum: ScalarRef, acceleration: ScalarRef },
    DriftOrFriction { recovery_step: ScalarRef },
    CommandVelocityScale { index: usize, value: u32, multiplier: ScalarRef },
    /// Mutually exclusive cases on a command slot, by ascending value.
    CommandBranch { index: usize, cases: Vec<(u32, Vec<AirOperationDescriptor>)> },
}

pub enum AirView {
    Gravity(ScalarView, ScalarView, ScalarView),
    GravityMultiplier(usize, u32, ScalarView),
    Friction(ScalarView),
    VerticalGravity(ScalarView),
    StickSteering(ScalarView, ScalarView, ScalarView),
    VelocityTrack(TrackView),
    DirectionalAcceleration(ScalarView, ScalarView),
    DriftClamp(ScalarView, ScalarView),
    DriftOrFriction(ScalarView),
    CommandVelocityScale(usize, u32, ScalarView),
    CommandBranch(usize, Seq<(u32, Seq<AirView>)>),
}

pub open spec fn air_view(op: AirOperationDescriptor) -> AirView
    decreases op,
{
    match op {
        AirOperationDescriptor::Gravity { acceleration, terminal_velocity, delay } =>
            AirView::Gravity(acceleration@, terminal_velocity@, delay@),
        AirOperationDescriptor::GravityMultiplier { index, value, multiplier } => AirView::GravityMultiplier(index, value, multiplier@),
        AirOperationDescriptor::Friction { amount } => AirView::Friction(amount@),
        AirOperationDescriptor::VerticalGravity { gravity } => AirView::VerticalGravity(gravity@),
        AirOperationDescriptor::StickSteering { threshold, acceleration, target } =>
            AirView::StickSteering(threshold@, acceleration@, target@),
        AirOperationDescriptor::VelocityTrack(t) => AirView::VelocityTrack(track_view(t)),
        AirOperationDescriptor::DirectionalAcceleration { starts_at, magnitude } => AirView::DirectionalAcceleration(starts_at@, magnitude@),
        AirOperationDescriptor::DriftClamp { maximum, acceleration } => AirView::DriftClamp(maximum@, acceleration@),
        AirOperationDescriptor::DriftOrFriction { recovery_step } => AirView::DriftOrFriction(recovery_step@),
        AirOperationDescriptor::CommandVelocityScale { index, value, multiplier } => AirView::CommandVelocityScale(index, value, multiplier@),
        AirOperationDescriptor::CommandBranch { index, cases } => AirView::CommandBranch(index, Seq::new(cases@.len(), |k: int| {
            if 0 <= k < cases@.len() {
                (cases@[k].0, Seq::new(cases@[k].1@.len(), |m: int| {
                    if 0 <= m < cases@[k].1@.len() {
                        air_view(cases@[k].1@[m])
                    } else {
                        AirView::Friction(ScalarView::Literal(0))
                    }
                }))
            } else {
                (0, Seq::empty())
            }
        })),
    }
}

pub open spec fn air_views(ops: Seq<AirOperationDescriptor>) -> Seq<AirView> {
    Seq::new(ops.len(), |m: int| air_view(ops[m]))
}

pub open spec fn case_views(cases: Seq<(u32, Vec<AirOperationDescriptor>)>) -> Seq<(u32, Seq<AirView>)> {
    Seq::new(cases.len(), |k: int| (cases[k].0, air_views(cases[k].1@)))
}

pub proof fn lemma_branch_view(op: AirOperationDescriptor)
    requires
        op is CommandBranch,
    ensures
        air_view(op) == AirView::CommandBranch(op->CommandBranch_index, case_views(op->CommandBranch_cases@)),
{
    let cases = op->CommandBranch_cases@;
    assert forall|k: int| 0 <= k < cases.len() implies air_views(cases[k].1@) =~= match air_view(op) {
        AirView::CommandBranch(_, cs) => cs[k].1,
        _ => Seq::empty(),
    } by {}
    assert(case_views(cases) =~= match air_view(op) {
        AirView::CommandBranch(_, cs) => cs,
        _ => Seq::empty(),
    });
}

pub open spec fn and_then<A, B>(r: Result<A, LinkFault>, f: spec_fn(A) -> Result<B, LinkFault>) -> Result<B, LinkFault> {
    match r {
        Ok(a) => f(a),
        Err(e) => Err(e),
    }
}

pub open spec fn with_keys<V>(c: Seq<char>, kw: Seq<(Seq<char>, Mv)>, allowed: Seq<Seq<char>>, r: Result<V, LinkFault>) -> Result<V, LinkFault> {
    match unknown_keyword(c, kw, allowed) {
        Some(f) => Err(f),
        None => r,
    }
}

/// The first index of `key` among `entries`.
pub open spec fn first_key(entries: Seq<(Seq<char>, Mv)>, key: Seq<char>) -> Option<int> {
    if exists|i: int| 0 <= i < entries.len() && entries[i].0 == key {
        Some(choose|i: int| 0 <= i < entries.len() && entries[i].0 == key && forall|j: int| 0 <= j < i ==> entries[j].0 != key)
    } else {
        None
    }
}

/// The first error among `results`.
pub open spec fn first_error(results: Seq<Result<AirView, LinkFault>>) -> Option<LinkFault> {
    if exists|i: int| 0 <= i < results.len() && (#[trigger] results[i]) is Err {
        let i = choose|i: int| 0 <= i < results.len() && (#[trigger] results[i]) is Err
            && forall|j: int| 0 <= j < i ==> (#[trigger] results[j]) is Ok;
        Some(results[i]->Err_0)
    } else {
        None
    }
}

/// `cases` with `x` placed by ascending value.
pub open spec fn insert_sorted(cases: Seq<(u32, Seq<AirView>)>, x: (u32, Seq<AirView>)) -> Seq<(u32, Seq<AirView>)>
    decreases cases.len(),
{
    if cases.len() == 0 {
        seq![x]
    } else if x.0 < cases[0].0 {
        seq![x] + cases
    } else {
        seq![cases[0]] + insert_sorted(cases.drop_first(), x)
    }
}

/// One case of a command branch: its key, and the parse of its value
/// (`None` when it is not an array; otherwise each operation's parse).
pub open spec fn case_step(c: Seq<char>, acc: Seq<(u32, Seq<AirView>)>, key: Seq<char>, ops: Option<Seq<Result<AirView, LinkFault>>>)
    -> Result<Seq<(u32, Seq<AirView>)>, LinkFault> {
    match parse_unsigned(key, u32::MAX as nat) {
        Some(n) => if n > MAX_COMMAND_VALUE {
            Err(itype(c, "cases"@))
        } else {
            match ops {
                None => Err(itype(c, "cases"@)),
                Some(results) => if results.len() == 0 {
                    Err(itype(c, "cases"@))
                } else {
                    match first_error(results) {
                        Some(f) => Err(f),
                        None => if exists|i: int| 0 <= i < acc.len() && (#[trigger] acc[i]).0 == n {
                            Err(itype(c, "cases"@))
                        } else {
                            Ok(insert_sorted(acc, (n as u32, Seq::new(results.len(), |m: int| results[m]->Ok_0))))
                        },
                    }
                },
            }
        },
        None => Err(itype(c, "cases"@)),
    }
}

pub open spec fn cases_fold(c: Seq<char>, keys: Seq<Seq<char>>, ops: Seq<Option<Seq<Result<AirView, LinkFault>>>>, n: nat)
    -> Result<Seq<(u32, Seq<AirView>)>, LinkFault>
    decreases n,
{
    if n == 0 {
        Ok(Seq::empty())
    } else {
        match cases_fold(c, keys, ops, (n - 1) as nat) {
            Err(f) => Err(f),
            Ok(acc) => case_step(c, acc, keys[n - 1], ops[n - 1]),
        }
    }
}

pub open spec fn case_keys(ce: Seq<(Seq<char>, Mv)>) -> Seq<Seq<char>> {
    Seq::new(ce.len(), |k: int| ce[k].0)
}

/// The parse of each case's operations (`None` for a case that is not an
/// array).
pub open spec fn case_ops(ce: Seq<(Seq<char>, Mv)>) -> Seq<Option<Seq<Result<AirView, LinkFault>>>>
    decreases ce, 3int,
{
    Seq::new(ce.len(), |k: int| {
        if 0 <= k < ce.len() {
            match ce[k].1 {
                Mv::Array(items, _) => Some(op_results(items)),
                _ => None,
            }
        } else {
            None
        }
    })
}

/// The parse of each operation of a case.
pub open spec fn op_results(items: Seq<Mv>) -> Seq<Result<AirView, LinkFault>>
    decreases items, 2int,
{
    Seq::new(items.len(), |m: int| {
        if 0 <= m < items.len() {
            air_of(items[m])
        } else {
            Err(LinkFault::ConstructorNotObject)
        }
    })
}

/// `motion.command_branch(index, cases)`: `cases` is a non-empty record
/// from command values to non-empty lists of operations.
#[verifier::opaque]
pub open spec fn branch_of(v: Mv, c: Seq<char>, index: usize) -> Result<AirView, LinkFault>
    decreases v, 0int,
{
    match v {
        Mv::Object(entries, _) => match first_key(entries, "kwargs"@) {
            Some(ki) => if 0 <= ki < entries.len() {
                match entries[ki].1 {
                    Mv::Object(kwe, _) => match first_key(kwe, "cases"@) {
                        Some(ci) => if 0 <= ci < kwe.len() {
                            match kwe[ci].1 {
                                Mv::Object(ce, _) => if ce.len() == 0 {
                                    Err(itype(c, "cases"@))
                                } else {
                                    match cases_fold(c, case_keys(ce), case_ops(ce), ce.len()) {
                                        Err(f) => Err(f),
                                        Ok(cases) => Ok(AirView::CommandBranch(index, cases)),
                                    }
                                },
                                _ => Err(itype(c, "cases"@)),
                            }
                        } else {
                            Err(LinkFault::MissingKeyword(c, "cases"@))
                        },
                        None => Err(LinkFault::MissingKeyword(c, "cases"@)),
                    },
                    _ => Err(LinkFault::MissingKeyword(c, "cases"@)),
                }
            } else {
                Err(LinkFault::MissingKeyword(c, "cases"@))
            },
            None => Err(LinkFault::MissingKeyword(c, "cases"@)),
        },
        _ => Err(LinkFault::ConstructorNotObject),
    }
}

/// An air operation other than a command branch.
#[verifier::opaque]
pub open spec fn simple_air_of(c: Seq<char>, kw: Seq<(Seq<char>, Mv)>) -> Result<AirView, LinkFault> {
    let sc = |k: Seq<char>| required_scalar_of(c, kw, k);
    if c == "motion.gravity"@ {
        with_keys(c, kw, seq!["acceleration"@, "terminal_velocity"@, "delay"@],
            and_then(sc("acceleration"@), |a: ScalarView| and_then(sc("terminal_velocity"@), |t: ScalarView|
            and_then(sc("delay"@), |d: ScalarView| Ok(AirView::Gravity(a, t, d))))))
    } else if c == "motion.gravity_multiplier"@ {
        with_keys(c, kw, seq!["index"@, "value"@, "multiplier"@],
            and_then(command_index_of(c, kw, "index"@), |i: usize| and_then(command_value_of(c, kw, "value"@), |n: u32|
            and_then(sc("multiplier"@), |m: ScalarView| Ok(AirView::GravityMultiplier(i, n, m))))))
    } else if c == "motion.friction"@ || c == "motion.air_friction"@ {
        with_keys(c, kw, seq!["amount"@, "path"@],
            and_then(keyword_or_path_of(c, kw, "amount"@, "path"@), |a: ScalarView| Ok(AirView::Friction(a))))
    } else if c == "motion.vertical_gravity"@ {
        with_keys(c, kw, seq!["value"@, "path"@],
            and_then(keyword_or_path_of(c, kw, "value"@, "path"@), |a: ScalarView| Ok(AirView::VerticalGravity(a))))
    } else if c == "motion.stick_steering"@ {
        with_keys(c, kw, seq!["threshold"@, "acceleration"@, "target"@],
            and_then(sc("threshold"@), |a: ScalarView| and_then(sc("acceleration"@), |b: ScalarView|
            and_then(sc("target"@), |d: ScalarView| Ok(AirView::StickSteering(a, b, d))))))
    } else if c == "motion.velocity_track"@ {
        and_then(velocity_track_of(c, kw), |t: TrackView| Ok(AirView::VelocityTrack(t)))
    } else if c == "motion.directional_acceleration"@ {
        with_keys(c, kw, seq!["starts_at"@, "magnitude"@],
            and_then(sc("starts_at"@), |a: ScalarView| and_then(sc("magnitude"@), |b: ScalarView|
            Ok(AirView::DirectionalAcceleration(a, b)))))
    } else if c == "motion.drift_clamp"@ {
        with_keys(c, kw, seq!["maximum"@, "acceleration"@],
            and_then(sc("maximum"@), |a: ScalarView| and_then(sc("acceleration"@), |b: ScalarView|
            Ok(AirView::DriftClamp(a, b)))))
    } else if c == "motion.drift_or_friction"@ {
        with_keys(c, kw, seq!["recovery_step"@],
            and_then(sc("recovery_step"@), |a: ScalarView| Ok(AirView::DriftOrFriction(a))))
    } else if c == "motion.command_velocity_scale"@ {
        with_keys(c, kw, seq!["index"@, "value"@, "multiplier"@],
            and_then(command_index_of(c, kw, "index"@), |i: usize| and_then(command_value_of(c, kw, "value"@), |n: u32|
            and_then(sc("multiplier"@), |m: ScalarView| Ok(AirView::CommandVelocityScale(i, n, m))))))
    } else {
        Err(LinkFault::UnknownConstructor(c))
    }
}

/// The air operation the manifest value `v` describes.
#[verifier::opaque]
pub open spec fn air_of(v: Mv) -> Result<AirView, LinkFault>
    decreases v, 1int,
{
    match parts_of(v) {
        Err(f) => Err(f),
        Ok(p) => {
            let c = p.constructor;
            let kw = p.kwargs;
            if p.args.len() > 0 {
                Err(LinkFault::InvalidArgumentCount(c))
            } else if c == "motion.command_branch"@ {
                with_keys(c, kw, seq!["index"@, "cases"@],
                    and_then(command_index_of(c, kw, "index"@), |i: usize| branch_of(v, c, i)))
            } else {
                simple_air_of(c, kw)
            }
        },
    }
}

pub(crate) fn key_index(entries: &Vec<(String, ManifestValue)>, key: &str) -> (r: Option<usize>)
    ensures
        match r {
            Some(i) => first_key(mv_entries(entries@), key@) == Some(i as int) && i < entries@.len(),
            None => first_key(mv_entries(entries@), key@) is None,
        },
{
    let ghost e = mv_entries(entries@);
    let mut i: usize = 0;
    while i < entries.len()
        invariant
            i <= entries.len(),
            e == mv_entries(entries@),
            forall|j: int| 0 <= j < i ==> e[j].0 != key@,
        decreases entries.len() - i,
    {
        if str_eq(entries[i].0.as_str(), key) {
            proof {
                assert(e[i as int].0 == key@);
                let f = first_key(e, key@)->0;
                if f < i {
                    assert(e[f].0 != key@);
                } else if f > i {
                    assert(e[i as int].0 == key@);
                }
            }
            return Some(i);
        }
        i = i + 1;
    }
    None
}

proof fn lemma_insert_sorted(s: Seq<(u32, Seq<AirView>)>, x: (u32, Seq<AirView>), p: int)
    requires
        0 <= p <= s.len(),
        forall|i: int| 0 <= i < p ==> (#[trigger] s[i]).0 < x.0,
        forall|i: int| p <= i < s.len() ==> (#[trigger] s[i]).0 > x.0,
    ensures
        insert_sorted(s, x) == s.take(p) + seq![x] + s.skip(p),
    decreases s.len(),
{
    if s.len() == 0 {
        assert(s.take(p) + seq![x] + s.skip(p) =~= seq![x]);
    } else if p == 0 {
        assert(x.0 < s[0].0);
        assert(s.take(p) + seq![x] + s.skip(p) =~= seq![x] + s);
    } else {
        let t = s.drop_first();
        assert forall|i: int| 0 <= i < p - 1 implies (#[trigger] t[i]).0 < x.0 by {
            assert(t[i] == s[i + 1]);
        }
        assert forall|i: int| p - 1 <= i < t.len() implies (#[trigger] t[i]).0 > x.0 by {
            assert(t[i] == s[i + 1]);
        }
        lemma_insert_sorted(t, x, p - 1);
        assert(seq![s[0]] + (t.take(p - 1) + seq![x] + t.skip(p - 1)) =~= s.take(p) + seq![x] + s.skip(p));
    }
}

proof fn lemma_cases_err_extends(c: Seq<char>, keys: Seq<Seq<char>>, ops: Seq<Option<Seq<Result<AirView, LinkFault>>>>, k: nat, n: nat, f: LinkFault)
    requires
        k <= n,
        cases_fold(c, keys, ops, k) == Err::<Seq<(u32, Seq<AirView>)>, LinkFault>(f),
    ensures
        cases_fold(c, keys, ops, n) == Err::<Seq<(u32, Seq<AirView>)>, LinkFault>(f),
    decreases n - k,
{
    if k < n {
        lemma_cases_err_extends(c, keys, ops, k, (n - 1) as nat, f);
    }
}


proof fn lemma_first_error(results: Seq<Result<AirView, LinkFault>>, m: int)
    requires
        0 <= m < results.len(),
        results[m] is Err,
        forall|j: int| 0 <= j < m ==> (#[trigger] results[j]) is Ok,
    ensures
        first_error(results) == Some(results[m]->Err_0),
{
    let f = choose|i: int| 0 <= i < results.len() && (#[trigger] results[i]) is Err
        && forall|j: int| 0 <= j < i ==> (#[trigger] results[j]) is Ok;
    if f < m {
        assert(results[f] is Ok);
    } else if f > m {
        assert(results[m] is Ok);
    }
}

/// Parses the operations of one case, stopping at the first refusal.
#[verifier::rlimit(100)]
#[verifier::spinoff_prover]
pub(crate) fn parse_ops(items: &Vec<ManifestValue>) -> (r: Result<Vec<AirOperationDescriptor>, MotionLinkError>)
    ensures
        match first_error(op_results(mv_items(items@))) {
            Some(f) => r matches Err(e) && e@ == f,
            None => r matches Ok(v) && air_views(v@) == Seq::new(items@.len(), |m: int| op_results(mv_items(items@))[m]->Ok_0),
        },
    decreases items, 2int,
{
    let ghost iv = mv_items(items@);
    let ghost results = op_results(iv);
    assert(results.len() == iv.len());
    assert(forall|j: int| 0 <= j < iv.len() ==> #[trigger] results[j] == air_of(iv[j]));
    let mut parsed: Vec<AirOperationDescriptor> = Vec::new();
    let mut m: usize = 0;
    while m < items.len()
        invariant
            m <= items@.len(),
            iv == mv_items(items@),
            results == op_results(iv),
            results.len() == iv.len(),
            forall|j: int| 0 <= j < iv.len() ==> #[trigger] results[j] == air_of(iv[j]),
            parsed@.len() == m,
            forall|j: int| 0 <= j < m ==> results[j] == Ok::<AirView, LinkFault>(air_view(#[trigger] parsed@[j])),
        decreases items@.len() - m,
    {
        assert(iv[m as int] == items@[m as int]@);
        let next = parse_air_operation(&items[m]);
        match next {
            Ok(op) => {
                parsed.push(op);
            },
            Err(e) => {
                proof {
                    assert(results[m as int] == Err::<AirView, LinkFault>(e@));
                    assert forall|j: int| 0 <= j < m implies (#[trigger] results[j]) is Ok by {
                        assert(results[j] == Ok::<AirView, LinkFault>(air_view(parsed@[j])));
                    }
                    lemma_first_error(results, m as int);
                }
                return Err(e);
            },
        }
        m = m + 1;
    }
    proof {
        assert forall|i: int| 0 <= i < results.len() implies !((#[trigger] results[i]) is Err) by {
            assert(results[i] == Ok::<AirView, LinkFault>(air_view(parsed@[i])));
        }
        assert(air_views(parsed@) =~= Seq::new(items@.len(), |j: int| results[j]->Ok_0));
    }
    Ok(parsed)
}

/// An air operation other than a command branch, from its constructor
/// name and keyword arguments.
#[verifier::rlimit(100)]
#[verifier::spinoff_prover]
fn simple_air_operation(c: &str, kw: Option<&Vec<(String, ManifestValue)>>, kw_entries: &Vec<(String, ManifestValue)>)
    -> (r: Result<AirOperationDescriptor, MotionLinkError>)
    requires
        mv_entries(kw_entries@) == kw_view(kw),
    ensures
        link_result(r, simple_air_of(c@, kw_view(kw)), |op: AirOperationDescriptor| air_view(op)),
{
    proof {
        reveal(simple_air_of);
    }
    if str_eq(c, "motion.gravity") {
        let allowed: Vec<&str> = vec!["acceleration", "terminal_velocity", "delay"];
        assert(allowed@.map_values(|a: &str| a@) =~= seq!["acceleration"@, "terminal_velocity"@, "delay"@]);
        reject_unknown(c, kw_entries, &allowed)?;
        let acceleration = required_scalar(kw, c, "acceleration")?;
        let terminal_velocity = required_scalar(kw, c, "terminal_velocity")?;
        let delay = required_scalar(kw, c, "delay")?;
        Ok(AirOperationDescriptor::Gravity { acceleration, terminal_velocity, delay })
    } else if str_eq(c, "motion.gravity_multiplier") {
        let allowed: Vec<&str> = vec!["index", "value", "multiplier"];
        assert(allowed@.map_values(|a: &str| a@) =~= seq!["index"@, "value"@, "multiplier"@]);
        reject_unknown(c, kw_entries, &allowed)?;
        let index = command_index(kw, c, "index")?;
        let value = command_value(kw, c, "value")?;
        let multiplier = required_scalar(kw, c, "multiplier")?;
        Ok(AirOperationDescriptor::GravityMultiplier { index, value, multiplier })
    } else if str_eq(c, "motion.friction") || str_eq(c, "motion.air_friction") {
        let allowed: Vec<&str> = vec!["amount", "path"];
        assert(allowed@.map_values(|a: &str| a@) =~= seq!["amount"@, "path"@]);
        reject_unknown(c, kw_entries, &allowed)?;
        let amount = keyword_or_path(kw, c, "amount", "path")?;
        Ok(AirOperationDescriptor::Friction { amount })
    } else if str_eq(c, "motion.vertical_gravity") {
        let allowed: Vec<&str> = vec!["value", "path"];
        assert(allowed@.map_values(|a: &str| a@) =~= seq!["value"@, "path"@]);
        reject_unknown(c, kw_entries, &allowed)?;
        let gravity = keyword_or_path(kw, c, "value", "path")?;
        Ok(AirOperationDescriptor::VerticalGravity { gravity })
    } else if str_eq(c, "motion.stick_steering") {
        let allowed: Vec<&str> = vec!["threshold", "acceleration", "target"];
        assert(allowed@.map_values(|a: &str| a@) =~= seq!["threshold"@, "acceleration"@, "target"@]);
        reject_unknown(c, kw_entries, &allowed)?;
        let threshold = required_scalar(kw, c, "threshold")?;
        let acceleration = required_scalar(kw, c, "acceleration")?;
        let target = required_scalar(kw, c, "target")?;
        Ok(AirOperationDescriptor::StickSteering { threshold, acceleration, target })
    } else if str_eq(c, "motion.velocity_track") {
        let track = velocity_track(c, kw)?;
        Ok(AirOperationDescriptor::VelocityTrack(track))
    } else if str_eq(c, "motion.directional_acceleration") {
        let allowed: Vec<&str> = vec!["starts_at", "magnitude"];
        assert(allowed@.map_values(|a: &str| a@) =~= seq!["starts_at"@, "magnitude"@]);
        reject_unknown(c, kw_entries, &allowed)?;
        let starts_at = required_scalar(kw, c, "starts_at")?;
        let magnitude = required_scalar(kw, c, "magnitude")?;
        Ok(AirOperationDescriptor::DirectionalAcceleration { starts_at, magnitude })
    } else if str_eq(c, "motion.drift_clamp") {
        let allowed: Vec<&str> = vec!["maximum", "acceleration"];
        assert(allowed@.map_values(|a: &str| a@) =~= seq!["maximum"@, "acceleration"@]);
        reject_unknown(c, kw_entries, &allowed)?;
        let maximum = required_scalar(kw, c, "maximum")?;
        let acceleration = required_scalar(kw, c, "acceleration")?;
        Ok(AirOperationDescriptor::DriftClamp { maximum, acceleration })
    } else if str_eq(c, "motion.drift_or_friction") {
        let allowed: Vec<&str> = vec!["recovery_step"];
        assert(allowed@.map_values(|a: &str| a@) =~= seq!["recovery_step"@]);
        reject_unknown(c, kw_entries, &allowed)?;
        let recovery_step = required_scalar(kw, c, "recovery_step")?;
        Ok(AirOperationDescriptor::DriftOrFriction { recovery_step })
    } else if str_eq(c, "motion.command_velocity_scale") {
        let allowed: Vec<&str> = vec!["index", "value", "multiplier"];
        assert(allowed@.map_values(|a: &str| a@) =~= seq!["index"@, "value"@, "multiplier"@]);
        reject_unknown(c, kw_entries, &allowed)?;
        let index = command_index(kw, c, "index")?;
        let value = command_value(kw, c, "value")?;
        let multiplier = required_scalar(kw, c, "multiplier")?;
        Ok(AirOperationDescriptor::CommandVelocityScale { index, value, multiplier })
    } else {
        Err(MotionLinkError::UnknownConstructor(c.to_owned()))
    }
}

/// Parses the cases of the `motion.command_branch` constructor object
/// `value`.
#[verifier::rlimit(100)]
#[verifier::spinoff_prover]
#[verifier::loop_isolation(false)]
fn command_cases(value: &ManifestValue, constructor: &str) -> (r: Result<Vec<(u32, Vec<AirOperationDescriptor>)>, MotionLinkError>)
    ensures
        match branch_of(value@, constructor@, 0) {
            Ok(AirView::CommandBranch(_, cases)) => r matches Ok(v) && case_views(v@) == cases,
            Ok(_) => false,
            Err(f) => r matches Err(e) && e@ == f,
        },
    decreases value, 0int,
{
    proof {
        reveal_with_fuel(branch_of, 1);
    }
    let entries = match value {
        ManifestValue::Object { entries, .. } => entries,
        _ => return Err(MotionLinkError::ConstructorNotObject),
    };
    proof {
        lemma_object_view(*value);
    }
    let missing = MotionLinkError::MissingKeyword { constructor: constructor.to_owned(), keyword: "cases".to_owned() };
    let Some(ki) = key_index(entries, "kwargs") else {
        return Err(missing);
    };
    let kw_value = &entries[ki].1;
    assert(mv_entries(entries@)[ki as int].1 == kw_value@);
    let kwe = match kw_value {
        ManifestValue::Object { entries, .. } => entries,
        _ => return Err(missing),
    };
    proof {
        lemma_object_view(*kw_value);
    }
    let Some(ci) = key_index(kwe, "cases") else {
        return Err(missing);
    };
    let cases_value = &kwe[ci].1;
    assert(mv_entries(kwe@)[ci as int].1 == cases_value@);
    let ce = match cases_value {
        ManifestValue::Object { entries, .. } => entries,
        _ => return Err(invalid_type(constructor, "cases")),
    };
    proof {
        lemma_object_view(*cases_value);
    }
    let ghost cev = mv_entries(ce@);
    if ce.len() == 0 {
        assert(branch_of(value@, constructor@, 0) == Err::<AirView, LinkFault>(itype(constructor@, "cases"@))) by {
            reveal_with_fuel(branch_of, 1);
        }
        return Err(invalid_type(constructor, "cases"));
    }
    let ghost c = constructor@;
    let ghost keys = case_keys(cev);
    let ghost ops = case_ops(cev);

    assert(branch_of(value@, c, 0) == match cases_fold(c, keys, ops, cev.len()) {
        Err(f) => Err(f),
        Ok(cases) => Ok(AirView::CommandBranch(0, cases)),
    }) by {
        reveal_with_fuel(branch_of, 1);
    }
    let mut out: Vec<(u32, Vec<AirOperationDescriptor>)> = Vec::new();
    assert(case_views(out@) =~= Seq::<(u32, Seq<AirView>)>::empty());
    let mut k: usize = 0;
    while k < ce.len()
        invariant
            k <= ce@.len(),
            cev == mv_entries(ce@),
            keys == case_keys(cev),
            ops == case_ops(cev),
            ops.len() == cev.len(),
            forall|j: int| 0 <= j < cev.len() ==> #[trigger] ops[j] == match cev[j].1 {
                Mv::Array(items, _) => Some(op_results(items)),
                _ => None,
            },
            cases_fold(c, keys, ops, k as nat) == Ok::<Seq<(u32, Seq<AirView>)>, LinkFault>(case_views(out@)),
            branch_of(value@, c, 0) == match cases_fold(c, keys, ops, cev.len()) {
                Err(f) => Err(f),
                Ok(cases) => Ok(AirView::CommandBranch(0, cases)),
            },
            forall|i: int, j: int| 0 <= i < j < out@.len() ==> (#[trigger] out@[i]).0 < (#[trigger] out@[j]).0,
            c == constructor@,
        decreases ce@.len() - k,
    {
        let key = ce[k].0.as_str();
        assert(keys[k as int] == key@);
        let item_value = &ce[k].1;
        assert(cev[k as int].1 == item_value@);
        let ghost before = case_views(out@);
        assert(cases_fold(c, keys, ops, (k + 1) as nat) == case_step(c, before, keys[k as int], ops[k as int]));
        let n = match parse_unsigned_text(key, 4_294_967_295) {
            Some(n) => if n > MAX_COMMAND_VALUE {
                proof { lemma_cases_err_extends(c, keys, ops, (k + 1) as nat, cev.len(), itype(c, "cases"@)); }
                return Err(invalid_type(constructor, "cases"));
            } else {
                n as u32
            },
            None => {
                proof { lemma_cases_err_extends(c, keys, ops, (k + 1) as nat, cev.len(), itype(c, "cases"@)); }
                return Err(invalid_type(constructor, "cases"));
            },
        };
        let items = match item_value {
            ManifestValue::Array { items, .. } => items,
            _ => {
                proof { lemma_cases_err_extends(c, keys, ops, (k + 1) as nat, cev.len(), itype(c, "cases"@)); }
                return Err(invalid_type(constructor, "cases"));
            },
        };
        proof {
            lemma_array_view(*item_value);
        }
        let ghost results = op_results(mv_items(items@));
        assert(ops[k as int] == Some(results));
        if items.len() == 0 {
            proof { lemma_cases_err_extends(c, keys, ops, (k + 1) as nat, cev.len(), itype(c, "cases"@)); }
            return Err(invalid_type(constructor, "cases"));
        }
        let parsed_ops = match parse_ops(items) {
            Ok(v) => v,
            Err(e) => {
                proof { lemma_cases_err_extends(c, keys, ops, (k + 1) as nat, cev.len(), e@); }
                return Err(e);
            },
        };
        let ghost pv = air_views(parsed_ops@);
        let mut p: usize = 0;
        let mut duplicate = false;
        while p < out.len()
            invariant
                p <= out@.len(),
                forall|i: int, j: int| 0 <= i < j < out@.len() ==> (#[trigger] out@[i]).0 < (#[trigger] out@[j]).0,
                !duplicate ==> forall|i: int| 0 <= i < p ==> (#[trigger] out@[i]).0 < n,
                !duplicate,
            decreases out@.len() - p,
        {
            if out[p].0 == n {
                duplicate = true;
                break;
            }
            if out[p].0 > n {
                break;
            }
            p = p + 1;
        }
        if duplicate {
            proof {
                assert(before[p as int].0 == n);
                lemma_cases_err_extends(c, keys, ops, (k + 1) as nat, cev.len(), itype(c, "cases"@));
            }
            return Err(invalid_type(constructor, "cases"));
        }
        proof {
            assert forall|i: int| p <= i < out@.len() implies (#[trigger] out@[i]).0 > n by {
                assert(out@[p as int].0 > n);
                if i > p {
                    assert(out@[p as int].0 < out@[i].0);
                }
            }
            assert(!(exists|i: int| 0 <= i < before.len() && (#[trigger] before[i]).0 == n as nat)) by {
                if exists|i: int| 0 <= i < before.len() && (#[trigger] before[i]).0 == n as nat {
                    let i = choose|i: int| 0 <= i < before.len() && (#[trigger] before[i]).0 == n as nat;
                    assert(out@[i].0 == n);
                }
            }
            let x = (n, pv);
            assert forall|i: int| 0 <= i < p implies (#[trigger] before[i]).0 < x.0 by {
                assert(out@[i].0 < n);
            }
            assert forall|i: int| p <= i < before.len() implies (#[trigger] before[i]).0 > x.0 by {
                assert(out@[i].0 > n);
            }
            lemma_insert_sorted(before, x, p as int);
            assert(Seq::new(results.len(), |m: int| results[m]->Ok_0) == pv);
        }
        let ghost old_out = out@;
        out.insert(p, (n, parsed_ops));
        proof {
            assert(case_views(out@) =~= before.take(p as int) + seq![(n, pv)] + before.skip(p as int));
            assert forall|i: int, j: int| 0 <= i < j < out@.len() implies (#[trigger] out@[i]).0 < (#[trigger] out@[j]).0 by {
                if j < p {
                    assert(out@[i] == old_out[i] && out@[j] == old_out[j]);
                } else if j == p {
                    assert(out@[i] == old_out[i]);
                } else if i == p {
                    assert(out@[j] == old_out[j - 1]);
                } else if i < p {
                    assert(out@[i] == old_out[i] && out@[j] == old_out[j - 1]);
                } else {
                    assert(out@[i] == old_out[i - 1] && out@[j] == old_out[j - 1]);
                }
            }
        }
        k = k + 1;
    }
    Ok(out)
}

proof fn lemma_branch_index(v: Mv, c: Seq<char>, i: usize)
    ensures
        match branch_of(v, c, 0) {
            Ok(AirView::CommandBranch(_, cases)) => branch_of(v, c, i) == Ok::<AirView, LinkFault>(AirView::CommandBranch(i, cases)),
            Ok(_) => true,
            Err(f) => branch_of(v, c, i) == Err::<AirView, LinkFault>(f),
        },
{
    reveal_with_fuel(branch_of, 1);
}

/// Parses one air operation of a motion manifest.
#[verifier::rlimit(100)]
#[verifier::spinoff_prover]
pub fn parse_air_operation(value: &ManifestValue) -> (r: Result<AirOperationDescriptor, MotionLinkError>)
    ensures
        link_result(r, air_of(value@), |op: AirOperationDescriptor| air_view(op)),
    decreases value, 1int,
{
    proof {
        reveal_with_fuel(air_of, 1);
    }
    let parts = constructor_parts(value)?;
    let ghost pv = parts_view(parts);
    let c = parts.constructor.as_str();
    let kw = parts.kwargs;
    if let Some(a) = parts.args {
        if a.len() > 0 {
            return Err(MotionLinkError::InvalidArgumentCount { constructor: c.to_owned() });
        }
    }
    let empty: Vec<(String, ManifestValue)> = Vec::new();
    let kw_entries = match kw { Some(k) => k, None => &empty };
    assert(mv_entries(kw_entries@) =~= kw_view(kw));
    if str_eq(c, "motion.command_branch") {
        let allowed: Vec<&str> = vec!["index", "cases"];
        assert(allowed@.map_values(|a: &str| a@) =~= seq!["index"@, "cases"@]);
        reject_unknown(c, kw_entries, &allowed)?;
        let index = command_index(kw, c, "index")?;
        proof {
            lemma_branch_index(value@, c@, index);
        }
        let cases = command_cases(value, c)?;
        let op = AirOperationDescriptor::CommandBranch { index, cases };
        proof {
            lemma_branch_view(op);
        }
        Ok(op)
    } else {
        simple_air_operation(c, kw, kw_entries)
    }
}

} // verus!
