//! Typed references and track descriptors of motion constructors.
//!
//! A descriptor holds typed paths rather than strings that a callback could
//! evaluate later; a path is validated when the reference is made.  No
//! fighter or move names belong here.

use vstd::prelude::*;
use crate::motion::{TrackEnd, TrackTransform};
use crate::text::{chars_of, concat3, decimal_string, decimal_text, str_eq};

verus! {

/// Keep resource input bounded even for a very large otherwise valid array.
pub const MAX_TRACK_SAMPLES: usize = 4096;

/// Why a motion descriptor failed to link.
#[derive(Clone, Debug, PartialEq, Eq)]
pub enum MotionLinkError {
    InvalidPath(String),
    MissingField { path: String },
    InvalidNumber { path: String },
    TrackNotArray { path: String },
    TrackTooLong { path: String, count: usize, maximum: usize },
    InvalidSample { path: String, index: usize },
    InvalidProfile(String),
    ConstructorNotObject,
    UnknownConstructor(String),
    InvalidArgumentCount { constructor: String },
    UnknownKeyword { constructor: String, keyword: String },
    MissingKeyword { constructor: String, keyword: String },
    InvalidKeywordType { constructor: String, keyword: String },
    UntypedScalarReference,
    MalformedScalarReference,
    MissingSpecialAttribute { layout: u8, field_id: u16 },
}

/// The mathematical content of a link error.
pub enum LinkFault {
    InvalidPath(Seq<char>),
    MissingField(Seq<char>),
    InvalidNumber(Seq<char>),
    TrackNotArray(Seq<char>),
    TrackTooLong(Seq<char>, usize, usize),
    InvalidSample(Seq<char>, usize),
    InvalidProfile(Seq<char>),
    ConstructorNotObject,
    UnknownConstructor(Seq<char>),
    InvalidArgumentCount(Seq<char>),
    UnknownKeyword(Seq<char>, Seq<char>),
    MissingKeyword(Seq<char>, Seq<char>),
    InvalidKeywordType(Seq<char>, Seq<char>),
    UntypedScalarReference,
    MalformedScalarReference,
    MissingSpecialAttribute(u8, u16),
}

impl View for MotionLinkError {
    type V = LinkFault;

    open spec fn view(&self) -> LinkFault {
        match self {
            MotionLinkError::InvalidPath(p) => LinkFault::InvalidPath(p@),
            MotionLinkError::MissingField { path } => LinkFault::MissingField(path@),
            MotionLinkError::InvalidNumber { path } => LinkFault::InvalidNumber(path@),
            MotionLinkError::TrackNotArray { path } => LinkFault::TrackNotArray(path@),
            MotionLinkError::TrackTooLong { path, count, maximum } => LinkFault::TrackTooLong(path@, *count, *maximum),
            MotionLinkError::InvalidSample { path, index } => LinkFault::InvalidSample(path@, *index),
            MotionLinkError::InvalidProfile(m) => LinkFault::InvalidProfile(m@),
            MotionLinkError::ConstructorNotObject => LinkFault::ConstructorNotObject,
            MotionLinkError::UnknownConstructor(c) => LinkFault::UnknownConstructor(c@),
            MotionLinkError::InvalidArgumentCount { constructor } => LinkFault::InvalidArgumentCount(constructor@),
            MotionLinkError::UnknownKeyword { constructor, keyword } => LinkFault::UnknownKeyword(constructor@, keyword@),
            MotionLinkError::MissingKeyword { constructor, keyword } => LinkFault::MissingKeyword(constructor@, keyword@),
            MotionLinkError::InvalidKeywordType { constructor, keyword } => LinkFault::InvalidKeywordType(constructor@, keyword@),
            MotionLinkError::UntypedScalarReference => LinkFault::UntypedScalarReference,
            MotionLinkError::MalformedScalarReference => LinkFault::MalformedScalarReference,
            MotionLinkError::MissingSpecialAttribute { layout, field_id } => LinkFault::MissingSpecialAttribute(*layout, *field_id),
        }
    }
}

/// A character allowed in a path segment.
pub open spec fn path_char(c: char) -> bool {
    ('a' <= c && c <= 'z') || ('A' <= c && c <= 'Z') || ('0' <= c && c <= '9') || c == '_' || c == '-'
}

/// A dotted path of non-empty segments of ASCII letters, digits, `_` and
/// `-`, at most 256 bytes long.
pub open spec fn valid_path(s: Seq<char>) -> bool {
    &&& 0 < s.len() <= 256
    &&& forall|i: int| 0 <= i < s.len() ==> path_char(#[trigger] s[i]) || s[i] == '.'
    &&& s[0] != '.'
    &&& s[s.len() - 1] != '.'
    &&& forall|i: int| 0 <= i < s.len() - 1 ==> !(#[trigger] s[i] == '.' && s[i + 1] == '.')
}

fn validate_path(path: &str) -> (r: Result<(), MotionLinkError>)
    ensures
        valid_path(path@) ==> r is Ok,
        !valid_path(path@) ==> (r matches Err(MotionLinkError::InvalidPath(p)) && p@ == path@),
{
    let chars = chars_of(path);
    let n = chars.len();
    if n == 0 || n > 256 || chars[0] == '.' || chars[n - 1] == '.' {
        return Err(MotionLinkError::InvalidPath(path.to_owned()));
    }
    let mut i: usize = 0;
    while i < n
        invariant
            chars@ == path@,
            n == chars@.len(),
            0 < n <= 256,
            i <= n,
            forall|j: int| 0 <= j < i ==> path_char(#[trigger] path@[j]) || path@[j] == '.',
            forall|j: int| 0 <= j < i && j < n - 1 ==> !(#[trigger] path@[j] == '.' && path@[j + 1] == '.'),
        decreases n - i,
    {
        let c = chars[i];
        let ok = ('a' <= c && c <= 'z') || ('A' <= c && c <= 'Z') || ('0' <= c && c <= '9') || c == '_' || c == '-' || c == '.';
        if !ok {
            assert(!(path_char(path@[i as int]) || path@[i as int] == '.'));
            return Err(MotionLinkError::InvalidPath(path.to_owned()));
        }
        if i + 1 < n && c == '.' && chars[i + 1] == '.' {
            assert(path@[i as int] == '.' && path@[i + 1] == '.');
            return Err(MotionLinkError::InvalidPath(path.to_owned()));
        }
        i = i + 1;
    }
    Ok(())
}

/// Whether `path` is a well-formed resource path.
pub fn path_is_valid(path: &str) -> (r: bool)
    ensures
        r == valid_path(path@),
{
    validate_path(path).is_ok()
}

/// A validated resource or native-parameter path.
#[derive(Clone, Debug, PartialEq, Eq, PartialOrd, Ord, Hash)]
pub struct FieldRef(String);

impl View for FieldRef {
    type V = Seq<char>;

    closed spec fn view(&self) -> Seq<char> {
        self.0@
    }
}

impl FieldRef {
    /// A reference to `path`, which must be a valid dotted path.
    pub fn new(path: String) -> (r: Result<FieldRef, MotionLinkError>)
        ensures
            valid_path(path@) ==> (r matches Ok(f) && f@ == path@),
            !valid_path(path@) ==> (r matches Err(MotionLinkError::InvalidPath(p)) && p@ == path@),
    {
        validate_path(path.as_str())?;
        Ok(FieldRef(path))
    }

    pub fn as_str(&self) -> (r: &str)
        ensures
            r@ == self@,
    {
        self.0.as_str()
    }
}

/// A typed native fighter-specific attribute slot; the layout is part of
/// the identity.
#[derive(Clone, Copy, Debug, PartialEq, Eq, Structural, Hash)]
pub struct SpecialAttributeRef {
    pub layout: u8,
    pub field_id: u16,
}

impl SpecialAttributeRef {
    pub fn new(layout: u8, field_id: u16) -> (r: Self)
        ensures
            r == (SpecialAttributeRef { layout, field_id }),
    {
        SpecialAttributeRef { layout, field_id }
    }
}

/// Which component a velocity resource provides.
#[derive(Clone, Copy, Debug, Default, PartialEq, Eq, Structural)]
pub enum TrackComponent {
    X,
    Y,
    #[default]
    Both,
}

#[derive(Clone, Debug, PartialEq)]
pub struct VelocityTrackDescriptor {
    pub path: FieldRef,
    pub component: TrackComponent,
    pub end: TrackEnd,
    pub x_transform: TrackTransform,
    pub y_transform: TrackTransform,
}

impl VelocityTrackDescriptor {
    /// Both components, absolute, doing nothing past the last sample.
    pub fn new(path: FieldRef) -> (r: Self)
        ensures
            r.path@ == path@,
            r.component == TrackComponent::Both,
            r.end == TrackEnd::NoOp,
            r.x_transform == TrackTransform::Absolute,
            r.y_transform == TrackTransform::Absolute,
    {
        VelocityTrackDescriptor {
            path,
            component: TrackComponent::Both,
            end: TrackEnd::NoOp,
            x_transform: TrackTransform::Absolute,
            y_transform: TrackTransform::Absolute,
        }
    }
}

#[derive(Clone, Debug, PartialEq)]
pub struct ScalarTrackDescriptor {
    pub path: FieldRef,
    pub end: TrackEnd,
    pub transform: TrackTransform,
}

impl ScalarTrackDescriptor {
    /// Absolute, doing nothing past the last sample.
    pub fn new(path: FieldRef) -> (r: Self)
        ensures
            r.path@ == path@,
            r.end == TrackEnd::NoOp,
            r.transform == TrackTransform::Absolute,
    {
        ScalarTrackDescriptor { path, end: TrackEnd::NoOp, transform: TrackTransform::Absolute }
    }
}

/// A mutually exclusive numeric command branch: the operations of each
/// case, keyed by command value in ascending order.
#[derive(Clone, Debug, PartialEq)]
pub struct CommandBranchDescriptor<T> {
    pub index: usize,
    pub cases: Vec<(u32, Vec<T>)>,
}

impl<T> CommandBranchDescriptor<T> {
    pub fn new(index: usize, cases: Vec<(u32, Vec<T>)>) -> (r: Self)
        ensures
            r.index == index,
            r.cases == cases,
    {
        CommandBranchDescriptor { index, cases }
    }
}

/// The component a keyword names.
pub fn parse_component(constructor: &str, value: &str) -> (r: Result<TrackComponent, MotionLinkError>)
    ensures
        value@ == "x"@ ==> r == Ok::<TrackComponent, MotionLinkError>(TrackComponent::X),
        value@ == "y"@ ==> r == Ok::<TrackComponent, MotionLinkError>(TrackComponent::Y),
        (value@ == "xy"@ || value@ == "both"@) ==> r == Ok::<TrackComponent, MotionLinkError>(TrackComponent::Both),
        !(value@ == "x"@ || value@ == "y"@ || value@ == "xy"@ || value@ == "both"@) ==> (r matches Err(
            MotionLinkError::InvalidKeywordType { constructor: c, keyword: k }) && c@ == constructor@ && k@ == "component"@),
{
    proof {
        reveal_strlit("x");
        reveal_strlit("y");
        reveal_strlit("xy");
        reveal_strlit("both");
        assert("x"@[0] != "y"@[0]);
        assert("x"@.len() != "xy"@.len());
        assert("x"@.len() != "both"@.len());
        assert("y"@.len() != "xy"@.len());
        assert("y"@.len() != "both"@.len());
        assert("xy"@.len() != "both"@.len());
    }
    if str_eq(value, "x") {
        Ok(TrackComponent::X)
    } else if str_eq(value, "y") {
        Ok(TrackComponent::Y)
    } else if str_eq(value, "xy") || str_eq(value, "both") {
        Ok(TrackComponent::Both)
    } else {
        Err(invalid_type(constructor, "component"))
    }
}

/// The track end a keyword names.
pub fn parse_end(constructor: &str, value: &str) -> (r: Result<TrackEnd, MotionLinkError>)
    ensures
        value@ == "no_op"@ ==> r == Ok::<TrackEnd, MotionLinkError>(TrackEnd::NoOp),
        value@ == "hold_last"@ ==> r == Ok::<TrackEnd, MotionLinkError>(TrackEnd::HoldLast),
        value@ == "loop"@ ==> r == Ok::<TrackEnd, MotionLinkError>(TrackEnd::Loop),
        !(value@ == "no_op"@ || value@ == "hold_last"@ || value@ == "loop"@) ==> (r matches Err(
            MotionLinkError::InvalidKeywordType { constructor: c, keyword: k }) && c@ == constructor@ && k@ == "end"@),
{
    proof {
        reveal_strlit("no_op");
        reveal_strlit("hold_last");
        reveal_strlit("loop");
        assert("no_op"@.len() != "hold_last"@.len());
        assert("no_op"@.len() != "loop"@.len());
        assert("hold_last"@.len() != "loop"@.len());
    }
    if str_eq(value, "no_op") {
        Ok(TrackEnd::NoOp)
    } else if str_eq(value, "hold_last") {
        Ok(TrackEnd::HoldLast)
    } else if str_eq(value, "loop") {
        Ok(TrackEnd::Loop)
    } else {
        Err(invalid_type(constructor, "end"))
    }
}

/// The transform a keyword names (`facing` is the binding scale).
pub fn parse_transform(constructor: &str, value: &str) -> (r: Result<TrackTransform, MotionLinkError>)
    ensures
        value@ == "absolute"@ ==> r == Ok::<TrackTransform, MotionLinkError>(TrackTransform::Absolute),
        (value@ == "binding_scale"@ || value@ == "facing"@) ==> r == Ok::<TrackTransform, MotionLinkError>(TrackTransform::BindingScale),
        !(value@ == "absolute"@ || value@ == "binding_scale"@ || value@ == "facing"@) ==> (r matches Err(
            MotionLinkError::InvalidKeywordType { constructor: c, keyword: k }) && c@ == constructor@ && k@ == "transform"@),
{
    proof {
        reveal_strlit("absolute");
        reveal_strlit("binding_scale");
        reveal_strlit("facing");
        assert("absolute"@.len() != "binding_scale"@.len());
        assert("absolute"@.len() != "facing"@.len());
        assert("binding_scale"@.len() != "facing"@.len());
    }
    if str_eq(value, "absolute") {
        Ok(TrackTransform::Absolute)
    } else if str_eq(value, "binding_scale") || str_eq(value, "facing") {
        Ok(TrackTransform::BindingScale)
    } else {
        Err(invalid_type(constructor, "transform"))
    }
}

/// Refuses a constructor other than `expected`.
pub fn require_constructor(actual: &str, expected: &str) -> (r: Result<(), MotionLinkError>)
    ensures
        actual@ == expected@ ==> r is Ok,
        actual@ != expected@ ==> (r matches Err(MotionLinkError::UnknownConstructor(a)) && a@ == actual@),
{
    if str_eq(actual, expected) {
        Ok(())
    } else {
        Err(MotionLinkError::UnknownConstructor(actual.to_owned()))
    }
}

/// The error for a keyword of the wrong type.
pub fn invalid_type(constructor: &str, keyword: &str) -> (r: MotionLinkError)
    ensures
        r matches MotionLinkError::InvalidKeywordType { constructor: c, keyword: k } && c@ == constructor@ && k@ == keyword@,
{
    MotionLinkError::InvalidKeywordType { constructor: constructor.to_owned(), keyword: keyword.to_owned() }
}

/// Refuses a track longer than `MAX_TRACK_SAMPLES`.
pub fn check_track_length(path: &str, count: usize) -> (r: Result<(), MotionLinkError>)
    ensures
        count <= MAX_TRACK_SAMPLES ==> r is Ok,
        count > MAX_TRACK_SAMPLES ==> (r matches Err(MotionLinkError::TrackTooLong { path: p, count: c, maximum: m })
            && p@ == path@ && c == count && m == MAX_TRACK_SAMPLES),
{
    if count > MAX_TRACK_SAMPLES {
        Err(MotionLinkError::TrackTooLong { path: path.to_owned(), count, maximum: MAX_TRACK_SAMPLES })
    } else {
        Ok(())
    }
}

} // verus!
