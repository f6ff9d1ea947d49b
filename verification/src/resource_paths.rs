//! Projected resource paths.
//!
//! Scripts read registered resources through paths such as
//! `attacks[0].hitboxes[1].damage`: a dotted root path, then any sequence of
//! `[index]` and `.field` steps.  The root is looked up among the registered
//! root documents; when the whole dotted path is not itself a root, its
//! longest prefix that is one is taken and the rest walked as fields.

use vstd::prelude::*;
use crate::motion_links::{path_char, path_is_valid, valid_path};
use crate::text::{byte_len, chars_of, longer_than_bytes, parse_unsigned, parse_unsigned_text, slice_chars};

verus! {

/// Longest accepted path, in bytes.
pub const MAX_PATH_BYTES: usize = 256;

/// One step after the root.
#[derive(Clone, Debug, PartialEq, Eq)]
pub enum PathStep {
    Index(usize),
    Field(String),
}

pub enum StepView {
    Index(usize),
    Field(Seq<char>),
}

impl View for PathStep {
    type V = StepView;

    open spec fn view(&self) -> StepView {
        match self {
            PathStep::Index(i) => StepView::Index(*i),
            PathStep::Field(f) => StepView::Field(f@),
        }
    }
}

/// A parsed projected path.
#[derive(Clone, Debug, PartialEq, Eq)]
pub struct ValuePath {
    pub root: String,
    pub steps: Vec<PathStep>,
}

pub open spec fn steps_view(s: Seq<PathStep>) -> Seq<StepView> {
    s.map_values(|p: PathStep| p@)
}

/// The first position from `p` on holding `c`, or the length.
#[verifier::opaque]
pub open spec fn next_char(s: Seq<char>, p: int, c: char) -> int {
    if exists|q: int| p <= q < s.len() && s[q] == c && forall|r: int| p <= r < q ==> s[r] != c {
        choose|q: int| p <= q < s.len() && s[q] == c && forall|r: int| p <= r < q ==> s[r] != c
    } else {
        s.len() as int
    }
}

/// The first position from `p` on that ends a field (`.` or `[`), or the
/// length.
#[verifier::opaque]
pub open spec fn field_end(s: Seq<char>, p: int) -> int {
    if exists|q: int| p <= q < s.len() && (s[q] == '.' || s[q] == '[')
        && forall|r: int| p <= r < q ==> !(s[r] == '.' || s[r] == '[') {
        choose|q: int| p <= q < s.len() && (s[q] == '.' || s[q] == '[')
            && forall|r: int| p <= r < q ==> !(s[r] == '.' || s[r] == '[')
    } else {
        s.len() as int
    }
}

pub proof fn lemma_next_char(s: Seq<char>, p: int, c: char)
    requires
        0 <= p <= s.len(),
    ensures
        p <= next_char(s, p, c) <= s.len(),
{
    reveal(next_char);
}

pub proof fn lemma_field_end(s: Seq<char>, p: int)
    requires
        0 <= p <= s.len(),
    ensures
        p <= field_end(s, p) <= s.len(),
{
    reveal(field_end);
}

pub open spec fn all_path_chars(f: Seq<char>) -> bool {
    forall|i: int| 0 <= i < f.len() ==> path_char(#[trigger] f[i])
}

/// The steps written from position `p` of `s` on.
pub open spec fn steps_at(s: Seq<char>, p: int) -> Option<Seq<StepView>>
    decreases s.len() - p,
{
    if p < 0 || p >= s.len() {
        Some(Seq::empty())
    } else if s[p] == '[' {
        proof {
            lemma_next_char(s, p + 1, ']');
        }
        let c = next_char(s, p + 1, ']');
        if c >= s.len() {
            None
        } else {
            match parse_unsigned(s.subrange(p + 1, c), usize::MAX as nat) {
                None => None,
                Some(n) => match steps_at(s, c + 1) {
                    Some(t) => Some(seq![StepView::Index(n as usize)] + t),
                    None => None,
                },
            }
        }
    } else if s[p] == '.' {
        proof {
            lemma_field_end(s, p + 1);
        }
        let e = field_end(s, p + 1);
        let f = s.subrange(p + 1, e);
        if f.len() == 0 || !all_path_chars(f) {
            None
        } else {
            match steps_at(s, e) {
                Some(t) => Some(seq![StepView::Field(f)] + t),
                None => None,
            }
        }
    } else {
        None
    }
}

/// The root and steps of `path`, when it is well formed.
pub open spec fn spec_value_path(path: Seq<char>) -> Option<(Seq<char>, Seq<StepView>)> {
    if path.len() == 0 || byte_len(path) > MAX_PATH_BYTES {
        None
    } else if !path.contains('[') {
        if valid_path(path) { Some((path, Seq::empty())) } else { None }
    } else {
        let b = next_char(path, 0, '[');
        let root = path.subrange(0, b);
        if !valid_path(root) {
            None
        } else {
            match steps_at(path, b) {
                Some(t) => Some((root, t)),
                None => None,
            }
        }
    }
}

fn next_char_exec(s: &Vec<char>, p: usize, c: char) -> (r: usize)
    requires
        p <= s@.len(),
    ensures
        r == next_char(s@, p as int, c),
        p <= r <= s@.len(),
        r < s@.len() ==> s@[r as int] == c,
        forall|q: int| p <= q < r ==> s@[q] != c,
{
    let mut q = p;
    while q < s.len()
        invariant
            p <= q <= s@.len(),
            forall|r: int| p <= r < q ==> s@[r] != c,
        decreases s.len() - q,
    {
        if s[q] == c {
            assert(exists|x: int| p <= x < s@.len() && s@[x] == c && forall|r: int| p <= r < x ==> s@[r] != c);
            let ghost w = next_char(s@, p as int, c);
            assert(w == q) by {
                reveal(next_char);
                if w < q {
                    assert(s@[w] != c);
                } else if w > q {
                    assert(s@[q as int] == c);
                }
            }
            return q;
        }
        q = q + 1;
    }
    proof {
        reveal(next_char);
    }
    q
}

fn field_end_exec(s: &Vec<char>, p: usize) -> (r: usize)
    requires
        p <= s@.len(),
    ensures
        r == field_end(s@, p as int),
        p <= r <= s@.len(),
{
    let mut q = p;
    while q < s.len()
        invariant
            p <= q <= s@.len(),
            forall|r: int| p <= r < q ==> !(s@[r] == '.' || s@[r] == '['),
        decreases s.len() - q,
    {
        if s[q] == '.' || s[q] == '[' {
            assert(exists|x: int| p <= x < s@.len() && (s@[x] == '.' || s@[x] == '[')
                && forall|r: int| p <= r < x ==> !(s@[r] == '.' || s@[r] == '['));
            let ghost w = field_end(s@, p as int);
            assert(w == q) by {
                reveal(field_end);
                if w < q {
                    assert(!(s@[w] == '.' || s@[w] == '['));
                } else if w > q {
                    assert(s@[q as int] == '.' || s@[q as int] == '[');
                }
            }
            return q;
        }
        q = q + 1;
    }
    proof {
        reveal(field_end);
    }
    q
}

fn all_path_chars_exec(s: &Vec<char>, from: usize, to: usize) -> (r: bool)
    requires
        from <= to <= s@.len(),
    ensures
        r == all_path_chars(s@.subrange(from as int, to as int)),
{
    let mut i = from;
    while i < to
        invariant
            from <= i <= to <= s@.len(),
            forall|j: int| from <= j < i ==> path_char(#[trigger] s@[j]),
        decreases to - i,
    {
        let c = s[i];
        let ok = ('a' <= c && c <= 'z') || ('A' <= c && c <= 'Z') || ('0' <= c && c <= '9') || c == '_' || c == '-';
        if !ok {
            assert(s@.subrange(from as int, to as int)[i - from] == c);
            return false;
        }
        i = i + 1;
    }
    assert forall|j: int| 0 <= j < to - from implies path_char(#[trigger] s@.subrange(from as int, to as int)[j]) by {
        assert(s@.subrange(from as int, to as int)[j] == s@[from + j]);
    }
    true
}

fn text_of(s: &Vec<char>, from: usize, to: usize) -> (r: String)
    requires
        from <= to <= s@.len(),
    ensures
        r@ == s@.subrange(from as int, to as int),
{
    let mut out = String::new();
    let mut i = from;
    while i < to
        invariant
            from <= i <= to <= s@.len(),
            out@ == s@.subrange(from as int, i as int),
        decreases to - i,
    {
        crate::text::push_char(&mut out, s[i]);
        assert(s@.subrange(from as int, i + 1) =~= s@.subrange(from as int, i as int).push(s@[i as int]));
        i = i + 1;
    }
    out
}


/// Parses a projected path as `spec_value_path` says.
pub fn parse_value_path(path: &str) -> (r: Option<ValuePath>)
    ensures
        match spec_value_path(path@) {
            Some((root, steps)) => r matches Some(v) && v.root@ == root && steps_view(v.steps@) == steps,
            None => r is None,
        },
{
    if path.unicode_len() == 0 || longer_than_bytes(path, MAX_PATH_BYTES) {
        return None;
    }
    let s = chars_of(path);
    let b = next_char_exec(&s, 0, '[');
    if b == s.len() {
        assert(!path@.contains('[')) by {
            if path@.contains('[') {
                let q = choose|q: int| 0 <= q < path@.len() && path@[q] == '[';
                assert(s@[q] != '[');
            }
        }
        if path_is_valid(path) {
            let empty: Vec<PathStep> = Vec::new();
            assert(steps_view(empty@) =~= Seq::<StepView>::empty());
            return Some(ValuePath { root: path.to_owned(), steps: empty });
        }
        return None;
    }
    assert(path@.contains('[')) by {
        assert(path@[b as int] == '[');
    }
    let root = text_of(&s, 0, b);
    if !path_is_valid(root.as_str()) {
        return None;
    }
    let ghost sv = s@;
    assert(spec_value_path(path@) == match steps_at(sv, b as int) {
        Some(t) => Some((root@, t)),
        None => None::<(Seq<char>, Seq<StepView>)>,
    });
    let mut steps: Vec<PathStep> = Vec::new();
    let mut p = b;
    assert(steps_view(steps@) + Seq::<StepView>::empty() =~= Seq::<StepView>::empty());
    while p < s.len()
        invariant
            b <= p <= s@.len(),
            sv == s@,
            sv == path@,
            spec_value_path(path@) == match steps_at(sv, b as int) {
                Some(t) => Some((root@, t)),
                None => None::<(Seq<char>, Seq<StepView>)>,
            },
            match steps_at(sv, b as int) {
                Some(t) => steps_at(sv, p as int) matches Some(u) && t == steps_view(steps@) + u,
                None => steps_at(sv, p as int) is None,
            },
        decreases s.len() - p,
    {
        let ghost before = steps_view(steps@);
        if s[p] == '[' {
            let c = next_char_exec(&s, p + 1, ']');
            if c >= s.len() {
                assert(steps_at(sv, p as int) is None);
                return None;
            }
            let digits = text_of(&s, p + 1, c);
            let n = match parse_unsigned_text(digits.as_str(), usize::MAX as u64) {
                Some(n) => n,
                None => {
                    return None;
                },
            };
            steps.push(PathStep::Index(n as usize));
            proof {
                assert(steps_view(steps@) =~= before.push(StepView::Index(n as usize)));
                if let Some(u) = steps_at(sv, (c + 1) as int) {
                    assert(before + (seq![StepView::Index(n as usize)] + u) =~= before.push(StepView::Index(n as usize)) + u);
                }
            }
            p = c + 1;
        } else if s[p] == '.' {
            let e = field_end_exec(&s, p + 1);
            if e == p + 1 || !all_path_chars_exec(&s, p + 1, e) {
                assert(steps_at(sv, p as int) is None);
                return None;
            }
            let field = text_of(&s, p + 1, e);
            let ghost f = field@;
            steps.push(PathStep::Field(field));
            proof {
                assert(steps_view(steps@) =~= before.push(StepView::Field(f)));
                if let Some(u) = steps_at(sv, e as int) {
                    assert(before + (seq![StepView::Field(f)] + u) =~= before.push(StepView::Field(f)) + u);
                }
            }
            p = e;
        } else {
            return None;
        }
    }
    proof {
        if let Some(t) = steps_at(sv, b as int) {
            assert(steps_view(steps@) + Seq::<StepView>::empty() =~= steps_view(steps@));
        }
    }
    Some(ValuePath { root, steps })
}


/// The dot-separated fields of `s` from position `p` on.
pub open spec fn fields_from(s: Seq<char>, p: int) -> Seq<Seq<char>>
    decreases s.len() - p,
{
    if p < 0 || p > s.len() {
        Seq::empty()
    } else {
        proof {
            lemma_next_char(s, p, '.');
        }
        let d = next_char(s, p, '.');
        if d >= s.len() {
            seq![s.subrange(p, s.len() as int)]
        } else {
            seq![s.subrange(p, d)] + fields_from(s, d + 1)
        }
    }
}

/// The positions of `.` below `n`, last first.
pub open spec fn dots_desc(s: Seq<char>, n: int) -> Seq<int>
    decreases n,
{
    if n <= 0 {
        Seq::empty()
    } else {
        (if s[n - 1] == '.' { seq![n - 1] } else { Seq::empty() }) + dots_desc(s, n - 1)
    }
}

/// Where a dotted path is looked up, in order: the whole path as a root,
/// then each shorter prefix ending before a dot, longest first, with the
/// fields after it.
pub open spec fn root_candidates_of(s: Seq<char>) -> Seq<(Seq<char>, Seq<Seq<char>>)> {
    seq![(s, Seq::<Seq<char>>::empty())]
        + dots_desc(s, s.len() as int).map_values(|d: int| (s.subrange(0, d), fields_from(s, d + 1)))
}

pub open spec fn candidates_view(v: Seq<(String, Vec<String>)>) -> Seq<(Seq<char>, Seq<Seq<char>>)> {
    v.map_values(|c: (String, Vec<String>)| (c.0@, c.1@.map_values(|f: String| f@)))
}

fn fields_exec(s: &Vec<char>, p: usize) -> (r: Vec<String>)
    requires
        p <= s@.len(),
    ensures
        r@.map_values(|f: String| f@) == fields_from(s@, p as int),
    decreases s@.len() - p,
{
    let d = next_char_exec(s, p, '.');
    let head = text_of(s, p, d);
    let mut out: Vec<String> = Vec::new();
    out.push(head);
    if d >= s.len() {
        assert(out@.map_values(|f: String| f@) =~= seq![s@.subrange(p as int, s@.len() as int)]);
        return out;
    }
    let rest = fields_exec(s, d + 1);
    let ghost first = out@.map_values(|f: String| f@);
    let mut i: usize = 0;
    while i < rest.len()
        invariant
            i <= rest@.len(),
            out@.len() == i + 1,
            out@.map_values(|f: String| f@) == first + rest@.map_values(|f: String| f@).subrange(0, i as int),
        decreases rest.len() - i,
    {
        let ghost before = out@.map_values(|f: String| f@);
        out.push(rest[i].clone());
        assert(out@.map_values(|f: String| f@) =~= before.push(rest@[i as int]@));
        assert(rest@.map_values(|f: String| f@).subrange(0, i + 1)
            =~= rest@.map_values(|f: String| f@).subrange(0, i as int).push(rest@[i as int]@));
        i = i + 1;
    }
    assert(rest@.map_values(|f: String| f@).subrange(0, rest@.len() as int) =~= rest@.map_values(|f: String| f@));
    assert(first =~= seq![s@.subrange(p as int, d as int)]);
    out
}

/// The lookup candidates of a dotted root path, as `root_candidates_of`
/// says.
pub fn root_candidates(root: &str) -> (r: Vec<(String, Vec<String>)>)
    ensures
        candidates_view(r@) == root_candidates_of(root@),
{
    let s = chars_of(root);
    let mut out: Vec<(String, Vec<String>)> = Vec::new();
    let no_fields: Vec<String> = Vec::new();
    assert(no_fields@.map_values(|f: String| f@) =~= Seq::<Seq<char>>::empty());
    out.push((root.to_owned(), no_fields));
    let ghost first = candidates_view(out@);
    assert(first =~= seq![(root@, Seq::<Seq<char>>::empty())]);
    let ghost f = |d: int| (s@.subrange(0, d), fields_from(s@, d + 1));
    let mut q: usize = s.len();
    assert(dots_desc(s@, s@.len() as int).subrange(0, 0) =~= Seq::<int>::empty());
    while q > 0
        invariant
            q <= s@.len(),
            s@ == root@,
            f == (|d: int| (s@.subrange(0, d), fields_from(s@, d + 1))),
            dots_desc(s@, s@.len() as int) == dots_desc(s@, s@.len() as int).subrange(0, dots_desc(s@, s@.len() as int).len() - dots_desc(s@, q as int).len()) + dots_desc(s@, q as int),
            candidates_view(out@) == first + dots_desc(s@, s@.len() as int).subrange(0, dots_desc(s@, s@.len() as int).len() - dots_desc(s@, q as int).len()).map_values(f),
        decreases q,
    {
        let ghost all = dots_desc(s@, s@.len() as int);
        let ghost done = all.subrange(0, all.len() - dots_desc(s@, q as int).len());
        let ghost before = candidates_view(out@);
        let k = q - 1;
        if s[k] == '.' {
            let prefix = text_of(&s, 0, k);
            let fields = fields_exec(&s, k + 1);
            out.push((prefix, fields));
            proof {
                assert(dots_desc(s@, q as int) == seq![k as int] + dots_desc(s@, k as int));
                assert(all =~= done.push(k as int) + dots_desc(s@, k as int));
                assert(candidates_view(out@) =~= before.push(f(k as int)));
                assert(all.subrange(0, all.len() - dots_desc(s@, k as int).len()) =~= done.push(k as int));
                assert(done.push(k as int).map_values(f) =~= done.map_values(f).push(f(k as int)));
            }
        } else {
            proof {
                assert(dots_desc(s@, q as int) =~= dots_desc(s@, k as int));
            }
        }
        q = k;
    }
    proof {
        let all = dots_desc(s@, s@.len() as int);
        assert(all.subrange(0, all.len() as int) =~= all);
    }
    out
}

} // verus!
