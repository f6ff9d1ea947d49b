//! The grammar of ground motion operations in a motion manifest, and of
//! a whole motion profile (its air and ground operation lists).

use vstd::prelude::*;
use crate::air_operations::{
    air_of, and_then, command_index_of, constructor_parts, first_key, itype, keyword, keyword_or_path,
    keyword_or_path_of, kw_view, lemma_array_view, lemma_object_view, link_result, mv_entries, mv_items, parse_air_operation, parse_ops, op_results, first_error,
    parts_of, parts_view, reject_unknown, required_scalar, required_scalar_of, scalar_track, scalar_track_of,
    scalar_track_view, unknown_keyword, with_keys, AirOperationDescriptor, AirView, ManifestValue, Mv,
    ScalarRef, ScalarTrackView, ScalarView, MAX_COMMAND_VALUE, case_keys, key_index, command_index,
};
use crate::motion_links::{invalid_type, valid_path, FieldRef, LinkFault, MotionLinkError, ScalarTrackDescriptor};
use crate::text::{parse_unsigned, parse_unsigned_text, str_eq};

verus! {

/// One ground motion operation.
#[derive(Debug, PartialEq)]
pub enum GroundOperationDescriptor {
    Friction { amount: ScalarRef },
    FrictionAboveWalk { amount: ScalarRef, walk_max_velocity: ScalarRef, above_walk_multiplier: ScalarRef },
    StickSteering { threshold: ScalarRef, acceleration: ScalarRef, target: ScalarRef },
    FrictionAfter { starts_at: ScalarRef, before: ScalarRef, after: ScalarRef },
    TargetTrack(ScalarTrackDescriptor),
    /// Mutually exclusive cases on a command slot, by ascending value.
    CommandBranch { index: usize, cases: Vec<(u32, Vec<GroundOperationDescriptor>)> },
}

pub enum GroundView {
    Friction(ScalarView),
    FrictionAboveWalk(ScalarView, ScalarView, ScalarView),
    StickSteering(ScalarView, ScalarView, ScalarView),
    FrictionAfter(ScalarView, ScalarView, ScalarView),
    TargetTrack(ScalarTrackView),
    CommandBranch(usize, Seq<(u32, Seq<GroundView>)>),
}

pub open spec fn ground_view(op: GroundOperationDescriptor) -> GroundView
    decreases op,
{
    match op {
        GroundOperationDescriptor::Friction { amount } => GroundView::Friction(amount@),
        GroundOperationDescriptor::FrictionAboveWalk { amount, walk_max_velocity, above_walk_multiplier } =>
            GroundView::FrictionAboveWalk(amount@, walk_max_velocity@, above_walk_multiplier@),
        GroundOperationDescriptor::StickSteering { threshold, acceleration, target } =>
            GroundView::StickSteering(threshold@, acceleration@, target@),
        GroundOperationDescriptor::FrictionAfter { starts_at, before, after } =>
            GroundView::FrictionAfter(starts_at@, before@, after@),
        GroundOperationDescriptor::TargetTrack(t) => GroundView::TargetTrack(scalar_track_view(t)),
        GroundOperationDescriptor::CommandBranch { index, cases } => GroundView::CommandBranch(index, Seq::new(cases@.len(), |k: int| {
            if 0 <= k < cases@.len() {
                (cases@[k].0, Seq::new(cases@[k].1@.len(), |m: int| {
                    if 0 <= m < cases@[k].1@.len() {
                        ground_view(cases@[k].1@[m])
                    } else {
                        GroundView::Friction(ScalarView::Literal(0))
                    }
                }))
            } else {
                (0, Seq::empty())
            }
        })),
    }
}

pub open spec fn ground_views(ops: Seq<GroundOperationDescriptor>) -> Seq<GroundView> {
    Seq::new(ops.len(), |m: int| ground_view(ops[m]))
}

pub open spec fn ground_case_views(cases: Seq<(u32, Vec<GroundOperationDescriptor>)>) -> Seq<(u32, Seq<GroundView>)> {
    Seq::new(cases.len(), |k: int| (cases[k].0, ground_views(cases[k].1@)))
}

pub proof fn lemma_ground_branch_view(op: GroundOperationDescriptor)
    requires
        op is CommandBranch,
    ensures
        ground_view(op) == GroundView::CommandBranch(op->CommandBranch_index, ground_case_views(op->CommandBranch_cases@)),
{
    let cases = op->CommandBranch_cases@;
    assert forall|k: int| 0 <= k < cases.len() implies ground_views(cases[k].1@) =~= match ground_view(op) {
        GroundView::CommandBranch(_, cs) => cs[k].1,
        _ => Seq::empty(),
    } by {}
    assert(ground_case_views(cases) =~= match ground_view(op) {
        GroundView::CommandBranch(_, cs) => cs,
        _ => Seq::empty(),
    });
}

/// The parameter paths the native ground friction reads.
pub open spec fn native_friction_of() -> Result<GroundView, LinkFault> {
    let a = "movement.ground_friction"@;
    let b = "movement.walk_max_velocity"@;
    let c = "rules.friction_above_walk"@;
    if !valid_path(a) {
        Err(LinkFault::InvalidPath(a))
    } else if !valid_path(b) {
        Err(LinkFault::InvalidPath(b))
    } else if !valid_path(c) {
        Err(LinkFault::InvalidPath(c))
    } else {
        Ok(GroundView::FrictionAboveWalk(ScalarView::Parameter(a), ScalarView::Parameter(b), ScalarView::Parameter(c)))
    }
}

/// A ground operation other than a command branch.
#[verifier::opaque]
pub open spec fn simple_ground_of(c: Seq<char>, kw: Seq<(Seq<char>, Mv)>) -> Result<GroundView, LinkFault> {
    let sc = |k: Seq<char>| required_scalar_of(c, kw, k);
    if c == "motion.ground_friction_above_walk"@ {
        with_keys(c, kw, Seq::empty(), native_friction_of())
    } else if c == "motion.friction"@ || c == "motion.ground_friction"@ {
        with_keys(c, kw, seq!["amount"@, "path"@],
            and_then(keyword_or_path_of(c, kw, "amount"@, "path"@), |a: ScalarView| Ok(GroundView::Friction(a))))
    } else if c == "motion.stick_steering"@ {
        with_keys(c, kw, seq!["threshold"@, "acceleration"@, "target"@],
            and_then(sc("threshold"@), |a: ScalarView| and_then(sc("acceleration"@), |b: ScalarView|
            and_then(sc("target"@), |d: ScalarView| Ok(GroundView::StickSteering(a, b, d))))))
    } else if c == "motion.friction_after"@ || c == "motion.ground_friction_after"@ {
        with_keys(c, kw, seq!["starts_at"@, "before"@, "after"@],
            and_then(sc("starts_at"@), |a: ScalarView| and_then(sc("before"@), |b: ScalarView|
            and_then(sc("after"@), |d: ScalarView| Ok(GroundView::FrictionAfter(a, b, d))))))
    } else if c == "motion.target_track"@ {
        and_then(scalar_track_of(c, kw), |t: ScalarTrackView| Ok(GroundView::TargetTrack(t)))
    } else {
        Err(LinkFault::UnknownConstructor(c))
    }
}

/// The first error among `results`.
pub open spec fn ground_first_error(results: Seq<Result<GroundView, LinkFault>>) -> Option<LinkFault> {
    if exists|i: int| 0 <= i < results.len() && (#[trigger] results[i]) is Err {
        let i = choose|i: int| 0 <= i < results.len() && (#[trigger] results[i]) is Err
            && forall|j: int| 0 <= j < i ==> (#[trigger] results[j]) is Ok;
        Some(results[i]->Err_0)
    } else {
        None
    }
}

/// `cases` with `x` placed by ascending value.
pub open spec fn ground_insert_sorted(cases: Seq<(u32, Seq<GroundView>)>, x: (u32, Seq<GroundView>)) -> Seq<(u32, Seq<GroundView>)>
    decreases cases.len(),
{
    if cases.len() == 0 {
        seq![x]
    } else if x.0 < cases[0].0 {
        seq![x] + cases
    } else {
        seq![cases[0]] + ground_insert_sorted(cases.drop_first(), x)
    }
}

/// One case of a command branch: its key, and the parse of its value
/// (`None` when it is not an array; otherwise each operation's parse).
pub open spec fn ground_case_step(c: Seq<char>, acc: Seq<(u32, Seq<GroundView>)>, key: Seq<char>, ops: Option<Seq<Result<GroundView, LinkFault>>>)
    -> Result<Seq<(u32, Seq<GroundView>)>, LinkFault> {
    match parse_unsigned(key, u32::MAX as nat) {
        Some(n) => if n > MAX_COMMAND_VALUE {
            Err(itype(c, "cases"@))
        } else {
            match ops {
                None => Err(itype(c, "cases"@)),
                Some(results) => if results.len() == 0 {
                    Err(itype(c, "cases"@))
                } else {
                    match ground_first_error(results) {
                        Some(f) => Err(f),
                        None => if exists|i: int| 0 <= i < acc.len() && (#[trigger] acc[i]).0 == n {
                            Err(itype(c, "cases"@))
                        } else {
                            Ok(ground_insert_sorted(acc, (n as u32, Seq::new(results.len(), |m: int| results[m]->Ok_0))))
                        },
                    }
                },
            }
        },
        None => Err(itype(c, "cases"@)),
    }
}

pub open spec fn ground_cases_fold(c: Seq<char>, keys: Seq<Seq<char>>, ops: Seq<Option<Seq<Result<GroundView, LinkFault>>>>, n: nat)
    -> Result<Seq<(u32, Seq<GroundView>)>, LinkFault>
    decreases n,
{
    if n == 0 {
        Ok(Seq::empty())
    } else {
        match ground_cases_fold(c, keys, ops, (n - 1) as nat) {
            Err(f) => Err(f),
            Ok(acc) => ground_case_step(c, acc, keys[n - 1], ops[n - 1]),
        }
    }
}

/// The parse of each case's operations (`None` for a case that is not an
/// array).
pub open spec fn ground_case_ops(ce: Seq<(Seq<char>, Mv)>) -> Seq<Option<Seq<Result<GroundView, LinkFault>>>>
    decreases ce, 3int,
{
    Seq::new(ce.len(), |k: int| {
        if 0 <= k < ce.len() {
            match ce[k].1 {
                Mv::Array(items, _) => Some(ground_op_results(items)),
                _ => None,
            }
        } else {
            None
        }
    })
}

/// The parse of each operation of a case.
pub open spec fn ground_op_results(items: Seq<Mv>) -> Seq<Result<GroundView, LinkFault>>
    decreases items, 2int,
{
    Seq::new(items.len(), |m: int| {
        if 0 <= m < items.len() {
            ground_of(items[m])
        } else {
            Err(LinkFault::ConstructorNotObject)
        }
    })
}

/// `motion.command_branch(index, cases)`: `cases` is a non-empty record
/// from command values to non-empty lists of operations.
#[verifier::opaque]
pub open spec fn ground_branch_of(v: Mv, c: Seq<char>, index: usize) -> Result<GroundView, LinkFault>
    decreases v, 0int,
{
    match v {
        Mv::Object(entries, _) => match first_key(entries, "kwargs"@) {
            Some(ki) => if 0 <= ki < entries.len() {
                match entries[ki].1 {
                    Mv::Object(kwe, _) => match first_key(kwe, "cases"@) {
                        Some(ci) => if 0 <= ci < kwe.len() {
                            match kwe[ci].1 {
                                Mv::Object(ce, _) => if ce.len() == 0 {
                                    Err(itype(c, "cases"@))
                                } else {
                                    match ground_cases_fold(c, case_keys(ce), ground_case_ops(ce), ce.len()) {
                                        Err(f) => Err(f),
                                        Ok(cases) => Ok(GroundView::CommandBranch(index, cases)),
                                    }
                                },
                                _ => Err(itype(c, "cases"@)),
                            }
                        } else {
                            Err(LinkFault::MissingKeyword(c, "cases"@))
                        },
                        None => Err(LinkFault::MissingKeyword(c, "cases"@)),
                    },
                    _ => Err(LinkFault::MissingKeyword(c, "cases"@)),
                }
            } else {
                Err(LinkFault::MissingKeyword(c, "cases"@))
            },
            None => Err(LinkFault::MissingKeyword(c, "cases"@)),
        },
        _ => Err(LinkFault::ConstructorNotObject),
    }
}

/// The ground operation the manifest value `v` describes.
#[verifier::opaque]
pub open spec fn ground_of(v: Mv) -> Result<GroundView, LinkFault>
    decreases v, 1int,
{
    match parts_of(v) {
        Err(f) => Err(f),
        Ok(p) => {
            let c = p.constructor;
            let kw = p.kwargs;
            if p.args.len() > 0 {
                Err(LinkFault::InvalidArgumentCount(c))
            } else if c == "motion.command_branch"@ {
                with_keys(c, kw, seq!["index"@, "cases"@],
                    and_then(command_index_of(c, kw, "index"@), |i: usize| ground_branch_of(v, c, i)))
            } else {
                simple_ground_of(c, kw)
            }
        },
    }
}

proof fn lemma_ground_insert_sorted(s: Seq<(u32, Seq<GroundView>)>, x: (u32, Seq<GroundView>), p: int)
    requires
        0 <= p <= s.len(),
        forall|i: int| 0 <= i < p ==> (#[trigger] s[i]).0 < x.0,
        forall|i: int| p <= i < s.len() ==> (#[trigger] s[i]).0 > x.0,
    ensures
        ground_insert_sorted(s, x) == s.take(p) + seq![x] + s.skip(p),
    decreases s.len(),
{
    if s.len() == 0 {
        assert(s.take(p) + seq![x] + s.skip(p) =~= seq![x]);
    } else if p == 0 {
        assert(x.0 < s[0].0);
        assert(s.take(p) + seq![x] + s.skip(p) =~= seq![x] + s);
    } else {
        let t = s.drop_first();
        assert forall|i: int| 0 <= i < p - 1 implies (#[trigger] t[i]).0 < x.0 by {
            assert(t[i] == s[i + 1]);
        }
        assert forall|i: int| p - 1 <= i < t.len() implies (#[trigger] t[i]).0 > x.0 by {
            assert(t[i] == s[i + 1]);
        }
        lemma_ground_insert_sorted(t, x, p - 1);
        assert(seq![s[0]] + (t.take(p - 1) + seq![x] + t.skip(p - 1)) =~= s.take(p) + seq![x] + s.skip(p));
    }
}

proof fn lemma_ground_cases_err_extends(c: Seq<char>, keys: Seq<Seq<char>>, ops: Seq<Option<Seq<Result<GroundView, LinkFault>>>>, k: nat, n: nat, f: LinkFault)
    requires
        k <= n,
        ground_cases_fold(c, keys, ops, k) == Err::<Seq<(u32, Seq<GroundView>)>, LinkFault>(f),
    ensures
        ground_cases_fold(c, keys, ops, n) == Err::<Seq<(u32, Seq<GroundView>)>, LinkFault>(f),
    decreases n - k,
{
    if k < n {
        lemma_ground_cases_err_extends(c, keys, ops, k, (n - 1) as nat, f);
    }
}


proof fn lemma_ground_first_error(results: Seq<Result<GroundView, LinkFault>>, m: int)
    requires
        0 <= m < results.len(),
        results[m] is Err,
        forall|j: int| 0 <= j < m ==> (#[trigger] results[j]) is Ok,
    ensures
        ground_first_error(results) == Some(results[m]->Err_0),
{
    let f = choose|i: int| 0 <= i < results.len() && (#[trigger] results[i]) is Err
        && forall|j: int| 0 <= j < i ==> (#[trigger] results[j]) is Ok;
    if f < m {
        assert(results[f] is Ok);
    } else if f > m {
        assert(results[m] is Ok);
    }
}

/// Parses the operations of one case, stopping at the first refusal.
#[verifier::rlimit(100)]
#[verifier::spinoff_prover]
fn parse_ground_ops(items: &Vec<ManifestValue>) -> (r: Result<Vec<GroundOperationDescriptor>, MotionLinkError>)
    ensures
        match ground_first_error(ground_op_results(mv_items(items@))) {
            Some(f) => r matches Err(e) && e@ == f,
            None => r matches Ok(v) && ground_views(v@) == Seq::new(items@.len(), |m: int| ground_op_results(mv_items(items@))[m]->Ok_0),
        },
    decreases items, 2int,
{
    let ghost iv = mv_items(items@);
    let ghost results = ground_op_results(iv);
    assert(results.len() == iv.len());
    assert(forall|j: int| 0 <= j < iv.len() ==> #[trigger] results[j] == ground_of(iv[j]));
    let mut parsed: Vec<GroundOperationDescriptor> = Vec::new();
    let mut m: usize = 0;
    while m < items.len()
        invariant
            m <= items@.len(),
            iv == mv_items(items@),
            results == ground_op_results(iv),
            results.len() == iv.len(),
            forall|j: int| 0 <= j < iv.len() ==> #[trigger] results[j] == ground_of(iv[j]),
            parsed@.len() == m,
            forall|j: int| 0 <= j < m ==> results[j] == Ok::<GroundView, LinkFault>(ground_view(#[trigger] parsed@[j])),
        decreases items@.len() - m,
    {
        assert(iv[m as int] == items@[m as int]@);
        let next = parse_ground_operation(&items[m]);
        match next {
            Ok(op) => {
                parsed.push(op);
            },
            Err(e) => {
                proof {
                    assert(results[m as int] == Err::<GroundView, LinkFault>(e@));
                    assert forall|j: int| 0 <= j < m implies (#[trigger] results[j]) is Ok by {
                        assert(results[j] == Ok::<GroundView, LinkFault>(ground_view(parsed@[j])));
                    }
                    lemma_ground_first_error(results, m as int);
                }
                return Err(e);
            },
        }
        m = m + 1;
    }
    proof {
        assert forall|i: int| 0 <= i < results.len() implies !((#[trigger] results[i]) is Err) by {
            assert(results[i] == Ok::<GroundView, LinkFault>(ground_view(parsed@[i])));
        }
        assert(ground_views(parsed@) =~= Seq::new(items@.len(), |j: int| results[j]->Ok_0));
    }
    Ok(parsed)
}

/// A ground operation other than a command branch, from its constructor
/// name and keyword arguments.
#[verifier::rlimit(100)]
#[verifier::spinoff_prover]
fn simple_ground_operation(c: &str, kw: Option<&Vec<(String, ManifestValue)>>, kw_entries: &Vec<(String, ManifestValue)>)
    -> (r: Result<GroundOperationDescriptor, MotionLinkError>)
    requires
        mv_entries(kw_entries@) == kw_view(kw),
    ensures
        link_result(r, simple_ground_of(c@, kw_view(kw)), |op: GroundOperationDescriptor| ground_view(op)),
{
    proof {
        reveal(simple_ground_of);
    }
    if str_eq(c, "motion.ground_friction_above_walk") {
        let allowed: Vec<&str> = Vec::new();
        assert(allowed@.map_values(|a: &str| a@) =~= Seq::<Seq<char>>::empty());
        reject_unknown(c, kw_entries, &allowed)?;
        let amount = FieldRef::new("movement.ground_friction".to_owned())?;
        let walk = FieldRef::new("movement.walk_max_velocity".to_owned())?;
        let above = FieldRef::new("rules.friction_above_walk".to_owned())?;
        Ok(GroundOperationDescriptor::FrictionAboveWalk {
            amount: ScalarRef::Parameter(amount),
            walk_max_velocity: ScalarRef::Parameter(walk),
            above_walk_multiplier: ScalarRef::Parameter(above),
        })
    } else if str_eq(c, "motion.friction") || str_eq(c, "motion.ground_friction") {
        let allowed: Vec<&str> = vec!["amount", "path"];
        assert(allowed@.map_values(|a: &str| a@) =~= seq!["amount"@, "path"@]);
        reject_unknown(c, kw_entries, &allowed)?;
        let amount = keyword_or_path(kw, c, "amount", "path")?;
        Ok(GroundOperationDescriptor::Friction { amount })
    } else if str_eq(c, "motion.stick_steering") {
        let allowed: Vec<&str> = vec!["threshold", "acceleration", "target"];
        assert(allowed@.map_values(|a: &str| a@) =~= seq!["threshold"@, "acceleration"@, "target"@]);
        reject_unknown(c, kw_entries, &allowed)?;
        let threshold = required_scalar(kw, c, "threshold")?;
        let acceleration = required_scalar(kw, c, "acceleration")?;
        let target = required_scalar(kw, c, "target")?;
        Ok(GroundOperationDescriptor::StickSteering { threshold, acceleration, target })
    } else if str_eq(c, "motion.friction_after") || str_eq(c, "motion.ground_friction_after") {
        let allowed: Vec<&str> = vec!["starts_at", "before", "after"];
        assert(allowed@.map_values(|a: &str| a@) =~= seq!["starts_at"@, "before"@, "after"@]);
        reject_unknown(c, kw_entries, &allowed)?;
        let starts_at = required_scalar(kw, c, "starts_at")?;
        let before = required_scalar(kw, c, "before")?;
        let after = required_scalar(kw, c, "after")?;
        Ok(GroundOperationDescriptor::FrictionAfter { starts_at, before, after })
    } else if str_eq(c, "motion.target_track") {
        let track = scalar_track(c, kw)?;
        Ok(GroundOperationDescriptor::TargetTrack(track))
    } else {
        Err(MotionLinkError::UnknownConstructor(c.to_owned()))
    }
}

/// Parses the cases of the `motion.command_branch` constructor object
/// `value`.
#[verifier::rlimit(100)]
#[verifier::spinoff_prover]
#[verifier::loop_isolation(false)]
fn ground_command_cases(value: &ManifestValue, constructor: &str) -> (r: Result<Vec<(u32, Vec<GroundOperationDescriptor>)>, MotionLinkError>)
    ensures
        match ground_branch_of(value@, constructor@, 0) {
            Ok(GroundView::CommandBranch(_, cases)) => r matches Ok(v) && ground_case_views(v@) == cases,
            Ok(_) => false,
            Err(f) => r matches Err(e) && e@ == f,
        },
    decreases value, 0int,
{
    proof {
        reveal_with_fuel(ground_branch_of, 1);
    }
    let entries = match value {
        ManifestValue::Object { entries, .. } => entries,
        _ => return Err(MotionLinkError::ConstructorNotObject),
    };
    proof {
        lemma_object_view(*value);
    }
    let missing = MotionLinkError::MissingKeyword { constructor: constructor.to_owned(), keyword: "cases".to_owned() };
    let Some(ki) = key_index(entries, "kwargs") else {
        return Err(missing);
    };
    let kw_value = &entries[ki].1;
    assert(mv_entries(entries@)[ki as int].1 == kw_value@);
    let kwe = match kw_value {
        ManifestValue::Object { entries, .. } => entries,
        _ => return Err(missing),
    };
    proof {
        lemma_object_view(*kw_value);
    }
    let Some(ci) = key_index(kwe, "cases") else {
        return Err(missing);
    };
    let cases_value = &kwe[ci].1;
    assert(mv_entries(kwe@)[ci as int].1 == cases_value@);
    let ce = match cases_value {
        ManifestValue::Object { entries, .. } => entries,
        _ => return Err(invalid_type(constructor, "cases")),
    };
    proof {
        lemma_object_view(*cases_value);
    }
    let ghost cev = mv_entries(ce@);
    if ce.len() == 0 {
        assert(ground_branch_of(value@, constructor@, 0) == Err::<GroundView, LinkFault>(itype(constructor@, "cases"@))) by {
            reveal_with_fuel(ground_branch_of, 1);
        }
        return Err(invalid_type(constructor, "cases"));
    }
    let ghost c = constructor@;
    let ghost keys = case_keys(cev);
    let ghost ops = ground_case_ops(cev);

    assert(ground_branch_of(value@, c, 0) == match ground_cases_fold(c, keys, ops, cev.len()) {
        Err(f) => Err(f),
        Ok(cases) => Ok(GroundView::CommandBranch(0, cases)),
    }) by {
        reveal_with_fuel(ground_branch_of, 1);
    }
    let mut out: Vec<(u32, Vec<GroundOperationDescriptor>)> = Vec::new();
    assert(ground_case_views(out@) =~= Seq::<(u32, Seq<GroundView>)>::empty());
    let mut k: usize = 0;
    while k < ce.len()
        invariant
            k <= ce@.len(),
            cev == mv_entries(ce@),
            keys == case_keys(cev),
            ops == ground_case_ops(cev),
            ops.len() == cev.len(),
            forall|j: int| 0 <= j < cev.len() ==> #[trigger] ops[j] == match cev[j].1 {
                Mv::Array(items, _) => Some(ground_op_results(items)),
                _ => None,
            },
            ground_cases_fold(c, keys, ops, k as nat) == Ok::<Seq<(u32, Seq<GroundView>)>, LinkFault>(ground_case_views(out@)),
            ground_branch_of(value@, c, 0) == match ground_cases_fold(c, keys, ops, cev.len()) {
                Err(f) => Err(f),
                Ok(cases) => Ok(GroundView::CommandBranch(0, cases)),
            },
            forall|i: int, j: int| 0 <= i < j < out@.len() ==> (#[trigger] out@[i]).0 < (#[trigger] out@[j]).0,
            c == constructor@,
        decreases ce@.len() - k,
    {
        let key = ce[k].0.as_str();
        assert(keys[k as int] == key@);
        let item_value = &ce[k].1;
        assert(cev[k as int].1 == item_value@);
        let ghost before = ground_case_views(out@);
        assert(ground_cases_fold(c, keys, ops, (k + 1) as nat) == ground_case_step(c, before, keys[k as int], ops[k as int]));
        let n = match parse_unsigned_text(key, 4_294_967_295) {
            Some(n) => if n > MAX_COMMAND_VALUE {
                proof { lemma_ground_cases_err_extends(c, keys, ops, (k + 1) as nat, cev.len(), itype(c, "cases"@)); }
                return Err(invalid_type(constructor, "cases"));
            } else {
                n as u32
            },
            None => {
                proof { lemma_ground_cases_err_extends(c, keys, ops, (k + 1) as nat, cev.len(), itype(c, "cases"@)); }
                return Err(invalid_type(constructor, "cases"));
            },
        };
        let items = match item_value {
            ManifestValue::Array { items, .. } => items,
            _ => {
                proof { lemma_ground_cases_err_extends(c, keys, ops, (k + 1) as nat, cev.len(), itype(c, "cases"@)); }
                return Err(invalid_type(constructor, "cases"));
            },
        };
        proof {
            lemma_array_view(*item_value);
        }
        let ghost results = ground_op_results(mv_items(items@));
        assert(ops[k as int] == Some(results));
        if items.len() == 0 {
            proof { lemma_ground_cases_err_extends(c, keys, ops, (k + 1) as nat, cev.len(), itype(c, "cases"@)); }
            return Err(invalid_type(constructor, "cases"));
        }
        let parsed_ops = match parse_ground_ops(items) {
            Ok(v) => v,
            Err(e) => {
                proof { lemma_ground_cases_err_extends(c, keys, ops, (k + 1) as nat, cev.len(), e@); }
                return Err(e);
            },
        };
        let ghost pv = ground_views(parsed_ops@);
        let mut p: usize = 0;
        let mut duplicate = false;
        while p < out.len()
            invariant
                p <= out@.len(),
                forall|i: int, j: int| 0 <= i < j < out@.len() ==> (#[trigger] out@[i]).0 < (#[trigger] out@[j]).0,
                !duplicate ==> forall|i: int| 0 <= i < p ==> (#[trigger] out@[i]).0 < n,
                !duplicate,
            decreases out@.len() - p,
        {
            if out[p].0 == n {
                duplicate = true;
                break;
            }
            if out[p].0 > n {
                break;
            }
            p = p + 1;
        }
        if duplicate {
            proof {
                assert(before[p as int].0 == n);
                lemma_ground_cases_err_extends(c, keys, ops, (k + 1) as nat, cev.len(), itype(c, "cases"@));
            }
            return Err(invalid_type(constructor, "cases"));
        }
        proof {
            assert forall|i: int| p <= i < out@.len() implies (#[trigger] out@[i]).0 > n by {
                assert(out@[p as int].0 > n);
                if i > p {
                    assert(out@[p as int].0 < out@[i].0);
                }
            }
            assert(!(exists|i: int| 0 <= i < before.len() && (#[trigger] before[i]).0 == n as nat)) by {
                if exists|i: int| 0 <= i < before.len() && (#[trigger] before[i]).0 == n as nat {
                    let i = choose|i: int| 0 <= i < before.len() && (#[trigger] before[i]).0 == n as nat;
                    assert(out@[i].0 == n);
                }
            }
            let x = (n, pv);
            assert forall|i: int| 0 <= i < p implies (#[trigger] before[i]).0 < x.0 by {
                assert(out@[i].0 < n);
            }
            assert forall|i: int| p <= i < before.len() implies (#[trigger] before[i]).0 > x.0 by {
                assert(out@[i].0 > n);
            }
            lemma_ground_insert_sorted(before, x, p as int);
            assert(Seq::new(results.len(), |m: int| results[m]->Ok_0) == pv);
        }
        let ghost old_out = out@;
        out.insert(p, (n, parsed_ops));
        proof {
            assert(ground_case_views(out@) =~= before.take(p as int) + seq![(n, pv)] + before.skip(p as int));
            assert forall|i: int, j: int| 0 <= i < j < out@.len() implies (#[trigger] out@[i]).0 < (#[trigger] out@[j]).0 by {
                if j < p {
                    assert(out@[i] == old_out[i] && out@[j] == old_out[j]);
                } else if j == p {
                    assert(out@[i] == old_out[i]);
                } else if i == p {
                    assert(out@[j] == old_out[j - 1]);
                } else if i < p {
                    assert(out@[i] == old_out[i] && out@[j] == old_out[j - 1]);
                } else {
                    assert(out@[i] == old_out[i - 1] && out@[j] == old_out[j - 1]);
                }
            }
        }
        k = k + 1;
    }
    Ok(out)
}

proof fn lemma_ground_branch_index(v: Mv, c: Seq<char>, i: usize)
    ensures
        match ground_branch_of(v, c, 0) {
            Ok(GroundView::CommandBranch(_, cases)) => ground_branch_of(v, c, i) == Ok::<GroundView, LinkFault>(GroundView::CommandBranch(i, cases)),
            Ok(_) => true,
            Err(f) => ground_branch_of(v, c, i) == Err::<GroundView, LinkFault>(f),
        },
{
    reveal_with_fuel(ground_branch_of, 1);
}

/// Parses one ground operation of a motion manifest.
#[verifier::rlimit(100)]
#[verifier::spinoff_prover]
pub fn parse_ground_operation(value: &ManifestValue) -> (r: Result<GroundOperationDescriptor, MotionLinkError>)
    ensures
        link_result(r, ground_of(value@), |op: GroundOperationDescriptor| ground_view(op)),
    decreases value, 1int,
{
    proof {
        reveal_with_fuel(ground_of, 1);
    }
    let parts = constructor_parts(value)?;
    let ghost pv = parts_view(parts);
    let c = parts.constructor.as_str();
    let kw = parts.kwargs;
    if let Some(a) = parts.args {
        if a.len() > 0 {
            return Err(MotionLinkError::InvalidArgumentCount { constructor: c.to_owned() });
        }
    }
    let empty: Vec<(String, ManifestValue)> = Vec::new();
    let kw_entries = match kw { Some(k) => k, None => &empty };
    assert(mv_entries(kw_entries@) =~= kw_view(kw));
    if str_eq(c, "motion.command_branch") {
        let allowed: Vec<&str> = vec!["index", "cases"];
        assert(allowed@.map_values(|a: &str| a@) =~= seq!["index"@, "cases"@]);
        reject_unknown(c, kw_entries, &allowed)?;
        let index = command_index(kw, c, "index")?;
        proof {
            lemma_ground_branch_index(value@, c@, index);
        }
        let cases = ground_command_cases(value, c)?;
        let op = GroundOperationDescriptor::CommandBranch { index, cases };
        proof {
            lemma_ground_branch_view(op);
        }
        Ok(op)
    } else {
        simple_ground_operation(c, kw, kw_entries)
    }
}

// ---------------------------------------------------------------------
// Motion profiles
// ---------------------------------------------------------------------

/// A motion profile's air and ground operations.
#[derive(Debug, PartialEq)]
pub struct MotionDescriptor {
    pub air: Vec<AirOperationDescriptor>,
    pub ground: Vec<GroundOperationDescriptor>,
}

pub open spec fn air_list_of(v: Option<Mv>) -> Result<Seq<AirView>, LinkFault> {
    match v {
        None => Ok(Seq::empty()),
        Some(Mv::Array(items, _)) => match first_error(op_results(items)) {
            Some(f) => Err(f),
            None => Ok(Seq::new(items.len(), |m: int| op_results(items)[m]->Ok_0)),
        },
        Some(_) => Err(itype("motion.profile"@, "air"@)),
    }
}

pub open spec fn ground_list_of(v: Option<Mv>) -> Result<Seq<GroundView>, LinkFault> {
    match v {
        None => Ok(Seq::empty()),
        Some(Mv::Array(items, _)) => match ground_first_error(ground_op_results(items)) {
            Some(f) => Err(f),
            None => Ok(Seq::new(items.len(), |m: int| ground_op_results(items)[m]->Ok_0)),
        },
        Some(_) => Err(itype("motion.profile"@, "ground"@)),
    }
}

/// `motion.profile(air=[..], ground=[..])`: the descriptor of a motion
/// profile.
pub open spec fn profile_of(v: Mv) -> Result<(Seq<AirView>, Seq<GroundView>), LinkFault> {
    match parts_of(v) {
        Err(f) => Err(f),
        Ok(p) => if p.constructor != "motion.profile"@ {
            Err(LinkFault::UnknownConstructor(p.constructor))
        } else if p.args.len() > 0 {
            Err(LinkFault::InvalidArgumentCount(p.constructor))
        } else {
            match unknown_keyword(p.constructor, p.kwargs, seq!["air"@, "ground"@]) {
                Some(f) => Err(f),
                None => match air_list_of(crate::host_state::entry_get(p.kwargs, "air"@)) {
                    Err(f) => Err(f),
                    Ok(air) => match ground_list_of(crate::host_state::entry_get(p.kwargs, "ground"@)) {
                        Err(f) => Err(f),
                        Ok(ground) => Ok((air, ground)),
                    },
                },
            }
        },
    }
}

pub open spec fn descriptor_view(d: MotionDescriptor) -> (Seq<AirView>, Seq<GroundView>) {
    (crate::air_operations::air_views(d.air@), ground_views(d.ground@))
}

/// Decodes a compiled `motion.profile` constructor.
#[verifier::rlimit(100)]
#[verifier::spinoff_prover]
pub fn parse_profile_constructor(value: &ManifestValue) -> (r: Result<MotionDescriptor, MotionLinkError>)
    ensures
        link_result(r, profile_of(value@), |d: MotionDescriptor| descriptor_view(d)),
{
    let parts = constructor_parts(value)?;
    let c = parts.constructor.as_str();
    crate::motion_links::require_constructor(c, "motion.profile")?;
    if let Some(a) = parts.args {
        if a.len() > 0 {
            return Err(MotionLinkError::InvalidArgumentCount { constructor: c.to_owned() });
        }
    }
    let kw = parts.kwargs;
    let empty: Vec<(String, ManifestValue)> = Vec::new();
    let kw_entries = match kw { Some(k) => k, None => &empty };
    assert(mv_entries(kw_entries@) =~= kw_view(kw));
    let allowed: Vec<&str> = vec!["air", "ground"];
    assert(allowed@.map_values(|a: &str| a@) =~= seq!["air"@, "ground"@]);
    reject_unknown(c, kw_entries, &allowed)?;
    let air = match keyword(kw, "air") {
        None => {
            let v: Vec<AirOperationDescriptor> = Vec::new();
            assert(crate::air_operations::air_views(v@) =~= Seq::<AirView>::empty());
            v
        },
        Some(v) => match v {
            ManifestValue::Array { items, .. } => {
                proof {
                    lemma_array_view(*v);
                }
                parse_ops(items)?
            },
            _ => return Err(invalid_type("motion.profile", "air")),
        },
    };
    let ground = match keyword(kw, "ground") {
        None => {
            let v: Vec<GroundOperationDescriptor> = Vec::new();
            assert(ground_views(v@) =~= Seq::<GroundView>::empty());
            v
        },
        Some(v) => match v {
            ManifestValue::Array { items, .. } => {
                proof {
                    lemma_array_view(*v);
                }
                parse_ground_ops(items)?
            },
            _ => return Err(invalid_type("motion.profile", "ground")),
        },
    };
    Ok(MotionDescriptor { air, ground })
}

} // verus!
