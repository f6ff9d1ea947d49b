//! Per-action resource sidecars: command traces and animation event masks.
//!
//! Both are compiled once, at resource registration, into compact native
//! rows so the frame hot path never reads resource documents.  A command
//! trace has one row of four optional command variables per animation
//! frame; an animation event mask row is one byte per frame, with missing
//! trailing rows meaning all-zero.

use vstd::prelude::*;
use crate::float_bits::{f64_is_finite, f64_nonnegative, f64_whole_u32, f64_whole_value};

verus! {

/// Largest number of rows a sidecar may have.
pub const MAX_SIDECAR_ROWS: usize = 4096;

/// A command-trace cell as the resource document holds it.
#[derive(Clone, Debug, PartialEq, Eq)]
pub enum TraceCell {
    Null,
    /// A number the document stores as an unsigned integer.
    Unsigned(u64),
    /// Any other number, as the bits of its `f64` value.
    Number(u64),
    /// A value that is not a number or null.
    Other,
}

/// A command-trace row: an array of cells, or something else.
#[derive(Clone, Debug, PartialEq, Eq)]
pub enum TraceRow {
    Columns(Vec<TraceCell>),
    Other,
}

/// The animation event masks entry of a resource.
#[derive(Clone, Debug, PartialEq, Eq)]
pub enum MaskRows {
    Absent,
    NotArray,
    /// The rows, each as an unsigned integer when it is one.
    Rows(Vec<Option<u64>>),
}

/// Why a sidecar could not be compiled.
#[derive(Clone, Copy, Debug, PartialEq, Eq, Structural)]
pub enum SidecarError {
    /// The trace's pose resource has no frames.
    MissingPose,
    MissingCmdVars,
    MissingAllowInterrupt,
    /// Command and interrupt row counts differ from the pose frame count.
    RowCountMismatch { command_rows: usize, interrupt_rows: usize, expected: usize },
    /// The trace has no `cmd_vars` array.
    UnknownTrace,
    /// The trace has no rows, or more than `MAX_SIDECAR_ROWS`.
    FrameCount,
    RowNotArray { frame: usize },
    ColumnCount { frame: usize },
    InvalidCell { frame: usize, column: usize },
    MasksNotArray,
    /// Masks are declared without an animation resource.
    MasksNeedAnimation,
    /// The masks' pose resource has no frames.
    MasksMissingPose,
    TooManyMasks { rows: usize, expected: usize },
    MaskNotU8 { frame: usize },
}

/// What a trace's row counts must satisfy: none when the trace has no pose
/// resource; otherwise the pose has frames and both `cmd_vars` and
/// `allow_interrupt` have exactly that many rows.  `pose_frames` is the
/// frame count of the pose resource when the trace names one.
pub open spec fn spec_trace_lengths(pose_frames: Option<usize>, cmd_rows: Option<usize>, interrupt_rows: Option<usize>) -> Result<(), SidecarError> {
    match pose_frames {
        None => Ok(()),
        Some(expected) => if expected == 0 {
            Err(SidecarError::MissingPose)
        } else if cmd_rows is None {
            Err(SidecarError::MissingCmdVars)
        } else if interrupt_rows is None {
            Err(SidecarError::MissingAllowInterrupt)
        } else if cmd_rows->0 != expected || interrupt_rows->0 != expected {
            Err(SidecarError::RowCountMismatch { command_rows: cmd_rows->0, interrupt_rows: interrupt_rows->0, expected })
        } else {
            Ok(())
        },
    }
}

/// A trace with a pose resource passes the row-count check only when the
/// pose has frames and `cmd_vars` and `allow_interrupt` both have exactly
/// one row per frame; when both row counts are present and either differs
/// from a non-zero frame count, the refusal reports both counts and the
/// frame count.  A trace without a pose resource is not checked.
pub proof fn law_trace_rows_match_the_pose(pose_frames: Option<usize>, cmd_rows: Option<usize>, interrupt_rows: Option<usize>)
    ensures
        spec_trace_lengths(pose_frames, cmd_rows, interrupt_rows) is Ok <==> (pose_frames is None
            || (pose_frames->0 > 0 && cmd_rows == pose_frames && interrupt_rows == pose_frames)),
        (pose_frames is Some && pose_frames->0 > 0 && cmd_rows is Some && interrupt_rows is Some
            && (cmd_rows->0 != pose_frames->0 || interrupt_rows->0 != pose_frames->0))
            ==> spec_trace_lengths(pose_frames, cmd_rows, interrupt_rows) == Err::<(), SidecarError>((SidecarError::RowCountMismatch {
                command_rows: cmd_rows->0,
                interrupt_rows: interrupt_rows->0,
                expected: pose_frames->0,
            })),
{
}

/// Checks a command trace's row counts against its pose resource.
pub fn validate_command_trace_lengths(pose_frames: Option<usize>, cmd_rows: Option<usize>, interrupt_rows: Option<usize>) -> (r: Result<(), SidecarError>)
    ensures
        r == spec_trace_lengths(pose_frames, cmd_rows, interrupt_rows),
{
    let Some(expected) = pose_frames else {
        return Ok(());
    };
    if expected == 0 {
        return Err(SidecarError::MissingPose);
    }
    let Some(command_rows) = cmd_rows else {
        return Err(SidecarError::MissingCmdVars);
    };
    let Some(interrupt) = interrupt_rows else {
        return Err(SidecarError::MissingAllowInterrupt);
    };
    if command_rows != expected || interrupt != expected {
        return Err(SidecarError::RowCountMismatch { command_rows, interrupt_rows: interrupt, expected });
    }
    Ok(())
}

/// What a cell holds: `Some(None)` for null, `Some(Some(v))` for a whole
/// number `v` in `0..=u32::MAX`, `None` for anything else.
pub open spec fn spec_cell_value(c: TraceCell) -> Option<Option<u32>> {
    match c {
        TraceCell::Null => Some(None),
        TraceCell::Unsigned(v) => if v <= u32::MAX { Some(Some(v as u32)) } else { None },
        TraceCell::Number(b) => if f64_is_finite(b) && f64_nonnegative(b) && f64_whole_value(b) is Some
            && f64_whole_value(b)->0 <= u32::MAX {
            Some(Some(f64_whole_value(b)->0 as u32))
        } else {
            None
        },
        TraceCell::Other => None,
    }
}

/// Reads one cell as `spec_cell_value` says.
pub fn command_trace_value(c: &TraceCell) -> (r: Option<Option<u32>>)
    ensures
        r == spec_cell_value(*c),
{
    match c {
        TraceCell::Null => Some(None),
        TraceCell::Unsigned(v) => if *v <= 0xffff_ffff { Some(Some(*v as u32)) } else { None },
        TraceCell::Number(b) => match f64_whole_u32(*b) {
            Some(v) => Some(Some(v)),
            None => None,
        },
        TraceCell::Other => None,
    }
}

/// The four variables of row `frame`, or why it is malformed: it must be an
/// array of exactly four cells, and the first invalid cell is reported.
#[verifier::opaque]
pub open spec fn spec_trace_row(row: TraceRow, frame: usize) -> Result<Seq<Option<u32>>, SidecarError> {
    match row {
        TraceRow::Other => Err(SidecarError::RowNotArray { frame }),
        TraceRow::Columns(cs) => {
            let c = cs@;
            if c.len() != 4 {
                Err(SidecarError::ColumnCount { frame })
            } else if spec_cell_value(c[0]) is None {
                Err(SidecarError::InvalidCell { frame, column: 0 })
            } else if spec_cell_value(c[1]) is None {
                Err(SidecarError::InvalidCell { frame, column: 1 })
            } else if spec_cell_value(c[2]) is None {
                Err(SidecarError::InvalidCell { frame, column: 2 })
            } else if spec_cell_value(c[3]) is None {
                Err(SidecarError::InvalidCell { frame, column: 3 })
            } else {
                Ok(seq![
                    spec_cell_value(c[0])->0,
                    spec_cell_value(c[1])->0,
                    spec_cell_value(c[2])->0,
                    spec_cell_value(c[3])->0,
                ])
            }
        },
    }
}

/// The rows of the first `n` frames, or the first frame's fault.
pub open spec fn spec_trace_prefix(rows: Seq<TraceRow>, n: nat) -> Result<Seq<Seq<Option<u32>>>, SidecarError>
    decreases n,
{
    if n == 0 {
        Ok(Seq::empty())
    } else {
        match spec_trace_prefix(rows, (n - 1) as nat) {
            Err(e) => Err(e),
            Ok(p) => match spec_trace_row(rows[n - 1], (n - 1) as usize) {
                Ok(r) => Ok(p.push(r)),
                Err(e) => Err(e),
            },
        }
    }
}

/// The compiled trace of a `cmd_vars` entry (`None` when it is missing or
/// not an array): `1..=MAX_SIDECAR_ROWS` well-formed rows.
pub open spec fn spec_command_trace(cmd_vars: Option<Seq<TraceRow>>) -> Result<Seq<Seq<Option<u32>>>, SidecarError> {
    match cmd_vars {
        None => Err(SidecarError::UnknownTrace),
        Some(rows) => if rows.len() == 0 || rows.len() > MAX_SIDECAR_ROWS {
            Err(SidecarError::FrameCount)
        } else {
            spec_trace_prefix(rows, rows.len())
        },
    }
}

pub open spec fn rows_view(v: Seq<[Option<u32>; 4]>) -> Seq<Seq<Option<u32>>> {
    v.map_values(|a: [Option<u32>; 4]| a@)
}

pub open spec fn opt_rows(o: Option<&Vec<TraceRow>>) -> Option<Seq<TraceRow>> {
    match o {
        Some(v) => Some(v@),
        None => None,
    }
}

fn trace_row(row: &TraceRow, frame: usize) -> (r: Result<[Option<u32>; 4], SidecarError>)
    ensures
        match spec_trace_row(*row, frame) {
            Ok(v) => r matches Ok(a) && a@ == v,
            Err(e) => r == Err::<[Option<u32>; 4], SidecarError>(e),
        },
{
    reveal(spec_trace_row);
    let TraceRow::Columns(cs) = row else {
        return Err(SidecarError::RowNotArray { frame });
    };
    if cs.len() != 4 {
        return Err(SidecarError::ColumnCount { frame });
    }
    let Some(a) = command_trace_value(&cs[0]) else {
        return Err(SidecarError::InvalidCell { frame, column: 0 });
    };
    let Some(b) = command_trace_value(&cs[1]) else {
        return Err(SidecarError::InvalidCell { frame, column: 1 });
    };
    let Some(c) = command_trace_value(&cs[2]) else {
        return Err(SidecarError::InvalidCell { frame, column: 2 });
    };
    let Some(d) = command_trace_value(&cs[3]) else {
        return Err(SidecarError::InvalidCell { frame, column: 3 });
    };
    let out = [a, b, c, d];
    assert(out@ =~= seq![a, b, c, d]);
    Ok(out)
}

/// Compiles a command trace's `cmd_vars` rows.
pub fn compile_command_trace(cmd_vars: Option<&Vec<TraceRow>>) -> (r: Result<Vec<[Option<u32>; 4]>, SidecarError>)
    ensures
        match spec_command_trace(opt_rows(cmd_vars)) {
            Ok(v) => r matches Ok(rows) && rows_view(rows@) == v,
            Err(e) => r == Err::<Vec<[Option<u32>; 4]>, SidecarError>(e),
        },
{
    let Some(rows) = cmd_vars else {
        return Err(SidecarError::UnknownTrace);
    };
    if rows.len() == 0 || rows.len() > MAX_SIDECAR_ROWS {
        return Err(SidecarError::FrameCount);
    }
    let mut linked: Vec<[Option<u32>; 4]> = Vec::new();
    let mut frame: usize = 0;
    while frame < rows.len()
        invariant
            frame <= rows.len(),
            opt_rows(cmd_vars) == Some(rows@),
            0 < rows@.len() <= MAX_SIDECAR_ROWS,
            spec_trace_prefix(rows@, frame as nat) matches Ok(p) && rows_view(linked@) == p,
        decreases rows.len() - frame,
    {
        match trace_row(&rows[frame], frame) {
            Ok(row) => {
                let ghost before = linked@;
                linked.push(row);
                assert(rows_view(linked@) =~= rows_view(before).push(row@));
            },
            Err(e) => {
                proof {
                    lemma_trace_prefix_err(rows@, (frame + 1) as nat, rows@.len());
                }
                return Err(e);
            },
        }
        frame = frame + 1;
    }
    Ok(linked)
}

/// Once a prefix fails, every longer prefix fails the same way.
proof fn lemma_trace_prefix_err(rows: Seq<TraceRow>, k: nat, n: nat)
    requires
        k <= n,
        spec_trace_prefix(rows, k) is Err,
    ensures
        spec_trace_prefix(rows, n) == spec_trace_prefix(rows, k),
    decreases n - k,
{
    if k < n {
        lemma_trace_prefix_err(rows, k, (n - 1) as nat);
    }
}

/// The bytes of the first `n` mask rows, or the first row that is not one.
pub open spec fn spec_mask_prefix(rows: Seq<Option<u64>>, n: nat) -> Result<Seq<u8>, SidecarError>
    decreases n,
{
    if n == 0 {
        Ok(Seq::empty())
    } else {
        match spec_mask_prefix(rows, (n - 1) as nat) {
            Err(e) => Err(e),
            Ok(p) => match rows[n - 1] {
                Some(v) => if v <= u8::MAX {
                    Ok(p.push(v as u8))
                } else {
                    Err(SidecarError::MaskNotU8 { frame: (n - 1) as usize })
                },
                None => Err(SidecarError::MaskNotU8 { frame: (n - 1) as usize }),
            },
        }
    }
}

/// The compiled masks: `None` when the resource declares none; otherwise
/// the declaration must be an array, the trace must name an animation
/// resource with frames (`pose_frames` is its frame count when it names
/// one), there may be no more rows than frames nor than
/// `MAX_SIDECAR_ROWS`, and every row must be a byte.
pub open spec fn spec_event_masks(masks: MaskRows, pose_frames: Option<usize>) -> Result<Option<Seq<u8>>, SidecarError> {
    match masks {
        MaskRows::Absent => Ok(None),
        MaskRows::NotArray => Err(SidecarError::MasksNotArray),
        MaskRows::Rows(rows) => match pose_frames {
            None => Err(SidecarError::MasksNeedAnimation),
            Some(expected) => if expected == 0 {
                Err(SidecarError::MasksMissingPose)
            } else if rows@.len() > expected || rows@.len() > MAX_SIDECAR_ROWS {
                Err(SidecarError::TooManyMasks { rows: rows@.len() as usize, expected })
            } else {
                match spec_mask_prefix(rows@, rows@.len()) {
                    Ok(v) => Ok(Some(v)),
                    Err(e) => Err(e),
                }
            },
        },
    }
}

/// Once a prefix fails, every longer prefix fails the same way.
proof fn lemma_mask_prefix_err(rows: Seq<Option<u64>>, k: nat, n: nat)
    requires
        k <= n,
        spec_mask_prefix(rows, k) is Err,
    ensures
        spec_mask_prefix(rows, n) == spec_mask_prefix(rows, k),
    decreases n - k,
{
    if k < n {
        lemma_mask_prefix_err(rows, k, (n - 1) as nat);
    }
}

/// Compiles an animation event mask declaration.
pub fn compile_animation_event_masks(masks: &MaskRows, pose_frames: Option<usize>) -> (r: Result<Option<Vec<u8>>, SidecarError>)
    ensures
        match spec_event_masks(*masks, pose_frames) {
            Ok(Some(v)) => r matches Ok(Some(out)) && out@ == v,
            Ok(None) => r matches Ok(None),
            Err(e) => r == Err::<Option<Vec<u8>>, SidecarError>(e),
        },
{
    let rows = match masks {
        MaskRows::Absent => {
            return Ok(None);
        },
        MaskRows::NotArray => {
            return Err(SidecarError::MasksNotArray);
        },
        MaskRows::Rows(rows) => rows,
    };
    let Some(expected) = pose_frames else {
        return Err(SidecarError::MasksNeedAnimation);
    };
    if expected == 0 {
        return Err(SidecarError::MasksMissingPose);
    }
    if rows.len() > expected || rows.len() > MAX_SIDECAR_ROWS {
        return Err(SidecarError::TooManyMasks { rows: rows.len(), expected });
    }
    let mut linked: Vec<u8> = Vec::new();
    let mut frame: usize = 0;
    while frame < rows.len()
        invariant
            frame <= rows.len(),
            *masks == MaskRows::Rows(*rows),
            pose_frames == Some(expected),
            expected > 0,
            rows@.len() <= expected,
            rows@.len() <= MAX_SIDECAR_ROWS,
            spec_mask_prefix(rows@, frame as nat) == Ok::<Seq<u8>, SidecarError>(linked@),
        decreases rows.len() - frame,
    {
        let ok = match rows[frame] {
            Some(v) => v <= 0xff,
            None => false,
        };
        if !ok {
            proof {
                lemma_mask_prefix_err(rows@, (frame + 1) as nat, rows@.len());
            }
            return Err(SidecarError::MaskNotU8 { frame });
        }
        let v = rows[frame].unwrap();
        linked.push(v as u8);
        frame = frame + 1;
    }
    Ok(Some(linked))
}


proof fn lemma_mask_prefix_len(rows: Seq<Option<u64>>, n: nat)
    ensures
        spec_mask_prefix(rows, n) matches Ok(v) ==> v.len() == n,
    decreases n,
{
    if n > 0 {
        lemma_mask_prefix_len(rows, (n - 1) as nat);
    }
}

proof fn lemma_trace_prefix_shape(rows: Seq<TraceRow>, n: nat)
    ensures
        spec_trace_prefix(rows, n) matches Ok(v) ==> v.len() == n && forall|i: int| 0 <= i < n ==> (#[trigger] v[i]).len() == 4,
    decreases n,
{
    reveal(spec_trace_row);
    if n > 0 {
        lemma_trace_prefix_shape(rows, (n - 1) as nat);
        if spec_trace_prefix(rows, n) is Ok {
            let v = spec_trace_prefix(rows, n)->Ok_0;
            let p = spec_trace_prefix(rows, (n - 1) as nat)->Ok_0;
            assert forall|i: int| 0 <= i < n implies (#[trigger] v[i]).len() == 4 by {
                if i < n - 1 {
                    assert(v[i] == p[i]);
                }
            }
        }
    }
}

/// Compiled sidecars stay frame aligned: a mask table never has more rows
/// than its pose has frames, and a command trace has one row of exactly
/// four variables per frame, for `1..=MAX_SIDECAR_ROWS` frames.
pub proof fn law_sidecars_are_frame_aligned(masks: MaskRows, pose_frames: Option<usize>, cmd_vars: Option<Seq<TraceRow>>)
    ensures
        spec_event_masks(masks, pose_frames) matches Ok(Some(v)) ==> (pose_frames matches Some(n) && 0 < n && v.len() <= n),
        spec_command_trace(cmd_vars) matches Ok(t) ==> (cmd_vars matches Some(rows) && t.len() == rows.len()
            && 0 < t.len() <= MAX_SIDECAR_ROWS && forall|i: int| 0 <= i < t.len() ==> (#[trigger] t[i]).len() == 4),
{
    if let MaskRows::Rows(rows) = masks {
        lemma_mask_prefix_len(rows@, rows@.len());
    }
    if let Some(rows) = cmd_vars {
        lemma_trace_prefix_shape(rows, rows.len());
    }
}

/// A compiled command variable read from cell `c`: nothing for null, the
/// cell's own value for an unsigned integer (which fits 32 bits), some value
/// for another number, and never one for a cell that is not a number.
pub open spec fn cell_compiles_to(c: TraceCell, o: Option<u32>) -> bool {
    match c {
        TraceCell::Null => o is None,
        TraceCell::Unsigned(v) => v <= 0xffff_ffff && o == Some(v as u32),
        TraceCell::Number(_) => o is Some,
        TraceCell::Other => false,
    }
}

/// Row `row` compiles to the variables `r`: it is an array of four cells
/// and each variable is what its cell holds.
pub open spec fn row_compiles_to(row: TraceRow, r: Seq<Option<u32>>) -> bool {
    &&& row is Columns
    &&& row->Columns_0@.len() == 4
    &&& r.len() == 4
    &&& forall|j: int| 0 <= j < 4 ==> cell_compiles_to(row->Columns_0@[j], #[trigger] r[j])
}

proof fn lemma_cell_values(c: TraceCell)
    ensures
        spec_cell_value(c) matches Some(o) ==> cell_compiles_to(c, o),
{
}

proof fn lemma_row_values(row: TraceRow, frame: usize)
    ensures
        spec_trace_row(row, frame) matches Ok(r) ==> row_compiles_to(row, r),
{
    reveal(spec_trace_row);
    if let TraceRow::Columns(cs) = row {
        let c = cs@;
        if c.len() == 4 {
            lemma_cell_values(c[0]);
            lemma_cell_values(c[1]);
            lemma_cell_values(c[2]);
            lemma_cell_values(c[3]);
            if spec_trace_row(row, frame) is Ok {
                let r = spec_trace_row(row, frame)->Ok_0;
                assert forall|j: int| 0 <= j < 4 implies cell_compiles_to(c[j], #[trigger] r[j]) by {
                    if j == 0 {
                    } else if j == 1 {
                    } else if j == 2 {
                    } else {
                    }
                }
            }
        }
    }
}

proof fn lemma_trace_prefix_values(rows: Seq<TraceRow>, n: nat)
    requires
        n <= rows.len(),
    ensures
        spec_trace_prefix(rows, n) matches Ok(t) ==> t.len() == n
            && forall|i: int| 0 <= i < n ==> row_compiles_to(rows[i], #[trigger] t[i]),
    decreases n,
{
    if n > 0 {
        lemma_trace_prefix_values(rows, (n - 1) as nat);
        lemma_row_values(rows[n - 1], (n - 1) as usize);
        if spec_trace_prefix(rows, n) is Ok {
            let t = spec_trace_prefix(rows, n)->Ok_0;
            let p = spec_trace_prefix(rows, (n - 1) as nat)->Ok_0;
            assert forall|i: int| 0 <= i < n implies row_compiles_to(rows[i], #[trigger] t[i]) by {
                if i < n - 1 {
                    assert(t[i] == p[i]);
                }
            }
        }
    }
}

proof fn lemma_mask_prefix_values(rows: Seq<Option<u64>>, n: nat)
    requires
        n <= rows.len(),
    ensures
        spec_mask_prefix(rows, n) matches Ok(v) ==> v.len() == n && forall|i: int| 0 <= i < n ==> rows[i] == Some(#[trigger] v[i] as u64),
    decreases n,
{
    if n > 0 {
        lemma_mask_prefix_values(rows, (n - 1) as nat);
        if spec_mask_prefix(rows, n) is Ok {
            let v = spec_mask_prefix(rows, n)->Ok_0;
            let p = spec_mask_prefix(rows, (n - 1) as nat)->Ok_0;
            assert forall|i: int| 0 <= i < n implies rows[i] == Some(#[trigger] v[i] as u64) by {
                if i < n - 1 {
                    assert(v[i] == p[i]);
                }
            }
        }
    }
}

/// Compiled sidecars keep the declared values: each mask byte is the row
/// declared for its frame, and each command variable is what its cell
/// holds: nothing for null, the cell's own value for an unsigned integer of
/// at most 32 bits.  A row that is not an array of four cells, or a cell
/// that is not a number or null, is never compiled.
pub proof fn law_compiled_sidecars_keep_their_values(masks: MaskRows, pose_frames: Option<usize>, cmd_vars: Option<Seq<TraceRow>>, i: int)
    ensures
        spec_event_masks(masks, pose_frames) matches Ok(Some(v)) ==> (masks is Rows && masks->Rows_0@.len() == v.len()
            && (0 <= i < v.len() ==> masks->Rows_0@[i] == Some(v[i] as u64))),
        spec_command_trace(cmd_vars) matches Ok(t) ==> (cmd_vars is Some && t.len() == cmd_vars->0.len()
            && (0 <= i < t.len() ==> row_compiles_to(cmd_vars->0[i], t[i]))),
{
    if let MaskRows::Rows(rows) = masks {
        lemma_mask_prefix_values(rows@, rows@.len());
    }
    if let Some(rows) = cmd_vars {
        lemma_trace_prefix_values(rows, rows.len());
    }
}

} // verus!