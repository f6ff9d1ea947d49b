use skirmish_script::sidecars::{
    command_trace_value, compile_animation_event_masks, compile_command_trace, validate_command_trace_lengths, MaskRows,
    SidecarError, TraceCell, TraceRow,
};

fn number(value: f64) -> TraceCell {
    TraceCell::Number(value.to_bits())
}

fn row(cells: Vec<TraceCell>) -> TraceRow {
    TraceRow::Columns(cells)
}

#[test]
fn command_trace_links_resource_object_and_integral_float_values() {
    let rows = vec![row(vec![number(1.0), TraceCell::Null, number(4294967295.0), TraceCell::Unsigned(0)])];
    let linked = compile_command_trace(Some(&rows)).unwrap();
    assert_eq!(linked[0], [Some(1), None, Some(u32::MAX), Some(0)]);
}

#[test]
fn animation_event_masks_compile_with_zero_suffix_and_frame_bound() {
    let masks = MaskRows::Rows(vec![Some(0), Some(1)]);
    assert_eq!(compile_animation_event_masks(&masks, Some(3)).unwrap().unwrap(), vec![0, 1]);
    let masks = MaskRows::Rows(vec![Some(0), Some(1), Some(2), Some(3)]);
    assert!(compile_animation_event_masks(&masks, Some(3)).is_err());
}

#[test]
fn animation_event_masks_require_typed_u8_rows_and_attack() {
    let masks = MaskRows::Rows(vec![Some(256)]);
    assert!(compile_animation_event_masks(&masks, Some(1)).is_err());
    assert!(compile_animation_event_masks(&masks, None).is_err());
}

#[test]
fn command_trace_rejects_invalid_values_columns_and_frame_counts() {
    let rows = vec![row(vec![number(1.5), TraceCell::Null, TraceCell::Null, TraceCell::Null])];
    assert!(compile_command_trace(Some(&rows)).is_err());
    let rows = vec![row(vec![TraceCell::Unsigned(1), TraceCell::Null, TraceCell::Null])];
    assert!(compile_command_trace(Some(&rows)).is_err());
    let rows = vec![row(vec![
        TraceCell::Unsigned(u64::from(u32::MAX) + 1),
        TraceCell::Null,
        TraceCell::Null,
        TraceCell::Null,
    ])];
    assert!(compile_command_trace(Some(&rows)).is_err());
    assert!(compile_command_trace(Some(&vec![])).is_err());
}

#[test]
fn command_trace_errors_name_frame_and_column() {
    let rows = vec![
        row(vec![TraceCell::Null, TraceCell::Null, TraceCell::Null, TraceCell::Null]),
        row(vec![TraceCell::Null, TraceCell::Null, number(-2.0), TraceCell::Other]),
    ];
    assert_eq!(compile_command_trace(Some(&rows)), Err(SidecarError::InvalidCell { frame: 1, column: 2 }));
    let rows = vec![TraceRow::Other];
    assert_eq!(compile_command_trace(Some(&rows)), Err(SidecarError::RowNotArray { frame: 0 }));
    let rows = vec![row(vec![TraceCell::Null])];
    assert_eq!(compile_command_trace(Some(&rows)), Err(SidecarError::ColumnCount { frame: 0 }));
    assert_eq!(compile_command_trace(None), Err(SidecarError::UnknownTrace));
    let too_many: Vec<TraceRow> = (0..4097).map(|_| row(vec![TraceCell::Null; 4])).collect();
    assert_eq!(compile_command_trace(Some(&too_many)), Err(SidecarError::FrameCount));
}

#[test]
fn trace_cells_accept_only_whole_numbers_in_u32_range() {
    assert_eq!(command_trace_value(&TraceCell::Null), Some(None));
    assert_eq!(command_trace_value(&TraceCell::Unsigned(7)), Some(Some(7)));
    assert_eq!(command_trace_value(&number(0.0)), Some(Some(0)));
    assert_eq!(command_trace_value(&number(-0.0)), Some(Some(0)));
    assert_eq!(command_trace_value(&number(12.0)), Some(Some(12)));
    assert_eq!(command_trace_value(&number(0.5)), None);
    assert_eq!(command_trace_value(&number(-1.0)), None);
    assert_eq!(command_trace_value(&number(4294967296.0)), None);
    assert_eq!(command_trace_value(&number(f64::NAN)), None);
    assert_eq!(command_trace_value(&number(f64::INFINITY)), None);
    assert_eq!(command_trace_value(&number(1e-310)), None);
    assert_eq!(command_trace_value(&TraceCell::Other), None);
}

#[test]
fn mask_errors_follow_declaration_order() {
    assert_eq!(compile_animation_event_masks(&MaskRows::Absent, None), Ok(None));
    assert_eq!(compile_animation_event_masks(&MaskRows::NotArray, Some(3)), Err(SidecarError::MasksNotArray));
    let masks = MaskRows::Rows(vec![Some(1)]);
    assert_eq!(compile_animation_event_masks(&masks, None), Err(SidecarError::MasksNeedAnimation));
    assert_eq!(compile_animation_event_masks(&masks, Some(0)), Err(SidecarError::MasksMissingPose));
    let masks = MaskRows::Rows(vec![Some(1), None, Some(300)]);
    assert_eq!(compile_animation_event_masks(&masks, Some(3)), Err(SidecarError::MaskNotU8 { frame: 1 }));
    assert_eq!(
        compile_animation_event_masks(&masks, Some(2)),
        Err(SidecarError::TooManyMasks { rows: 3, expected: 2 })
    );
}

#[test]
fn trace_lengths_must_match_the_pose() {
    assert_eq!(validate_command_trace_lengths(None, None, None), Ok(()));
    assert_eq!(validate_command_trace_lengths(Some(0), Some(1), Some(1)), Err(SidecarError::MissingPose));
    assert_eq!(validate_command_trace_lengths(Some(2), None, Some(2)), Err(SidecarError::MissingCmdVars));
    assert_eq!(validate_command_trace_lengths(Some(2), Some(2), None), Err(SidecarError::MissingAllowInterrupt));
    assert_eq!(
        validate_command_trace_lengths(Some(2), Some(2), Some(3)),
        Err(SidecarError::RowCountMismatch { command_rows: 2, interrupt_rows: 3, expected: 2 })
    );
    assert_eq!(validate_command_trace_lengths(Some(2), Some(2), Some(2)), Ok(()));
}
